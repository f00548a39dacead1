//! The update cycle of one family: resolve the address, let it through the
//! change detector, and write it to every record of the family.
//!
//! The cycle performs no request itself. [`update_ip`] is told what happened
//! and answers with what is to be done next; whoever drives it sends the
//! requests and reports how they ended. Resolution comes strictly before the
//! change detector, and the change detector strictly before any write.

use vstd::prelude::*;
use vstd::string::*;
use crate::address::Address;
use crate::config::Config;
use crate::detector::{lemma_observe, ChangeDetector};
use crate::record::{DnsRecord, RecordType};
use crate::resolver::{get_ip, resolution, Failure, HttpReply};
use crate::updater::{
    ask_api, is_push_of, outcome_of, push_outcome, PushRequest, UpdateOutcome,
};

verus! {

/// How far a cycle has come.
#[derive(Clone, Copy, Debug, PartialEq, Eq, Structural)]
pub enum CyclePhase {
    /// Nothing has been done yet.
    Ready,
    /// The echo endpoint has been asked; its answer is awaited.
    Resolving,
    /// The writes have been handed out; their answers are awaited.
    Pushing,
    /// The cycle is complete.
    Done,
}

/// What happened since the cycle last said what to do.
#[derive(Clone, Debug)]
pub enum CycleEvent {
    /// The cycle is to begin.
    Start,
    /// The exchange with the echo endpoint ended.
    Resolved(HttpReply),
    /// Every write ended; the replies stand in the order of the requests.
    Pushed(Vec<HttpReply>),
}

/// What is to be done next.
#[derive(Clone, Debug)]
pub enum CycleAction {
    /// Send one `GET` to this address of the echo endpoint.
    Resolve(String),
    /// Send these writes, all at once and each on its own, and wait for all
    /// of them.
    Push(Vec<PushRequest>),
    /// Nothing more: the cycle is complete, with these outcomes of its
    /// writes, in the order of the records.
    Finish(Vec<UpdateOutcome>),
}

/// The address that `detector` lets a resolution through with: the resolved
/// address, where there is one and it differs from the one last seen.
pub open spec fn let_through(detector: ChangeDetector, resolved: Result<Address, Failure>) -> Option<
    Address,
> {
    match resolved {
        Ok(address) => if detector.differs(address) {
            Some(address)
        } else {
            None
        },
        Err(_) => None,
    }
}

/// The detector after it was shown a resolution.
pub open spec fn after_resolution(
    detector: ChangeDetector,
    resolved: Result<Address, Failure>,
) -> ChangeDetector {
    match resolved {
        Ok(address) => detector.observe(address),
        Err(_) => detector,
    }
}

/// The detector that a step of the cycle of `ip_version` leaves behind: only
/// the end of a resolution can change it.
pub open spec fn step_detector(
    ip_version: RecordType,
    before: ChangeDetector,
    phase: CyclePhase,
    event: CycleEvent,
) -> ChangeDetector {
    match (phase, event) {
        (CyclePhase::Resolving, CycleEvent::Resolved(reply)) => after_resolution(
            before,
            resolution(ip_version, reply),
        ),
        _ => before,
    }
}

/// Whether `requests` are the writes of `ip` to `records`: one for each
/// record, in their order.
pub open spec fn are_pushes_of(requests: Seq<PushRequest>, ip: Address, records: Seq<DnsRecord>) -> bool {
    &&& requests.len() == records.len()
    &&& forall|i: int| 0 <= i < records.len() ==> is_push_of(#[trigger] requests[i], ip, records[i])
}

/// The outcome of each write, judged from its own reply alone.
pub open spec fn outcomes_of(replies: Seq<HttpReply>) -> Seq<UpdateOutcome> {
    Seq::new(replies.len(), |i: int| outcome_of(replies[i]))
}

/// Whether a step is the end of the cycle with no write to report.
pub open spec fn ends_quietly(next: (CyclePhase, CycleAction)) -> bool {
    &&& next.0 == CyclePhase::Done
    &&& next.1 matches CycleAction::Finish(outcomes)
    &&& outcomes@.len() == 0
}

/// The number of writes that a step hands out.
pub open spec fn pushes(action: CycleAction) -> nat {
    match action {
        CycleAction::Push(requests) => requests@.len(),
        _ => 0,
    }
}

/// Whether `next`, with the detector `after`, is the step of the cycle of
/// `ip_version` over `records` that follows `event` in `phase` with the
/// detector `before`; `endpoint` is the echo endpoint of the family.
///
/// * At the start, nothing is asked where there are no records: the cycle is
///   complete at once. Else the echo endpoint is to be asked.
/// * When the exchange with the echo endpoint has ended, the address it
///   resolves to goes through the change detector. Where there is no address,
///   or the address is the one last seen, the cycle is complete without a
///   write. Else the address is committed and one write for each record is
///   handed out.
/// * When the writes have ended, each reply is judged on its own and the
///   cycle is complete, whatever the outcomes.
/// * An event that does not belong to the phase completes the cycle without
///   a request.
pub open spec fn is_cycle_step(
    ip_version: RecordType,
    records: Seq<DnsRecord>,
    endpoint: Seq<char>,
    before: ChangeDetector,
    phase: CyclePhase,
    event: CycleEvent,
    after: ChangeDetector,
    next: (CyclePhase, CycleAction),
) -> bool {
    match (phase, event) {
        (CyclePhase::Ready, CycleEvent::Start) => {
            &&& after == before
            &&& if records.len() == 0 {
                ends_quietly(next)
            } else {
                &&& next.0 == CyclePhase::Resolving
                &&& next.1 matches CycleAction::Resolve(url)
                &&& url@ == endpoint
            }
        },
        (CyclePhase::Resolving, CycleEvent::Resolved(reply)) => {
            let resolved = resolution(ip_version, reply);
            &&& after == after_resolution(before, resolved)
            &&& match let_through(before, resolved) {
                Some(ip) => {
                    &&& next.0 == CyclePhase::Pushing
                    &&& next.1 matches CycleAction::Push(requests)
                    &&& are_pushes_of(requests@, ip, records)
                },
                None => ends_quietly(next),
            }
        },
        (CyclePhase::Pushing, CycleEvent::Pushed(replies)) => {
            &&& after == before
            &&& next.0 == CyclePhase::Done
            &&& next.1 matches CycleAction::Finish(outcomes)
            &&& outcomes@ == outcomes_of(replies@)
        },
        _ => after == before && ends_quietly(next),
    }
}

/// The writes of `ip` to `records`.
fn fan_out(ip: Address, records: &Vec<DnsRecord>) -> (requests: Vec<PushRequest>)
    ensures
        are_pushes_of(requests@, ip, records@),
{
    let mut requests: Vec<PushRequest> = Vec::new();
    let mut i: usize = 0;
    while i < records.len()
        invariant
            i <= records@.len(),
            requests@.len() == i,
            forall|j: int| 0 <= j < i ==> is_push_of(#[trigger] requests@[j], ip, records@[j]),
        decreases records@.len() - i,
    {
        requests.push(ask_api(ip, &records[i]));
        i += 1;
    }
    requests
}

/// The outcome of each write, in the order of the replies.
fn collect(replies: &Vec<HttpReply>) -> (outcomes: Vec<UpdateOutcome>)
    ensures
        outcomes@ == outcomes_of(replies@),
{
    let mut outcomes: Vec<UpdateOutcome> = Vec::new();
    let mut i: usize = 0;
    while i < replies.len()
        invariant
            i <= replies@.len(),
            outcomes@.len() == i,
            forall|j: int| 0 <= j < i ==> #[trigger] outcomes@[j] == outcome_of(replies@[j]),
        decreases replies@.len() - i,
    {
        outcomes.push(push_outcome(&replies[i]));
        i += 1;
    }
    assert(outcomes@ =~= outcomes_of(replies@));
    outcomes
}

/// One step of the cycle of `ip_version` over `records`, the records of that
/// family: takes the phase the cycle is in and what happened, and returns the
/// phase it is in now and what is to be done next. The detector is touched
/// only where an address is resolved, and committed to only where that
/// address is a new one.
pub fn update_ip(
    ip_version: RecordType,
    records: &Vec<DnsRecord>,
    config: &Config,
    detector: &mut ChangeDetector,
    phase: CyclePhase,
    event: CycleEvent,
) -> (next: (CyclePhase, CycleAction))
    ensures
        is_cycle_step(
            ip_version,
            records@,
            config.endpoint_of(ip_version),
            *old(detector),
            phase,
            event,
            *final(detector),
            next,
        ),
{
    match (phase, event) {
        (CyclePhase::Ready, CycleEvent::Start) => {
            if records.len() == 0 {
                (CyclePhase::Done, CycleAction::Finish(Vec::new()))
            } else {
                let url = String::from_str(config.endpoint(ip_version));
                (CyclePhase::Resolving, CycleAction::Resolve(url))
            }
        },
        (CyclePhase::Resolving, CycleEvent::Resolved(reply)) => {
            match get_ip(ip_version, &reply) {
                Ok(ip) => {
                    if detector.has_changed(ip) {
                        (CyclePhase::Pushing, CycleAction::Push(fan_out(ip, records)))
                    } else {
                        (CyclePhase::Done, CycleAction::Finish(Vec::new()))
                    }
                },
                Err(_) => (CyclePhase::Done, CycleAction::Finish(Vec::new())),
            }
        },
        (CyclePhase::Pushing, CycleEvent::Pushed(replies)) => {
            (CyclePhase::Done, CycleAction::Finish(collect(&replies)))
        },
        _ => (CyclePhase::Done, CycleAction::Finish(Vec::new())),
    }
}

/// The echo endpoint is asked only at the start of a cycle, and only for a
/// family that has records; writes are handed out only when an address was
/// resolved, and only one that the detector had not seen last.
pub proof fn lemma_requests_come_in_order(
    ip_version: RecordType,
    records: Seq<DnsRecord>,
    endpoint: Seq<char>,
    before: ChangeDetector,
    phase: CyclePhase,
    event: CycleEvent,
    after: ChangeDetector,
    next: (CyclePhase, CycleAction),
)
    requires
        is_cycle_step(ip_version, records, endpoint, before, phase, event, after, next),
    ensures
        next.1 is Resolve ==> phase == CyclePhase::Ready && event is Start && records.len() > 0,
        next.1 is Push ==> phase == CyclePhase::Resolving && event is Resolved && resolution(
            ip_version,
            event->Resolved_0,
        ) is Ok && before.differs(resolution(ip_version, event->Resolved_0)->Ok_0),
        after != before ==> next.1 is Push,
{
}

/// A family without records never comes to ask its echo endpoint: whatever
/// happens, no step of its cycle asks for a resolution, and its start is its
/// end.
pub proof fn lemma_empty_family_is_skipped(
    ip_version: RecordType,
    endpoint: Seq<char>,
    before: ChangeDetector,
    phase: CyclePhase,
    event: CycleEvent,
    after: ChangeDetector,
    next: (CyclePhase, CycleAction),
)
    requires
        is_cycle_step(ip_version, Seq::empty(), endpoint, before, phase, event, after, next),
    ensures
        !(next.1 is Resolve),
        pushes(next.1) == 0,
        phase == CyclePhase::Ready ==> ends_quietly(next) && after == before,
{
}

/// When two cycles in a row resolve to the same address, the second writes
/// nothing and leaves the detector as it found it; and the two together hand
/// out one write for each record where the address was new to the first,
/// none where it was not.
pub proof fn lemma_same_address_is_pushed_once(
    ip_version: RecordType,
    records: Seq<DnsRecord>,
    endpoint: Seq<char>,
    before: ChangeDetector,
    first: HttpReply,
    between: ChangeDetector,
    first_next: (CyclePhase, CycleAction),
    second: HttpReply,
    after: ChangeDetector,
    second_next: (CyclePhase, CycleAction),
)
    requires
        resolution(ip_version, first) is Ok,
        resolution(ip_version, second) == resolution(ip_version, first),
        is_cycle_step(
            ip_version,
            records,
            endpoint,
            before,
            CyclePhase::Resolving,
            CycleEvent::Resolved(first),
            between,
            first_next,
        ),
        is_cycle_step(
            ip_version,
            records,
            endpoint,
            between,
            CyclePhase::Resolving,
            CycleEvent::Resolved(second),
            after,
            second_next,
        ),
    ensures
        ends_quietly(second_next),
        pushes(second_next.1) == 0,
        after == between,
        pushes(first_next.1) + pushes(second_next.1) == if before.differs(
            resolution(ip_version, first)->Ok_0,
        ) {
            records.len()
        } else {
            0
        },
{
    let address = resolution(ip_version, first)->Ok_0;
    lemma_observe(before, address);
}

/// The first resolution of a family whose slot is still empty is written to
/// every record of the family, whatever the address: at least one write
/// where there is at least one record.
pub proof fn lemma_first_resolution_is_pushed(
    ip_version: RecordType,
    records: Seq<DnsRecord>,
    endpoint: Seq<char>,
    before: ChangeDetector,
    reply: HttpReply,
    after: ChangeDetector,
    next: (CyclePhase, CycleAction),
)
    requires
        before.last(ip_version) is None,
        resolution(ip_version, reply) is Ok,
        is_cycle_step(
            ip_version,
            records,
            endpoint,
            before,
            CyclePhase::Resolving,
            CycleEvent::Resolved(reply),
            after,
            next,
        ),
    ensures
        next.1 is Push,
        pushes(next.1) == records.len(),
        records.len() >= 1 ==> pushes(next.1) >= 1,
        after.last(ip_version) == Some(resolution(ip_version, reply)->Ok_0),
{
    crate::resolver::lemma_resolution_is_of_family(ip_version, reply);
    lemma_observe(before, resolution(ip_version, reply)->Ok_0);
}

/// The cycles of the two families do not touch each other. Whatever a step
/// of the other family's cycle did, a failure to resolve included, a step of
/// this family's cycle that follows it is the very step that would have been
/// taken had the other not happened, and it leaves this family's slot as it
/// would have been left.
pub proof fn lemma_cycles_of_families_are_independent(
    ip_version: RecordType,
    records: Seq<DnsRecord>,
    endpoint: Seq<char>,
    phase: CyclePhase,
    event: CycleEvent,
    other_records: Seq<DnsRecord>,
    other_endpoint: Seq<char>,
    other_phase: CyclePhase,
    other_event: CycleEvent,
    other_next: (CyclePhase, CycleAction),
    before: ChangeDetector,
    between: ChangeDetector,
    after: ChangeDetector,
    next: (CyclePhase, CycleAction),
)
    requires
        is_cycle_step(
            ip_version.other(),
            other_records,
            other_endpoint,
            before,
            other_phase,
            other_event,
            between,
            other_next,
        ),
        is_cycle_step(ip_version, records, endpoint, between, phase, event, after, next),
    ensures
        between.last(ip_version) == before.last(ip_version),
        is_cycle_step(
            ip_version,
            records,
            endpoint,
            before,
            phase,
            event,
            step_detector(ip_version, before, phase, event),
            next,
        ),
        step_detector(ip_version, before, phase, event).last(ip_version) == after.last(ip_version),
{
    let other = ip_version.other();
    match (other_phase, other_event) {
        (CyclePhase::Resolving, CycleEvent::Resolved(theirs)) => {
            crate::resolver::lemma_resolution_is_of_family(other, theirs);
            match resolution(other, theirs) {
                Ok(address) => {
                    lemma_observe(before, address);
                },
                Err(_) => {},
            }
        },
        _ => {},
    }
    match (phase, event) {
        (CyclePhase::Resolving, CycleEvent::Resolved(ours)) => {
            crate::resolver::lemma_resolution_is_of_family(ip_version, ours);
            match resolution(ip_version, ours) {
                Ok(address) => {
                    lemma_observe(before, address);
                    lemma_observe(between, address);
                },
                Err(_) => {},
            }
        },
        _ => {},
    }
}

/// Every write is judged from its own reply: there is one outcome for each
/// reply, and the outcome of one write is the same whatever became of the
/// others.
pub proof fn lemma_outcomes_are_independent(replies: Seq<HttpReply>, others: Seq<HttpReply>, i: int)
    requires
        0 <= i < replies.len(),
        others.len() == replies.len(),
        others[i] == replies[i],
    ensures
        outcomes_of(replies).len() == replies.len(),
        outcomes_of(replies)[i] == outcome_of(replies[i]),
        outcomes_of(others)[i] == outcomes_of(replies)[i],
{
}

/// The cycle always completes when its writes have ended: with one outcome
/// for each reply, failures among them or not.
pub proof fn lemma_cycle_completes_whatever_the_outcomes(
    ip_version: RecordType,
    records: Seq<DnsRecord>,
    endpoint: Seq<char>,
    before: ChangeDetector,
    replies: Vec<HttpReply>,
    after: ChangeDetector,
    next: (CyclePhase, CycleAction),
)
    requires
        is_cycle_step(
            ip_version,
            records,
            endpoint,
            before,
            CyclePhase::Pushing,
            CycleEvent::Pushed(replies),
            after,
            next,
        ),
    ensures
        next.0 == CyclePhase::Done,
        next.1 is Finish,
        next.1->Finish_0@.len() == replies@.len(),
        forall|i: int|
            0 <= i < replies@.len() ==> #[trigger] next.1->Finish_0@[i] == outcome_of(replies@[i]),
        after == before,
{
}

} // verus!
