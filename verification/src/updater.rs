//! The record updater: the request that writes one record, and what the
//! provider's answer to it amounts to.
//!
//! A request is built for every attempt and sent once. A write that failed is
//! reported, never sent again on its own: the provider's interface makes no
//! promise that a repeated write is harmless.

use vstd::prelude::*;
use vstd::string::*;
use crate::address::Address;
use crate::record::DnsRecord;
use crate::resolver::{
    classify, fault_kind, is_success, resolver_policy, success_status, ClientPolicy, Failure,
    HttpReply,
};

verus! {

/// The body of a write request, field by field as the provider's interface
/// names them.
#[derive(Clone, Debug)]
pub struct ApiBody {
    /// The `type` field: `A` or `AAAA`.
    pub record_type: &'static str,
    pub name: String,
    pub ttl: u32,
    pub proxied: bool,
    /// The literal of the address that the record is to hold.
    pub content: String,
}

/// One write request: a `PUT` of `body` to `url`, authorized by `api_token`
/// as a bearer token.
#[derive(Clone, Debug)]
pub struct PushRequest {
    pub url: String,
    pub api_token: String,
    pub body: ApiBody,
}

/// The result of the attempt to write one record.
#[derive(Clone, Copy, Debug, PartialEq, Eq, Structural)]
pub enum UpdateOutcome {
    Success,
    Failure(Failure),
}

/// The address of the record `dns_id` of the zone `zone_id` at the
/// provider's interface.
pub open spec fn record_url(zone_id: Seq<char>, dns_id: Seq<char>) -> Seq<char> {
    "https://api.cloudflare.com/client/v4/zones/"@ + zone_id + "/dns_records/"@ + dns_id
}

/// Whether `request` is the request that writes `ip` to the record `info`.
pub open spec fn is_push_of(request: PushRequest, ip: Address, info: DnsRecord) -> bool {
    &&& request.url@ == record_url(info.zone_id@, info.dns_id@)
    &&& request.api_token@ == info.api_token@
    &&& request.body.record_type@ == info.record_type.name()
    &&& request.body.name@ == info.name@
    &&& request.body.ttl == info.ttl
    &&& request.body.proxied == info.proxied
    &&& request.body.content@ == ip.text()
}

/// What the provider's answer to a write amounts to: a success where it
/// answered with a success status, whatever the body; else the reason why
/// not.
pub open spec fn outcome_of(reply: HttpReply) -> UpdateOutcome {
    match reply {
        HttpReply::Failed(fault) => UpdateOutcome::Failure(fault_kind(fault)),
        HttpReply::Response { status, body } => if success_status(status) {
            UpdateOutcome::Success
        } else {
            UpdateOutcome::Failure(Failure::BadStatus(status))
        },
    }
}

/// The policy of the updater's client: the timeouts of the resolver, and no
/// second try. A write that failed is reported, not repeated.
pub fn updater_policy() -> (policy: ClientPolicy)
    ensures
        policy == (ClientPolicy { connect_timeout_secs: 5, read_timeout_secs: 5, retries: 0 }),
{
    let resolver = resolver_policy();
    ClientPolicy {
        connect_timeout_secs: resolver.connect_timeout_secs,
        read_timeout_secs: resolver.read_timeout_secs,
        retries: 0,
    }
}

/// Builds the request that writes `ip` to the record `info`.
pub fn ask_api(ip: Address, info: &DnsRecord) -> (request: PushRequest)
    ensures
        is_push_of(request, ip, *info),
{
    let mut url = String::from_str("https://api.cloudflare.com/client/v4/zones/");
    url.append(info.zone_id.as_str());
    url.append("/dns_records/");
    url.append(info.dns_id.as_str());
    PushRequest {
        url,
        api_token: info.api_token.clone(),
        body: ApiBody {
            record_type: info.record_type.as_str(),
            name: info.name.clone(),
            ttl: info.ttl,
            proxied: info.proxied,
            content: ip.to_text(),
        },
    }
}

/// Judges the provider's answer to one write.
pub fn push_outcome(reply: &HttpReply) -> (outcome: UpdateOutcome)
    ensures
        outcome == outcome_of(*reply),
        outcome != UpdateOutcome::Failure(Failure::MalformedAddress),
{
    match reply {
        HttpReply::Failed(fault) => UpdateOutcome::Failure(classify(*fault)),
        HttpReply::Response { status, body: _ } => if is_success(*status) {
            UpdateOutcome::Success
        } else {
            UpdateOutcome::Failure(Failure::BadStatus(*status))
        },
    }
}

} // verus!
