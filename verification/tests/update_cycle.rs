use cloudflare_ddns::address::Address;
use cloudflare_ddns::config::{
    get_default_delay, get_default_ipv4_url, get_default_ipv6_url, get_default_log_level,
    get_default_mutli_thread, Config,
};
use cloudflare_ddns::controller::{run, RunAction, RunEvent, RunState, RunType};
use cloudflare_ddns::cycle::{update_ip, CycleAction, CycleEvent, CyclePhase};
use cloudflare_ddns::detector::ChangeDetector;
use cloudflare_ddns::record::{DnsRecord, RecordType};
use cloudflare_ddns::resolver::{
    classify, get_ip, is_success, Failure, HttpReply, TransportFault,
};
use cloudflare_ddns::updater::{ask_api, push_outcome, PushRequest, UpdateOutcome};

fn record(name: &str, record_type: RecordType) -> DnsRecord {
    DnsRecord {
        api_token: format!("token-of-{name}"),
        zone_id: "zone-1".to_string(),
        dns_id: format!("id-of-{name}"),
        record_type,
        name: name.to_string(),
        ttl: 300,
        proxied: true,
    }
}

fn config(dns_records: Vec<DnsRecord>) -> Config {
    Config {
        delay: get_default_delay(),
        mutli_thread: get_default_mutli_thread(),
        log_level: get_default_log_level(),
        ipv4_url: get_default_ipv4_url(),
        ipv6_url: get_default_ipv6_url(),
        dns_records,
    }
}

fn answer(status: u16, body: &str) -> HttpReply {
    HttpReply::Response { status, body: body.to_string() }
}

fn broken(timeout: bool, connect: bool) -> HttpReply {
    HttpReply::Failed(TransportFault { timeout, connect })
}

/// Drives one whole cycle. `echo` answers the resolver's request, `provider`
/// answers each write. Returns the address that was asked of the echo
/// endpoint, the writes that were sent and the outcomes that were reported.
fn drive(
    ip_version: RecordType,
    config: &Config,
    detector: &mut ChangeDetector,
    echo: &HttpReply,
    provider: &dyn Fn(&PushRequest) -> HttpReply,
) -> (Vec<String>, Vec<PushRequest>, Vec<UpdateOutcome>) {
    let records = config.records_of(ip_version);
    let mut asked = Vec::new();
    let mut sent = Vec::new();
    let mut phase = CyclePhase::Ready;
    let mut event = CycleEvent::Start;
    loop {
        let (next, action) = update_ip(ip_version, &records, config, detector, phase, event);
        phase = next;
        match action {
            CycleAction::Resolve(url) => {
                asked.push(url);
                event = CycleEvent::Resolved(echo.clone());
            }
            CycleAction::Push(requests) => {
                let replies = requests.iter().map(|r| provider(r)).collect();
                sent.extend(requests);
                event = CycleEvent::Pushed(replies);
            }
            CycleAction::Finish(outcomes) => {
                assert_eq!(phase, CyclePhase::Done);
                return (asked, sent, outcomes);
            }
        }
    }
}

fn accept(_: &PushRequest) -> HttpReply {
    answer(200, "{\"success\":true}")
}

#[test]
fn resolver_reads_the_trimmed_body() {
    assert_eq!(get_ip(RecordType::A, &answer(200, "203.0.113.7\n")), Ok(Address::V4(0xCB00_7107)));
    assert_eq!(get_ip(RecordType::A, &answer(200, "  203.0.113.7 \r\n")), Ok(Address::V4(0xCB00_7107)));
    assert_eq!(get_ip(RecordType::A, &answer(204, "203.0.113.7")), Ok(Address::V4(0xCB00_7107)));
    assert_eq!(
        get_ip(RecordType::AAAA, &answer(200, "2001:db8::1\n")),
        Ok(Address::V6(0x2001_0db8_0000_0000_0000_0000_0000_0001))
    );
}

#[test]
fn resolver_rejects_what_is_no_literal_of_the_family() {
    for body in ["", "\n", "not an address", "203.0.113.7 x", "203.0.113", "203. 0.113.7", "::1"] {
        assert_eq!(get_ip(RecordType::A, &answer(200, body)), Err(Failure::MalformedAddress), "{body:?}");
    }
    for body in ["", "203.0.113.7", ":::", "<html>::1</html>"] {
        assert_eq!(get_ip(RecordType::AAAA, &answer(200, body)), Err(Failure::MalformedAddress), "{body:?}");
    }
}

#[test]
fn resolver_reports_the_status_before_the_body() {
    assert_eq!(get_ip(RecordType::A, &answer(500, "203.0.113.7")), Err(Failure::BadStatus(500)));
    assert_eq!(get_ip(RecordType::A, &answer(199, "203.0.113.7")), Err(Failure::BadStatus(199)));
    assert_eq!(get_ip(RecordType::A, &answer(300, "203.0.113.7")), Err(Failure::BadStatus(300)));
    assert_eq!(get_ip(RecordType::A, &answer(404, "nothing")), Err(Failure::BadStatus(404)));
}

#[test]
fn resolver_classifies_broken_exchanges() {
    assert_eq!(get_ip(RecordType::A, &broken(true, false)), Err(Failure::Timeout));
    assert_eq!(get_ip(RecordType::A, &broken(true, true)), Err(Failure::Timeout));
    assert_eq!(get_ip(RecordType::A, &broken(false, true)), Err(Failure::ConnectError));
    assert_eq!(get_ip(RecordType::AAAA, &broken(false, false)), Err(Failure::OtherTransportError));
    assert_eq!(classify(TransportFault { timeout: true, connect: true }), Failure::Timeout);
}

#[test]
fn success_is_the_two_hundreds() {
    assert!(!is_success(199));
    assert!(is_success(200));
    assert!(is_success(299));
    assert!(!is_success(300));
    assert!(!is_success(0));
    assert!(!is_success(u16::MAX));
}

#[test]
fn detector_commits_only_what_differs() {
    let mut detector = ChangeDetector::new();
    assert_eq!(detector.last_known(RecordType::A), None);
    assert!(detector.has_changed(Address::V4(7)));
    assert_eq!(detector.last_known(RecordType::A), Some(Address::V4(7)));
    assert!(!detector.has_changed(Address::V4(7)));
    assert!(detector.has_changed(Address::V4(8)));
    assert!(detector.has_changed(Address::V4(7)));
    assert_eq!(detector.last_known(RecordType::A), Some(Address::V4(7)));
    assert_eq!(detector.last_known(RecordType::AAAA), None);
}

#[test]
fn detector_treats_the_unspecified_address_as_any_other() {
    let mut detector = ChangeDetector::new();
    assert!(detector.has_changed(Address::V4(0)));
    assert!(!detector.has_changed(Address::V4(0)));
    assert!(detector.has_changed(Address::V6(0)));
    assert!(!detector.has_changed(Address::V6(0)));
}

#[test]
fn detector_keeps_the_families_apart() {
    let mut detector = ChangeDetector::new();
    assert!(detector.has_changed(Address::V4(1)));
    assert!(detector.has_changed(Address::V6(1)));
    assert!(!detector.has_changed(Address::V4(1)));
    assert!(detector.has_changed(Address::V6(2)));
    assert!(!detector.has_changed(Address::V4(1)));
    assert_eq!(detector.last_known(RecordType::A), Some(Address::V4(1)));
    assert_eq!(detector.last_known(RecordType::AAAA), Some(Address::V6(2)));
}

#[test]
fn request_writes_the_address_to_the_record() {
    let info = record("home.example.com", RecordType::A);
    let request = ask_api(Address::V4(0xCB00_7107), &info);
    assert_eq!(request.url, "https://api.cloudflare.com/client/v4/zones/zone-1/dns_records/id-of-home.example.com");
    assert_eq!(request.api_token, "token-of-home.example.com");
    assert_eq!(request.body.record_type, "A");
    assert_eq!(request.body.name, "home.example.com");
    assert_eq!(request.body.ttl, 300);
    assert!(request.body.proxied);
    assert_eq!(request.body.content, "203.0.113.7");

    let info = record("six.example.com", RecordType::AAAA);
    let request = ask_api(Address::V6(0x2001_0db8_0000_0000_0000_0000_0000_0001), &info);
    assert_eq!(request.body.record_type, "AAAA");
    assert_eq!(request.body.content, "2001:db8::1");
}

#[test]
fn outcome_goes_by_the_status_alone() {
    assert_eq!(push_outcome(&answer(200, "")), UpdateOutcome::Success);
    assert_eq!(push_outcome(&answer(204, "whatever")), UpdateOutcome::Success);
    assert_eq!(push_outcome(&answer(403, "{}")), UpdateOutcome::Failure(Failure::BadStatus(403)));
    assert_eq!(push_outcome(&answer(500, "")), UpdateOutcome::Failure(Failure::BadStatus(500)));
    assert_eq!(push_outcome(&broken(true, false)), UpdateOutcome::Failure(Failure::Timeout));
    assert_eq!(push_outcome(&broken(false, true)), UpdateOutcome::Failure(Failure::ConnectError));
    assert_eq!(push_outcome(&broken(false, false)), UpdateOutcome::Failure(Failure::OtherTransportError));
}

#[test]
fn same_address_twice_is_pushed_once() {
    let config = config(vec![record("home.example.com", RecordType::A)]);
    let mut detector = ChangeDetector::new();
    let echo = answer(200, "203.0.113.7\n");
    let (_, first, _) = drive(RecordType::A, &config, &mut detector, &echo, &accept);
    let (asked, second, outcomes) = drive(RecordType::A, &config, &mut detector, &echo, &accept);
    assert_eq!(first.len() + second.len(), 1);
    assert_eq!(asked.len(), 1);
    assert!(second.is_empty());
    assert!(outcomes.is_empty());
}

#[test]
fn same_address_in_another_spelling_is_no_change() {
    let config = config(vec![record("six.example.com", RecordType::AAAA)]);
    let mut detector = ChangeDetector::new();
    let (_, first, _) =
        drive(RecordType::AAAA, &config, &mut detector, &answer(200, "2001:DB8:0:0:0:0:0:1"), &accept);
    let (_, second, _) =
        drive(RecordType::AAAA, &config, &mut detector, &answer(200, "2001:db8::1"), &accept);
    assert_eq!(first.len(), 1);
    assert_eq!(first[0].body.content, "2001:db8::1");
    assert!(second.is_empty());
}

#[test]
fn changed_address_is_pushed_again() {
    let config = config(vec![record("home.example.com", RecordType::A)]);
    let mut detector = ChangeDetector::new();
    let (_, first, _) = drive(RecordType::A, &config, &mut detector, &answer(200, "203.0.113.7"), &accept);
    let (_, second, _) = drive(RecordType::A, &config, &mut detector, &answer(200, "203.0.113.8"), &accept);
    let (_, third, _) = drive(RecordType::A, &config, &mut detector, &answer(200, "203.0.113.7"), &accept);
    assert_eq!(first[0].body.content, "203.0.113.7");
    assert_eq!(second[0].body.content, "203.0.113.8");
    assert_eq!(third[0].body.content, "203.0.113.7");
}

#[test]
fn first_resolution_is_always_pushed() {
    for body in ["0.0.0.0", "203.0.113.7", "255.255.255.255"] {
        let config = config(vec![record("a", RecordType::A), record("b", RecordType::A)]);
        let mut detector = ChangeDetector::new();
        let (_, sent, outcomes) = drive(RecordType::A, &config, &mut detector, &answer(200, body), &accept);
        assert_eq!(sent.len(), 2, "{body}");
        assert_eq!(sent[0].body.content, body);
        assert_eq!(sent[0].body.name, "a");
        assert_eq!(sent[1].body.name, "b");
        assert_eq!(outcomes, [UpdateOutcome::Success, UpdateOutcome::Success]);
    }
    let config = config(vec![record("six", RecordType::AAAA)]);
    let mut detector = ChangeDetector::new();
    let (_, sent, _) = drive(RecordType::AAAA, &config, &mut detector, &answer(200, "::"), &accept);
    assert_eq!(sent.len(), 1);
    assert_eq!(sent[0].body.content, "::");
}

#[test]
fn failure_of_one_family_leaves_the_other_alone() {
    let config = config(vec![record("four", RecordType::A), record("six", RecordType::AAAA)]);
    let mut detector = ChangeDetector::new();
    let (asked6, sent6, _) = drive(RecordType::AAAA, &config, &mut detector, &broken(true, false), &accept);
    let (asked4, sent4, outcomes4) =
        drive(RecordType::A, &config, &mut detector, &answer(200, "203.0.113.7"), &accept);
    assert_eq!(asked6, ["https://ipv6.icanhazip.com/"]);
    assert!(sent6.is_empty());
    assert_eq!(asked4, ["https://ipv4.icanhazip.com/"]);
    assert_eq!(sent4.len(), 1);
    assert_eq!(sent4[0].body.name, "four");
    assert_eq!(outcomes4, [UpdateOutcome::Success]);
    // the failed family has committed nothing, and is pushed when it resolves
    let (_, later6, _) = drive(RecordType::AAAA, &config, &mut detector, &answer(200, "::1"), &accept);
    assert_eq!(later6.len(), 1);
}

#[test]
fn failed_resolution_commits_nothing() {
    let config = config(vec![record("four", RecordType::A)]);
    let mut detector = ChangeDetector::new();
    for echo in [broken(false, true), answer(503, "203.0.113.7"), answer(200, "garbage")] {
        let (asked, sent, outcomes) = drive(RecordType::A, &config, &mut detector, &echo, &accept);
        assert_eq!(asked.len(), 1);
        assert!(sent.is_empty());
        assert!(outcomes.is_empty());
        assert_eq!(detector.last_known(RecordType::A), None);
    }
}

#[test]
fn records_fail_and_succeed_on_their_own() {
    let config = config(vec![
        record("r1", RecordType::A),
        record("r2", RecordType::A),
        record("r3", RecordType::A),
    ]);
    let mut detector = ChangeDetector::new();
    let provider = |request: &PushRequest| match request.body.name.as_str() {
        "r1" => answer(403, "{\"success\":false}"),
        "r3" => broken(true, false),
        _ => answer(200, "{\"success\":true}"),
    };
    let (_, sent, outcomes) =
        drive(RecordType::A, &config, &mut detector, &answer(200, "203.0.113.7"), &provider);
    assert_eq!(sent.len(), 3);
    assert_eq!(
        outcomes,
        [
            UpdateOutcome::Failure(Failure::BadStatus(403)),
            UpdateOutcome::Success,
            UpdateOutcome::Failure(Failure::Timeout),
        ]
    );
    // a failed write is not tried again while the address stays
    let (_, again, _) = drive(RecordType::A, &config, &mut detector, &answer(200, "203.0.113.7"), &provider);
    assert!(again.is_empty());
}

#[test]
fn empty_family_asks_nothing() {
    let config = config(vec![record("four", RecordType::A)]);
    let mut detector = ChangeDetector::new();
    let (asked, sent, outcomes) =
        drive(RecordType::AAAA, &config, &mut detector, &answer(200, "::1"), &accept);
    assert!(asked.is_empty());
    assert!(sent.is_empty());
    assert!(outcomes.is_empty());
    assert_eq!(detector.last_known(RecordType::AAAA), None);
}

#[test]
fn event_out_of_turn_ends_the_cycle() {
    let config = config(vec![record("four", RecordType::A)]);
    let records = config.records_of(RecordType::A);
    let mut detector = ChangeDetector::new();
    let cases = [
        (CyclePhase::Ready, CycleEvent::Resolved(answer(200, "1.2.3.4"))),
        (CyclePhase::Ready, CycleEvent::Pushed(vec![answer(200, "")])),
        (CyclePhase::Resolving, CycleEvent::Start),
        (CyclePhase::Resolving, CycleEvent::Pushed(Vec::new())),
        (CyclePhase::Pushing, CycleEvent::Start),
        (CyclePhase::Pushing, CycleEvent::Resolved(answer(200, "1.2.3.4"))),
        (CyclePhase::Done, CycleEvent::Start),
        (CyclePhase::Done, CycleEvent::Resolved(answer(200, "1.2.3.4"))),
    ];
    for (phase, event) in cases {
        let (next, action) = update_ip(RecordType::A, &records, &config, &mut detector, phase, event);
        assert_eq!(next, CyclePhase::Done);
        assert!(matches!(action, CycleAction::Finish(ref outcomes) if outcomes.is_empty()));
        assert_eq!(detector.last_known(RecordType::A), None);
    }
}

#[test]
fn once_mode_scenario_with_one_a_record() {
    let config = config(vec![record("home.example.com", RecordType::A)]);
    assert_eq!(config.delay, 60);
    let mut detector = ChangeDetector::new();
    let mut gets: Vec<String> = Vec::new();
    let mut puts: Vec<PushRequest> = Vec::new();
    let mut state = RunState::Idle;
    let mut event = RunEvent::Start;
    let mut cycles = 0;
    let exit = loop {
        let (next, action) = run(RunType::Once, &config, state, event);
        state = next;
        match action {
            RunAction::BuildRuntime(multi_thread) => {
                assert!(!multi_thread);
                event = RunEvent::RuntimeBuilt(true);
            }
            RunAction::Cycle => {
                cycles += 1;
                for (family, echo) in [
                    (RecordType::A, answer(200, "203.0.113.7\n")),
                    (RecordType::AAAA, answer(200, "2001:db8::1\n")),
                ] {
                    let (asked, sent, _) = drive(family, &config, &mut detector, &echo, &accept);
                    gets.extend(asked);
                    puts.extend(sent);
                }
                event = RunEvent::CycleDone;
            }
            other => break other,
        }
    };
    assert_eq!(exit, RunAction::Exit);
    assert_eq!(state, RunState::Stopped);
    assert_eq!(cycles, 1);
    assert_eq!(gets, ["https://ipv4.icanhazip.com/"]);
    assert_eq!(puts.len(), 1);
    assert_eq!(puts[0].body.content, "203.0.113.7");
    assert_eq!(puts[0].body.name, "home.example.com");
    assert_eq!(puts[0].body.record_type, "A");
}

#[test]
fn clients_follow_their_policies() {
    let resolver = cloudflare_ddns::resolver::resolver_policy();
    let updater = cloudflare_ddns::updater::updater_policy();
    assert_eq!(resolver.connect_timeout_secs, 5);
    assert_eq!(resolver.read_timeout_secs, 5);
    assert_eq!(resolver.retries, 3);
    assert_eq!(updater.connect_timeout_secs, 5);
    assert_eq!(updater.read_timeout_secs, 5);
    assert_eq!(updater.retries, 0);
}
