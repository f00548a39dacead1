use cloudflare_ddns::cli::{effective_log_level, Commands, InstallComponents, LogLevel};
use cloudflare_ddns::config::{
    get_default_delay, get_default_ipv4_url, get_default_ipv6_url, get_default_log_level,
    get_default_mutli_thread, Config,
};
use cloudflare_ddns::controller::RunType;
use cloudflare_ddns::record::{DnsRecord, RecordType};

fn sample_record(name: &str, record_type: RecordType) -> DnsRecord {
    DnsRecord {
        api_token: format!("token-of-{name}"),
        zone_id: "zone".to_string(),
        dns_id: format!("id-of-{name}"),
        record_type,
        name: name.to_string(),
        ttl: 120,
        proxied: false,
    }
}

fn sample_config(dns_records: Vec<DnsRecord>) -> Config {
    Config {
        delay: get_default_delay(),
        mutli_thread: get_default_mutli_thread(),
        log_level: get_default_log_level(),
        ipv4_url: get_default_ipv4_url(),
        ipv6_url: get_default_ipv6_url(),
        dns_records,
    }
}

#[test]
fn record_type_is_spelled_for_the_provider() {
    assert_eq!(RecordType::A.as_str(), "A");
    assert_eq!(RecordType::AAAA.as_str(), "AAAA");
}

#[test]
fn record_type_gives_the_protocol_version() {
    assert_eq!(RecordType::A.as_u8(), 4);
    assert_eq!(RecordType::AAAA.as_u8(), 6);
}

#[test]
fn defaults_are_the_documented_ones() {
    assert_eq!(get_default_delay(), 60);
    assert!(!get_default_mutli_thread());
    assert_eq!(get_default_log_level(), "info");
    assert_eq!(get_default_ipv4_url(), "https://ipv4.icanhazip.com/");
    assert_eq!(get_default_ipv6_url(), "https://ipv6.icanhazip.com/");
}

#[test]
fn endpoint_goes_by_family() {
    let mut config = sample_config(Vec::new());
    config.ipv6_url = "https://six.example/".to_string();
    assert_eq!(config.endpoint(RecordType::A), "https://ipv4.icanhazip.com/");
    assert_eq!(config.endpoint(RecordType::AAAA), "https://six.example/");
}

#[test]
fn records_are_selected_by_family_in_order() {
    let config = sample_config(vec![
        sample_record("a1", RecordType::A),
        sample_record("six1", RecordType::AAAA),
        sample_record("a2", RecordType::A),
        sample_record("a3", RecordType::A),
        sample_record("six2", RecordType::AAAA),
    ]);
    let v4: Vec<String> = config.records_of(RecordType::A).into_iter().map(|r| r.name).collect();
    let v6: Vec<String> = config.records_of(RecordType::AAAA).into_iter().map(|r| r.name).collect();
    assert_eq!(v4, ["a1", "a2", "a3"]);
    assert_eq!(v6, ["six1", "six2"]);
}

#[test]
fn records_of_an_unconfigured_family_are_none() {
    let config = sample_config(vec![sample_record("a1", RecordType::A)]);
    assert!(config.records_of(RecordType::AAAA).is_empty());
    let empty = sample_config(Vec::new());
    assert!(empty.records_of(RecordType::A).is_empty());
}

#[test]
fn duplicate_copies_every_field() {
    let first = DnsRecord {
        api_token: "t".to_string(),
        zone_id: "z".to_string(),
        dns_id: "d".to_string(),
        record_type: RecordType::AAAA,
        name: "n".to_string(),
        ttl: 1,
        proxied: true,
    };
    let copy = first.duplicate();
    assert_eq!(copy.api_token, "t");
    assert_eq!(copy.zone_id, "z");
    assert_eq!(copy.dns_id, "d");
    assert_eq!(copy.record_type, RecordType::AAAA);
    assert_eq!(copy.name, "n");
    assert_eq!(copy.ttl, 1);
    assert!(copy.proxied);
}

#[test]
fn command_says_which_run_it_wants() {
    let once = Commands::Run { once: true, loops: false, log: None, datadir: None };
    let loops = Commands::Run { once: false, loops: true, log: Some(LogLevel::Debug), datadir: None };
    let install = Commands::Install { component: InstallComponents::Service };
    assert_eq!(once.run_type(), Some(RunType::Once));
    assert_eq!(loops.run_type(), Some(RunType::Loops));
    assert_eq!(install.run_type(), None);
}

#[test]
fn log_level_defaults_to_info() {
    assert_eq!(effective_log_level(None), LogLevel::Info);
    assert_eq!(effective_log_level(Some(LogLevel::Trace)), LogLevel::Trace);
    assert!(LogLevel::Trace < LogLevel::Off);
}
