//! The configuration that the update engine consumes, and the documented
//! defaults of its optional fields.

use vstd::prelude::*;
use vstd::string::*;
use crate::record::{DnsRecord, RecordType};

verus! {

/// What a run is configured with.
#[derive(Clone, Debug)]
pub struct Config {
    /// Seconds between two cycles of a looping run.
    pub delay: u64,
    /// Whether the runtime may use several worker threads.
    pub mutli_thread: bool,
    pub log_level: String,
    /// The echo endpoint that answers with the host's public IPv4 address.
    pub ipv4_url: String,
    /// The echo endpoint that answers with the host's public IPv6 address.
    pub ipv6_url: String,
    pub dns_records: Vec<DnsRecord>,
}

/// The test that a record is of `family`.
pub open spec fn of_family(family: RecordType) -> spec_fn(DnsRecord) -> bool {
    |record: DnsRecord| record.record_type == family
}

/// The records of `family` among `records`, in their order.
pub open spec fn family_records(records: Seq<DnsRecord>, family: RecordType) -> Seq<DnsRecord> {
    records.filter(of_family(family))
}

/// The delay between two cycles where none is configured: one minute.
pub fn get_default_delay() -> (delay: u64)
    ensures
        delay == 60,
{
    60
}

/// Whether the runtime uses several worker threads where nothing is
/// configured: it does not.
pub fn get_default_mutli_thread() -> (mutli_thread: bool)
    ensures
        !mutli_thread,
{
    false
}

/// The log level where none is configured.
pub fn get_default_log_level() -> (level: String)
    ensures
        level@ == "info"@,
{
    String::from_str("info")
}

/// The echo endpoint for IPv4 where none is configured: a public service
/// that is reachable over IPv4 only.
pub fn get_default_ipv4_url() -> (url: String)
    ensures
        url@ == "https://ipv4.icanhazip.com/"@,
{
    String::from_str("https://ipv4.icanhazip.com/")
}

/// The echo endpoint for IPv6 where none is configured: a public service
/// that is reachable over IPv6 only.
pub fn get_default_ipv6_url() -> (url: String)
    ensures
        url@ == "https://ipv6.icanhazip.com/"@,
{
    String::from_str("https://ipv6.icanhazip.com/")
}

impl DnsRecord {
    /// A copy of the record, field for field.
    pub fn duplicate(&self) -> (copy: DnsRecord)
        ensures
            copy == *self,
    {
        DnsRecord {
            api_token: self.api_token.clone(),
            zone_id: self.zone_id.clone(),
            dns_id: self.dns_id.clone(),
            record_type: self.record_type,
            name: self.name.clone(),
            ttl: self.ttl,
            proxied: self.proxied,
        }
    }
}

impl Config {
    /// The echo endpoint of `family`.
    pub open spec fn endpoint_of(self, family: RecordType) -> Seq<char> {
        match family {
            RecordType::A => self.ipv4_url@,
            RecordType::AAAA => self.ipv6_url@,
        }
    }

    /// The echo endpoint to ask for the address of `ip_version`.
    pub fn endpoint(&self, ip_version: RecordType) -> (url: &str)
        ensures
            url@ == self.endpoint_of(ip_version),
    {
        match ip_version {
            RecordType::A => self.ipv4_url.as_str(),
            RecordType::AAAA => self.ipv6_url.as_str(),
        }
    }

    /// The records of `ip_version`, in the order of the configuration: the
    /// records that a sweep over that family covers.
    pub fn records_of(&self, ip_version: RecordType) -> (records: Vec<DnsRecord>)
        ensures
            records@ == family_records(self.dns_records@, ip_version),
    {
        let mut records: Vec<DnsRecord> = Vec::new();
        let mut i: usize = 0;
        proof {
            reveal(Seq::filter);
            assert(self.dns_records@.take(0).len() == 0);
        }
        while i < self.dns_records.len()
            invariant
                i <= self.dns_records@.len(),
                records@ == family_records(self.dns_records@.take(i as int), ip_version),
            decreases self.dns_records@.len() - i,
        {
            let ghost front = self.dns_records@.take(i as int);
            let ghost grown = self.dns_records@.take(i + 1);
            let record = &self.dns_records[i];
            proof {
                reveal(Seq::filter);
                assert(grown.drop_last() == front);
                assert(grown.last() == *record);
            }
            if record.record_type == ip_version {
                records.push(record.duplicate());
            }
            i += 1;
        }
        assert(self.dns_records@.take(self.dns_records@.len() as int) == self.dns_records@);
        records
    }
}

} // verus!
