//! The managed DNS records and the address family each one belongs to.

use vstd::prelude::*;

verus! {

/// The address family of a record: `A` for IPv4, `AAAA` for IPv6.
///
/// The family decides which echo endpoint is asked, which records are eligible
/// for an update and which last-known-address slot is consulted.
#[derive(Clone, Copy, Debug, PartialEq, Eq, Structural)]
pub enum RecordType {
    A,
    AAAA,
}

impl RecordType {
    /// The record type as the provider's interface spells it.
    pub open spec fn name(self) -> Seq<char> {
        match self {
            RecordType::A => "A"@,
            RecordType::AAAA => "AAAA"@,
        }
    }

    /// The version number of the internet protocol the family belongs to.
    pub open spec fn version(self) -> int {
        match self {
            RecordType::A => 4,
            RecordType::AAAA => 6,
        }
    }

    /// The other of the two families.
    pub open spec fn other(self) -> RecordType {
        match self {
            RecordType::A => RecordType::AAAA,
            RecordType::AAAA => RecordType::A,
        }
    }

    /// The record type as the provider's interface spells it.
    pub fn as_str(&self) -> (text: &'static str)
        ensures
            text@ == self.name(),
    {
        match self {
            RecordType::A => "A",
            RecordType::AAAA => "AAAA",
        }
    }

    /// The version number of the internet protocol the family belongs to.
    pub fn as_u8(&self) -> (number: u8)
        ensures
            number == self.version(),
    {
        match self {
            RecordType::A => 4,
            RecordType::AAAA => 6,
        }
    }
}

/// One managed record, as the configuration supplies it.
///
/// The update engine only reads records; the address to be written travels in
/// the request built for each attempt, never in the record itself.
#[derive(Clone, Debug)]
pub struct DnsRecord {
    /// Credential presented to the provider as a bearer token.
    pub api_token: String,
    /// Provider's identifier of the zone that holds the record.
    pub zone_id: String,
    /// Provider's identifier of the record itself.
    pub dns_id: String,
    pub record_type: RecordType,
    /// Fully qualified name of the record.
    pub name: String,
    pub ttl: u32,
    /// Whether the provider is to proxy traffic for this record.
    pub proxied: bool,
}

} // verus!
