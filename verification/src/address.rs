//! A public address of either family, and its literal.

use vstd::prelude::*;
use crate::ipv4::{
    ipv4_text, ipv4_to_string, ipv4_value, lemma_ipv4_text_of_value, lemma_ipv4_value_of_text,
    parse_ipv4_in,
};
use crate::ipv6::{ipv6_text, ipv6_to_string, ipv6_value, parse_ipv6_in};
use crate::ipv6_grammar::{
    is_ipv6_literal, lemma_literal_has_value, lemma_text_is_literal, lemma_value_is_literal,
};
use crate::record::RecordType;
use crate::text::chars_of;

verus! {

/// An address, held as the number its literal denotes: 32 bits for IPv4, 128
/// bits for IPv6, the first octet or group being the most significant.
///
/// Two addresses are the same when they are of one family and the numbers are
/// equal; no text is compared.
#[derive(Clone, Copy, Debug, PartialEq, Eq, Structural)]
pub enum Address {
    V4(u32),
    V6(u128),
}

impl Address {
    /// The family of records that this address can be written to.
    pub open spec fn family(self) -> RecordType {
        match self {
            Address::V4(_) => RecordType::A,
            Address::V6(_) => RecordType::AAAA,
        }
    }

    /// The literal that is written for this address.
    pub open spec fn text(self) -> Seq<char> {
        match self {
            Address::V4(a) => ipv4_text(a),
            Address::V6(a) => ipv6_text(a),
        }
    }

    /// The family of records that this address can be written to.
    pub fn record_type(&self) -> (family: RecordType)
        ensures
            family == self.family(),
    {
        match self {
            Address::V4(_) => RecordType::A,
            Address::V6(_) => RecordType::AAAA,
        }
    }

    /// The literal that is written for this address.
    pub fn to_text(&self) -> (text: String)
        ensures
            text@ == self.text(),
    {
        match self {
            Address::V4(a) => ipv4_to_string(*a),
            Address::V6(a) => ipv6_to_string(*a),
        }
    }
}

/// The address of `family` that `s` is a literal of, if it is one. A literal
/// of the other family is none of this one.
pub open spec fn address_value(family: RecordType, s: Seq<char>) -> Option<Address> {
    match family {
        RecordType::A => match ipv4_value(s) {
            Some(a) => Some(Address::V4(a)),
            None => None,
        },
        RecordType::AAAA => match ipv6_value(s) {
            Some(a) => Some(Address::V6(a)),
            None => None,
        },
    }
}

/// Whether `s` is a literal of `address`: for an IPv4 address the one way it
/// is written, for an IPv6 address any spelling of its groups.
pub open spec fn is_literal_of(s: Seq<char>, address: Address) -> bool {
    match address {
        Address::V4(a) => s == ipv4_text(a),
        Address::V6(a) => is_ipv6_literal(s, a),
    }
}

/// A text is read as an address of a family exactly when it is a literal of
/// that address and the address is of that family.
pub proof fn lemma_address_value_is_the_literal(family: RecordType, s: Seq<char>, address: Address)
    ensures
        address_value(family, s) == Some(address) <==> address.family() == family && is_literal_of(
            s,
            address,
        ),
{
    match address {
        Address::V4(a) => {
            lemma_ipv4_text_of_value(s);
            lemma_ipv4_value_of_text(a);
        },
        Address::V6(a) => {
            lemma_value_is_literal(s);
            if is_ipv6_literal(s, a) {
                lemma_literal_has_value(s, a);
            }
        },
    }
}

/// The text that is written for an address is a literal of it, and is read
/// back as that address.
pub proof fn lemma_address_reads_back(address: Address)
    ensures
        is_literal_of(address.text(), address),
        address_value(address.family(), address.text()) == Some(address),
{
    match address {
        Address::V4(a) => {
            lemma_ipv4_value_of_text(a);
        },
        Address::V6(a) => {
            lemma_text_is_literal(a);
            lemma_literal_has_value(ipv6_text(a), a);
        },
    }
}

/// Reads the part of `chars` from `lo` up to `hi` as a literal of
/// `ip_version`.
pub(crate) fn parse_address_in(ip_version: RecordType, chars: &Vec<char>, lo: usize, hi: usize) -> (address:
    Option<Address>)
    requires
        lo <= hi <= chars@.len(),
    ensures
        address == address_value(ip_version, chars@.subrange(lo as int, hi as int)),
        address matches Some(a) ==> a.family() == ip_version,
{
    match ip_version {
        RecordType::A => match parse_ipv4_in(chars, lo, hi) {
            Some(a) => Some(Address::V4(a)),
            None => None,
        },
        RecordType::AAAA => match parse_ipv6_in(chars, lo, hi) {
            Some(a) => Some(Address::V6(a)),
            None => None,
        },
    }
}

/// Reads `text` as a literal of `ip_version`, with nothing around it.
pub fn parse_address(ip_version: RecordType, text: &str) -> (address: Option<Address>)
    ensures
        address == address_value(ip_version, text@),
        address matches Some(a) ==> a.family() == ip_version && is_literal_of(text@, a),
        address is None ==> forall|a: Address|
            a.family() == ip_version ==> !#[trigger] is_literal_of(text@, a),
{
    let chars = chars_of(text);
    assert(chars@.subrange(0, chars@.len() as int) == text@);
    let address = parse_address_in(ip_version, &chars, 0, chars.len());
    proof {
        assert forall|a: Address|
            (address == Some(a)) == (a.family() == ip_version && #[trigger] is_literal_of(
                text@,
                a,
            )) by {
            lemma_address_value_is_the_literal(ip_version, text@, a);
        }
    }
    address
}

} // verus!
