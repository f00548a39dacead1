//! The address resolver: what the answer of an echo endpoint says about the
//! host's public address.
//!
//! The request itself is sent elsewhere. This module is handed how the
//! exchange ended and decides what it amounts to: an address of the family
//! that was asked for, or the reason why there is none.

use vstd::prelude::*;
use crate::address::{address_value, parse_address_in, Address};
use crate::record::RecordType;
use crate::text::{chars_of, trim, trimmed};

verus! {

/// How the HTTP client of the resolver or of the updater is to behave.
#[derive(Clone, Copy, Debug, PartialEq, Eq, Structural)]
pub struct ClientPolicy {
    /// Seconds allowed for establishing a connection.
    pub connect_timeout_secs: u64,
    /// Seconds allowed for each read of a response.
    pub read_timeout_secs: u64,
    /// How often a request may be sent again when the transport fails, before
    /// the failure is reported.
    pub retries: u32,
}

/// What the HTTP client reports of an exchange that broke off.
#[derive(Clone, Copy, Debug, PartialEq, Eq, Structural)]
pub struct TransportFault {
    /// A connect or read deadline passed.
    pub timeout: bool,
    /// The connection could not be established.
    pub connect: bool,
}

/// Why a resolution or an update gave nothing. None of these ends the process:
/// the unit of work that met it is skipped.
#[derive(Clone, Copy, Debug, PartialEq, Eq, Structural)]
pub enum Failure {
    Timeout,
    ConnectError,
    /// The server answered with this status, which is no success.
    BadStatus(u16),
    /// The answer is no literal of the family that was asked for.
    MalformedAddress,
    OtherTransportError,
}

/// How one HTTP exchange ended.
#[derive(Clone, Debug)]
pub enum HttpReply {
    /// No complete response arrived.
    Failed(TransportFault),
    /// A response arrived. `body` counts only where `status` is a success.
    Response { status: u16, body: String },
}

/// The failure that a broken exchange amounts to. A deadline that passed
/// while connecting is a timeout.
pub open spec fn fault_kind(fault: TransportFault) -> Failure {
    if fault.timeout {
        Failure::Timeout
    } else if fault.connect {
        Failure::ConnectError
    } else {
        Failure::OtherTransportError
    }
}

/// Whether `status` is one of the success codes, 200 to 299.
pub open spec fn success_status(status: u16) -> bool {
    200 <= status < 300
}

/// What an exchange with the echo endpoint of `ip_version` amounts to: the
/// address that the body holds between white space, where the exchange
/// completed with a success status and the body is a literal of that family.
pub open spec fn resolution(ip_version: RecordType, reply: HttpReply) -> Result<Address, Failure> {
    match reply {
        HttpReply::Failed(fault) => Err(fault_kind(fault)),
        HttpReply::Response { status, body } => if !success_status(status) {
            Err(Failure::BadStatus(status))
        } else {
            match address_value(ip_version, trimmed(body@)) {
                Some(address) => Ok(address),
                None => Err(Failure::MalformedAddress),
            }
        },
    }
}

/// A resolution never gives an address of another family than the one that
/// was asked for.
pub proof fn lemma_resolution_is_of_family(ip_version: RecordType, reply: HttpReply)
    ensures
        resolution(ip_version, reply) matches Ok(address) ==> address.family() == ip_version,
{
}

/// The policy of the resolver's client: five seconds to connect, five to
/// read, and up to three more tries, since a `GET` is repeated without harm.
pub fn resolver_policy() -> (policy: ClientPolicy)
    ensures
        policy == (ClientPolicy { connect_timeout_secs: 5, read_timeout_secs: 5, retries: 3 }),
{
    ClientPolicy { connect_timeout_secs: 5, read_timeout_secs: 5, retries: 3 }
}

/// The failure that a broken exchange amounts to.
pub fn classify(fault: TransportFault) -> (failure: Failure)
    ensures
        failure == fault_kind(fault),
{
    if fault.timeout {
        Failure::Timeout
    } else if fault.connect {
        Failure::ConnectError
    } else {
        Failure::OtherTransportError
    }
}

/// Whether `status` is one of the success codes, 200 to 299.
pub fn is_success(status: u16) -> (success: bool)
    ensures
        success == success_status(status),
{
    200 <= status && status < 300
}

/// Resolves the address of `ip_version` from how the exchange with the echo
/// endpoint ended.
pub fn get_ip(ip_version: RecordType, reply: &HttpReply) -> (resolved: Result<Address, Failure>)
    ensures
        resolved == resolution(ip_version, *reply),
        resolved matches Ok(address) ==> address.family() == ip_version,
{
    match reply {
        HttpReply::Failed(fault) => Err(classify(*fault)),
        HttpReply::Response { status, body } => {
            if !is_success(*status) {
                return Err(Failure::BadStatus(*status));
            }
            let chars = chars_of(body.as_str());
            let (lo, hi) = trim(&chars);
            match parse_address_in(ip_version, &chars, lo, hi) {
                Some(address) => Ok(address),
                None => Err(Failure::MalformedAddress),
            }
        },
    }
}

} // verus!
