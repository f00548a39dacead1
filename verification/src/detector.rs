//! The change detector: the address last seen for each family, and the test
//! that lets an update through only when the address is a new one.
//!
//! The state lives in memory only. A fresh detector has seen nothing, so the
//! first address of each family always counts as a change.

use vstd::prelude::*;
use crate::address::Address;
use crate::record::RecordType;

verus! {

/// One slot per family. A slot is written only by [`ChangeDetector::has_changed`],
/// which takes the detector exclusively for the instant of comparing and
/// committing.
#[derive(Debug)]
pub struct ChangeDetector {
    ipv4: Option<u32>,
    ipv6: Option<u128>,
}

impl ChangeDetector {
    /// The address last committed for `family`, if any was.
    pub closed spec fn last(self, family: RecordType) -> Option<Address> {
        match family {
            RecordType::A => match self.ipv4 {
                Some(a) => Some(Address::V4(a)),
                None => None,
            },
            RecordType::AAAA => match self.ipv6 {
                Some(a) => Some(Address::V6(a)),
                None => None,
            },
        }
    }

    /// The detector that has seen nothing.
    pub closed spec fn fresh() -> ChangeDetector {
        ChangeDetector { ipv4: None, ipv6: None }
    }

    /// The detector after `candidate` is committed to the slot of its family.
    pub closed spec fn commit(self, candidate: Address) -> ChangeDetector {
        match candidate {
            Address::V4(a) => ChangeDetector { ipv4: Some(a), ipv6: self.ipv6 },
            Address::V6(a) => ChangeDetector { ipv4: self.ipv4, ipv6: Some(a) },
        }
    }

    /// Whether `candidate` is another address than the one last committed for
    /// its family.
    pub open spec fn differs(self, candidate: Address) -> bool {
        self.last(candidate.family()) != Some(candidate)
    }

    /// The detector after `candidate` was observed: committed where it
    /// differs, untouched where it does not.
    pub open spec fn observe(self, candidate: Address) -> ChangeDetector {
        if self.differs(candidate) {
            self.commit(candidate)
        } else {
            self
        }
    }

    /// A detector that has seen nothing: what every process starts with.
    pub fn new() -> (detector: ChangeDetector)
        ensures
            detector == ChangeDetector::fresh(),
            forall|family: RecordType| detector.last(family) is None,
    {
        ChangeDetector { ipv4: None, ipv6: None }
    }

    /// Compares `candidate` with the address last committed for its family and
    /// commits it where it differs. Returns whether it differed.
    pub fn has_changed(&mut self, candidate: Address) -> (changed: bool)
        ensures
            changed == old(self).differs(candidate),
            *final(self) == old(self).observe(candidate),
            final(self).last(candidate.family()) == Some(candidate),
            final(self).last(candidate.family().other()) == old(self).last(
                candidate.family().other(),
            ),
    {
        match candidate {
            Address::V4(a) => {
                let changed = match self.ipv4 {
                    Some(seen) => seen != a,
                    None => true,
                };
                if changed {
                    self.ipv4 = Some(a);
                }
                changed
            },
            Address::V6(a) => {
                let changed = match self.ipv6 {
                    Some(seen) => seen != a,
                    None => true,
                };
                if changed {
                    self.ipv6 = Some(a);
                }
                changed
            },
        }
    }

    /// The address last committed for `family`, if any was.
    pub fn last_known(&self, family: RecordType) -> (address: Option<Address>)
        ensures
            address == self.last(family),
    {
        match family {
            RecordType::A => match self.ipv4 {
                Some(a) => Some(Address::V4(a)),
                None => None,
            },
            RecordType::AAAA => match self.ipv6 {
                Some(a) => Some(Address::V6(a)),
                None => None,
            },
        }
    }
}

/// Observing an address makes it the last one seen for its family, and
/// touches no other slot.
pub proof fn lemma_observe(detector: ChangeDetector, candidate: Address)
    ensures
        detector.observe(candidate).last(candidate.family()) == Some(candidate),
        detector.observe(candidate).last(candidate.family().other()) == detector.last(
            candidate.family().other(),
        ),
        !detector.observe(candidate).differs(candidate),
        detector.observe(candidate).observe(candidate) == detector.observe(candidate),
{
}

/// The first address that a fresh detector is shown always counts as a
/// change, whatever it is.
pub proof fn lemma_first_observation_is_a_change(candidate: Address)
    ensures
        ChangeDetector::fresh().last(candidate.family()) is None,
        ChangeDetector::fresh().differs(candidate),
{
}

/// Observations of the two families do not touch each other: what the
/// detector says of an address of one family, and the slot it keeps for that
/// family, are the same whether or not an address of the other family was
/// observed first.
pub proof fn lemma_families_are_independent(
    detector: ChangeDetector,
    one: Address,
    other: Address,
)
    requires
        one.family() != other.family(),
    ensures
        detector.observe(other).differs(one) == detector.differs(one),
        detector.observe(other).observe(one) == detector.observe(one).observe(other),
{
}

} // verus!
