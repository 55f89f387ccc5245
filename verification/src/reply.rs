//! Reply leases: short-lived addresses for in-flight asks.

use vstd::prelude::*;

use crate::ids::id_chars;
use crate::ids::minted;
use crate::ids::IdBits;
use crate::ids::IdMint;

verus! {

/// Identifies the reply slot of one in-flight ask.
#[derive(Debug, Clone, Copy, PartialEq, Eq, Hash, Structural)]
pub struct LeaseId {
    bits: IdBits,
}

impl View for LeaseId {
    type V = (u64, u64);

    closed spec fn view(&self) -> (u64, u64) {
        self.bits@
    }
}

impl LeaseId {
    /// Generates a fresh lease id.
    pub fn new(mint: &mut IdMint, now_millis: u64) -> (id: Self)
        ensures
            minted(*old(mint), now_millis, *final(mint), id@),
    {
        LeaseId { bits: IdBits::mint(mint, now_millis) }
    }

    /// Wraps the bits of an id.
    pub fn from_bits(bits: IdBits) -> (id: Self)
        ensures
            id@ == bits@,
    {
        LeaseId { bits }
    }

    /// The bits of the id.
    pub fn bits(self) -> (bits: IdBits)
        ensures
            bits@ == self@,
    {
        self.bits
    }

    /// The id as text.
    pub fn to_string(&self) -> (text: String)
        ensures
            text@ == id_chars(self@.0, self@.1),
    {
        self.bits.to_string()
    }
}

} // verus!
