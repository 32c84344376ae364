//! Handles by which the embedding application names its entities and windows.

use vstd::prelude::*;

verus! {

/// An entity of the embedding application, as the 64 bits that identify it.
///
/// Two handles name the same entity exactly when their bits are equal; the
/// library gives the bits no other meaning.
#[derive(Debug, Clone, Copy, PartialEq, Eq, Hash, Structural)]
pub struct Entity {
    pub bits: u64,
}

impl Entity {
    pub fn from_bits(bits: u64) -> (entity: Entity)
        ensures
            entity.bits == bits,
    {
        Entity { bits }
    }

    pub fn to_bits(self) -> (bits: u64)
        ensures
            bits == self.bits,
    {
        self.bits
    }
}

/// A window of the embedding application, as the 128 bits of its identifier.
#[derive(Debug, Clone, Copy, PartialEq, Eq, Hash, Structural)]
pub struct WindowId {
    pub uuid: u128,
}

impl WindowId {
    pub fn from_u128(uuid: u128) -> (id: WindowId)
        ensures
            id.uuid == uuid,
    {
        WindowId { uuid }
    }

    /// The primary window, whose identifier is zero.
    pub fn primary() -> (id: WindowId)
        ensures
            id.uuid == 0,
    {
        WindowId { uuid: 0 }
    }

    pub fn is_primary(&self) -> (primary: bool)
        ensures
            primary == (self.uuid == 0),
    {
        self.uuid == 0
    }
}

impl Default for WindowId {
    fn default() -> (id: WindowId)
        ensures
            id.uuid == 0,
    {
        WindowId::primary()
    }
}

} // verus!
