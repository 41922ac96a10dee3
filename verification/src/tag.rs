//! Node flag bits.
//!
//! Every node carries a one-byte set of flags: whether it is an atom,
//! the transient collector bits, whether it is allocated, pinned, or
//! immutable.

use vstd::prelude::*;

verus! {

/// Flag byte attached to every node.
#[derive(Debug, Clone, Copy, PartialEq, Eq, Structural)]
pub struct Tag(pub u8);

/// The node is a typed atom rather than a pair.
pub const ATOM_FLAG: u8 = 0x01;

/// Transient collector bit: the node has been marked reachable.
pub const MARK_FLAG: u8 = 0x02;

/// Transient collector bit: traversal direction during marking.
pub const TRAV_FLAG: u8 = 0x04;

/// The atom's payload is a vector-pool run of cells.
pub const VECTOR_FLAG: u8 = 0x08;

/// The atom represents an open I/O handle.
pub const PORT_FLAG: u8 = 0x10;

/// The node is allocated rather than on the free list.
pub const USED_FLAG: u8 = 0x20;

/// The node is pinned against collection even when unreachable.
pub const LOCK_FLAG: u8 = 0x40;

/// The node is a literal and must not be mutated.
pub const CONST_FLAG: u8 = 0x80;

/// Both transient collector bits, cleared together after a pass.
pub const GC_BITS: u8 = 0x06;

impl Tag {
    /// Whether the given flag bits are all set.
    pub open spec fn spec_has(self, flag: u8) -> bool {
        self.0 & flag == flag
    }

    /// Whether any of the given flag bits is set.
    pub open spec fn spec_has_any(self, flag: u8) -> bool {
        self.0 & flag != 0
    }

    /// An empty flag set.
    pub fn new() -> (r: Self)
        ensures
            r.0 == 0,
    {
        Tag(0)
    }

    /// This flag set with the given bits added.
    pub fn with_flag(self, flag: u8) -> (r: Self)
        ensures
            r.0 == self.0 | flag,
    {
        Tag(self.0 | flag)
    }

    /// Whether any of the given flag bits is set.
    pub fn has_flag(&self, flag: u8) -> (r: bool)
        ensures
            r == self.spec_has_any(flag),
    {
        self.0 & flag != 0
    }

    /// Add the given bits to the flag set.
    pub fn set_flag(&mut self, flag: u8)
        ensures
            final(self).0 == old(self).0 | flag,
    {
        self.0 = self.0 | flag;
    }

    /// Remove the given bits from the flag set.
    pub fn clear_flag(&mut self, flag: u8)
        ensures
            final(self).0 == old(self).0 & !flag,
    {
        self.0 = self.0 & !flag;
    }

    /// The raw flag byte.
    pub fn raw(&self) -> (r: u8)
        ensures
            r == self.0,
    {
        self.0
    }
}

/// The flag constants are disjoint from the transient and allocation
/// bits, as the allocator requires.
pub proof fn lemma_flag_values()
    ensures
        0u8 & MARK_FLAG == 0 && 0u8 & TRAV_FLAG == 0 && 0u8 & USED_FLAG == 0,
        ATOM_FLAG & MARK_FLAG == 0 && ATOM_FLAG & TRAV_FLAG == 0 && ATOM_FLAG & USED_FLAG == 0,
        (ATOM_FLAG | VECTOR_FLAG) & MARK_FLAG == 0 && (ATOM_FLAG | VECTOR_FLAG) & TRAV_FLAG == 0
            && (ATOM_FLAG | VECTOR_FLAG) & USED_FLAG == 0,
        (ATOM_FLAG | PORT_FLAG) & MARK_FLAG == 0 && (ATOM_FLAG | PORT_FLAG) & TRAV_FLAG == 0 && (
        ATOM_FLAG | PORT_FLAG) & USED_FLAG == 0,
        0u8 | USED_FLAG == USED_FLAG,
        USED_FLAG & USED_FLAG != 0,
        USED_FLAG & ATOM_FLAG == 0 && USED_FLAG & CONST_FLAG == 0,
        (ATOM_FLAG | USED_FLAG) & USED_FLAG != 0 && (ATOM_FLAG | USED_FLAG) & ATOM_FLAG != 0 && (
        ATOM_FLAG | USED_FLAG) & CONST_FLAG == 0,
        ((ATOM_FLAG | VECTOR_FLAG) | USED_FLAG) & USED_FLAG != 0 && ((ATOM_FLAG | VECTOR_FLAG)
            | USED_FLAG) & ATOM_FLAG != 0 && ((ATOM_FLAG | VECTOR_FLAG) | USED_FLAG) & CONST_FLAG
            == 0,
        ((ATOM_FLAG | PORT_FLAG) | USED_FLAG) & USED_FLAG != 0 && ((ATOM_FLAG | PORT_FLAG)
            | USED_FLAG) & ATOM_FLAG != 0 && ((ATOM_FLAG | PORT_FLAG) | USED_FLAG) & PORT_FLAG != 0
            && ((ATOM_FLAG | PORT_FLAG) | USED_FLAG) & CONST_FLAG == 0,
{
    assert(0u8 & 0x02u8 == 0 && 0u8 & 0x04u8 == 0 && 0u8 & 0x20u8 == 0 && 0x01u8 & 0x02u8 == 0
        && 0x01u8 & 0x04u8 == 0 && 0x01u8 & 0x20u8 == 0 && (0x01u8 | 0x08u8) & 0x02u8 == 0 && (
    0x01u8 | 0x08u8) & 0x04u8 == 0 && (0x01u8 | 0x08u8) & 0x20u8 == 0 && (0x01u8 | 0x10u8) & 0x02u8
        == 0 && (0x01u8 | 0x10u8) & 0x04u8 == 0 && (0x01u8 | 0x10u8) & 0x20u8 == 0 && 0u8 | 0x20u8
        == 0x20u8 && 0x20u8 & 0x20u8 != 0 && 0x20u8 & 0x01u8 == 0 && 0x20u8 & 0x80u8 == 0 && (
    0x01u8 | 0x20u8) & 0x20u8 != 0 && (0x01u8 | 0x20u8) & 0x01u8 != 0 && (0x01u8 | 0x20u8) & 0x80u8
        == 0 && ((0x01u8 | 0x08u8) | 0x20u8) & 0x20u8 != 0 && ((0x01u8 | 0x08u8) | 0x20u8) & 0x01u8
        != 0 && ((0x01u8 | 0x08u8) | 0x20u8) & 0x80u8 == 0 && ((0x01u8 | 0x10u8) | 0x20u8) & 0x20u8
        != 0 && ((0x01u8 | 0x10u8) | 0x20u8) & 0x01u8 != 0 && ((0x01u8 | 0x10u8) | 0x20u8) & 0x10u8
        != 0 && ((0x01u8 | 0x10u8) | 0x20u8) & 0x80u8 == 0) by (bit_vector);
    assert(ATOM_FLAG == 0x01u8 && MARK_FLAG == 0x02u8 && TRAV_FLAG == 0x04u8 && VECTOR_FLAG
        == 0x08u8 && PORT_FLAG == 0x10u8 && USED_FLAG == 0x20u8 && CONST_FLAG == 0x80u8);
}


} // verus!
