//! Opaque identifiers of live game objects.

use vstd::prelude::*;

verus! {

/// Identifier of a game object: a slot `index` and the `generation` of that
/// slot. Two identifiers name the same object exactly when both parts agree.
#[derive(Clone, Copy, Debug, PartialEq, Eq, Hash, Structural)]
pub struct Entity {
    index: u32,
    generation: u32,
}

impl Entity {
    /// The slot index, as a mathematical integer.
    pub closed spec fn spec_index(self) -> int {
        self.index as int
    }

    /// The generation of the slot, as a mathematical integer.
    pub closed spec fn spec_generation(self) -> int {
        self.generation as int
    }

    /// The identifier packed into 64 bits: generation in the high half, index
    /// in the low half.
    pub open spec fn spec_bits(self) -> int {
        self.spec_generation() * 0x1_0000_0000 + self.spec_index()
    }

    /// Identifiers are determined by their two parts.
    pub proof fn lemma_parts_determine(a: Entity, b: Entity)
        ensures
            (a.spec_index() == b.spec_index() && a.spec_generation() == b.spec_generation()) <==> a
                == b,
            0 <= a.spec_index() <= u32::MAX,
            0 <= a.spec_generation() <= u32::MAX,
    {
    }

    /// The identifier with the given parts.
    pub fn new(index: u32, generation: u32) -> (e: Entity)
        ensures
            e.spec_index() == index,
            e.spec_generation() == generation,
    {
        Entity { index, generation }
    }

    /// The identifier of generation zero at slot `index`.
    pub fn from_raw(index: u32) -> (e: Entity)
        ensures
            e.spec_index() == index,
            e.spec_generation() == 0,
    {
        Entity { index, generation: 0 }
    }

    /// The slot index.
    pub fn index(self) -> (i: u32)
        ensures
            i == self.spec_index(),
    {
        self.index
    }

    /// The generation of the slot.
    pub fn generation(self) -> (g: u32)
        ensures
            g == self.spec_generation(),
    {
        self.generation
    }

    /// Packs the identifier into 64 bits.
    pub fn to_bits(self) -> (bits: u64)
        ensures
            bits == self.spec_bits(),
    {
        let g: u64 = self.generation as u64;
        let i: u64 = self.index as u64;
        assert((g << 32) | i == g * 0x1_0000_0000 + i) by (bit_vector)
            requires
                g <= 0xFFFF_FFFF,
                i <= 0xFFFF_FFFF,
        ;
        (g << 32) | i
    }

    /// Unpacks an identifier from 64 bits; the inverse of [`Entity::to_bits`].
    pub fn from_bits(bits: u64) -> (e: Entity)
        ensures
            e.spec_bits() == bits,
    {
        let high: u64 = bits >> 32;
        let low: u64 = bits & 0xFFFF_FFFF;
        assert(high <= 0xFFFF_FFFF && low <= 0xFFFF_FFFF && high * 0x1_0000_0000 + low == bits)
            by (bit_vector)
            requires
                high == bits >> 32,
                low == bits & 0xFFFF_FFFF,
        ;
        Entity { index: low as u32, generation: high as u32 }
    }

    /// Packing is injective: two identifiers with the same bits are equal.
    pub proof fn lemma_bits_injective(a: Entity, b: Entity)
        requires
            a.spec_bits() == b.spec_bits(),
        ensures
            a == b,
    {
    }
}

} // verus!
