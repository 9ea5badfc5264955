//! One addressable slot of the bank: a word-aligned address and a 32-bit word.
use vstd::prelude::*;

verus! {

/// Number of bits in a word.
pub const WORD_BITS: usize = 32;

/// Bit `i` of `data`, bit 0 being the least significant.
pub open spec fn bit_of(data: u32, i: u32) -> bool {
    (data >> i) & 1u32 == 1u32
}

/// `data` with bit `i` set to `on`.
pub open spec fn with_bit(data: u32, i: u32, on: bool) -> u32 {
    if on {
        data | (1u32 << i)
    } else {
        data & !(1u32 << i)
    }
}

/// A memory row: the address of a word and the word it holds.
#[derive(Clone, Copy, Debug, PartialEq, Eq, Structural)]
pub struct MemoryRow {
    pub address: u32,
    pub data: u32,
}

impl MemoryRow {
    pub fn new(address: u32, data: u32) -> (r: Self)
        ensures
            r.address == address,
            r.data == data,
    {
        Self { address, data }
    }

    /// Reads bit `bit_index` (0 is the least significant bit).
    /// Any index outside `0..32` reads as `false`.
    pub fn get_bit(&self, bit_index: usize) -> (r: bool)
        ensures
            r == (bit_index < WORD_BITS && bit_of(self.data, bit_index as u32)),
            bit_index >= WORD_BITS ==> !r,
    {
        if bit_index < WORD_BITS {
            (self.data >> (bit_index as u32)) & 1 == 1
        } else {
            false
        }
    }

    /// Writes bit `bit_index` to `value`. Any index outside `0..32` leaves the row unchanged.
    pub fn set_bit(&mut self, bit_index: usize, value: bool)
        ensures
            final(self).address == old(self).address,
            bit_index < WORD_BITS ==> final(self).data == with_bit(
                old(self).data,
                bit_index as u32,
                value,
            ),
            bit_index >= WORD_BITS ==> *final(self) == *old(self),
    {
        if bit_index < WORD_BITS {
            let mask: u32 = 1u32 << (bit_index as u32);
            if value {
                self.data = self.data | mask;
            } else {
                self.data = self.data & !mask;
            }
        }
    }
}

/// Writing bit `i` of a word and then reading it back gives the written value, and
/// every other bit of the word keeps its value.
pub proof fn lemma_set_bit_then_get(data: u32, i: u32, value: bool)
    requires
        i < 32,
    ensures
        bit_of(with_bit(data, i, value), i) == value,
        forall|j: u32| j < 32 && j != i ==> #[trigger] bit_of(with_bit(data, i, value), j) == bit_of(data, j),
{
    assert(((data | (1u32 << i)) >> i) & 1u32 == 1u32) by (bit_vector)
        requires
            i < 32,
    ;
    assert(((data & !(1u32 << i)) >> i) & 1u32 == 0u32) by (bit_vector)
        requires
            i < 32,
    ;
    assert forall|j: u32| j < 32 && j != i implies #[trigger] bit_of(with_bit(data, i, value), j) == bit_of(data, j) by {
        assert(((data | (1u32 << i)) >> j) & 1u32 == (data >> j) & 1u32) by (bit_vector)
            requires
                i < 32,
                j < 32,
                j != i,
        ;
        assert(((data & !(1u32 << i)) >> j) & 1u32 == (data >> j) & 1u32) by (bit_vector)
            requires
                i < 32,
                j < 32,
                j != i,
        ;
    }
}

} // verus!
