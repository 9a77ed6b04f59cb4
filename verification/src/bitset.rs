//! What this library relies on from `fixedbitset::FixedBitSet`.
//!
//! None of the contracts in this file is proved: each restates what the
//! source of `fixedbitset` shows of one method, over the sequence of bits
//! that a set holds.

use fixedbitset::FixedBitSet;
use vstd::prelude::*;

verus! {

/// `fixedbitset::FixedBitSet`, carried as an opaque value.
#[verifier::external_type_specification]
#[verifier::external_body]
pub struct ExFixedBitSet(FixedBitSet);

/// The bits that a set holds, in index order; its length is the set's length
/// in bits.
pub uninterp spec fn bits_of(s: FixedBitSet) -> Seq<bool>;

/// `FixedBitSet::with_capacity`: a set of `bits` bits, all of them clear.
pub assume_specification[ FixedBitSet::with_capacity ](bits: usize) -> (s: FixedBitSet)
    ensures
        bits_of(s) == Seq::new(bits as nat, |i: int| false),
;

/// `FixedBitSet::len`: the number of bits, set or not.
pub assume_specification[ FixedBitSet::len ](s: &FixedBitSet) -> (n: usize)
    ensures
        n == bits_of(*s).len(),
;

/// `FixedBitSet::contains`: below the length, the bit at `bit`; past the
/// last 32-bit block, clear. Of a position between the length and the end of
/// the last block nothing is claimed: the method reads the block's padding
/// there.
pub assume_specification[ FixedBitSet::contains ](s: &FixedBitSet, bit: usize) -> (b: bool)
    ensures
        bit < bits_of(*s).len() ==> b == bits_of(*s)[bit as int],
        bit >= 32 * ((bits_of(*s).len() + 31) / 32) ==> !b,
;

/// `FixedBitSet::clear`: every bit becomes clear, the length stays.
pub assume_specification[ FixedBitSet::clear ](s: &mut FixedBitSet)
    ensures
        bits_of(*final(s)) == Seq::new(bits_of(*old(s)).len(), |i: int| false),
;

/// `FixedBitSet::toggle`: inverts the bit at `bit` and leaves the others. It
/// panics on a position past the end, which `requires` leaves out.
pub assume_specification[ FixedBitSet::toggle ](s: &mut FixedBitSet, bit: usize)
    requires
        bit < bits_of(*old(s)).len(),
    ensures
        bits_of(*final(s)) == bits_of(*old(s)).update(bit as int, !bits_of(*old(s))[bit as int]),
;

/// `FixedBitSet::set`: the bit at `bit` becomes `enabled`, the others stay.
/// It panics on a position past the end, which `requires` leaves out.
pub assume_specification[ FixedBitSet::set ](s: &mut FixedBitSet, bit: usize, enabled: bool)
    requires
        bit < bits_of(*old(s)).len(),
    ensures
        bits_of(*final(s)) == bits_of(*old(s)).update(bit as int, enabled),
;

/// Whether `words` holds `bits` packed 32 to a word, bit `k` of the sequence
/// in bit `k % 32` of word `k / 32`, with as many words as the bits need.
pub open spec fn packed(words: Seq<u32>, bits: Seq<bool>) -> bool {
    &&& words.len() == (bits.len() + 31) / 32
    &&& forall|k: int|
        0 <= k < bits.len() ==> (#[trigger] bits[k] <==> words[k / 32] & (1u32 << ((k % 32) as u32))
            != 0)
}

/// `FixedBitSet::as_slice`: the blocks that hold the bits, as `contains`
/// reads them.
pub assume_specification[ FixedBitSet::as_slice ](s: &FixedBitSet) -> (words: &[u32])
    ensures
        packed(words@, bits_of(*s)),
;

} // verus!
