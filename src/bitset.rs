//! The `bitvector` crate's bit set, which holds descriptor bits and marks
//! the entries a matching has already used.
use vstd::prelude::*;

use bitvector::BitVector;

verus! {

#[verifier::external_type_specification]
#[verifier::external_body]
pub struct ExBitVector(BitVector);

/// The positions held by a bit set.
pub uninterp spec fn bits_of(v: BitVector) -> Set<usize>;

/// Relies on bitvector's `BitVector::new`: a set that holds no position. It
/// sizes its words as `(bits + 63) / 64`, which must not overflow.
pub assume_specification[ BitVector::new ](bits: usize) -> (r: BitVector)
    requires
        bits <= usize::MAX - 63,
    ensures
        bits_of(r) == Set::<usize>::empty(),
;

/// Relies on bitvector's `BitVector::contains`: whether the set holds `bit`
/// (false past its capacity, where nothing was ever inserted).
pub assume_specification[ BitVector::contains ](v: &BitVector, bit: usize) -> (r: bool)
    ensures
        r == bits_of(*v).contains(bit),
;

/// Relies on bitvector's `BitVector::insert`: adds `bit`, growing the words
/// to `bit + 1` bits first where needed (which must not overflow), and tells whether it was new.
pub assume_specification[ BitVector::insert ](v: &mut BitVector, bit: usize) -> (r: bool)
    requires
        bit <= usize::MAX - 64,
    ensures
        bits_of(*final(v)) == bits_of(*old(v)).insert(bit),
        r == !bits_of(*old(v)).contains(bit),
;

} // verus!
