//! The boundary to `fixedbitset`, the packed bit buffer that backs both
//! generations of the grid. Each wrapper states, over the abstract contents
//! `bit_seq`, what the underlying call does.

use fixedbitset::FixedBitSet;
use vstd::prelude::*;

verus! {

#[verifier::external_type_specification]
#[verifier::external_body]
pub struct ExFixedBitSet(FixedBitSet);

/// The contents of a `FixedBitSet`: one boolean per bit, in bit order.
pub uninterp spec fn bit_seq(s: FixedBitSet) -> Seq<bool>;

/// Relies on `fixedbitset::FixedBitSet::with_capacity`: a set with `n`
/// bits, all initially clear.
#[verifier::external_body]
pub(crate) fn fbs_with_capacity(n: usize) -> (r: FixedBitSet)
    ensures
        bit_seq(r).len() == n,
        forall|i: int| 0 <= i < n ==> !bit_seq(r)[i],
{
    FixedBitSet::with_capacity(n)
}

/// Relies on `fixedbitset::FixedBitSet::len`: the number of bits the set
/// was created with.
#[verifier::external_body]
pub(crate) fn fbs_len(s: &FixedBitSet) -> (r: usize)
    ensures
        r == bit_seq(*s).len(),
{
    s.len()
}

/// Relies on `fixedbitset::FixedBitSet::contains`: whether the bit at `i`
/// is set.
#[verifier::external_body]
pub(crate) fn fbs_get(s: &FixedBitSet, i: usize) -> (r: bool)
    requires
        i < bit_seq(*s).len(),
    ensures
        r == bit_seq(*s)[i as int],
{
    s.contains(i)
}

/// Relies on `fixedbitset::FixedBitSet::set`: writes the bit at `i`, which
/// panics when `i` is out of bounds, so a bound is required here.
#[verifier::external_body]
pub(crate) fn fbs_set(s: &mut FixedBitSet, i: usize, b: bool)
    requires
        i < bit_seq(*old(s)).len(),
    ensures
        bit_seq(*final(s)) == bit_seq(*old(s)).update(i as int, b),
{
    s.set(i, b)
}

/// Relies on `fixedbitset::FixedBitSet::set_range`: writes every bit in
/// `start..end`, which panics when the range extends past the end, so a
/// bound is required here.
#[verifier::external_body]
pub(crate) fn fbs_set_range(s: &mut FixedBitSet, start: usize, end: usize, b: bool)
    requires
        start <= end,
        end <= bit_seq(*old(s)).len(),
    ensures
        bit_seq(*final(s)).len() == bit_seq(*old(s)).len(),
        forall|i: int|
            0 <= i < bit_seq(*old(s)).len() ==> bit_seq(*final(s))[i] == if start <= i < end {
                b
            } else {
                bit_seq(*old(s))[i]
            },
{
    s.set_range(start..end, b)
}

} // verus!
