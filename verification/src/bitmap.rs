//! Trusted interface to `roaring::RoaringBitmap`, the compressed set of
//! 32-bit document identifiers that query evaluation computes with.
//!
//! The contents of a bitmap are modelled by the uninterpreted function
//! [`bitmap_set`]; every wrapper below states how the roaring operation it
//! calls changes or reads those contents.

use vstd::prelude::*;

use roaring::RoaringBitmap;

verus! {

#[verifier::external_type_specification]
#[verifier::external_body]
pub struct ExRoaringBitmap(RoaringBitmap);

/// The set of document ids held by a roaring bitmap.
pub uninterp spec fn bitmap_set(b: RoaringBitmap) -> Set<u32>;

/// Symmetric difference of two id sets; `Not` scopes complement a leaf
/// against the universe with it.
pub open spec fn set_xor(a: Set<u32>, b: Set<u32>) -> Set<u32> {
    a.difference(b).union(b.difference(a))
}

/// Relies on `roaring::RoaringBitmap::new`: creates an empty bitmap.
#[verifier::external_body]
pub fn bitmap_new() -> (r: RoaringBitmap)
    ensures
        bitmap_set(r) == Set::<u32>::empty(),
{
    RoaringBitmap::new()
}

/// Relies on `roaring::RoaringBitmap::insert`: adds the value to the set.
#[verifier::external_body]
pub fn bitmap_insert(b: &mut RoaringBitmap, value: u32)
    ensures
        bitmap_set(*final(b)) == bitmap_set(*old(b)).insert(value),
{
    b.insert(value);
}

/// Relies on `roaring::RoaringBitmap::is_empty`: true exactly when the
/// bitmap holds no integers.
#[verifier::external_body]
pub fn bitmap_is_empty(b: &RoaringBitmap) -> (r: bool)
    ensures
        r == (bitmap_set(*b) == Set::<u32>::empty()),
{
    b.is_empty()
}

/// Relies on roaring's `BitAndAssign<RoaringBitmap>`: an intersection
/// between two sets.
#[verifier::external_body]
pub fn bitmap_and_assign(b: &mut RoaringBitmap, rhs: RoaringBitmap)
    ensures
        bitmap_set(*final(b)) == bitmap_set(*old(b)).intersect(bitmap_set(rhs)),
{
    *b &= rhs;
}

/// Relies on roaring's `BitOrAssign<RoaringBitmap>`: a union between two
/// sets.
#[verifier::external_body]
pub fn bitmap_or_assign(b: &mut RoaringBitmap, rhs: RoaringBitmap)
    ensures
        bitmap_set(*final(b)) == bitmap_set(*old(b)).union(bitmap_set(rhs)),
{
    *b |= rhs;
}

/// Relies on roaring's `BitXorAssign<&RoaringBitmap>`: a symmetric
/// difference between two sets.
#[verifier::external_body]
pub fn bitmap_xor_assign(b: &mut RoaringBitmap, rhs: &RoaringBitmap)
    ensures
        bitmap_set(*final(b)) == set_xor(bitmap_set(*old(b)), bitmap_set(*rhs)),
{
    *b ^= rhs;
}

/// Relies on roaring's `Clone` impl: the copy holds the same ids.
#[verifier::external_body]
pub fn bitmap_clone(b: &RoaringBitmap) -> (r: RoaringBitmap)
    ensures
        bitmap_set(r) == bitmap_set(*b),
{
    b.clone()
}

} // verus!
