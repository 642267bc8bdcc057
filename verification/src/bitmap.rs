//! Compressed sets of album handles, kept in `roaring` bitmaps.
//!
//! Verus sees a bitmap only through the set of integers it holds,
//! `bitmap_set`; each operation the engine uses is stated over that set.
use vstd::prelude::*;
use roaring::RoaringBitmap;

verus! {

#[verifier::external_type_specification]
#[verifier::external_body]
pub struct ExRoaringBitmap(RoaringBitmap);

/// The integers that a bitmap holds.
pub uninterp spec fn bitmap_set(b: RoaringBitmap) -> Set<u32>;

/// `RoaringBitmap::new`: a bitmap that holds nothing.
#[verifier::external_body]
pub(crate) fn bitmap_new() -> (r: RoaringBitmap)
    ensures
        bitmap_set(r) == Set::<u32>::empty(),
{
    RoaringBitmap::new()
}

/// `RoaringBitmap::insert`: adds `x`; the result tells whether it was absent.
#[verifier::external_body]
pub(crate) fn bitmap_insert(b: &mut RoaringBitmap, x: u32) -> (r: bool)
    ensures
        bitmap_set(*final(b)) == bitmap_set(*old(b)).insert(x),
        r == !bitmap_set(*old(b)).contains(x),
{
    b.insert(x)
}

/// `RoaringBitmap::contains`.
#[verifier::external_body]
pub(crate) fn bitmap_contains(b: &RoaringBitmap, x: u32) -> (r: bool)
    ensures
        r == bitmap_set(*b).contains(x),
{
    b.contains(x)
}

/// `RoaringBitmap::clear`: the bitmap then holds nothing.
#[verifier::external_body]
pub(crate) fn bitmap_clear(b: &mut RoaringBitmap)
    ensures
        bitmap_set(*final(b)) == Set::<u32>::empty(),
{
    b.clear()
}

/// `Clone::clone` of a bitmap: a bitmap with the same integers.
#[verifier::external_body]
pub(crate) fn bitmap_clone(b: &RoaringBitmap) -> (r: RoaringBitmap)
    ensures
        bitmap_set(r) == bitmap_set(*b),
{
    b.clone()
}

/// `&=` on bitmaps (`BitAndAssign<&RoaringBitmap>`): keeps what both hold.
#[verifier::external_body]
pub(crate) fn bitmap_and_assign(b: &mut RoaringBitmap, other: &RoaringBitmap)
    ensures
        bitmap_set(*final(b)) == bitmap_set(*old(b)).intersect(bitmap_set(*other)),
{
    *b &= other;
}

/// `RoaringBitmap::intersection_len`: how many integers both bitmaps hold.
#[verifier::external_body]
pub(crate) fn bitmap_intersection_len(a: &RoaringBitmap, b: &RoaringBitmap) -> (r: u64)
    ensures
        r == bitmap_set(*a).intersect(bitmap_set(*b)).len(),
{
    a.intersection_len(b)
}

/// `RoaringBitmap::iter`, collected: every integer the bitmap holds, once,
/// in increasing order.
#[verifier::external_body]
pub(crate) fn bitmap_values(b: &RoaringBitmap) -> (r: Vec<u32>)
    ensures
        forall|x: u32| r@.contains(x) <==> bitmap_set(*b).contains(x),
        forall|i: int, j: int| 0 <= i < j < r@.len() ==> r@[i] < r@[j],
{
    b.iter().collect()
}

} // verus!
