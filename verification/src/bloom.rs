//! Trusted interface to the `bloomfilter` crate. The filter is used as a
//! fast pre-check in sanctions screening; the only fact the engine relies
//! on is the one the crate documents: there are no false negatives.

use vstd::prelude::*;

verus! {

#[verifier::external_type_specification]
#[verifier::external_body]
#[verifier::reject_recursive_types(T)]
pub struct ExBloom<T: ?Sized>(bloomfilter::Bloom<T>);

/// The set of items recorded in a filter since its creation.
pub uninterp spec fn bloom_elems(b: bloomfilter::Bloom<String>) -> Set<Seq<char>>;

/// Relies on `bloomfilter::Bloom::new`: a freshly created filter has no
/// recorded items. The constructor asserts both sizes are positive and
/// fails only if no random seed could be drawn.
#[verifier::external_body]
pub fn bloom_new(bitmap_bytes: usize, items_count: usize) -> (r: Option<
    bloomfilter::Bloom<String>,
>)
    requires
        bitmap_bytes >= 1,
        items_count >= 1,
    ensures
        r matches Some(b) ==> bloom_elems(b) == Set::<Seq<char>>::empty(),
{
    match bloomfilter::Bloom::new(bitmap_bytes, items_count) {
        Ok(b) => Some(b),
        Err(_) => None,
    }
}

/// Relies on `bloomfilter::Bloom::set`: records the presence of an item.
#[verifier::external_body]
pub fn bloom_set(b: &mut bloomfilter::Bloom<String>, item: &String)
    ensures
        bloom_elems(*final(b)) == bloom_elems(*old(b)).insert(item@),
{
    b.set(item)
}

/// Relies on `bloomfilter::Bloom::check`: there can be false positives,
/// but no false negatives, so a negative answer proves the item was never
/// recorded.
#[verifier::external_body]
pub fn bloom_check(b: &bloomfilter::Bloom<String>, item: &String) -> (r: bool)
    ensures
        !r ==> !bloom_elems(*b).contains(item@),
{
    b.check(item)
}

} // verus!
