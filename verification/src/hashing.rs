use std::collections::hash_map::DefaultHasher;
use std::hash::Hash;
use std::hash::Hasher;

use vstd::prelude::*;
use vstd::std_specs::hash::DefaultHasherAdditionalSpecFns;

verus! {

/// What hashing a string hands to a hasher: the writes, in their order.
pub uninterp spec fn hash_feed(text: Seq<char>) -> Seq<Seq<u8>>;

/// Calls `Hash::hash` of `str` on a `DefaultHasher`. Trusted: what the call
/// writes to the hasher depends on the characters of the string alone, and
/// is added after what the hasher holds already.
#[verifier::external_body]
fn feed(text: &str, state: &mut DefaultHasher)
    ensures
        final(state)@ == old(state)@ + hash_feed(text@),
{
    text.hash(state)
}

/// The hash of a string under a hasher that starts empty.
pub open spec fn text_hash(text: Seq<char>) -> u64 {
    DefaultHasher::spec_finish(hash_feed(text))
}

/// Hashes a string with a fresh default hasher.
pub fn hash_text(text: &str) -> (h: u64)
    ensures
        h == text_hash(text@),
{
    let mut hasher = DefaultHasher::new();
    feed(text, &mut hasher);
    assert(Seq::<Seq<u8>>::empty() + hash_feed(text@) =~= hash_feed(text@));
    hasher.finish()
}

} // verus!
