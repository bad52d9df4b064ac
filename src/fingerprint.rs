//! 64-bit fingerprints of sequences of strings, fed to std's `DefaultHasher`
//! the way `Hash for str` feeds a hasher: the UTF-8 bytes, then `0xff`.

use std::collections::hash_map::DefaultHasher;
use std::hash::Hasher;
use vstd::prelude::*;
use vstd::std_specs::hash::DefaultHasherAdditionalSpecFns;
use vstd::utf8::encode_utf8;

verus! {

/// The writes that hashing each of `parts` in turn makes.
pub open spec fn hash_input(parts: Seq<Seq<char>>) -> Seq<Seq<u8>>
    decreases parts.len(),
{
    if parts.len() == 0 {
        Seq::empty()
    } else {
        hash_input(parts.drop_last()) + seq![encode_utf8(parts.last()), seq![0xffu8]]
    }
}

/// The fingerprint of `parts`: what `DefaultHasher::new()` finishes with after
/// hashing each of them in turn.
pub open spec fn fingerprint(parts: Seq<Seq<char>>) -> u64 {
    DefaultHasher::spec_finish(hash_input(parts))
}

/// The views of `v`'s strings.
pub open spec fn views(v: Seq<String>) -> Seq<Seq<char>> {
    v.map_values(|s: String| s@)
}

/// Computes the fingerprint of `parts`.
pub fn fingerprint_of(parts: &Vec<String>) -> (r: u64)
    ensures
        r == fingerprint(views(parts@)),
{
    let mut hasher = DefaultHasher::new();
    let end: [u8; 1] = [0xff];
    let mut i: usize = 0;
    while i < parts.len()
        invariant
            i <= parts@.len(),
            end@ == seq![0xffu8],
            hasher@ == hash_input(views(parts@.subrange(0, i as int))),
        decreases parts@.len() - i,
    {
        hasher.write(parts[i].as_str().as_bytes());
        hasher.write(end.as_slice());
        proof {
            let done = parts@.subrange(0, i + 1);
            assert(done.drop_last() == parts@.subrange(0, i as int));
            assert(views(done).drop_last() == views(parts@.subrange(0, i as int)));
        }
        i = i + 1;
    }
    assert(parts@.subrange(0, parts@.len() as int) == parts@);
    hasher.finish()
}

} // verus!
