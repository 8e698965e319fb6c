//! Content fingerprints.

use vstd::prelude::*;
use std::collections::hash_map::DefaultHasher;
use std::hash::Hasher;
use vstd::std_specs::hash::DefaultHasherAdditionalSpecFns;
use vstd::string::StringSliceAdditionalSpecFns;

verus! {

/// The fingerprint of a text: std's default hasher fed the text's UTF-8 bytes
/// followed by the 0xff terminator, as `str`'s `Hash` impl writes them.
pub open spec fn fingerprint(text: Seq<char>) -> u64 {
    DefaultHasher::spec_finish(seq![vstd::utf8::encode_utf8(text), seq![0xffu8]])
}

pub fn simple_hash(text: &str) -> (r: u64)
    ensures
        r == fingerprint(text@),
{
    let mut h = DefaultHasher::new();
    h.write(text.as_bytes());
    let end: [u8; 1] = [0xff];
    h.write(end.as_slice());
    proof {
        assert(end@ == seq![0xffu8]);
        assert(h@ =~= seq![text.spec_bytes(), seq![0xffu8]]);
    }
    h.finish()
}

} // verus!
