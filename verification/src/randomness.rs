//! Where random draws come from.

use std::collections::hash_map::DefaultHasher;
use std::hash::Hasher;
use vstd::prelude::*;
use vstd::std_specs::hash::DefaultHasherAdditionalSpecFns;
use vstd::string::StringSliceAdditionalSpecFns;

verus! {

/// A place at which random draws are made, with a name for readers.
#[derive(Debug, Clone, Copy, PartialEq, Eq, Hash)]
pub struct DrawSite {
    pub tag: &'static str,
    pub site_id: u64,
}

impl DrawSite {
    pub fn new(tag: &'static str, site_id: u64) -> (site: Self)
        ensures
            site == (DrawSite { tag, site_id }),
    {
        DrawSite { tag, site_id }
    }
}

/// The 64-bit FNV-1a hash of some bytes.
pub open spec fn fnv1a(bytes: Seq<u8>) -> u64
    decreases bytes.len(),
{
    if bytes.len() == 0 {
        0xcbf29ce484222325
    } else {
        (fnv1a(bytes.drop_last()) ^ (bytes.last() as u64)).wrapping_mul(0x100000001b3)
    }
}

/// The 64-bit FNV-1a hash of a text, which names a draw site in the same way on
/// every run.
pub fn fnv1a64(s: &str) -> (hash: u64)
    ensures
        hash == fnv1a(s.spec_bytes()),
{
    let bytes = s.as_bytes();
    let mut hash: u64 = 0xcbf29ce484222325;
    let mut i: usize = 0;
    while i < bytes.len()
        invariant
            i <= bytes@.len(),
            hash == fnv1a(bytes@.take(i as int)),
        decreases bytes@.len() - i,
    {
        hash = (hash ^ (bytes[i] as u64)).wrapping_mul(0x100000001b3);
        proof {
            assert(bytes@.take(i + 1).drop_last() =~= bytes@.take(i as int));
        }
        i = i + 1;
    }
    proof {
        assert(bytes@.take(i as int) =~= bytes@);
    }
    hash
}

/// Names a draw site by a tag and a label that are only known at run time.
pub fn runtime_site_id(tag: &str, label: &str) -> (id: u64)
    ensures
        id == DefaultHasher::spec_finish(seq![tag.spec_bytes(), label.spec_bytes()]),
{
    let mut hasher = DefaultHasher::new();
    hasher.write(tag.as_bytes());
    hasher.write(label.as_bytes());
    proof {
        assert(hasher@ =~= seq![tag.spec_bytes(), label.spec_bytes()]);
    }
    hasher.finish()
}

} // verus!
