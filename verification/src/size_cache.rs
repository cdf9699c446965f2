//! The size cache: the content length of objects, by bucket and key.

use vstd::prelude::*;
use vstd::hash_map::StringHashMap;

verus! {

/// The text under which the size of an object is filed: its bucket, a `/`
/// and its key.
pub open spec fn size_key(bucket: Seq<char>, key: Seq<char>) -> Seq<char> {
    bucket + seq!['/'] + key
}

/// The text under which the size of an object is filed.
pub fn size_key_of(bucket: &str, key: &str) -> (k: String)
    ensures
        k@ == size_key(bucket@, key@),
{
    let mut k = String::from_str(bucket);
    k.push('/');
    k.append(key);
    k
}

/// The sizes of objects that the gateway has seen. A size is set again
/// whenever it is seen again, and never removed.
pub struct SizeCache {
    sizes: StringHashMap<i64>,
}

impl View for SizeCache {
    type V = Map<Seq<char>, i64>;

    closed spec fn view(&self) -> Map<Seq<char>, i64> {
        self.sizes@
    }
}

/// What a map holds for a key, if anything.
pub open spec fn size_at(sizes: Map<Seq<char>, i64>, key: Seq<char>) -> Option<i64> {
    if sizes.contains_key(key) {
        Some(sizes[key])
    } else {
        None
    }
}

impl SizeCache {
    /// A cache that holds nothing.
    pub fn new() -> (cache: SizeCache)
        ensures
            cache@ == Map::<Seq<char>, i64>::empty(),
    {
        SizeCache { sizes: StringHashMap::new() }
    }

    /// The size filed under `key`, if there is one.
    pub fn get(&self, key: &str) -> (size: Option<i64>)
        ensures
            size == size_at(self@, key@),
    {
        match self.sizes.get(key) {
            Some(size) => Some(*size),
            None => None,
        }
    }

    /// Files `size` under `key`, in place of what was filed there.
    pub fn put(&mut self, key: &str, size: i64)
        ensures
            final(self)@ == old(self)@.insert(key@, size),
    {
        self.sizes.insert(String::from_str(key), size);
    }
}

} // verus!
