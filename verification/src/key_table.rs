//! A table from atlas keys to tiles.
use std::collections::HashMap;

use vstd::prelude::*;
use vstd::std_specs::hash::*;

use crate::atlas_key::{AtlasKey, AtlasKeyModel};
use crate::atlas_tile::AtlasTile;

verus! {

/// A key and its tile.
#[derive(Debug)]
pub struct KeyEntry {
    /// The key.
    pub key: AtlasKey,
    /// Its tile.
    pub tile: AtlasTile,
}

/// A table from keys to tiles: keys of one digest share a bucket.
pub struct KeyTable {
    buckets: HashMap<u64, Vec<KeyEntry>>,
}

/// The place of `key` in a bucket, from `from` on; the bucket's length if it is
/// not there.
spec fn place_of(bucket: Seq<KeyEntry>, key: AtlasKeyModel, from: int) -> int
    decreases bucket.len() - from,
{
    if from < 0 || from >= bucket.len() {
        bucket.len() as int
    } else if bucket[from].key@ == key {
        from
    } else {
        place_of(bucket, key, from + 1)
    }
}

/// Whether the keys of a bucket have the bucket's digest, and each occurs once.
spec fn bucket_in_order(bucket: Seq<KeyEntry>, digest: u64) -> bool {
    &&& forall|i: int| 0 <= i < bucket.len() ==> (#[trigger] bucket[i]).key@.spec_digest() == digest
    &&& forall|i: int, j: int|
        0 <= i < j < bucket.len() ==> (#[trigger] bucket[i]).key@ != (#[trigger] bucket[j]).key@
}

proof fn lemma_place_of(bucket: Seq<KeyEntry>, key: AtlasKeyModel, from: int)
    requires
        0 <= from <= bucket.len(),
    ensures
        from <= place_of(bucket, key, from) <= bucket.len(),
        place_of(bucket, key, from) < bucket.len() ==> bucket[place_of(bucket, key, from)].key@
            == key,
        forall|i: int|
            from <= i < place_of(bucket, key, from) ==> (#[trigger] bucket[i]).key@ != key,
    decreases bucket.len() - from,
{
    if from < bucket.len() && bucket[from].key@ != key {
        lemma_place_of(bucket, key, from + 1);
    }
}

impl KeyTable {
    /// The bucket of a digest.
    closed spec fn bucket(self, digest: u64) -> Seq<KeyEntry> {
        if self.buckets@.contains_key(digest) {
            self.buckets@[digest]@
        } else {
            Seq::empty()
        }
    }

    /// The tile of `key`, if it has one.
    pub closed spec fn lookup(self, key: AtlasKeyModel) -> Option<AtlasTile> {
        let bucket = self.bucket(key.spec_digest());
        let place = place_of(bucket, key, 0);
        if place < bucket.len() {
            Some(bucket[place].tile)
        } else {
            None
        }
    }

    /// Whether every key is in the bucket of its digest, once.
    pub closed spec fn wf(self) -> bool {
        forall|digest: u64| #[trigger] bucket_in_order(self.bucket(digest), digest)
    }
}

impl View for KeyTable {
    type V = Map<AtlasKeyModel, AtlasTile>;

    open spec fn view(&self) -> Map<AtlasKeyModel, AtlasTile> {
        Map::new(|key: AtlasKeyModel| self.lookup(key) is Some, |key| self.lookup(key)->Some_0)
    }
}

fn find(bucket: &Vec<KeyEntry>, key: &AtlasKey) -> (place: usize)
    ensures
        place == place_of(bucket@, key@, 0),
{
    let mut i: usize = 0;
    while i < bucket.len()
        invariant
            i <= bucket@.len(),
            place_of(bucket@, key@, 0) == place_of(bucket@, key@, i as int),
        decreases bucket@.len() - i,
    {
        if bucket[i].key.same(key) {
            return i;
        }
        i = i + 1;
    }
    i
}

impl KeyTable {
    /// No keys.
    pub fn new() -> (result: Self)
        ensures
            result.wf(),
            result@ == Map::<AtlasKeyModel, AtlasTile>::empty(),
    {
        broadcast use group_hash_axioms;

        let result = KeyTable { buckets: HashMap::new() };
        proof {
            assert(result@ =~= Map::<AtlasKeyModel, AtlasTile>::empty());
        }
        result
    }

    /// The tile of `key`, if it has one.
    pub fn get(&self, key: &AtlasKey) -> (result: Option<AtlasTile>)
        ensures
            result == (if self@.contains_key(key@) {
                Some(self@[key@])
            } else {
                None
            }),
    {
        broadcast use group_hash_axioms;

        let digest: u64 = key.digest();
        proof {
            lemma_place_of(self.bucket(digest), key@, 0);
        }
        match self.buckets.get(&digest) {
            Some(bucket) => {
                let place: usize = find(bucket, key);
                if place < bucket.len() {
                    Some(bucket[place].tile)
                } else {
                    None
                }
            },
            None => None,
        }
    }

    /// Gives `key`, which has none, a tile.
    pub fn insert(&mut self, key: AtlasKey, tile: AtlasTile)
        requires
            old(self).wf(),
            !old(self)@.contains_key(key@),
        ensures
            final(self).wf(),
            final(self)@ == old(self)@.insert(key@, tile),
    {
        broadcast use group_hash_axioms;

        let ghost before = *self;
        let ghost name = key@;
        let digest: u64 = key.digest();
        let ghost bucket_0 = self.bucket(digest);
        let mut bucket: Vec<KeyEntry> = match self.buckets.remove(&digest) {
            Some(bucket) => bucket,
            None => Vec::new(),
        };
        proof {
            assert(bucket@ =~= bucket_0);
            lemma_place_of(bucket_0, name, 0);
        }
        bucket.push(KeyEntry { key, tile });
        let ghost bucket_1 = bucket@;
        self.buckets.insert(digest, bucket);
        proof {
            assert(bucket_in_order(bucket_0, digest));
            assert(self.bucket(digest) == bucket_1);
            assert forall|other: u64| #[trigger]
                bucket_in_order(self.bucket(other), other) by {
                assert(bucket_in_order(before.bucket(other), other));
                if other == digest {
                    assert forall|i: int, j: int| 0 <= i < j < bucket_1.len() implies (
                    #[trigger] bucket_1[i]).key@ != (#[trigger] bucket_1[j]).key@ by {
                        assert(bucket_1[i] == bucket_0[i]);
                    }
                }
            }
            assert forall|other: AtlasKeyModel| #[trigger]
                self.lookup(other) == if other == name {
                    Some(tile)
                } else {
                    before.lookup(other)
                } by {
                if other.spec_digest() == digest {
                    lemma_place_of(bucket_0, other, 0);
                    lemma_place_of(bucket_1, other, 0);
                    let p = place_of(bucket_0, other, 0);
                    let q = place_of(bucket_1, other, 0);
                    if p < bucket_0.len() {
                        assert(bucket_1[p] == bucket_0[p]);
                        assert(q <= p);
                        if q < p {
                            assert(bucket_0[q].key@ == other);
                        }
                    } else if other == name {
                        assert(bucket_1[bucket_0.len() as int].key@ == name);
                        if q < bucket_0.len() {
                            assert(bucket_0[q].key@ == name);
                        }
                    } else if q < bucket_1.len() {
                        assert(q < bucket_0.len());
                        assert(bucket_0[q].key@ == other);
                    }
                } else {
                    assert(self.bucket(other.spec_digest()) == before.bucket(
                        other.spec_digest(),
                    ));
                }
            }
            assert(self@ =~= old(self)@.insert(name, tile));
        }
    }

    /// Takes the tile of `key` away, and returns it if there was one.
    pub fn remove(&mut self, key: &AtlasKey) -> (result: Option<AtlasTile>)
        requires
            old(self).wf(),
        ensures
            final(self).wf(),
            final(self)@ == old(self)@.remove(key@),
            result == (if old(self)@.contains_key(key@) {
                Some(old(self)@[key@])
            } else {
                None
            }),
    {
        broadcast use group_hash_axioms;

        let ghost before = *self;
        let digest: u64 = key.digest();
        let ghost bucket_0 = self.bucket(digest);
        proof {
            lemma_place_of(bucket_0, key@, 0);
            assert(bucket_in_order(bucket_0, digest));
        }
        let mut bucket: Vec<KeyEntry> = match self.buckets.remove(&digest) {
            Some(bucket) => bucket,
            None => {
                proof {
                    assert(self@ =~= old(self)@.remove(key@)) by {
                        assert forall|other: AtlasKeyModel| #[trigger]
                            self.lookup(other) == before.lookup(other) by {
                            assert(self.bucket(other.spec_digest()) == before.bucket(
                                other.spec_digest(),
                            ));
                        }
                    }
                    assert forall|other: u64| #[trigger]
                        bucket_in_order(self.bucket(other), other) by {
                        assert(self.bucket(other) == before.bucket(other));
                        assert(bucket_in_order(before.bucket(other), other));
                    }
                }
                return None;
            },
        };
        proof {
            assert(bucket@ == bucket_0);
        }
        let place: usize = find(&bucket, key);
        let result = if place < bucket.len() {
            let entry = bucket.swap_remove(place);
            Some(entry.tile)
        } else {
            None
        };
        let ghost bucket_1 = bucket@;
        if bucket.len() > 0 {
            self.buckets.insert(digest, bucket);
        }
        proof {
            assert(self.bucket(digest) =~= bucket_1);
            assert forall|other: u64| #[trigger]
                bucket_in_order(self.bucket(other), other) by {
                assert(bucket_in_order(before.bucket(other), other));
                if other != digest {
                    assert(self.bucket(other) == before.bucket(other));
                }
            }
            assert forall|other: AtlasKeyModel| #[trigger]
                self.lookup(other) == if other == key@ {
                    None
                } else {
                    before.lookup(other)
                } by {
                if other.spec_digest() == digest {
                    lemma_place_of(bucket_0, other, 0);
                    lemma_place_of(bucket_1, other, 0);
                    let p = place_of(bucket_0, other, 0);
                    let q = place_of(bucket_1, other, 0);
                    if place < bucket_0.len() {
                        let last = bucket_0.len() - 1;
                        if p < bucket_0.len() && other != key@ {
                            if p == last {
                                assert(bucket_1[place as int] == bucket_0[p]);
                            } else {
                                assert(bucket_1[p] == bucket_0[p]);
                            }
                        }
                        if q < bucket_1.len() {
                            if q == place {
                                assert(bucket_1[q] == bucket_0[last]);
                            } else {
                                assert(bucket_1[q] == bucket_0[q]);
                            }
                        }
                    }
                } else {
                    assert(self.bucket(other.spec_digest()) == before.bucket(
                        other.spec_digest(),
                    ));
                }
            }
            assert(self@ =~= old(self)@.remove(key@));
        }
        result
    }
}

} // verus!
