//! The tiles that lie on one page of an atlas.
use std::collections::HashMap;

use vstd::prelude::*;
use vstd::std_specs::hash::*;

use crate::atlas_key::{AtlasKey, AtlasKeyModel};

verus! {

/// A tile on a page.
#[derive(Debug)]
pub struct TileRecord {
    /// The tile.
    pub id: u32,
    /// What the tile holds.
    pub key: AtlasKey,
    /// The last frame that drew it.
    pub last_used_frame: u64,
}

/// What is known of a tile.
pub struct TileRecordModel {
    /// What the tile holds.
    pub key: AtlasKeyModel,
    /// The last frame that drew it.
    pub last_used_frame: u64,
}

impl TileRecord {
    /// What is known of the tile.
    pub open spec fn model(self) -> TileRecordModel {
        TileRecordModel { key: self.key@, last_used_frame: self.last_used_frame }
    }
}

/// The tiles on one page.
pub struct TileTable {
    records: Vec<TileRecord>,
    places: HashMap<u32, usize>,
}

impl TileTable {
    /// Whether the place of every record is known, and of nothing else.
    pub closed spec fn wf(self) -> bool {
        &&& forall|i: int|
            0 <= i < self.records@.len() ==> self.places@.contains_key(
                (#[trigger] self.records@[i]).id,
            ) && self.places@[self.records@[i].id] == i
        &&& forall|id: u32| #[trigger]
            self.places@.contains_key(id) ==> self.places@[id] < self.records@.len()
                && self.records@[self.places@[id] as int].id == id
    }

    /// Whether the page holds the tile `id`.
    pub closed spec fn holds(self, id: u32) -> bool {
        self.places@.contains_key(id)
    }

    /// What is known of the tile `id`.
    pub closed spec fn record(self, id: u32) -> TileRecordModel {
        self.records@[self.places@[id] as int].model()
    }
}

impl View for TileTable {
    type V = Map<u32, TileRecordModel>;

    open spec fn view(&self) -> Map<u32, TileRecordModel> {
        Map::new(|id: u32| self.holds(id), |id| self.record(id))
    }
}

/// Whether nothing has drawn a tile for `max_idle_frames`, and it may be retired.
pub open spec fn is_idle(record: TileRecordModel, frame: u64, max_idle_frames: u64) -> bool {
    &&& record.key.spec_is_retirable()
    &&& (if frame > record.last_used_frame {
        frame - record.last_used_frame
    } else {
        0
    }) >= max_idle_frames
}

/// Whether `key` is that of a tile that nothing has drawn for `max_idle_frames`,
/// and that may be retired.
pub open spec fn is_idle_key(
    tiles: Map<u32, TileRecordModel>,
    key: AtlasKeyModel,
    frame: u64,
    max_idle_frames: u64,
) -> bool {
    exists|id: u32|
        tiles.contains_key(id) && (#[trigger] tiles[id]).key == key && is_idle(
            tiles[id],
            frame,
            max_idle_frames,
        )
}

/// Whether `key` is one of `keys`.
pub open spec fn names(keys: Seq<AtlasKey>, key: AtlasKeyModel) -> bool {
    exists|i: int| 0 <= i < keys.len() && (#[trigger] keys[i])@ == key
}

impl TileTable {
    /// No tiles.
    pub fn new() -> (result: Self)
        ensures
            result.wf(),
            result@ == Map::<u32, TileRecordModel>::empty(),
    {
        broadcast use group_hash_axioms;

        let result = TileTable { records: Vec::new(), places: HashMap::new() };
        proof {
            assert(result@ =~= Map::<u32, TileRecordModel>::empty());
        }
        result
    }

    /// Whether the page holds no tile.
    pub fn is_empty(&self) -> (result: bool)
        requires
            self.wf(),
        ensures
            result == (self@ == Map::<u32, TileRecordModel>::empty()),
    {
        let result: bool = self.records.len() == 0;
        proof {
            if result {
                assert(self@ =~= Map::<u32, TileRecordModel>::empty());
            } else {
                let id = self.records@[0].id;
                assert(self.holds(id));
                assert(self@.contains_key(id));
            }
        }
        result
    }

    /// Notes that `frame` drew the tile `id`, if the page holds it.
    pub fn touch(&mut self, id: u32, frame: u64)
        requires
            old(self).wf(),
        ensures
            final(self).wf(),
            final(self)@ == if old(self)@.contains_key(id) {
                old(self)@.insert(
                    id,
                    (TileRecordModel { last_used_frame: frame, ..old(self)@[id] }),
                )
            } else {
                old(self)@
            },
    {
        broadcast use group_hash_axioms;

        let found = match self.places.get(&id) {
            Some(place) => Some(*place),
            None => None,
        };
        if let Some(place) = found {
            let ghost before = *self;
            let key = self.records[place].key.duplicate();
            let record = TileRecord { id, key, last_used_frame: frame };
            self.records[place] = record;
            proof {
                assert(self@ =~= old(self)@.insert(
                    id,
                    TileRecordModel { last_used_frame: frame, ..old(self)@[id] },
                )) by {
                    assert forall|other: u32| #[trigger] self.holds(other) implies self.record(
                        other,
                    ) == if other == id {
                        TileRecordModel { last_used_frame: frame, ..before.record(id) }
                    } else {
                        before.record(other)
                    } by {
                        assert(before.places@.contains_key(other));
                    }
                }
            }
        }
    }

    /// Adds the tile `id`, which the page does not hold.
    pub fn insert(&mut self, id: u32, key: AtlasKey, frame: u64)
        requires
            old(self).wf(),
            !old(self)@.contains_key(id),
        ensures
            final(self).wf(),
            final(self)@ == old(self)@.insert(
                id,
                (TileRecordModel { key: key@, last_used_frame: frame }),
            ),
    {
        broadcast use group_hash_axioms;

        let ghost before = *self;
        let ghost name = key@;
        let place: usize = self.records.len();
        self.records.push(TileRecord { id, key, last_used_frame: frame });
        self.places.insert(id, place);
        proof {
            assert forall|i: int| 0 <= i < self.records@.len() implies self.places@.contains_key(
                (#[trigger] self.records@[i]).id,
            ) && self.places@[self.records@[i].id] == i by {
                if i < place {
                    assert(before.records@[i] == self.records@[i]);
                    assert(before.places@.contains_key(before.records@[i].id));
                    assert(before.holds(self.records@[i].id));
                }
            }
            assert(self@ =~= old(self)@.insert(
                id,
                TileRecordModel { key: name, last_used_frame: frame },
            )) by {
                assert forall|other: u32| #[trigger] self.holds(other) && other != id implies
                    self.record(other) == before.record(other) by {
                    assert(before.places@.contains_key(other));
                }
            }
        }
    }

    /// Takes the tile `id` away, and returns whether the page held it.
    pub fn remove(&mut self, id: u32) -> (result: bool)
        requires
            old(self).wf(),
        ensures
            final(self).wf(),
            final(self)@ == old(self)@.remove(id),
            result == old(self)@.contains_key(id),
    {
        broadcast use group_hash_axioms;

        let ghost before = *self;
        let place: usize = match self.places.remove(&id) {
            Some(place) => place,
            None => {
                proof {
                    assert(self.places@ =~= before.places@);
                    assert(self@ =~= old(self)@.remove(id));
                }
                return false;
            },
        };
        proof {
            assert(before.places@.contains_key(id));
        }
        let last: usize = self.records.len() - 1;
        self.records.swap_remove(place);
        if place < last {
            let moved: u32 = self.records[place].id;
            self.places.insert(moved, place);
        }
        proof {
            let last_id = before.records@[last as int].id;
            assert(before.places@[last_id] == last);
            assert forall|i: int| 0 <= i < self.records@.len() implies self.places@.contains_key(
                (#[trigger] self.records@[i]).id,
            ) && self.places@[self.records@[i].id] == i by {
                if i == place {
                    assert(self.records@[i] == before.records@[last as int]);
                } else {
                    assert(self.records@[i] == before.records@[i]);
                    assert(before.places@[before.records@[i].id] == i);
                }
            }
            assert forall|other: u32| #[trigger] self.places@.contains_key(other) implies
                self.places@[other] < self.records@.len() && self.records@[self.places@[other] as
                int].id == other by {
                assert(before.places@.contains_key(other));
                if other != last_id {
                    assert(before.places@[other] != last);
                }
            }
            assert(self@ =~= old(self)@.remove(id)) by {
                assert forall|other: u32| other != id implies (#[trigger] self.holds(other)
                    <==> before.holds(other)) by {}
                assert forall|other: u32| #[trigger] self.holds(other) implies self.record(other)
                    == before.record(other) by {
                    assert(before.places@.contains_key(other));
                }
            }
        }
        true
    }

    /// The keys of the tiles that nothing has drawn for `max_idle_frames`, of
    /// those that may be retired.
    pub fn idle_keys(&self, frame: u64, max_idle_frames: u64) -> (result: Vec<AtlasKey>)
        requires
            self.wf(),
        ensures
            forall|key: AtlasKeyModel| #[trigger]
                names(result@, key) <==> is_idle_key(self@, key, frame, max_idle_frames),
    {
        broadcast use group_hash_axioms;

        let mut result: Vec<AtlasKey> = Vec::new();
        let mut i: usize = 0;
        while i < self.records.len()
            invariant
                self.wf(),
                i <= self.records@.len(),
                forall|k: int|
                    0 <= k < result@.len() ==> is_idle_key(
                        self@,
                        (#[trigger] result@[k])@,
                        frame,
                        max_idle_frames,
                    ),
                forall|j: int|
                    0 <= j < i && is_idle(
                        (#[trigger] self.records@[j]).model(),
                        frame,
                        max_idle_frames,
                    ) ==> names(result@, self.records@[j].key@),
            decreases self.records@.len() - i,
        {
            let record = &self.records[i];
            let idle: u64 = if frame > record.last_used_frame {
                frame - record.last_used_frame
            } else {
                0
            };
            let ghost result_0 = result@;
            if record.key.is_retirable() && idle >= max_idle_frames {
                result.push(record.key.duplicate());
                proof {
                    let id = self.records@[i as int].id;
                    assert(self.holds(id));
                    assert(self@.contains_key(id));
                    assert(self@[id] == self.records@[i as int].model());
                    assert forall|k: int| 0 <= k < result@.len() implies is_idle_key(
                        self@,
                        (#[trigger] result@[k])@,
                        frame,
                        max_idle_frames,
                    ) by {
                        if k < result_0.len() {
                            assert(result@[k] == result_0[k]);
                        } else {
                            assert(self@[id].key == result@[k]@);
                        }
                    }
                }
            }
            proof {
                assert forall|j: int|
                    0 <= j < i + 1 && is_idle(
                        (#[trigger] self.records@[j]).model(),
                        frame,
                        max_idle_frames,
                    ) implies names(result@, self.records@[j].key@) by {
                    if j < i {
                        let k = choose|k: int|
                            0 <= k < result_0.len() && (#[trigger] result_0[k])@
                                == self.records@[j].key@;
                        assert(result@[k] == result_0[k]);
                    } else {
                        assert(result@[result_0.len() as int]@ == self.records@[j].key@);
                    }
                }
            }
            i = i + 1;
        }
        proof {
            assert forall|key: AtlasKeyModel| #[trigger]
                names(result@, key) <==> is_idle_key(self@, key, frame, max_idle_frames) by {
                if is_idle_key(self@, key, frame, max_idle_frames) {
                    let id = choose|id: u32|
                        self@.contains_key(id) && (#[trigger] self@[id]).key == key && is_idle(
                            self@[id],
                            frame,
                            max_idle_frames,
                        );
                    assert(self.holds(id));
                    let j = self.places@[id] as int;
                    assert(is_idle(self.records@[j].model(), frame, max_idle_frames));
                }
                if names(result@, key) {
                    let k = choose|k: int| 0 <= k < result@.len() && (#[trigger] result@[k])@ == key;
                    assert(is_idle_key(self@, result@[k]@, frame, max_idle_frames));
                }
            }
        }
        result
    }
}

} // verus!
