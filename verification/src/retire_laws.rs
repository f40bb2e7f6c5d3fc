//! How pages take turns at being looked at for tiles to retire.
use vstd::prelude::*;

use crate::atlas_key::AtlasKeyModel;
use crate::metal_atlas::AtlasModel;
use crate::tile_table::is_idle_key;

verus! {

/// Whether each atlas comes of the one before by retiring idle tiles.
pub open spec fn retire_in_turn(atlases: Seq<AtlasModel>, max_idle_frames: u64) -> bool {
    forall|i: int|
        #![trigger atlases[i]]
        0 <= i < atlases.len() - 1 ==> atlases[i].retires_to(max_idle_frames, atlases[i + 1])
}

proof fn lemma_removing_keeps_places(atlas: AtlasModel, keys: Seq<AtlasKeyModel>)
    ensures
        ({
            let after = atlas.removed_all(keys);
            &&& after.monochrome.pages.len() == atlas.monochrome.pages.len()
            &&& after.polychrome.pages.len() == atlas.polychrome.pages.len()
            &&& after.retire_cursor == atlas.retire_cursor
        }),
    decreases keys.len(),
{
    if keys.len() > 0 {
        lemma_removing_keeps_places(atlas, keys.drop_last());
    }
}

proof fn lemma_retiring_moves_on(atlas: AtlasModel, max_idle_frames: u64, after: AtlasModel)
    requires
        0 < atlas.page_count() <= usize::MAX,
        atlas.retires_to(max_idle_frames, after),
    ensures
        after.monochrome.pages.len() == atlas.monochrome.pages.len(),
        after.polychrome.pages.len() == atlas.polychrome.pages.len(),
        after.retire_cursor == atlas.retire_place() + 1,
{
    let moved_on = AtlasModel { retire_cursor: (atlas.retire_place() + 1) as usize, ..atlas };
    let list = atlas.list(atlas.retire_kind());
    if list.has_page(atlas.retire_index()) {
        let keys = choose|keys: Seq<AtlasKeyModel>|
            (forall|key: AtlasKeyModel| #[trigger]
                keys.contains(key) <==> is_idle_key(
                    list.page(atlas.retire_index()).tiles,
                    key,
                    atlas.frame,
                    max_idle_frames,
                )) && after == #[trigger] moved_on.removed_all(keys);
        lemma_removing_keeps_places(moved_on, keys);
    }
}

proof fn lemma_place_in_turn(atlases: Seq<AtlasModel>, max_idle_frames: u64, i: int)
    requires
        retire_in_turn(atlases, max_idle_frames),
        0 <= i < atlases.len(),
        0 < atlases[0].page_count() <= usize::MAX,
    ensures
        atlases[i].monochrome.pages.len() == atlases[0].monochrome.pages.len(),
        atlases[i].polychrome.pages.len() == atlases[0].polychrome.pages.len(),
        atlases[i].retire_place() == (atlases[0].retire_place() + i) % atlases[0].page_count(),
    decreases i,
{
    let count = atlases[0].page_count();
    let first = atlases[0].retire_place();
    if i > 0 {
        lemma_place_in_turn(atlases, max_idle_frames, i - 1);
        assert(atlases[i - 1].retires_to(max_idle_frames, atlases[i - 1 + 1]));
        lemma_retiring_moves_on(atlases[i - 1], max_idle_frames, atlases[i]);
        let before = first + i - 1;
        vstd::arithmetic::div_mod::lemma_add_mod_noop(before, 1, count);
        vstd::arithmetic::div_mod::lemma_add_mod_noop(before % count, 1, count);
        vstd::arithmetic::div_mod::lemma_mod_twice(before, count);
    } else {
        vstd::arithmetic::div_mod::lemma_mod_twice(atlases[0].retire_cursor as int, count);
    }
}

/// Among as many calls as there are pages, there is one for each page that looks at it.
pub proof fn law_every_page_gets_its_turn(
    atlases: Seq<AtlasModel>,
    max_idle_frames: u64,
    place: int,
)
    requires
        retire_in_turn(atlases, max_idle_frames),
        0 < atlases[0].page_count() <= usize::MAX,
        atlases.len() == atlases[0].page_count() + 1,
        0 <= place < atlases[0].page_count(),
    ensures
        exists|k: int|
            0 <= k < atlases[0].page_count() && (#[trigger] atlases[k]).retire_place() == place,
{
    let count = atlases[0].page_count();
    let first = atlases[0].retire_place();
    assert(0 <= first < count);
    let k = if place >= first {
        place - first
    } else {
        place + count - first
    };
    lemma_place_in_turn(atlases, max_idle_frames, k);
    lemma_wrapped_once(first + k, count);
    assert(atlases[k].retire_place() == place);
}

/// Among as many calls as there are pages, no two look at the same page.
pub proof fn law_no_page_gets_two_turns(
    atlases: Seq<AtlasModel>,
    max_idle_frames: u64,
    i: int,
    j: int,
)
    requires
        retire_in_turn(atlases, max_idle_frames),
        0 < atlases[0].page_count() <= usize::MAX,
        atlases.len() == atlases[0].page_count() + 1,
        0 <= i < j < atlases[0].page_count(),
    ensures
        atlases[i].retire_place() != atlases[j].retire_place(),
{
    let count = atlases[0].page_count();
    let first = atlases[0].retire_place();
    assert(0 <= first < count);
    lemma_place_in_turn(atlases, max_idle_frames, i);
    lemma_place_in_turn(atlases, max_idle_frames, j);
    lemma_wrapped_once(first + i, count);
    lemma_wrapped_once(first + j, count);
}

proof fn lemma_wrapped_once(value: int, count: int)
    requires
        0 < count,
        0 <= value < 2 * count,
    ensures
        value % count == if value < count {
            value
        } else {
            value - count
        },
{
    if value < count {
        vstd::arithmetic::div_mod::lemma_small_mod(value as nat, count as nat);
    } else {
        vstd::arithmetic::div_mod::lemma_mod_add_multiples_vanish(value - count, count);
        vstd::arithmetic::div_mod::lemma_small_mod((value - count) as nat, count as nat);
    }
}

} // verus!
