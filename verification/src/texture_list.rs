//! The pages of one kind that an atlas has.
use vstd::prelude::*;

use crate::atlas_key::{AtlasKey, AtlasKeyModel};
use crate::atlas_page::{
    fits, lies_where_packed, packed, AtlasPage, PageModel, DEFAULT_ATLAS_SIZE, MAX_ATLAS_SIZE,
};
use crate::atlas_tile::{AtlasTextureId, AtlasTextureKind, AtlasTile};
use crate::geometry::{DevicePixels, Size};
use crate::tile_table::TileRecordModel;

verus! {

/// The pages of one kind.
pub struct AtlasTextureList {
    /// The pages by their indices; none where a page was dropped.
    pub textures: Vec<Option<AtlasPage>>,
    /// The indices of dropped pages, to be used again.
    pub free_list: Vec<usize>,
}

/// What an [`AtlasTextureList`] holds.
#[verifier::ext_equal]
pub struct ListModel {
    /// The pages by their indices; none where a page was dropped.
    pub pages: Seq<Option<PageModel>>,
    /// The indices of dropped pages, to be used again.
    pub free: Seq<usize>,
}

/// What a slot for a page holds.
pub open spec fn slot_model(slot: Option<AtlasPage>) -> Option<PageModel> {
    match slot {
        Some(page) => Some(page@),
        None => None,
    }
}

impl View for AtlasTextureList {
    type V = ListModel;

    open spec fn view(&self) -> ListModel {
        ListModel {
            pages: self.textures@.map_values(|slot: Option<AtlasPage>| slot_model(slot)),
            free: self.free_list@,
        }
    }
}

/// A length held between the smallest and the largest of a page.
pub open spec fn page_length(length: i32) -> i32 {
    if length > MAX_ATLAS_SIZE {
        MAX_ATLAS_SIZE
    } else if length < DEFAULT_ATLAS_SIZE {
        DEFAULT_ATLAS_SIZE
    } else {
        length
    }
}

/// How large a page is that is made for a tile of this size.
pub open spec fn spec_page_size(min_size: Size<DevicePixels>) -> Size<DevicePixels> {
    Size {
        width: DevicePixels(page_length(min_size.width.0)),
        height: DevicePixels(page_length(min_size.height.0)),
    }
}

/// Whether a tile of this size can lie on any page.
pub open spec fn fits_atlas(size: Size<DevicePixels>) -> bool {
    fits(size.width.0, size.height.0, (MAX_ATLAS_SIZE, MAX_ATLAS_SIZE))
}

fn clamp_length(length: i32) -> (result: i32)
    ensures
        result == page_length(length),
{
    if length > MAX_ATLAS_SIZE {
        MAX_ATLAS_SIZE
    } else if length < DEFAULT_ATLAS_SIZE {
        DEFAULT_ATLAS_SIZE
    } else {
        length
    }
}

/// How large a page is that is made for a tile of this size.
pub fn page_size(min_size: Size<DevicePixels>) -> (result: Size<DevicePixels>)
    ensures
        result == spec_page_size(min_size),
{
    Size {
        width: DevicePixels(clamp_length(min_size.width.0)),
        height: DevicePixels(clamp_length(min_size.height.0)),
    }
}

impl ListModel {
    /// No pages.
    pub open spec fn spec_empty() -> Self {
        ListModel { pages: Seq::empty(), free: Seq::empty() }
    }

    /// Whether there is a page at `index`.
    pub open spec fn has_page(self, index: int) -> bool {
        0 <= index < self.pages.len() && self.pages[index] is Some
    }

    /// The page at `index`.
    pub open spec fn page(self, index: int) -> PageModel {
        self.pages[index]->Some_0
    }

    /// Whether the page at `index` holds the tile `id`.
    pub open spec fn has_tile(self, index: int, id: u32) -> bool {
        self.has_page(index) && self.page(index).tiles.contains_key(id)
    }

    /// What is known of the tile `id` on the page at `index`.
    pub open spec fn tile(self, index: int, id: u32) -> TileRecordModel {
        self.page(index).tiles[id]
    }

    /// With another page at `index`.
    pub open spec fn with_page(self, index: int, page: Option<PageModel>) -> Self {
        ListModel { pages: self.pages.update(index, page), ..self }
    }

    /// With a tile noted as drawn by `frame`, if it is there.
    pub open spec fn touched(self, index: int, id: u32, frame: u64) -> Self {
        if self.has_page(index) {
            self.with_page(index, Some(self.page(index).touched(id, frame)))
        } else {
            self
        }
    }

    /// With a tile taken away; a page that holds nothing then is dropped.
    pub open spec fn released(self, index: int, id: u32) -> Self {
        if self.has_page(index) {
            let page = self.page(index);
            let tiles = page.tiles.remove(id);
            if tiles == Map::<u32, TileRecordModel>::empty() {
                ListModel {
                    pages: self.pages.update(index, None),
                    free: self.free.push(index as usize),
                }
            } else {
                self.with_page(index, Some(PageModel { tiles, ..page }))
            }
        } else {
            self
        }
    }

    /// The index of the next page: that of the page dropped last, or one behind
    /// all pages.
    pub open spec fn next_index(self) -> int {
        if self.free.len() > 0 {
            self.free.last() as int
        } else {
            self.pages.len() as int
        }
    }

    /// With a page for a tile of this size.
    pub open spec fn with_new_page(self, min_size: Size<DevicePixels>) -> Self {
        let page = Some(PageModel { size: spec_page_size(min_size), tiles: Map::empty() });
        if self.free.len() > 0 {
            ListModel {
                pages: self.pages.update(self.free.last() as int, page),
                free: self.free.drop_last(),
            }
        } else {
            ListModel { pages: self.pages.push(page), ..self }
        }
    }

    /// With a tile put on a page.
    pub open spec fn with_tile(self, index: int, id: u32, record: TileRecordModel) -> Self {
        let page = self.page(index);
        self.with_page(index, Some(PageModel { tiles: page.tiles.insert(id, record), ..page }))
    }

    /// Whether the indices to be used again are those of dropped pages, each once.
    pub open spec fn free_in_order(self) -> bool {
        &&& forall|i: int|
            0 <= i < self.free.len() ==> (#[trigger] self.free[i]) < self.pages.len()
                && self.pages[self.free[i] as int] is None
        &&& forall|i: int, j: int|
            0 <= i < j < self.free.len() ==> (#[trigger] self.free[i]) != (
            #[trigger] self.free[j])
    }
}

impl AtlasTextureList {
    /// Whether every page knows its place, and its tiles are packed.
    pub open spec fn wf(self, kind: AtlasTextureKind) -> bool {
        &&& self@.free_in_order()
        &&& self.textures@.len() <= u32::MAX
        &&& forall|i: int|
            0 <= i < self.textures@.len() ==> match #[trigger] self.textures@[i] {
                Some(page) => {
                    &&& page.wf()
                    &&& page.id == AtlasTextureId { index: i as u32, kind }
                },
                None => true,
            }
    }

    /// Whether every page but the one at `index` is packed as it was in `before`,
    /// and that one too but for the tile `id`.
    pub open spec fn packing_kept(self, before: Self, index: int, id: u32) -> bool {
        forall|i: int, other: u32|
            #![trigger packed(before.textures@[i]->Some_0.allocator).contains_key(other)]
            0 <= i < before.textures@.len() && before.textures@[i] is Some && packed(
                before.textures@[i]->Some_0.allocator,
            ).contains_key(other) && !(i == index && other == id) && i < self.textures@.len()
                && self.textures@[i] is Some ==> {
                &&& packed(self.textures@[i]->Some_0.allocator).contains_key(other)
                &&& packed(self.textures@[i]->Some_0.allocator)[other] == packed(
                    before.textures@[i]->Some_0.allocator,
                )[other]
            }
    }

    /// No pages.
    pub fn new(kind: AtlasTextureKind) -> (result: Self)
        ensures
            result.wf(kind),
            result@ == ListModel::spec_empty(),
    {
        let result = AtlasTextureList { textures: Vec::new(), free_list: Vec::new() };
        proof {
            assert(result@ =~= ListModel::spec_empty());
        }
        result
    }

    /// Notes that `frame` drew a tile, if it is there.
    pub fn touch(&mut self, kind: AtlasTextureKind, index: usize, id: u32, frame: u64)
        requires
            old(self).wf(kind),
        ensures
            final(self).wf(kind),
            final(self)@ == old(self)@.touched(index as int, id, frame),
            forall|i: int|
                0 <= i < old(self).textures@.len() && (#[trigger] old(self).textures@[i]) is Some
                    ==> final(self).textures@[i] is Some
                    && final(self).textures@[i]->Some_0.allocator == old(
                    self,
                ).textures@[i]->Some_0.allocator,
    {
        if index < self.textures.len() {
            let ghost before = *self;
            if let Some(page) = self.textures[index].take() {
                let mut page = page;
                proof {
                    assert(before.textures@[index as int] == Some(page));
                }
                page.touch(id, frame);
                self.textures[index] = Some(page);
                proof {
                    assert(self@ =~= before@.touched(index as int, id, frame));
                    assert forall|i: int| 0 <= i < self.textures@.len() implies match (
                    #[trigger] self.textures@[i]) {
                        Some(page) => {
                            &&& page.wf()
                            &&& page.id == AtlasTextureId { index: i as u32, kind }
                        },
                        None => true,
                    } by {
                        assert(before.textures@[i] is Some ==> before.textures@[i]->Some_0.wf());
                    }
                    assert forall|i: int| 0 <= i < self@.free.len() implies (
                    #[trigger] self@.free[i]) < self@.pages.len()
                        && self@.pages[self@.free[i] as int] is None by {
                        assert(before@.pages[before@.free[i] as int] is None);
                    }
                }
            } else {
                proof {
                    assert(self.textures@ =~= before.textures@);
                }
            }
        }
    }

    /// Returns a tile's space to its page and drops the page once it holds
    /// nothing.
    pub fn release(&mut self, kind: AtlasTextureKind, index: usize, id: u32)
        requires
            old(self).wf(kind),
        ensures
            final(self).wf(kind),
            final(self)@ == old(self)@.released(index as int, id),
            final(self).packing_kept(*old(self), index as int, id),
    {
        if index < self.textures.len() {
            let ghost before = *self;
            if let Some(page) = self.textures[index].take() {
                let mut page = page;
                proof {
                    assert(before.textures@[index as int] == Some(page));
                    assert(before@.pages[index as int] == Some(page@));
                }
                page.release(id);
                if page.tiles.is_empty() {
                    self.free_list.push(index);
                    proof {
                        assert(self@ =~= before@.released(index as int, id));
                    }
                } else {
                    self.textures[index] = Some(page);
                    proof {
                        assert(self@ =~= before@.released(index as int, id));
                    }
                }
                proof {
                    assert forall|i: int| 0 <= i < self.textures@.len() implies match (
                    #[trigger] self.textures@[i]) {
                        Some(page) => {
                            &&& page.wf()
                            &&& page.id == AtlasTextureId { index: i as u32, kind }
                        },
                        None => true,
                    } by {
                        assert(before.textures@[i] is Some ==> before.textures@[i]->Some_0.wf());
                    }
                    assert forall|i: int| 0 <= i < self@.free.len() implies (
                    #[trigger] self@.free[i]) < self@.pages.len()
                        && self@.pages[self@.free[i] as int] is None by {
                        if i < before@.free.len() {
                            assert(before@.pages[before@.free[i] as int] is None);
                        }
                    }
                    assert forall|i: int, j: int| 0 <= i < j < self@.free.len() implies (
                    #[trigger] self@.free[i]) != (#[trigger] self@.free[j]) by {
                        assert(before@.pages[before@.free[i] as int] is None);
                    }
                }
            } else {
                proof {
                    assert(self.textures@ =~= before.textures@);
                }
            }
        }
    }

    /// Makes room for a tile on one of the pages, the newest first.
    pub fn allocate(
        &mut self,
        kind: AtlasTextureKind,
        size: Size<DevicePixels>,
        key: &AtlasKey,
        frame: u64,
    ) -> (result: Option<AtlasTile>)
        requires
            old(self).wf(kind),
        ensures
            final(self).wf(kind),
            match result {
                None => {
                    &&& final(self)@ == old(self)@
                    &&& final(self).packing_kept(*old(self), -1, 0)
                },
                Some(tile) => placed(*old(self), *final(self), kind, size, key@, frame, tile),
            },
            result is Some <==> old(self).has_room(size),
            match result {
                Some(tile) => old(self).newest_with_room(tile.texture_id.index as int, size),
                None => true,
            },
            !fits_atlas(size) ==> result is None,
    {
        let ghost before = *self;
        let mut i: usize = self.textures.len();
        while i > 0
            invariant
                before == *old(self),
                i <= self.textures@.len(),
                self.textures@.len() == before.textures@.len(),
                self.wf(kind),
                self@ == before@,
                self.packing_kept(before, -1, 0),
                forall|j: int| 0 <= j < i ==> self.textures@[j] == before.textures@[j],
                forall|j: int| i <= j ==> !(#[trigger] before.room_at(j, size)),
            decreases i,
        {
            i = i - 1;
            let ghost current = *self;
            if let Some(page) = self.textures[i].take() {
                let mut page = page;
                let ghost page_0 = page;
                assert(before.textures@[i as int] == Some(page));
                proof {
                    assert(current.textures@[i as int] == Some(page));
                    assert(current@.pages[i as int] == Some(page@));
                }
                let allocated = page.allocate(size, key, frame);
                self.textures[i] = Some(page);
                proof {
                    assert(self.textures@ =~= current.textures@.update(i as int, Some(page)));
                    lemma_slot_replaced(current, *self, kind, i as int, page_0, page);
                    assert forall|k: int, other: u32|
                        #![trigger packed(before.textures@[k]->Some_0.allocator).contains_key(other)]
                        0 <= k < before.textures@.len() && before.textures@[k] is Some && packed(
                            before.textures@[k]->Some_0.allocator,
                        ).contains_key(other) && k < self.textures@.len() && self.textures@[k]
                            is Some implies {
                        &&& packed(self.textures@[k]->Some_0.allocator).contains_key(other)
                        &&& packed(self.textures@[k]->Some_0.allocator)[other] == packed(
                            before.textures@[k]->Some_0.allocator,
                        )[other]
                    } by {
                        assert(before@.pages[k] == current@.pages[k]);
                        assert(packed(current.textures@[k]->Some_0.allocator).contains_key(other));
                    }
                }
                if let Some(tile) = allocated {
                    proof {
                        let index = i as int;
                        let record = TileRecordModel { key: key@, last_used_frame: frame };
                        assert(self@ =~= before@.with_tile(index, tile.tile_id.0, record));
                        assert(before.room_at(index, size));
                    }
                    return Some(tile);
                }
                proof {
                    assert(self@ =~= before@);
                }
            } else {
                proof {
                    assert(self.textures@ =~= current.textures@);
                }
            }
        }
        None
    }

    /// The index of the next page.
    pub fn next_index(&self) -> (result: u32)
        requires
            self@.free_in_order(),
            self.textures@.len() < u32::MAX,
        ensures
            result == self@.next_index(),
    {
        let free: usize = self.free_list.len();
        if free > 0 {
            proof {
                assert(self@.free[free - 1] < self@.pages.len());
            }
            self.free_list[free - 1] as u32
        } else {
            self.textures.len() as u32
        }
    }

    /// Adds a page for a tile of this size, in the place of a dropped page if
    /// there is one, and puts the tile there if it fits any page.
    pub fn allocate_on_new_page(
        &mut self,
        kind: AtlasTextureKind,
        size: Size<DevicePixels>,
        key: &AtlasKey,
        frame: u64,
    ) -> (result: Option<AtlasTile>)
        requires
            old(self).wf(kind),
            old(self).textures@.len() < u32::MAX,
        ensures
            final(self).wf(kind),
            result is Some <==> fits_atlas(size),
            ({
                let added = old(self)@.with_new_page(size);
                let index = old(self)@.next_index();
                match result {
                    None => {
                        &&& final(self)@ == added
                        &&& final(self).packing_kept(*old(self), -1, 0)
                    },
                    Some(tile) => {
                        &&& tile.texture_id == AtlasTextureId { index: index as u32, kind }
                        &&& tile.padding == 0
                        &&& tile.bounds.size == size
                        &&& final(self)@ == added.with_tile(
                            index,
                            tile.tile_id.0,
                            TileRecordModel { key: key@, last_used_frame: frame },
                        )
                        &&& final(self).textures@[index] is Some
                        &&& lies_where_packed(
                            final(self).textures@[index]->Some_0.allocator,
                            tile,
                        )
                        &&& final(self).packing_kept(*old(self), -1, 0)
                    },
                }
            }),
    {
        let ghost before = *self;
        let index: usize = match self.free_list.pop() {
            Some(index) => index,
            None => self.textures.len(),
        };
        let ghost place = before@.next_index();
        proof {
            assert(index == place);
            if before@.free.len() > 0 {
                assert(before@.pages[before@.free.last() as int] is None);
                assert(before.textures@[index as int] is None);
            }
        }
        let mut page = AtlasPage::new(
            AtlasTextureId { index: index as u32, kind },
            page_size(size),
        );
        let result = page.allocate(size, key, frame);
        let ghost page_1 = page;
        if index < self.textures.len() {
            self.textures[index] = Some(page);
        } else {
            self.textures.push(Some(page));
        }
        proof {
            let added = before@.with_new_page(size);
            match result {
                None => {
                    assert(self@ =~= added);
                },
                Some(tile) => {
                    assert(self@ =~= added.with_tile(
                        place,
                        tile.tile_id.0,
                        TileRecordModel { key: key@, last_used_frame: frame },
                    ));
                },
            }
            assert forall|i: int| 0 <= i < self.textures@.len() implies match (
            #[trigger] self.textures@[i]) {
                Some(page) => {
                    &&& page.wf()
                    &&& page.id == AtlasTextureId { index: i as u32, kind }
                },
                None => true,
            } by {
                if i != place {
                    assert(self.textures@[i] == before.textures@[i]);
                }
            }
            assert forall|i: int| 0 <= i < self@.free.len() implies (#[trigger] self@.free[i])
                < self@.pages.len() && self@.pages[self@.free[i] as int] is None by {
                assert(self@.free[i] == before@.free[i]);
                assert(before@.pages[before@.free[i] as int] is None);
                assert(before@.free[i] != before@.free.last());
            }
            assert forall|i: int, j: int| 0 <= i < j < self@.free.len() implies (
            #[trigger] self@.free[i]) != (#[trigger] self@.free[j]) by {
                assert(before@.free[i] != before@.free[j]);
            }
        }
        result
    }
}

impl AtlasTextureList {
    /// Whether there is a page at `index` with room for a tile of this size.
    pub open spec fn room_at(self, index: int, size: Size<DevicePixels>) -> bool {
        &&& 0 <= index < self.textures@.len()
        &&& self.textures@[index] is Some
        &&& self.textures@[index]->Some_0.has_room(size)
    }

    /// Whether some page has room for a tile of this size.
    pub open spec fn has_room(self, size: Size<DevicePixels>) -> bool {
        exists|index: int| self.room_at(index, size)
    }

    /// Whether the page at `index` has room for a tile of this size, and no page
    /// behind it has.
    pub open spec fn newest_with_room(self, index: int, size: Size<DevicePixels>) -> bool {
        &&& self.room_at(index, size)
        &&& forall|other: int| other > index ==> !(#[trigger] self.room_at(other, size))
    }
}

/// Whether a tile was put on one of the pages of `before`.
pub open spec fn placed(
    before: AtlasTextureList,
    after: AtlasTextureList,
    kind: AtlasTextureKind,
    size: Size<DevicePixels>,
    key: AtlasKeyModel,
    frame: u64,
    tile: AtlasTile,
) -> bool {
    let index = tile.texture_id.index as int;
    &&& tile.texture_id.kind == kind
    &&& tile.padding == 0
    &&& tile.bounds.size == size
    &&& before@.has_page(index)
    &&& !before@.has_tile(index, tile.tile_id.0)
    &&& after@ == before@.with_tile(
        index,
        tile.tile_id.0,
        TileRecordModel { key, last_used_frame: frame },
    )
    &&& after.textures@[index] is Some
    &&& lies_where_packed(after.textures@[index]->Some_0.allocator, tile)
    &&& after.packing_kept(before, -1, 0)
}

proof fn lemma_slot_replaced(
    before: AtlasTextureList,
    after: AtlasTextureList,
    kind: AtlasTextureKind,
    index: int,
    old_page: AtlasPage,
    page: AtlasPage,
)
    requires
        before.wf(kind),
        0 <= index < before.textures@.len(),
        before.textures@[index] == Some(old_page),
        after.textures@ == before.textures@.update(index, Some(page)),
        after.free_list@ == before.free_list@,
        page.wf(),
        page.id == old_page.id,
    ensures
        after.wf(kind),
        after@.pages == before@.pages.update(index, Some(page@)),
        after@.free == before@.free,
{
    assert(after@.pages =~= before@.pages.update(index, Some(page@)));
    assert forall|i: int| 0 <= i < after.textures@.len() implies match (
    #[trigger] after.textures@[i]) {
        Some(page) => {
            &&& page.wf()
            &&& page.id == AtlasTextureId { index: i as u32, kind }
        },
        None => true,
    } by {
        assert(before.textures@[i] is Some ==> before.textures@[i]->Some_0.wf());
    }
    assert forall|i: int| 0 <= i < after@.free.len() implies (#[trigger] after@.free[i])
        < after@.pages.len() && after@.pages[after@.free[i] as int] is None by {
        assert(before@.pages[before@.free[i] as int] is None);
    }
}

} // verus!
