//! A page of an atlas: a texture that tiles are packed into.
use etagere::BucketedAtlasAllocator;
use vstd::prelude::*;

use crate::atlas_key::AtlasKey;
use crate::atlas_tile::{AtlasTextureId, AtlasTile, TileId};
use crate::geometry::{Bounds, DevicePixels, Point, Size};
use crate::tile_table::{TileRecordModel, TileTable};

verus! {

/// The packer of `etagere` that works well for many small tiles of like sizes.
#[verifier::external_type_specification]
#[verifier::external_body]
pub struct ExBucketedAtlasAllocator(BucketedAtlasAllocator);

/// The rectangles that a packer has handed out and not taken back, by their ids:
/// left, top, width and height.
pub uninterp spec fn packed(allocator: BucketedAtlasAllocator) -> Map<u32, (i32, i32, i32, i32)>;

/// The width and the height that a packer was made with.
pub uninterp spec fn packing_limits(allocator: BucketedAtlasAllocator) -> (i32, i32);

/// How many rectangles a packer has handed out so far, those taken back included.
pub uninterp spec fn served(allocator: BucketedAtlasAllocator) -> nat;

/// Whether a packer finds room for a rectangle of this width and height.
pub uninterp spec fn finds_room(allocator: BucketedAtlasAllocator, width: i32, height: i32) -> bool;

/// The largest width and height of a page. Anything bigger crashes when the
/// texture is validated against the device.
pub const MAX_ATLAS_SIZE: i32 = 16384;

/// How many rectangles a page has its packer hand out at most. The packer counts those of
/// each of its buckets in 16 bits, and begins anew only when the bucket's shelf goes, so
/// that the count cannot overflow before as many were handed out in all.
pub const MAX_SERVED: u32 = 65535;

/// The smallest width and height of a page.
pub const DEFAULT_ATLAS_SIZE: i32 = 1024;

/// Whether two rectangles share nothing.
pub open spec fn apart(a: (i32, i32, i32, i32), b: (i32, i32, i32, i32)) -> bool {
    ||| a.0 + a.2 <= b.0
    ||| b.0 + b.2 <= a.0
    ||| a.1 + a.3 <= b.1
    ||| b.1 + b.3 <= a.1
}

/// `BucketedAtlasAllocator::new`: a packer of this width and height that has
/// handed out nothing, and finds room for whatever is not empty and within its
/// limits. Larger sizes are left out: the area that the packer counts
/// would not fit its counter.
#[verifier::external_body]
fn new_allocator(width: i32, height: i32) -> (allocator: BucketedAtlasAllocator)
    requires
        1 <= width <= MAX_ATLAS_SIZE,
        1 <= height <= MAX_ATLAS_SIZE,
    ensures
        forall|id: u32| !(#[trigger] packed(allocator).contains_key(id)),
        packing_limits(allocator) == (width, height),
        served(allocator) == 0,
        forall|w: i32, h: i32|
            fits(w, h, (width, height)) ==> #[trigger] finds_room(allocator, w, h),
{
    BucketedAtlasAllocator::new(etagere::Size::new(width, height))
}

/// `BucketedAtlasAllocator::allocate`: hands out a rectangle of the width that is
/// asked for and at least that height, within the packer's limits, apart from all
/// those that are handed out, under an id that none of them has. Whether it finds
/// room depends on the packer and the size alone: there is none for a size that is
/// empty or exceeds the limits. Where it finds none, nothing changes. When there is
/// room in a packer that has handed something out, and which rectangle it picks, is
/// left open. A packer that has served [`MAX_SERVED`] rectangles is left out: the
/// number of the next one could overflow.
#[verifier::external_body]
fn allocate_rectangle(allocator: &mut BucketedAtlasAllocator, width: i32, height: i32) -> (result:
    Option<(u32, i32, i32)>)
    requires
        1 <= packing_limits(*old(allocator)).0 <= MAX_ATLAS_SIZE,
        1 <= packing_limits(*old(allocator)).1 <= MAX_ATLAS_SIZE,
        served(*old(allocator)) < MAX_SERVED,
    ensures
        packing_limits(*final(allocator)) == packing_limits(*old(allocator)),
        result is Some <==> finds_room(*old(allocator), width, height),
        !fits(width, height, packing_limits(*old(allocator))) ==> result is None,
        served(*final(allocator)) == served(*old(allocator)) + (if result is Some {
            1nat
        } else {
            0
        }),
        match result {
            None => packed(*final(allocator)) == packed(*old(allocator)),
            Some((id, x, y)) => handed_out(*old(allocator), id, x, y, width, height, *final(
                allocator)),
        },
{
    let allocation = allocator.allocate(etagere::Size::new(width, height))?;
    let corner = allocation.rectangle.min;
    Some((allocation.id.serialize(), corner.x, corner.y))
}

/// `BucketedAtlasAllocator::deallocate`: takes back the rectangle of an id that is
/// handed out, leaves the others as they are, and does not count as serving.
#[verifier::external_body]
fn deallocate_rectangle(allocator: &mut BucketedAtlasAllocator, id: u32)
    requires
        packed(*old(allocator)).contains_key(id),
    ensures
        packed(*final(allocator)) == packed(*old(allocator)).remove(id),
        packing_limits(*final(allocator)) == packing_limits(*old(allocator)),
        served(*final(allocator)) == served(*old(allocator)),
{
    allocator.deallocate(etagere::AllocId::deserialize(id))
}

/// Whether a size is not empty and within limits.
pub open spec fn fits(width: i32, height: i32, limits: (i32, i32)) -> bool {
    0 < width <= limits.0 && 0 < height <= limits.1
}

/// Whether a packer has handed out, under a new id, a rectangle at `x` and `y` of
/// this width and at least this height, within its limits and apart from all those
/// that were handed out before.
pub open spec fn handed_out(
    before: BucketedAtlasAllocator,
    id: u32,
    x: i32,
    y: i32,
    width: i32,
    height: i32,
    after: BucketedAtlasAllocator,
) -> bool {
    let rectangle = packed(after)[id];
    &&& !packed(before).contains_key(id)
    &&& packed(after) == packed(before).insert(id, rectangle)
    &&& rectangle.0 == x
    &&& rectangle.1 == y
    &&& rectangle.2 == width
    &&& rectangle.3 >= height
    &&& 0 <= x
    &&& x + width <= packing_limits(before).0
    &&& 0 <= y
    &&& y + rectangle.3 <= packing_limits(before).1
    &&& forall|other: u32| #[trigger]
        packed(before).contains_key(other) ==> apart(rectangle, packed(before)[other])
}

/// A page of an atlas.
pub struct AtlasPage {
    /// The page's texture.
    pub id: AtlasTextureId,
    /// How large the texture is.
    pub size: Size<DevicePixels>,
    /// What packs the tiles.
    pub allocator: BucketedAtlasAllocator,
    /// How many tiles it has packed so far, those taken away included.
    pub tiles_served: u32,
    /// Every live tile on this page. Empty means the page can be dropped.
    pub tiles: TileTable,
}

/// What a page holds.
#[verifier::ext_equal]
pub struct PageModel {
    /// How large the texture is.
    pub size: Size<DevicePixels>,
    /// The tiles on it.
    pub tiles: Map<u32, TileRecordModel>,
}

impl View for AtlasPage {
    type V = PageModel;

    open spec fn view(&self) -> PageModel {
        PageModel { size: self.size, tiles: self.tiles@ }
    }
}

/// Whether a tile lies where the packer has put it.
pub open spec fn lies_where_packed(allocator: BucketedAtlasAllocator, tile: AtlasTile) -> bool {
    let rectangle = packed(allocator)[tile.tile_id.0];
    &&& packed(allocator).contains_key(tile.tile_id.0)
    &&& rectangle.0 == tile.bounds.origin.x.0
    &&& rectangle.1 == tile.bounds.origin.y.0
    &&& rectangle.2 == tile.bounds.size.width.0
    &&& rectangle.3 >= tile.bounds.size.height.0
}

impl AtlasPage {
    /// Whether the tiles are those that the packer has handed out space for, and
    /// they lie on the page, apart from each other.
    pub open spec fn wf(self) -> bool {
        &&& self.tiles.wf()
        &&& self.tiles_served == served(self.allocator)
        &&& self.tiles_served <= MAX_SERVED
        &&& packing_limits(self.allocator) == (self.size.width.0, self.size.height.0)
        &&& 1 <= self.size.width.0 <= MAX_ATLAS_SIZE
        &&& 1 <= self.size.height.0 <= MAX_ATLAS_SIZE
        &&& forall|id: u32| #[trigger]
            self.tiles@.contains_key(id) <==> packed(self.allocator).contains_key(id)
        &&& forall|id: u32| #[trigger]
            packed(self.allocator).contains_key(id) ==> {
                let rectangle = packed(self.allocator)[id];
                &&& 0 <= rectangle.0 && rectangle.0 + rectangle.2 <= self.size.width.0
                &&& 0 <= rectangle.1 && rectangle.1 + rectangle.3 <= self.size.height.0
            }
        &&& forall|a: u32, b: u32|
            a != b && #[trigger] packed(self.allocator).contains_key(a) && #[trigger] packed(
                self.allocator,
            ).contains_key(b) ==> apart(packed(self.allocator)[a], packed(self.allocator)[b])
    }

    /// Whether there is room for a tile of this size: the packer may serve another
    /// one, and finds room for it.
    pub open spec fn has_room(self, size: Size<DevicePixels>) -> bool {
        self.tiles_served < MAX_SERVED && finds_room(self.allocator, size.width.0, size.height.0)
    }

    /// An empty page.
    pub fn new(id: AtlasTextureId, size: Size<DevicePixels>) -> (result: Self)
        requires
            1 <= size.width.0 <= MAX_ATLAS_SIZE,
            1 <= size.height.0 <= MAX_ATLAS_SIZE,
        ensures
            result.wf(),
            result.id == id,
            result@ == (PageModel { size, tiles: Map::empty() }),
            forall|wanted: Size<DevicePixels>|
                fits(wanted.width.0, wanted.height.0, (size.width.0, size.height.0))
                    ==> #[trigger] result.has_room(wanted),
    {
        AtlasPage {
            id,
            size,
            allocator: new_allocator(size.width.0, size.height.0),
            tiles_served: 0,
            tiles: TileTable::new(),
        }
    }

    /// Makes room for a tile, if there is any left.
    pub fn allocate(&mut self, size: Size<DevicePixels>, key: &AtlasKey, frame: u64) -> (result:
        Option<AtlasTile>)
        requires
            old(self).wf(),
        ensures
            final(self).wf(),
            final(self).id == old(self).id,
            result is Some <==> old(self).has_room(size),
            !fits(size.width.0, size.height.0, (old(self).size.width.0, old(self).size.height.0))
                ==> result is None,
            match result {
                None => {
                    &&& final(self)@ == old(self)@
                    &&& packed(final(self).allocator) == packed(old(self).allocator)
                },
                Some(tile) => {
                    &&& tile.texture_id == old(self).id
                    &&& tile.padding == 0
                    &&& tile.bounds.size == size
                    &&& !old(self)@.tiles.contains_key(tile.tile_id.0)
                    &&& final(self)@ == (PageModel {
                        tiles: old(self)@.tiles.insert(
                            tile.tile_id.0,
                            TileRecordModel { key: key@, last_used_frame: frame },
                        ),
                        ..old(self)@
                    })
                    &&& lies_where_packed(final(self).allocator, tile)
                    &&& forall|id: u32| #[trigger]
                        packed(old(self).allocator).contains_key(id) ==> packed(
                            final(self).allocator,
                        ).contains_key(id) && packed(final(self).allocator)[id] == packed(
                            old(self).allocator,
                        )[id]
                },
            },
    {
        let ghost before = *self;
        if self.tiles_served >= MAX_SERVED {
            return None;
        }
        match allocate_rectangle(&mut self.allocator, size.width.0, size.height.0) {
            None => {
                proof {
                    assert forall|id: u32| #[trigger]
                        self.tiles@.contains_key(id) <==> packed(self.allocator).contains_key(
                            id,
                        ) by {
                        assert(before.tiles@.contains_key(id) <==> packed(
                            before.allocator,
                        ).contains_key(id));
                    }
                }
                None
            },
            Some((id, x, y)) => {
                proof {
                    assert(before.tiles@.contains_key(id) <==> packed(
                        before.allocator,
                    ).contains_key(id));
                }
                self.tiles_served = self.tiles_served + 1;
                self.tiles.insert(id, key.duplicate(), frame);
                let tile = AtlasTile {
                    texture_id: self.id,
                    tile_id: TileId(id),
                    padding: 0,
                    bounds: Bounds {
                        origin: Point { x: DevicePixels(x), y: DevicePixels(y) },
                        size,
                    },
                };
                proof {
                    let now = packed(self.allocator);
                    let then = packed(before.allocator);
                    assert forall|other: u32| #[trigger]
                        self.tiles@.contains_key(other) <==> now.contains_key(other) by {
                        assert(before.tiles@.contains_key(other) <==> then.contains_key(other));
                    }
                    assert forall|other: u32| #[trigger] now.contains_key(other) implies {
                        let rectangle = now[other];
                        &&& 0 <= rectangle.0 && rectangle.0 + rectangle.2 <= self.size.width.0
                        &&& 0 <= rectangle.1 && rectangle.1 + rectangle.3 <= self.size.height.0
                    } by {
                        if other != id {
                            assert(then.contains_key(other));
                        }
                    }
                    assert forall|a: u32, b: u32|
                        a != b && #[trigger] now.contains_key(a) && #[trigger] now.contains_key(
                            b,
                        ) implies apart(now[a], now[b]) by {
                        if a != id {
                            assert(then.contains_key(a));
                        }
                        if b != id {
                            assert(then.contains_key(b));
                        }
                    }
                }
                Some(tile)
            },
        }
    }

    /// Takes a tile away, if it is on the page, and gives its space back.
    pub fn release(&mut self, id: u32)
        requires
            old(self).wf(),
        ensures
            final(self).wf(),
            final(self).id == old(self).id,
            final(self)@ == (PageModel { tiles: old(self)@.tiles.remove(id), ..old(self)@ }),
            forall|other: u32|
                other != id && #[trigger] packed(old(self).allocator).contains_key(other)
                    ==> packed(final(self).allocator).contains_key(other) && packed(
                    final(self).allocator,
                )[other] == packed(old(self).allocator)[other],
    {
        let ghost before = *self;
        if self.tiles.remove(id) {
            proof {
                assert(before.tiles@.contains_key(id));
            }
            deallocate_rectangle(&mut self.allocator, id);
            proof {
                let now = packed(self.allocator);
                let then = packed(before.allocator);
                assert forall|other: u32| #[trigger]
                    self.tiles@.contains_key(other) <==> now.contains_key(other) by {
                    assert(before.tiles@.contains_key(other) <==> then.contains_key(other));
                }
                assert forall|other: u32| #[trigger] now.contains_key(other) implies {
                    let rectangle = now[other];
                    &&& 0 <= rectangle.0 && rectangle.0 + rectangle.2 <= self.size.width.0
                    &&& 0 <= rectangle.1 && rectangle.1 + rectangle.3 <= self.size.height.0
                } by {
                    assert(then.contains_key(other));
                }
                assert forall|a: u32, b: u32|
                    a != b && #[trigger] now.contains_key(a) && #[trigger] now.contains_key(
                        b,
                    ) implies apart(now[a], now[b]) by {
                    assert(then.contains_key(a) && then.contains_key(b));
                }
            }
        } else {
            proof {
                assert(self.tiles@ =~= before.tiles@);
            }
        }
    }

    /// Notes that `frame` drew a tile, if it is on the page.
    pub fn touch(&mut self, id: u32, frame: u64)
        requires
            old(self).wf(),
        ensures
            final(self).wf(),
            final(self).id == old(self).id,
            final(self).allocator == old(self).allocator,
            final(self)@ == old(self)@.touched(id, frame),
    {
        let ghost before = *self;
        self.tiles.touch(id, frame);
        proof {
            assert forall|other: u32| #[trigger]
                self.tiles@.contains_key(other) <==> packed(self.allocator).contains_key(
                    other,
                ) by {
                assert(before.tiles@.contains_key(other) <==> packed(
                    before.allocator,
                ).contains_key(other));
            }
        }
    }
}

impl PageModel {
    /// The page with a tile noted as drawn by `frame`, if it is there.
    pub open spec fn touched(self, id: u32, frame: u64) -> Self {
        if self.tiles.contains_key(id) {
            PageModel {
                tiles: self.tiles.insert(
                    id,
                    TileRecordModel { last_used_frame: frame, ..self.tiles[id] },
                ),
                ..self
            }
        } else {
            self
        }
    }
}

} // verus!
