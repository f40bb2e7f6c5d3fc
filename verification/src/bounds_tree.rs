//! Draw orders for rectangles: what overlaps is drawn in the order of insertion.
use vstd::prelude::*;

use crate::capacity::CapacityShrink;
use crate::geometry::Bounds;
use crate::scalar::Scalar;

verus! {

/// A rectangle and the order that it was given.
#[derive(Clone, Copy, Debug)]
pub struct OrderedBounds<F> {
    /// The rectangle.
    pub bounds: Bounds<F>,
    /// Its order.
    pub order: u32,
}

/// The rectangles of a frame with their orders.
pub struct BoundsTree<F> {
    /// The rectangles, oldest first.
    pub entries: Vec<OrderedBounds<F>>,
    /// The greatest order that was given.
    pub max_order: u32,
    /// The capacity tracker of the rectangles.
    pub shrink: CapacityShrink,
}

/// The greatest order among the entries that overlap `bounds`, `0` if none does.
pub open spec fn topmost_below<F: Scalar>(
    entries: Seq<OrderedBounds<F>>,
    bounds: Bounds<F>,
) -> u32
    decreases entries.len(),
{
    if entries.len() == 0 {
        0
    } else {
        let rest = topmost_below(entries.drop_last(), bounds);
        let last = entries.last();
        if bounds.spec_intersects(last.bounds) && last.order > rest {
            last.order
        } else {
            rest
        }
    }
}

/// The order that `bounds` gets on top of `entries`: one above everything that
/// it overlaps.
pub open spec fn order_on_top<F: Scalar>(
    entries: Seq<OrderedBounds<F>>,
    bounds: Bounds<F>,
) -> u32 {
    (topmost_below(entries, bounds) + 1) as u32
}

/// `entries` with `bounds` put on top.
pub open spec fn with_bounds<F: Scalar>(
    entries: Seq<OrderedBounds<F>>,
    bounds: Bounds<F>,
) -> Seq<OrderedBounds<F>> {
    entries.push(OrderedBounds { bounds, order: order_on_top(entries, bounds) })
}

/// Whether every order is at least one and at most the number of entries.
pub open spec fn orders_in_range<F>(entries: Seq<OrderedBounds<F>>) -> bool {
    forall|i: int| 0 <= i < entries.len() ==> 1 <= (#[trigger] entries[i]).order <= entries.len()
}

pub proof fn lemma_topmost_bounds<F: Scalar>(
    entries: Seq<OrderedBounds<F>>,
    bounds: Bounds<F>,
    limit: int,
)
    requires
        limit >= 0,
        forall|i: int| 0 <= i < entries.len() ==> (#[trigger] entries[i]).order <= limit,
    ensures
        topmost_below(entries, bounds) <= limit,
    decreases entries.len(),
{
    if entries.len() > 0 {
        let rest = entries.drop_last();
        assert forall|i: int| 0 <= i < rest.len() implies (#[trigger] rest[i]).order <= limit by {
            assert(rest[i] == entries[i]);
        }
        lemma_topmost_bounds(rest, bounds, limit);
    }
}

proof fn lemma_topmost_at_least<F: Scalar>(
    entries: Seq<OrderedBounds<F>>,
    bounds: Bounds<F>,
    i: int,
)
    requires
        0 <= i < entries.len(),
        bounds.spec_intersects(entries[i].bounds),
    ensures
        entries[i].order <= topmost_below(entries, bounds),
    decreases entries.len(),
{
    if i < entries.len() - 1 {
        lemma_topmost_at_least(entries.drop_last(), bounds, i);
    }
}

/// A rectangle is drawn after everything that it overlaps and that came before
/// it: its order is strictly greater.
pub proof fn law_overlapping_bounds_stack<F: Scalar>(
    entries: Seq<OrderedBounds<F>>,
    bounds: Bounds<F>,
    i: int,
)
    requires
        orders_in_range(entries),
        entries.len() < u32::MAX,
        0 <= i < entries.len(),
        bounds.spec_intersects(entries[i].bounds),
    ensures
        entries[i].order < with_bounds(entries, bounds).last().order,
{
    lemma_topmost_at_least(entries, bounds, i);
    lemma_topmost_bounds(entries, bounds, entries.len() as int);
}

/// Putting a rectangle on top keeps every order between one and the number of
/// rectangles.
pub proof fn law_orders_stay_in_range<F: Scalar>(
    entries: Seq<OrderedBounds<F>>,
    bounds: Bounds<F>,
)
    requires
        orders_in_range(entries),
        entries.len() < u32::MAX,
    ensures
        orders_in_range(with_bounds(entries, bounds)),
{
    lemma_topmost_bounds(entries, bounds, entries.len() as int);
}

impl<F: Scalar> BoundsTree<F> {
    /// Whether the recorded greatest order is the greatest order, and every
    /// order is in range.
    pub open spec fn wf(self) -> bool {
        &&& self.shrink.wf()
        &&& orders_in_range(self.entries@)
        &&& self.max_order <= self.entries@.len()
        &&& forall|i: int|
            0 <= i < self.entries@.len() ==> (#[trigger] self.entries@[i]).order <= self.max_order
    }

    /// No rectangles.
    pub fn new() -> (result: Self)
        ensures
            result.wf(),
            result.entries@ == Seq::<OrderedBounds<F>>::empty(),
    {
        BoundsTree { entries: Vec::new(), max_order: 0, shrink: CapacityShrink::new() }
    }

    /// Forgets every rectangle, giving back memory that a run of frames has not
    /// needed.
    pub fn clear(&mut self)
        requires
            old(self).wf(),
        ensures
            final(self).wf(),
            final(self).entries@ == Seq::<OrderedBounds<F>>::empty(),
            old(self).shrink.recorded(
                old(self).entries,
                final(self).shrink,
                final(self).entries,
            ),
    {
        self.shrink.clear_vec(&mut self.entries);
        self.max_order = 0;
    }

    /// Shrinks to twice the fill of `rendered`, once the window has stopped
    /// drawing.
    pub fn shrink_idle(&mut self, rendered: &Self)
        requires
            old(self).wf(),
        ensures
            final(self).wf(),
            final(self).entries@ == old(self).entries@,
            old(self).shrink.idled(
                old(self).entries,
                rendered.entries@.len() as usize,
                final(self).shrink,
                final(self).entries,
            ),
    {
        self.shrink.shrink_vec_idle(&mut self.entries, rendered.entries.len());
    }

    /// Puts `bounds` on top of everything that it overlaps, and returns its
    /// order.
    pub fn insert(&mut self, bounds: Bounds<F>) -> (order: u32)
        requires
            old(self).wf(),
            old(self).entries@.len() < u32::MAX,
        ensures
            final(self).wf(),
            final(self).entries@ == with_bounds(old(self).entries@, bounds),
            order == order_on_top(old(self).entries@, bounds),
    {
        let mut topmost: u32 = 0;
        let mut i: usize = self.entries.len();
        proof {
            lemma_topmost_bounds(self.entries@, bounds, self.max_order as int);
            assert(self.entries@.take(i as int) =~= self.entries@);
        }
        while i > 0 && topmost < self.max_order
            invariant
                i <= self.entries@.len(),
                *self == *old(self),
                self.wf(),
                topmost <= self.max_order,
                topmost_below(self.entries@, bounds) <= self.max_order,
                ({
                    let below = topmost_below(self.entries@.take(i as int), bounds);
                    topmost_below(self.entries@, bounds) == if below > topmost {
                        below
                    } else {
                        topmost
                    }
                }),
            decreases i,
        {
            i = i - 1;
            proof {
                assert(self.entries@.take(i + 1).drop_last() =~= self.entries@.take(i as int));
            }
            let entry = self.entries[i];
            if entry.order > topmost && bounds.intersects(&entry.bounds) {
                topmost = entry.order;
            }
        }
        proof {
            assert(topmost_below(self.entries@, bounds) == topmost);
            law_orders_stay_in_range(self.entries@, bounds);
        }
        let order: u32 = topmost + 1;
        self.entries.push(OrderedBounds { bounds, order });
        if order > self.max_order {
            self.max_order = order;
        }
        order
    }
}

} // verus!
