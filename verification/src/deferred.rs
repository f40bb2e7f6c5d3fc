//! Elements that are drawn after everything around them.
use vstd::prelude::*;

use crate::util::FluentBuilder;

verus! {

/// An element which delays the painting of its child until after all of
/// its ancestors, while keeping its layout as part of the current element tree.
#[derive(Debug)]
pub struct Deferred<C> {
    /// The child, until it is handed on.
    pub child: Option<C>,
    /// When the child is drawn among what is delayed: what is higher is on top.
    pub priority: usize,
    /// Whether the child stays beneath native surfaces.
    pub beneath_native_surfaces: bool,
}

/// The plane that something delayed is drawn on.
#[derive(Clone, Copy, Debug, PartialEq, Eq, Structural)]
pub enum DeferredPlane {
    /// That of the window's own content, beneath native surfaces.
    Base,
    /// That above native surfaces, where the window has one.
    Overlay,
}

/// Something to be drawn later.
#[derive(Debug)]
pub struct DeferredDraw<C> {
    /// What is drawn.
    pub child: C,
    /// When it is drawn among what is delayed.
    pub priority: usize,
    /// Where it is drawn.
    pub plane: DeferredPlane,
}

/// Builds a `Deferred` element, which delays the layout and paint of its child.
pub fn deferred<C>(child: C) -> (result: Deferred<C>)
    ensures
        result == (Deferred {
            child: Some(child),
            priority: 0,
            beneath_native_surfaces: false,
        }),
{
    Deferred { child: Some(child), priority: 0, beneath_native_surfaces: false }
}

impl<C> Deferred<C> {
    /// Sets the `priority` value of the `deferred` element, which
    /// determines the drawing order relative to other deferred elements,
    /// with higher values being drawn on top.
    pub fn with_priority(self, priority: usize) -> (result: Self)
        ensures
            result == (Deferred { priority, ..self }),
    {
        let mut result = self;
        result.priority = priority;
        result
    }

    /// Keeps the child on the window's base scene plane, beneath any native
    /// child surface the window hosts, instead of the overlay plane a deferred
    /// draw normally lands on.
    ///
    /// Use this when the deferral only exists to paint the child after its
    /// siblings: content that is part of the page, not a popup, menu or
    /// tooltip that must show above a native view. Such a draw is painted
    /// before every other deferred draw regardless of priority, because the
    /// overlay plane composites above the base plane anyway, and it never
    /// counts as overlay content for input capture. A draw nested inside a
    /// deferred draw that is on the overlay plane stays on the overlay plane.
    pub fn beneath_native_surfaces(self) -> (result: Self)
        ensures
            result == (Deferred { beneath_native_surfaces: true, ..self }),
    {
        let mut result = self;
        result.beneath_native_surfaces = true;
        result
    }

    /// Sets a priority for the element. A higher priority conceptually means painting the element
    /// on top of deferred draws with a lower priority (i.e. closer to the viewer).
    pub fn priority(self, priority: usize) -> (result: Self)
        ensures
            result == (Deferred { priority, ..self }),
    {
        let mut result = self;
        result.priority = priority;
        result
    }

    /// Hands the child on, to be drawn later. A child is handed on once.
    pub fn take_draw(&mut self) -> (result: DeferredDraw<C>)
        requires
            old(self).child is Some,
        ensures
            result == (DeferredDraw {
                child: old(self).child->Some_0,
                priority: old(self).priority,
                plane: if old(self).beneath_native_surfaces {
                    DeferredPlane::Base
                } else {
                    DeferredPlane::Overlay
                },
            }),
            *final(self) == (Deferred { child: None, ..*old(self) }),
    {
        let child = self.child.take().unwrap();
        let plane = if self.beneath_native_surfaces {
            DeferredPlane::Base
        } else {
            DeferredPlane::Overlay
        };
        DeferredDraw { child, priority: self.priority, plane }
    }
}

impl<C> FluentBuilder for Deferred<C> {

}

} // verus!
