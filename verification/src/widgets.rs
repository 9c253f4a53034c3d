//! What a frame renders: widgets draw themselves into a buffer.
use vstd::prelude::*;

use crate::buffer::Buffer;
use crate::layout::Rect;

verus! {

/// Something that draws itself into an area of a buffer, consuming itself.
pub trait Widget {
    /// Whether drawing the widget into `area` of the buffer `before` gives `after`. A widget
    /// that describes its drawing says so here; by default nothing is said of it.
    open spec fn renders(&self, area: Rect, before: Buffer, after: Buffer) -> bool {
        true
    }

    /// Draws the widget into `area` of `buf`.
    fn render(self, area: Rect, buf: &mut Buffer)
        ensures
            self.renders(area, *old(buf), *final(buf)),
    ;
}

/// Something that draws itself into an area of a buffer by reference.
pub trait WidgetRef {
    /// Whether drawing the widget into `area` of the buffer `before` gives `after`. A widget
    /// that describes its drawing says so here; by default nothing is said of it.
    open spec fn renders_ref(&self, area: Rect, before: Buffer, after: Buffer) -> bool {
        true
    }

    /// Draws the widget into `area` of `buf`.
    fn render_ref(&self, area: Rect, buf: &mut Buffer)
        ensures
            self.renders_ref(area, *old(buf), *final(buf)),
    ;
}

/// A widget that draws itself with the help of state kept between frames.
pub trait StatefulWidget {
    /// The state that rendering reads and updates.
    type State;

    /// Whether drawing the widget into `area` of the buffer `before` with the state `state`
    /// gives the buffer `after` and leaves the state `next`. A widget that describes its
    /// drawing says so here; by default nothing is said of it.
    open spec fn renders(
        &self,
        area: Rect,
        before: Buffer,
        after: Buffer,
        state: Self::State,
        next: Self::State,
    ) -> bool {
        true
    }

    /// Draws the widget into `area` of `buf`.
    fn render(self, area: Rect, buf: &mut Buffer, state: &mut Self::State)
        ensures
            self.renders(area, *old(buf), *final(buf), *old(state), *final(state)),
    ;
}

/// A widget drawn by reference with the help of state kept between frames.
pub trait StatefulWidgetRef {
    /// The state that rendering reads and updates.
    type State;

    /// Whether drawing the widget into `area` of the buffer `before` with the state `state`
    /// gives the buffer `after` and leaves the state `next`. A widget that describes its
    /// drawing says so here; by default nothing is said of it.
    open spec fn renders_ref(
        &self,
        area: Rect,
        before: Buffer,
        after: Buffer,
        state: Self::State,
        next: Self::State,
    ) -> bool {
        true
    }

    /// Draws the widget into `area` of `buf`.
    fn render_ref(&self, area: Rect, buf: &mut Buffer, state: &mut Self::State)
        ensures
            self.renders_ref(area, *old(buf), *final(buf), *old(state), *final(state)),
    ;
}

} // verus!
