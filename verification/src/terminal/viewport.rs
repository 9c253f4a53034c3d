//! Which part of the screen a terminal draws to.
use vstd::prelude::*;

use crate::layout::Rect;

verus! {

/// The part of the screen that frames are drawn to.
#[derive(Debug, Clone, Copy, PartialEq, Eq, Hash, Structural)]
pub enum Viewport {
    /// The whole screen, following its size.
    Fullscreen,
    /// A band of the given number of rows at the cursor, below the text already on the
    /// screen.
    Inline(u16),
    /// A fixed area that does not follow the size of the screen.
    Fixed(Rect),
}

impl Default for Viewport {
    fn default() -> (v: Viewport)
        ensures
            v == Viewport::Fullscreen,
    {
        Viewport::Fullscreen
    }
}

/// Options to create a terminal with.
#[derive(Debug, Clone, Copy, PartialEq, Eq, Hash, Structural)]
pub struct Options {
    /// The viewport to draw to.
    pub viewport: Viewport,
}

impl Default for Options {
    fn default() -> (o: Options)
        ensures
            o == (Options { viewport: Viewport::Fullscreen }),
    {
        Options { viewport: Viewport::Fullscreen }
    }
}

} // verus!
