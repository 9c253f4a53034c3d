//! The terminal and frame layer of a text user interface library: double-buffered drawing
//! to a terminal backend, viewports, and native scrollback.
use vstd::prelude::*;

mod arith;
pub mod backend;
pub mod buffer;
pub mod layout;
pub mod terminal;
pub mod widgets;

pub use backend::{Backend, ClearType, TestBackend};
pub use buffer::{Buffer, Cell};
pub use layout::{Position, Rect, Size};
pub use terminal::frame::{Frame, ScrollSnapshot};
pub use terminal::terminal::{CompletedFrame, Terminal};
pub use terminal::viewport::{Options, Options as TerminalOptions, Viewport};

verus! {

} // verus!
