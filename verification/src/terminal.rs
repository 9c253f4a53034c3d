//! The terminal: frames, viewports, and the double-buffered drawing loop.
pub mod frame;
pub mod viewport;
pub mod inline;
pub mod scroll;
pub mod terminal;
