//! A frame: the view into the terminal that one draw renders through.
use vstd::prelude::*;

use crate::buffer::{Buffer, Cell, CellView};
use crate::layout::{min_u16, Position, Rect};
use crate::widgets::{StatefulWidget, StatefulWidgetRef, Widget, WidgetRef};
use vstd::std_specs::convert::IntoSpec;

verus! {

/// What a scroll snapshot holds.
pub struct ScrollSnapshotView {
    /// The number of rows to push into the terminal's scrollback.
    pub lines: usize,
    /// The captured cells, row by row.
    pub content: Seq<CellView>,
    /// The width of each captured row.
    pub width: u16,
    /// For each row, whether it soft-wraps into the next one.
    pub row_wrapped: Seq<bool>,
}

/// Rows captured from a frame's buffer, to be pushed into the terminal's native scrollback
/// before the frame is drawn.
///
/// It is taken when [`Frame::set_scroll_up`] is called, so that what is rendered afterwards
/// (a modal, a popup) does not end up in the scrollback.
#[derive(Debug, Clone, PartialEq, Eq, Hash)]
pub struct ScrollSnapshot {
    pub(crate) lines: usize,
    pub(crate) content: Vec<Cell>,
    pub(crate) width: u16,
    pub(crate) row_wrapped: Vec<bool>,
}

impl View for ScrollSnapshot {
    type V = ScrollSnapshotView;

    closed spec fn view(&self) -> ScrollSnapshotView {
        ScrollSnapshotView {
            lines: self.lines,
            content: self.content@.map_values(|c: Cell| c@),
            width: self.width,
            row_wrapped: self.row_wrapped@,
        }
    }
}

impl ScrollSnapshot {
    /// What the view of a snapshot holds, field by field.
    pub(crate) proof fn lemma_view(&self)
        ensures
            self@.lines == self.lines,
            self@.content == self.content@.map_values(|c: Cell| c@),
            self@.width == self.width,
            self@.row_wrapped == self.row_wrapped@,
    {
    }

    /// The number of rows to push into the scrollback.
    pub(crate) fn line_count(&self) -> (n: usize)
        ensures
            n == self@.lines,
    {
        self.lines
    }
}

/// The view of an optional snapshot.
pub open spec fn snapshot_view(s: Option<ScrollSnapshot>) -> Option<ScrollSnapshotView> {
    match s {
        Some(s) => Some(s@),
        None => None,
    }
}

/// What a frame holds.
pub struct FrameView {
    /// Where the cursor goes after the frame is drawn; `None` hides it.
    pub cursor_position: Option<Position>,
    /// The area of the viewport.
    pub viewport_area: Rect,
    /// The buffer the frame draws into, as it stands.
    pub buffer: Buffer,
    /// The number of frames drawn before this one.
    pub count: usize,
    /// The rows captured for the scrollback, if any.
    pub scroll_snapshot: Option<ScrollSnapshotView>,
}

/// Whether a row of `width` cells, the `r`-th of `cells`, soft-wraps into the next one: its
/// last cell says so.
pub open spec fn row_wraps(cells: Seq<CellView>, width: u16, r: int) -> bool {
    width > 0 && cells[r * width + width - 1].soft_wrap
}

/// A consistent view into the terminal for rendering one frame.
///
/// It is handed to the render callback of [`Terminal::draw`](crate::terminal::terminal::Terminal::draw).
/// What is rendered goes to the terminal's current buffer; after the callback returns, that
/// buffer is compared to the previous one and only the changes are written to the terminal.
#[derive(Debug, Hash)]
pub struct Frame<'a> {
    pub(crate) cursor_position: Option<Position>,
    pub(crate) viewport_area: Rect,
    pub(crate) buffer: &'a mut Buffer,
    pub(crate) count: usize,
    pub(crate) scroll_snapshot: Option<ScrollSnapshot>,
}

impl<'a> View for Frame<'a> {
    type V = FrameView;

    closed spec fn view(&self) -> FrameView {
        FrameView {
            cursor_position: self.cursor_position,
            viewport_area: self.viewport_area,
            buffer: *self.buffer,
            count: self.count,
            scroll_snapshot: snapshot_view(self.scroll_snapshot),
        }
    }
}

impl<'a> Frame<'a> {
    /// The reference to the buffer that the frame draws into.
    pub closed spec fn buffer_ref(self) -> &'a mut Buffer {
        self.buffer
    }

    /// Once a frame is done with, the buffer it drew into holds what the frame's view shows:
    /// whoever lent that buffer (the terminal, for [`Terminal::get_frame`]) gets back what was
    /// rendered through the frame.
    ///
    /// [`Terminal::get_frame`]: crate::terminal::terminal::Terminal::get_frame
    pub proof fn lemma_done(&self)
        requires
            has_resolved(*self),
        ensures
            *final(self.buffer_ref()) == self@.buffer,
    {
    }

    /// A frame over `buffer` for the viewport `viewport_area`, numbered `count`, with no
    /// cursor and no snapshot.
    pub(crate) fn over(viewport_area: Rect, buffer: &'a mut Buffer, count: usize) -> (f: Frame<'a>)
        ensures
            f@ == (FrameView {
                cursor_position: None,
                viewport_area,
                buffer: *old(buffer),
                count,
                scroll_snapshot: None,
            }),
            *final(f.buffer_ref()) == *final(buffer),
    {
        Frame { cursor_position: None, viewport_area, buffer, count, scroll_snapshot: None }
    }

    /// Ends the frame, giving back where the cursor goes and the rows captured for the
    /// scrollback.
    pub(crate) fn finish(self) -> (r: (Option<Position>, Option<ScrollSnapshot>))
        ensures
            r.0 == self@.cursor_position,
            snapshot_view(r.1) == self@.scroll_snapshot,
            *final(self.buffer_ref()) == self@.buffer,
    {
        (self.cursor_position, self.scroll_snapshot)
    }

    /// The area of the current frame. It does not change during rendering.
    pub fn area(&self) -> (r: Rect)
        ensures
            r == self@.viewport_area,
    {
        self.viewport_area
    }

    /// The area of the current frame; [`Frame::area`] is the better name for it.
    pub fn size(&self) -> (r: Rect)
        ensures
            r == self@.viewport_area,
    {
        self.viewport_area
    }

    /// Renders a widget into `area` of the frame's buffer.
    pub fn render_widget<W: Widget>(&mut self, widget: W, area: Rect)
        ensures
            final(self)@ == (FrameView { buffer: final(self)@.buffer, ..old(self)@ }),
            widget.renders(area, old(self)@.buffer, final(self)@.buffer),
            *final(final(self).buffer_ref()) == *final(old(self).buffer_ref()),
    {
        widget.render(area, self.buffer);
    }

    /// Renders a widget by reference into `area` of the frame's buffer.
    pub fn render_widget_ref<W: WidgetRef>(&mut self, widget: W, area: Rect)
        ensures
            final(self)@ == (FrameView { buffer: final(self)@.buffer, ..old(self)@ }),
            widget.renders_ref(area, old(self)@.buffer, final(self)@.buffer),
            *final(final(self).buffer_ref()) == *final(old(self).buffer_ref()),
    {
        widget.render_ref(area, self.buffer);
    }

    /// Renders a stateful widget into `area` of the frame's buffer.
    pub fn render_stateful_widget<W: StatefulWidget>(
        &mut self,
        widget: W,
        area: Rect,
        state: &mut W::State,
    )
        ensures
            final(self)@ == (FrameView { buffer: final(self)@.buffer, ..old(self)@ }),
            widget.renders(area, old(self)@.buffer, final(self)@.buffer, *old(state), *final(state)),
            *final(final(self).buffer_ref()) == *final(old(self).buffer_ref()),
    {
        widget.render(area, self.buffer, state);
    }

    /// Renders a stateful widget by reference into `area` of the frame's buffer.
    pub fn render_stateful_widget_ref<W: StatefulWidgetRef>(
        &mut self,
        widget: W,
        area: Rect,
        state: &mut W::State,
    )
        ensures
            final(self)@ == (FrameView { buffer: final(self)@.buffer, ..old(self)@ }),
            widget.renders_ref(
                area,
                old(self)@.buffer,
                final(self)@.buffer,
                *old(state),
                *final(state),
            ),
            *final(final(self).buffer_ref()) == *final(old(self).buffer_ref()),
    {
        widget.render_ref(area, self.buffer, state);
    }

    /// After this frame is drawn, shows the cursor at `position`. Without this call the
    /// cursor is hidden.
    pub fn set_cursor_position<P: Into<Position>>(&mut self, position: P)
        ensures
            final(self)@.cursor_position is Some,
            P::obeys_into_spec() ==> final(self)@.cursor_position == Some(position.into_spec()),
            final(self)@ == (FrameView {
                cursor_position: final(self)@.cursor_position,
                ..old(self)@
            }),
            *final(final(self).buffer_ref()) == *final(old(self).buffer_ref()),
    {
        self.cursor_position = Some(position.into());
    }

    /// After this frame is drawn, shows the cursor at column `x`, row `y`;
    /// [`Frame::set_cursor_position`] is the better name for it.
    pub fn set_cursor(&mut self, x: u16, y: u16)
        ensures
            final(self)@ == (FrameView {
                cursor_position: Some(Position { x, y }),
                ..old(self)@
            }),
            *final(final(self).buffer_ref()) == *final(old(self).buffer_ref()),
    {
        self.cursor_position = Some(Position { x, y });
    }

    /// The buffer that this frame draws into.
    pub fn buffer_mut(&mut self) -> (b: &mut Buffer)
        ensures
            *b == old(self)@.buffer,
            final(self)@ == (FrameView { buffer: *final(b), ..old(self)@ }),
            *final(final(self).buffer_ref()) == *final(old(self).buffer_ref()),
    {
        self.buffer
    }

    /// The number of frames drawn before this one (wrapping to zero after the largest
    /// `usize`).
    pub fn count(&self) -> (c: usize)
        ensures
            c == self@.count,
    {
        self.count
    }

    /// Captures the top `lines` rows of the buffer (at most the height of the viewport) to
    /// push into the terminal's native scrollback before the frame is drawn. With no row to
    /// capture, any earlier capture of this frame is dropped; a later call replaces an earlier
    /// one.
    pub fn set_scroll_up(&mut self, lines: u16)
        requires
            min_u16(lines, old(self)@.viewport_area.height) * old(self)@.viewport_area.width <= old(self)@.buffer.content@.len(),
        ensures
            ({
                let v = old(self)@;
                let n = min_u16(lines, v.viewport_area.height);
                let w = v.viewport_area.width;
                let captured = v.buffer.cells().subrange(0, n * w);
                final(self)@ == (FrameView {
                    scroll_snapshot: if n == 0 {
                        None
                    } else {
                        Some(
                            ScrollSnapshotView {
                                lines: n as usize,
                                content: captured,
                                width: w,
                                row_wrapped: Seq::new(
                                    n as nat,
                                    |r: int| row_wraps(captured, w, r),
                                ),
                            },
                        )
                    },
                    ..v
                })
            }),
            *final(final(self).buffer_ref()) == *final(old(self).buffer_ref()),
    {
        let width = self.viewport_area.width;
        let height = self.viewport_area.height;
        let lines = if lines < height {
            lines
        } else {
            height
        };
        if lines == 0 {
            self.scroll_snapshot = None;
            return;
        }
        proof {
            crate::arith::lemma_grid_fits(lines as int, width as int);
        }
        let cells_to_capture = (lines as usize) * (width as usize);
        let ghost captured = self@.buffer.cells().subrange(0, cells_to_capture as int);
        let mut content: Vec<Cell> = Vec::new();
        let mut i: usize = 0;
        while i < cells_to_capture
            invariant
                cells_to_capture <= self.buffer.content@.len(),
                captured == self.buffer.cells().subrange(0, cells_to_capture as int),
                i <= cells_to_capture,
                content@.map_values(|c: Cell| c@) == captured.subrange(0, i as int),
            decreases cells_to_capture - i,
        {
            let cell = self.buffer.content[i].clone();
            proof {
                assert(content@.push(cell).map_values(|c: Cell| c@) =~= content@.map_values(
                    |c: Cell| c@,
                ).push(cell@));
                assert(captured.subrange(0, i + 1) =~= captured.subrange(0, i as int).push(cell@));
            }
            content.push(cell);
            i += 1;
        }
        assert(captured.subrange(0, cells_to_capture as int) =~= captured);
        let ghost wrapped = Seq::new(lines as nat, |r: int| row_wraps(captured, width, r));
        let mut row_wrapped: Vec<bool> = Vec::new();
        let mut r: u16 = 0;
        while r < lines
            invariant
                content@.len() == cells_to_capture,
                cells_to_capture == lines * width,
                content@.map_values(|c: Cell| c@) == captured,
                wrapped == Seq::new(lines as nat, |r: int| row_wraps(captured, width, r)),
                r <= lines,
                row_wrapped@ == wrapped.subrange(0, r as int),
            decreases lines - r,
        {
            let wraps = if width == 0 {
                false
            } else {
                proof {
                    crate::arith::lemma_cell_index(
                        r as int,
                        width - 1,
                        width as int,
                        lines as int,
                    );
                    assert(width * lines == lines * width) by (nonlinear_arith);
                }
                content[r as usize * width as usize + width as usize - 1].soft_wrap()
            };
            proof {
                assert(row_wrapped@.push(wraps) =~= wrapped.subrange(0, r + 1));
            }
            row_wrapped.push(wraps);
            r += 1;
        }
        assert(wrapped.subrange(0, lines as int) =~= wrapped);
        self.scroll_snapshot = Some(
            ScrollSnapshot { lines: lines as usize, content, width, row_wrapped },
        );
    }

    /// Sets the rows to push into the terminal's native scrollback before the frame is drawn:
    /// `lines` rows of `width` cells from `content`, with `row_wrapped` telling for each row
    /// whether it soft-wraps into the next. The rows may be more than the viewport holds.
    pub fn set_scroll_snapshot(
        &mut self,
        content: Vec<Cell>,
        width: u16,
        lines: usize,
        row_wrapped: Vec<bool>,
    )
        ensures
            final(self)@ == (FrameView {
                scroll_snapshot: Some(
                    ScrollSnapshotView {
                        lines,
                        content: content@.map_values(|c: Cell| c@),
                        width,
                        row_wrapped: row_wrapped@,
                    },
                ),
                ..old(self)@
            }),
            *final(final(self).buffer_ref()) == *final(old(self).buffer_ref()),
    {
        self.scroll_snapshot = Some(ScrollSnapshot { lines, content, width, row_wrapped });
    }
}

} // verus!
