//! The terminal: double-buffered drawing of frames to a backend.
use vstd::prelude::*;

use crate::backend::{
    appended_screen, apply_updates, prefix_block, area_within, clear_cells, keeps_cells, ScreenState, keeps_screen, keeps_tracking,
    region_shows, screen_ok, shift_cells, snapshot_block, wrap_flags, Backend,
};
use crate::buffer::{
    all_cells_prefix, blank_cell, diff_cells, diff_prefix, min_len, needs_draw, pos_x, pos_y, stale_cell, updates_view,
    Buffer, Cell, CellView,
};
use crate::layout::{min_u16, sat_add, sat_sub, Position, Rect, Size};
use crate::terminal::frame::{
    snapshot_view, Frame, FrameView, ScrollSnapshot, ScrollSnapshotView,
};
use crate::terminal::inline::{inline_area, inline_lines_after_cursor, inline_viewport_area};
use crate::terminal::scroll::{scroll_updates, scroll_updates_of};
use crate::terminal::viewport::{Options, Viewport};
use vstd::std_specs::convert::IntoSpec;

verus! {

/// What a terminal holds, besides its backend.
pub struct TerminalView<B> {
    /// The backend.
    pub backend: B,
    /// The buffer that the next frame is drawn into.
    pub current_buffer: Buffer,
    /// The buffer that was last drawn to the screen.
    pub previous_buffer: Buffer,
    /// Which of the two buffers is the current one.
    pub current: usize,
    /// Whether the terminal hid the cursor.
    pub hidden_cursor: bool,
    /// The viewport.
    pub viewport: Viewport,
    /// The area of the viewport.
    pub viewport_area: Rect,
    /// The last known area of the screen.
    pub last_known_area: Rect,
    /// The last known position of the cursor.
    pub last_known_cursor_pos: Position,
    /// The number of frames drawn so far (wrapping).
    pub frame_count: usize,
}

/// Whether `b` is a buffer over `area` whose cells are all blank.
pub open spec fn is_blank_buffer(b: Buffer, area: Rect) -> bool {
    &&& b.area == area
    &&& b.wf()
    &&& forall|i: int| 0 <= i < b.cells().len() ==> b.cells()[i] == blank_cell()
}

/// The area of the whole of a screen of `size`.
pub open spec fn whole_screen(size: Size) -> Rect {
    Rect { x: 0, y: 0, width: size.width, height: size.height }
}

/// What a screen of `size` that showed `screen` shows once a frame is written to it: first,
/// when `lines` is not zero, its rows move up by `lines` into the scrollback; then the cells in
/// which `rendered` differs from `previous` (the buffers of a viewport over `area`) are
/// written, compared with what the screen shows by then.
pub open spec fn written_frame(
    screen: Seq<CellView>,
    size: Size,
    area: Rect,
    previous: Seq<CellView>,
    rendered: Seq<CellView>,
    lines: usize,
) -> Seq<CellView> {
    if lines == 0 {
        apply_updates(screen, size.width, size.height, diff_cells(area, previous, rendered))
    } else {
        apply_updates(
            shift_cells(screen, 0, screen.len() as int, lines * size.width, true),
            size.width,
            size.height,
            scroll_updates_of(previous, rendered, area.width, area.height, lines),
        )
    }
}

/// Law: a screen that shows the previous buffer of a viewport shows the rendered one once a
/// frame is written to it, where no rows go to the scrollback or the viewport is the whole
/// screen (rows are streamed from the top left corner of the screen, and the redraw after them
/// compares against the screen moved up).
pub proof fn law_written_frame_in_sync(
    screen: Seq<CellView>,
    size: Size,
    area: Rect,
    previous: Seq<CellView>,
    rendered: Seq<CellView>,
    lines: usize,
)
    requires
        region_shows(screen, size, area, previous),
        rendered.len() == previous.len(),
        lines == 0 || area == whole_screen(size),
    ensures
        region_shows(written_frame(screen, size, area, previous, rendered, lines), size, area, rendered),
{
    if lines == 0 {
        crate::backend::law_diff_keeps_region_in_step(screen, size, area, previous, rendered);
    } else {
        crate::backend::lemma_region_of_whole_screen(screen, size, previous);
        crate::terminal::scroll::law_scroll_keeps_screen_in_step(
            screen,
            previous,
            rendered,
            area.width,
            area.height,
            lines,
        );
        crate::backend::lemma_region_of_whole_screen(
            written_frame(screen, size, area, previous, rendered, lines),
            size,
            rendered,
        );
    }
}

/// The number of rows that a frame's snapshot pushes into the scrollback: none without one.
pub open spec fn streamed_lines(snapshot: Option<ScrollSnapshotView>) -> usize {
    match snapshot {
        Some(v) => v.lines,
        None => 0,
    }
}

/// The rows that a frame's snapshot pushes into the scrollback of a screen `width` cells
/// wide: its captured rows laid out at that width; none without a snapshot or a row.
pub open spec fn streamed_rows(snapshot: Option<ScrollSnapshotView>, width: u16) -> Seq<CellView> {
    match snapshot {
        Some(v) => if v.lines > 0 {
            snapshot_block(v.content, v.width as int, v.lines as nat, width as nat)
        } else {
            Seq::empty()
        },
        None => Seq::empty(),
    }
}

/// The soft-wrap flags of the rows that a frame's snapshot pushes into the scrollback: none
/// without one.
pub open spec fn streamed_wraps(snapshot: Option<ScrollSnapshotView>) -> Seq<bool> {
    match snapshot {
        Some(v) => wrap_flags(v.row_wrapped, v.lines as nat),
        None => Seq::empty(),
    }
}

/// Whether `after` is what a terminal in state `before` became by drawing one frame that
/// started as `start` and was left as `end`, with `rendered` what its buffer held at the end:
/// the frame covered the viewport (after any resize) and the current buffer, numbered with
/// the frame count; what was rendered became the previous buffer; the cursor is placed or
/// hidden as the frame asked; and a tracked screen got the rendered buffer written to it,
/// after the rows the frame captured (with their wrap flags) went into its scrollback, where
/// no rows were captured or the viewport is as tall as the screen. When the frame began with a
/// resize (the screen was cleared and the previous buffer invalidated), a tracked screen shows
/// every cell of the rendered buffer in the new viewport, where that lies on the screen, the
/// buffer still covers it, and no rows were captured or the viewport is the whole screen.
pub open spec fn drew_frame<B: Backend>(
    before: TerminalView<B>,
    after: TerminalView<B>,
    start: FrameView,
    end: FrameView,
    rendered: Buffer,
) -> bool {
    let screen = before.backend.screen();
    &&& start.cursor_position is None
    &&& start.scroll_snapshot is None
    &&& start.viewport_area == after.viewport_area
    &&& start.count == before.frame_count
    &&& after.last_known_area == before.last_known_area ==> start.buffer == before.current_buffer
    &&& after.last_known_area != before.last_known_area ==> is_resize_of(
        start.buffer,
        before.current_buffer,
        after.viewport_area,
    )
    &&& rendered == after.previous_buffer
    &&& after.hidden_cursor == end.cursor_position is None
    &&& end.cursor_position matches Some(p) ==> after.last_known_cursor_pos == p
    &&& screen_ok(screen) && after.last_known_area == before.last_known_area
        && before.previous_buffer.area == before.viewport_area && (streamed_lines(
        end.scroll_snapshot,
    ) == 0 || before.viewport_area.height == screen.size.height) ==> {
        &&& after.backend.screen().cells == written_frame(
            screen.cells,
            screen.size,
            before.viewport_area,
            before.previous_buffer.cells(),
            rendered.cells(),
            streamed_lines(end.scroll_snapshot),
        )
        &&& after.backend.screen().scrollback == screen.scrollback + streamed_rows(
            end.scroll_snapshot,
            screen.size.width,
        )
        &&& after.backend.screen().streamed_wraps == screen.streamed_wraps + streamed_wraps(
            end.scroll_snapshot,
        )
        &&& after.backend.screen().cursor_visible == end.cursor_position is Some
        &&& end.cursor_position matches Some(p) ==> after.backend.screen().cursor == p
    }
    &&& after.last_known_area == before.last_known_area ==> after.viewport_area
        == before.viewport_area
    &&& screen_ok(screen) && after.last_known_area != before.last_known_area && area_within(
        after.viewport_area,
        screen.size,
    ) && rendered.area == after.viewport_area && rendered.wf() && (streamed_lines(
        end.scroll_snapshot,
    ) == 0 || after.viewport_area == whole_screen(screen.size)) ==> {
        &&& region_shows(after.backend.screen().cells, screen.size, after.viewport_area, rendered.cells())
        &&& after.backend.screen().cursor_visible == end.cursor_position is Some
        &&& end.cursor_position matches Some(p) ==> after.backend.screen().cursor == p
    }
}

/// Law: once a frame is drawn, a tracked screen shows the rendered buffer in the viewport
/// (each of its cells that is neither skipped nor invalidated), whether the draw first resized
/// the terminal to the screen (which clears it) or the screen already showed the previous
/// buffer; where the viewport lies on the screen, the rendered buffer covers it, and no rows
/// were captured for the scrollback or the viewport is the whole screen.
pub proof fn law_drawn_frame_shows_rendered<B: Backend>(
    before: TerminalView<B>,
    after: TerminalView<B>,
    start: FrameView,
    end: FrameView,
    rendered: Buffer,
)
    requires
        drew_frame(before, after, start, end, rendered),
        screen_ok(before.backend.screen()),
        area_within(after.viewport_area, before.backend.screen().size),
        rendered.area == after.viewport_area,
        rendered.wf(),
        streamed_lines(end.scroll_snapshot) == 0 || after.viewport_area == whole_screen(
            before.backend.screen().size,
        ),
        after.last_known_area == before.last_known_area ==> before.previous_buffer.area
            == before.viewport_area && region_shows(
            before.backend.screen().cells,
            before.backend.screen().size,
            before.viewport_area,
            before.previous_buffer.cells(),
        ),
    ensures
        region_shows(
            after.backend.screen().cells,
            before.backend.screen().size,
            after.viewport_area,
            rendered.cells(),
        ),
{
    let screen = before.backend.screen();
    if after.last_known_area == before.last_known_area {
        law_written_frame_in_sync(
            screen.cells,
            screen.size,
            before.viewport_area,
            before.previous_buffer.cells(),
            rendered.cells(),
            streamed_lines(end.scroll_snapshot),
        );
    }
}

/// A screen shows, in any area within it, a buffer of that area whose cells are all
/// invalidated.
proof fn lemma_stale_region(screen: Seq<CellView>, size: Size, area: Rect, buffer: Seq<CellView>)
    requires
        screen.len() == crate::layout::cell_count(size.width, size.height),
        buffer.len() == crate::layout::cell_count(area.width, area.height),
        area_within(area, size),
        forall|i: int| 0 <= i < buffer.len() ==> buffer[i] == stale_cell(),
    ensures
        region_shows(screen, size, area, buffer),
{
    assert forall|i: int| 0 <= i < buffer.len() implies #[trigger] buffer[i].skip || buffer[i].stale
        || screen[crate::backend::screen_index(size.width, area, i)] == buffer[i] by {
        assert(buffer[i] == stale_cell());
    }
}

/// The frame count of a terminal that started at zero (as [`Terminal::new`] and
/// [`Terminal::with_options`] start it) once `n` frames were drawn: each successful draw adds
/// one, wrapping.
pub open spec fn count_after(n: nat) -> usize
    decreases n,
{
    if n == 0 {
        0
    } else {
        count_after((n - 1) as nat).wrapping_add(1)
    }
}

/// Law: after `n` frames drawn from a new terminal, the frame count is `n`, wrapping to zero
/// after the largest `usize`.
pub proof fn law_frame_count_wraps(n: nat)
    ensures
        count_after(n) == n % (usize::MAX as nat + 1),
    decreases n,
{
    let m = usize::MAX as int + 1;
    if n == 0 {
        vstd::arithmetic::div_mod::lemma_fundamental_div_mod_converse_mod(0, m, 0, 0);
    } else {
        law_frame_count_wraps((n - 1) as nat);
        let a = (n - 1) % m;
        let q = (n - 1) / m;
        vstd::arithmetic::div_mod::lemma_fundamental_div_mod(n - 1, m);
        if a + 1 < m {
            vstd::arithmetic::div_mod::lemma_fundamental_div_mod_converse_mod(n as int, m, q, a + 1);
        } else {
            assert(n == (q + 1) * m + 0) by (nonlinear_arith)
                requires
                    n - 1 == m * q + a,
                    a + 1 == m,
            ;
            vstd::arithmetic::div_mod::lemma_fundamental_div_mod_converse_mod(n as int, m, q + 1, 0);
        }
    }
}

/// Whether every cell of `screen` is blank.
pub open spec fn is_blank_screen(screen: Seq<CellView>) -> bool {
    forall|i: int| 0 <= i < screen.len() ==> screen[i] == blank_cell()
}

/// The cells of `screen`, a screen `width` cells wide, once a terminal with `viewport` over
/// `area` has cleared it: all of them for a full-screen viewport; for the others, those from
/// the top left corner of the area (for a fixed one, from the start of its top row) to the
/// end of the screen.
pub open spec fn cleared_screen(screen: Seq<CellView>, width: u16, viewport: Viewport, area: Rect) -> Seq<
    CellView,
> {
    match viewport {
        Viewport::Fullscreen => clear_cells(screen, 0, screen.len() as int),
        Viewport::Inline(_) => clear_cells(screen, area.y * width + area.x, screen.len() as int),
        Viewport::Fixed(_) => if area.y < sat_add(area.y, area.height) {
            clear_cells(screen, area.y * width, screen.len() as int)
        } else {
            screen
        },
    }
}

/// Law: clearing for an inline viewport, which starts at the left edge of a screen `width`
/// cells wide, blanks every row from the viewport's top down and keeps the rows above it.
pub proof fn law_inline_clear_blanks_rows_from_viewport(
    screen: Seq<CellView>,
    width: u16,
    height: u16,
    area: Rect,
    row: int,
    col: int,
)
    requires
        screen.len() == width * height,
        area.x == 0,
        0 <= row < height,
        0 <= col < width,
    ensures
        cleared_screen(screen, width, Viewport::Inline(area.height), area)[row * width + col] == if row
            >= area.y {
            blank_cell()
        } else {
            screen[row * width + col]
        },
{
    crate::arith::lemma_cell_index(row, col as int, width as int, height as int);
    if row >= area.y {
        crate::arith::lemma_mul_le(area.y as int, row, width as int);
    } else {
        crate::arith::lemma_mul_le(row + 1, area.y as int, width as int);
        assert((row + 1) * width == row * width + width) by (nonlinear_arith);
    }
}

/// Whether `after` is `before` with every cell blank.
pub open spec fn is_reset_of(after: Buffer, before: Buffer) -> bool {
    &&& after.area == before.area
    &&& after.content@.len() == before.content@.len()
    &&& forall|i: int| 0 <= i < after.cells().len() ==> after.cells()[i] == blank_cell()
}

/// Whether `after` is `before` with every cell replaced by the placeholder that compares
/// unequal to every drawn cell.
pub open spec fn is_invalidated_of(after: Buffer, before: Buffer) -> bool {
    &&& after.area == before.area
    &&& after.content@.len() == before.content@.len()
    &&& forall|i: int| 0 <= i < after.cells().len() ==> after.cells()[i] == stale_cell()
}

/// Whether `after` is `before` changed to `area` as [`Buffer::resize`] does.
pub open spec fn is_resize_of(after: Buffer, before: Buffer, area: Rect) -> bool {
    &&& after.area == area
    &&& after.wf()
    &&& forall|i: int|
        0 <= i < after.cells().len() ==> #[trigger] after.cells()[i] == if i < before.cells().len() {
            before.cells()[i]
        } else {
            blank_cell()
        }
}

/// The position of the last update, or `fallback` when there is none.
pub open spec fn last_position(updates: Seq<(u16, u16, CellView)>, fallback: Position) -> Position {
    if updates.len() > 0 {
        Position { x: updates.last().0, y: updates.last().1 }
    } else {
        fallback
    }
}

/// Whether `after` is the state of a terminal in state `before` once it was resized to `area`
/// and cleared: an inline viewport is placed anew at the cursor that the backend reported,
/// other viewports take `area`; the buffers follow the viewport and the previous one is
/// invalidated.
pub open spec fn is_resized_state<B>(before: TerminalView<B>, after: TerminalView<B>, area: Rect) -> bool {
    &&& after.last_known_area == area
    &&& after.viewport == before.viewport
    &&& after.current == before.current
    &&& after.hidden_cursor == before.hidden_cursor
    &&& after.frame_count == before.frame_count
    &&& after.last_known_cursor_pos == before.last_known_cursor_pos
    &&& placed_area(before, area, after.viewport_area)
    &&& is_resize_of(after.current_buffer, before.current_buffer, after.viewport_area)
    &&& after.previous_buffer.area == after.viewport_area
    &&& after.previous_buffer.wf()
    &&& forall|i: int|
        0 <= i < after.previous_buffer.cells().len() ==> after.previous_buffer.cells()[i]
            == stale_cell()
}

/// Whether `new_area` is where a terminal in state `before` puts its viewport on a screen of
/// `area`: an inline viewport anew at a cursor (the cursor keeping its row in the viewport),
/// the others at `area`.
pub open spec fn placed_area<B>(before: TerminalView<B>, area: Rect, new_area: Rect) -> bool {
    match before.viewport {
        Viewport::Inline(height) => exists|cursor: Position|
            new_area == #[trigger] inline_area(
                height,
                Size { width: area.width, height: area.height },
                sat_sub(before.last_known_cursor_pos.y, before.viewport_area.y),
                cursor,
            ),
        _ => new_area == area,
    }
}

/// Whether `after` is the state of a terminal in state `before` whose resize to `area`
/// failed: either nothing but the backend changed (placing an inline viewport failed), or the
/// viewport and both buffers already follow the new area while the previous buffer was not
/// invalidated (clearing failed). The last known area stays, so that a later resize tries
/// again.
pub open spec fn resize_failed<B>(before: TerminalView<B>, after: TerminalView<B>, area: Rect) -> bool {
    ||| after == TerminalView { backend: after.backend, ..before }
    ||| {
        &&& after == (TerminalView {
            backend: after.backend,
            viewport_area: after.viewport_area,
            current_buffer: after.current_buffer,
            previous_buffer: after.previous_buffer,
            ..before
        })
        &&& placed_area(before, area, after.viewport_area)
        &&& is_resize_of(after.current_buffer, before.current_buffer, after.viewport_area)
        &&& is_resize_of(after.previous_buffer, before.previous_buffer, after.viewport_area)
    }
}

/// Whether `after` is what [`Terminal::autoresize`] made of a terminal in state `before` when
/// it succeeded: unchanged where the last known area stayed (always for a fixed viewport);
/// otherwise resized, as [`is_resized_state`] says, to the whole screen that the backend
/// reported, which a tracked screen shows cleared.
pub open spec fn autoresized<B: Backend>(before: TerminalView<B>, after: TerminalView<B>) -> bool {
    let screen = before.backend.screen();
    &&& after.last_known_area == before.last_known_area ==> after == before
    &&& before.viewport is Fixed ==> after == before
    &&& !(before.viewport is Fixed) ==> {
        &&& after.last_known_area.x == 0
        &&& after.last_known_area.y == 0
        &&& screen_ok(screen) ==> after.last_known_area == whole_screen(screen.size)
    }
    &&& after.last_known_area != before.last_known_area ==> {
        &&& is_resized_state(before, after, after.last_known_area)
        &&& keeps_tracking(screen, after.backend.screen())
        &&& screen_ok(screen) ==> after.backend.screen().cells == cleared_screen(
            match before.viewport {
                Viewport::Inline(height) => appended_screen(
                    screen,
                    inline_lines_after_cursor(
                        height,
                        sat_sub(before.last_known_cursor_pos.y, before.viewport_area.y),
                    ),
                ),
                _ => screen.cells,
            },
            screen.size.width,
            before.viewport,
            after.viewport_area,
        )
    }
}

/// Whether `after` is the state of a terminal in state `before` whose
/// [`Terminal::autoresize`] failed: unchanged (asking for the size failed), or a resize to
/// an area at the origin, other than the last known one, failed as [`resize_failed`] says.
pub open spec fn autoresize_failed<B: Backend>(before: TerminalView<B>, after: TerminalView<B>) -> bool {
    ||| after == before
    ||| exists|area: Rect| {
        &&& area.x == 0
        &&& area.y == 0
        &&& area != before.last_known_area
        &&& screen_ok(before.backend.screen()) ==> area == whole_screen(before.backend.screen().size)
        &&& #[trigger] resize_failed(before, after, area)
    }
}

/// Whether `mid` is the state of a terminal in state `before` once a frame began, and `start`
/// that frame: the terminal was resized to the screen where needed ([`autoresized`]), and the
/// frame covers the viewport and the current buffer, numbered with the frame count, with no
/// cursor and no rows captured yet.
pub open spec fn began_frame<B: Backend>(before: TerminalView<B>, mid: TerminalView<B>, start: FrameView) -> bool {
    &&& autoresized(before, mid)
    &&& start.buffer == mid.current_buffer
    &&& start.viewport_area == mid.viewport_area
    &&& start.count == before.frame_count
    &&& start.cursor_position is None
    &&& start.scroll_snapshot is None
}

/// Whether `after` is the state of a terminal in state `before` whose frame, begun as
/// `start`, failed to render, with `rendered` left in its buffer: the terminal is as the
/// frame found it but for the current buffer; nothing was written to the backend.
pub open spec fn render_failed<B: Backend>(
    before: TerminalView<B>,
    after: TerminalView<B>,
    start: FrameView,
    rendered: Buffer,
) -> bool {
    &&& after.current_buffer == rendered
    &&& began_frame(before, TerminalView { current_buffer: start.buffer, ..after }, start)
}

/// The updates with which a terminal in state `before` writes its current buffer, after
/// `lines` rows went to the scrollback.
pub open spec fn frame_updates<B>(before: TerminalView<B>, lines: usize) -> Seq<(u16, u16, CellView)> {
    if lines == 0 {
        diff_cells(
            before.previous_buffer.area,
            before.previous_buffer.cells(),
            before.current_buffer.cells(),
        )
    } else {
        scroll_updates_of(
            before.previous_buffer.cells(),
            before.current_buffer.cells(),
            before.viewport_area.width,
            before.viewport_area.height,
            lines,
        )
    }
}

/// Whether `after` is the state of a terminal in state `before` whose writing of a rendered
/// frame (with `cursor` asked for and `lines` rows to the scrollback) failed: either before the
/// buffers were swapped, with the cursor shown by then at most and the last known cursor
/// position kept or moved to the last cell written; or only when the output was finally sent,
/// with the buffers swapped and the cursor placed or hidden. The frame is not counted.
pub open spec fn frame_write_failed<B>(
    before: TerminalView<B>,
    after: TerminalView<B>,
    cursor: Option<Position>,
    lines: usize,
) -> bool {
    let written = last_position(frame_updates(before, lines), before.last_known_cursor_pos);
    ||| {
        &&& after == (TerminalView {
            backend: after.backend,
            hidden_cursor: after.hidden_cursor,
            last_known_cursor_pos: after.last_known_cursor_pos,
            ..before
        })
        &&& after.hidden_cursor != before.hidden_cursor ==> cursor is Some && !after.hidden_cursor
        &&& after.last_known_cursor_pos == before.last_known_cursor_pos
            || after.last_known_cursor_pos == written
    }
    ||| {
        &&& after == (TerminalView {
            backend: after.backend,
            current_buffer: after.current_buffer,
            previous_buffer: before.current_buffer,
            current: (1 - before.current) as usize,
            hidden_cursor: cursor is None,
            last_known_cursor_pos: match cursor {
                Some(p) => p,
                None => written,
            },
            ..before
        })
        &&& is_reset_of(after.current_buffer, before.previous_buffer)
    }
}

/// Whether `after` is the state of a terminal in state `before` whose frame, begun as
/// `start`, rendered (ending as `end`, with `rendered` in its buffer) and then failed to be
/// written, as [`frame_write_failed`] says of the terminal as the frame left it.
pub open spec fn frame_failed<B: Backend>(
    before: TerminalView<B>,
    after: TerminalView<B>,
    start: FrameView,
    end: FrameView,
    rendered: Buffer,
) -> bool {
    exists|mid: TerminalView<B>|
        #[trigger] began_frame(before, mid, start) && frame_write_failed(
            TerminalView { current_buffer: rendered, ..mid },
            after,
            end.cursor_position,
            streamed_lines(end.scroll_snapshot),
        )
}

/// The cells of `cells` at positions `(i % width, y_offset + i / width)`, in order.
pub open spec fn line_updates(cells: Seq<CellView>, width: int, y_offset: int) -> Seq<
    (u16, u16, CellView),
> {
    Seq::new(
        cells.len(),
        |i: int| ((i % width) as u16, (y_offset + i / width) as u16, cells[i]),
    )
}

/// The screen with the cells from index `start` on replaced by `cells`.
pub open spec fn overwrite(screen: Seq<CellView>, start: int, cells: Seq<CellView>) -> Seq<CellView> {
    Seq::new(
        screen.len(),
        |i: int|
            if start <= i < start + cells.len() {
                cells[i - start]
            } else {
                screen[i]
            },
    )
}

proof fn lemma_apply_line_updates(
    screen: Seq<CellView>,
    width: u16,
    height: u16,
    cells: Seq<CellView>,
    y: u16,
    rows: int,
    n: int,
)
    requires
        width > 0,
        screen.len() == width * height,
        cells.len() == width * rows,
        y + rows <= height,
        0 <= n <= cells.len(),
    ensures
        apply_updates(screen, width, height, line_updates(cells, width as int, y as int).take(n))
            == overwrite(screen, y * width, cells.take(n)),
    decreases n,
{
    let w = width as int;
    let updates = line_updates(cells, w, y as int);
    if n == 0 {
        assert(updates.take(0) =~= Seq::<(u16, u16, CellView)>::empty());
        assert(overwrite(screen, y * width, cells.take(0)) =~= screen);
    } else {
        lemma_apply_line_updates(screen, width, height, cells, y, rows, n - 1);
        let i = n - 1;
        assert(updates.take(n).drop_last() =~= updates.take(n - 1));
        crate::arith::lemma_row_col(i, w);
        assert(i / w < rows) by {
            if i / w >= rows {
                crate::arith::lemma_mul_le(rows, i / w, w);
                assert(rows * w == w * rows) by (nonlinear_arith);
            }
        }
        assert((y + i / w) * w + i % w == y * w + i) by (nonlinear_arith)
            requires
                (i / w) * w + i % w == i,
        ;
        crate::arith::lemma_cell_index(y + i / w, i % w, w, height as int);
        assert(overwrite(screen, y * width, cells.take(n - 1)).update(y * width + i, cells[i])
            =~= overwrite(screen, y * width, cells.take(n)));
    }
}

/// The screen with those of `cells` that need drawing over a blank cell (the ones neither
/// skipped nor blank) written from index `start` on.
pub open spec fn drawn_over(screen: Seq<CellView>, start: int, cells: Seq<CellView>) -> Seq<CellView> {
    Seq::new(
        screen.len(),
        |i: int|
            if start <= i < start + cells.len() && needs_draw(blank_cell(), cells[i - start]) {
                cells[i - start]
            } else {
                screen[i]
            },
    )
}

proof fn lemma_apply_over_cleared(
    screen: Seq<CellView>,
    width: u16,
    height: u16,
    area: Rect,
    previous: Seq<CellView>,
    next: Seq<CellView>,
    rows: int,
    n: int,
)
    requires
        width > 0,
        area.x == 0,
        area.width == width,
        screen.len() == width * height,
        area.y + rows <= height,
        0 <= n <= width * rows,
        n <= previous.len(),
        n <= next.len(),
        forall|i: int| 0 <= i < n ==> previous[i] == blank_cell(),
    ensures
        apply_updates(screen, width, height, diff_prefix(area, previous, next, n as nat))
            == drawn_over(screen, area.y * width, next.take(n)),
    decreases n,
{
    let w = width as int;
    if n == 0 {
        assert(drawn_over(screen, area.y * width, next.take(0)) =~= screen);
    } else {
        lemma_apply_over_cleared(screen, width, height, area, previous, next, rows, n - 1);
        let i = n - 1;
        crate::arith::lemma_row_col(i, w);
        assert(i / w < rows) by {
            if i / w >= rows {
                crate::arith::lemma_mul_le(rows, i / w, w);
                assert(rows * w == w * rows) by (nonlinear_arith);
            }
        }
        assert((area.y + i / w) * w + i % w == area.y * w + i) by (nonlinear_arith)
            requires
                (i / w) * w + i % w == i,
        ;
        crate::arith::lemma_cell_index(area.y + i / w, i % w, w, height as int);
        let rest = diff_prefix(area, previous, next, (n - 1) as nat);
        let before = drawn_over(screen, area.y * width, next.take(n - 1));
        if needs_draw(previous[i], next[i]) {
            let t = (pos_x(area, i), pos_y(area, i), next[i]);
            assert(rest.push(t).drop_last() =~= rest);
            assert(before.update(area.y * w + i, next[i]) =~= drawn_over(
                screen,
                area.y * width,
                next.take(n),
            ));
        } else {
            assert(before =~= drawn_over(screen, area.y * width, next.take(n)));
        }
    }
}

/// The row that an inline viewport of `viewport_height` rows, at row `top` of a screen of
/// `screen_height` rows, moves to once `height` rows are inserted above it: down by `height`,
/// but no lower than the bottom of the screen.
pub open spec fn inserted_top(top: u16, height: u16, screen_height: u16, viewport_height: u16) -> int {
    if top + height <= screen_height - viewport_height {
        top + height
    } else {
        screen_height - viewport_height
    }
}

/// Law: rows inserted above an inline viewport push it down by their number while there is
/// room below it, and leave it at the bottom of the screen once there is none; it never goes
/// past the bottom.
pub proof fn law_inserted_viewport_stays_on_screen(
    top: u16,
    height: u16,
    screen_height: u16,
    viewport_height: u16,
)
    requires
        viewport_height <= screen_height,
    ensures
        0 <= inserted_top(top, height, screen_height, viewport_height),
        inserted_top(top, height, screen_height, viewport_height) + viewport_height <= screen_height,
        top + height + viewport_height <= screen_height ==> inserted_top(
            top,
            height,
            screen_height,
            viewport_height,
        ) == top + height,
        top + height + viewport_height > screen_height ==> inserted_top(
            top,
            height,
            screen_height,
            viewport_height,
        ) + viewport_height == screen_height,
{
}

/// The cells of a screen `width` cells wide once the rows `inserted` were put above an inline
/// viewport whose top was at row `top` and which moved to row `new_top`: the rows above the
/// viewport are the last `new_top` rows of those that were above it followed by the inserted
/// ones (the rest went into the scrollback), and the cells from the viewport down are blank.
pub open spec fn inserted_screen(
    screen: Seq<CellView>,
    width: int,
    top: int,
    inserted: Seq<CellView>,
    new_top: int,
) -> Seq<CellView> {
    let above = screen.subrange(0, top * width) + inserted;
    Seq::new(
        screen.len(),
        |i: int|
            if i < new_top * width {
                above[above.len() - new_top * width + i]
            } else {
                blank_cell()
            },
    )
}

/// The rows that go into the scrollback of a screen `width` cells wide when the rows
/// `inserted` are put above an inline viewport whose top was at row `top` and which moved to
/// row `new_top`: of the rows that were above the viewport followed by the inserted ones, all
/// but the last `new_top` (those stay on the screen), oldest first.
pub open spec fn inserted_back(
    screen: Seq<CellView>,
    width: int,
    top: int,
    inserted: Seq<CellView>,
    new_top: int,
) -> Seq<CellView> {
    let above = screen.subrange(0, top * width) + inserted;
    above.subrange(0, above.len() - new_top * width)
}

/// Exactly `n` cells: those of `cells`, cut at `n` or followed by blank cells.
pub open spec fn fitted(cells: Seq<CellView>, n: int) -> Seq<CellView> {
    Seq::new(n as nat, |i: int| if i < cells.len() { cells[i] } else { blank_cell() })
}

/// The cells as they end up when drawn over blank cells: a skipped cell leaves the blank.
pub open spec fn over_blank(cells: Seq<CellView>) -> Seq<CellView> {
    cells.map_values(|c: CellView| if needs_draw(blank_cell(), c) { c } else { blank_cell() })
}

/// The cells of a screen `width` cells wide once the rows `inserted` were put above an inline
/// viewport over rows `top` to `bottom` (not included) using scrolling regions, the viewport
/// moving down to row `new_top`: the rows above it are the last `new_top` rows of those that
/// were above it followed by the inserted ones (the rest went into the scrollback), the
/// viewport's rows moved down with it, and the rows below are as they were.
pub open spec fn region_inserted_screen(
    screen: Seq<CellView>,
    width: int,
    top: int,
    bottom: int,
    inserted: Seq<CellView>,
    new_top: int,
) -> Seq<CellView> {
    let above = screen.subrange(0, top * width) + inserted;
    let moved = new_top - top;
    Seq::new(
        screen.len(),
        |i: int|
            if i < new_top * width {
                above[above.len() - new_top * width + i]
            } else if i < (bottom + moved) * width {
                screen[i - moved * width]
            } else {
                screen[i]
            },
    )
}

proof fn lemma_region_inserted(
    fin: Seq<CellView>,
    shown: Seq<CellView>,
    screen: Seq<CellView>,
    w: int,
    top: int,
    bottom: int,
    all: Seq<CellView>,
    k: int,
)
    requires
        fin.len() == screen.len(),
        shows_tail(fin, shown, (top + k) * w),
        shown == screen.subrange(0, top * w) + over_blank(all),
        forall|i: int|
            (top + k) * w <= i < fin.len() ==> #[trigger] fin[i] == (if i < (bottom + k) * w {
                screen[i - k * w]
            } else {
                screen[i]
            }),
    ensures
        fin == region_inserted_screen(screen, w, top, bottom, over_blank(all), top + k),
{
    let target = region_inserted_screen(screen, w, top, bottom, over_blank(all), top + k);
    assert forall|i: int| 0 <= i < fin.len() implies fin[i] == target[i] by {
        if i < (top + k) * w {
            assert(fin[i] == shown[shown.len() - (top + k) * w + i]);
        }
    }
    assert(fin =~= target);
}

proof fn lemma_tail_after_region_shift(
    screen: Seq<CellView>,
    shown: Seq<CellView>,
    n: int,
    k: int,
    end: int,
)
    requires
        shows_tail(screen, shown, n),
        0 <= k <= n <= end <= screen.len(),
    ensures
        shows_tail(shift_cells(screen, 0, end, k, true), shown, n - k),
        forall|i: int| end - k <= i < end ==> #[trigger] shift_cells(screen, 0, end, k, true)[i] == blank_cell(),
        forall|i: int| end <= i < screen.len() ==> #[trigger] shift_cells(screen, 0, end, k, true)[i] == screen[i],
{
    let after = shift_cells(screen, 0, end, k, true);
    assert forall|i: int| 0 <= i < n - k implies #[trigger] after[i] == shown[shown.len() - (n
        - k) + i] by {
        assert(screen[i + k] == shown[shown.len() - n + (i + k)]);
    }
}

proof fn lemma_tail_after_drawn_blank(
    screen: Seq<CellView>,
    shown: Seq<CellView>,
    n: int,
    chunk: Seq<CellView>,
)
    requires
        shows_tail(screen, shown, n),
        n + chunk.len() <= screen.len(),
        forall|i: int| n <= i < n + chunk.len() ==> #[trigger] screen[i] == blank_cell(),
    ensures
        shows_tail(drawn_over(screen, n, chunk), shown + over_blank(chunk), n + chunk.len()),
{
    let after = drawn_over(screen, n, chunk);
    let joined = shown + over_blank(chunk);
    assert forall|i: int| 0 <= i < n + chunk.len() implies #[trigger] after[i] == joined[joined.len()
        - (n + chunk.len()) + i] by {
        if i < n {
            assert(screen[i] == shown[shown.len() - n + i]);
        } else {
            assert(screen[i] == blank_cell());
        }
    }
}

/// The rows that go into the scrollback when `inserted`, rows `width` cells wide, are put
/// above a viewport that fills the screen: each is drawn over the top row and scrolled off;
/// the first lands on the row as it was, the others on a row left blank by the scroll.
pub open spec fn pushed_rows(inserted: Seq<CellView>, width: int) -> Seq<CellView> {
    if inserted.len() == 0 {
        Seq::empty()
    } else {
        inserted.subrange(0, width) + over_blank(inserted.subrange(width, inserted.len() as int))
    }
}

/// The first `n` cells of `screen` are the last `n` cells of `shown`.
spec fn shows_tail(screen: Seq<CellView>, shown: Seq<CellView>, n: int) -> bool {
    &&& 0 <= n <= shown.len()
    &&& n <= screen.len()
    &&& forall|i: int| 0 <= i < n ==> #[trigger] screen[i] == shown[shown.len() - n + i]
}

proof fn lemma_tail_after_shift(screen: Seq<CellView>, shown: Seq<CellView>, n: int, k: int)
    requires
        shows_tail(screen, shown, n),
        0 <= k <= n,
    ensures
        shows_tail(shift_cells(screen, 0, screen.len() as int, k, true), shown, n - k),
{
    let after = shift_cells(screen, 0, screen.len() as int, k, true);
    assert forall|i: int| 0 <= i < n - k implies #[trigger] after[i] == shown[shown.len() - (n
        - k) + i] by {
        assert(screen[i + k] == shown[shown.len() - n + (i + k)]);
    }
}

proof fn lemma_tail_after_overwrite(screen: Seq<CellView>, shown: Seq<CellView>, n: int, chunk: Seq<CellView>)
    requires
        shows_tail(screen, shown, n),
        n + chunk.len() <= screen.len(),
    ensures
        shows_tail(overwrite(screen, n, chunk), shown + chunk, n + chunk.len()),
{
    let after = overwrite(screen, n, chunk);
    let joined = shown + chunk;
    assert forall|i: int| 0 <= i < n + chunk.len() implies #[trigger] after[i] == joined[joined.len()
        - (n + chunk.len()) + i] by {
        if i < n {
            assert(screen[i] == shown[shown.len() - n + i]);
        }
    }
}

/// Whether the buffers of `after` are those of `before`, either as they were or moved with the
/// viewport to `after.viewport_area` as [`Buffer::resize`] moves them: their cells are kept.
pub open spec fn buffers_moved<B>(before: TerminalView<B>, after: TerminalView<B>) -> bool {
    ||| after.current_buffer == before.current_buffer && after.previous_buffer
        == before.previous_buffer
    ||| is_resize_of(after.current_buffer, before.current_buffer, after.viewport_area)
        && is_resize_of(after.previous_buffer, before.previous_buffer, after.viewport_area)
}

/// Law: inserting rows above an inline viewport keeps what the terminal's buffers hold: the
/// previous buffer's cells stay, and a current buffer that is blank (as each successful draw
/// leaves it) stays blank, so the next frame starts from a blank buffer.
pub proof fn law_inserting_keeps_the_buffers<B>(before: TerminalView<B>, after: TerminalView<B>)
    requires
        buffers_moved(before, after),
    ensures
        forall|i: int|
            0 <= i < after.previous_buffer.cells().len() && i < before.previous_buffer.cells().len()
                ==> after.previous_buffer.cells()[i] == before.previous_buffer.cells()[i],
        (forall|i: int|
            0 <= i < before.current_buffer.cells().len() ==> before.current_buffer.cells()[i]
                == blank_cell()) ==> forall|i: int|
            0 <= i < after.current_buffer.cells().len() ==> after.current_buffer.cells()[i]
                == blank_cell(),
{
}

/// The row that an inline viewport moves to when `height` rows are inserted above it using
/// scrolling regions: down into the room left below it on the screen, if any.
pub open spec fn region_inserted_top(viewport: Rect, height: u16, screen: Rect) -> int {
    let viewport_bottom = sat_add(viewport.y, viewport.height);
    let screen_bottom = sat_add(screen.y, screen.height);
    if viewport_bottom < screen_bottom {
        viewport.y + min_u16(height, (screen_bottom - viewport_bottom) as u16)
    } else {
        viewport.y as int
    }
}

/// Exactly `count` cells: those of `content`, cut at `count` or followed by blank cells.
fn fitted_cells(content: Vec<Cell>, count: usize) -> (cells: Vec<Cell>)
    ensures
        cells@.len() == count,
        forall|i: int|
            0 <= i < count ==> #[trigger] cells@[i]@ == if i < content@.len() {
                content@[i]@
            } else {
                blank_cell()
            },
{
    let mut cells = content;
    if cells.len() > count {
        cells.truncate(count);
    } else {
        let ghost before = cells@;
        while cells.len() < count
            invariant
                before == content@,
                before.len() <= cells@.len() <= count,
                forall|i: int| 0 <= i < before.len() ==> cells@[i] == before[i],
                forall|i: int| before.len() <= i < cells@.len() ==> cells@[i]@ == blank_cell(),
            decreases count - cells@.len(),
        {
            cells.push(Cell::empty());
        }
    }
    cells
}

/// The updates that write `cells` as rows of `width` cells from row `y_offset` down.
fn line_updates_of(cells: &[Cell], width: usize, y_offset: u16) -> (updates: Vec<(u16, u16, Cell)>)
    requires
        0 < width <= u16::MAX,
    ensures
        updates_view(updates@) == line_updates(
            cells@.map_values(|c: Cell| c@),
            width as int,
            y_offset as int,
        ),
{
    let ghost target = line_updates(cells@.map_values(|c: Cell| c@), width as int, y_offset as int);
    let mut updates: Vec<(u16, u16, Cell)> = Vec::new();
    let mut i: usize = 0;
    while i < cells.len()
        invariant
            0 < width <= u16::MAX,
            target == line_updates(cells@.map_values(|c: Cell| c@), width as int, y_offset as int),
            i <= cells@.len(),
            updates_view(updates@) == target.subrange(0, i as int),
        decreases cells@.len() - i,
    {
        proof {
            crate::arith::lemma_row_col(i as int, width as int);
        }
        let t = (
            (i % width) as u16,
            (y_offset as u128 + (i / width) as u128) as u16,
            cells[i].clone(),
        );
        proof {
            assert(cells@.map_values(|c: Cell| c@)[i as int] == cells@[i as int]@);
            assert(target[i as int] == (t.0, t.1, t.2@));
            assert(updates_view(updates@.push(t)) =~= updates_view(updates@).push((t.0, t.1, t.2@)));
            assert(target.subrange(0, i + 1) =~= target.subrange(0, i as int).push(target[i as int]));
        }
        updates.push(t);
        i += 1;
    }
    assert(target.subrange(0, cells@.len() as int) =~= target);
    updates
}

/// An interface to draw frames on the user's terminal.
///
/// It keeps two buffers: the current one, that the next frame is rendered into, and the
/// previous one, that was last written to the screen. After a frame is rendered, the two are
/// compared and only the changes are written to the backend; then the buffers are swapped.
/// The viewport is the part of the screen drawn to: the whole screen, a band at the cursor,
/// or a fixed area.
#[derive(Debug, Default, Clone, Eq, PartialEq, Hash)]
pub struct Terminal<B: Backend> {
    backend: B,
    buffers: [Buffer; 2],
    current: usize,
    hidden_cursor: bool,
    viewport: Viewport,
    viewport_area: Rect,
    last_known_area: Rect,
    last_known_cursor_pos: Position,
    frame_count: usize,
}

/// The state of the terminal after the last [`Terminal::draw`]: the buffer that was drawn,
/// the area of the screen, and the number of the frame.
#[derive(Debug, Clone, Eq, PartialEq, Hash)]
pub struct CompletedFrame<'a> {
    /// The buffer that was used to draw the last frame.
    pub buffer: &'a Buffer,
    /// The size of the last frame.
    pub area: Rect,
    /// The number of frames drawn before this one.
    pub count: usize,
}

impl<B: Backend> View for Terminal<B> {
    type V = TerminalView<B>;

    closed spec fn view(&self) -> TerminalView<B> {
        TerminalView {
            backend: self.backend,
            current_buffer: self.buffers[self.current as int],
            previous_buffer: self.buffers[1 - self.current],
            current: self.current,
            hidden_cursor: self.hidden_cursor,
            viewport: self.viewport,
            viewport_area: self.viewport_area,
            last_known_area: self.last_known_area,
            last_known_cursor_pos: self.last_known_cursor_pos,
            frame_count: self.frame_count,
        }
    }
}

/// Fetches the cursor position from the backend, makes room below it for an inline viewport
/// of `height` rows (whose top was `offset` rows above the cursor) and gives the viewport's
/// area and the cursor position that was read.
fn compute_inline_size<B: Backend>(
    backend: &mut B,
    height: u16,
    size: Size,
    offset_in_previous_viewport: u16,
) -> (r: std::io::Result<(Rect, Position)>)
    ensures
        r matches Ok((area, pos)) ==> area == inline_area(
            height,
            size,
            offset_in_previous_viewport,
            pos,
        ),
        r is Ok ==> keeps_tracking(old(backend).screen(), final(backend).screen()),
        screen_ok(old(backend).screen()) ==> (r matches Ok((area, pos)) ==> {
            &&& pos == old(backend).screen().cursor
            &&& final(backend).screen().cells == appended_screen(
                old(backend).screen(),
                inline_lines_after_cursor(height, offset_in_previous_viewport),
            )
        }),
{
    let pos = backend.get_cursor_position()?;
    let lines_after_cursor = height.saturating_sub(offset_in_previous_viewport).saturating_sub(1);
    backend.append_lines(lines_after_cursor)?;
    let area = inline_viewport_area(height, size, offset_in_previous_viewport, pos);
    Ok((area, pos))
}

impl<B: Backend> Terminal<B> {
    /// The terminal's own bookkeeping holds: one of the two buffers is the current one, and an
    /// inline viewport is as wide as the screen and at most as tall.
    pub open spec fn wf(&self) -> bool {
        &&& self@.current < 2
        &&& self@.viewport is Inline ==> {
            &&& self@.viewport_area.width == self@.last_known_area.width
            &&& self@.viewport_area.height <= self@.last_known_area.height
        }
    }

    /// Both buffers cover the viewport, cell for cell.
    pub open spec fn buffers_fit(&self) -> bool {
        &&& self@.current_buffer.area == self@.viewport_area
        &&& self@.current_buffer.wf()
        &&& self@.previous_buffer.area == self@.viewport_area
        &&& self@.previous_buffer.wf()
    }

    /// The backend tracks its screen, the viewport lies within it, both buffers fit the
    /// viewport, and (but for a fixed viewport, which does not follow the screen) the last
    /// known area is the whole screen.
    pub open spec fn fits_screen(&self) -> bool {
        &&& screen_ok(self@.backend.screen())
        &&& area_within(self@.viewport_area, self@.backend.screen().size)
        &&& !(self@.viewport is Fixed) ==> self@.last_known_area == whole_screen(
            self@.backend.screen().size,
        )
        &&& self.buffers_fit()
    }

    /// The terminal fits the screen that its backend tracks, and the viewport is the whole
    /// screen.
    pub open spec fn covers_screen(&self) -> bool {
        &&& self.fits_screen()
        &&& self@.viewport_area == whole_screen(self@.backend.screen().size)
    }

    /// The terminal fits the screen that its backend tracks, and the screen shows the previous
    /// buffer in the
    /// viewport: every cell of it that is neither skipped nor invalidated.
    pub open spec fn screen_in_sync(&self) -> bool {
        &&& self.fits_screen()
        &&& region_shows(
            self@.backend.screen().cells,
            self@.backend.screen().size,
            self@.viewport_area,
            self@.previous_buffer.cells(),
        )
    }

    /// A terminal that a resize to the whole tracked screen left with its viewport on that
    /// screen and its current buffer covering the viewport is in sync with the screen: the
    /// previous buffer is all invalidated.
    proof fn lemma_resized_in_sync(&self, before: TerminalView<B>, mid: TerminalView<B>)
        ensures
            screen_ok(before.backend.screen()) && autoresized(before, mid) && self@ == (
            TerminalView { current_buffer: self@.current_buffer, ..mid })
                && mid.last_known_area != before.last_known_area && area_within(
                mid.viewport_area,
                before.backend.screen().size,
            ) && self@.current_buffer.area == mid.viewport_area && self@.current_buffer.wf()
                ==> self.screen_in_sync(),
    {
        let screen = before.backend.screen();
        if screen_ok(screen) && autoresized(before, mid) && self@ == (TerminalView {
            current_buffer: self@.current_buffer,
            ..mid
        }) && mid.last_known_area != before.last_known_area && area_within(
            mid.viewport_area,
            screen.size,
        ) && self@.current_buffer.area == mid.viewport_area && self@.current_buffer.wf() {
            lemma_stale_region(
                self@.backend.screen().cells,
                screen.size,
                self@.viewport_area,
                self@.previous_buffer.cells(),
            );
        }
    }

    /// A terminal over `backend` drawing to the whole screen.
    pub fn new(backend: B) -> (r: std::io::Result<Self>)
        ensures
            r matches Ok(t) ==> {
                &&& t.wf()
                &&& t.buffers_fit()
                &&& t@.viewport == Viewport::Fullscreen
                &&& t@.current == 0
                &&& !t@.hidden_cursor
                &&& t@.frame_count == 0
                &&& is_blank_buffer(t@.current_buffer, t@.viewport_area)
                &&& is_blank_buffer(t@.previous_buffer, t@.viewport_area)
                &&& t@.last_known_area.x == 0
                &&& t@.last_known_area.y == 0
                &&& t@.viewport_area == t@.last_known_area
                &&& t@.last_known_cursor_pos == (Position { x: 0, y: 0 })
            },
            r matches Ok(t) ==> (screen_ok(backend.screen()) ==> t.covers_screen() && t@.backend
                == backend),
            r matches Ok(t) ==> (screen_ok(backend.screen()) && is_blank_screen(
                backend.screen().cells,
            ) ==> t.screen_in_sync()),
    {
        Self::with_options(backend, Options { viewport: Viewport::Fullscreen })
    }

    /// A terminal over `backend` with the given options. A full-screen or inline viewport
    /// takes the size of the screen from the backend; an inline one also reads the cursor
    /// and makes room below it; a fixed one needs nothing from the backend.
    pub fn with_options(backend: B, options: Options) -> (r: std::io::Result<Self>)
        ensures
            options.viewport is Fixed ==> r is Ok,
            r matches Ok(t) ==> {
                &&& t.wf()
                &&& t.buffers_fit()
                &&& t@.viewport == options.viewport
                &&& t@.current == 0
                &&& !t@.hidden_cursor
                &&& t@.frame_count == 0
                &&& is_blank_buffer(t@.current_buffer, t@.viewport_area)
                &&& is_blank_buffer(t@.previous_buffer, t@.viewport_area)
                &&& match options.viewport {
                    Viewport::Fullscreen => {
                        &&& t@.last_known_area.x == 0
                        &&& t@.last_known_area.y == 0
                        &&& t@.viewport_area == t@.last_known_area
                        &&& t@.last_known_cursor_pos == (Position { x: 0, y: 0 })
                    },
                    Viewport::Inline(height) => {
                        &&& t@.last_known_area.x == 0
                        &&& t@.last_known_area.y == 0
                        &&& t@.viewport_area == inline_area(
                            height,
                            Size {
                                width: t@.last_known_area.width,
                                height: t@.last_known_area.height,
                            },
                            0,
                            t@.last_known_cursor_pos,
                        )
                    },
                    Viewport::Fixed(area) => {
                        &&& t@.last_known_area == area
                        &&& t@.viewport_area == area
                        &&& t@.last_known_cursor_pos == (Position { x: area.x, y: area.y })
                    },
                }
            },
            r matches Ok(t) ==> (options.viewport is Fixed ==> t@.backend == backend),
            r matches Ok(t) ==> (options.viewport matches Viewport::Inline(height) ==> (screen_ok(
                backend.screen(),
            ) ==> {
                &&& t@.last_known_area == whole_screen(backend.screen().size)
                &&& t@.last_known_cursor_pos == backend.screen().cursor
                &&& t@.backend.screen().cells == appended_screen(
                    backend.screen(),
                    inline_lines_after_cursor(height, 0),
                )
                &&& keeps_tracking(backend.screen(), t@.backend.screen())
            })),
            r matches Ok(t) ==> (options.viewport is Fullscreen && screen_ok(backend.screen())
                ==> t.covers_screen() && t@.backend == backend),
            r matches Ok(t) ==> (options.viewport is Fullscreen && screen_ok(backend.screen())
                && is_blank_screen(backend.screen().cells) ==> t.screen_in_sync()),
            r matches Ok(t) ==> (options.viewport matches Viewport::Fixed(area) ==> (screen_ok(
                backend.screen(),
            ) && area_within(area, backend.screen().size) && is_blank_screen(
                backend.screen().cells,
            ) ==> t.screen_in_sync())),
    {
        let mut backend = backend;
        let area = match options.viewport {
            Viewport::Fullscreen | Viewport::Inline(_) => {
                let size = backend.size()?;
                Rect::from((Position::origin(), size))
            },
            Viewport::Fixed(area) => area,
        };
        let (viewport_area, cursor_pos) = match options.viewport {
            Viewport::Fullscreen => (area, Position::origin()),
            Viewport::Inline(height) => compute_inline_size(
                &mut backend,
                height,
                area.as_size(),
                0,
            )?,
            Viewport::Fixed(area) => (area, area.as_position()),
        };
        let terminal = Terminal {
            backend,
            buffers: [Buffer::empty(viewport_area), Buffer::empty(viewport_area)],
            current: 0,
            hidden_cursor: false,
            viewport: options.viewport,
            viewport_area,
            last_known_area: area,
            last_known_cursor_pos: cursor_pos,
            frame_count: 0,
        };
        proof {
            let screen = terminal.backend.screen();
            if !(options.viewport is Inline) && screen_ok(screen) && area_within(
                viewport_area,
                screen.size,
            ) && is_blank_screen(screen.cells) {
                crate::backend::lemma_blank_region(
                    screen.cells,
                    screen.size,
                    viewport_area,
                    terminal@.previous_buffer.cells(),
                );
            }
        }
        Ok(terminal)
    }

    /// A frame over the current buffer, for rendering outside of [`Terminal::draw`].
    pub fn get_frame(&mut self) -> (f: Frame<'_>)
        requires
            old(self)@.current < 2,
        ensures
            f@ == (FrameView {
                cursor_position: None,
                viewport_area: old(self)@.viewport_area,
                buffer: old(self)@.current_buffer,
                count: old(self)@.frame_count,
                scroll_snapshot: None,
            }),
            final(self)@ == (TerminalView {
                current_buffer: *final(f.buffer_ref()),
                ..old(self)@
            }),
    {
        let count = self.frame_count;
        let viewport_area = self.viewport_area;
        Frame::over(viewport_area, &mut self.buffers[self.current], count)
    }

    /// The current buffer.
    pub fn current_buffer_mut(&mut self) -> (b: &mut Buffer)
        requires
            old(self)@.current < 2,
        ensures
            *b == old(self)@.current_buffer,
            final(self)@ == (TerminalView { current_buffer: *final(b), ..old(self)@ }),
    {
        &mut self.buffers[self.current]
    }

    /// The backend.
    pub fn backend(&self) -> (b: &B)
        ensures
            *b == self@.backend,
    {
        &self.backend
    }

    /// The backend, for changing it.
    pub fn backend_mut(&mut self) -> (b: &mut B)
        ensures
            *b == old(self)@.backend,
            final(self)@ == (TerminalView { backend: *final(b), ..old(self)@ }),
    {
        &mut self.backend
    }

    /// Writes to the backend the cells in which the current buffer differs from the previous
    /// one (see [`Buffer::diff`]), and remembers the position of the last of them as the
    /// cursor position.
    pub fn flush(&mut self) -> (r: std::io::Result<()>)
        requires
            old(self)@.current < 2,
        ensures
            final(self)@ == (TerminalView {
                backend: final(self)@.backend,
                last_known_cursor_pos: last_position(
                    diff_cells(
                        old(self)@.previous_buffer.area,
                        old(self)@.previous_buffer.cells(),
                        old(self)@.current_buffer.cells(),
                    ),
                    old(self)@.last_known_cursor_pos,
                ),
                ..old(self)@
            }),
            r is Ok ==> keeps_tracking(old(self)@.backend.screen(), final(self)@.backend.screen()),
            r is Ok && screen_ok(old(self)@.backend.screen()) ==> final(self)@.backend.screen().cells
                == apply_updates(
                old(self)@.backend.screen().cells,
                old(self)@.backend.screen().size.width,
                old(self)@.backend.screen().size.height,
                diff_cells(
                    old(self)@.previous_buffer.area,
                    old(self)@.previous_buffer.cells(),
                    old(self)@.current_buffer.cells(),
                ),
            ),
            r is Ok && screen_ok(old(self)@.backend.screen()) ==> final(self)@.backend.screen()
                == (ScreenState {
                cells: final(self)@.backend.screen().cells,
                cursor: final(self)@.backend.screen().cursor,
                ..old(self)@.backend.screen()
            }),
            r is Ok && old(self).screen_in_sync() ==> region_shows(
                final(self)@.backend.screen().cells,
                old(self)@.backend.screen().size,
                old(self)@.viewport_area,
                old(self)@.current_buffer.cells(),
            ),
    {
        proof {
            if old(self).screen_in_sync() {
                crate::backend::law_diff_keeps_region_in_step(
                    old(self)@.backend.screen().cells,
                    old(self)@.backend.screen().size,
                    old(self)@.viewport_area,
                    old(self)@.previous_buffer.cells(),
                    old(self)@.current_buffer.cells(),
                );
            }
        }
        let updates = self.buffers[1 - self.current].diff(&self.buffers[self.current]);
        if updates.len() > 0 {
            let last = &updates[updates.len() - 1];
            self.last_known_cursor_pos = Position { x: last.0, y: last.1 };
        }
        self.backend.draw(updates.as_slice())
    }

    /// Pushes the rows of `snapshot` into the terminal's native scrollback, then writes the
    /// cells of the current buffer that differ from what the screen shows after that (see
    /// [`scroll_updates`]). With no row in the snapshot this is [`Terminal::flush`].
    ///
    /// The rows are streamed as ordinary output from the top left corner and then scrolled off
    /// the top, so what goes to the scrollback is the snapshot, not what was rendered after it.
    pub fn flush_with_scroll(&mut self, snapshot: ScrollSnapshot) -> (r: std::io::Result<()>)
        requires
            old(self)@.current < 2,
        ensures
            final(self)@ == (TerminalView {
                backend: final(self)@.backend,
                last_known_cursor_pos: final(self)@.last_known_cursor_pos,
                ..old(self)@
            }),
            snapshot@.lines == 0 ==> final(self)@.last_known_cursor_pos == last_position(
                diff_cells(
                    old(self)@.previous_buffer.area,
                    old(self)@.previous_buffer.cells(),
                    old(self)@.current_buffer.cells(),
                ),
                old(self)@.last_known_cursor_pos,
            ),
            snapshot@.lines > 0 && (r is Ok || final(self)@.last_known_cursor_pos
                != old(self)@.last_known_cursor_pos) ==> final(self)@.last_known_cursor_pos == last_position(
                scroll_updates_of(
                    old(self)@.previous_buffer.cells(),
                    old(self)@.current_buffer.cells(),
                    old(self)@.viewport_area.width,
                    old(self)@.viewport_area.height,
                    snapshot@.lines,
                ),
                old(self)@.last_known_cursor_pos,
            ),
            r is Ok ==> keeps_tracking(old(self)@.backend.screen(), final(self)@.backend.screen()),
            snapshot@.lines == 0 && r is Ok && screen_ok(old(self)@.backend.screen())
                ==> final(self)@.backend.screen().cells == apply_updates(
                old(self)@.backend.screen().cells,
                old(self)@.backend.screen().size.width,
                old(self)@.backend.screen().size.height,
                diff_cells(
                    old(self)@.previous_buffer.area,
                    old(self)@.previous_buffer.cells(),
                    old(self)@.current_buffer.cells(),
                ),
            ),
            snapshot@.lines > 0 && r is Ok && screen_ok(old(self)@.backend.screen())
                && old(self)@.viewport_area.height == old(self)@.backend.screen().size.height
                ==> final(self)@.backend.screen().cells == apply_updates(
                shift_cells(
                    old(self)@.backend.screen().cells,
                    0,
                    old(self)@.backend.screen().cells.len() as int,
                    snapshot@.lines * old(self)@.backend.screen().size.width,
                    true,
                ),
                old(self)@.backend.screen().size.width,
                old(self)@.backend.screen().size.height,
                scroll_updates_of(
                    old(self)@.previous_buffer.cells(),
                    old(self)@.current_buffer.cells(),
                    old(self)@.viewport_area.width,
                    old(self)@.viewport_area.height,
                    snapshot@.lines,
                ),
            ),
            r is Ok && screen_ok(old(self)@.backend.screen()) && (snapshot@.lines == 0
                || old(self)@.viewport_area.height == old(self)@.backend.screen().size.height)
                ==> final(self)@.backend.screen() == (ScreenState {
                cells: final(self)@.backend.screen().cells,
                cursor: final(self)@.backend.screen().cursor,
                scrollback: old(self)@.backend.screen().scrollback + streamed_rows(
                    Some(snapshot@),
                    old(self)@.backend.screen().size.width,
                ),
                streamed_wraps: old(self)@.backend.screen().streamed_wraps + streamed_wraps(
                    Some(snapshot@),
                ),
                ..old(self)@.backend.screen()
            }),
    {
        let height = self.viewport_area.height;
        let width = self.viewport_area.width;
        let scroll_lines = snapshot.line_count();
        proof {
            snapshot.lemma_view();
            let sb = old(self)@.backend.screen().scrollback;
            assert(sb + Seq::<CellView>::empty() =~= sb);
            let sw = old(self)@.backend.screen().streamed_wraps;
            assert(wrap_flags(snapshot@.row_wrapped, 0) =~= Seq::<bool>::empty());
            assert(sw + Seq::<bool>::empty() =~= sw);
        }
        if scroll_lines == 0 {
            return self.flush();
        }
        self.backend.stream_lines_to_scrollback(
            snapshot.content.as_slice(),
            snapshot.width,
            scroll_lines,
            height,
            snapshot.row_wrapped.as_slice(),
        )?;
        let ghost streamed = self.backend;
        let updates = scroll_updates(
            &self.buffers[1 - self.current],
            &self.buffers[self.current],
            width,
            height,
            scroll_lines,
        );
        if updates.len() > 0 {
            let last = &updates[updates.len() - 1];
            self.last_known_cursor_pos = Position { x: last.0, y: last.1 };
        }
        let r = self.backend.draw(updates.as_slice());
        proof {
            if r is Ok {
                assert(keeps_tracking(old(self)@.backend.screen(), streamed.screen()));
                assert(keeps_tracking(streamed.screen(), self.backend.screen()));
            }
        }
        r
    }

    fn set_viewport_area(&mut self, area: Rect)
        requires
            old(self)@.current < 2,
        ensures
            final(self)@ == (TerminalView {
                current_buffer: final(self)@.current_buffer,
                previous_buffer: final(self)@.previous_buffer,
                viewport_area: area,
                ..old(self)@
            }),
            is_resize_of(final(self)@.current_buffer, old(self)@.current_buffer, area),
            is_resize_of(final(self)@.previous_buffer, old(self)@.previous_buffer, area),
    {
        let current = self.current;
        self.buffers[current].resize(area);
        self.buffers[1 - current].resize(area);
        self.viewport_area = area;
    }

    /// Clears the viewport on the screen and invalidates the previous buffer, so that the next
    /// draw writes every cell of the viewport, blank ones included.
    pub fn clear(&mut self) -> (r: std::io::Result<()>)
        requires
            old(self)@.current < 2,
        ensures
            r is Ok ==> final(self)@ == (TerminalView {
                backend: final(self)@.backend,
                previous_buffer: final(self)@.previous_buffer,
                ..old(self)@
            }) && is_invalidated_of(final(self)@.previous_buffer, old(self)@.previous_buffer),
            r is Err ==> final(self)@ == (TerminalView { backend: final(self)@.backend, ..old(self)@ }),
            r is Ok ==> keeps_tracking(old(self)@.backend.screen(), final(self)@.backend.screen()),
            r is Ok && screen_ok(old(self)@.backend.screen()) ==> final(self)@.backend.screen().cells
                == cleared_screen(
                old(self)@.backend.screen().cells,
                old(self)@.backend.screen().size.width,
                old(self)@.viewport,
                old(self)@.viewport_area,
            ),
            r is Ok && screen_ok(old(self)@.backend.screen()) ==> final(self)@.backend.screen()
                == (ScreenState {
                cells: final(self)@.backend.screen().cells,
                cursor: final(self)@.backend.screen().cursor,
                ..old(self)@.backend.screen()
            }),
            r is Ok && old(self).fits_screen() ==> final(self).screen_in_sync(),
            r is Ok && old(self).buffers_fit() && (forall|i: int|
                0 <= i < old(self)@.current_buffer.cells().len()
                    ==> !old(self)@.current_buffer.cells()[i].stale) ==> diff_cells(
                final(self)@.previous_buffer.area,
                final(self)@.previous_buffer.cells(),
                final(self)@.current_buffer.cells(),
            ) == all_cells_prefix(
                final(self)@.previous_buffer.area,
                final(self)@.current_buffer.cells(),
                final(self)@.current_buffer.cells().len(),
            ),
            old(self)@.viewport is Fixed && old(self)@.viewport_area.y >= sat_add(
                old(self)@.viewport_area.y,
                old(self)@.viewport_area.height,
            ) ==> r is Ok,
    {
        match self.viewport {
            Viewport::Fullscreen => self.backend.clear_region(crate::backend::ClearType::All)?,
            Viewport::Inline(_) => {
                self.backend.set_cursor_position(self.viewport_area.as_position())?;
                self.backend.clear_region(crate::backend::ClearType::AfterCursor)?;
            },
            Viewport::Fixed(_) => {
                let area = self.viewport_area;
                let mut y = area.top();
                let bottom = area.bottom();
                while y < bottom
                    invariant
                        self@ == (TerminalView { backend: self@.backend, ..old(self)@ }),
                        keeps_tracking(old(self)@.backend.screen(), self@.backend.screen()),
                        screen_ok(old(self)@.backend.screen()) ==> self@.backend.screen() == (
                        ScreenState {
                            cells: self@.backend.screen().cells,
                            cursor: self@.backend.screen().cursor,
                            ..old(self)@.backend.screen()
                        }),
                        area == old(self)@.viewport_area,
                        bottom == sat_add(area.y, area.height),
                        area.y <= y <= bottom,
                        screen_ok(old(self)@.backend.screen()) ==> self@.backend.screen().cells == if y
                            == area.y {
                            old(self)@.backend.screen().cells
                        } else {
                            clear_cells(
                                old(self)@.backend.screen().cells,
                                area.y * old(self)@.backend.screen().size.width,
                                old(self)@.backend.screen().cells.len() as int,
                            )
                        },
                    decreases bottom - y,
                {
                    self.backend.set_cursor_position(Position { x: 0, y })?;
                    self.backend.clear_region(crate::backend::ClearType::AfterCursor)?;
                    proof {
                        let w = old(self)@.backend.screen().size.width as int;
                        let before = old(self)@.backend.screen().cells;
                        if screen_ok(old(self)@.backend.screen()) && y > area.y {
                            assert(y * w >= area.y * w) by (nonlinear_arith)
                                requires
                                    y > area.y,
                                    w >= 0,
                            ;
                            assert(clear_cells(
                                clear_cells(before, area.y * w, before.len() as int),
                                y * w,
                                before.len() as int,
                            ) =~= clear_cells(before, area.y * w, before.len() as int));
                        }
                    }
                    y += 1;
                }
            },
        }
        let previous = 1 - self.current;
        self.buffers[previous].invalidate();
        proof {
            if old(self).buffers_fit() && (forall|i: int|
                0 <= i < old(self)@.current_buffer.cells().len()
                    ==> !old(self)@.current_buffer.cells()[i].stale) {
                crate::buffer::law_invalidated_buffer_redraws_everything(
                    self@.previous_buffer.area,
                    self@.previous_buffer.cells(),
                    self@.current_buffer.cells(),
                );
            }
        }
        Ok(())
    }

    /// Clears the previous buffer and makes it the current one; the current buffer becomes
    /// the previous one.
    pub fn swap_buffers(&mut self)
        requires
            old(self)@.current < 2,
        ensures
            final(self)@ == (TerminalView {
                current: (1 - old(self)@.current) as usize,
                current_buffer: final(self)@.current_buffer,
                previous_buffer: old(self)@.current_buffer,
                ..old(self)@
            }),
            is_reset_of(final(self)@.current_buffer, old(self)@.previous_buffer),
    {
        let previous = 1 - self.current;
        self.buffers[previous].reset();
        self.current = previous;
    }

    /// The size of the screen, from the backend.
    pub fn size(&self) -> (r: std::io::Result<Size>)
        ensures
            screen_ok(self@.backend.screen()) ==> (r matches Ok(size) ==> size
                == self@.backend.screen().size),
    {
        self.backend.size()
    }

    /// Hides the cursor.
    pub fn hide_cursor(&mut self) -> (r: std::io::Result<()>)
        ensures
            r is Ok ==> final(self)@ == (TerminalView {
                backend: final(self)@.backend,
                hidden_cursor: true,
                ..old(self)@
            }),
            r is Err ==> final(self)@ == (TerminalView { backend: final(self)@.backend, ..old(self)@ }),
            r is Ok ==> keeps_cells(old(self)@.backend.screen(), final(self)@.backend.screen()),
            r is Ok && screen_ok(old(self)@.backend.screen()) ==> final(self)@.backend.screen() == (
            ScreenState { cursor_visible: false, ..old(self)@.backend.screen() }),
            r is Ok && old(self).screen_in_sync() ==> final(self).screen_in_sync(),
    {
        self.backend.hide_cursor()?;
        self.hidden_cursor = true;
        Ok(())
    }

    /// Shows the cursor.
    pub fn show_cursor(&mut self) -> (r: std::io::Result<()>)
        ensures
            r is Ok ==> final(self)@ == (TerminalView {
                backend: final(self)@.backend,
                hidden_cursor: false,
                ..old(self)@
            }),
            r is Err ==> final(self)@ == (TerminalView { backend: final(self)@.backend, ..old(self)@ }),
            r is Ok ==> keeps_cells(old(self)@.backend.screen(), final(self)@.backend.screen()),
            r is Ok && screen_ok(old(self)@.backend.screen()) ==> final(self)@.backend.screen() == (
            ScreenState { cursor_visible: true, ..old(self)@.backend.screen() }),
            r is Ok && old(self).screen_in_sync() ==> final(self).screen_in_sync(),
    {
        self.backend.show_cursor()?;
        self.hidden_cursor = false;
        Ok(())
    }

    /// The position of the cursor, as `(x, y)`, from the backend;
    /// [`Terminal::get_cursor_position`] is the better name for it.
    pub fn get_cursor(&mut self) -> (r: std::io::Result<(u16, u16)>)
        ensures
            final(self)@ == (TerminalView { backend: final(self)@.backend, ..old(self)@ }),
            r is Ok ==> keeps_screen(old(self)@.backend.screen(), final(self)@.backend.screen()),
            screen_ok(old(self)@.backend.screen()) ==> (r matches Ok(p) ==> (Position {
                x: p.0,
                y: p.1,
            }) == old(self)@.backend.screen().cursor),
            r is Ok && old(self).screen_in_sync() ==> final(self).screen_in_sync(),
    {
        let Position { x, y } = self.get_cursor_position()?;
        Ok((x, y))
    }

    /// Moves the cursor to column `x`, row `y`; [`Terminal::set_cursor_position`] is the
    /// better name for it.
    pub fn set_cursor(&mut self, x: u16, y: u16) -> (r: std::io::Result<()>)
        ensures
            r is Ok ==> final(self)@ == (TerminalView {
                backend: final(self)@.backend,
                last_known_cursor_pos: Position { x, y },
                ..old(self)@
            }),
            r is Err ==> final(self)@ == (TerminalView { backend: final(self)@.backend, ..old(self)@ }),
            r is Ok ==> keeps_cells(old(self)@.backend.screen(), final(self)@.backend.screen()),
            r is Ok && screen_ok(old(self)@.backend.screen()) ==> final(self)@.backend.screen().cursor
                == (Position { x, y }),
            r is Ok && old(self).screen_in_sync() ==> final(self).screen_in_sync(),
    {
        self.move_cursor(Position { x, y })
    }

    /// The position of the cursor, from the backend.
    pub fn get_cursor_position(&mut self) -> (r: std::io::Result<Position>)
        ensures
            final(self)@ == (TerminalView { backend: final(self)@.backend, ..old(self)@ }),
            r is Ok ==> keeps_screen(old(self)@.backend.screen(), final(self)@.backend.screen()),
            screen_ok(old(self)@.backend.screen()) ==> (r matches Ok(p) ==> p
                == old(self)@.backend.screen().cursor),
            r is Ok && old(self).screen_in_sync() ==> final(self).screen_in_sync(),
    {
        self.backend.get_cursor_position()
    }

    /// Moves the cursor to `position` and remembers it.
    pub fn set_cursor_position<P: Into<Position>>(&mut self, position: P) -> (r: std::io::Result<
        (),
    >)
        ensures
            final(self)@ == (TerminalView {
                backend: final(self)@.backend,
                last_known_cursor_pos: final(self)@.last_known_cursor_pos,
                ..old(self)@
            }),
            r is Err ==> final(self)@.last_known_cursor_pos == old(self)@.last_known_cursor_pos,
            r is Ok && P::obeys_into_spec() ==> final(self)@.last_known_cursor_pos
                == position.into_spec(),
            r is Ok ==> keeps_cells(old(self)@.backend.screen(), final(self)@.backend.screen()),
            r is Ok && P::obeys_into_spec() && screen_ok(old(self)@.backend.screen())
                ==> final(self)@.backend.screen().cursor == position.into_spec(),
            r is Ok && old(self).screen_in_sync() ==> final(self).screen_in_sync(),
    {
        let position: Position = position.into();
        self.move_cursor(position)
    }

    fn move_cursor(&mut self, position: Position) -> (r: std::io::Result<()>)
        ensures
            r is Ok ==> final(self)@ == (TerminalView {
                backend: final(self)@.backend,
                last_known_cursor_pos: position,
                ..old(self)@
            }),
            r is Err ==> final(self)@ == (TerminalView { backend: final(self)@.backend, ..old(self)@ }),
            r is Ok ==> keeps_cells(old(self)@.backend.screen(), final(self)@.backend.screen()),
            r is Ok && screen_ok(old(self)@.backend.screen()) ==> final(self)@.backend.screen() == (
            ScreenState { cursor: position, ..old(self)@.backend.screen() }),
    {
        self.backend.set_cursor_position(position)?;
        self.last_known_cursor_pos = position;
        Ok(())
    }

    /// Changes the viewport to follow a screen of `area` and clears it, which makes the next
    /// draw write everything. An inline viewport is placed anew at the cursor; the others
    /// take `area`.
    pub fn resize(&mut self, area: Rect) -> (r: std::io::Result<()>)
        requires
            old(self)@.current < 2,
        ensures
            final(self)@.current < 2,
            final(self)@.viewport == old(self)@.viewport,
            final(self)@.frame_count == old(self)@.frame_count,
            r is Ok ==> final(self).wf() && final(self).buffers_fit() && is_resized_state(
                old(self)@,
                final(self)@,
                area,
            ),
            r is Ok ==> keeps_tracking(old(self)@.backend.screen(), final(self)@.backend.screen()),
            r is Ok && screen_ok(old(self)@.backend.screen()) && !(old(self)@.viewport is Inline)
                && area == (Rect {
                x: 0,
                y: 0,
                width: old(self)@.backend.screen().size.width,
                height: old(self)@.backend.screen().size.height,
            }) ==> final(self).screen_in_sync(),
            old(self)@.viewport is Fixed && area.y >= sat_add(area.y, area.height) ==> r is Ok,
            r is Err ==> resize_failed(old(self)@, final(self)@, area),
            r is Ok && screen_ok(old(self)@.backend.screen()) ==> (old(self)@.viewport matches Viewport::Inline(
                height,
            ) ==> final(self)@.viewport_area == inline_area(
                height,
                Size { width: area.width, height: area.height },
                sat_sub(old(self)@.last_known_cursor_pos.y, old(self)@.viewport_area.y),
                old(self)@.backend.screen().cursor,
            )),
            r is Ok && screen_ok(old(self)@.backend.screen()) ==> final(self)@.backend.screen().cells
                == cleared_screen(
                match old(self)@.viewport {
                    Viewport::Inline(height) => appended_screen(
                        old(self)@.backend.screen(),
                        inline_lines_after_cursor(
                            height,
                            sat_sub(old(self)@.last_known_cursor_pos.y, old(self)@.viewport_area.y),
                        ),
                    ),
                    _ => old(self)@.backend.screen().cells,
                },
                old(self)@.backend.screen().size.width,
                old(self)@.viewport,
                final(self)@.viewport_area,
            ),
    {
        let next_area = match self.viewport {
            Viewport::Inline(height) => {
                let offset_in_previous_viewport = self.last_known_cursor_pos.y.saturating_sub(
                    self.viewport_area.top(),
                );
                let (next, cursor) = compute_inline_size(
                    &mut self.backend,
                    height,
                    area.as_size(),
                    offset_in_previous_viewport,
                )?;
                proof {
                    assert(next == inline_area(
                        height,
                        Size { width: area.width, height: area.height },
                        sat_sub(old(self)@.last_known_cursor_pos.y, old(self)@.viewport_area.y),
                        cursor,
                    ));
                    assert(placed_area(old(self)@, area, next));
                }
                next
            },
            Viewport::Fixed(_) | Viewport::Fullscreen => area,
        };
        self.set_viewport_area(next_area);
        self.clear()?;
        self.last_known_area = area;
        Ok(())
    }

    /// Asks the backend for the size of the screen and resizes when it changed. A fixed
    /// viewport is never resized.
    pub fn autoresize(&mut self) -> (r: std::io::Result<()>)
        requires
            old(self)@.current < 2,
        ensures
            final(self)@.current < 2,
            final(self)@.viewport == old(self)@.viewport,
            final(self)@.frame_count == old(self)@.frame_count,
            old(self)@.viewport is Fixed ==> r is Ok,
            old(self).fits_screen() ==> final(self)@ == old(self)@,
            r is Ok ==> autoresized(old(self)@, final(self)@),
            r is Ok ==> keeps_tracking(old(self)@.backend.screen(), final(self)@.backend.screen()),
            r is Ok && old(self).wf() ==> final(self).wf(),
            r is Ok && final(self)@.last_known_area != old(self)@.last_known_area
                ==> final(self).buffers_fit(),
            r is Err ==> autoresize_failed(old(self)@, final(self)@),
    {
        if matches!(self.viewport, Viewport::Fullscreen | Viewport::Inline(_)) {
            let size = self.size()?;
            let area = Rect::from((Position::origin(), size));
            if area != self.last_known_area {
                let resized = self.resize(area);
                if resized.is_err() {
                    proof {
                        assert(resize_failed(old(self)@, self@, area));
                    }
                    return resized;
                }
            }
        }
        Ok(())
    }

    /// Ends a frame: writes it to the backend (through the scrollback when rows were captured),
    /// places or hides the cursor, swaps the buffers and counts the frame.
    fn complete_frame(
        &mut self,
        cursor_position: Option<Position>,
        scroll_snapshot: Option<ScrollSnapshot>,
    ) -> (r: std::io::Result<CompletedFrame<'_>>)
        requires
            old(self)@.current < 2,
        ensures
            final(self)@.current < 2,
            final(self)@.viewport == old(self)@.viewport,
            final(self)@.viewport_area == old(self)@.viewport_area,
            final(self)@.last_known_area == old(self)@.last_known_area,
            r is Ok && old(self).wf() ==> final(self).wf(),
            r matches Ok(completed) ==> {
                &&& completed.count == old(self)@.frame_count
                &&& final(self)@.frame_count == old(self)@.frame_count.wrapping_add(1)
                &&& completed.area == final(self)@.last_known_area
                &&& *completed.buffer == final(self)@.previous_buffer
                &&& final(self)@.previous_buffer == old(self)@.current_buffer
                &&& is_reset_of(final(self)@.current_buffer, old(self)@.previous_buffer)
                &&& final(self)@.current == 1 - old(self)@.current
                &&& final(self)@.hidden_cursor == cursor_position is None
                &&& cursor_position matches Some(p) ==> final(self)@.last_known_cursor_pos == p
            },
            r is Err ==> frame_write_failed(
                old(self)@,
                final(self)@,
                cursor_position,
                streamed_lines(snapshot_view(scroll_snapshot)),
            ),
            r is Ok && screen_ok(old(self)@.backend.screen()) && old(self)@.previous_buffer.area
                == old(self)@.viewport_area && (streamed_lines(snapshot_view(scroll_snapshot)) == 0
                || old(self)@.viewport_area.height == old(self)@.backend.screen().size.height)
                ==> final(self)@.backend.screen().cells == written_frame(
                old(self)@.backend.screen().cells,
                old(self)@.backend.screen().size,
                old(self)@.viewport_area,
                old(self)@.previous_buffer.cells(),
                old(self)@.current_buffer.cells(),
                streamed_lines(snapshot_view(scroll_snapshot)),
            ),
            r is Ok && screen_ok(old(self)@.backend.screen()) && (streamed_lines(
                snapshot_view(scroll_snapshot),
            ) == 0 || old(self)@.viewport_area.height == old(self)@.backend.screen().size.height)
                ==> {
                &&& final(self)@.backend.screen().scrollback == old(self)@.backend.screen().scrollback
                    + streamed_rows(
                    snapshot_view(scroll_snapshot),
                    old(self)@.backend.screen().size.width,
                )
                &&& final(self)@.backend.screen().streamed_wraps
                    == old(self)@.backend.screen().streamed_wraps + streamed_wraps(
                    snapshot_view(scroll_snapshot),
                )
            },
            r is Ok && screen_ok(old(self)@.backend.screen()) ==> {
                &&& final(self)@.backend.screen().cursor_visible == cursor_position is Some
                &&& cursor_position matches Some(p) ==> final(self)@.backend.screen().cursor == p
                &&& screen_ok(final(self)@.backend.screen())
                &&& final(self)@.backend.screen().size == old(self)@.backend.screen().size
            },
            r is Ok && old(self).screen_in_sync() && (streamed_lines(snapshot_view(scroll_snapshot))
                == 0 || old(self)@.viewport_area == whole_screen(old(self)@.backend.screen().size))
                ==> final(self).screen_in_sync(),
    {
        let ghost lines = streamed_lines(snapshot_view(scroll_snapshot));
        match scroll_snapshot {
            Some(snapshot) => self.flush_with_scroll(snapshot)?,
            None => self.flush()?,
        }
        proof {
            if old(self).screen_in_sync() && (lines == 0 || old(self)@.viewport_area
                == whole_screen(old(self)@.backend.screen().size)) {
                law_written_frame_in_sync(
                    old(self)@.backend.screen().cells,
                    old(self)@.backend.screen().size,
                    old(self)@.viewport_area,
                    old(self)@.previous_buffer.cells(),
                    old(self)@.current_buffer.cells(),
                    lines,
                );
            }
        }
        match cursor_position {
            None => self.hide_cursor()?,
            Some(position) => {
                self.show_cursor()?;
                self.move_cursor(position)?;
            },
        }
        self.swap_buffers();
        self.backend.flush()?;
        let count = self.frame_count;
        self.frame_count = count.wrapping_add(1);
        Ok(
            CompletedFrame {
                buffer: &self.buffers[1 - self.current],
                area: self.last_known_area,
                count,
            },
        )
    }

    /// Draws one frame: resizes to the screen when needed, lets `render_callback` render into
    /// a [`Frame`], writes the changes to the backend, places or hides the cursor as the frame
    /// asked, swaps the buffers and counts the frame.
    pub fn draw<F: FnOnce(&mut Frame)>(&mut self, render_callback: F) -> (r: std::io::Result<
        CompletedFrame<'_>,
    >)
        requires
            old(self)@.current < 2,
            forall|f: &mut Frame|
                f@.buffer.area == f@.viewport_area && f@.buffer.wf() ==> #[trigger] call_requires(
                    render_callback,
                    (f,),
                ),
            !old(self).buffers_fit() ==> forall|f: &mut Frame| #[trigger]
                call_requires(render_callback, (f,)),
        ensures
            final(self)@.current < 2,
            final(self)@.viewport == old(self)@.viewport,
            r is Ok && old(self).wf() ==> final(self).wf(),
            old(self)@.viewport is Fixed ==> final(self)@.viewport_area == old(self)@.viewport_area
                && final(self)@.last_known_area == old(self)@.last_known_area,
            r matches Ok(completed) ==> {
                &&& completed.count == old(self)@.frame_count
                &&& final(self)@.frame_count == old(self)@.frame_count.wrapping_add(1)
                &&& completed.area == final(self)@.last_known_area
                &&& *completed.buffer == final(self)@.previous_buffer
                &&& final(self)@.current == 1 - old(self)@.current
                &&& forall|i: int|
                    0 <= i < final(self)@.current_buffer.cells().len() ==> final(self)@.current_buffer.cells()[i] == blank_cell()
            },
            r is Err ==> final(self)@.frame_count == old(self)@.frame_count,
            r is Err ==> autoresize_failed(old(self)@, final(self)@) || exists|fr: &mut Frame|
                #[trigger] call_ensures(render_callback, (fr,), ()) && frame_failed(
                    old(self)@,
                    final(self)@,
                    (*fr)@,
                    (*final(fr))@,
                    *final((*fr).buffer_ref()),
                ),
            r is Ok && old(self).buffers_fit() ==> final(self)@.current_buffer.area
                == final(self)@.viewport_area && final(self)@.current_buffer.wf(),
            r is Ok && old(self).fits_screen() && old(self)@.viewport_area.height
                == old(self)@.backend.screen().size.height ==> exists|lines: usize|
                final(self)@.backend.screen().cells == #[trigger] written_frame(
                    old(self)@.backend.screen().cells,
                    old(self)@.backend.screen().size,
                    old(self)@.viewport_area,
                    old(self)@.previous_buffer.cells(),
                    final(self)@.previous_buffer.cells(),
                    lines,
                ),
            r is Ok && old(self).screen_in_sync() && old(self)@.viewport_area == whole_screen(
                old(self)@.backend.screen().size,
            ) && final(self)@.previous_buffer.area == old(self)@.viewport_area
                && final(self)@.previous_buffer.wf() ==> final(self).screen_in_sync(),
            r is Ok ==> exists|fr: &mut Frame|
                #[trigger] call_ensures(render_callback, (fr,), ()) && drew_frame(
                    old(self)@,
                    final(self)@,
                    (*fr)@,
                    (*final(fr))@,
                    *final((*fr).buffer_ref()),
                ),
    {
        self.autoresize()?;
        let ghost mid = self@;
        let mut frame = self.get_frame();
        proof {
            assert(began_frame(old(self)@, mid, frame@));
        }
        render_callback(&mut frame);
        let (cursor_position, scroll_snapshot) = frame.finish();
        proof {
            self.lemma_resized_in_sync(old(self)@, mid);
        }
        self.complete_frame(cursor_position, scroll_snapshot)
    }

    /// Draws one frame like [`Terminal::draw`], with a render callback that can fail; its
    /// error is turned into an input/output error and returned, and nothing is written.
    pub fn try_draw<F, E>(&mut self, render_callback: F) -> (r: std::io::Result<
        CompletedFrame<'_>,
    >) where F: FnOnce(&mut Frame) -> Result<(), E>, E: Into<std::io::Error>
        requires
            old(self)@.current < 2,
            forall|f: &mut Frame|
                f@.buffer.area == f@.viewport_area && f@.buffer.wf() ==> #[trigger] call_requires(
                    render_callback,
                    (f,),
                ),
            !old(self).buffers_fit() ==> forall|f: &mut Frame| #[trigger]
                call_requires(render_callback, (f,)),
        ensures
            final(self)@.current < 2,
            final(self)@.viewport == old(self)@.viewport,
            r is Ok && old(self).wf() ==> final(self).wf(),
            old(self)@.viewport is Fixed ==> final(self)@.viewport_area == old(self)@.viewport_area
                && final(self)@.last_known_area == old(self)@.last_known_area,
            r matches Ok(completed) ==> {
                &&& completed.count == old(self)@.frame_count
                &&& final(self)@.frame_count == old(self)@.frame_count.wrapping_add(1)
                &&& completed.area == final(self)@.last_known_area
                &&& *completed.buffer == final(self)@.previous_buffer
                &&& final(self)@.current == 1 - old(self)@.current
                &&& forall|i: int|
                    0 <= i < final(self)@.current_buffer.cells().len() ==> final(self)@.current_buffer.cells()[i] == blank_cell()
            },
            r is Err ==> final(self)@.frame_count == old(self)@.frame_count,
            r is Err ==> {
                ||| autoresize_failed(old(self)@, final(self)@)
                ||| exists|fr: &mut Frame, e: E|
                    #[trigger] call_ensures(render_callback, (fr,), Err(e)) && render_failed(
                        old(self)@,
                        final(self)@,
                        (*fr)@,
                        *final((*fr).buffer_ref()),
                    ) && (E::obeys_into_spec() ==> (r matches Err(err) && err == e.into_spec()))
                ||| exists|fr: &mut Frame, rendered: Result<(), E>|
                    #[trigger] call_ensures(render_callback, (fr,), rendered) && rendered is Ok
                        && frame_failed(
                        old(self)@,
                        final(self)@,
                        (*fr)@,
                        (*final(fr))@,
                        *final((*fr).buffer_ref()),
                    )
            },
            r is Ok && old(self).buffers_fit() ==> final(self)@.current_buffer.area
                == final(self)@.viewport_area && final(self)@.current_buffer.wf(),
            r is Ok && old(self).fits_screen() && old(self)@.viewport_area.height
                == old(self)@.backend.screen().size.height ==> exists|lines: usize|
                final(self)@.backend.screen().cells == #[trigger] written_frame(
                    old(self)@.backend.screen().cells,
                    old(self)@.backend.screen().size,
                    old(self)@.viewport_area,
                    old(self)@.previous_buffer.cells(),
                    final(self)@.previous_buffer.cells(),
                    lines,
                ),
            r is Ok && old(self).screen_in_sync() && old(self)@.viewport_area == whole_screen(
                old(self)@.backend.screen().size,
            ) && final(self)@.previous_buffer.area == old(self)@.viewport_area
                && final(self)@.previous_buffer.wf() ==> final(self).screen_in_sync(),
            r is Ok ==> exists|fr: &mut Frame, rendered: Result<(), E>|
                #[trigger] call_ensures(render_callback, (fr,), rendered) && rendered is Ok
                    && drew_frame(
                    old(self)@,
                    final(self)@,
                    (*fr)@,
                    (*final(fr))@,
                    *final((*fr).buffer_ref()),
                ),
    {
        self.autoresize()?;
        let ghost mid = self@;
        let mut frame = self.get_frame();
        let ghost start = frame@;
        proof {
            assert(began_frame(old(self)@, mid, start));
        }
        let rendered = render_callback(&mut frame);
        let (cursor_position, scroll_snapshot) = frame.finish();
        match rendered {
            Ok(()) => {},
            Err(e) => {
                proof {
                    assert(render_failed(old(self)@, self@, start, self@.current_buffer));
                }
                return Err(e.into());
            },
        }
        proof {
            self.lemma_resized_in_sync(old(self)@, mid);
        }
        self.complete_frame(cursor_position, scroll_snapshot)
    }

    /// Inserts `height` rows, drawn by `draw_fn` into a buffer as wide as the viewport, above
    /// an inline viewport. The viewport moves down by the rows inserted while there is room
    /// below it; past that, the screen above it scrolls up, and rows that do not fit on the
    /// screen go straight into the scrollback. Other viewports are left alone.
    pub fn insert_before<F: FnOnce(&mut Buffer)>(&mut self, height: u16, draw_fn: F) -> (r:
        std::io::Result<()>)
        requires
            old(self).wf(),
            old(self)@.viewport is Inline && height > 0 ==> old(self)@.last_known_area.height > 0,
            forall|b: &mut Buffer|
                is_blank_buffer(
                    *b,
                    Rect { x: 0, y: 0, width: old(self)@.viewport_area.width, height },
                ) ==> #[trigger] call_requires(draw_fn, (b,)),
        ensures
            final(self).wf(),
            r is Ok ==> keeps_tracking(old(self)@.backend.screen(), final(self)@.backend.screen()),
            !(old(self)@.viewport is Inline) ==> r is Ok && final(self)@ == old(self)@,
            r is Ok && old(self)@.viewport is Inline && old(self).fits_screen()
                ==> final(self).screen_in_sync(),
            r is Ok && old(self)@.viewport is Inline && old(self).fits_screen()
                ==> exists|b: &mut Buffer|
                #[trigger] call_ensures(draw_fn, (b,), ()) && is_blank_buffer(
                    *b,
                    Rect { x: 0, y: 0, width: old(self)@.viewport_area.width, height },
                ) && final(self)@.backend.screen().cells == inserted_screen(
                    old(self)@.backend.screen().cells,
                    old(self)@.backend.screen().size.width as int,
                    old(self)@.viewport_area.y as int,
                    fitted((*final(b)).cells(), height * old(self)@.backend.screen().size.width),
                    final(self)@.viewport_area.y as int,
                ) && final(self)@.backend.screen().scrollback == old(self)@.backend.screen().scrollback
                    + inserted_back(
                    old(self)@.backend.screen().cells,
                    old(self)@.backend.screen().size.width as int,
                    old(self)@.viewport_area.y as int,
                    fitted((*final(b)).cells(), height * old(self)@.backend.screen().size.width),
                    final(self)@.viewport_area.y as int,
                ),
            old(self)@.viewport is Inline ==> final(self)@ == (TerminalView {
                backend: final(self)@.backend,
                last_known_cursor_pos: final(self)@.last_known_cursor_pos,
                viewport_area: final(self)@.viewport_area,
                current_buffer: final(self)@.current_buffer,
                previous_buffer: final(self)@.previous_buffer,
                ..old(self)@
            }),
            old(self)@.viewport is Inline && r is Ok ==> {
                &&& final(self)@.viewport_area == (Rect {
                    y: inserted_top(
                        old(self)@.viewport_area.y,
                        height,
                        old(self)@.last_known_area.height,
                        old(self)@.viewport_area.height,
                    ) as u16,
                    ..old(self)@.viewport_area
                })
                &&& is_resize_of(
                    final(self)@.current_buffer,
                    old(self)@.current_buffer,
                    final(self)@.viewport_area,
                )
                &&& final(self)@.previous_buffer.area == final(self)@.viewport_area
                &&& final(self)@.previous_buffer.wf()
                &&& forall|i: int|
                    0 <= i < final(self)@.previous_buffer.cells().len() ==> final(self)@.previous_buffer.cells()[i] == stale_cell()
            },
    {
        match self.viewport {
            Viewport::Inline(_) => self.insert_before_no_scrolling_regions(height, draw_fn),
            _ => Ok(()),
        }
    }

    #[verifier::rlimit(40)]
    #[verifier::spinoff_prover]
    fn insert_before_no_scrolling_regions<F: FnOnce(&mut Buffer)>(
        &mut self,
        height: u16,
        draw_fn: F,
    ) -> (r: std::io::Result<()>)
        requires
            old(self).wf(),
            old(self)@.viewport is Inline,
            height > 0 ==> old(self)@.last_known_area.height > 0,
            forall|b: &mut Buffer|
                is_blank_buffer(
                    *b,
                    Rect { x: 0, y: 0, width: old(self)@.viewport_area.width, height },
                ) ==> #[trigger] call_requires(draw_fn, (b,)),
        ensures
            final(self).wf(),
            r is Ok ==> keeps_tracking(old(self)@.backend.screen(), final(self)@.backend.screen()),
            r is Ok && old(self).fits_screen() ==> final(self).screen_in_sync(),
            r is Ok && old(self).fits_screen() ==> exists|b: &mut Buffer|
                #[trigger] call_ensures(draw_fn, (b,), ()) && is_blank_buffer(
                    *b,
                    Rect { x: 0, y: 0, width: old(self)@.viewport_area.width, height },
                ) && final(self)@.backend.screen().cells == inserted_screen(
                    old(self)@.backend.screen().cells,
                    old(self)@.backend.screen().size.width as int,
                    old(self)@.viewport_area.y as int,
                    fitted((*final(b)).cells(), height * old(self)@.backend.screen().size.width),
                    final(self)@.viewport_area.y as int,
                ) && final(self)@.backend.screen().scrollback == old(self)@.backend.screen().scrollback
                    + inserted_back(
                    old(self)@.backend.screen().cells,
                    old(self)@.backend.screen().size.width as int,
                    old(self)@.viewport_area.y as int,
                    fitted((*final(b)).cells(), height * old(self)@.backend.screen().size.width),
                    final(self)@.viewport_area.y as int,
                ),
            final(self)@ == (TerminalView {
                backend: final(self)@.backend,
                last_known_cursor_pos: final(self)@.last_known_cursor_pos,
                viewport_area: final(self)@.viewport_area,
                current_buffer: final(self)@.current_buffer,
                previous_buffer: final(self)@.previous_buffer,
                ..old(self)@
            }),
            r is Ok ==> {
                &&& final(self)@.viewport_area == (Rect {
                    y: inserted_top(
                        old(self)@.viewport_area.y,
                        height,
                        old(self)@.last_known_area.height,
                        old(self)@.viewport_area.height,
                    ) as u16,
                    ..old(self)@.viewport_area
                })
                &&& is_resize_of(
                    final(self)@.current_buffer,
                    old(self)@.current_buffer,
                    final(self)@.viewport_area,
                )
                &&& final(self)@.previous_buffer.area == final(self)@.viewport_area
                &&& final(self)@.previous_buffer.wf()
                &&& forall|i: int|
                    0 <= i < final(self)@.previous_buffer.cells().len() ==> final(self)@.previous_buffer.cells()[i] == stale_cell()
            },
    {
        let area = Rect { x: 0, y: 0, width: self.viewport_area.width, height };
        let mut buffer = Buffer::empty(area);
        draw_fn(&mut buffer);
        let line_width = self.last_known_area.width as usize;
        proof {
            crate::arith::lemma_grid_fits(line_width as int, height as int);
        }
        let ghost drawn = buffer.cells();
        let cells = fitted_cells(buffer.content, line_width * height as usize);
        let mut rest: &[Cell] = cells.as_slice();
        let ghost top = self.viewport_area.y as int;
        let ghost lw = line_width as int;
        proof {
            assert(cells@.map_values(|c: Cell| c@) =~= fitted(drawn, lw * height));
        }
        let ghost fitting = old(self).fits_screen();
        let ghost size = old(self)@.backend.screen().size;
        let ghost all = cells@.map_values(|c: Cell| c@);
        let ghost above = old(self)@.backend.screen().cells.subrange(0, top * lw);
        let ghost mut shown = above;
        let mut drawn_height: i32 = self.viewport_area.top() as i32;
        let mut buffer_height: i32 = height as i32;
        let viewport_height: i32 = self.viewport_area.height as i32;
        let screen_height: i32 = self.last_known_area.height as i32;
        proof {
            if fitting {
                crate::arith::lemma_mul_le(top, screen_height as int, lw);
                assert(screen_height * lw == lw * screen_height) by (nonlinear_arith);
                assert(lw * (height - buffer_height) == 0) by (nonlinear_arith)
                    requires
                        buffer_height == height,
                ;
                assert(rest@ =~= cells@.subrange(lw * (height - buffer_height), lw * height));
                assert(all.subrange(0, lw * (height - buffer_height)) =~= Seq::<CellView>::empty());
                assert(shown =~= above + all.subrange(0, lw * (height - buffer_height)));
                let sb = old(self)@.backend.screen().scrollback;
                assert(sb + shown.subrange(0, shown.len() - drawn_height * lw) =~= sb);
            }
        }
        while buffer_height + viewport_height > screen_height
            invariant
                self.wf(),
                self@.viewport is Inline,
                keeps_tracking(old(self)@.backend.screen(), self@.backend.screen()),
                self@ == (TerminalView {
                    backend: self@.backend,
                    last_known_cursor_pos: self@.last_known_cursor_pos,
                    ..old(self)@
                }),
                top == old(self)@.viewport_area.y,
                lw == old(self)@.last_known_area.width,
                line_width == lw,
                viewport_height == old(self)@.viewport_area.height,
                screen_height == old(self)@.last_known_area.height,
                viewport_height <= screen_height,
                0 <= buffer_height <= height,
                screen_height > 0 || buffer_height == 0,
                0 <= drawn_height <= u16::MAX,
                rest@.len() == lw * buffer_height,
                (if drawn_height + buffer_height <= screen_height - viewport_height {
                    drawn_height + buffer_height
                } else {
                    screen_height - viewport_height
                }) == inserted_top(
                    old(self)@.viewport_area.y,
                    height,
                    old(self)@.last_known_area.height,
                    old(self)@.viewport_area.height,
                ),
                cells@.len() == lw * height,
                all == cells@.map_values(|c: Cell| c@),
                fitting == old(self).fits_screen(),
                size == old(self)@.backend.screen().size,
                above == old(self)@.backend.screen().cells.subrange(0, top * lw),
                fitting ==> {
                    &&& screen_ok(self@.backend.screen())
                    &&& self@.backend.screen().size == size
                    &&& lw == size.width
                    &&& screen_height == size.height
                    &&& drawn_height <= screen_height
                    &&& rest@ == cells@.subrange(lw * (height - buffer_height), lw * height)
                    &&& shown == above + all.subrange(0, lw * (height - buffer_height))
                    &&& shows_tail(self@.backend.screen().cells, shown, drawn_height * lw)
                    &&& self@.backend.screen().scrollback == old(self)@.backend.screen().scrollback
                        + shown.subrange(0, shown.len() - drawn_height * lw)
                },
            decreases buffer_height,
        {
            let to_draw = if buffer_height < screen_height {
                buffer_height
            } else {
                screen_height
            };
            let scroll_up = if drawn_height + to_draw - screen_height > 0 {
                drawn_height + to_draw - screen_height
            } else {
                0
            };
            let ghost before_scroll = self@.backend.screen().cells;
            self.scroll_up(scroll_up as u16)?;
            proof {
                crate::arith::lemma_mul_le(to_draw as int, buffer_height as int, lw);
                assert(to_draw * lw == lw * to_draw) by (nonlinear_arith);
                assert(buffer_height * lw == lw * buffer_height) by (nonlinear_arith);
                if fitting {
                    crate::arith::lemma_mul_le(scroll_up as int, drawn_height as int, lw);
                    assert(scroll_up * lw == lw * scroll_up) by (nonlinear_arith);
                    lemma_tail_after_shift(before_scroll, shown, drawn_height * lw, scroll_up * lw);
                    assert((drawn_height - scroll_up) * lw == drawn_height * lw - scroll_up * lw)
                        by (nonlinear_arith);
                }
            }
            let ghost before_draw = self@.backend.screen().cells;
            let ghost chunk = rest@.subrange(0, lw * to_draw).map_values(|c: Cell| c@);
            rest = self.draw_lines((drawn_height - scroll_up) as u16, to_draw as u16, rest)?;
            proof {
                assert(lw * buffer_height - lw * to_draw == lw * (buffer_height - to_draw))
                    by (nonlinear_arith);
                if fitting {
                    let start = (drawn_height - scroll_up) * lw;
                    crate::arith::lemma_mul_le(
                        (drawn_height - scroll_up + to_draw) as int,
                        screen_height as int,
                        lw,
                    );
                    assert((drawn_height - scroll_up + to_draw) * lw == start + lw * to_draw)
                        by (nonlinear_arith)
                        requires
                            start == (drawn_height - scroll_up) * lw,
                    ;
                    assert(screen_height * lw == lw * screen_height) by (nonlinear_arith);
                    lemma_tail_after_overwrite(before_draw, shown, start, chunk);
                    let done = lw * (height - buffer_height);
                    assert(lw * (height - (buffer_height - to_draw)) == done + lw * to_draw)
                        by (nonlinear_arith)
                        requires
                            done == lw * (height - buffer_height),
                    ;
                    crate::arith::lemma_mul_le(
                        (height - (buffer_height - to_draw)) as int,
                        height as int,
                        lw,
                    );
                    crate::arith::lemma_mul_le(0, (height - buffer_height) as int, lw);
                    assert((height - (buffer_height - to_draw)) * lw == lw * (height - (
                    buffer_height - to_draw))) by (nonlinear_arith);
                    assert(height * lw == lw * height) by (nonlinear_arith);
                    assert((height - buffer_height) * lw == done) by (nonlinear_arith)
                        requires
                            done == lw * (height - buffer_height),
                    ;
                    assert(0 <= done <= done + lw * to_draw <= lw * height);
                    assert(chunk =~= all.subrange(done, done + lw * to_draw));
                    assert(all.subrange(0, done) + all.subrange(done, done + lw * to_draw)
                        =~= all.subrange(0, done + lw * to_draw));
                    assert(rest@ =~= cells@.subrange(done + lw * to_draw, lw * height));
                    shown = shown + chunk;
                }
            }
            drawn_height += to_draw - scroll_up;
            buffer_height -= to_draw;
        }
        let scroll_up = if drawn_height + buffer_height + viewport_height - screen_height > 0 {
            drawn_height + buffer_height + viewport_height - screen_height
        } else {
            0
        };
        let ghost before_scroll = self@.backend.screen().cells;
        self.scroll_up(scroll_up as u16)?;
        proof {
            if fitting {
                crate::arith::lemma_mul_le(scroll_up as int, drawn_height as int, lw);
                assert(scroll_up * lw == lw * scroll_up) by (nonlinear_arith);
                lemma_tail_after_shift(before_scroll, shown, drawn_height * lw, scroll_up * lw);
                assert((drawn_height - scroll_up) * lw == drawn_height * lw - scroll_up * lw)
                    by (nonlinear_arith);
            }
        }
        let ghost before_draw = self@.backend.screen().cells;
        let ghost chunk = rest@.subrange(0, lw * buffer_height).map_values(|c: Cell| c@);
        self.draw_lines((drawn_height - scroll_up) as u16, buffer_height as u16, rest)?;
        proof {
            if fitting {
                let start = (drawn_height - scroll_up) * lw;
                crate::arith::lemma_mul_le(
                    (drawn_height - scroll_up + buffer_height) as int,
                    screen_height as int,
                    lw,
                );
                assert((drawn_height - scroll_up + buffer_height) * lw == start + lw * buffer_height)
                    by (nonlinear_arith)
                    requires
                        start == (drawn_height - scroll_up) * lw,
                ;
                assert(screen_height * lw == lw * screen_height) by (nonlinear_arith);
                lemma_tail_after_overwrite(before_draw, shown, start, chunk);
                let done = lw * (height - buffer_height);
                assert(done + lw * buffer_height == lw * height) by (nonlinear_arith)
                    requires
                        done == lw * (height - buffer_height),
                ;
                assert(chunk =~= all.subrange(done, lw * height));
                assert(all.subrange(0, done) + all.subrange(done, lw * height) =~= all);
                shown = shown + chunk;
                assert(shown == above + all);
            }
        }
        drawn_height += buffer_height - scroll_up;
        let viewport_area = self.viewport_area;
        self.set_viewport_area(Rect { y: drawn_height as u16, ..viewport_area });
        let ghost before_clear = self@.backend.screen().cells;
        self.clear()?;
        proof {
            if fitting {
                let final_cells = self@.backend.screen().cells;
                let target = inserted_screen(
                    old(self)@.backend.screen().cells,
                    lw,
                    top,
                    all,
                    drawn_height as int,
                );
                assert(final_cells =~= target) by {
                    assert forall|i: int| 0 <= i < final_cells.len() implies final_cells[i]
                        == target[i] by {
                        if i < drawn_height * lw {
                            assert(before_clear[i] == shown[shown.len() - drawn_height * lw + i]);
                        }
                    }
                }
                assert(all.len() == height * size.width) by (nonlinear_arith)
                    requires
                        all.len() == lw * height,
                        lw == size.width,
                ;
            }
        }
        Ok(())
    }

    /// Writes `lines_to_draw` rows of cells from `cells` at row `y_offset` down, and gives
    /// back the cells after them.
    fn draw_lines<'a>(&mut self, y_offset: u16, lines_to_draw: u16, cells: &'a [Cell]) -> (r:
        std::io::Result<&'a [Cell]>)
        requires
            old(self)@.last_known_area.width * lines_to_draw <= cells@.len(),
        ensures
            final(self)@ == (TerminalView { backend: final(self)@.backend, ..old(self)@ }),
            lines_to_draw == 0 ==> r is Ok && final(self)@ == old(self)@,
            r is Ok ==> keeps_tracking(old(self)@.backend.screen(), final(self)@.backend.screen()),
            r is Ok && screen_ok(old(self)@.backend.screen()) ==> final(self)@.backend.screen().scrollback
                == old(self)@.backend.screen().scrollback,
            r matches Ok(rest) ==> rest@ == cells@.subrange(
                old(self)@.last_known_area.width * lines_to_draw,
                cells@.len() as int,
            ),
            r is Ok && screen_ok(old(self)@.backend.screen()) && old(self)@.last_known_area.width
                == old(self)@.backend.screen().size.width && y_offset + lines_to_draw
                <= old(self)@.backend.screen().size.height ==> final(self)@.backend.screen().cells
                == overwrite(
                old(self)@.backend.screen().cells,
                y_offset * old(self)@.last_known_area.width,
                cells@.subrange(0, old(self)@.last_known_area.width * lines_to_draw).map_values(
                    |c: Cell| c@,
                ),
            ),
    {
        let width = self.last_known_area.width as usize;
        proof {
            crate::arith::lemma_grid_fits(width as int, lines_to_draw as int);
        }
        let (to_draw, remainder) = cells.split_at(width * lines_to_draw as usize);
        let ghost drawn = to_draw@.map_values(|c: Cell| c@);
        if lines_to_draw > 0 {
            let updates = if width == 0 {
                Vec::new()
            } else {
                line_updates_of(to_draw, width, y_offset)
            };
            let ghost before = self@.backend.screen();
            self.backend.draw(updates.as_slice())?;
            proof {
                if screen_ok(before) && width == before.size.width && y_offset + lines_to_draw
                    <= before.size.height {
                    if width == 0 {
                        assert(updates_view(updates@) =~= Seq::<(u16, u16, CellView)>::empty());
                        assert(drawn.len() == 0) by (nonlinear_arith)
                            requires
                                drawn.len() == width * lines_to_draw,
                                width == 0,
                        ;
                        assert(overwrite(before.cells, y_offset * width, drawn) =~= before.cells);
                    } else {
                        lemma_apply_line_updates(
                            before.cells,
                            before.size.width,
                            before.size.height,
                            drawn,
                            y_offset,
                            lines_to_draw as int,
                            drawn.len() as int,
                        );
                        assert(line_updates(drawn, width as int, y_offset as int).take(
                            drawn.len() as int,
                        ) =~= line_updates(drawn, width as int, y_offset as int));
                        assert(drawn.take(drawn.len() as int) =~= drawn);
                    }
                }
            }
            self.backend.flush()?;
        } else {
            proof {
                assert(drawn.len() == 0) by (nonlinear_arith)
                    requires
                        drawn.len() == width * lines_to_draw,
                        lines_to_draw == 0,
                ;
                assert(overwrite(self@.backend.screen().cells, y_offset * width, drawn)
                    =~= self@.backend.screen().cells);
            }
        }
        proof {
            assert(to_draw@.map_values(|c: Cell| c@) =~= cells@.subrange(
                0,
                width * lines_to_draw,
            ).map_values(|c: Cell| c@));
        }
        Ok(remainder)
    }

    /// Scrolls the whole screen up by `lines_to_scroll` rows, by writing line breaks at the
    /// bottom of the screen.
    fn scroll_up(&mut self, lines_to_scroll: u16) -> (r: std::io::Result<()>)
        ensures
            lines_to_scroll == 0 ==> r is Ok && final(self)@ == old(self)@,
            final(self)@ == (TerminalView {
                backend: final(self)@.backend,
                last_known_cursor_pos: final(self)@.last_known_cursor_pos,
                ..old(self)@
            }),
            lines_to_scroll > 0 && (r is Ok || final(self)@.last_known_cursor_pos
                != old(self)@.last_known_cursor_pos) ==> final(self)@.last_known_cursor_pos == (
            Position { x: 0, y: sat_sub(old(self)@.last_known_area.height, 1) }),
            r is Ok ==> keeps_tracking(old(self)@.backend.screen(), final(self)@.backend.screen()),
            r is Ok && screen_ok(old(self)@.backend.screen()) && old(self)@.last_known_area.height
                == old(self)@.backend.screen().size.height && old(self)@.last_known_area.height > 0
                ==> final(self)@.backend.screen().cells == shift_cells(
                old(self)@.backend.screen().cells,
                0,
                old(self)@.backend.screen().cells.len() as int,
                lines_to_scroll * old(self)@.backend.screen().size.width,
                true,
            ),
            r is Ok && screen_ok(old(self)@.backend.screen()) && old(self)@.last_known_area.height
                == old(self)@.backend.screen().size.height && old(self)@.last_known_area.height > 0
                ==> final(self)@.backend.screen() == (ScreenState {
                cells: final(self)@.backend.screen().cells,
                cursor: final(self)@.backend.screen().cursor,
                scrollback: old(self)@.backend.screen().scrollback + prefix_block(
                    old(self)@.backend.screen().cells,
                    old(self)@.backend.screen().cells.len() as int,
                    (lines_to_scroll * old(self)@.backend.screen().size.width) as nat,
                ),
                ..old(self)@.backend.screen()
            }),
    {
        proof {
            let cells = old(self)@.backend.screen().cells;
            let sb = old(self)@.backend.screen().scrollback;
            if lines_to_scroll == 0 {
                assert(shift_cells(cells, 0, cells.len() as int, 0, true) =~= cells);
                assert(sb + prefix_block(cells, cells.len() as int, 0) =~= sb);
            }
        }
        if lines_to_scroll > 0 {
            self.move_cursor(Position::new(0, self.last_known_area.height.saturating_sub(1)))?;
            self.backend.append_lines(lines_to_scroll)?;
        }
        Ok(())
    }

    /// Inserts `height` rows, drawn by `draw_fn` into a buffer as wide as the viewport, above
    /// an inline viewport, using the backend's scrolling regions so that the viewport need not
    /// be redrawn. While there is room below the viewport, it is scrolled down to open a gap
    /// for the rows; past that, the screen above it is scrolled up. When the viewport fills
    /// the screen, each row is drawn over its top row and scrolled into the scrollback, and
    /// the top row is drawn again. Other viewports are left alone.
    #[verifier::rlimit(90)]
    #[verifier::spinoff_prover]
    pub fn insert_before_scrolling_regions<F: FnOnce(&mut Buffer)>(
        &mut self,
        height: u16,
        draw_fn: F,
    ) -> (r: std::io::Result<()>)
        requires
            old(self).wf(),
            forall|b: &mut Buffer|
                is_blank_buffer(
                    *b,
                    Rect { x: 0, y: 0, width: old(self)@.viewport_area.width, height },
                ) ==> #[trigger] call_requires(draw_fn, (b,)),
        ensures
            final(self).wf(),
            r is Ok ==> keeps_tracking(old(self)@.backend.screen(), final(self)@.backend.screen()),
            !(old(self)@.viewport is Inline) ==> r is Ok && final(self)@ == old(self)@,
            final(self)@ == (TerminalView {
                backend: final(self)@.backend,
                viewport_area: final(self)@.viewport_area,
                current_buffer: final(self)@.current_buffer,
                previous_buffer: final(self)@.previous_buffer,
                ..old(self)@
            }),
            old(self)@.viewport is Inline && old(self)@.viewport_area.height
                == old(self)@.last_known_area.height ==> final(self)@ == (TerminalView {
                backend: final(self)@.backend,
                ..old(self)@
            }),
            buffers_moved(old(self)@, final(self)@),
            old(self)@.viewport is Inline && r is Ok && old(self)@.viewport_area.height
                != old(self)@.last_known_area.height ==> final(self)@.viewport_area == (Rect {
                y: region_inserted_top(
                    old(self)@.viewport_area,
                    height,
                    old(self)@.last_known_area,
                ) as u16,
                ..old(self)@.viewport_area
            }),
            r is Ok && old(self).screen_in_sync() ==> final(self).screen_in_sync(),
            r is Ok && old(self)@.viewport is Inline && old(self).fits_screen()
                && old(self)@.viewport_area.height == old(self)@.last_known_area.height
                && old(self)@.last_known_area.height > 0 ==> exists|b: &mut Buffer|
                #[trigger] call_ensures(draw_fn, (b,), ()) && is_blank_buffer(
                    *b,
                    Rect { x: 0, y: 0, width: old(self)@.viewport_area.width, height },
                ) && final(self)@.backend.screen().scrollback == old(self)@.backend.screen().scrollback
                    + pushed_rows(
                    fitted((*final(b)).cells(), height * old(self)@.backend.screen().size.width),
                    old(self)@.backend.screen().size.width as int,
                ),
            r is Ok && old(self)@.viewport is Inline && old(self).fits_screen()
                && old(self)@.viewport_area.height != old(self)@.last_known_area.height
                ==> exists|b: &mut Buffer|
                #[trigger] call_ensures(draw_fn, (b,), ()) && is_blank_buffer(
                    *b,
                    Rect { x: 0, y: 0, width: old(self)@.viewport_area.width, height },
                ) && final(self)@.backend.screen().cells == region_inserted_screen(
                    old(self)@.backend.screen().cells,
                    old(self)@.backend.screen().size.width as int,
                    old(self)@.viewport_area.y as int,
                    old(self)@.viewport_area.y + old(self)@.viewport_area.height,
                    over_blank(
                        fitted((*final(b)).cells(), height * old(self)@.backend.screen().size.width),
                    ),
                    final(self)@.viewport_area.y as int,
                ) && final(self)@.backend.screen().scrollback == old(self)@.backend.screen().scrollback
                    + inserted_back(
                    old(self)@.backend.screen().cells,
                    old(self)@.backend.screen().size.width as int,
                    old(self)@.viewport_area.y as int,
                    over_blank(
                        fitted((*final(b)).cells(), height * old(self)@.backend.screen().size.width),
                    ),
                    final(self)@.viewport_area.y as int,
                ),
    {
        if !matches!(self.viewport, Viewport::Inline(_)) {
            return Ok(());
        }
        let ghost requested = height;
        let mut height = height;
        let area = Rect { x: 0, y: 0, width: self.viewport_area.width, height };
        let mut buffer = Buffer::empty(area);
        draw_fn(&mut buffer);
        let line_width = self.last_known_area.width as usize;
        proof {
            crate::arith::lemma_grid_fits(line_width as int, height as int);
        }
        let ghost drawn = buffer.cells();
        let cells = fitted_cells(buffer.content, line_width * height as usize);
        let mut rest: &[Cell] = cells.as_slice();
        let ghost lw = line_width as int;
        let ghost synced = old(self).screen_in_sync();
        let ghost size = old(self)@.backend.screen().size;
        let ghost prev = old(self)@.previous_buffer.cells();
        let ghost fitting = old(self).fits_screen();
        let ghost all = cells@.map_values(|c: Cell| c@);
        let ghost screen0 = old(self)@.backend.screen().cells;
        proof {
            assert(all =~= fitted(drawn, lw * height));
        }
        if self.viewport_area.height == self.last_known_area.height {
            let mut first = true;
            let mut rows_left: u16 = height;
            proof {
                if synced {
                    crate::backend::lemma_region_of_whole_screen(
                        old(self)@.backend.screen().cells,
                        size,
                        prev,
                    );
                }
            }
            while rest.len() > 0
                invariant
                    self.wf(),
                    keeps_tracking(old(self)@.backend.screen(), self@.backend.screen()),
                    old(self)@.viewport is Inline,
                    old(self)@.viewport_area.height == old(self)@.last_known_area.height,
                    self@ == (TerminalView { backend: self@.backend, ..old(self)@ }),
                    lw == old(self)@.last_known_area.width,
                    rest@.len() == lw * rows_left,
                    synced == old(self).screen_in_sync(),
                    size == old(self)@.backend.screen().size,
                    prev == old(self)@.previous_buffer.cells(),
                    synced ==> {
                        &&& screen_ok(self@.backend.screen())
                        &&& self@.backend.screen().size == size
                        &&& old(self)@.viewport_area == whole_screen(size)
                        &&& forall|i: int|
                            0 <= i < prev.len() ==> #[trigger] prev[i].skip || prev[i].stale
                                || self@.backend.screen().cells[i] == prev[i] || (i < lw
                                && self@.backend.screen().cells[i] == blank_cell())
                    },
                    rows_left <= height,
                    fitting == old(self).fits_screen(),
                    all == cells@.map_values(|c: Cell| c@),
                    cells@.len() == lw * height,
                    first == (rows_left == height),
                    fitting && size.height > 0 ==> {
                        &&& screen_ok(self@.backend.screen())
                        &&& self@.backend.screen().size == size
                        &&& lw == size.width
                        &&& rest@ == cells@.subrange(lw * (height - rows_left), lw * height)
                        &&& self@.backend.screen().scrollback == old(self)@.backend.screen().scrollback
                            + pushed_rows(all.subrange(0, lw * (height - rows_left)), lw)
                        &&& !first ==> forall|i: int|
                            0 <= i < lw ==> #[trigger] self@.backend.screen().cells[i] == blank_cell()
                    },
                decreases rows_left,
            {
                proof {
                    if rows_left == 0 {
                        assert(lw * rows_left == 0) by (nonlinear_arith)
                            requires
                                rows_left == 0,
                        ;
                    }
                    assert(lw * rows_left == lw * (rows_left - 1) + lw) by (nonlinear_arith);
                }
                let ghost before = self@.backend.screen().cells;
                let ghost sb = self@.backend.screen().scrollback;
                let ghost was_first = first;
                let ghost old_rest = rest;
                rest = if first {
                    self.draw_lines(0, 1, rest)?
                } else {
                    self.draw_lines_over_cleared(0, 1, rest)?
                };
                first = false;
                let ghost drawn = self@.backend.screen().cells;
                self.backend.scroll_region_up(0..1, 1)?;
                proof {
                    if fitting && size.height > 0 {
                        let w = lw;
                        let done = lw * (height - rows_left);
                        let chunk = old_rest@.subrange(0, lw * 1).map_values(|c: Cell| c@);
                        assert(lw * (height - (rows_left - 1)) == done + lw) by (nonlinear_arith)
                            requires
                                done == lw * (height - rows_left),
                        ;
                        crate::arith::lemma_mul_le(
                            (height - (rows_left - 1)) as int,
                            height as int,
                            lw,
                        );
                        crate::arith::lemma_mul_le(0, (height - rows_left) as int, lw);
                        assert((height - (rows_left - 1)) * lw == lw * (height - (rows_left - 1)))
                            by (nonlinear_arith);
                        assert(height * lw == lw * height) by (nonlinear_arith);
                        assert((height - rows_left) * lw == done) by (nonlinear_arith)
                            requires
                                done == lw * (height - rows_left),
                        ;
                        assert(chunk =~= all.subrange(done, done + lw));
                        crate::arith::lemma_mul_le(1, size.height as int, lw);
                        assert(size.height * lw == lw * size.height) by (nonlinear_arith);
                        assert(min_u16(0, size.height) == 0);
                        assert(min_u16(1, size.height) == 1);
                        let row0 = drawn.subrange(0, lw);
                        assert(prefix_block(drawn, lw, (1 * lw) as nat) =~= row0);
                        if was_first {
                            assert(done == 0) by (nonlinear_arith)
                                requires
                                    done == lw * (height - rows_left),
                                    rows_left == height,
                            ;
                            assert(row0 =~= chunk);
                            assert(all.subrange(0, done) =~= Seq::<CellView>::empty());
                            assert(pushed_rows(all.subrange(0, done), lw) =~= Seq::<
                                CellView,
                            >::empty());
                            if lw > 0 {
                                assert(all.subrange(0, done + lw).subrange(lw, done + lw) =~= Seq::<
                                    CellView,
                                >::empty());
                                assert(pushed_rows(all.subrange(0, done + lw), lw) =~= chunk);
                            } else {
                                assert(all.subrange(0, done + lw) =~= Seq::<CellView>::empty());
                            }
                        } else {
                            assert(row0 =~= over_blank(chunk));
                            if lw > 0 {
                                assert(done >= lw) by (nonlinear_arith)
                                    requires
                                        done == lw * (height - rows_left),
                                        rows_left < height,
                                        lw > 0,
                                ;
                                assert(over_blank(all.subrange(0, done).subrange(lw, done))
                                    + over_blank(chunk) =~= over_blank(all.subrange(
                                    0,
                                    done + lw,
                                ).subrange(lw, done + lw)));
                                assert(all.subrange(0, done).subrange(0, lw) =~= all.subrange(
                                    0,
                                    done + lw,
                                ).subrange(0, lw));
                            } else {
                                assert(all.subrange(0, done + lw) =~= Seq::<CellView>::empty());
                                assert(all.subrange(0, done) =~= Seq::<CellView>::empty());
                                assert(over_blank(chunk) =~= Seq::<CellView>::empty());
                            }
                        }
                        assert(self@.backend.screen().scrollback =~= old(self)@.backend.screen().scrollback
                            + pushed_rows(all.subrange(0, done + lw), lw));
                        assert(rest@ =~= cells@.subrange(done + lw, lw * height));
                    }
                    if synced {
                        let after = self@.backend.screen().cells;
                        if size.height > 0 {
                            assert forall|i: int| 0 <= i < prev.len() implies #[trigger] prev[i].skip
                                || prev[i].stale || after[i] == prev[i] || (i < lw && after[i]
                                == blank_cell()) by {
                                if i >= lw {
                                    assert(drawn[i] == before[i]);
                                }
                            }
                        } else {
                            assert(prev.len() == 0) by (nonlinear_arith)
                                requires
                                    prev.len() == size.width * size.height,
                                    size.height == 0,
                            ;
                        }
                    }
                }
                rows_left = rows_left - 1;
            }
            proof {
                if fitting && size.height > 0 {
                    if lw == 0 {
                        assert(all.len() == 0) by (nonlinear_arith)
                            requires
                                all.len() == lw * height,
                                lw == 0,
                        ;
                    } else {
                        assert(rows_left == 0) by (nonlinear_arith)
                            requires
                                lw * rows_left == 0,
                                lw > 0,
                        ;
                    }
                    assert(all.subrange(0, lw * (height - rows_left)) =~= all);
                }
            }
            let previous = &self.buffers[1 - self.current];
            let mut top_line: Vec<Cell> = Vec::new();
            let mut i: usize = 0;
            while i < line_width
                invariant
                    top_line@.len() == i,
                    i <= line_width,
                    forall|j: int|
                        0 <= j < i ==> #[trigger] top_line@[j]@ == if j < previous.cells().len() {
                            previous.cells()[j]
                        } else {
                            blank_cell()
                        },
                decreases line_width - i,
            {
                if i < previous.content.len() {
                    top_line.push(previous.content[i].clone());
                } else {
                    top_line.push(Cell::empty());
                }
                i += 1;
            }
            let ghost before = self@.backend.screen().cells;
            let ghost pre = self@;
            self.draw_lines_over_cleared(0, 1, top_line.as_slice())?;
            proof {
                if synced {
                    let after = self@.backend.screen().cells;
                    assert(screen_ok(pre.backend.screen()));
                    assert(pre.last_known_area.width == pre.backend.screen().size.width);
                    assert(lw == pre.last_known_area.width);
                    if size.height > 0 {
                        assert(1 <= pre.backend.screen().size.height);
                        let tl = top_line@.subrange(0, lw * 1).map_values(|c: Cell| c@);
                        assert(after == drawn_over(before, 0, tl));
                        assert forall|i: int| 0 <= i < prev.len() implies #[trigger] prev[i].skip
                            || prev[i].stale || after[i] == prev[i] by {
                            assert(prev[i].skip || prev[i].stale || before[i] == prev[i] || (i < lw
                                && before[i] == blank_cell()));
                            if i < lw {
                                assert(top_line@[i]@ == prev[i]);
                                assert(tl[i] == prev[i]);
                            }
                        }
                    } else {
                        assert(prev.len() == 0) by (nonlinear_arith)
                            requires
                                prev.len() == size.width * size.height,
                                size.height == 0,
                        ;
                    }
                    crate::backend::lemma_region_of_whole_screen(after, size, prev);
                }
            }
            return Ok(());
        }
        let viewport_top = self.viewport_area.top();
        let viewport_bottom = self.viewport_area.bottom();
        let screen_bottom = self.last_known_area.bottom();
        let ghost top0 = viewport_top as int;
        let ghost bottom0 = viewport_bottom as int;
        let ghost above0 = screen0.subrange(0, top0 * lw);
        let ghost mut shown = above0;
        let ghost mut k: int = 0;
        proof {
            if fitting {
                crate::arith::lemma_mul_le(top0, size.height as int, lw);
                assert(size.height * lw == lw * size.height) by (nonlinear_arith);
                assert(lw * (requested - height) == 0) by (nonlinear_arith)
                    requires
                        requested == height,
                ;
                assert(over_blank(all.subrange(0, lw * (requested - height))) =~= Seq::<
                    CellView,
                >::empty());
                assert(shown =~= above0 + over_blank(all.subrange(0, lw * (requested - height))));
                assert(rest@ =~= cells@.subrange(lw * (requested - height), lw * requested));
            }
        }
        if viewport_bottom < screen_bottom {
            let to_draw = if height < screen_bottom - viewport_bottom {
                height
            } else {
                screen_bottom - viewport_bottom
            };
            let ghost before = self@.backend.screen().cells;
            self.backend.scroll_region_down(viewport_top..viewport_bottom + to_draw, to_draw)?;
            let ghost moved = Rect { y: (viewport_top + to_draw) as u16, ..self@.viewport_area };
            proof {
                crate::arith::lemma_mul_le(to_draw as int, height as int, lw);
                assert(to_draw * lw == lw * to_draw) by (nonlinear_arith);
                assert(height * lw == lw * height) by (nonlinear_arith);
                if synced {
                    let va = self@.viewport_area;
                    crate::backend::lemma_region_scrolled_down(before, size, va, prev, to_draw);
                    if va.y * size.width == (va.y + va.height + to_draw) * size.width {
                        assert(shift_cells(
                            before,
                            va.y * size.width,
                            (va.y + va.height + to_draw) * size.width,
                            to_draw * size.width,
                            false,
                        ) =~= before);
                    }
                    assert(self@.backend.screen().cells == shift_cells(
                        before,
                        va.y * size.width,
                        (va.y + va.height + to_draw) * size.width,
                        to_draw * size.width,
                        false,
                    ));
                    assert(region_shows(self@.backend.screen().cells, size, moved, prev));
                }
            }
            let ghost scrolled = self@.backend.screen().cells;
            let ghost old_rest = rest;
            rest = self.draw_lines_over_cleared(viewport_top, to_draw, rest)?;
            proof {
                assert(lw * height - lw * to_draw == lw * (height - to_draw)) by (nonlinear_arith);
                if synced {
                    let after = self@.backend.screen().cells;
                    assert((viewport_top + to_draw) * lw == viewport_top * lw + lw * to_draw)
                        by (nonlinear_arith);
                    let chunk = old_rest@.subrange(0, lw * to_draw).map_values(|c: Cell| c@);
                    assert(after == drawn_over(scrolled, viewport_top * lw, chunk));
                    crate::arith::lemma_mul_le(
                        (moved.y + moved.height) as int,
                        size.height as int,
                        size.width as int,
                    );
                    assert(size.height * size.width == size.width * size.height) by (nonlinear_arith);
                    assert(chunk.len() == lw * to_draw);
                    assert forall|m: int|
                        moved.y * size.width <= m < (moved.y + moved.height)
                            * size.width implies #[trigger] after[m] == scrolled[m] by {}
                    crate::backend::lemma_region_kept(scrolled, after, size, moved, prev);
                }
                if fitting {
                    let w = size.width as int;
                    let after = self@.backend.screen().cells;
                    let chunk = old_rest@.subrange(0, lw * to_draw).map_values(|c: Cell| c@);
                    assert(after == drawn_over(scrolled, viewport_top * lw, chunk));
                    crate::arith::lemma_mul_le(bottom0 + to_draw, size.height as int, w);
                    crate::arith::lemma_mul_le(top0, bottom0, w);
                    assert((top0 + to_draw) * w == top0 * w + w * to_draw) by (nonlinear_arith);
                    assert((bottom0 + to_draw) * w == bottom0 * w + w * to_draw) by (nonlinear_arith);
                    assert(size.height * w == w * size.height) by (nonlinear_arith);
                    assert(min_u16(viewport_top, size.height) == viewport_top);
                    assert(min_u16((viewport_bottom + to_draw) as u16, size.height) == viewport_bottom + to_draw);
                    assert forall|i: int| 0 <= i < top0 * w implies #[trigger] scrolled[i]
                        == screen0[i] by {}
                    assert(shows_tail(scrolled, above0, top0 * w));
                    assert forall|i: int| top0 * w <= i < top0 * w + chunk.len() implies #[trigger] scrolled[i]
                        == blank_cell() by {}
                    lemma_tail_after_drawn_blank(scrolled, above0, top0 * w, chunk);
                    assert(lw * (requested - (height - to_draw)) == lw * to_draw) by (nonlinear_arith)
                        requires
                            requested == height,
                    ;
                    assert(chunk =~= all.subrange(0, lw * to_draw));
                    assert(above0 + over_blank(chunk) =~= above0 + over_blank(all.subrange(
                        0,
                        lw * (requested - (height - to_draw)),
                    )));
                    shown = above0 + over_blank(chunk);
                    k = to_draw as int;
                    assert(rest@ =~= cells@.subrange(
                        lw * (requested - (height - to_draw)),
                        lw * requested,
                    ));
                    assert forall|i: int| (top0 + k) * w <= i < after.len() implies #[trigger] after[i]
                        == (if i < (bottom0 + k) * w {
                        screen0[i - k * w]
                    } else {
                        screen0[i]
                    }) by {}
                }
            }
            let viewport_area = self.viewport_area;
            self.set_viewport_area(Rect { y: viewport_top + to_draw, ..viewport_area });
            proof {
                if synced {
                    assert(self@.previous_buffer.cells() =~= prev);
                }
            }
            height -= to_draw;
        }
        let viewport_top = self.viewport_area.top();
        proof {
            if fitting {
                let sb0 = old(self)@.backend.screen().scrollback;
                assert((top0 + k) * lw == top0 * lw + lw * k) by (nonlinear_arith);
                assert(shown.len() == viewport_top * lw);
                assert(sb0 + shown.subrange(0, 0) =~= sb0);
            }
        }
        while height > 0
            invariant
                self.wf(),
                self@.viewport is Inline,
                buffers_moved(old(self)@, self@),
                keeps_tracking(old(self)@.backend.screen(), self@.backend.screen()),
                self@ == (TerminalView {
                    backend: self@.backend,
                    viewport_area: self@.viewport_area,
                    current_buffer: self@.current_buffer,
                    previous_buffer: self@.previous_buffer,
                    ..old(self)@
                }),
                self@.viewport_area == (Rect {
                    y: region_inserted_top(
                        old(self)@.viewport_area,
                        requested,
                        old(self)@.last_known_area,
                    ) as u16,
                    ..old(self)@.viewport_area
                }),
                old(self)@.viewport is Inline,
                old(self)@.viewport_area.height != old(self)@.last_known_area.height,
                viewport_top == self@.viewport_area.y,
                height > 0 ==> viewport_top > 0,
                lw == old(self)@.last_known_area.width,
                rest@.len() == lw * height,
                synced == old(self).screen_in_sync(),
                size == old(self)@.backend.screen().size,
                synced ==> self.screen_in_sync() && self@.backend.screen().size == size,
                height <= requested,
                fitting == old(self).fits_screen(),
                all == cells@.map_values(|c: Cell| c@),
                cells@.len() == lw * requested,
                screen0 == old(self)@.backend.screen().cells,
                top0 == old(self)@.viewport_area.y,
                bottom0 == sat_add(old(self)@.viewport_area.y, old(self)@.viewport_area.height),
                above0 == screen0.subrange(0, top0 * lw),
                fitting ==> {
                    &&& screen_ok(self@.backend.screen())
                    &&& self@.backend.screen().size == size
                    &&& lw == size.width
                    &&& bottom0 == top0 + old(self)@.viewport_area.height
                    &&& viewport_top == top0 + k
                    &&& viewport_top <= size.height
                    &&& shows_tail(self@.backend.screen().cells, shown, viewport_top * lw)
                    &&& forall|i: int|
                        viewport_top * lw <= i < self@.backend.screen().cells.len()
                            ==> #[trigger] self@.backend.screen().cells[i] == (if i < (bottom0 + k)
                            * lw {
                            screen0[i - k * lw]
                        } else {
                            screen0[i]
                        })
                    &&& shown == above0 + over_blank(all.subrange(0, lw * (requested - height)))
                    &&& rest@ == cells@.subrange(lw * (requested - height), lw * requested)
                    &&& self@.backend.screen().scrollback == old(self)@.backend.screen().scrollback
                        + shown.subrange(0, shown.len() - viewport_top * lw)
                },
            decreases height,
        {
            let to_draw = if height < viewport_top {
                height
            } else {
                viewport_top
            };
            let ghost before = self@.backend.screen().cells;
            let ghost before_state = self@.backend.screen();
            self.backend.scroll_region_up(0..viewport_top, to_draw)?;
            proof {
                crate::arith::lemma_mul_le(to_draw as int, height as int, lw);
                assert(to_draw * lw == lw * to_draw) by (nonlinear_arith);
                assert(height * lw == lw * height) by (nonlinear_arith);
                if synced {
                    let after = self@.backend.screen().cells;
                    let va = self@.viewport_area;
                    crate::arith::lemma_mul_le(
                        (va.y + va.height) as int,
                        size.height as int,
                        size.width as int,
                    );
                    assert(size.height * size.width == size.width * size.height) by (nonlinear_arith);
                    assert(min_u16(0, size.height) == 0);
                    assert(min_u16(viewport_top, size.height) == viewport_top);
                    assert forall|m: int|
                        va.y * size.width <= m < (va.y + va.height) * size.width implies #[trigger] after[m]
                            == before[m] by {}
                    crate::backend::lemma_region_kept(
                        before,
                        after,
                        size,
                        va,
                        self@.previous_buffer.cells(),
                    );
                }
            }
            let ghost scrolled = self@.backend.screen().cells;
            proof {
                if fitting {
                    let w = size.width as int;
                    let n = shown.len() - viewport_top * w;
                    crate::arith::lemma_mul_le(to_draw as int, viewport_top as int, w);
                    assert(screen_ok(before_state));
                    assert(min_u16(0, size.height) == 0);
                    assert(min_u16(viewport_top, size.height) == viewport_top);
                    assert(scrolled == crate::backend::scrolled_region(
                        before_state,
                        0,
                        viewport_top,
                        to_draw,
                        true,
                    ));
                    assert(prefix_block(before, viewport_top * w, (to_draw * w) as nat)
                        =~= shown.subrange(n, n + to_draw * w));
                    assert(shown.subrange(0, n) + shown.subrange(n, n + to_draw * w)
                        =~= shown.subrange(0, n + to_draw * w));
                    if viewport_top * w == 0 {
                        assert(shift_cells(before, 0, 0, to_draw * w, true) =~= before);
                    }
                    assert(scrolled == shift_cells(before, 0, viewport_top * w, to_draw * w, true));
                    crate::arith::lemma_mul_le(to_draw as int, viewport_top as int, w);
                    crate::arith::lemma_mul_le(viewport_top as int, size.height as int, w);
                    assert(size.height * w == w * size.height) by (nonlinear_arith);
                    lemma_tail_after_region_shift(
                        before,
                        shown,
                        viewport_top * w,
                        to_draw * w,
                        viewport_top * w,
                    );
                    assert((viewport_top - to_draw) * w == viewport_top * w - to_draw * w)
                        by (nonlinear_arith);
                }
            }
            let ghost old_rest = rest;
            rest = self.draw_lines_over_cleared(viewport_top - to_draw, to_draw, rest)?;
            proof {
                if fitting {
                    let w = size.width as int;
                    let after = self@.backend.screen().cells;
                    let chunk = old_rest@.subrange(0, lw * to_draw).map_values(|c: Cell| c@);
                    let start = (viewport_top - to_draw) * w;
                    assert(after == drawn_over(scrolled, start, chunk));
                    assert(to_draw * w == w * to_draw) by (nonlinear_arith);
                    assert(chunk.len() == w * to_draw);
                    assert forall|i: int| start <= i < start + chunk.len() implies #[trigger] scrolled[i]
                        == blank_cell() by {}
                    lemma_tail_after_drawn_blank(scrolled, shown, start, chunk);
                    let done = lw * (requested - height);
                    assert(lw * (requested - (height - to_draw)) == done + lw * to_draw)
                        by (nonlinear_arith)
                        requires
                            done == lw * (requested - height),
                    ;
                    crate::arith::lemma_mul_le(
                        (requested - (height - to_draw)) as int,
                        requested as int,
                        lw,
                    );
                    crate::arith::lemma_mul_le(0, (requested - height) as int, lw);
                    assert((requested - (height - to_draw)) * lw == lw * (requested - (height
                        - to_draw))) by (nonlinear_arith);
                    assert(requested * lw == lw * requested) by (nonlinear_arith);
                    assert((requested - height) * lw == done) by (nonlinear_arith)
                        requires
                            done == lw * (requested - height),
                    ;
                    assert(chunk =~= all.subrange(done, done + lw * to_draw));
                    assert(over_blank(all.subrange(0, done)) + over_blank(all.subrange(
                        done,
                        done + lw * to_draw,
                    )) =~= over_blank(all.subrange(0, done + lw * to_draw)));
                    assert(shown + over_blank(chunk) =~= above0 + over_blank(all.subrange(
                        0,
                        done + lw * to_draw,
                    )));
                    assert(rest@ =~= cells@.subrange(done + lw * to_draw, lw * requested));
                    assert(start + chunk.len() == viewport_top * w);
                    let n = shown.len() - viewport_top * w;
                    assert((shown + over_blank(chunk)).subrange(0, n + to_draw * w)
                        =~= shown.subrange(0, n + to_draw * w));
                    shown = shown + over_blank(chunk);
                }
            }
            proof {
                assert(lw * height - lw * to_draw == lw * (height - to_draw)) by (nonlinear_arith);
                if synced {
                    assert((viewport_top - to_draw) * lw + lw * to_draw == viewport_top * lw)
                        by (nonlinear_arith);
                    let after = self@.backend.screen().cells;
                    let va = self@.viewport_area;
                    let chunk = old_rest@.subrange(0, lw * to_draw).map_values(|c: Cell| c@);
                    assert(after == drawn_over(scrolled, (viewport_top - to_draw) * lw, chunk));
                    crate::arith::lemma_mul_le(
                        (va.y + va.height) as int,
                        size.height as int,
                        size.width as int,
                    );
                    assert(size.height * size.width == size.width * size.height) by (nonlinear_arith);
                    assert(chunk.len() == lw * to_draw);
                    assert forall|m: int|
                        va.y * size.width <= m < (va.y + va.height) * size.width implies #[trigger] after[m]
                            == scrolled[m] by {}
                    crate::backend::lemma_region_kept(
                        scrolled,
                        self@.backend.screen().cells,
                        size,
                        self@.viewport_area,
                        self@.previous_buffer.cells(),
                    );
                }
            }
            height -= to_draw;
        }
        proof {
            if fitting {
                let w = size.width as int;
                let fin = self@.backend.screen().cells;
                assert(all.subrange(0, lw * (requested - height)) =~= all);
                lemma_region_inserted(fin, shown, screen0, w, top0, bottom0, all, k);
                assert(all.len() == requested * size.width) by (nonlinear_arith)
                    requires
                        all.len() == lw * requested,
                        lw == size.width,
                ;
            }
        }
        Ok(())
    }

    /// Writes `lines_to_draw` rows of cells from `cells` at row `y_offset` down, onto rows
    /// that are blank on the screen (so blank cells are not written), and gives back the cells
    /// after them.
    fn draw_lines_over_cleared<'a>(
        &mut self,
        y_offset: u16,
        lines_to_draw: u16,
        cells: &'a [Cell],
    ) -> (r: std::io::Result<&'a [Cell]>)
        requires
            old(self)@.last_known_area.width * lines_to_draw <= cells@.len(),
            y_offset + lines_to_draw <= u16::MAX,
        ensures
            final(self)@ == (TerminalView { backend: final(self)@.backend, ..old(self)@ }),
            lines_to_draw == 0 ==> r is Ok && final(self)@ == old(self)@,
            r is Ok ==> keeps_tracking(old(self)@.backend.screen(), final(self)@.backend.screen()),
            r is Ok && screen_ok(old(self)@.backend.screen()) ==> final(self)@.backend.screen().scrollback
                == old(self)@.backend.screen().scrollback,
            r matches Ok(rest) ==> rest@ == cells@.subrange(
                old(self)@.last_known_area.width * lines_to_draw,
                cells@.len() as int,
            ),
            r is Ok && screen_ok(old(self)@.backend.screen()) && old(self)@.last_known_area.width
                == old(self)@.backend.screen().size.width && y_offset + lines_to_draw
                <= old(self)@.backend.screen().size.height ==> final(self)@.backend.screen().cells
                == drawn_over(
                old(self)@.backend.screen().cells,
                y_offset * old(self)@.last_known_area.width,
                cells@.subrange(0, old(self)@.last_known_area.width * lines_to_draw).map_values(
                    |c: Cell| c@,
                ),
            ),
    {
        let width = self.last_known_area.width as usize;
        proof {
            crate::arith::lemma_grid_fits(width as int, lines_to_draw as int);
        }
        let (to_draw, remainder) = cells.split_at(width * lines_to_draw as usize);
        let ghost drawn = to_draw@.map_values(|c: Cell| c@);
        proof {
            assert(drawn =~= cells@.subrange(0, width * lines_to_draw).map_values(|c: Cell| c@));
        }
        if lines_to_draw > 0 {
            let area = Rect::new(0, y_offset, width as u16, y_offset + lines_to_draw);
            let old = Buffer::empty(area);
            let mut content: Vec<Cell> = Vec::new();
            let mut i: usize = 0;
            while i < to_draw.len()
                invariant
                    i <= to_draw@.len(),
                    content@.len() == i,
                    forall|j: int| 0 <= j < i ==> #[trigger] content@[j]@ == to_draw@[j]@,
                decreases to_draw@.len() - i,
            {
                content.push(to_draw[i].clone());
                i += 1;
            }
            let new = Buffer { area, content };
            proof {
                assert(new.cells() =~= drawn);
            }
            let ghost before = self@.backend.screen();
            let updates = old.diff(&new);
            self.backend.draw(updates.as_slice())?;
            proof {
                if screen_ok(before) && width == before.size.width && y_offset + lines_to_draw
                    <= before.size.height {
                    if width == 0 {
                        assert(drawn.len() == 0) by (nonlinear_arith)
                            requires
                                drawn.len() == width * lines_to_draw,
                                width == 0,
                        ;
                        assert(diff_cells(area, old.cells(), new.cells()) =~= Seq::<
                            (u16, u16, CellView),
                        >::empty());
                        assert(drawn_over(before.cells, y_offset * width, drawn) =~= before.cells);
                    } else {
                        crate::arith::lemma_mul_le(
                            lines_to_draw as int,
                            area.height as int,
                            width as int,
                        );
                        assert(lines_to_draw * width == width * lines_to_draw) by (nonlinear_arith);
                        assert(area.height * width == width * area.height) by (nonlinear_arith);
                        assert(min_len(old.cells().len(), new.cells().len()) == drawn.len());
                        lemma_apply_over_cleared(
                            before.cells,
                            before.size.width,
                            before.size.height,
                            area,
                            old.cells(),
                            new.cells(),
                            lines_to_draw as int,
                            drawn.len() as int,
                        );
                        assert(drawn.take(drawn.len() as int) =~= drawn);
                    }
                }
            }
            self.backend.flush()?;
        } else {
            proof {
                assert(drawn.len() == 0) by (nonlinear_arith)
                    requires
                        drawn.len() == width * lines_to_draw,
                        lines_to_draw == 0,
                ;
                assert(drawn_over(self@.backend.screen().cells, y_offset * width, drawn)
                    =~= self@.backend.screen().cells);
            }
        }
        Ok(remainder)
    }
}


} // verus!
