//! The interface to a terminal, and an in-memory terminal for tests.
use vstd::prelude::*;

use crate::arith::{
    lemma_cell_index, lemma_grid_fits, lemma_index_row_col, lemma_mul_le, lemma_positive_width,
    lemma_row_bound, lemma_row_col,
};
use crate::buffer::{
    blank_cell, diff_cells, diff_prefix, needs_draw, pos_x, pos_y, updates_view, Buffer, Cell,
    CellView,
};
use crate::layout::{cell_count, min_u16, sat_add, sat_sub, Position, Rect, Size};

verus! {

/// The error type of terminal input and output, from the standard library.
#[verifier::external_type_specification]
#[verifier::external_body]
pub struct ExIoError(std::io::Error);

/// Which part of the screen a clear affects.
#[derive(Debug, Clone, Copy, PartialEq, Eq, Hash, Structural)]
pub enum ClearType {
    /// The whole screen.
    All,
    /// The cursor cell and everything after it.
    AfterCursor,
    /// Everything before the cursor, and the cursor cell.
    BeforeCursor,
    /// The row of the cursor.
    CurrentLine,
    /// From the cursor to the end of its row.
    UntilNewLine,
}

/// What a backend knows of its screen.
pub struct ScreenState {
    /// Whether the backend tracks its screen; where it does not, the rest says nothing.
    pub known: bool,
    /// The size of the screen.
    pub size: Size,
    /// The cells of the screen, row by row.
    pub cells: Seq<CellView>,
    /// Where the cursor is.
    pub cursor: Position,
    /// Whether the cursor is shown.
    pub cursor_visible: bool,
    /// The rows that went off the top of the screen into the terminal's scrollback, oldest
    /// first, row by row.
    pub scrollback: Seq<CellView>,
    /// For each row streamed into the scrollback as output, in the order they came, whether
    /// it soft-wraps into the next one (the terminal joins such rows).
    pub streamed_wraps: Seq<bool>,
}

/// The screen is tracked, and has a cell for each position.
pub open spec fn screen_ok(s: ScreenState) -> bool {
    &&& s.known
    &&& s.cells.len() == cell_count(s.size.width, s.size.height)
}

/// A tracked screen stays tracked in `after`, with the same size.
pub open spec fn keeps_tracking(before: ScreenState, after: ScreenState) -> bool {
    screen_ok(before) ==> screen_ok(after) && after.size == before.size
}

/// A tracked screen stays tracked in `after` and shows the same cells.
pub open spec fn keeps_cells(before: ScreenState, after: ScreenState) -> bool {
    &&& keeps_tracking(before, after)
    &&& screen_ok(before) ==> after.cells == before.cells
}

/// A tracked screen stays tracked in `after` and nothing of it changes: its cells, the
/// cursor, the scrollback and the rest.
pub open spec fn keeps_screen(before: ScreenState, after: ScreenState) -> bool {
    &&& keeps_cells(before, after)
    &&& screen_ok(before) ==> after == before
}

/// The cells of the screen `s` once `line_count` line breaks are written at its cursor: when
/// the rows below the cursor are too few for them, the rows move up by the difference (blank
/// below); otherwise nothing moves.
pub open spec fn appended_screen(s: ScreenState, line_count: u16) -> Seq<CellView> {
    let after = sat_sub(sat_sub(s.size.height, 1), s.cursor.y);
    if line_count > after {
        shift_cells(s.cells, 0, s.cells.len() as int, (line_count - after) * s.size.width, true)
    } else {
        s.cells
    }
}

/// The scrollback of the screen `s` once `line_count` line breaks are written at its cursor:
/// the rows that the screen moves up by (see [`appended_screen`]) go into it.
pub open spec fn appended_back(s: ScreenState, line_count: u16) -> Seq<CellView> {
    let after = sat_sub(sat_sub(s.size.height, 1), s.cursor.y);
    if line_count > after {
        s.scrollback + prefix_block(
            s.cells,
            s.cells.len() as int,
            ((line_count - after) * s.size.width) as nat,
        )
    } else {
        s.scrollback
    }
}

/// The cells of the screen `s` once the rows from `first` up to (not including) `last`, held
/// to the screen, are scrolled up (or down) by `line_count` rows.
pub open spec fn scrolled_region(s: ScreenState, first: u16, last: u16, line_count: u16, up: bool) -> Seq<
    CellView,
> {
    let start = min_u16(first, s.size.height) * s.size.width;
    let end = min_u16(last, s.size.height) * s.size.width;
    if start < end {
        shift_cells(s.cells, start, end, line_count * s.size.width, up)
    } else {
        s.cells
    }
}

/// The scrollback of the screen `s` once the rows from `first` up to (not including) `last`,
/// held to the screen, are scrolled up by `line_count` rows: a region that starts at the top
/// of the screen pushes `line_count` rows into it, those that leave the region (blank past
/// its end); another region pushes nothing.
pub open spec fn scrolled_back(s: ScreenState, first: u16, last: u16, line_count: u16) -> Seq<CellView> {
    let start = min_u16(first, s.size.height) * s.size.width;
    let end = min_u16(last, s.size.height) * s.size.width;
    if start == 0 {
        s.scrollback + prefix_block(s.cells, end, (line_count * s.size.width) as nat)
    } else {
        s.scrollback
    }
}

/// A terminal that frames are drawn to.
///
/// Implementations talk to a real terminal (or, as [`TestBackend`] does, keep the screen in
/// memory). Positions are columns and rows of the screen, starting at the top left.
///
/// An implementation that knows what its screen shows says so in `screen`; the methods then
/// keep that description as their contracts say. One that does not know keeps the default,
/// which leaves `known` false, and promises nothing.
pub trait Backend: Sized {
    /// What the backend knows of its screen; by default, nothing.
    open spec fn screen(&self) -> ScreenState {
        ScreenState {
            known: false,
            size: Size { width: 0, height: 0 },
            cells: Seq::empty(),
            cursor: Position { x: 0, y: 0 },
            cursor_visible: false,
            scrollback: Seq::empty(),
            streamed_wraps: Seq::empty(),
        }
    }

    /// Writes each cell at its position.
    fn draw(&mut self, content: &[(u16, u16, Cell)]) -> (r: std::io::Result<()>)
        ensures
            r is Ok ==> keeps_tracking(old(self).screen(), final(self).screen()),
            r is Ok && screen_ok(old(self).screen()) ==> final(self).screen() == (ScreenState {
                cells: apply_updates(
                    old(self).screen().cells,
                    old(self).screen().size.width,
                    old(self).screen().size.height,
                    updates_view(content@),
                ),
                cursor: final(self).screen().cursor,
                ..old(self).screen()
            }),
    ;

    /// Inserts `line_count` line breaks at the cursor, scrolling the screen when needed: the
    /// rows move up by as many breaks as there are rows below the cursor too few, blank below,
    /// and those that leave the top go into the scrollback.
    fn append_lines(&mut self, line_count: u16) -> (r: std::io::Result<()>)
        ensures
            r is Ok ==> keeps_tracking(old(self).screen(), final(self).screen()),
            r is Ok && screen_ok(old(self).screen()) ==> final(self).screen() == (ScreenState {
                cells: appended_screen(old(self).screen(), line_count),
                cursor: final(self).screen().cursor,
                scrollback: appended_back(old(self).screen(), line_count),
                ..old(self).screen()
            }),
    ;

    /// Hides the cursor.
    fn hide_cursor(&mut self) -> (r: std::io::Result<()>)
        ensures
            r is Ok ==> keeps_cells(old(self).screen(), final(self).screen()),
            r is Ok && screen_ok(old(self).screen()) ==> final(self).screen() == (ScreenState {
                cursor_visible: false,
                ..old(self).screen()
            }),
    ;

    /// Shows the cursor.
    fn show_cursor(&mut self) -> (r: std::io::Result<()>)
        ensures
            r is Ok ==> keeps_cells(old(self).screen(), final(self).screen()),
            r is Ok && screen_ok(old(self).screen()) ==> final(self).screen() == (ScreenState {
                cursor_visible: true,
                ..old(self).screen()
            }),
    ;

    /// The position of the cursor.
    fn get_cursor_position(&mut self) -> (r: std::io::Result<Position>)
        ensures
            r is Ok ==> keeps_screen(old(self).screen(), final(self).screen()),
            screen_ok(old(self).screen()) ==> (r matches Ok(p) ==> p == old(self).screen().cursor),
    ;

    /// Moves the cursor.
    fn set_cursor_position(&mut self, position: Position) -> (r: std::io::Result<()>)
        ensures
            r is Ok ==> keeps_cells(old(self).screen(), final(self).screen()),
            r is Ok && screen_ok(old(self).screen()) ==> final(self).screen() == (ScreenState {
                cursor: position,
                ..old(self).screen()
            }),
    ;

    /// Clears the whole screen.
    fn clear(&mut self) -> (r: std::io::Result<()>)
        ensures
            r is Ok ==> keeps_tracking(old(self).screen(), final(self).screen()),
            r is Ok && screen_ok(old(self).screen()) ==> final(self).screen() == (ScreenState {
                cells: clear_cells(old(self).screen().cells, 0, old(self).screen().cells.len() as int),
                ..old(self).screen()
            }),
    ;

    /// Clears part of the screen: the cells that [`clear_bounds`] gives for the cursor.
    fn clear_region(&mut self, clear_type: ClearType) -> (r: std::io::Result<()>)
        ensures
            r is Ok ==> keeps_tracking(old(self).screen(), final(self).screen()),
            r is Ok && screen_ok(old(self).screen()) ==> ({
                let before = old(self).screen();
                let bounds = clear_bounds(
                    clear_type,
                    before.size.width as int,
                    before.cells.len() as int,
                    before.cursor,
                );
                final(self).screen() == (ScreenState {
                    cells: clear_cells(before.cells, bounds.0, bounds.1),
                    ..before
                })
            }),
    ;

    /// The size of the screen.
    fn size(&self) -> (r: std::io::Result<Size>)
        ensures
            screen_ok(self.screen()) ==> (r matches Ok(size) ==> size == self.screen().size),
    ;

    /// Sends what was written so far to the terminal.
    fn flush(&mut self) -> (r: std::io::Result<()>)
        ensures
            r is Ok ==> keeps_screen(old(self).screen(), final(self).screen()),
    ;

    /// Scrolls the rows of `region` up by `line_count` rows, blank below.
    fn scroll_region_up(&mut self, region: std::ops::Range<u16>, line_count: u16) -> (r:
        std::io::Result<()>)
        ensures
            r is Ok ==> keeps_tracking(old(self).screen(), final(self).screen()),
            r is Ok && screen_ok(old(self).screen()) ==> final(self).screen() == (ScreenState {
                cells: scrolled_region(old(self).screen(), region.start, region.end, line_count, true),
                scrollback: scrolled_back(old(self).screen(), region.start, region.end, line_count),
                ..old(self).screen()
            }),
    ;

    /// Scrolls the rows of `region` down by `line_count` rows, blank above.
    fn scroll_region_down(&mut self, region: std::ops::Range<u16>, line_count: u16) -> (r:
        std::io::Result<()>)
        ensures
            r is Ok ==> keeps_tracking(old(self).screen(), final(self).screen()),
            r is Ok && screen_ok(old(self).screen()) ==> final(self).screen() == (ScreenState {
                cells: scrolled_region(old(self).screen(), region.start, region.end, line_count, false),
                ..old(self).screen()
            }),
    ;

    /// Writes `line_count` rows of `width` cells (from `content`) as ordinary output from the
    /// top left corner, then scrolls them off the top of a screen of `screen_height` rows into
    /// the terminal's scrollback. `row_wrapped` tells for each row whether it soft-wraps into
    /// the next one. The rows of the screen move up by `line_count`, blank below. What is said
    /// of a tracked screen holds where `screen_height` is its height, which the line breaks
    /// that scroll the rows off are counted from.
    fn stream_lines_to_scrollback(
        &mut self,
        content: &[Cell],
        width: u16,
        line_count: usize,
        screen_height: u16,
        row_wrapped: &[bool],
    ) -> (r: std::io::Result<()>)
        ensures
            r is Ok ==> keeps_tracking(old(self).screen(), final(self).screen()),
            r is Ok && screen_ok(old(self).screen()) && screen_height == old(self).screen().size.height
                ==> final(self).screen().cells == shift_cells(
                old(self).screen().cells,
                0,
                old(self).screen().cells.len() as int,
                line_count * old(self).screen().size.width,
                true,
            ),
            r is Ok && screen_ok(old(self).screen()) && screen_height == old(self).screen().size.height
                ==> final(self).screen() == (ScreenState {
                cells: final(self).screen().cells,
                cursor: final(self).screen().cursor,
                scrollback: old(self).screen().scrollback + snapshot_block(
                    content@.map_values(|c: Cell| c@),
                    width as int,
                    line_count as nat,
                    old(self).screen().size.width as nat,
                ),
                streamed_wraps: old(self).screen().streamed_wraps + wrap_flags(
                    row_wrapped@,
                    line_count as nat,
                ),
                ..old(self).screen()
            }),
    ;
}

/// The soft-wrap flags of `line_count` streamed rows: those of `row_wrapped`, a row with no
/// flag there not wrapping.
pub open spec fn wrap_flags(row_wrapped: Seq<bool>, line_count: nat) -> Seq<bool> {
    Seq::new(line_count, |r: int| r < row_wrapped.len() && row_wrapped[r])
}

/// The screen after writing each update in turn; updates outside the screen are dropped.
pub open spec fn apply_updates(
    screen: Seq<CellView>,
    width: u16,
    height: u16,
    updates: Seq<(u16, u16, CellView)>,
) -> Seq<CellView>
    decreases updates.len(),
{
    if updates.len() == 0 {
        screen
    } else {
        let before = apply_updates(screen, width, height, updates.drop_last());
        let t = updates.last();
        if t.0 < width && t.1 < height {
            before.update(t.1 * width + t.0, t.2)
        } else {
            before
        }
    }
}

/// Wherever a cell of `buffer` is neither skipped nor invalidated, `screen` shows it at the
/// same index.
pub open spec fn screen_shows(screen: Seq<CellView>, buffer: Seq<CellView>) -> bool {
    &&& screen.len() == buffer.len()
    &&& forall|i: int|
        0 <= i < buffer.len() ==> #[trigger] buffer[i].skip || buffer[i].stale || screen[i]
            == buffer[i]
}

proof fn lemma_apply_diff_prefix(
    screen: Seq<CellView>,
    area: Rect,
    previous: Seq<CellView>,
    next: Seq<CellView>,
    n: nat,
)
    requires
        area.x == 0,
        area.y == 0,
        previous.len() == cell_count(area.width, area.height),
        next.len() == previous.len(),
        screen.len() == previous.len(),
        n <= previous.len(),
    ensures
        apply_updates(screen, area.width, area.height, diff_prefix(area, previous, next, n)).len()
            == screen.len(),
        forall|j: int|
            0 <= j < screen.len() ==> #[trigger] apply_updates(
                screen,
                area.width,
                area.height,
                diff_prefix(area, previous, next, n),
            )[j] == if j < n && needs_draw(previous[j], next[j]) {
                next[j]
            } else {
                screen[j]
            },
    decreases n,
{
    if n > 0 {
        let i = n - 1;
        lemma_apply_diff_prefix(screen, area, previous, next, (n - 1) as nat);
        let rest = diff_prefix(area, previous, next, (n - 1) as nat);
        if needs_draw(previous[i], next[i]) {
            let t = (pos_x(area, i), pos_y(area, i), next[i]);
            assert(rest.push(t).drop_last() =~= rest);
            lemma_positive_width(i, area.width as int, area.height as int);
            lemma_row_col(i, area.width as int);
            lemma_row_bound(i, area.width as int, area.height as int);
            assert(t.1 * area.width + t.0 == i);
        }
    }
}

/// Law: writing the cells that [`Buffer::diff`] reports onto a screen that shows the previous
/// buffer (of the same area, at the top left of the screen) makes the screen show the next
/// buffer; a skipped cell keeps what the screen showed.
pub proof fn law_diff_redraws_next(previous: Buffer, next: Buffer)
    requires
        previous.wf(),
        next.wf(),
        previous.area == next.area,
        previous.area.x == 0,
        previous.area.y == 0,
    ensures
        ({
            let after = apply_updates(
                previous.cells(),
                previous.area.width,
                previous.area.height,
                diff_cells(previous.area, previous.cells(), next.cells()),
            );
            &&& after.len() == next.cells().len()
            &&& forall|i: int|
                0 <= i < after.len() ==> #[trigger] after[i] == if next.cells()[i].skip {
                    previous.cells()[i]
                } else {
                    next.cells()[i]
                }
        }),
{
    lemma_apply_diff_prefix(
        previous.cells(),
        previous.area,
        previous.cells(),
        next.cells(),
        previous.cells().len(),
    );
}

/// The index, on a screen `width` cells wide, of the `i`-th cell of a buffer over `area`.
pub open spec fn screen_index(width: u16, area: Rect, i: int) -> int {
    (area.y + i / (area.width as int)) * width + area.x + i % (area.width as int)
}

/// Whether `area` lies within a screen of `size` whose top left corner is at column 0, row 0.
pub open spec fn area_within(area: Rect, size: Size) -> bool {
    &&& area.x + area.width <= size.width
    &&& area.y + area.height <= size.height
}

/// `screen`, a screen of `size`, shows `buffer`, the cells of a buffer over `area` within the
/// screen: wherever a cell of `buffer` is neither skipped nor invalidated, the screen has it at
/// the cell's position.
pub open spec fn region_shows(screen: Seq<CellView>, size: Size, area: Rect, buffer: Seq<CellView>) -> bool {
    &&& screen.len() == cell_count(size.width, size.height)
    &&& buffer.len() == cell_count(area.width, area.height)
    &&& area_within(area, size)
    &&& forall|i: int|
        0 <= i < buffer.len() ==> #[trigger] buffer[i].skip || buffer[i].stale || screen[screen_index(
            size.width,
            area,
            i,
        )] == buffer[i]
}

proof fn lemma_apply_diff_region(
    screen: Seq<CellView>,
    size: Size,
    area: Rect,
    previous: Seq<CellView>,
    next: Seq<CellView>,
    n: nat,
)
    requires
        screen.len() == cell_count(size.width, size.height),
        previous.len() == cell_count(area.width, area.height),
        next.len() == previous.len(),
        area_within(area, size),
        n <= previous.len(),
    ensures
        apply_updates(screen, size.width, size.height, diff_prefix(area, previous, next, n)).len()
            == screen.len(),
        forall|j: int|
            0 <= j < previous.len() ==> #[trigger] apply_updates(
                screen,
                size.width,
                size.height,
                diff_prefix(area, previous, next, n),
            )[screen_index(size.width, area, j)] == if j < n && needs_draw(previous[j], next[j]) {
                next[j]
            } else {
                screen[screen_index(size.width, area, j)]
            },
    decreases n,
{
    if n > 0 {
        let i = n - 1;
        let w = area.width as int;
        lemma_positive_width(i, w, area.height as int);
        lemma_apply_diff_region(screen, size, area, previous, next, (n - 1) as nat);
        let rest = diff_prefix(area, previous, next, (n - 1) as nat);
        let before = apply_updates(screen, size.width, size.height, rest);
        let after = apply_updates(screen, size.width, size.height, diff_prefix(area, previous, next, n));
        crate::arith::lemma_region_index(
            size.width as int,
            size.height as int,
            area.x as int,
            area.y as int,
            w,
            area.height as int,
            i,
            i,
        );
        if needs_draw(previous[i], next[i]) {
            let t = (pos_x(area, i), pos_y(area, i), next[i]);
            assert(rest.push(t).drop_last() =~= rest);
            lemma_row_col(i, w);
            lemma_row_bound(i, w, area.height as int);
            assert(t.1 * size.width + t.0 == screen_index(size.width, area, i));
            assert forall|j: int| 0 <= j < previous.len() implies #[trigger] after[screen_index(
                size.width,
                area,
                j,
            )] == if j < n && needs_draw(previous[j], next[j]) {
                next[j]
            } else {
                screen[screen_index(size.width, area, j)]
            } by {
                crate::arith::lemma_region_index(
                    size.width as int,
                    size.height as int,
                    area.x as int,
                    area.y as int,
                    w,
                    area.height as int,
                    j,
                    i,
                );
                assert(before[screen_index(size.width, area, j)] == if j < n - 1 && needs_draw(
                    previous[j],
                    next[j],
                ) {
                    next[j]
                } else {
                    screen[screen_index(size.width, area, j)]
                });
            }
        } else {
            assert forall|j: int| 0 <= j < previous.len() implies #[trigger] after[screen_index(
                size.width,
                area,
                j,
            )] == if j < n && needs_draw(previous[j], next[j]) {
                next[j]
            } else {
                screen[screen_index(size.width, area, j)]
            } by {
                assert(before[screen_index(size.width, area, j)] == if j < n - 1 && needs_draw(
                    previous[j],
                    next[j],
                ) {
                    next[j]
                } else {
                    screen[screen_index(size.width, area, j)]
                });
            }
        }
    }
}

/// Law: a screen that shows the previous buffer of `area` (wherever that buffer's cell is
/// neither skipped nor invalidated) shows the next buffer there in the same way once the cells
/// that [`Buffer::diff`] reports are written onto it.
pub proof fn law_diff_keeps_region_in_step(
    screen: Seq<CellView>,
    size: Size,
    area: Rect,
    previous: Seq<CellView>,
    next: Seq<CellView>,
)
    requires
        next.len() == previous.len(),
        region_shows(screen, size, area, previous),
    ensures
        region_shows(
            apply_updates(screen, size.width, size.height, diff_cells(area, previous, next)),
            size,
            area,
            next,
        ),
{
    lemma_apply_diff_region(screen, size, area, previous, next, previous.len());
    let after = apply_updates(screen, size.width, size.height, diff_cells(area, previous, next));
    assert forall|i: int| 0 <= i < next.len() implies #[trigger] next[i].skip || next[i].stale
        || after[screen_index(size.width, area, i)] == next[i] by {
        assert(previous[i].skip || previous[i].stale || screen[screen_index(size.width, area, i)]
            == previous[i]);
    }
}

/// A buffer over the whole screen is shown in its area exactly when the screen shows it cell
/// for cell.
pub proof fn lemma_region_of_whole_screen(screen: Seq<CellView>, size: Size, buffer: Seq<CellView>)
    requires
        screen.len() == cell_count(size.width, size.height),
        buffer.len() == screen.len(),
    ensures
        region_shows(
            screen,
            size,
            Rect { x: 0, y: 0, width: size.width, height: size.height },
            buffer,
        ) <==> screen_shows(screen, buffer),
{
    let area = Rect { x: 0, y: 0, width: size.width, height: size.height };
    assert forall|i: int| 0 <= i < buffer.len() implies screen_index(size.width, area, i) == i by {
        lemma_positive_width(i, size.width as int, size.height as int);
        lemma_row_col(i, size.width as int);
    }
}

/// A blank screen shows a blank buffer anywhere within it.
pub proof fn lemma_blank_region(screen: Seq<CellView>, size: Size, area: Rect, buffer: Seq<CellView>)
    requires
        screen.len() == cell_count(size.width, size.height),
        buffer.len() == cell_count(area.width, area.height),
        area_within(area, size),
        forall|i: int| 0 <= i < screen.len() ==> screen[i] == blank_cell(),
        forall|i: int| 0 <= i < buffer.len() ==> buffer[i] == blank_cell(),
    ensures
        region_shows(screen, size, area, buffer),
{
    assert forall|i: int| 0 <= i < buffer.len() implies #[trigger] buffer[i].skip || buffer[i].stale
        || screen[screen_index(size.width, area, i)] == buffer[i] by {
        lemma_positive_width(i, area.width as int, area.height as int);
        crate::arith::lemma_region_index(
            size.width as int,
            size.height as int,
            area.x as int,
            area.y as int,
            area.width as int,
            area.height as int,
            i,
            i,
        );
    }
}

/// The cells of a buffer over `area` land in the rows of `area`.
pub proof fn lemma_region_rows(size: Size, area: Rect, i: int)
    requires
        area_within(area, size),
        0 <= i < cell_count(area.width, area.height),
    ensures
        area.y * size.width <= screen_index(size.width, area, i),
        screen_index(size.width, area, i) < (area.y + area.height) * size.width,
{
    let w = area.width as int;
    let sw = size.width as int;
    lemma_positive_width(i, w, area.height as int);
    lemma_row_col(i, w);
    lemma_row_bound(i, w, area.height as int);
    let r = i / w;
    lemma_mul_le(area.y as int, area.y + r, sw);
    lemma_mul_le(area.y + r + 1, area.y + area.height, sw);
    assert((area.y + r + 1) * sw == (area.y + r) * sw + sw) by (nonlinear_arith);
}

/// A screen that shows a buffer in `area` still does once only cells outside the rows of
/// `area` changed.
pub proof fn lemma_region_kept(
    before: Seq<CellView>,
    after: Seq<CellView>,
    size: Size,
    area: Rect,
    buffer: Seq<CellView>,
)
    requires
        region_shows(before, size, area, buffer),
        after.len() == before.len(),
        forall|m: int|
            area.y * size.width <= m < (area.y + area.height) * size.width ==> #[trigger] after[m]
                == before[m],
    ensures
        region_shows(after, size, area, buffer),
{
    assert forall|i: int| 0 <= i < buffer.len() implies #[trigger] buffer[i].skip || buffer[i].stale
        || after[screen_index(size.width, area, i)] == buffer[i] by {
        lemma_region_rows(size, area, i);
        assert(before[screen_index(size.width, area, i)] == after[screen_index(size.width, area, i)]);
    }
}

/// Scrolling the rows from the top of `area` to `k` rows below its bottom down by `k` rows
/// carries what the screen shows in `area` down with them.
pub proof fn lemma_region_scrolled_down(
    screen: Seq<CellView>,
    size: Size,
    area: Rect,
    buffer: Seq<CellView>,
    k: u16,
)
    requires
        region_shows(screen, size, area, buffer),
        area.y + area.height + k <= size.height,
    ensures
        region_shows(
            shift_cells(
                screen,
                area.y * size.width,
                (area.y + area.height + k) * size.width,
                k * size.width,
                false,
            ),
            size,
            Rect { y: (area.y + k) as u16, ..area },
            buffer,
        ),
{
    let sw = size.width as int;
    let moved = Rect { y: (area.y + k) as u16, ..area };
    let after = shift_cells(
        screen,
        area.y * size.width,
        (area.y + area.height + k) * size.width,
        k * size.width,
        false,
    );
    lemma_mul_le(area.y + area.height + k, size.height as int, sw);
    assert((area.y + area.height + k) * sw <= sw * size.height) by (nonlinear_arith)
        requires
            (area.y + area.height + k) * sw <= size.height * sw,
    ;
    assert forall|i: int| 0 <= i < buffer.len() implies #[trigger] buffer[i].skip || buffer[i].stale
        || after[screen_index(size.width, moved, i)] == buffer[i] by {
        lemma_region_rows(size, area, i);
        lemma_region_rows(size, moved, i);
        let w = area.width as int;
        assert((area.y + k + i / w) * sw == (area.y + i / w) * sw + k * sw) by (nonlinear_arith);
        assert(screen_index(size.width, moved, i) == screen_index(size.width, area, i) + k * sw);
        assert((moved.y + moved.height) * sw == (area.y + area.height + k) * sw);
    }
}

/// Law: a buffer compared with itself needs nothing written.
pub proof fn law_diff_of_equal_buffers_is_empty(area: Rect, cells: Seq<CellView>)
    ensures
        diff_cells(area, cells, cells).len() == 0,
{
    lemma_diff_prefix_equal(area, cells, cells.len());
}

proof fn lemma_diff_prefix_equal(area: Rect, cells: Seq<CellView>, n: nat)
    requires
        n <= cells.len(),
    ensures
        diff_prefix(area, cells, cells, n).len() == 0,
    decreases n,
{
    if n > 0 {
        lemma_diff_prefix_equal(area, cells, (n - 1) as nat);
    }
}

/// The screen with the cells of `[start, end)` moved `k` cells towards `start` (when `up`)
/// or towards `end`; the cells left behind are blank.
pub open spec fn shift_cells(screen: Seq<CellView>, start: int, end: int, k: int, up: bool) -> Seq<
    CellView,
> {
    Seq::new(
        screen.len(),
        |i: int|
            if start <= i < end {
                if up {
                    if i + k < end {
                        screen[i + k]
                    } else {
                        blank_cell()
                    }
                } else {
                    if i - k >= start {
                        screen[i - k]
                    } else {
                        blank_cell()
                    }
                }
            } else {
                screen[i]
            },
    )
}

/// The screen with the cells of `[lo, hi)` blank.
pub open spec fn clear_cells(screen: Seq<CellView>, lo: int, hi: int) -> Seq<CellView> {
    Seq::new(screen.len(), |i: int| if lo <= i < hi { blank_cell() } else { screen[i] })
}

/// `count` cells: those of `screen` below index `limit`, then blank ones.
pub open spec fn prefix_block(screen: Seq<CellView>, limit: int, count: nat) -> Seq<CellView> {
    Seq::new(count, |j: int| if j < limit { screen[j] } else { blank_cell() })
}

/// The cell at row `r` and column `c` of rows of `width` cells taken from `content`; blank
/// where `content` has no such cell.
pub open spec fn snapshot_cell(content: Seq<CellView>, width: int, r: int, c: int) -> CellView {
    if c < width && r * width + c < content.len() {
        content[r * width + c]
    } else {
        blank_cell()
    }
}

/// `lines` rows of `screen_width` cells laid out from rows of `width` cells in `content`.
pub open spec fn snapshot_block(
    content: Seq<CellView>,
    width: int,
    lines: nat,
    screen_width: nat,
) -> Seq<CellView> {
    Seq::new(
        lines * screen_width,
        |j: int| snapshot_cell(content, width, j / (screen_width as int), j % (screen_width as int)),
    )
}

/// The range of cells that a clear of the given kind blanks, on a screen of `len` cells that
/// is `width` cells wide, with the cursor at `cursor`.
pub open spec fn clear_bounds(clear_type: ClearType, width: int, len: int, cursor: Position) -> (
    int,
    int,
) {
    let at = cursor.y * width + cursor.x;
    let row = cursor.y * width;
    match clear_type {
        ClearType::All => (0, len),
        ClearType::AfterCursor => (at, len),
        ClearType::BeforeCursor => (0, at + 1),
        ClearType::CurrentLine => (row, row + width),
        ClearType::UntilNewLine => (at, row + width),
    }
}

/// The text of a run of cells: their symbols one after another.
pub open spec fn text_of(cells: Seq<CellView>) -> Seq<char>
    decreases cells.len(),
{
    if cells.len() == 0 {
        seq![]
    } else {
        text_of(cells.drop_last()) + cells.last().symbol
    }
}

/// The text of row `row` of a grid of cells `width` wide.
pub open spec fn row_text(cells: Seq<CellView>, width: int, row: int) -> Seq<char> {
    text_of(cells.subrange(row * width, row * width + width))
}

/// What an in-memory terminal shows.
pub struct TestBackendView {
    /// The number of columns.
    pub width: u16,
    /// The number of rows.
    pub height: u16,
    /// The cells of the screen, row by row.
    pub screen: Seq<CellView>,
    /// The rows that scrolled off the top of the screen, oldest first, row by row.
    pub scrollback: Seq<CellView>,
    /// For each row streamed into the scrollback, in order, whether it soft-wraps.
    pub streamed_wraps: Seq<bool>,
    /// Whether the cursor is shown.
    pub cursor_visible: bool,
    /// Where the cursor is.
    pub cursor: Position,
}

/// A terminal kept in memory: a screen of cells, the rows scrolled into scrollback, and a
/// cursor.
#[derive(Debug)]
pub struct TestBackend {
    buffer: Buffer,
    scrollback: Vec<Cell>,
    wraps: Vec<bool>,
    cursor: bool,
    pos: Position,
}

impl View for TestBackend {
    type V = TestBackendView;

    closed spec fn view(&self) -> TestBackendView {
        TestBackendView {
            width: self.buffer.area.width,
            height: self.buffer.area.height,
            screen: self.buffer.cells(),
            scrollback: self.scrollback@.map_values(|c: Cell| c@),
            streamed_wraps: self.wraps@,
            cursor_visible: self.cursor,
            cursor: self.pos,
        }
    }
}

proof fn lemma_views_push(cells: Seq<Cell>, c: Cell)
    ensures
        cells.push(c).map_values(|x: Cell| x@) == cells.map_values(|x: Cell| x@).push(c@),
{
    assert(cells.push(c).map_values(|x: Cell| x@) =~= cells.map_values(|x: Cell| x@).push(c@));
}

proof fn lemma_views_update(cells: Seq<Cell>, i: int, c: Cell)
    requires
        0 <= i < cells.len(),
    ensures
        cells.update(i, c).map_values(|x: Cell| x@) == cells.map_values(|x: Cell| x@).update(
            i,
            c@,
        ),
{
    assert(cells.update(i, c).map_values(|x: Cell| x@) =~= cells.map_values(|x: Cell| x@).update(
        i,
        c@,
    ));
}

impl TestBackend {
    #[verifier::type_invariant]
    spec fn inv(self) -> bool {
        &&& self.buffer.area.x == 0
        &&& self.buffer.area.y == 0
        &&& self.buffer.wf()
    }

    /// A blank terminal of `width` columns and `height` rows, with a hidden cursor at the top
    /// left and an empty scrollback.
    pub fn new(width: u16, height: u16) -> (b: TestBackend)
        ensures
            b@.width == width,
            b@.height == height,
            b@.screen.len() == cell_count(width, height),
            forall|i: int| 0 <= i < b@.screen.len() ==> b@.screen[i] == blank_cell(),
            b@.scrollback.len() == 0,
            b@.streamed_wraps.len() == 0,
            !b@.cursor_visible,
            b@.cursor == (Position { x: 0, y: 0 }),
    {
        let buffer = Buffer::empty(Rect { x: 0, y: 0, width, height });
        let b = TestBackend {
            buffer,
            scrollback: Vec::new(),
            wraps: Vec::new(),
            cursor: false,
            pos: Position { x: 0, y: 0 },
        };
        assert(b@.scrollback =~= Seq::<CellView>::empty());
        b
    }

    /// The screen.
    pub fn buffer(&self) -> (b: &Buffer)
        ensures
            b.area == (Rect { x: 0, y: 0, width: self@.width, height: self@.height }),
            b.cells() == self@.screen,
            b.wf(),
    {
        proof {
            use_type_invariant(self);
        }
        &self.buffer
    }

    fn rows_text(cells: &Vec<Cell>, width: u16, rows: usize) -> (lines: Vec<String>)
        requires
            rows * width <= cells@.len(),
        ensures
            lines@.len() == rows,
            forall|r: int|
                0 <= r < rows ==> #[trigger] lines@[r]@ == row_text(
                    cells@.map_values(|x: Cell| x@),
                    width as int,
                    r,
                ),
    {
        let ghost views = cells@.map_values(|x: Cell| x@);
        let total = cells.len();
        let w = width as usize;
        let mut lines: Vec<String> = Vec::new();
        let mut r: usize = 0;
        while r < rows
            invariant
                rows * width <= cells@.len(),
                views == cells@.map_values(|x: Cell| x@),
                total == cells@.len(),
                w == width,
                r <= rows,
                lines@.len() == r,
                forall|k: int|
                    0 <= k < r ==> #[trigger] lines@[k]@ == row_text(views, width as int, k),
            decreases rows - r,
        {
            proof {
                if w == 0 {
                    assert(r * w == 0) by (nonlinear_arith)
                        requires
                            w == 0,
                    ;
                } else {
                    lemma_cell_index(r as int, 0, w as int, rows as int);
                }
                assert(w * rows == rows * width) by (nonlinear_arith)
                    requires
                        w == width,
                ;
                assert(r * w + w <= w * rows);
                assert(r * w + w <= cells@.len());
            }
            let start = r * w;
            let mut line = String::new();
            let mut c: usize = 0;
            while c < w
                invariant
                    views == cells@.map_values(|x: Cell| x@),
                    start == r * w,
                    start + w <= cells@.len(),
                    total == cells@.len(),
                    c <= w,
                    line@ == text_of(views.subrange(start as int, start + c)),
                decreases w - c,
            {
                line.append(cells[start + c].symbol());
                proof {
                    assert(views.subrange(start as int, start + c + 1).drop_last() =~= views.subrange(
                        start as int,
                        start + c,
                    ));
                }
                c += 1;
            }
            lines.push(line);
            r += 1;
        }
        lines
    }

    /// The text of each row of the screen, top to bottom.
    pub fn buffer_lines(&self) -> (lines: Vec<String>)
        ensures
            lines@.len() == self@.height,
            forall|r: int|
                0 <= r < self@.height ==> #[trigger] lines@[r]@ == row_text(
                    self@.screen,
                    self@.width as int,
                    r,
                ),
    {
        proof {
            use_type_invariant(self);
            assert(self.buffer.area.height * self.buffer.area.width == cell_count(
                self.buffer.area.width,
                self.buffer.area.height,
            )) by (nonlinear_arith);
        }
        Self::rows_text(&self.buffer.content, self.buffer.area.width, self.buffer.area.height as usize)
    }

    /// For each row streamed into the scrollback, in order, whether it soft-wraps into the
    /// next one.
    pub fn streamed_wraps(&self) -> (flags: Vec<bool>)
        ensures
            flags@ == self@.streamed_wraps,
    {
        let mut flags: Vec<bool> = Vec::new();
        let mut i: usize = 0;
        while i < self.wraps.len()
            invariant
                i <= self.wraps@.len(),
                flags@ == self.wraps@.subrange(0, i as int),
            decreases self.wraps@.len() - i,
        {
            flags.push(self.wraps[i]);
            proof {
                assert(self.wraps@.subrange(0, i + 1) =~= self.wraps@.subrange(0, i as int).push(
                    self.wraps@[i as int],
                ));
            }
            i += 1;
        }
        assert(self.wraps@.subrange(0, i as int) =~= self.wraps@);
        flags
    }

    /// The text of each row of the scrollback, oldest first.
    pub fn scrollback_lines(&self) -> (lines: Vec<String>)
        ensures
            self@.width == 0 ==> lines@.len() == 0,
            self@.width > 0 ==> lines@.len() == self@.scrollback.len() / (self@.width as nat),
            forall|r: int|
                0 <= r < lines@.len() ==> #[trigger] lines@[r]@ == row_text(
                    self@.scrollback,
                    self@.width as int,
                    r,
                ),
    {
        let w = self.buffer.area.width as usize;
        if w == 0 {
            return Vec::new();
        }
        let rows = self.scrollback.len() / w;
        proof {
            lemma_row_col(self.scrollback@.len() as int, w as int);
            assert(rows * w == w * rows) by (nonlinear_arith);
        }
        Self::rows_text(&self.scrollback, self.buffer.area.width, rows)
    }

    /// The screen with the cells of `[start, end)` moved `k` cells up or down.
    fn shifted(&self, start: usize, end: usize, k: usize, up: bool) -> (cells: Vec<Cell>)
        requires
            start <= end <= self.buffer.content@.len(),
        ensures
            cells@.len() == self.buffer.content@.len(),
            cells@.map_values(|x: Cell| x@) == shift_cells(
                self.buffer.cells(),
                start as int,
                end as int,
                k as int,
                up,
            ),
    {
        let len = self.buffer.content.len();
        let ghost target = shift_cells(self.buffer.cells(), start as int, end as int, k as int, up);
        let mut cells: Vec<Cell> = Vec::new();
        let mut i: usize = 0;
        while i < len
            invariant
                len == self.buffer.content@.len(),
                start <= end <= len,
                target == shift_cells(self.buffer.cells(), start as int, end as int, k as int, up),
                i <= len,
                cells@.map_values(|x: Cell| x@) == target.subrange(0, i as int),
            decreases len - i,
        {
            let cell = if start <= i && i < end {
                if up {
                    if k < end - i {
                        self.buffer.content[i + k].clone()
                    } else {
                        Cell::empty()
                    }
                } else {
                    if i - start >= k {
                        self.buffer.content[i - k].clone()
                    } else {
                        Cell::empty()
                    }
                }
            } else {
                self.buffer.content[i].clone()
            };
            proof {
                lemma_views_push(cells@, cell);
                assert(target.subrange(0, i + 1) =~= target.subrange(0, i as int).push(cell@));
            }
            cells.push(cell);
            i += 1;
        }
        assert(target.subrange(0, len as int) =~= target);
        cells
    }

    /// The screen with the cells of `[lo, hi)` blank.
    fn cleared(&self, lo: u64, hi: u64) -> (cells: Vec<Cell>)
        ensures
            cells@.len() == self.buffer.content@.len(),
            cells@.map_values(|x: Cell| x@) == clear_cells(
                self.buffer.cells(),
                lo as int,
                hi as int,
            ),
    {
        let len = self.buffer.content.len();
        let ghost target = clear_cells(self.buffer.cells(), lo as int, hi as int);
        let mut cells: Vec<Cell> = Vec::new();
        let mut i: usize = 0;
        while i < len
            invariant
                len == self.buffer.content@.len(),
                target == clear_cells(self.buffer.cells(), lo as int, hi as int),
                i <= len,
                cells@.map_values(|x: Cell| x@) == target.subrange(0, i as int),
            decreases len - i,
        {
            let cell = if lo <= i as u64 && (i as u64) < hi {
                Cell::empty()
            } else {
                self.buffer.content[i].clone()
            };
            proof {
                lemma_views_push(cells@, cell);
                assert(target.subrange(0, i + 1) =~= target.subrange(0, i as int).push(cell@));
            }
            cells.push(cell);
            i += 1;
        }
        assert(target.subrange(0, len as int) =~= target);
        cells
    }

    /// Appends to the scrollback `count` cells: those of the screen below `limit`, then blank
    /// ones.
    fn push_prefix_block(&mut self, limit: usize, count: usize)
        requires
            limit <= old(self).buffer.content@.len(),
        ensures
            final(self).buffer == old(self).buffer,
            final(self).cursor == old(self).cursor,
            final(self).pos == old(self).pos,
            final(self).wraps == old(self).wraps,
            final(self)@.scrollback == old(self)@.scrollback + prefix_block(
                old(self)@.screen,
                limit as int,
                count as nat,
            ),
    {
        let ghost block = prefix_block(self@.screen, limit as int, count as nat);
        proof {
            use_type_invariant(&*self);
        }
        let mut scrollback: Vec<Cell> = Vec::new();
        std::mem::swap(&mut scrollback, &mut self.scrollback);
        let ghost start = scrollback@.map_values(|x: Cell| x@);
        let mut j: usize = 0;
        while j < count
            invariant
                self.buffer == old(self).buffer,
                block == prefix_block(old(self)@.screen, limit as int, count as nat),
                start == old(self)@.scrollback,
                limit <= self.buffer.content@.len(),
                j <= count,
                scrollback@.map_values(|x: Cell| x@) == start + block.subrange(0, j as int),
            decreases count - j,
        {
            let cell = if j < limit {
                self.buffer.content[j].clone()
            } else {
                Cell::empty()
            };
            proof {
                lemma_views_push(scrollback@, cell);
                assert(block.subrange(0, j + 1) =~= block.subrange(0, j as int).push(cell@));
            }
            scrollback.push(cell);
            j += 1;
        }
        assert(block.subrange(0, count as int) =~= block);
        self.scrollback = scrollback;
    }
}


impl Backend for TestBackend {
    open spec fn screen(&self) -> ScreenState {
        ScreenState {
            known: true,
            size: Size { width: self@.width, height: self@.height },
            cells: self@.screen,
            cursor: self@.cursor,
            cursor_visible: self@.cursor_visible,
            scrollback: self@.scrollback,
            streamed_wraps: self@.streamed_wraps,
        }
    }

    fn draw(&mut self, content: &[(u16, u16, Cell)]) -> (r: std::io::Result<()>)
        ensures
            r is Ok,
            final(self)@ == (TestBackendView {
                screen: apply_updates(
                    old(self)@.screen,
                    old(self)@.width,
                    old(self)@.height,
                    updates_view(content@),
                ),
                ..old(self)@
            }),
    {
        proof {
            use_type_invariant(&*self);
        }
        let w = self.buffer.area.width;
        let h = self.buffer.area.height;
        let mut buffer = Buffer::empty(Rect { x: 0, y: 0, width: 0, height: 0 });
        std::mem::swap(&mut buffer, &mut self.buffer);
        let ghost screen = buffer.cells();
        let mut i: usize = 0;
        while i < content.len()
            invariant
                buffer.area == (Rect { x: 0, y: 0, width: w, height: h }),
                buffer.wf(),
                i <= content@.len(),
                buffer.cells() == apply_updates(screen, w, h, updates_view(content@.take(i as int))),
            decreases content@.len() - i,
        {
            let t = &content[i];
            proof {
                assert(updates_view(content@.take(i + 1)).drop_last() =~= updates_view(
                    content@.take(i as int),
                ));
                assert(updates_view(content@.take(i + 1)).last() == (t.0, t.1, t.2@));
            }
            if t.0 < w && t.1 < h {
                proof {
                    lemma_cell_index(t.1 as int, t.0 as int, w as int, h as int);
                    lemma_grid_fits(w as int, h as int);
                }
                let index = t.1 as usize * w as usize + t.0 as usize;
                let cell = t.2.clone();
                proof {
                    lemma_views_update(buffer.content@, index as int, cell);
                }
                buffer.content.set(index, cell);
            }
            i += 1;
        }
        assert(content@.take(content@.len() as int) =~= content@);
        self.buffer = buffer;
        Ok(())
    }

    fn append_lines(&mut self, line_count: u16) -> (r: std::io::Result<()>)
        ensures
            r is Ok,
            ({
                let v = old(self)@;
                let max_y = sat_sub(v.height, 1);
                let after = sat_sub(max_y, v.cursor.y);
                let scrolled = (line_count - after) * v.width;
                &&& final(self)@.width == v.width
                &&& final(self)@.height == v.height
                &&& final(self)@.streamed_wraps == v.streamed_wraps
                &&& final(self)@.cursor_visible == v.cursor_visible
                &&& final(self)@.cursor == (Position {
                    x: min_u16(sat_add(v.cursor.x, 1), sat_sub(v.width, 1)),
                    y: min_u16(sat_add(v.cursor.y, line_count), max_y),
                })
                &&& line_count > after ==> final(self)@.screen == shift_cells(
                    v.screen,
                    0,
                    v.screen.len() as int,
                    scrolled,
                    true,
                ) && final(self)@.scrollback == v.scrollback + prefix_block(
                    v.screen,
                    v.screen.len() as int,
                    scrolled as nat,
                )
                &&& line_count <= after ==> final(self)@.screen == v.screen
                    && final(self)@.scrollback == v.scrollback
            }),
    {
        proof {
            use_type_invariant(&*self);
        }
        let w = self.buffer.area.width;
        let h = self.buffer.area.height;
        let cur = self.pos;
        let next_x = cur.x.saturating_add(1);
        let last_x = w.saturating_sub(1);
        let new_x = if next_x < last_x {
            next_x
        } else {
            last_x
        };
        let max_y = h.saturating_sub(1);
        let lines_after_cursor = max_y.saturating_sub(cur.y);
        if line_count > lines_after_cursor {
            let rows = (line_count - lines_after_cursor) as usize;
            proof {
                lemma_grid_fits(rows as int, w as int);
            }
            let cells_to_scroll = rows * (w as usize);
            let len = self.buffer.content.len();
            self.push_prefix_block(len, cells_to_scroll);
            proof {
                use_type_invariant(&*self);
            }
            let cells = self.shifted(0, len, cells_to_scroll, true);
            self.buffer.content = cells;
        }
        let next_y = cur.y.saturating_add(line_count);
        let new_y = if next_y < max_y {
            next_y
        } else {
            max_y
        };
        self.pos = Position { x: new_x, y: new_y };
        Ok(())
    }

    fn hide_cursor(&mut self) -> (r: std::io::Result<()>)
        ensures
            r is Ok,
            final(self)@ == (TestBackendView { cursor_visible: false, ..old(self)@ }),
    {
        proof {
            use_type_invariant(&*self);
        }
        self.cursor = false;
        Ok(())
    }

    fn show_cursor(&mut self) -> (r: std::io::Result<()>)
        ensures
            r is Ok,
            final(self)@ == (TestBackendView { cursor_visible: true, ..old(self)@ }),
    {
        proof {
            use_type_invariant(&*self);
        }
        self.cursor = true;
        Ok(())
    }

    fn get_cursor_position(&mut self) -> (r: std::io::Result<Position>)
        ensures
            r == Ok::<Position, std::io::Error>(old(self)@.cursor),
            final(self)@ == old(self)@,
    {
        Ok(self.pos)
    }

    fn set_cursor_position(&mut self, position: Position) -> (r: std::io::Result<()>)
        ensures
            r is Ok,
            final(self)@ == (TestBackendView { cursor: position, ..old(self)@ }),
    {
        proof {
            use_type_invariant(&*self);
        }
        self.pos = position;
        Ok(())
    }

    fn clear(&mut self) -> (r: std::io::Result<()>)
        ensures
            r is Ok,
            final(self)@ == (TestBackendView {
                screen: clear_cells(old(self)@.screen, 0, old(self)@.screen.len() as int),
                ..old(self)@
            }),
    {
        proof {
            use_type_invariant(&*self);
        }
        let len = self.buffer.content.len();
        let cells = self.cleared(0, len as u64);
        self.buffer.content = cells;
        Ok(())
    }

    fn clear_region(&mut self, clear_type: ClearType) -> (r: std::io::Result<()>)
        ensures
            r is Ok,
            ({
                let v = old(self)@;
                let bounds = clear_bounds(clear_type, v.width as int, v.screen.len() as int, v.cursor);
                final(self)@ == (TestBackendView {
                    screen: clear_cells(v.screen, bounds.0, bounds.1),
                    ..v
                })
            }),
    {
        proof {
            use_type_invariant(&*self);
        }
        let w = self.buffer.area.width as u64;
        let len = self.buffer.content.len() as u64;
        proof {
            lemma_grid_fits(self.pos.y as int, w as int);
        }
        let at = self.pos.y as u64 * w + self.pos.x as u64;
        let row = self.pos.y as u64 * w;
        let (lo, hi) = match clear_type {
            ClearType::All => (0, len),
            ClearType::AfterCursor => (at, len),
            ClearType::BeforeCursor => (0, at + 1),
            ClearType::CurrentLine => (row, row + w),
            ClearType::UntilNewLine => (at, row + w),
        };
        let cells = self.cleared(lo, hi);
        self.buffer.content = cells;
        Ok(())
    }

    fn size(&self) -> (r: std::io::Result<Size>)
        ensures
            r == Ok::<Size, std::io::Error>(Size { width: self@.width, height: self@.height }),
    {
        Ok(Size { width: self.buffer.area.width, height: self.buffer.area.height })
    }

    fn flush(&mut self) -> (r: std::io::Result<()>)
        ensures
            r is Ok,
            final(self)@ == old(self)@,
    {
        Ok(())
    }

    fn scroll_region_up(&mut self, region: std::ops::Range<u16>, line_count: u16) -> (r:
        std::io::Result<()>)
        ensures
            r is Ok,
            ({
                let v = old(self)@;
                let start = min_u16(region.start, v.height) * v.width;
                let end = min_u16(region.end, v.height) * v.width;
                &&& final(self)@.width == v.width
                &&& final(self)@.height == v.height
                &&& final(self)@.streamed_wraps == v.streamed_wraps
                &&& final(self)@.cursor == v.cursor
                &&& final(self)@.cursor_visible == v.cursor_visible
                &&& final(self)@.screen == if start < end {
                    shift_cells(v.screen, start, end, line_count * v.width, true)
                } else {
                    v.screen
                }
                &&& final(self)@.scrollback == if start == 0 {
                    v.scrollback + prefix_block(v.screen, end, (line_count * v.width) as nat)
                } else {
                    v.scrollback
                }
            }),
    {
        proof {
            use_type_invariant(&*self);
        }
        let w = self.buffer.area.width as usize;
        let h = self.buffer.area.height;
        let first_row = if region.start < h {
            region.start
        } else {
            h
        };
        let end_row = if region.end < h {
            region.end
        } else {
            h
        };
        proof {
            lemma_mul_le(first_row as int, h as int, w as int);
            lemma_mul_le(end_row as int, h as int, w as int);
            lemma_grid_fits(h as int, w as int);
            lemma_grid_fits(line_count as int, w as int);
            assert(h * w == cell_count(w as u16, h));
        }
        let start = first_row as usize * w;
        let end = end_row as usize * w;
        let shift = line_count as usize * w;
        if start == 0 {
            self.push_prefix_block(end, shift);
        }
        proof {
            use_type_invariant(&*self);
        }
        if start < end {
            let cells = self.shifted(start, end, shift, true);
            self.buffer.content = cells;
        }
        Ok(())
    }

    fn scroll_region_down(&mut self, region: std::ops::Range<u16>, line_count: u16) -> (r:
        std::io::Result<()>)
        ensures
            r is Ok,
            ({
                let v = old(self)@;
                let start = min_u16(region.start, v.height) * v.width;
                let end = min_u16(region.end, v.height) * v.width;
                final(self)@ == (TestBackendView {
                    screen: if start < end {
                        shift_cells(v.screen, start, end, line_count * v.width, false)
                    } else {
                        v.screen
                    },
                    ..v
                })
            }),
    {
        proof {
            use_type_invariant(&*self);
        }
        let w = self.buffer.area.width as usize;
        let h = self.buffer.area.height;
        let first_row = if region.start < h {
            region.start
        } else {
            h
        };
        let end_row = if region.end < h {
            region.end
        } else {
            h
        };
        proof {
            lemma_mul_le(first_row as int, h as int, w as int);
            lemma_mul_le(end_row as int, h as int, w as int);
            lemma_grid_fits(h as int, w as int);
            lemma_grid_fits(line_count as int, w as int);
            assert(h * w == cell_count(w as u16, h));
        }
        let start = first_row as usize * w;
        let end = end_row as usize * w;
        let shift = line_count as usize * w;
        if start < end {
            let cells = self.shifted(start, end, shift, false);
            self.buffer.content = cells;
        }
        Ok(())
    }

    fn stream_lines_to_scrollback(
        &mut self,
        content: &[Cell],
        width: u16,
        line_count: usize,
        screen_height: u16,
        row_wrapped: &[bool],
    ) -> (r: std::io::Result<()>)
        ensures
            r is Ok,
            ({
                let v = old(self)@;
                final(self)@ == (TestBackendView {
                    screen: shift_cells(
                        v.screen,
                        0,
                        v.screen.len() as int,
                        line_count * v.width,
                        true,
                    ),
                    scrollback: v.scrollback + snapshot_block(
                        content@.map_values(|x: Cell| x@),
                        width as int,
                        line_count as nat,
                        v.width as nat,
                    ),
                    streamed_wraps: v.streamed_wraps + wrap_flags(row_wrapped@, line_count as nat),
                    ..v
                })
            }),
    {
        proof {
            use_type_invariant(&*self);
        }
        let w = self.buffer.area.width as usize;
        let h = self.buffer.area.height as usize;
        let ghost views = content@.map_values(|x: Cell| x@);
        let ghost block = snapshot_block(views, width as int, line_count as nat, w as nat);
        let mut scrollback: Vec<Cell> = Vec::new();
        std::mem::swap(&mut scrollback, &mut self.scrollback);
        let ghost start = scrollback@.map_values(|x: Cell| x@);
        let mut r: usize = 0;
        while r < line_count
            invariant
                self.buffer == old(self).buffer,
                w == self.buffer.area.width,
                views == content@.map_values(|x: Cell| x@),
                block == snapshot_block(views, width as int, line_count as nat, w as nat),
                start == old(self)@.scrollback,
                r <= line_count,
                scrollback@.map_values(|x: Cell| x@) == start + block.subrange(0, r * w),
            decreases line_count - r,
        {
            let mut c: usize = 0;
            while c < w
                invariant
                    w == self.buffer.area.width,
                    views == content@.map_values(|x: Cell| x@),
                    block == snapshot_block(views, width as int, line_count as nat, w as nat),
                    r < line_count,
                    c <= w,
                    scrollback@.map_values(|x: Cell| x@) == start + block.subrange(0, r * w + c),
                decreases w - c,
            {
                proof {
                    assert(r * width <= u64::MAX * u16::MAX) by (nonlinear_arith)
                        requires
                            r <= u64::MAX,
                            width <= u16::MAX,
                    ;
                }
                let index: u128 = (r as u128) * (width as u128) + (c as u128);
                let cell = if c < width as usize && index < content.len() as u128 {
                    content[index as usize].clone()
                } else {
                    Cell::empty()
                };
                proof {
                    lemma_index_row_col(r as int, c as int, w as int);
                    lemma_cell_index(r as int, c as int, w as int, line_count as int);
                    assert(block[r * w + c] == cell@);
                    lemma_views_push(scrollback@, cell);
                    assert(block.subrange(0, r * w + c + 1) =~= block.subrange(0, r * w + c).push(
                        cell@,
                    ));
                }
                scrollback.push(cell);
                c += 1;
            }
            proof {
                assert(r * w + w == (r + 1) * w) by (nonlinear_arith);
            }
            r += 1;
        }
        assert(block.subrange(0, line_count * w) =~= block);
        self.scrollback = scrollback;
        let ghost flags = wrap_flags(row_wrapped@, line_count as nat);
        let mut wraps: Vec<bool> = Vec::new();
        std::mem::swap(&mut wraps, &mut self.wraps);
        let mut k: usize = 0;
        while k < line_count
            invariant
                k <= line_count,
                flags == wrap_flags(row_wrapped@, line_count as nat),
                wraps@ == old(self).wraps@ + flags.subrange(0, k as int),
            decreases line_count - k,
        {
            let flag = k < row_wrapped.len() && row_wrapped[k];
            proof {
                assert(flags.subrange(0, k + 1) =~= flags.subrange(0, k as int).push(flag));
            }
            wraps.push(flag);
            k += 1;
        }
        assert(flags.subrange(0, line_count as int) =~= flags);
        self.wraps = wraps;
        proof {
            use_type_invariant(&*self);
        }
        let len = self.buffer.content.len();
        let shift = if line_count >= h {
            len
        } else {
            proof {
                lemma_mul_le(line_count as int, h as int, w as int);
                lemma_grid_fits(h as int, w as int);
                assert(h * w == cell_count(w as u16, h as u16));
            }
            line_count * w
        };
        proof {
            if line_count >= h {
                lemma_mul_le(h as int, line_count as int, w as int);
                assert(h * w == cell_count(w as u16, h as u16));
            }
            assert(shift_cells(self.buffer.cells(), 0, len as int, shift as int, true) =~= shift_cells(
                self.buffer.cells(),
                0,
                len as int,
                line_count * w,
                true,
            ));
        }
        let cells = self.shifted(0, len, shift, true);
        self.buffer.content = cells;
        Ok(())
    }
}

} // verus!
