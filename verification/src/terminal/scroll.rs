//! Redrawing after rows were streamed into the terminal's native scrollback.
use vstd::prelude::*;

use crate::arith::{
    lemma_cell_index, lemma_grid_fits, lemma_index_row_col, lemma_mul_le, lemma_row_bound,
    lemma_row_col,
};
use crate::backend::{apply_updates, screen_shows, shift_cells};
use crate::buffer::{blank_cell, updates_view, Buffer, Cell, CellView};

verus! {

/// The cell at index `i`, or a blank cell past the end.
pub open spec fn cell_at(cells: Seq<CellView>, i: int) -> CellView {
    if 0 <= i < cells.len() {
        cells[i]
    } else {
        blank_cell()
    }
}

/// What the screen shows at `row`, `col` once `lines` rows were streamed into the scrollback:
/// the previous screen moved up by `lines` rows, blank below.
pub open spec fn post_stream_cell(
    previous: Seq<CellView>,
    width: int,
    height: int,
    lines: int,
    row: int,
    col: int,
) -> CellView {
    if row + lines < height {
        cell_at(previous, (row + lines) * width + col)
    } else {
        blank_cell()
    }
}

/// The state of the redraw scan: the updates so far, and whether the next cell at the start
/// of a row must be drawn because the row before it soft-wraps into it.
pub struct ScrollScan {
    /// The updates so far.
    pub updates: Seq<(u16, u16, CellView)>,
    /// Whether the next row start is forced.
    pub force: bool,
}

/// One step of the redraw scan, at `row`, `col`: a cell that is not skipped is drawn when it
/// differs from what the screen shows after streaming, or when it continues a soft-wrapped
/// row; a drawn cell that soft-wraps forces the next row start.
pub open spec fn scroll_step(
    s: ScrollScan,
    previous: Seq<CellView>,
    current: Seq<CellView>,
    width: int,
    height: int,
    lines: int,
    row: int,
    col: int,
) -> ScrollScan {
    let cell = cell_at(current, row * width + col);
    let force_current = s.force && col == 0;
    let force = if force_current {
        false
    } else {
        s.force
    };
    if !cell.skip && (force_current || cell != post_stream_cell(
        previous,
        width,
        height,
        lines,
        row,
        col,
    )) {
        ScrollScan {
            updates: s.updates.push((col as u16, row as u16, cell)),
            force: force || cell.soft_wrap,
        }
    } else {
        ScrollScan { updates: s.updates, force }
    }
}

/// The redraw scan over the first `n` cells, row by row.
pub open spec fn scroll_scan(
    previous: Seq<CellView>,
    current: Seq<CellView>,
    width: int,
    height: int,
    lines: int,
    n: int,
) -> ScrollScan
    decreases n,
{
    if n <= 0 || width <= 0 {
        ScrollScan { updates: seq![], force: false }
    } else {
        scroll_step(
            scroll_scan(previous, current, width, height, lines, n - 1),
            previous,
            current,
            width,
            height,
            lines,
            (n - 1) / width,
            (n - 1) % width,
        )
    }
}

/// The updates that turn a screen of `width` by `height` cells, which showed `previous` and
/// then streamed `lines` rows into the scrollback, into one showing `current`.
pub open spec fn scroll_updates_of(
    previous: Seq<CellView>,
    current: Seq<CellView>,
    width: u16,
    height: u16,
    lines: usize,
) -> Seq<(u16, u16, CellView)> {
    scroll_scan(
        previous,
        current,
        width as int,
        height as int,
        lines as int,
        width * height,
    ).updates
}

/// The cells to write, row by row, to turn a `width` by `height` screen that showed
/// `previous` and then streamed `scroll_lines` rows into the scrollback into one showing
/// `current`. Cells past the end of a buffer count as blank.
pub fn scroll_updates(
    previous: &Buffer,
    current: &Buffer,
    width: u16,
    height: u16,
    scroll_lines: usize,
) -> (updates: Vec<(u16, u16, Cell)>)
    ensures
        updates_view(updates@) == scroll_updates_of(
            previous.cells(),
            current.cells(),
            width,
            height,
            scroll_lines,
        ),
{
    let ghost prev = previous.cells();
    let ghost cur = current.cells();
    let ghost w = width as int;
    let ghost h = height as int;
    let ghost k = scroll_lines as int;
    let wide = width as usize;
    let blank = Cell::empty();
    let mut updates: Vec<(u16, u16, Cell)> = Vec::new();
    let mut force = false;
    let mut row: u16 = 0;
    proof {
        lemma_grid_fits(w, h);
        assert(updates_view(updates@) =~= Seq::<(u16, u16, CellView)>::empty());
    }
    while row < height
        invariant
            prev == previous.cells(),
            cur == current.cells(),
            w == width,
            h == height,
            k == scroll_lines,
            wide == width,
            blank@ == blank_cell(),
            row <= height,
            0 <= w * h <= u16::MAX * u16::MAX,
            (ScrollScan { updates: updates_view(updates@), force }) == scroll_scan(
                prev,
                cur,
                w,
                h,
                k,
                row * w,
            ),
        decreases height - row,
    {
        let mut col: u16 = 0;
        while col < width
            invariant
                prev == previous.cells(),
                cur == current.cells(),
                w == width,
                h == height,
                k == scroll_lines,
                wide == width,
                blank@ == blank_cell(),
                row < height,
                col <= width,
                0 <= w * h <= u16::MAX * u16::MAX,
                (ScrollScan { updates: updates_view(updates@), force }) == scroll_scan(
                    prev,
                    cur,
                    w,
                    h,
                    k,
                    row * w + col,
                ),
            decreases width - col,
        {
            proof {
                lemma_cell_index(row as int, col as int, w, h);
                lemma_index_row_col(row as int, col as int, w);
            }
            let index = row as usize * wide + col as usize;
            let current_cell = if index < current.content.len() {
                &current.content[index]
            } else {
                &blank
            };
            let post_stream = if scroll_lines < (height - row) as usize {
                proof {
                    lemma_cell_index(row + k, col as int, w, h);
                }
                let previous_index = (row as usize + scroll_lines) * wide + col as usize;
                if previous_index < previous.content.len() {
                    &previous.content[previous_index]
                } else {
                    &blank
                }
            } else {
                &blank
            };
            let force_current = force && col == 0;
            if force_current {
                force = false;
            }
            if !current_cell.skip() && (force_current || current_cell != post_stream) {
                let t = (col, row, current_cell.clone());
                proof {
                    assert(updates_view(updates@.push(t)) =~= updates_view(updates@).push(
                        (col, row, current_cell@),
                    ));
                }
                updates.push(t);
                if current_cell.soft_wrap() {
                    force = true;
                }
            }
            col += 1;
        }
        proof {
            assert(row * w + w == (row + 1) * w) by (nonlinear_arith);
        }
        row += 1;
    }
    proof {
        assert(height * w == w * h) by (nonlinear_arith)
            requires
                w == width,
                h == height,
        ;
    }
    updates
}

} // verus!

verus! {

proof fn lemma_post_stream_is_shift(
    previous: Seq<CellView>,
    width: int,
    height: int,
    lines: int,
    row: int,
    col: int,
)
    requires
        0 <= row < height,
        0 <= col < width,
        0 <= lines,
        previous.len() == width * height,
    ensures
        post_stream_cell(previous, width, height, lines, row, col) == shift_cells(
            previous,
            0,
            width * height,
            lines * width,
            true,
        )[row * width + col],
{
    lemma_cell_index(row, col, width, height);
    assert((row + lines) * width + col == row * width + col + lines * width) by (nonlinear_arith);
    if row + lines < height {
        lemma_cell_index(row + lines, col, width, height);
    } else {
        lemma_mul_le(height, row + lines, width);
        assert(height * width == width * height) by (nonlinear_arith);
    }
}

proof fn lemma_apply_scroll_scan(
    previous: Seq<CellView>,
    current: Seq<CellView>,
    width: u16,
    height: u16,
    lines: usize,
    n: int,
)
    requires
        previous.len() == width * height,
        current.len() == width * height,
        0 <= n <= width * height,
    ensures
        ({
            let screen = shift_cells(previous, 0, width * height, lines * width, true);
            let after = apply_updates(
                screen,
                width,
                height,
                scroll_scan(
                    previous,
                    current,
                    width as int,
                    height as int,
                    lines as int,
                    n,
                ).updates,
            );
            &&& after.len() == screen.len()
            &&& forall|j: int|
                0 <= j < screen.len() ==> #[trigger] after[j] == if j < n && !current[j].skip {
                    current[j]
                } else {
                    screen[j]
                }
        }),
    decreases n,
{
    let w = width as int;
    let h = height as int;
    let k = lines as int;
    if n > 0 && w > 0 {
        lemma_apply_scroll_scan(previous, current, width, height, lines, n - 1);
        let i = n - 1;
        lemma_row_col(i, w);
        lemma_row_bound(i, w, h);
        let row = i / w;
        let col = i % w;
        let s = scroll_scan(previous, current, w, h, k, n - 1);
        let cell = cell_at(current, row * w + col);
        let force_current = s.force && col == 0;
        if !cell.skip && (force_current || cell != post_stream_cell(
            previous,
            w,
            h,
            k,
            row,
            col,
        )) {
            let t = (col as u16, row as u16, cell);
            assert(s.updates.push(t).drop_last() =~= s.updates);
        } else {
            lemma_post_stream_is_shift(previous, w, h, k, row, col);
        }
    }
}

proof fn lemma_apply_scroll_scan_shows(
    screen: Seq<CellView>,
    previous: Seq<CellView>,
    current: Seq<CellView>,
    width: u16,
    height: u16,
    lines: usize,
    n: int,
)
    requires
        screen_shows(screen, previous),
        previous.len() == width * height,
        current.len() == width * height,
        0 <= n <= width * height,
    ensures
        ({
            let shifted = shift_cells(screen, 0, width * height, lines * width, true);
            let after = apply_updates(
                shifted,
                width,
                height,
                scroll_scan(
                    previous,
                    current,
                    width as int,
                    height as int,
                    lines as int,
                    n,
                ).updates,
            );
            &&& after.len() == shifted.len()
            &&& forall|j: int| n <= j < shifted.len() ==> #[trigger] after[j] == shifted[j]
            &&& forall|j: int|
                0 <= j < n ==> #[trigger] current[j].skip || current[j].stale || after[j]
                    == current[j]
        }),
    decreases n,
{
    let w = width as int;
    let h = height as int;
    let k = lines as int;
    let shifted = shift_cells(screen, 0, width * height, lines * width, true);
    if n > 0 && w > 0 {
        lemma_apply_scroll_scan_shows(screen, previous, current, width, height, lines, n - 1);
        let i = n - 1;
        lemma_row_col(i, w);
        lemma_row_bound(i, w, h);
        let row = i / w;
        let col = i % w;
        let s = scroll_scan(previous, current, w, h, k, n - 1);
        let before = apply_updates(shifted, width, height, s.updates);
        let next = scroll_scan(previous, current, w, h, k, n);
        let after = apply_updates(shifted, width, height, next.updates);
        let cell = cell_at(current, row * w + col);
        assert(cell == current[i]);
        let force_current = s.force && col == 0;
        if !cell.skip && (force_current || cell != post_stream_cell(
            previous,
            w,
            h,
            k,
            row,
            col,
        )) {
            let t = (col as u16, row as u16, cell);
            assert(next.updates == s.updates.push(t));
            assert(s.updates.push(t).drop_last() =~= s.updates);
            assert(after == before.update(i, cell));
        } else {
            assert(next.updates == s.updates);
            lemma_post_stream_is_shift(previous, w, h, k, row, col);
            lemma_post_stream_is_shift(screen, w, h, k, row, col);
            if row + k < h {
                lemma_cell_index(row + k, col, w, h);
                let src = (row + k) * w + col;
                assert(previous[src].skip || previous[src].stale || screen[src] == previous[src]);
            }
            assert(before[i] == shifted[i]);
        }
        assert forall|j: int| 0 <= j < n implies #[trigger] current[j].skip || current[j].stale
            || after[j] == current[j] by {
            if j < i {
                assert(current[j].skip || current[j].stale || before[j] == current[j]);
            }
        }
    }
}

/// Whether `updates` holds an update of the cell at column `col`, row `row`.
pub open spec fn writes_cell(updates: Seq<(u16, u16, CellView)>, col: int, row: int) -> bool {
    exists|k: int| 0 <= k < updates.len() && updates[k].0 == col && updates[k].1 == row
}

/// Whether `updates` writes a cell of row `row` that soft-wraps into the next row.
pub open spec fn writes_wrap(updates: Seq<(u16, u16, CellView)>, row: int) -> bool {
    exists|k: int| 0 <= k < updates.len() && updates[k].1 == row && updates[k].2.soft_wrap
}

/// Whether the redraw after streaming `lines` rows writes the cell at `row`, `col`, given the
/// other cells it writes (`updates`): a cell that is not skipped is written when it differs
/// from what the screen shows after streaming, or when it starts a row and a written cell of
/// the row before soft-wraps into it.
pub open spec fn must_write(
    updates: Seq<(u16, u16, CellView)>,
    previous: Seq<CellView>,
    current: Seq<CellView>,
    width: int,
    height: int,
    lines: int,
    row: int,
    col: int,
) -> bool {
    let cell = cell_at(current, row * width + col);
    &&& !cell.skip
    &&& cell != post_stream_cell(previous, width, height, lines, row, col) || (col == 0
        && writes_wrap(updates, row - 1))
}

/// Whether the cell at `row`, `col` comes before the one at `row2`, `col2`, row by row.
pub open spec fn before_cell(row: int, col: int, row2: int, col2: int) -> bool {
    row < row2 || (row == row2 && col < col2)
}

/// What the first `n` steps of the redraw scan hold, cell by cell.
spec fn scan_holds(
    previous: Seq<CellView>,
    current: Seq<CellView>,
    width: int,
    height: int,
    lines: int,
    n: int,
) -> bool {
    let s = scroll_scan(previous, current, width, height, lines, n);
    let u = s.updates;
    let r = n / width;
    let c = n % width;
    &&& forall|k: int|
        0 <= k < u.len() ==> {
            &&& 0 <= (#[trigger] u[k]).0 < width
            &&& before_cell(u[k].1 as int, u[k].0 as int, r, c)
            &&& u[k].2 == cell_at(current, u[k].1 * width + u[k].0)
        }
    &&& forall|k1: int, k2: int|
        0 <= k1 < k2 < u.len() ==> before_cell(
            (#[trigger] u[k1]).1 as int,
            u[k1].0 as int,
            (#[trigger] u[k2]).1 as int,
            u[k2].0 as int,
        )
    &&& forall|row: int, col: int|
        0 <= row && 0 <= col < width && before_cell(row, col, r, c) ==> (#[trigger] writes_cell(
            u,
            col,
            row,
        ) <==> must_write(u, previous, current, width, height, lines, row, col))
    &&& s.force == if c == 0 {
        writes_wrap(u, r - 1)
    } else {
        writes_wrap(u, r)
    }
}

proof fn lemma_scan_holds(
    previous: Seq<CellView>,
    current: Seq<CellView>,
    width: int,
    height: int,
    lines: int,
    n: int,
)
    requires
        0 < width <= u16::MAX,
        0 <= height <= u16::MAX,
        0 <= n <= width * height,
    ensures
        scan_holds(previous, current, width, height, lines, n),
    decreases n,
{
    if n == 0 {
        lemma_index_row_col(0, 0, width);
        let u = scroll_scan(previous, current, width, height, lines, 0).updates;
        assert(u.len() == 0);
        assert(!writes_wrap(u, -1));
    } else {
        let m = n - 1;
        lemma_scan_holds(previous, current, width, height, lines, m);
        lemma_row_col(m, width);
        let r = m / width;
        let c = m % width;
        lemma_row_bound(m, width, height);
        let s = scroll_scan(previous, current, width, height, lines, m);
        let u = s.updates;
        let t = scroll_scan(previous, current, width, height, lines, n);
        let v = t.updates;
        assert(t == scroll_step(s, previous, current, width, height, lines, r, c));
        if c + 1 < width {
            lemma_index_row_col(r, c + 1, width);
        } else {
            lemma_index_row_col(r + 1, 0, width);
            assert((r + 1) * width == r * width + width) by (nonlinear_arith);
        }
        let r2 = n / width;
        let c2 = n % width;
        assert(forall|row: int, col: int|
            0 <= col < width ==> (before_cell(row, col, r2, c2) <==> (before_cell(row, col, r, c)
                || (row == r && col == c))));
        let cell = cell_at(current, r * width + c);
        let written = v.len() == u.len() + 1;
        assert(!writes_cell(u, c, r));
        assert forall|row: int| row != r implies writes_wrap(v, row) == writes_wrap(u, row) by {
            if writes_wrap(v, row) {
                let k = choose|k: int| 0 <= k < v.len() && v[k].1 == row && v[k].2.soft_wrap;
                assert(k < u.len() && u[k] == v[k]);
            }
            if writes_wrap(u, row) {
                let k = choose|k: int| 0 <= k < u.len() && u[k].1 == row && u[k].2.soft_wrap;
                assert(v[k] == u[k]);
            }
        }
        assert forall|row: int, col: int|
            0 <= row && 0 <= col < width && before_cell(row, col, r, c) implies writes_cell(v, col, row)
            == writes_cell(u, col, row) by {
            if writes_cell(v, col, row) {
                let k = choose|k: int| 0 <= k < v.len() && v[k].0 == col && v[k].1 == row;
                if k == u.len() {
                    assert(v[k].0 == c && v[k].1 == r);
                }
                assert(k < u.len() && u[k] == v[k]);
            }
            if writes_cell(u, col, row) {
                let k = choose|k: int| 0 <= k < u.len() && u[k].0 == col && u[k].1 == row;
                assert(v[k] == u[k]);
            }
        }
        if written {
            assert(v[u.len() as int] == (c as u16, r as u16, cell));
            assert(writes_cell(v, c, r));
            if cell.soft_wrap {
                assert(writes_wrap(v, r));
            }
        } else {
            assert(v == u);
        }
        assert(writes_wrap(v, r) == (writes_wrap(u, r) || (written && cell.soft_wrap))) by {
            if writes_wrap(v, r) && !writes_wrap(u, r) {
                let k = choose|k: int| 0 <= k < v.len() && v[k].1 == r && v[k].2.soft_wrap;
                if k < u.len() {
                    assert(u[k] == v[k]);
                }
            }
            if writes_wrap(u, r) {
                let k = choose|k: int| 0 <= k < u.len() && u[k].1 == r && u[k].2.soft_wrap;
                assert(v[k] == u[k]);
            }
        }
        if c == 0 {
            assert(!writes_wrap(u, r)) by {
                if writes_wrap(u, r) {
                    let k = choose|k: int| 0 <= k < u.len() && u[k].1 == r && u[k].2.soft_wrap;
                    assert(before_cell(u[k].1 as int, u[k].0 as int, r, c));
                }
            }
        }
    }
}

/// Law: the redraw after streaming `lines` rows into the scrollback writes, in order row by
/// row, each cell of the screen (as `current` has it) that is not skipped and either differs
/// from what the screen shows after streaming or starts a row whose row before has a written
/// cell that soft-wraps into it; no other cell.
pub proof fn law_scroll_updates_per_cell(
    previous: Seq<CellView>,
    current: Seq<CellView>,
    width: u16,
    height: u16,
    lines: usize,
)
    ensures
        ({
            let u = scroll_updates_of(previous, current, width, height, lines);
            &&& forall|k: int|
                0 <= k < u.len() ==> (#[trigger] u[k]).0 < width && u[k].1 < height && u[k].2
                    == cell_at(current, u[k].1 * width + u[k].0)
            &&& forall|k1: int, k2: int|
                0 <= k1 < k2 < u.len() ==> before_cell(
                    (#[trigger] u[k1]).1 as int,
                    u[k1].0 as int,
                    (#[trigger] u[k2]).1 as int,
                    u[k2].0 as int,
                )
            &&& forall|row: int, col: int|
                0 <= row < height && 0 <= col < width ==> (#[trigger] writes_cell(u, col, row)
                    <==> must_write(u, previous, current, width as int, height as int, lines as int, row, col))
        }),
{
    let w = width as int;
    let h = height as int;
    if w == 0 {
        assert(scroll_updates_of(previous, current, width, height, lines).len() == 0);
    } else {
        lemma_grid_fits(w, h);
        lemma_scan_holds(previous, current, w, h, lines as int, w * h);
        lemma_index_row_col(h, 0, w);
        assert(h * w == w * h) by (nonlinear_arith);
    }
}

/// Law: a screen that agrees with `previous` (wherever that buffer's cell is neither skipped
/// nor invalidated) agrees with `current` in the same way once it has streamed `lines` rows
/// into the scrollback and the cells that [`scroll_updates`] reports are written onto it.
pub proof fn law_scroll_keeps_screen_in_step(
    screen: Seq<CellView>,
    previous: Seq<CellView>,
    current: Seq<CellView>,
    width: u16,
    height: u16,
    lines: usize,
)
    requires
        screen_shows(screen, previous),
        previous.len() == width * height,
        current.len() == width * height,
    ensures
        screen_shows(
            apply_updates(
                shift_cells(screen, 0, width * height, lines * width, true),
                width,
                height,
                scroll_updates_of(previous, current, width, height, lines),
            ),
            current,
        ),
{
    lemma_apply_scroll_scan_shows(screen, previous, current, width, height, lines, width * height);
}

/// Law: once a screen that showed `previous` has streamed `lines` rows into the scrollback
/// (its rows moved up by `lines`, blank below), writing the cells that [`scroll_updates`]
/// reports makes it show `current`; a skipped cell keeps what the screen showed.
pub proof fn law_scroll_redraws_current(
    previous: Seq<CellView>,
    current: Seq<CellView>,
    width: u16,
    height: u16,
    lines: usize,
)
    requires
        previous.len() == width * height,
        current.len() == width * height,
    ensures
        ({
            let screen = shift_cells(previous, 0, width * height, lines * width, true);
            let after = apply_updates(
                screen,
                width,
                height,
                scroll_updates_of(previous, current, width, height, lines),
            );
            &&& after.len() == current.len()
            &&& forall|i: int|
                0 <= i < after.len() ==> #[trigger] after[i] == if current[i].skip {
                    screen[i]
                } else {
                    current[i]
                }
        }),
{
    lemma_apply_scroll_scan(previous, current, width, height, lines, width * height);
}

} // verus!
