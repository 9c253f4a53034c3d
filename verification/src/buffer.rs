//! Cells and buffers: the grid of symbols that a frame is drawn into.
use vstd::prelude::*;

use crate::arith::{lemma_grid_fits, lemma_row_col};
use crate::layout::{cell_count, Position, Rect};
use vstd::std_specs::convert::IntoSpec;

verus! {

/// What a cell holds.
pub struct CellView {
    /// The symbol shown in the cell.
    pub symbol: Seq<char>,
    /// Whether drawing skips the cell (another one covers it).
    pub skip: bool,
    /// Whether the row soft-wraps after this cell.
    pub soft_wrap: bool,
    /// Whether the cell is a placeholder that compares unequal to every drawn cell.
    pub stale: bool,
}

/// The blank cell: a space, drawn, not wrapping.
pub open spec fn blank_cell() -> CellView {
    CellView { symbol: seq![' '], skip: false, soft_wrap: false, stale: false }
}

/// The placeholder that an invalidated buffer holds.
pub open spec fn stale_cell() -> CellView {
    CellView { symbol: seq![' '], skip: false, soft_wrap: false, stale: true }
}

/// One cell of a buffer.
#[derive(Debug, Eq, Hash)]
pub struct Cell {
    symbol: String,
    skip: bool,
    soft_wrap: bool,
    stale: bool,
}

impl View for Cell {
    type V = CellView;

    closed spec fn view(&self) -> CellView {
        CellView {
            symbol: self.symbol@,
            skip: self.skip,
            soft_wrap: self.soft_wrap,
            stale: self.stale,
        }
    }
}

impl Cell {
    /// A blank cell.
    pub fn empty() -> (c: Cell)
        ensures
            c@ == blank_cell(),
    {
        proof {
            reveal_strlit(" ");
            assert(" "@ =~= seq![' ']);
        }
        Cell { symbol: " ".to_owned(), skip: false, soft_wrap: false, stale: false }
    }

    /// A cell showing `symbol`.
    pub fn new(symbol: &str) -> (c: Cell)
        ensures
            c@ == (CellView { symbol: symbol@, skip: false, soft_wrap: false, stale: false }),
    {
        Cell { symbol: symbol.to_owned(), skip: false, soft_wrap: false, stale: false }
    }

    /// A placeholder cell that differs from every cell drawn by a widget.
    pub fn stale() -> (c: Cell)
        ensures
            c@ == stale_cell(),
    {
        proof {
            reveal_strlit(" ");
            assert(" "@ =~= seq![' ']);
        }
        Cell { symbol: " ".to_owned(), skip: false, soft_wrap: false, stale: true }
    }

    /// The symbol of the cell.
    pub fn symbol(&self) -> (s: &str)
        ensures
            s@ == self@.symbol,
    {
        self.symbol.as_str()
    }

    /// Sets the symbol of the cell.
    pub fn set_symbol(&mut self, symbol: &str) -> (r: &mut Cell)
        ensures
            r@ == (CellView { symbol: symbol@, stale: false, ..old(self)@ }),
            *final(self) == *final(r),
    {
        self.symbol = symbol.to_owned();
        self.stale = false;
        self
    }

    /// Whether drawing skips the cell.
    pub fn skip(&self) -> (b: bool)
        ensures
            b == self@.skip,
    {
        self.skip
    }

    /// Sets whether drawing skips the cell.
    pub fn set_skip(&mut self, skip: bool) -> (r: &mut Cell)
        ensures
            r@ == (CellView { skip, stale: false, ..old(self)@ }),
            *final(self) == *final(r),
    {
        self.skip = skip;
        self.stale = false;
        self
    }

    /// Whether the row soft-wraps after this cell.
    pub fn soft_wrap(&self) -> (b: bool)
        ensures
            b == self@.soft_wrap,
    {
        self.soft_wrap
    }

    /// Sets whether the row soft-wraps after this cell.
    pub fn set_soft_wrap(&mut self, soft_wrap: bool) -> (r: &mut Cell)
        ensures
            r@ == (CellView { soft_wrap, stale: false, ..old(self)@ }),
            *final(self) == *final(r),
    {
        self.soft_wrap = soft_wrap;
        self.stale = false;
        self
    }

    /// Makes the cell blank.
    pub fn reset(&mut self)
        ensures
            final(self)@ == blank_cell(),
    {
        *self = Cell::empty();
    }
}

impl Default for Cell {
    fn default() -> (c: Cell)
        ensures
            c@ == blank_cell(),
    {
        Cell::empty()
    }
}

impl Clone for Cell {
    fn clone(&self) -> (c: Cell)
        ensures
            c@ == self@,
    {
        Cell {
            symbol: self.symbol.clone(),
            skip: self.skip,
            soft_wrap: self.soft_wrap,
            stale: self.stale,
        }
    }
}

impl PartialEq for Cell {
    fn eq(&self, other: &Cell) -> (b: bool) {
        self.symbol == other.symbol && self.skip == other.skip && self.soft_wrap
            == other.soft_wrap && self.stale == other.stale
    }
}

impl vstd::std_specs::cmp::PartialEqSpecImpl for Cell {
    open spec fn obeys_eq_spec() -> bool {
        true
    }

    open spec fn eq_spec(&self, other: &Cell) -> bool {
        self@ == other@
    }
}

/// The column of the `i`-th cell of a buffer over `area` (wrapping at the edge of the
/// coordinate space; a buffer of no width places every cell at its corner).
pub open spec fn pos_x(area: Rect, i: int) -> u16 {
    if area.width == 0 {
        area.x
    } else {
        (area.x + i % (area.width as int)) as u16
    }
}

/// The row of the `i`-th cell of a buffer over `area` (wrapping at the edge of the
/// coordinate space; a buffer of no width places every cell at its corner).
pub open spec fn pos_y(area: Rect, i: int) -> u16 {
    if area.width == 0 {
        area.y
    } else {
        (area.y + i / (area.width as int)) as u16
    }
}

/// Whether a cell must be written to turn `previous` into `next`.
pub open spec fn needs_draw(previous: CellView, next: CellView) -> bool {
    !next.skip && next != previous
}

/// The updates for the first `n` cells: each cell of `next` that differs from the cell of
/// `previous` at its index and is not skipped, in index order, at its position in `area`.
pub open spec fn diff_prefix(
    area: Rect,
    previous: Seq<CellView>,
    next: Seq<CellView>,
    n: nat,
) -> Seq<(u16, u16, CellView)>
    decreases n,
{
    if n == 0 {
        seq![]
    } else {
        let i = n - 1;
        let rest = diff_prefix(area, previous, next, (n - 1) as nat);
        if needs_draw(previous[i], next[i]) {
            rest.push((pos_x(area, i), pos_y(area, i), next[i]))
        } else {
            rest
        }
    }
}

/// The smaller of two lengths.
pub open spec fn min_len(a: nat, b: nat) -> nat {
    if a <= b {
        a
    } else {
        b
    }
}

/// The updates that turn the cells `previous` of a buffer over `area` into `next`.
pub open spec fn diff_cells(area: Rect, previous: Seq<CellView>, next: Seq<CellView>) -> Seq<
    (u16, u16, CellView),
> {
    diff_prefix(area, previous, next, min_len(previous.len(), next.len()))
}

/// The updates with each cell taken by its view.
pub open spec fn updates_view(updates: Seq<(u16, u16, Cell)>) -> Seq<(u16, u16, CellView)> {
    updates.map_values(|t: (u16, u16, Cell)| (t.0, t.1, t.2@))
}

/// Whether `position` lies in `area`.
pub open spec fn in_area(area: Rect, position: Position) -> bool {
    area.x <= position.x < area.x + area.width && area.y <= position.y < area.y + area.height
}

/// The index of the cell at `position` in a buffer over `area`.
pub open spec fn index_in(area: Rect, position: Position) -> int {
    (position.y - area.y) * (area.width as int) + (position.x - area.x)
}

/// Every cell of `next` among the first `n` that is not skipped, in index order, at its
/// position in `area`.
pub open spec fn all_cells_prefix(area: Rect, next: Seq<CellView>, n: nat) -> Seq<(u16, u16, CellView)>
    decreases n,
{
    if n == 0 {
        seq![]
    } else {
        let i = n - 1;
        let rest = all_cells_prefix(area, next, (n - 1) as nat);
        if !next[i].skip {
            rest.push((pos_x(area, i), pos_y(area, i), next[i]))
        } else {
            rest
        }
    }
}

proof fn lemma_diff_against_stale(area: Rect, previous: Seq<CellView>, next: Seq<CellView>, n: nat)
    requires
        n <= previous.len(),
        previous.len() == next.len(),
        forall|i: int| 0 <= i < previous.len() ==> previous[i] == stale_cell(),
        forall|i: int| 0 <= i < next.len() ==> !next[i].stale,
    ensures
        diff_prefix(area, previous, next, n) == all_cells_prefix(area, next, n),
    decreases n,
{
    if n > 0 {
        lemma_diff_against_stale(area, previous, next, (n - 1) as nat);
    }
}

/// Law: comparing against an invalidated buffer finds every cell that is not skipped, blank
/// ones included, so the next draw writes all of them.
pub proof fn law_invalidated_buffer_redraws_everything(
    area: Rect,
    previous: Seq<CellView>,
    next: Seq<CellView>,
)
    requires
        previous.len() == next.len(),
        forall|i: int| 0 <= i < previous.len() ==> previous[i] == stale_cell(),
        forall|i: int| 0 <= i < next.len() ==> !next[i].stale,
    ensures
        diff_cells(area, previous, next) == all_cells_prefix(area, next, next.len()),
{
    lemma_diff_against_stale(area, previous, next, next.len());
}

/// A rectangular grid of cells, stored row by row.
#[derive(Debug, Default, Clone, PartialEq, Eq, Hash)]
pub struct Buffer {
    /// The area of the screen that the buffer covers.
    pub area: Rect,
    /// The cells, row by row.
    pub content: Vec<Cell>,
}

proof fn lemma_push_view(updates: Seq<(u16, u16, Cell)>, t: (u16, u16, Cell))
    ensures
        updates_view(updates.push(t)) == updates_view(updates).push((t.0, t.1, t.2@)),
{
    assert(updates_view(updates.push(t)) =~= updates_view(updates).push((t.0, t.1, t.2@)));
}

impl Buffer {
    /// The views of the cells.
    pub open spec fn cells(self) -> Seq<CellView> {
        self.content@.map_values(|c: Cell| c@)
    }

    /// The buffer holds one cell for each cell of its area.
    pub open spec fn wf(self) -> bool {
        self.content@.len() == cell_count(self.area.width, self.area.height)
    }

    /// A buffer over `area` filled with blank cells.
    pub fn empty(area: Rect) -> (b: Buffer)
        ensures
            b.area == area,
            b.wf(),
            forall|i: int| 0 <= i < b.cells().len() ==> b.cells()[i] == blank_cell(),
    {
        let length = area.area() as usize;
        let mut content: Vec<Cell> = Vec::new();
        while content.len() < length
            invariant
                length == cell_count(area.width, area.height),
                content@.len() <= length,
                forall|i: int| 0 <= i < content@.len() ==> content@[i]@ == blank_cell(),
            decreases length - content@.len(),
        {
            content.push(Cell::empty());
        }
        Buffer { area, content }
    }

    /// Changes the area of the buffer: the cells are cut at the new number of cells or
    /// extended with blank cells.
    pub fn resize(&mut self, area: Rect)
        ensures
            final(self).area == area,
            final(self).wf(),
            forall|i: int|
                0 <= i < final(self).cells().len() ==> #[trigger] final(self).cells()[i] == if i
                    < old(self).cells().len() {
                    old(self).cells()[i]
                } else {
                    blank_cell()
                },
    {
        let length = self.area_len(area);
        if self.content.len() > length {
            self.content.truncate(length);
        } else {
            let ghost before = self.content@;
            while self.content.len() < length
                invariant
                    before.len() <= self.content@.len() <= length,
                    forall|i: int| 0 <= i < before.len() ==> self.content@[i] == before[i],
                    forall|i: int|
                        before.len() <= i < self.content@.len() ==> self.content@[i]@
                            == blank_cell(),
                decreases length - self.content@.len(),
            {
                self.content.push(Cell::empty());
            }
        }
        self.area = area;
    }

    fn area_len(&self, area: Rect) -> (n: usize)
        ensures
            n == cell_count(area.width, area.height),
    {
        area.area() as usize
    }

    /// Makes every cell blank.
    pub fn reset(&mut self)
        ensures
            final(self).area == old(self).area,
            final(self).content@.len() == old(self).content@.len(),
            forall|i: int| 0 <= i < final(self).cells().len() ==> final(self).cells()[i] == blank_cell(),
    {
        let length = self.content.len();
        let mut i: usize = 0;
        while i < length
            invariant
                length == self.content@.len(),
                self.area == old(self).area,
                i <= length,
                forall|j: int| 0 <= j < i ==> self.content@[j]@ == blank_cell(),
            decreases length - i,
        {
            self.content.set(i, Cell::empty());
            i += 1;
        }
    }

    /// Fills the buffer with placeholders, so that the next comparison against it finds every
    /// cell changed.
    pub fn invalidate(&mut self)
        ensures
            final(self).area == old(self).area,
            final(self).content@.len() == old(self).content@.len(),
            forall|i: int| 0 <= i < final(self).cells().len() ==> final(self).cells()[i] == stale_cell(),
    {
        let length = self.content.len();
        let mut i: usize = 0;
        while i < length
            invariant
                length == self.content@.len(),
                self.area == old(self).area,
                i <= length,
                forall|j: int| 0 <= j < i ==> self.content@[j]@ == stale_cell(),
            decreases length - i,
        {
            self.content.set(i, Cell::stale());
            i += 1;
        }
    }

    /// The cells to write to turn a screen showing `self` into one showing `other`: each cell
    /// of `other` that differs from the cell of `self` at its index and is not skipped, with
    /// its position in the area of `self`, in index order.
    pub fn diff(&self, other: &Buffer) -> (updates: Vec<(u16, u16, Cell)>)
        ensures
            updates_view(updates@) == diff_cells(self.area, self.cells(), other.cells()),
    {
        let n = if self.content.len() < other.content.len() {
            self.content.len()
        } else {
            other.content.len()
        };
        let width = self.area.width as usize;
        let mut updates: Vec<(u16, u16, Cell)> = Vec::new();
        let mut i: usize = 0;
        while i < n
            invariant
                n == min_len(self.content@.len(), other.content@.len()),
                i <= n,
                n <= self.content@.len(),
                width == self.area.width,
                updates_view(updates@) == diff_prefix(
                    self.area,
                    self.cells(),
                    other.cells(),
                    i as nat,
                ),
            decreases n - i,
        {
            let current = &other.content[i];
            let previous = &self.content[i];
            if !current.skip() && current != previous {
                let (x, y) = if width == 0 {
                    (self.area.x, self.area.y)
                } else {
                    proof {
                        lemma_row_col(i as int, width as int);
                    }
                    (
                        (self.area.x as u128 + (i % width) as u128) as u16,
                        (self.area.y as u128 + (i / width) as u128) as u16,
                    )
                };
                let t = (x, y, current.clone());
                proof {
                    lemma_push_view(updates@, t);
                }
                updates.push(t);
            }
            i += 1;
        }
        updates
    }

    /// The cell at `position`, or `None` where the position lies outside the area.
    pub fn cell<P: Into<Position>>(&self, position: P) -> (r: Option<&Cell>)
        requires
            self.wf(),
        ensures
            P::obeys_into_spec() ==> (r is Some <==> in_area(self.area, position.into_spec())),
            P::obeys_into_spec() && in_area(self.area, position.into_spec()) ==> r == Some(
                &self.content@[index_in(self.area, position.into_spec())],
            ),
    {
        let position: Position = position.into();
        match self.index_of(position) {
            Some(i) => Some(&self.content[i]),
            None => None,
        }
    }

    /// The cell at `position` for writing, or `None` where the position lies outside the
    /// area.
    pub fn cell_mut<P: Into<Position>>(&mut self, position: P) -> (r: Option<&mut Cell>)
        requires
            old(self).wf(),
        ensures
            P::obeys_into_spec() ==> (r is Some <==> in_area(
                old(self).area,
                position.into_spec(),
            )),
            r is None ==> *final(self) == *old(self),
            r matches Some(c) ==> exists|i: int|
                0 <= i < old(self).content@.len() && *c == old(self).content@[i]
                    && final(self).content@ == old(self).content@.update(i, *final(c))
                    && (P::obeys_into_spec() ==> i == index_in(
                    old(self).area,
                    position.into_spec(),
                )),
            final(self).area == old(self).area,
    {
        let position: Position = position.into();
        match self.index_of(position) {
            Some(i) => Some(&mut self.content[i]),
            None => None,
        }
    }

    fn index_of(&self, position: Position) -> (r: Option<usize>)
        requires
            self.wf(),
        ensures
            r is Some <==> in_area(self.area, position),
            r matches Some(i) ==> i == index_in(self.area, position) && i < self.content@.len(),
    {
        if self.area.x <= position.x && (position.x as u32) < self.area.x as u32
            + self.area.width as u32 && self.area.y <= position.y && (position.y as u32)
            < self.area.y as u32 + self.area.height as u32 {
            let row = (position.y - self.area.y) as usize;
            let col = (position.x - self.area.x) as usize;
            let width = self.area.width as usize;
            proof {
                crate::arith::lemma_cell_index(
                    row as int,
                    col as int,
                    width as int,
                    self.area.height as int,
                );
                lemma_grid_fits(width as int, self.area.height as int);
            }
            Some(row * width + col)
        } else {
            None
        }
    }
}

} // verus!
