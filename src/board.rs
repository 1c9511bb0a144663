use vstd::prelude::*;

use crate::shapes::{shape, lemma_shape_small, Color, RotationState, Tetromino};

verus! {

/// Number of columns of the grid.
pub const COLUMNS: usize = 10;

/// Number of rows of the grid; row `0` is the bottom one.
pub const ROWS: usize = 20;

/// One slot of the grid.
#[derive(Clone, Copy, PartialEq, Eq, Structural, Debug)]
pub enum Cell {
    Empty,
    Filled(Color),
    /// Part of a completed row that waits to be removed.
    PendingClear,
}

/// The mathematical model of a grid: its cells, row by row from the bottom,
/// and the cached highest occupied row.
pub struct BoardView {
    pub cells: Seq<Cell>,
    pub highest: int,
}

pub open spec fn in_grid(col: int, row: int) -> bool {
    0 <= col < 10 && 0 <= row < 20
}

impl BoardView {
    pub open spec fn cell(self, row: int, col: int) -> Cell {
        self.cells[row * 10 + col]
    }

    pub open spec fn wf(self) -> bool {
        &&& self.cells.len() == 200
        &&& -1 <= self.highest < 20
        &&& forall|r: int, c: int|
            in_grid(c, r) && #[trigger] self.cell(r, c) != Cell::Empty ==> r <= self.highest
    }

    /// The cached row is the highest row that holds a non-empty cell, or -1.
    pub open spec fn tight(self) -> bool {
        &&& self.wf()
        &&& self.highest >= 0 ==> exists|c: int| 0 <= c < 10 && #[trigger] self.cell(self.highest, c)
            != Cell::Empty
    }

    pub open spec fn is_empty_board(self) -> bool {
        &&& self.cells.len() == 200
        &&& self.highest == -1
        &&& forall|r: int, c: int| in_grid(c, r) ==> #[trigger] self.cell(r, c) == Cell::Empty
    }

    pub open spec fn row_full(self, row: int) -> bool {
        forall|c: int| 0 <= c < 10 ==> #[trigger] self.cell(row, c) != Cell::Empty
    }

    /// The cell `i` of the piece lies inside the grid on an empty cell.
    pub open spec fn mino_fits(self, k: Tetromino, rot: int, col: int, row: int, i: int) -> bool {
        let m = shape(k, rot)[i];
        in_grid(col + m.0, row + m.1) && self.cell(row + m.1, col + m.0) == Cell::Empty
    }

    /// The piece with its origin at (`col`, `row`) leaves the grid or meets a
    /// non-empty cell.
    pub open spec fn collides(self, k: Tetromino, rot: int, col: int, row: int) -> bool {
        exists|i: int| 0 <= i < 4 && !#[trigger] self.mino_fits(k, rot, col, row, i)
    }
}

/// The piece with its origin at (`col`, `row`) covers the cell (`c`, `r`).
pub open spec fn covers(k: Tetromino, rot: int, col: int, row: int, r: int, c: int) -> bool {
    exists|i: int| 0 <= i < 4 && #[trigger] shape(k, rot)[i] == (c - col, r - row)
}

/// The highest row that the piece covers.
pub open spec fn top_row(k: Tetromino, rot: int, row: int) -> int {
    let s = shape(k, rot);
    row + vstd::math::max(vstd::math::max(s[0].1, s[1].1), vstd::math::max(s[2].1, s[3].1))
}

/// Every cell of the piece lies inside the grid.
pub open spec fn in_grid_piece(k: Tetromino, rot: int, col: int, row: int) -> bool {
    forall|i: int|
        0 <= i < 4 ==> in_grid(col + #[trigger] shape(k, rot)[i].0, row + shape(k, rot)[i].1)
}

/// Some cell of the piece with its origin in `row` lies in row `y`.
pub open spec fn touches_row(k: Tetromino, rot: int, row: int, y: int) -> bool {
    exists|i: int| 0 <= i < 4 && row + #[trigger] shape(k, rot)[i].1 == y
}

pub open spec fn has_row(s: Seq<usize>, y: int) -> bool {
    exists|i: int| 0 <= i < s.len() && s[i] as int == y
}

pub open spec fn strictly_ascending(s: Seq<usize>) -> bool {
    forall|i: int, j: int| 0 <= i < j < s.len() ==> s[i] < s[j]
}

/// How many of `rows` lie below row `k`.
pub open spec fn count_below(rows: Seq<usize>, k: int) -> int
    decreases rows.len(),
{
    if rows.len() == 0 {
        0
    } else {
        count_below(rows.drop_last(), k) + if rows.last() < k {
            1int
        } else {
            0int
        }
    }
}

/// Where a row that is kept lands after `rows` are removed.
pub open spec fn kept_dest(rows: Seq<usize>, k: int) -> int {
    k - count_below(rows, k)
}

/// `after` is `before` with `rows` removed: each kept row up to the cached
/// row moves down by the number of removed rows below it, the rows freed at
/// the top are empty, the rows above the cached row are unchanged, and the
/// cached row drops by the number of removed rows.
pub open spec fn compacted(before: BoardView, after: BoardView, rows: Seq<usize>) -> bool {
    let h = before.highest;
    let n = rows.len() as int;
    &&& after.cells.len() == 200
    &&& after.highest == h - n
    &&& forall|k: int, c: int|
        #![trigger kept_dest(rows, k), before.cell(k, c)]
        0 <= k <= h && !has_row(rows, k) && 0 <= c < 10 ==> after.cell(kept_dest(rows, k), c)
            == before.cell(k, c)
    &&& forall|r: int, c: int| h - n < r <= h && 0 <= c < 10 ==> #[trigger] after.cell(r, c) == Cell::Empty
    &&& forall|r: int, c: int| h < r < 20 && 0 <= c < 10 ==> #[trigger] after.cell(r, c) == before.cell(r, c)
}

/// With the first `j` of the ascending `rows` below `k` and the others not,
/// `j` of them lie below `k`.
pub proof fn lemma_count_below(rows: Seq<usize>, j: int, k: int)
    requires
        0 <= j <= rows.len(),
        forall|i: int| 0 <= i < j ==> #[trigger] rows[i] < k,
        forall|i: int| j <= i < rows.len() ==> #[trigger] rows[i] >= k,
    ensures
        count_below(rows, k) == j,
    decreases rows.len(),
{
    if rows.len() > 0 {
        let p = rows.drop_last();
        if j == rows.len() {
            lemma_count_below(p, j - 1, k);
        } else {
            lemma_count_below(p, j, k);
        }
    }
}

/// The lengths of the runs of adjacent rows in the ascending `rows`, from
/// the bottom up.
pub open spec fn streaks(rows: Seq<usize>) -> Seq<int>
    decreases rows.len(),
{
    if rows.len() == 0 {
        seq![]
    } else if rows.len() == 1 {
        seq![1int]
    } else {
        let p = streaks(rows.drop_last());
        if rows.last() == rows[rows.len() - 2] + 1 {
            p.update(p.len() - 1, p.last() + 1)
        } else {
            p.push(1)
        }
    }
}

/// The lengths of the runs of adjacent rows in `rows`, from the bottom up.
pub fn clear_streaks(rows: &Vec<usize>) -> (r: Vec<usize>)
    ensures
        r@.map_values(|x: usize| x as int) == streaks(rows@),
{
    let n = rows.len();
    let mut out: Vec<usize> = Vec::new();
    if n == 0 {
        assert(out@.map_values(|x: usize| x as int) =~= streaks(rows@));
        return out;
    }
    let mut cur: usize = 1;
    let mut i: usize = 1;
    assert(rows@.subrange(0, 1).drop_last() =~= seq![]);
    while i < n
        invariant
            1 <= i <= n,
            n == rows@.len(),
            1 <= cur <= i,
            out@.map_values(|x: usize| x as int).push(cur as int) == streaks(rows@.subrange(0, i as int)),
        decreases n - i,
    {
        let ghost pre = rows@.subrange(0, i as int);
        let ghost nxt = rows@.subrange(0, i + 1);
        assert(nxt.drop_last() =~= pre);
        if rows[i - 1] < usize::MAX && rows[i] == rows[i - 1] + 1 {
            cur += 1;
        } else {
            let ghost before = out@;
            out.push(cur);
            assert(out@.map_values(|x: usize| x as int) =~= before.map_values(|x: usize| x as int).push(cur as int));
            cur = 1;
        }
        i += 1;
    }
    let ghost before = out@;
    out.push(cur);
    assert(rows@.subrange(0, n as int) =~= rows@);
    assert(out@.map_values(|x: usize| x as int) =~= before.map_values(|x: usize| x as int).push(cur as int));
    out
}

/// A piece with a cell outside the grid collides; a piece whose cells all
/// lie inside the grid on empty cells does not.
pub proof fn lemma_collides_bounds(b: BoardView, k: Tetromino, rot: int, col: int, row: int)
    ensures
        (exists|i: int|
            0 <= i < 4 && !in_grid(col + #[trigger] shape(k, rot)[i].0, row + shape(k, rot)[i].1))
            ==> b.collides(k, rot, col, row),
        (forall|i: int|
            0 <= i < 4 ==> in_grid(col + #[trigger] shape(k, rot)[i].0, row + shape(k, rot)[i].1)
                && b.cell(row + shape(k, rot)[i].1, col + shape(k, rot)[i].0) == Cell::Empty)
            ==> !b.collides(k, rot, col, row),
{
    if exists|i: int| 0 <= i < 4 && !in_grid(col + #[trigger] shape(k, rot)[i].0, row + shape(k, rot)[i].1) {
        let i = choose|i: int| 0 <= i < 4 && !in_grid(col + #[trigger] shape(k, rot)[i].0, row + shape(k, rot)[i].1);
        assert(!b.mino_fits(k, rot, col, row, i));
    }
}

/// Compacting a grid with no rows to remove leaves it as it is.
pub proof fn lemma_compact_nothing(before: BoardView, after: BoardView)
    requires
        before.wf(),
        compacted(before, after, Seq::empty()),
    ensures
        after == before,
{
    let e = Seq::<usize>::empty();
    assert forall|i: int| 0 <= i < 200 implies after.cells[i] == before.cells[i] by {
        let r = i / 10;
        let c = i % 10;
        assert(r * 10 + c == i);
        assert(count_below(e, r) == 0);
        if r > before.highest {
            assert(after.cell(r, c) == before.cell(r, c));
        } else {
            assert(!has_row(e, r));
            assert(after.cell(kept_dest(e, r), c) == before.cell(r, c));
        }
    }
    assert(after.cells =~= before.cells);
}

/// Removing `rows` lowers the cached row by their number, and every row
/// above the highest removed one moves down by exactly that number.
pub proof fn lemma_compaction_law(before: BoardView, after: BoardView, rows: Seq<usize>)
    requires
        before.wf(),
        strictly_ascending(rows),
        rows.len() > 0,
        compacted(before, after, rows),
    ensures
        after.highest == before.highest - rows.len(),
        forall|k: int, c: int|
            rows.last() < k <= before.highest && 0 <= c < 10 ==> after.cell(k - rows.len(), c)
                == #[trigger] before.cell(k, c),
{
    assert forall|k: int, c: int|
        rows.last() < k <= before.highest && 0 <= c < 10 implies after.cell(k - rows.len(), c)
            == #[trigger] before.cell(k, c) by {
        assert forall|i: int| 0 <= i < rows.len() implies #[trigger] rows[i] < k by {
            if i < rows.len() - 1 {
                assert(rows[i] < rows[rows.len() - 1]);
            }
        }
        lemma_count_below(rows, rows.len() as int, k);
        assert(!has_row(rows, k));
        assert(after.cell(kept_dest(rows, k), c) == before.cell(k, c));
    }
}

/// The grid: `ROWS` rows of `COLUMNS` cells, flattened row by row.
pub struct Board {
    cells: Vec<Cell>,
    highest: i32,
}

impl View for Board {
    type V = BoardView;

    closed spec fn view(&self) -> BoardView {
        BoardView { cells: self.cells@, highest: self.highest as int }
    }
}

impl Board {
    /// An empty grid.
    pub fn new() -> (r: Board)
        ensures
            r@.is_empty_board(),
            r@.wf(),
            r@.tight(),
    {
        let mut cells: Vec<Cell> = Vec::new();
        let mut i: usize = 0;
        while i < 200
            invariant
                i <= 200,
                cells@.len() == i,
                forall|j: int| 0 <= j < i ==> cells@[j] == Cell::Empty,
            decreases 200 - i,
        {
            cells.push(Cell::Empty);
            i += 1;
        }
        let b = Board { cells, highest: -1 };
        assert forall|r: int, c: int| in_grid(c, r) implies #[trigger] b@.cell(r, c) == Cell::Empty by {
            assert(0 <= r * 10 + c < 200);
        }
        b
    }

    /// Empties every cell.
    pub fn reset(&mut self)
        ensures
            final(self)@.is_empty_board(),
            final(self)@.wf(),
            final(self)@.tight(),
    {
        *self = Board::new();
    }

    /// The cell at `row`, `col`.
    pub fn cell(&self, row: usize, col: usize) -> (r: Cell)
        requires
            self@.wf(),
            row < ROWS,
            col < COLUMNS,
        ensures
            r == self@.cell(row as int, col as int),
    {
        self.cells[row * 10 + col]
    }

    /// All cells, row by row from the bottom.
    pub fn clone_cells(&self) -> (r: Vec<Cell>)
        ensures
            r@ == self@.cells,
    {
        self.cells.clone()
    }

    /// The cached highest occupied row, -1 when there is none.
    pub fn highest_occupied_row(&self) -> (r: i32)
        ensures
            r == self@.highest,
    {
        self.highest
    }

    /// Writes one cell; the cached row rises to `row` when the cell is not empty.
    pub fn set_cell(&mut self, row: usize, col: usize, cell: Cell)
        requires
            old(self)@.wf(),
            row < ROWS,
            col < COLUMNS,
        ensures
            final(self)@.wf(),
            final(self)@.cells == old(self)@.cells.update(row * 10 + col, cell),
            final(self)@.highest == if cell != Cell::Empty && row > old(self)@.highest {
                row as int
            } else {
                old(self)@.highest
            },
    {
        self.cells.set(row * 10 + col, cell);
        if cell != Cell::Empty && (row as i32) > self.highest {
            self.highest = row as i32;
        }
        proof {
            let o = old(self)@;
            let n = self@;
            assert forall|r: int, c: int|
                in_grid(c, r) && #[trigger] n.cell(r, c) != Cell::Empty implies r <= n.highest by {
                if r != row || c != col {
                    assert(r * 10 + c != row * 10 + col);
                    assert(o.cell(r, c) == n.cell(r, c));
                }
            }
        }
    }

    /// Tells whether the piece `k` in rotation `rot`, with its origin at
    /// `origin` moved by `offset`, leaves the grid or meets a non-empty cell.
    pub fn collides(&self, k: Tetromino, rot: RotationState, origin: (i32, i32), offset: (i32, i32)) -> (r: bool)
        requires
            self@.wf(),
            rot.wf(),
        ensures
            r == self@.collides(k, rot.0 as int, origin.0 + offset.0, origin.1 + offset.1),
    {
        let x0: i64 = origin.0 as i64 + offset.0 as i64;
        let y0: i64 = origin.1 as i64 + offset.1 as i64;
        let mut i: usize = 0;
        while i < 4
            invariant
                i <= 4,
                x0 == origin.0 + offset.0,
                y0 == origin.1 + offset.1,
                self@.wf(),
                rot.wf(),
                forall|j: int| 0 <= j < i ==> #[trigger] self@.mino_fits(k, rot.0 as int, x0 as int, y0 as int, j),
            decreases 4 - i,
        {
            let m = k.mino(rot, i);
            proof { lemma_shape_small(k, rot.0 as int); }
            let x = x0 + m.0 as i64;
            let y = y0 + m.1 as i64;
            if x < 0 || x >= 10 || y < 0 || y >= 20 {
                assert(!self@.mino_fits(k, rot.0 as int, x0 as int, y0 as int, i as int));
                return true;
            }
            if self.cells[(y as usize) * 10 + x as usize] != Cell::Empty {
                assert(!self@.mino_fits(k, rot.0 as int, x0 as int, y0 as int, i as int));
                return true;
            }
            i += 1;
        }
        false
    }

    /// Tells whether every cell of `row` is non-empty.
    pub fn row_is_full(&self, row: usize) -> (r: bool)
        requires
            self@.wf(),
            row < ROWS,
        ensures
            r == self@.row_full(row as int),
    {
        let mut c: usize = 0;
        while c < 10
            invariant
                c <= 10,
                row < 20,
                self@.wf(),
                forall|j: int| 0 <= j < c ==> #[trigger] self@.cell(row as int, j) != Cell::Empty,
            decreases 10 - c,
        {
            if self.cells[row * 10 + c] == Cell::Empty {
                assert(self@.cell(row as int, c as int) == Cell::Empty);
                return false;
            }
            c += 1;
        }
        true
    }

    /// Writes the piece into the grid in `color`; the cached row rises to
    /// the piece's top row.
    pub fn lock(&mut self, k: Tetromino, rot: RotationState, origin: (i32, i32), color: Color)
        requires
            old(self)@.wf(),
            rot.wf(),
            !old(self)@.collides(k, rot.0 as int, origin.0 as int, origin.1 as int),
        ensures
            final(self)@.wf(),
            final(self)@.cells.len() == 200,
            forall|r: int, c: int|
                in_grid(c, r) ==> #[trigger] final(self)@.cell(r, c) == if covers(
                    k,
                    rot.0 as int,
                    origin.0 as int,
                    origin.1 as int,
                    r,
                    c,
                ) {
                    Cell::Filled(color)
                } else {
                    old(self)@.cell(r, c)
                },
            final(self)@.highest == vstd::math::max(
                old(self)@.highest,
                top_row(k, rot.0 as int, origin.1 as int),
            ),
            old(self)@.tight() ==> final(self)@.tight(),
    {
        let ghost o = self@;
        let ghost ro = rot.0 as int;
        let ghost col = origin.0 as int;
        let ghost row = origin.1 as int;
        proof {
            lemma_shape_small(k, ro);
            assert forall|i: int| 0 <= i < 4 implies #[trigger] o.mino_fits(k, ro, col, row, i) by {
                if !o.mino_fits(k, ro, col, row, i) {
                    assert(o.collides(k, ro, col, row));
                }
            }
        }
        let mut i: usize = 0;
        while i < 4
            invariant
                i <= 4,
                o.wf(),
                self.cells@.len() == 200,
                -1 <= self.highest < 20,
                ro == rot.0,
                rot.wf(),
                col == origin.0,
                row == origin.1,
                shape(k, ro).len() == 4,
                forall|j: int| 0 <= j < 4 ==> #[trigger] o.mino_fits(k, ro, col, row, j),
                forall|r: int, c: int|
                    in_grid(c, r) ==> #[trigger] self@.cell(r, c) == if exists|j: int|
                        0 <= j < i && #[trigger] shape(k, ro)[j] == (c - col, r - row) {
                        Cell::Filled(color)
                    } else {
                        o.cell(r, c)
                    },
                self.highest >= o.highest,
                forall|j: int| 0 <= j < i ==> self.highest >= row + #[trigger] shape(k, ro)[j].1,
                self.highest == o.highest || exists|j: int|
                    0 <= j < i && self.highest == row + #[trigger] shape(k, ro)[j].1,
            decreases 4 - i,
        {
            let m = k.mino(rot, i);
            proof { assert(o.mino_fits(k, ro, col, row, i as int)); }
            let x: usize = (origin.0 + m.0) as usize;
            let y: i32 = origin.1 + m.1;
            let ghost before = self@;
            self.cells.set((y as usize) * 10 + x, Cell::Filled(color));
            if y > self.highest {
                self.highest = y;
            }
            proof {
                assert forall|r: int, c: int| in_grid(c, r) implies #[trigger] self@.cell(r, c) == if exists|j: int|
                    0 <= j < i + 1 && #[trigger] shape(k, ro)[j] == (c - col, r - row) {
                    Cell::Filled(color)
                } else {
                    o.cell(r, c)
                } by {
                    if r == y && c == x {
                        assert(shape(k, ro)[i as int] == (c - col, r - row));
                    } else {
                        assert(r * 10 + c != y * 10 + x);
                        assert(self@.cell(r, c) == before.cell(r, c));
                        if exists|j: int| 0 <= j < i + 1 && #[trigger] shape(k, ro)[j] == (c - col, r - row) {
                            let j = choose|j: int| 0 <= j < i + 1 && #[trigger] shape(k, ro)[j] == (c - col, r - row);
                            assert(j != i);
                        }
                    }
                }
                if self.highest == y {
                    assert(self.highest == row + shape(k, ro)[i as int].1);
                }
            }
            i += 1;
        }
        proof {
            let n = self@;
            let s = shape(k, ro);
            assert forall|r: int, c: int|
                in_grid(c, r) && #[trigger] n.cell(r, c) != Cell::Empty implies r <= n.highest by {
                if exists|j: int| 0 <= j < 4 && #[trigger] shape(k, ro)[j] == (c - col, r - row) {
                    let j = choose|j: int| 0 <= j < 4 && #[trigger] shape(k, ro)[j] == (c - col, r - row);
                    assert(self.highest >= row + s[j].1);
                }
            }
            assert(self.highest >= row + s[0].1);
            assert(self.highest >= row + s[1].1);
            assert(self.highest >= row + s[2].1);
            assert(self.highest >= row + s[3].1);
            if o.tight() && n.highest >= 0 {
                if n.highest == o.highest {
                    let c = choose|c: int| 0 <= c < 10 && #[trigger] o.cell(o.highest, c) != Cell::Empty;
                    assert(n.cell(n.highest, c) != Cell::Empty);
                } else {
                    let j = choose|j: int| 0 <= j < 4 && self.highest == row + #[trigger] shape(k, ro)[j].1;
                    assert(o.mino_fits(k, ro, col, row, j));
                    let c = col + s[j].0;
                    assert(shape(k, ro)[j] == (c - col, n.highest - row));
                    assert(n.cell(n.highest, c) != Cell::Empty);
                }
            }
        }
    }

    /// The rows that the piece touches and that are full, ascending.
    pub fn full_rows_touching(&self, k: Tetromino, rot: RotationState, origin: (i32, i32)) -> (r: Vec<usize>)
        requires
            self@.wf(),
            rot.wf(),
            in_grid_piece(k, rot.0 as int, origin.0 as int, origin.1 as int),
        ensures
            strictly_ascending(r@),
            forall|i: int|
                0 <= i < r@.len() ==> #[trigger] r@[i] < ROWS && self@.row_full(r@[i] as int)
                    && touches_row(k, rot.0 as int, origin.1 as int, r@[i] as int),
            forall|y: int|
                #![trigger touches_row(k, rot.0 as int, origin.1 as int, y)]
                touches_row(k, rot.0 as int, origin.1 as int, y) && self@.row_full(y)
                    ==> has_row(r@, y),
    {
        let ghost ro = rot.0 as int;
        let ghost row = origin.1 as int;
        proof {
            lemma_shape_small(k, ro);
            assert(in_grid(origin.0 + shape(k, ro)[0].0, row + shape(k, ro)[0].1));
        }
        let mut out: Vec<usize> = Vec::new();
        let mut d: i32 = 0;
        while d < 4
            invariant
                0 <= d <= 4,
                self@.wf(),
                rot.wf(),
                ro == rot.0,
                row == origin.1,
                -3 <= row < 23,
                in_grid_piece(k, ro, origin.0 as int, row),
                shape(k, ro).len() == 4,
                strictly_ascending(out@),
                forall|i: int|
                    0 <= i < out@.len() ==> #[trigger] out@[i] < ROWS && out@[i] < row - 3 + d
                        && self@.row_full(out@[i] as int) && touches_row(k, ro, row, out@[i] as int),
                forall|y: int|
                    #![trigger touches_row(k, ro, row, y)]
                    y < row - 3 + d && touches_row(k, ro, row, y) && self@.row_full(y)
                        ==> has_row(out@, y),
            decreases 4 - d,
        {
            let y: i32 = origin.1 - 3 + d;
            let mut touched = false;
            let mut i: usize = 0;
            while i < 4
                invariant
                    i <= 4,
                    rot.wf(),
                    ro == rot.0,
                    y == row - 3 + d,
                    0 <= d < 4,
                    shape(k, ro).len() == 4,
                    touched == exists|j: int| 0 <= j < i && #[trigger] shape(k, ro)[j].1 == y - row,
                decreases 4 - i,
            {
                let m = k.mino(rot, i);
                if m.1 == d - 3 {
                    touched = true;
                }
                i += 1;
            }
            if touched {
                proof {
                    let j = choose|j: int| 0 <= j < 4 && #[trigger] shape(k, ro)[j].1 == y - row;
                    assert(in_grid(origin.0 + shape(k, ro)[j].0, row + shape(k, ro)[j].1));
                }
                if self.row_is_full(y as usize) {
                    let ghost before = out@;
                    out.push(y as usize);
                    proof {
                        assert(out@[out@.len() - 1] == y as usize);
                        assert forall|yy: int|
                            #![trigger touches_row(k, ro, row, yy)]
                            yy < row - 3 + d + 1 && touches_row(k, ro, row, yy) && self@.row_full(yy)
                                implies has_row(out@, yy) by {
                            if yy < y {
                                let q = choose|q: int| 0 <= q < before.len() && before[q] as int == yy;
                                assert(out@[q] as int == yy);
                            } else {
                                assert(out@[out@.len() - 1] as int == yy);
                            }
                        }
                    }
                }
            }
            d += 1;
        }
        out
    }

    /// Marks every cell of each of `rows` as waiting to be removed.
    pub fn mark_pending_clear(&mut self, rows: &Vec<usize>)
        requires
            old(self)@.wf(),
            forall|i: int| 0 <= i < rows@.len() ==> #[trigger] rows@[i] <= old(self)@.highest,
        ensures
            final(self)@.wf(),
            final(self)@.highest == old(self)@.highest,
            forall|r: int, c: int|
                in_grid(c, r) ==> #[trigger] final(self)@.cell(r, c) == if rows@.contains(r as usize) {
                    Cell::PendingClear
                } else {
                    old(self)@.cell(r, c)
                },
    {
        let ghost o = self@;
        let mut i: usize = 0;
        while i < rows.len()
            invariant
                i <= rows@.len(),
                o.wf(),
                self.cells@.len() == 200,
                self.highest == o.highest,
                forall|q: int| 0 <= q < rows@.len() ==> #[trigger] rows@[q] <= o.highest,
                forall|r: int, c: int|
                    in_grid(c, r) ==> #[trigger] self@.cell(r, c) == if rows@.subrange(0, i as int).contains(r as usize) {
                        Cell::PendingClear
                    } else {
                        o.cell(r, c)
                    },
            decreases rows@.len() - i,
        {
            let row = rows[i];
            assert(rows@[i as int] <= o.highest);
            let mut c: usize = 0;
            while c < 10
                invariant
                    c <= 10,
                    i < rows@.len(),
                    row == rows@[i as int],
                    row < 20,
                    self.cells@.len() == 200,
                    self.highest == o.highest,
                    forall|r: int, cc: int|
                        in_grid(cc, r) ==> #[trigger] self@.cell(r, cc) == if rows@.subrange(0, i as int).contains(r as usize) || (r == row && cc < c) {
                            Cell::PendingClear
                        } else {
                            o.cell(r, cc)
                        },
                decreases 10 - c,
            {
                let ghost before = self@;
                self.cells.set(row * 10 + c, Cell::PendingClear);
                proof {
                    assert forall|r: int, cc: int| in_grid(cc, r) implies #[trigger] self@.cell(r, cc) == if rows@.subrange(0, i as int).contains(r as usize) || (r == row && cc < c + 1) {
                        Cell::PendingClear
                    } else {
                        o.cell(r, cc)
                    } by {
                        if r != row || cc != c {
                            assert(r * 10 + cc != row * 10 + c);
                            assert(self@.cell(r, cc) == before.cell(r, cc));
                        }
                    }
                }
                c += 1;
            }
            proof {
                assert forall|r: int, cc: int| in_grid(cc, r) implies #[trigger] self@.cell(r, cc) == if rows@.subrange(0, i + 1).contains(r as usize) {
                    Cell::PendingClear
                } else {
                    o.cell(r, cc)
                } by {
                    let a = rows@.subrange(0, i as int);
                    let b = rows@.subrange(0, i + 1);
                    assert(b == a.push(row));
                    if r == row {
                        assert(b[i as int] == row);
                    }
                    if a.contains(r as usize) {
                        let q = choose|q: int| 0 <= q < a.len() && a[q] == r as usize;
                        assert(b[q] == r as usize);
                    }
                    if b.contains(r as usize) && !a.contains(r as usize) {
                        let q = choose|q: int| 0 <= q < b.len() && b[q] == r as usize;
                        if q < i {
                            assert(a[q] == r as usize);
                        }
                    }
                }
            }
            i += 1;
        }
        proof {
            assert(rows@.subrange(0, rows@.len() as int) == rows@);
            let n = self@;
            assert forall|r: int, c: int|
                in_grid(c, r) && #[trigger] n.cell(r, c) != Cell::Empty implies r <= n.highest by {
                if rows@.contains(r as usize) {
                    let q = choose|q: int| 0 <= q < rows@.len() && rows@[q] == r as usize;
                    assert(rows@[q] <= o.highest);
                }
            }
        }
    }

    /// Copies row `src` onto row `dst`.
    fn copy_row(&mut self, src: usize, dst: usize)
        requires
            old(self).cells@.len() == 200,
            src < 20,
            dst < 20,
        ensures
            final(self).cells@.len() == 200,
            final(self).highest == old(self).highest,
            forall|r: int, c: int|
                in_grid(c, r) ==> #[trigger] final(self)@.cell(r, c) == if r == dst {
                    old(self)@.cell(src as int, c)
                } else {
                    old(self)@.cell(r, c)
                },
    {
        let ghost o = self@;
        let mut c: usize = 0;
        while c < 10
            invariant
                c <= 10,
                src < 20,
                dst < 20,
                self.cells@.len() == 200,
                self.highest == o.highest,
                forall|r: int, cc: int|
                    in_grid(cc, r) ==> #[trigger] self@.cell(r, cc) == if r == dst && cc < c {
                        o.cell(src as int, cc)
                    } else {
                        o.cell(r, cc)
                    },
            decreases 10 - c,
        {
            let v = self.cells[src * 10 + c];
            let ghost before = self@;
            self.cells.set(dst * 10 + c, v);
            proof {
                assert forall|r: int, cc: int| in_grid(cc, r) implies #[trigger] self@.cell(r, cc) == if r == dst && cc < c + 1 {
                    o.cell(src as int, cc)
                } else {
                    o.cell(r, cc)
                } by {
                    if r != dst || cc != c {
                        assert(r * 10 + cc != dst * 10 + c);
                        assert(self@.cell(r, cc) == before.cell(r, cc));
                    } else {
                        assert(before.cell(src as int, cc) == v);
                    }
                }
            }
            c += 1;
        }
    }

    /// Removes `rows` from the grid: every other row up to the cached row
    /// moves down by the number of removed rows below it, the rows freed at
    /// the top become empty, and the cached row drops by the number of
    /// removed rows. Returns the lengths of the runs of adjacent removed
    /// rows, from the bottom up.
    pub fn compact(&mut self, rows: &Vec<usize>) -> (r: Vec<usize>)
        requires
            old(self)@.wf(),
            strictly_ascending(rows@),
            forall|i: int| 0 <= i < rows@.len() ==> #[trigger] rows@[i] <= old(self)@.highest,
        ensures
            final(self)@.wf(),
            compacted(old(self)@, final(self)@, rows@),
            r@.map_values(|x: usize| x as int) == streaks(rows@),
    {
        let ghost o = self@;
        let top: usize = (self.highest + 1) as usize;
        let n = rows.len();
        let mut idx: usize = 0;
        let mut row: usize = 0;
        while row < top
            invariant
                o.wf(),
                top == o.highest + 1,
                n == rows@.len(),
                idx <= n,
                idx <= row <= top,
                self.cells@.len() == 200,
                self.highest == o.highest,
                strictly_ascending(rows@),
                forall|i: int| 0 <= i < rows@.len() ==> #[trigger] rows@[i] <= o.highest,
                forall|i: int| 0 <= i < idx ==> #[trigger] rows@[i] < row,
                forall|i: int| idx <= i < n ==> #[trigger] rows@[i] >= row,
                forall|k: int, c: int|
                    #![trigger kept_dest(rows@, k), o.cell(k, c)]
                    0 <= k < row && !has_row(rows@, k) && 0 <= c < 10 ==> 0 <= kept_dest(rows@, k) < row - idx
                        && self@.cell(kept_dest(rows@, k), c) == o.cell(k, c),
                forall|r: int, c: int| row <= r < 20 && 0 <= c < 10 ==> #[trigger] self@.cell(r, c) == o.cell(r, c),
            decreases top - row,
        {
            if idx < n && rows[idx] == row {
                idx += 1;
            } else {
                proof {
                    assert forall|q: int| 0 <= q < n implies #[trigger] rows@[q] as int != row by {
                        if q >= idx && q > idx {
                            assert(rows@[idx as int] < rows@[q]);
                        }
                    }
                    lemma_count_below(rows@, idx as int, row as int);
                }
                if idx > 0 {
                    let ghost before = self@;
                    self.copy_row(row, row - idx);
                    proof {
                        assert forall|k: int, c: int|
                            #![trigger kept_dest(rows@, k), o.cell(k, c)]
                            0 <= k < row + 1 && !has_row(rows@, k) && 0 <= c < 10 implies 0 <= kept_dest(rows@, k) < row + 1 - idx
                                && self@.cell(kept_dest(rows@, k), c) == o.cell(k, c) by {
                            if k < row {
                                assert(before.cell(kept_dest(rows@, k), c) == o.cell(k, c));
                            } else {
                                assert(before.cell(row as int, c) == o.cell(row as int, c));
                            }
                        }
                    }
                } else {
                    proof {
                        assert forall|k: int, c: int|
                            #![trigger kept_dest(rows@, k), o.cell(k, c)]
                            0 <= k < row + 1 && !has_row(rows@, k) && 0 <= c < 10 implies 0 <= kept_dest(rows@, k) < row + 1 - idx
                                && self@.cell(kept_dest(rows@, k), c) == o.cell(k, c) by {
                            if k == row {
                                assert(self@.cell(row as int, c) == o.cell(row as int, c));
                            }
                        }
                    }
                }
            }
            row += 1;
        }
        if idx < n {
            assert(rows@[idx as int] >= row);
        }
        assert(idx == n);
        let mut t: usize = top - n;
        while t < top
            invariant
                o.wf(),
                top == o.highest + 1,
                n == rows@.len(),
                n <= top,
                top - n <= t <= top,
                self.cells@.len() == 200,
                self.highest == o.highest,
                forall|k: int, c: int|
                    #![trigger kept_dest(rows@, k), o.cell(k, c)]
                    0 <= k < top && !has_row(rows@, k) && 0 <= c < 10 ==> 0 <= kept_dest(rows@, k) < top - n
                        && self@.cell(kept_dest(rows@, k), c) == o.cell(k, c),
                forall|r: int, c: int| top <= r < 20 && 0 <= c < 10 ==> #[trigger] self@.cell(r, c) == o.cell(r, c),
                forall|r: int, c: int| top - n <= r < t && 0 <= c < 10 ==> #[trigger] self@.cell(r, c) == Cell::Empty,
            decreases top - t,
        {
            let ghost before = self@;
            self.clear_row(t);
            proof {
                assert forall|k: int, c: int|
                    #![trigger kept_dest(rows@, k), o.cell(k, c)]
                    0 <= k < top && !has_row(rows@, k) && 0 <= c < 10 implies
                        self@.cell(kept_dest(rows@, k), c) == o.cell(k, c) by {
                    assert(before.cell(kept_dest(rows@, k), c) == o.cell(k, c));
                }
            }
            t += 1;
        }
        let ghost g = self@;
        self.highest = self.highest - n as i32;
        proof {
            let f = self@;
            assert forall|r: int, c: int|
                in_grid(c, r) && #[trigger] f.cell(r, c) != Cell::Empty implies r <= f.highest by {
                assert(g.cell(r, c) == f.cell(r, c));
            }
            assert forall|k: int, c: int|
                #![trigger kept_dest(rows@, k), o.cell(k, c)]
                0 <= k <= o.highest && !has_row(rows@, k) && 0 <= c < 10 implies f.cell(kept_dest(rows@, k), c)
                    == o.cell(k, c) by {
                assert(g.cell(kept_dest(rows@, k), c) == o.cell(k, c));
            }
            assert forall|r: int, c: int| o.highest - n < r <= o.highest && 0 <= c < 10 implies #[trigger] f.cell(r, c) == Cell::Empty by {
                assert(g.cell(r, c) == f.cell(r, c));
            }
            assert forall|r: int, c: int| o.highest < r < 20 && 0 <= c < 10 implies #[trigger] f.cell(r, c) == o.cell(r, c) by {
                assert(g.cell(r, c) == f.cell(r, c));
            }
        }
        clear_streaks(rows)
    }

    /// Empties row `row`.
    fn clear_row(&mut self, row: usize)
        requires
            old(self).cells@.len() == 200,
            row < 20,
        ensures
            final(self).cells@.len() == 200,
            final(self).highest == old(self).highest,
            forall|r: int, c: int|
                in_grid(c, r) ==> #[trigger] final(self)@.cell(r, c) == if r == row {
                    Cell::Empty
                } else {
                    old(self)@.cell(r, c)
                },
    {
        let ghost o = self@;
        let mut c: usize = 0;
        while c < 10
            invariant
                c <= 10,
                row < 20,
                self.cells@.len() == 200,
                self.highest == o.highest,
                forall|r: int, cc: int|
                    in_grid(cc, r) ==> #[trigger] self@.cell(r, cc) == if r == row && cc < c {
                        Cell::Empty
                    } else {
                        o.cell(r, cc)
                    },
            decreases 10 - c,
        {
            let ghost before = self@;
            self.cells.set(row * 10 + c, Cell::Empty);
            proof {
                assert forall|r: int, cc: int| in_grid(cc, r) implies #[trigger] self@.cell(r, cc) == if r == row && cc < c + 1 {
                    Cell::Empty
                } else {
                    o.cell(r, cc)
                } by {
                    if r != row || cc != c {
                        assert(r * 10 + cc != row * 10 + c);
                        assert(self@.cell(r, cc) == before.cell(r, cc));
                    }
                }
            }
            c += 1;
        }
    }
}

} // verus!
