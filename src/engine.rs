use vstd::prelude::*;

use crate::board::{
    compacted, covers, has_row, lemma_collides_bounds, kept_dest, lemma_compaction_law, lemma_count_below, in_grid, in_grid_piece, streaks, strictly_ascending, top_row,
    touches_row, Board, BoardView, Cell,
};
use crate::scoring::{add_rewards, capped_sum, level_from_score, level_of, total_reward};
use crate::sequence::{refill, SequenceView, TetrominoSequence};
use crate::shapes::{Color, color_of, lemma_shape_small, shape, tetro_color, RotationState, Tetromino};

verus! {

/// The phases of the game.
#[derive(Clone, Copy, PartialEq, Eq, Structural, Debug)]
pub enum State {
    Spawn,
    Fall,
    Lock,
    ClearRows,
    Paused,
    End,
}

/// What the player can ask for.
#[derive(Clone, Copy, PartialEq, Eq, Structural, Debug)]
pub enum UserAction {
    MoveLeft,
    MoveRight,
    RotateCW,
    RotateCCW,
    HardDrop,
    TogglePause,
    ClearStack,
    Quit,
}

/// The model of a game.
pub struct TtrysView {
    pub piece: Option<Tetromino>,
    pub col: int,
    pub row: int,
    pub rot: int,
    pub hard_drop: bool,
    pub clear_rows: Seq<usize>,
    pub score: int,
    pub state: State,
    pub saved_state: State,
    pub board: BoardView,
    pub seq: SequenceView,
}

/// The column in which pieces appear.
pub open spec fn spawn_col() -> int {
    5
}

/// The row in which a piece of kind `k` appears.
pub open spec fn spawn_row(k: Tetromino) -> int {
    if k == Tetromino::I {
        20
    } else {
        19
    }
}

/// The next rotation state, clockwise or counter-clockwise.
pub open spec fn next_rot(rot: int, cw: bool) -> int {
    if cw {
        (rot + 1) % 4
    } else {
        (rot + 3) % 4
    }
}

/// The offsets tried, in order, when a rotation from `rot` in the given
/// direction meets an obstacle.
pub open spec fn kick_offsets(rot: int, cw: bool) -> Seq<(int, int)> {
    seq![(0, 0), (0, 0), (0, 0), (0, 0)]
}

/// The cell at `r`, `c` once the piece is written into the grid.
pub open spec fn locked_cell(b: BoardView, k: Tetromino, rot: int, col: int, row: int, r: int, c: int) -> Cell {
    if covers(k, rot, col, row, r, c) {
        Cell::Filled(color_of(k))
    } else {
        b.cell(r, c)
    }
}

/// Row `r` is full once the piece is written into the grid.
pub open spec fn full_after_lock(b: BoardView, k: Tetromino, rot: int, col: int, row: int, r: int) -> bool {
    forall|c: int| 0 <= c < 10 ==> #[trigger] locked_cell(b, k, rot, col, row, r, c) != Cell::Empty
}

/// `n` is `o` after one piece has been handed out.
pub open spec fn popped(o: SequenceView, n: SequenceView) -> bool {
    &&& n.wf()
    &&& n.bag_size == o.bag_size
    &&& o.bag.len() > 0 ==> n.current == o.bag.last() && n.bag == o.bag.drop_last()
    &&& o.bag.len() == 0 ==> refill(n).len() == o.bag_size && refill(n).no_duplicates()
}

impl TtrysView {
    /// The state that the game is in, or returns to once a pause ends.
    pub open spec fn effective_state(self) -> State {
        if self.state == State::Paused {
            self.saved_state
        } else {
            self.state
        }
    }

    pub open spec fn collides_at(self, rot: int, col: int, row: int) -> bool {
        self.board.collides(self.piece.unwrap(), rot, col, row)
    }

    pub open spec fn wf(self) -> bool {
        &&& self.board.wf()
        &&& self.seq.wf()
        &&& 0 <= self.rot < 4
        &&& -8 <= self.col <= 30
        &&& -8 <= self.row <= 30
        &&& self.score <= u64::MAX
        &&& self.saved_state != State::Paused
        &&& (self.effective_state() == State::Fall || self.effective_state() == State::Lock) ==> {
            &&& self.piece.is_some()
            &&& !self.collides_at(self.rot, self.col, self.row)
        }
        &&& self.effective_state() == State::ClearRows ==> {
            &&& strictly_ascending(self.clear_rows)
            &&& forall|i: int|
                0 <= i < self.clear_rows.len() ==> #[trigger] self.clear_rows[i] <= self.board.highest
        }
    }

    /// `n` is `o` after a new piece appeared.
    pub open spec fn spawned(o: Self, n: Self) -> bool {
        let k = o.seq.current;
        &&& n == TtrysView {
            piece: Some(k),
            col: spawn_col(),
            row: spawn_row(k),
            rot: 0,
            state: if o.board.collides(k, 0, spawn_col(), spawn_row(k)) {
                State::End
            } else {
                State::Fall
            },
            seq: n.seq,
            ..o
        }
        &&& popped(o.seq, n.seq)
    }

    /// `n` is `o` after the piece fell one row, or hard-dropped, or came to
    /// rest.
    pub open spec fn fell(o: Self, n: Self) -> bool {
        if o.hard_drop {
            &&& n == TtrysView { row: n.row, state: State::Lock, hard_drop: false, ..o }
            &&& n.row <= o.row
            &&& forall|e: int| n.row <= e <= o.row ==> !#[trigger] o.collides_at(o.rot, o.col, e)
            &&& o.collides_at(o.rot, o.col, n.row - 1)
        } else if o.collides_at(o.rot, o.col, o.row - 1) {
            n == TtrysView { state: State::Lock, ..o }
        } else {
            n == TtrysView { row: o.row - 1, ..o }
        }
    }

    /// `n` is `o` after the piece was written into the grid and the rows it
    /// completed were marked.
    pub open spec fn locked(o: Self, n: Self) -> bool {
        let k = o.piece.unwrap();
        &&& n == TtrysView {
            board: n.board,
            clear_rows: n.clear_rows,
            state: if n.clear_rows.len() > 0 {
                State::ClearRows
            } else {
                State::Spawn
            },
            hard_drop: false,
            ..o
        }
        &&& n.board.cells.len() == 200
        &&& n.board.highest == vstd::math::max(o.board.highest, top_row(k, o.rot, o.row))
        &&& forall|r: int, c: int|
            in_grid(c, r) ==> #[trigger] n.board.cell(r, c) == if has_row(n.clear_rows, r) {
                Cell::PendingClear
            } else {
                locked_cell(o.board, k, o.rot, o.col, o.row, r, c)
            }
        &&& strictly_ascending(n.clear_rows)
        &&& forall|i: int|
            0 <= i < n.clear_rows.len() ==> touches_row(k, o.rot, o.row, #[trigger] n.clear_rows[i] as int)
                && full_after_lock(o.board, k, o.rot, o.col, o.row, n.clear_rows[i] as int)
        &&& forall|y: int|
            #![trigger touches_row(k, o.rot, o.row, y)]
            touches_row(k, o.rot, o.row, y) && full_after_lock(o.board, k, o.rot, o.col, o.row, y)
                ==> has_row(n.clear_rows, y)
    }

    /// `n` is `o` after the marked rows were removed and scored.
    pub open spec fn cleared(o: Self, n: Self) -> bool {
        &&& n == TtrysView {
            board: n.board,
            clear_rows: Seq::empty(),
            score: capped_sum(o.score, total_reward(streaks(o.clear_rows))),
            state: State::Spawn,
            ..o
        }
        &&& compacted(o.board, n.board, o.clear_rows)
    }

    /// `n` is `o` after one tick.
    pub open spec fn stepped(o: Self, n: Self) -> bool {
        match o.state {
            State::Spawn => Self::spawned(o, n),
            State::Fall => Self::fell(o, n),
            State::Lock => Self::locked(o, n),
            State::ClearRows => Self::cleared(o, n),
            _ => n == o,
        }
    }

    /// `n` is `o` after the player's `action`.
    pub open spec fn updated(o: Self, n: Self, action: UserAction) -> bool {
        match action {
            UserAction::MoveLeft => if o.state == State::Fall && !o.collides_at(o.rot, o.col - 1, o.row) {
                n == TtrysView { col: o.col - 1, ..o }
            } else {
                n == o
            },
            UserAction::MoveRight => if o.state == State::Fall && !o.collides_at(o.rot, o.col + 1, o.row) {
                n == TtrysView { col: o.col + 1, ..o }
            } else {
                n == o
            },
            UserAction::RotateCW => if o.state == State::Fall && !o.collides_at(next_rot(o.rot, true), o.col, o.row) {
                n == TtrysView { rot: next_rot(o.rot, true), ..o }
            } else {
                n == o
            },
            UserAction::RotateCCW => if o.state == State::Fall && !o.collides_at(next_rot(o.rot, false), o.col, o.row) {
                n == TtrysView { rot: next_rot(o.rot, false), ..o }
            } else {
                n == o
            },
            UserAction::HardDrop => n == TtrysView { hard_drop: true, ..o },
            UserAction::Quit => n == TtrysView { state: State::End, ..o },
            UserAction::TogglePause => if o.state == State::End {
                n == o
            } else if o.state == State::Paused {
                n == TtrysView { state: o.saved_state, ..o }
            } else {
                n == TtrysView { state: State::Paused, saved_state: o.state, ..o }
            },
            UserAction::ClearStack => {
                &&& n == TtrysView { board: n.board, clear_rows: Seq::empty(), ..o }
                &&& n.board.is_empty_board()
            },
        }
    }
}

/// A game: the grid, the falling piece, the pieces to come, the score and
/// the phase.
pub struct Ttrys {
    cur_tetro: Option<Tetromino>,
    cur_position: (i32, i32),
    cur_state: RotationState,
    hard_drop: bool,
    clear_rows: Vec<usize>,
    score: u64,
    state: State,
    saved_state: State,
    stack: Board,
    sequence: TetrominoSequence,
}

impl View for Ttrys {
    type V = TtrysView;

    closed spec fn view(&self) -> TtrysView {
        TtrysView {
            piece: self.cur_tetro,
            col: self.cur_position.0 as int,
            row: self.cur_position.1 as int,
            rot: self.cur_state.0 as int,
            hard_drop: self.hard_drop,
            clear_rows: self.clear_rows@,
            score: self.score as int,
            state: self.state,
            saved_state: self.saved_state,
            board: self.stack@,
            seq: self.sequence@,
        }
    }
}

/// A move or a rotation of the falling piece.
pub open spec fn is_move(a: UserAction) -> bool {
    a == UserAction::MoveLeft || a == UserAction::MoveRight || a == UserAction::RotateCW
        || a == UserAction::RotateCCW
}

/// `trace[i + 1]` follows from `trace[i]` by event `i`: a tick for `None`,
/// the action otherwise.
pub open spec fn follows(trace: Seq<TtrysView>, events: Seq<Option<UserAction>>) -> bool {
    &&& trace.len() == events.len() + 1
    &&& forall|i: int|
        0 <= i < events.len() ==> match #[trigger] events[i] {
            None => TtrysView::stepped(trace[i], trace[i + 1]),
            Some(x) => TtrysView::updated(trace[i], trace[i + 1], x),
        }
}

/// While paused, ticks, moves and rotations leave the game as it is.
pub proof fn lemma_paused_trace(trace: Seq<TtrysView>, events: Seq<Option<UserAction>>, i: int)
    requires
        follows(trace, events),
        trace[0].state == State::Paused,
        forall|j: int| 0 <= j < events.len() ==> #[trigger] events[j] is None || is_move(events[j]->Some_0),
        0 <= i < trace.len(),
    ensures
        trace[i] == trace[0],
    decreases i,
{
    if i > 0 {
        lemma_paused_trace(trace, events, i - 1);
        assert(events[i - 1] is None || is_move(events[i - 1]->Some_0));
    }
}

/// Pausing a falling piece, then any ticks, moves and rotations, then
/// resuming brings the game back to the fall with the piece and the grid as
/// they were.
pub proof fn lemma_pause_resume(
    a: TtrysView,
    trace: Seq<TtrysView>,
    events: Seq<Option<UserAction>>,
    d: TtrysView,
)
    requires
        a.wf(),
        a.state == State::Fall,
        follows(trace, events),
        TtrysView::updated(a, trace[0], UserAction::TogglePause),
        forall|j: int| 0 <= j < events.len() ==> #[trigger] events[j] is None || is_move(events[j]->Some_0),
        TtrysView::updated(trace.last(), d, UserAction::TogglePause),
    ensures
        trace[0].state == State::Paused,
        d.state == State::Fall,
        d.piece == a.piece,
        d.col == a.col,
        d.row == a.row,
        d.rot == a.rot,
        d.board == a.board,
        d.score == a.score,
{
    lemma_paused_trace(trace, events, trace.len() - 1);
}

/// Locking a piece that completes exactly one row and then removing it
/// scores 100 points, keeps the rows below, and moves every row above it
/// down by one.
pub proof fn lemma_single_row_clear(a: TtrysView, b: TtrysView, c: TtrysView, r: usize)
    requires
        a.wf(),
        a.state == State::Lock,
        TtrysView::locked(a, b),
        b.wf(),
        b.clear_rows == seq![r],
        TtrysView::cleared(b, c),
        a.score + 100 <= u64::MAX,
    ensures
        b.state == State::ClearRows,
        c.state == State::Spawn,
        c.score == a.score + 100,
        level_of(c.score) == (a.score + 100) / 1000,
        c.board.highest == b.board.highest - 1,
        forall|k: int, col: int|
            r < k <= b.board.highest && 0 <= col < 10 ==> c.board.cell(k - 1, col) == #[trigger] b.board.cell(k, col),
        forall|k: int, col: int|
            0 <= k < r && 0 <= col < 10 ==> c.board.cell(k, col) == #[trigger] b.board.cell(k, col),
{
    let rows = b.clear_rows;
    assert(rows.drop_last() =~= Seq::<usize>::empty());
    assert(streaks(rows) == seq![1int]);
    assert(seq![1int].drop_last() =~= Seq::<int>::empty());
    assert(seq![1int].last() == 1);
    assert(total_reward(Seq::<int>::empty()) == 0);
    assert(total_reward(seq![1int]) == 100);
    assert(b.state == State::ClearRows);
    assert(b.clear_rows[0] == r);
    assert(r <= b.board.highest);
    lemma_compaction_law(b.board, c.board, rows);
    assert forall|k: int, col: int|
        0 <= k < r && 0 <= col < 10 implies c.board.cell(k, col) == #[trigger] b.board.cell(k, col) by {
        lemma_count_below(rows, 0, k);
        assert(!has_row(rows, k));
        assert(c.board.cell(kept_dest(rows, k), col) == b.board.cell(k, col));
    }
}

/// On an empty grid, an O piece that appears, moves four columns left and
/// is hard-dropped comes to rest on the floor in columns 2 and 3; locking it
/// completes no row, so the game goes back to bringing in a piece with the
/// score unchanged.
pub proof fn lemma_o_piece_drop(
    a: TtrysView,
    b: TtrysView,
    m1: TtrysView,
    m2: TtrysView,
    m3: TtrysView,
    m4: TtrysView,
    h: TtrysView,
    f: TtrysView,
    g: TtrysView,
)
    requires
        a.wf(),
        a.state == State::Spawn,
        a.board.is_empty_board(),
        a.seq.current == Tetromino::O,
        TtrysView::stepped(a, b),
        TtrysView::updated(b, m1, UserAction::MoveLeft),
        TtrysView::updated(m1, m2, UserAction::MoveLeft),
        TtrysView::updated(m2, m3, UserAction::MoveLeft),
        TtrysView::updated(m3, m4, UserAction::MoveLeft),
        TtrysView::updated(m4, h, UserAction::HardDrop),
        TtrysView::stepped(h, f),
        TtrysView::stepped(f, g),
    ensures
        m4.col == 1,
        f.state == State::Lock,
        f.row == 1,
        g.state == State::Spawn,
        g.clear_rows.len() == 0,
        g.score == a.score,
        forall|r: int, c: int|
            in_grid(c, r) ==> #[trigger] g.board.cell(r, c) == if 0 <= r <= 1 && 2 <= c <= 3 {
                Cell::Filled(Color::Yellow)
            } else {
                Cell::Empty
            },
{
    let e = a.board;
    let o = Tetromino::O;
    assert(shape(o, 0) == seq![(1int, 0int), (2int, 0int), (1int, -1int), (2int, -1int)]);
    // on the empty grid the O fits exactly where its cells lie inside the grid
    assert forall|col: int, row: int| 1 <= row <= 19 && -1 <= col <= 7 implies !#[trigger] e.collides(o, 0, col, row) by {
        lemma_collides_bounds(e, o, 0, col, row);
    }
    assert forall|col: int, row: int| row <= 0 implies #[trigger] e.collides(o, 0, col, row) by {
        lemma_collides_bounds(e, o, 0, col, row);
        assert(!in_grid(col + shape(o, 0)[2].0, row + shape(o, 0)[2].1));
    }
    assert(!e.collides(o, 0, 5, 19));
    assert(b.state == State::Fall && b.col == 5 && b.row == 19 && b.rot == 0);
    assert(!e.collides(o, 0, 4, 19));
    assert(!e.collides(o, 0, 3, 19));
    assert(!e.collides(o, 0, 2, 19));
    assert(!e.collides(o, 0, 1, 19));
    assert(m4.col == 1);
    assert(h.hard_drop && h.state == State::Fall && h.board == e && h.piece == Some(o));
    assert(h.col == 1 && h.row == 19 && h.rot == 0);
    assert(f.row <= 19);
    assert(h.collides_at(0, 1, f.row - 1));
    if f.row >= 2 {
        assert(!e.collides(o, 0, 1, f.row - 1));
    }
    if f.row <= 0 {
        assert(!h.collides_at(0, 1, f.row));
        assert(e.collides(o, 0, 1, f.row));
    }
    assert(f.row == 1);
    let k = o;
    assert forall|r: int, c: int| in_grid(c, r) implies #[trigger] locked_cell(e, k, 0, 1, 1, r, c) == if 0 <= r <= 1 && 2 <= c <= 3 {
        Cell::Filled(Color::Yellow)
    } else {
        Cell::Empty
    } by {
        if 0 <= r <= 1 && 2 <= c <= 3 {
            if r == 1 && c == 2 { assert(shape(k, 0)[0] == (c - 1, r - 1)); }
            if r == 1 && c == 3 { assert(shape(k, 0)[1] == (c - 1, r - 1)); }
            if r == 0 && c == 2 { assert(shape(k, 0)[2] == (c - 1, r - 1)); }
            if r == 0 && c == 3 { assert(shape(k, 0)[3] == (c - 1, r - 1)); }
        }
    }
    if g.clear_rows.len() > 0 {
        let y = g.clear_rows[0] as int;
        assert(full_after_lock(e, k, 0, 1, 1, y));
        assert(locked_cell(e, k, 0, 1, 1, y, 0) != Cell::Empty);
        assert(touches_row(k, 0, 1, y));
    }
    assert forall|r: int, c: int| in_grid(c, r) implies #[trigger] g.board.cell(r, c) == locked_cell(e, k, 0, 1, 1, r, c) by {
        assert(!has_row(g.clear_rows, r));
    }
}

/// A piece that does not collide lies near the grid.
proof fn lemma_fits_near(b: BoardView, k: Tetromino, rot: int, col: int, row: int)
    requires
        !b.collides(k, rot, col, row),
    ensures
        -3 <= col < 13,
        -3 <= row < 23,
        in_grid_piece(k, rot, col, row),
{
    lemma_shape_small(k, rot);
    assert(b.mino_fits(k, rot, col, row, 0));
    assert forall|i: int| 0 <= i < 4 implies in_grid(col + #[trigger] shape(k, rot)[i].0, row + shape(k, rot)[i].1) by {
        assert(b.mino_fits(k, rot, col, row, i));
    }
}

/// A piece that lies in the grid does not collide on an empty grid.
proof fn lemma_fits_empty(b: BoardView, e: BoardView, k: Tetromino, rot: int, col: int, row: int)
    requires
        !b.collides(k, rot, col, row),
        e.is_empty_board(),
    ensures
        !e.collides(k, rot, col, row),
{
    lemma_fits_near(b, k, rot, col, row);
    assert forall|i: int| 0 <= i < 4 implies #[trigger] e.mino_fits(k, rot, col, row, i) by {
        assert(in_grid(col + shape(k, rot)[i].0, row + shape(k, rot)[i].1));
    }
}

impl Ttrys {
    /// A game on an empty grid, about to bring in its first piece.
    pub fn new() -> (r: Ttrys)
        ensures
            r@.wf(),
            r@.state == State::Spawn,
            r@.board.is_empty_board(),
            r@.score == 0,
            r@.piece.is_none(),
            !r@.hard_drop,
            r@.clear_rows.len() == 0,
            r@.seq.bag_size == 5,
            r@.seq.bag.len() == 4,
            refill(r@.seq).len() == 5,
            refill(r@.seq).no_duplicates(),
    {
        Ttrys::with_parts(Board::new(), TetrominoSequence::new(5))
    }

    /// A game on `board` with the pieces of `sequence`, about to bring in
    /// its first piece.
    pub fn with_parts(board: Board, sequence: TetrominoSequence) -> (r: Ttrys)
        requires
            board@.wf(),
            sequence@.wf(),
        ensures
            r@.wf(),
            r@.state == State::Spawn,
            r@.saved_state == State::End,
            r@.board == board@,
            r@.seq == sequence@,
            r@.score == 0,
            r@.piece.is_none(),
            r@.col == 0 && r@.row == 0 && r@.rot == 0,
            !r@.hard_drop,
            r@.clear_rows.len() == 0,
    {
        Ttrys {
            cur_tetro: None,
            cur_position: (0, 0),
            cur_state: RotationState::default(),
            hard_drop: false,
            clear_rows: Vec::new(),
            score: 0,
            state: State::Spawn,
            saved_state: State::End,
            stack: board,
            sequence,
        }
    }

    /// Tells whether the current piece, turned to `rotation` and moved by
    /// `offset`, leaves the grid or meets a non-empty cell; false without a
    /// piece.
    pub fn collide(&self, rotation: RotationState, offset: (i32, i32)) -> (r: bool)
        requires
            self@.wf(),
            rotation.wf(),
        ensures
            r == match self@.piece {
                Some(k) => self@.board.collides(k, rotation.0 as int, self@.col + offset.0, self@.row + offset.1),
                None => false,
            },
    {
        match self.cur_tetro {
            Some(k) => self.stack.collides(k, rotation, self.cur_position, offset),
            None => false,
        }
    }

    /// The offset of the first kick that lets the current piece turn, or
    /// `None` when every kick collides.
    pub fn test_rotation(&self, cw: bool) -> (r: Option<(i32, i32)>)
        requires
            self@.wf(),
        ensures
            match r {
                Some(o) => exists|i: int|
                    0 <= i < 4 && #[trigger] kick_offsets(self@.rot, cw)[i] == (o.0 as int, o.1 as int)
                        && (self@.piece.is_none() || !self@.collides_at(next_rot(self@.rot, cw), self@.col + o.0, self@.row + o.1))
                        && forall|j: int| 0 <= j < i ==> self@.piece.is_some() && {
                            let p = #[trigger] kick_offsets(self@.rot, cw)[j];
                            self@.collides_at(next_rot(self@.rot, cw), self@.col + p.0, self@.row + p.1)
                        },
                None => self@.piece.is_some() && forall|j: int| 0 <= j < 4 ==> {
                    let p = #[trigger] kick_offsets(self@.rot, cw)[j];
                    self@.collides_at(next_rot(self@.rot, cw), self@.col + p.0, self@.row + p.1)
                },
            },
    {
        let next = if cw {
            self.cur_state.cw()
        } else {
            self.cur_state.ccw()
        };
        let offsets = wall_kick_offsets(self.cur_state, cw);
        let mut i: usize = 0;
        while i < 4
            invariant
                i <= 4,
                self@.wf(),
                next.0 == next_rot(self@.rot, cw),
                next.wf(),
                forall|j: int| 0 <= j < 4 ==> (#[trigger] offsets@[j]).0 == kick_offsets(self@.rot, cw)[j].0
                    && offsets@[j].1 == kick_offsets(self@.rot, cw)[j].1,
                forall|j: int| 0 <= j < i ==> self@.piece.is_some() && {
                    let p = #[trigger] kick_offsets(self@.rot, cw)[j];
                    self@.collides_at(next_rot(self@.rot, cw), self@.col + p.0, self@.row + p.1)
                },
            decreases 4 - i,
        {
            let o = offsets[i];
            if !self.collide(next, o) {
                return Some(o);
            }
            i += 1;
        }
        proof {
            let p = kick_offsets(self@.rot, cw)[0];
            assert(self@.piece.is_some());
        }
        None
    }

    /// Advances the game by one tick: a new piece appears, the piece falls
    /// or comes to rest, it is written into the grid, or completed rows are
    /// removed and scored; nothing happens while paused or after the end.
    pub fn step(&mut self)
        requires
            old(self)@.wf(),
        ensures
            final(self)@.wf(),
            TtrysView::stepped(old(self)@, final(self)@),
    {
        match self.state {
            State::Spawn => self.spawn(),
            State::Fall => self.fall(),
            State::Lock => self.lock_piece(),
            State::ClearRows => self.clear_full_rows(),
            _ => {},
        }
    }

    fn spawn(&mut self)
        requires
            old(self)@.wf(),
            old(self)@.state == State::Spawn,
        ensures
            final(self)@.wf(),
            TtrysView::spawned(old(self)@, final(self)@),
    {
        let k = self.sequence.pop();
        self.cur_tetro = Some(k);
        let row: i32 = if k == Tetromino::I {
            20
        } else {
            19
        };
        self.cur_position = (5, row);
        self.cur_state = RotationState::default();
        if self.collide(self.cur_state, (0, 0)) {
            self.state = State::End;
        } else {
            self.state = State::Fall;
        }
    }

    fn fall(&mut self)
        requires
            old(self)@.wf(),
            old(self)@.state == State::Fall,
        ensures
            final(self)@.wf(),
            TtrysView::fell(old(self)@, final(self)@),
    {
        let ghost o = self@;
        proof {
            lemma_fits_near(o.board, o.piece.unwrap(), o.rot, o.col, o.row);
        }
        if self.hard_drop {
            let mut offset: i32 = -1;
            while !self.collide(self.cur_state, (0, offset))
                invariant
                    self@ == o,
                    o.wf(),
                    o.piece.is_some(),
                    -3 <= o.row < 23,
                    offset <= -1,
                    -3 <= o.row + offset + 1,
                    forall|e: int| o.row + offset < e <= o.row ==> !#[trigger] o.collides_at(o.rot, o.col, e),
                decreases o.row + offset + 4,
            {
                proof {
                    lemma_fits_near(o.board, o.piece.unwrap(), o.rot, o.col, o.row + offset);
                }
                offset -= 1;
            }
            assert(!o.collides_at(o.rot, o.col, o.row + offset + 1));
            self.cur_position = (self.cur_position.0, self.cur_position.1 + offset + 1);
            self.hard_drop = false;
            self.state = State::Lock;
        } else {
            if self.collide(self.cur_state, (0, -1)) {
                self.state = State::Lock;
            } else {
                proof {
                    lemma_fits_near(o.board, o.piece.unwrap(), o.rot, o.col, o.row - 1);
                }
                self.cur_position = (self.cur_position.0, self.cur_position.1 - 1);
            }
        }
    }

    fn lock_piece(&mut self)
        requires
            old(self)@.wf(),
            old(self)@.state == State::Lock,
        ensures
            final(self)@.wf(),
            TtrysView::locked(old(self)@, final(self)@),
    {
        let ghost o = self@;
        let k = self.cur_tetro.unwrap();
        proof {
            lemma_fits_near(o.board, k, o.rot, o.col, o.row);
        }
        self.stack.lock(k, self.cur_state, self.cur_position, tetro_color(k));
        let ghost lb = self.stack@;
        let rows = self.stack.full_rows_touching(k, self.cur_state, self.cur_position);
        proof {
            assert forall|i: int| 0 <= i < rows@.len() implies #[trigger] rows@[i] <= lb.highest by {
                assert(lb.cell(rows@[i] as int, 0) != Cell::Empty);
            }
            assert forall|y: int| in_grid(0, y) implies (lb.row_full(y) <==> full_after_lock(o.board, k, o.rot, o.col, o.row, y)) by {
                if lb.row_full(y) {
                    assert forall|c: int| 0 <= c < 10 implies #[trigger] locked_cell(o.board, k, o.rot, o.col, o.row, y, c) != Cell::Empty by {
                        assert(lb.cell(y, c) != Cell::Empty);
                    }
                }
                if full_after_lock(o.board, k, o.rot, o.col, o.row, y) {
                    assert forall|c: int| 0 <= c < 10 implies #[trigger] lb.cell(y, c) != Cell::Empty by {
                        assert(locked_cell(o.board, k, o.rot, o.col, o.row, y, c) != Cell::Empty);
                    }
                }
            }
            assert forall|y: int|
                #![trigger touches_row(k, o.rot, o.row, y)]
                touches_row(k, o.rot, o.row, y) && full_after_lock(o.board, k, o.rot, o.col, o.row, y)
                    implies has_row(rows@, y) by {
                let j = choose|j: int| 0 <= j < 4 && o.row + #[trigger] shape(k, o.rot)[j].1 == y;
                assert(in_grid(o.col + shape(k, o.rot)[j].0, o.row + shape(k, o.rot)[j].1));
                assert(in_grid(0, y));
            }
        }
        if rows.len() > 0 {
            self.stack.mark_pending_clear(&rows);
            self.state = State::ClearRows;
        } else {
            self.state = State::Spawn;
        }
        self.clear_rows = rows;
        self.hard_drop = false;
        proof {
            let n = self@;
            assert forall|r: int, c: int| in_grid(c, r) implies #[trigger] n.board.cell(r, c) == if has_row(n.clear_rows, r) {
                Cell::PendingClear
            } else {
                locked_cell(o.board, k, o.rot, o.col, o.row, r, c)
            } by {
                if has_row(n.clear_rows, r) {
                    let q = choose|q: int| 0 <= q < n.clear_rows.len() && n.clear_rows[q] as int == r;
                    assert(n.clear_rows.contains(r as usize));
                }
                if n.clear_rows.contains(r as usize) {
                    let q = choose|q: int| 0 <= q < n.clear_rows.len() && n.clear_rows[q] == r as usize;
                    assert(has_row(n.clear_rows, r));
                }
                assert(lb.cell(r, c) == locked_cell(o.board, k, o.rot, o.col, o.row, r, c));
            }
            assert forall|i: int|
                0 <= i < n.clear_rows.len() implies touches_row(k, o.rot, o.row, #[trigger] n.clear_rows[i] as int)
                    && full_after_lock(o.board, k, o.rot, o.col, o.row, n.clear_rows[i] as int) by {
                assert(in_grid(0, n.clear_rows[i] as int));
            }
        }
    }

    fn clear_full_rows(&mut self)
        requires
            old(self)@.wf(),
            old(self)@.state == State::ClearRows,
        ensures
            final(self)@.wf(),
            TtrysView::cleared(old(self)@, final(self)@),
    {
        let streaks = self.stack.compact(&self.clear_rows);
        self.score = add_rewards(self.score, &streaks);
        self.clear_rows = Vec::new();
        self.state = State::Spawn;
    }

    /// Applies the player's `action`: moves and rotations only while the
    /// piece falls and only where the piece fits; a hard drop waits for the
    /// next fall; pause toggles; quitting ends the game; clearing the stack
    /// empties the grid.
    pub fn update(&mut self, action: UserAction)
        requires
            old(self)@.wf(),
        ensures
            final(self)@.wf(),
            TtrysView::updated(old(self)@, final(self)@, action),
    {
        let ghost o = self@;
        match action {
            UserAction::MoveLeft => {
                if self.state != State::Fall {
                    return;
                }
                if !self.collide(self.cur_state, (-1, 0)) {
                    proof {
                        lemma_fits_near(o.board, o.piece.unwrap(), o.rot, o.col - 1, o.row);
                    }
                    self.cur_position = (self.cur_position.0 - 1, self.cur_position.1);
                }
            },
            UserAction::MoveRight => {
                if self.state != State::Fall {
                    return;
                }
                if !self.collide(self.cur_state, (1, 0)) {
                    proof {
                        lemma_fits_near(o.board, o.piece.unwrap(), o.rot, o.col + 1, o.row);
                    }
                    self.cur_position = (self.cur_position.0 + 1, self.cur_position.1);
                }
            },
            UserAction::RotateCW | UserAction::RotateCCW => {
                if self.state != State::Fall {
                    return;
                }
                let cw = action == UserAction::RotateCW;
                if let Some(offset) = self.test_rotation(cw) {
                    proof {
                        let i = choose|i: int|
                            0 <= i < 4 && #[trigger] kick_offsets(o.rot, cw)[i] == (offset.0 as int, offset.1 as int)
                                && (o.piece.is_none() || !o.collides_at(next_rot(o.rot, cw), o.col + offset.0, o.row + offset.1))
                                && forall|j: int| 0 <= j < i ==> o.piece.is_some() && {
                                    let p = #[trigger] kick_offsets(o.rot, cw)[j];
                                    o.collides_at(next_rot(o.rot, cw), o.col + p.0, o.row + p.1)
                                };
                        assert(offset.0 == 0 && offset.1 == 0);
                    }
                    self.cur_state = if cw {
                        self.cur_state.cw()
                    } else {
                        self.cur_state.ccw()
                    };
                    self.cur_position = (self.cur_position.0 + offset.0, self.cur_position.1 + offset.1);
                    proof {
                        assert(self@ == TtrysView { rot: next_rot(o.rot, cw), ..o });
                    }
                } else {
                    proof {
                        let p = kick_offsets(o.rot, cw)[0];
                        assert(o.collides_at(next_rot(o.rot, cw), o.col + p.0, o.row + p.1));
                    }
                }
            },
            UserAction::HardDrop => self.hard_drop = true,
            UserAction::Quit => {
                self.state = State::End;
            },
            UserAction::TogglePause => {
                if self.state == State::End {
                    return;
                }
                if self.state == State::Paused {
                    self.state = self.saved_state;
                } else {
                    self.saved_state = self.state;
                    self.state = State::Paused;
                }
            },
            UserAction::ClearStack => self.clear_stack(),
        }
    }

    /// Empties the grid and drops the rows marked for removal; score, level
    /// and the pieces to come stay.
    pub fn clear_stack(&mut self)
        requires
            old(self)@.wf(),
        ensures
            final(self)@.wf(),
            final(self)@ == (TtrysView { board: final(self)@.board, clear_rows: Seq::empty(), ..old(self)@ }),
            final(self)@.board.is_empty_board(),
    {
        let ghost o = self@;
        self.stack.reset();
        self.clear_rows = Vec::new();
        proof {
            if o.effective_state() == State::Fall || o.effective_state() == State::Lock {
                lemma_fits_empty(o.board, self@.board, o.piece.unwrap(), o.rot, o.col, o.row);
            }
            assert(self@.clear_rows =~= Seq::<usize>::empty());
        }
    }

    /// The number of points scored.
    pub fn score(&self) -> (r: u64)
        ensures
            r == self@.score,
    {
        self.score
    }

    /// The level reached: one per thousand points.
    pub fn level(&self) -> (r: u64)
        ensures
            r == level_of(self@.score),
    {
        level_from_score(self.score)
    }

    /// Tells whether the game goes on.
    pub fn running(&self) -> (r: bool)
        ensures
            r == (self@.state != State::End),
    {
        self.state != State::End
    }

    /// The phase of the game.
    pub fn state(&self) -> (r: State)
        ensures
            r == self@.state,
    {
        self.state
    }

    /// The grid.
    pub fn board(&self) -> (r: &Board)
        ensures
            r@ == self@.board,
    {
        &self.stack
    }

    /// The falling piece, if any.
    pub fn current_piece(&self) -> (r: Option<Tetromino>)
        ensures
            r == self@.piece,
    {
        self.cur_tetro
    }

    /// The origin of the falling piece, as (column, row).
    pub fn position(&self) -> (r: (i32, i32))
        ensures
            r.0 == self@.col,
            r.1 == self@.row,
    {
        self.cur_position
    }

    /// The rotation state of the falling piece.
    pub fn rotation(&self) -> (r: RotationState)
        ensures
            r.0 == self@.rot,
    {
        self.cur_state
    }

    /// The piece that comes next.
    pub fn next_piece(&self) -> (r: Tetromino)
        ensures
            r == self@.seq.current,
    {
        self.sequence.peek()
    }

    /// The rows marked for removal.
    pub fn pending_rows(&self) -> (r: Vec<usize>)
        ensures
            r@ == self@.clear_rows,
    {
        self.clear_rows.clone()
    }

    /// Tells whether a hard drop waits for the next fall.
    pub fn hard_drop_pending(&self) -> (r: bool)
        ensures
            r == self@.hard_drop,
    {
        self.hard_drop
    }
}

/// The kick offsets tried when a rotation from `rot` in the given direction
/// meets an obstacle; none moves the piece.
pub fn wall_kick_offsets(rot: RotationState, cw: bool) -> (r: [(i32, i32); 4])
    ensures
        forall|j: int| 0 <= j < 4 ==> (#[trigger] r@[j]).0 == kick_offsets(rot.0 as int, cw)[j].0
            && r@[j].1 == kick_offsets(rot.0 as int, cw)[j].1,
{
    [(0, 0), (0, 0), (0, 0), (0, 0)]
}

} // verus!
