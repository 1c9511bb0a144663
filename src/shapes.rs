use vstd::prelude::*;

verus! {

/// One of the seven pieces.
#[derive(Clone, Copy, PartialEq, Eq, Structural, Debug)]
pub enum Tetromino {
    I,
    J,
    L,
    O,
    S,
    T,
    Z,
}

/// The colours in which the cells of the grid are shown.
#[derive(Clone, Copy, PartialEq, Eq, Structural, Debug)]
pub enum Color {
    Cyan,
    Blue,
    Yellow,
    Green,
    Magenta,
    Red,
    White,
    /// A colour of the 256-colour palette.
    Ansi(u8),
}

/// One of the four rotation states of a piece; `0` is the spawn state and
/// the states follow each other clockwise.
#[derive(Clone, Copy, PartialEq, Eq, Structural, Debug)]
pub struct RotationState(pub u8);

impl RotationState {
    pub open spec fn wf(self) -> bool {
        self.0 < 4
    }

    /// The next state clockwise.
    pub fn cw(self) -> (r: Self)
        ensures
            r.0 == (self.0 + 1) % 4,
    {
        RotationState(((self.0 as u16 + 1) % 4) as u8)
    }

    /// The next state counter-clockwise.
    pub fn ccw(self) -> (r: Self)
        ensures
            r.0 == (self.0 + 3) % 4,
    {
        RotationState(((self.0 as u16 + 3) % 4) as u8)
    }

    /// The state as an index into the shape table.
    pub fn index(self) -> (r: usize)
        ensures
            r == self.0,
    {
        self.0 as usize
    }
}

impl Default for RotationState {
    /// The spawn state.
    fn default() -> (r: Self)
        ensures
            r.0 == 0,
    {
        RotationState(0)
    }
}

pub open spec fn kind_of_index(i: int) -> Tetromino {
    let k = i % 7;
    if k == 0 {
        Tetromino::I
    } else if k == 1 {
        Tetromino::J
    } else if k == 2 {
        Tetromino::L
    } else if k == 3 {
        Tetromino::O
    } else if k == 4 {
        Tetromino::S
    } else if k == 5 {
        Tetromino::T
    } else {
        Tetromino::Z
    }
}

pub open spec fn index_of_kind(k: Tetromino) -> int {
    match k {
        Tetromino::I => 0,
        Tetromino::J => 1,
        Tetromino::L => 2,
        Tetromino::O => 3,
        Tetromino::S => 4,
        Tetromino::T => 5,
        Tetromino::Z => 6,
    }
}

/// Offsets (column, row) of the four cells of each piece in each rotation
/// state, relative to the piece's origin; rows grow upwards.
pub open spec fn shape(k: Tetromino, rot: int) -> Seq<(int, int)> {
    match k {
        Tetromino::I => if rot == 0 {
            seq![(0, -1), (1, -1), (2, -1), (3, -1)]
        } else if rot == 1 {
            seq![(2, 0), (2, -1), (2, -2), (2, -3)]
        } else if rot == 2 {
            seq![(0, -2), (1, -2), (2, -2), (3, -2)]
        } else {
            seq![(1, 0), (1, -1), (1, -2), (1, -3)]
        },
        Tetromino::J => if rot == 0 {
            seq![(0, 0), (0, -1), (1, -1), (2, -1)]
        } else if rot == 1 {
            seq![(1, 0), (2, 0), (1, -1), (1, -2)]
        } else if rot == 2 {
            seq![(0, -1), (1, -1), (2, -1), (2, -2)]
        } else {
            seq![(1, 0), (1, -1), (0, -2), (1, -2)]
        },
        Tetromino::L => if rot == 0 {
            seq![(2, 0), (0, -1), (1, -1), (2, -1)]
        } else if rot == 1 {
            seq![(1, 0), (1, -1), (1, -2), (2, -2)]
        } else if rot == 2 {
            seq![(0, -1), (1, -1), (2, -1), (0, -2)]
        } else {
            seq![(0, 0), (1, 0), (1, -1), (1, -2)]
        },
        Tetromino::O => seq![(1, 0), (2, 0), (1, -1), (2, -1)],
        Tetromino::S => if rot == 0 {
            seq![(1, 0), (2, 0), (0, -1), (1, -1)]
        } else if rot == 1 {
            seq![(1, 0), (1, -1), (2, -1), (2, -2)]
        } else if rot == 2 {
            seq![(1, -1), (2, -1), (0, -2), (1, -2)]
        } else {
            seq![(0, 0), (0, -1), (1, -1), (1, -2)]
        },
        Tetromino::T => if rot == 0 {
            seq![(1, 0), (0, -1), (1, -1), (2, -1)]
        } else if rot == 1 {
            seq![(1, 0), (1, -1), (2, -1), (1, -2)]
        } else if rot == 2 {
            seq![(0, -1), (1, -1), (2, -1), (1, -2)]
        } else {
            seq![(1, 0), (0, -1), (1, -1), (1, -2)]
        },
        Tetromino::Z => if rot == 0 {
            seq![(0, 0), (1, 0), (1, -1), (2, -1)]
        } else if rot == 1 {
            seq![(2, 0), (1, -1), (2, -1), (1, -2)]
        } else if rot == 2 {
            seq![(0, -1), (1, -1), (1, -2), (2, -2)]
        } else {
            seq![(1, 0), (0, -1), (1, -1), (0, -2)]
        },
    }
}

/// Every offset of the shape table lies within [-3, 3] on both axes.
pub proof fn lemma_shape_small(k: Tetromino, rot: int)
    ensures
        shape(k, rot).len() == 4,
        forall|i: int|
            0 <= i < 4 ==> -3 <= #[trigger] shape(k, rot)[i].0 <= 3 && -3 <= shape(k, rot)[i].1
                <= 3,
{
}

impl Tetromino {
    /// The piece of index `i % 7`, in the order I, J, L, O, S, T, Z.
    pub fn from_index(i: usize) -> (r: Tetromino)
        ensures
            r == kind_of_index(i as int),
    {
        let k = i % 7;
        if k == 0 {
            Tetromino::I
        } else if k == 1 {
            Tetromino::J
        } else if k == 2 {
            Tetromino::L
        } else if k == 3 {
            Tetromino::O
        } else if k == 4 {
            Tetromino::S
        } else if k == 5 {
            Tetromino::T
        } else {
            Tetromino::Z
        }
    }

    /// The position of the piece in the order I, J, L, O, S, T, Z.
    pub fn index(self) -> (r: usize)
        ensures
            r == index_of_kind(self),
    {
        match self {
            Tetromino::I => 0,
            Tetromino::J => 1,
            Tetromino::L => 2,
            Tetromino::O => 3,
            Tetromino::S => 4,
            Tetromino::T => 5,
            Tetromino::Z => 6,
        }
    }

    /// The letter that names the piece.
    pub fn letter(self) -> (r: char)
        ensures
            r == match self {
                Tetromino::I => 'I',
                Tetromino::J => 'J',
                Tetromino::L => 'L',
                Tetromino::O => 'O',
                Tetromino::S => 'S',
                Tetromino::T => 'T',
                Tetromino::Z => 'Z',
            },
    {
        match self {
            Tetromino::I => 'I',
            Tetromino::J => 'J',
            Tetromino::L => 'L',
            Tetromino::O => 'O',
            Tetromino::S => 'S',
            Tetromino::T => 'T',
            Tetromino::Z => 'Z',
        }
    }

    /// The offset of cell `i` of the piece in rotation state `rot`.
    pub fn mino(self, rot: RotationState, i: usize) -> (r: (i32, i32))
        requires
            rot.wf(),
            i < 4,
        ensures
            r.0 == shape(self, rot.0 as int)[i as int].0,
            r.1 == shape(self, rot.0 as int)[i as int].1,
    {
        let t: [(i32, i32); 4] = match self {
            Tetromino::I => if rot.0 == 0 {
                [(0, -1), (1, -1), (2, -1), (3, -1)]
            } else if rot.0 == 1 {
                [(2, 0), (2, -1), (2, -2), (2, -3)]
            } else if rot.0 == 2 {
                [(0, -2), (1, -2), (2, -2), (3, -2)]
            } else {
                [(1, 0), (1, -1), (1, -2), (1, -3)]
            },
            Tetromino::J => if rot.0 == 0 {
                [(0, 0), (0, -1), (1, -1), (2, -1)]
            } else if rot.0 == 1 {
                [(1, 0), (2, 0), (1, -1), (1, -2)]
            } else if rot.0 == 2 {
                [(0, -1), (1, -1), (2, -1), (2, -2)]
            } else {
                [(1, 0), (1, -1), (0, -2), (1, -2)]
            },
            Tetromino::L => if rot.0 == 0 {
                [(2, 0), (0, -1), (1, -1), (2, -1)]
            } else if rot.0 == 1 {
                [(1, 0), (1, -1), (1, -2), (2, -2)]
            } else if rot.0 == 2 {
                [(0, -1), (1, -1), (2, -1), (0, -2)]
            } else {
                [(0, 0), (1, 0), (1, -1), (1, -2)]
            },
            Tetromino::O => [(1, 0), (2, 0), (1, -1), (2, -1)],
            Tetromino::S => if rot.0 == 0 {
                [(1, 0), (2, 0), (0, -1), (1, -1)]
            } else if rot.0 == 1 {
                [(1, 0), (1, -1), (2, -1), (2, -2)]
            } else if rot.0 == 2 {
                [(1, -1), (2, -1), (0, -2), (1, -2)]
            } else {
                [(0, 0), (0, -1), (1, -1), (1, -2)]
            },
            Tetromino::T => if rot.0 == 0 {
                [(1, 0), (0, -1), (1, -1), (2, -1)]
            } else if rot.0 == 1 {
                [(1, 0), (1, -1), (2, -1), (1, -2)]
            } else if rot.0 == 2 {
                [(0, -1), (1, -1), (2, -1), (1, -2)]
            } else {
                [(1, 0), (0, -1), (1, -1), (1, -2)]
            },
            Tetromino::Z => if rot.0 == 0 {
                [(0, 0), (1, 0), (1, -1), (2, -1)]
            } else if rot.0 == 1 {
                [(2, 0), (1, -1), (2, -1), (1, -2)]
            } else if rot.0 == 2 {
                [(0, -1), (1, -1), (1, -2), (2, -2)]
            } else {
                [(1, 0), (0, -1), (1, -1), (0, -2)]
            },
        };
        t[i]
    }
}

pub open spec fn color_of(k: Tetromino) -> Color {
    match k {
        Tetromino::I => Color::Cyan,
        Tetromino::J => Color::Blue,
        Tetromino::L => Color::Ansi(214),
        Tetromino::O => Color::Yellow,
        Tetromino::S => Color::Green,
        Tetromino::T => Color::Magenta,
        Tetromino::Z => Color::Red,
    }
}

/// The colour in which a piece is drawn and locked into the grid.
pub fn tetro_color(k: Tetromino) -> (r: Color)
    ensures
        r == color_of(k),
{
    match k {
        Tetromino::I => Color::Cyan,
        Tetromino::J => Color::Blue,
        Tetromino::L => Color::Ansi(214),
        Tetromino::O => Color::Yellow,
        Tetromino::S => Color::Green,
        Tetromino::T => Color::Magenta,
        Tetromino::Z => Color::Red,
    }
}

} // verus!
