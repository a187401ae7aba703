use vstd::prelude::*;
use crate::randomness::random_below;

verus! {

/// The seven falling-block shapes.
#[derive(Clone, Copy, Debug, PartialEq, Eq, Structural)]
pub enum TetriminoType {
    I,
    O,
    S,
    Z,
    T,
    L,
    J,
}

/// Position of a shape in the shape table: I, O, S, Z, T, L, J.
pub open spec fn type_index(t: TetriminoType) -> int {
    match t {
        TetriminoType::I => 0,
        TetriminoType::O => 1,
        TetriminoType::S => 2,
        TetriminoType::Z => 3,
        TetriminoType::T => 4,
        TetriminoType::L => 5,
        TetriminoType::J => 6,
    }
}

/// The shape of index `kind` (see `type_index`) in rotation `rotation`, as a
/// 4x4 grid in row-major order (cell `(px, py)` at `py * 4 + px`).
pub open spec fn shape(kind: int, rotation: int) -> Seq<u8> {
    if kind == 0 {
        if rotation == 0 {
            seq![0u8, 0, 0, 0, 1, 1, 1, 1, 0, 0, 0, 0, 0, 0, 0, 0]
        } else if rotation == 1 {
            seq![0u8, 0, 1, 0, 0, 0, 1, 0, 0, 0, 1, 0, 0, 0, 1, 0]
        } else if rotation == 2 {
            seq![0u8, 0, 0, 0, 0, 0, 0, 0, 1, 1, 1, 1, 0, 0, 0, 0]
        } else if rotation == 3 {
            seq![0u8, 1, 0, 0, 0, 1, 0, 0, 0, 1, 0, 0, 0, 1, 0, 0]
        } else {
            Seq::new(16, |i: int| 0u8)
        }
    } else if kind == 1 {
        if rotation == 0 {
            seq![0u8, 0, 0, 0, 0, 1, 1, 0, 0, 1, 1, 0, 0, 0, 0, 0]
        } else if rotation == 1 {
            seq![0u8, 0, 0, 0, 0, 1, 1, 0, 0, 1, 1, 0, 0, 0, 0, 0]
        } else if rotation == 2 {
            seq![0u8, 0, 0, 0, 0, 1, 1, 0, 0, 1, 1, 0, 0, 0, 0, 0]
        } else if rotation == 3 {
            seq![0u8, 0, 0, 0, 0, 1, 1, 0, 0, 1, 1, 0, 0, 0, 0, 0]
        } else {
            Seq::new(16, |i: int| 0u8)
        }
    } else if kind == 2 {
        if rotation == 0 {
            seq![0u8, 0, 0, 0, 0, 0, 1, 1, 0, 1, 1, 0, 0, 0, 0, 0]
        } else if rotation == 1 {
            seq![0u8, 0, 1, 0, 0, 0, 1, 1, 0, 0, 0, 1, 0, 0, 0, 0]
        } else if rotation == 2 {
            seq![0u8, 0, 0, 0, 0, 1, 1, 0, 1, 1, 0, 0, 0, 0, 0, 0]
        } else if rotation == 3 {
            seq![0u8, 1, 0, 0, 0, 1, 1, 0, 0, 0, 1, 0, 0, 0, 0, 0]
        } else {
            Seq::new(16, |i: int| 0u8)
        }
    } else if kind == 3 {
        if rotation == 0 {
            seq![0u8, 0, 0, 0, 1, 1, 0, 0, 0, 1, 1, 0, 0, 0, 0, 0]
        } else if rotation == 1 {
            seq![0u8, 0, 0, 1, 0, 0, 1, 1, 0, 0, 1, 0, 0, 0, 0, 0]
        } else if rotation == 2 {
            seq![0u8, 0, 0, 0, 0, 1, 1, 0, 0, 0, 1, 1, 0, 0, 0, 0]
        } else if rotation == 3 {
            seq![0u8, 0, 1, 0, 0, 1, 1, 0, 0, 1, 0, 0, 0, 0, 0, 0]
        } else {
            Seq::new(16, |i: int| 0u8)
        }
    } else if kind == 4 {
        if rotation == 0 {
            seq![0u8, 0, 0, 0, 0, 1, 0, 0, 1, 1, 1, 0, 0, 0, 0, 0]
        } else if rotation == 1 {
            seq![0u8, 0, 1, 0, 0, 1, 1, 0, 0, 0, 1, 0, 0, 0, 0, 0]
        } else if rotation == 2 {
            seq![0u8, 0, 0, 0, 1, 1, 1, 0, 0, 1, 0, 0, 0, 0, 0, 0]
        } else if rotation == 3 {
            seq![0u8, 0, 1, 0, 0, 0, 1, 1, 0, 0, 1, 0, 0, 0, 0, 0]
        } else {
            Seq::new(16, |i: int| 0u8)
        }
    } else if kind == 5 {
        if rotation == 0 {
            seq![0u8, 0, 0, 0, 0, 0, 0, 1, 0, 1, 1, 1, 0, 0, 0, 0]
        } else if rotation == 1 {
            seq![0u8, 0, 1, 0, 0, 0, 1, 0, 0, 0, 1, 1, 0, 0, 0, 0]
        } else if rotation == 2 {
            seq![0u8, 0, 0, 0, 0, 1, 1, 1, 0, 1, 0, 0, 0, 0, 0, 0]
        } else if rotation == 3 {
            seq![0u8, 1, 1, 0, 0, 0, 1, 0, 0, 0, 1, 0, 0, 0, 0, 0]
        } else {
            Seq::new(16, |i: int| 0u8)
        }
    } else if kind == 6 {
        if rotation == 0 {
            seq![0u8, 0, 0, 0, 0, 1, 0, 0, 0, 1, 1, 1, 0, 0, 0, 0]
        } else if rotation == 1 {
            seq![0u8, 0, 1, 1, 0, 0, 1, 0, 0, 0, 1, 0, 0, 0, 0, 0]
        } else if rotation == 2 {
            seq![0u8, 0, 0, 0, 0, 1, 1, 1, 0, 0, 0, 1, 0, 0, 0, 0]
        } else if rotation == 3 {
            seq![0u8, 0, 1, 0, 0, 0, 1, 0, 0, 1, 1, 0, 0, 0, 0, 0]
        } else {
            Seq::new(16, |i: int| 0u8)
        }
    } else {
        Seq::new(16, |i: int| 0u8)
    }
}

/// Whether cell `(px, py)` of a shape is filled.
pub open spec fn shape_cell(kind: int, rotation: int, px: int, py: int) -> bool {
    shape(kind, rotation)[py * 4 + px] != 0
}


/// The shape table, one entry per shape and rotation.
fn shape_matrix(kind: usize, rotation: usize) -> (m: [u8; 16])
    requires
        kind < 7,
        rotation < 4,
    ensures
        m@ == shape(kind as int, rotation as int),
{
    let m: [u8; 16] = match (kind, rotation) {
        (0, 0) => [0, 0, 0, 0, 1, 1, 1, 1, 0, 0, 0, 0, 0, 0, 0, 0],
        (0, 1) => [0, 0, 1, 0, 0, 0, 1, 0, 0, 0, 1, 0, 0, 0, 1, 0],
        (0, 2) => [0, 0, 0, 0, 0, 0, 0, 0, 1, 1, 1, 1, 0, 0, 0, 0],
        (0, 3) => [0, 1, 0, 0, 0, 1, 0, 0, 0, 1, 0, 0, 0, 1, 0, 0],
        (1, 0) => [0, 0, 0, 0, 0, 1, 1, 0, 0, 1, 1, 0, 0, 0, 0, 0],
        (1, 1) => [0, 0, 0, 0, 0, 1, 1, 0, 0, 1, 1, 0, 0, 0, 0, 0],
        (1, 2) => [0, 0, 0, 0, 0, 1, 1, 0, 0, 1, 1, 0, 0, 0, 0, 0],
        (1, 3) => [0, 0, 0, 0, 0, 1, 1, 0, 0, 1, 1, 0, 0, 0, 0, 0],
        (2, 0) => [0, 0, 0, 0, 0, 0, 1, 1, 0, 1, 1, 0, 0, 0, 0, 0],
        (2, 1) => [0, 0, 1, 0, 0, 0, 1, 1, 0, 0, 0, 1, 0, 0, 0, 0],
        (2, 2) => [0, 0, 0, 0, 0, 1, 1, 0, 1, 1, 0, 0, 0, 0, 0, 0],
        (2, 3) => [0, 1, 0, 0, 0, 1, 1, 0, 0, 0, 1, 0, 0, 0, 0, 0],
        (3, 0) => [0, 0, 0, 0, 1, 1, 0, 0, 0, 1, 1, 0, 0, 0, 0, 0],
        (3, 1) => [0, 0, 0, 1, 0, 0, 1, 1, 0, 0, 1, 0, 0, 0, 0, 0],
        (3, 2) => [0, 0, 0, 0, 0, 1, 1, 0, 0, 0, 1, 1, 0, 0, 0, 0],
        (3, 3) => [0, 0, 1, 0, 0, 1, 1, 0, 0, 1, 0, 0, 0, 0, 0, 0],
        (4, 0) => [0, 0, 0, 0, 0, 1, 0, 0, 1, 1, 1, 0, 0, 0, 0, 0],
        (4, 1) => [0, 0, 1, 0, 0, 1, 1, 0, 0, 0, 1, 0, 0, 0, 0, 0],
        (4, 2) => [0, 0, 0, 0, 1, 1, 1, 0, 0, 1, 0, 0, 0, 0, 0, 0],
        (4, 3) => [0, 0, 1, 0, 0, 0, 1, 1, 0, 0, 1, 0, 0, 0, 0, 0],
        (5, 0) => [0, 0, 0, 0, 0, 0, 0, 1, 0, 1, 1, 1, 0, 0, 0, 0],
        (5, 1) => [0, 0, 1, 0, 0, 0, 1, 0, 0, 0, 1, 1, 0, 0, 0, 0],
        (5, 2) => [0, 0, 0, 0, 0, 1, 1, 1, 0, 1, 0, 0, 0, 0, 0, 0],
        (5, 3) => [0, 1, 1, 0, 0, 0, 1, 0, 0, 0, 1, 0, 0, 0, 0, 0],
        (6, 0) => [0, 0, 0, 0, 0, 1, 0, 0, 0, 1, 1, 1, 0, 0, 0, 0],
        (6, 1) => [0, 0, 1, 1, 0, 0, 1, 0, 0, 0, 1, 0, 0, 0, 0, 0],
        (6, 2) => [0, 0, 0, 0, 0, 1, 1, 1, 0, 0, 0, 1, 0, 0, 0, 0],
        (6, 3) => [0, 0, 1, 0, 0, 0, 1, 0, 0, 1, 1, 0, 0, 0, 0, 0],
        _ => [0; 16],
    };
    assert(m@ =~= shape(kind as int, rotation as int));
    m
}

impl TetriminoType {
    /// Position in the shape table: I, O, S, Z, T, L, J map to 0..=6.
    pub fn as_index(&self) -> (i: usize)
        ensures
            i == type_index(*self),
            i < 7,
    {
        match self {
            Self::I => 0,
            Self::O => 1,
            Self::S => 2,
            Self::Z => 3,
            Self::T => 4,
            Self::L => 5,
            Self::J => 6,
        }
    }

    /// The shape at a table position; positions past the table give `I`.
    pub fn from_index(i: usize) -> (t: Self)
        ensures
            i < 7 ==> type_index(t) == i,
            i >= 7 ==> t == TetriminoType::I,
    {
        match i {
            0 => Self::I,
            1 => Self::O,
            2 => Self::S,
            3 => Self::Z,
            4 => Self::T,
            5 => Self::L,
            6 => Self::J,
            _ => Self::I,
        }
    }

    /// A shape drawn at random; which one is left to the random source.
    pub fn random() -> (t: Self)
        ensures
            0 <= type_index(t) < 7,
    {
        Self::from_index(random_below(7))
    }

    /// The shape's one-letter name.
    pub fn letter(&self) -> (c: char)
        ensures
            c == type_letter(*self),
    {
        match self {
            Self::I => 'I',
            Self::O => 'O',
            Self::S => 'S',
            Self::Z => 'Z',
            Self::T => 'T',
            Self::L => 'L',
            Self::J => 'J',
        }
    }
}

/// The shape's one-letter name.
pub open spec fn type_letter(t: TetriminoType) -> char {
    match t {
        TetriminoType::I => 'I',
        TetriminoType::O => 'O',
        TetriminoType::S => 'S',
        TetriminoType::Z => 'Z',
        TetriminoType::T => 'T',
        TetriminoType::L => 'L',
        TetriminoType::J => 'J',
    }
}

/// A shape together with its rotation (0..=3, clockwise quarter turns).
#[derive(Clone, Copy)]
pub struct Tetrimino {
    pub tetrimino_type: TetriminoType,
    pub rotation: usize,
}

impl Tetrimino {
    /// Whether the rotation is one of the four table rotations.
    pub open spec fn wf(&self) -> bool {
        self.rotation < 4
    }

    /// The piece's cells in its current rotation.
    pub open spec fn cells(&self) -> Seq<u8> {
        shape(type_index(self.tetrimino_type), self.rotation as int)
    }

    /// An unrotated piece of the given shape.
    pub fn new(tetrimino_type: TetriminoType) -> (t: Self)
        ensures
            t.tetrimino_type == tetrimino_type,
            t.rotation == 0,
    {
        Self { tetrimino_type, rotation: 0 }
    }

    /// An unrotated piece of a random shape.
    pub fn random() -> (t: Self)
        ensures
            t.rotation == 0,
    {
        Self::new(TetriminoType::random())
    }

    /// The 4x4 cells of the piece in its current rotation.
    pub fn matrix(&self) -> (m: [u8; 16])
        requires
            self.wf(),
        ensures
            m@ == self.cells(),
    {
        shape_matrix(self.tetrimino_type.as_index(), self.rotation)
    }

    /// One quarter turn clockwise.
    pub fn rotate_right(&mut self)
        requires
            old(self).rotation < usize::MAX,
        ensures
            final(self).tetrimino_type == old(self).tetrimino_type,
            final(self).rotation == (old(self).rotation + 1) % 4,
    {
        self.rotation = (self.rotation + 1) % 4;
    }

    /// One quarter turn counter-clockwise.
    pub fn rotate_left(&mut self)
        requires
            old(self).rotation <= usize::MAX - 3,
        ensures
            final(self).tetrimino_type == old(self).tetrimino_type,
            final(self).rotation == (old(self).rotation + 3) % 4,
    {
        self.rotation = (self.rotation + 3) % 4;
    }

    /// Sets the rotation, reduced modulo four.
    pub fn set_rotation(&mut self, rotation: usize)
        ensures
            final(self).tetrimino_type == old(self).tetrimino_type,
            final(self).rotation == rotation % 4,
    {
        self.rotation = rotation % 4;
    }

    /// The 4x4 cells of the piece in the given rotation, or in its own
    /// rotation when `None` is given.
    pub fn get_matrix(&self, rotation: Option<usize>) -> (m: [u8; 16])
        requires
            (match rotation {
                Some(r) => r < 4,
                None => self.rotation < 4,
            }),
        ensures
            m@ == shape(
                type_index(self.tetrimino_type),
                match rotation {
                    Some(r) => r as int,
                    None => self.rotation as int,
                },
            ),
    {
        let rotation = match rotation {
            Some(r) => r,
            None => self.rotation,
        };
        shape_matrix(self.tetrimino_type.as_index(), rotation)
    }
}

/// A right turn followed by a left turn gives back the starting rotation,
/// and so does a left turn followed by a right turn.
pub proof fn lemma_rotations_cancel(r: usize)
    requires
        r < 4,
    ensures
        ((r + 1) % 4 + 3) % 4 == r,
        ((r + 3) % 4 + 1) % 4 == r,
{
}

/// Four quarter turns in the same direction give back the starting rotation.
pub proof fn lemma_four_turns(r: usize)
    requires
        r < 4,
    ensures
        ((((r + 1) % 4 + 1) % 4 + 1) % 4 + 1) % 4 == r,
        ((((r + 3) % 4 + 3) % 4 + 3) % 4 + 3) % 4 == r,
{
}

/// How many of the first `n` cells of a 4x4 grid are filled.
pub open spec fn filled_cells(m: Seq<u8>, n: int) -> int
    decreases n,
{
    if n <= 0 {
        0
    } else {
        filled_cells(m, n - 1) + if m[n - 1] != 0 {
            1int
        } else {
            0int
        }
    }
}

/// Every piece is made of four blocks, in each of its four rotations; the
/// square piece looks the same in all of them.
pub proof fn lemma_four_blocks(kind: int, rotation: int)
    requires
        0 <= kind < 7,
        0 <= rotation < 4,
    ensures
        filled_cells(shape(kind, rotation), 16) == 4,
        kind == 1 ==> shape(kind, rotation) == shape(1, 0),
{
    reveal_with_fuel(filled_cells, 17);
}

} // verus!
