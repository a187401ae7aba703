use vstd::prelude::*;
use crate::board::{
    Board, BoardState, blocked, collides, stamped, cleared_cells, full_rows,
    lemma_clearing_leaves_no_full_row,
};
use crate::score::{Score, ScoreState, score_after_lines, initial_score_state, line_points};
use crate::tetrimino::{Tetrimino, TetriminoType, shape, type_index};
use crate::clock::{instant_now, millis_between};

verus! {

/// The mathematical state of a game: everything but the clock.
pub struct TetrisState {
    pub board: BoardState,
    pub score: ScoreState,
    pub current: Tetrimino,
    pub next: Tetrimino,
    pub hold: Option<Tetrimino>,
    pub can_hold: bool,
    pub x: i32,
    pub y: i32,
    pub game_over: bool,
    pub paused: bool,
    pub needs_redraw: bool,
}

/// The cells of a piece type in a rotation.
pub open spec fn piece_shape(t: Tetrimino, rotation: int) -> Seq<u8> {
    shape(type_index(t.tetrimino_type), rotation)
}

/// The falling piece, in rotation `rotation`, fits at `(x, y)`.
pub open spec fn fits(s: TetrisState, x: int, y: int, rotation: int) -> bool {
    !collides(s.board.cells, piece_shape(s.current, rotation), x, y)
}

/// The game accepts moves: it is neither over nor paused.
pub open spec fn active(s: TetrisState) -> bool {
    !s.game_over && !s.paused
}

/// Which row of the wall-kick tables serves a rotation from `from` to `to`.
pub open spec fn kick_row(from: int, to: int) -> Option<int> {
    if from == 0 && to == 1 {
        Some(0)
    } else if from == 1 && to == 0 {
        Some(1)
    } else if from == 1 && to == 2 {
        Some(2)
    } else if from == 2 && to == 1 {
        Some(3)
    } else if from == 2 && to == 3 {
        Some(4)
    } else if from == 3 && to == 2 {
        Some(5)
    } else if from == 3 && to == 0 {
        Some(6)
    } else if from == 0 && to == 3 {
        Some(7)
    } else {
        None
    }
}

/// The first offset of the kick row, from entry `j` on, at which the shape
/// fits; the position it moves the piece to.
pub open spec fn first_fitting_kick(
    g: Seq<Option<u8>>,
    m: Seq<u8>,
    x: int,
    y: int,
    is_i: bool,
    row: int,
    j: int,
) -> Option<(int, int)>
    decreases 5 - j,
{
    if j >= 5 || j < 0 {
        None
    } else {
        let k = kick(is_i, row, j);
        if !collides(g, m, x + k.0, y + k.1) {
            Some((x + k.0, y + k.1))
        } else {
            first_fitting_kick(g, m, x, y, is_i, row, j + 1)
        }
    }
}

/// Where a wall kick moves the falling piece when it turns from `from` to
/// `to` at `(x, y)`, if anywhere.
pub open spec fn wall_kick(s: TetrisState, from: int, to: int, x: int, y: int) -> Option<(int, int)> {
    match kick_row(from, to) {
        Some(row) => first_fitting_kick(
            s.board.cells,
            piece_shape(s.current, to),
            x,
            y,
            s.current.tetrimino_type == TetriminoType::I,
            row,
            0,
        ),
        None => None,
    }
}

/// The first offset of `offs`, in order, at which the falling piece in
/// rotation `rotation` fits when moved from `(x, y)`; where it lands then.
pub open spec fn first_fit(s: TetrisState, rotation: int, x: int, y: int, offs: Seq<(int, int)>) -> Option<(int, int)>
    decreases offs.len(),
{
    if offs.len() == 0 {
        None
    } else if fits(s, x + offs[0].0, y + offs[0].1, rotation) {
        Some((x + offs[0].0, y + offs[0].1))
    } else {
        first_fit(s, rotation, x, y, offs.drop_first())
    }
}

proof fn lemma_kicks_from(s: TetrisState, to: int, x: int, y: int, is_i: bool, row: int, offs: Seq<(int, int)>, j: int)
    requires
        is_i == (s.current.tetrimino_type == TetriminoType::I),
        offs.len() == 5,
        0 <= j <= 5,
        forall|q: int| 0 <= q < 5 ==> kick(is_i, row, q) == #[trigger] offs[q],
    ensures
        first_fitting_kick(s.board.cells, piece_shape(s.current, to), x, y, is_i, row, j) == first_fit(
            s,
            to,
            x,
            y,
            offs.skip(j),
        ),
    decreases 5 - j,
{
    if j < 5 {
        lemma_kicks_from(s, to, x, y, is_i, row, offs, j + 1);
        assert(offs.skip(j).drop_first() =~= offs.skip(j + 1));
        assert(offs.skip(j)[0] == offs[j]);
    } else {
        assert(offs.skip(j).len() == 0);
    }
}

proof fn lemma_kicks_as_list(s: TetrisState, to: int, x: int, y: int, is_i: bool, row: int, offs: Seq<(int, int)>)
    requires
        is_i == (s.current.tetrimino_type == TetriminoType::I),
        offs.len() == 5,
        forall|q: int| 0 <= q < 5 ==> kick(is_i, row, q) == #[trigger] offs[q],
    ensures
        first_fitting_kick(s.board.cells, piece_shape(s.current, to), x, y, is_i, row, 0) == first_fit(
            s,
            to,
            x,
            y,
            offs,
        ),
{
    lemma_kicks_from(s, to, x, y, is_i, row, offs, 0);
    assert(offs.skip(0) =~= offs);
}

/// A blocked turn tries the standard wall-kick offsets in order: those of
/// the I piece for the I piece, those of the J, L, S, T and Z pieces for
/// the others (the O piece included); the piece goes to the first offset at
/// which it fits in its new rotation. Offsets are (columns right, rows down).
pub proof fn lemma_wall_kick_offsets(s: TetrisState, from: int, to: int, x: int, y: int)
    ensures
        ({
            let is_i = s.current.tetrimino_type == TetriminoType::I;
            &&& (is_i && from == 0 && to == 1 ==> wall_kick(s, from, to, x, y) == first_fit(s, to, x, y, seq![(0int, 0int), (-2int, 0int), (1int, 0int), (-2int, -1int), (1int, 2int)]))
            &&& (is_i && from == 1 && to == 0 ==> wall_kick(s, from, to, x, y) == first_fit(s, to, x, y, seq![(0int, 0int), (2int, 0int), (-1int, 0int), (2int, 1int), (-1int, -2int)]))
            &&& (is_i && from == 1 && to == 2 ==> wall_kick(s, from, to, x, y) == first_fit(s, to, x, y, seq![(0int, 0int), (-1int, 0int), (2int, 0int), (-1int, 2int), (2int, -1int)]))
            &&& (is_i && from == 2 && to == 1 ==> wall_kick(s, from, to, x, y) == first_fit(s, to, x, y, seq![(0int, 0int), (1int, 0int), (-2int, 0int), (1int, -2int), (-2int, 1int)]))
            &&& (is_i && from == 2 && to == 3 ==> wall_kick(s, from, to, x, y) == first_fit(s, to, x, y, seq![(0int, 0int), (2int, 0int), (-1int, 0int), (2int, 1int), (-1int, -2int)]))
            &&& (is_i && from == 3 && to == 2 ==> wall_kick(s, from, to, x, y) == first_fit(s, to, x, y, seq![(0int, 0int), (-2int, 0int), (1int, 0int), (-2int, -1int), (1int, 2int)]))
            &&& (is_i && from == 3 && to == 0 ==> wall_kick(s, from, to, x, y) == first_fit(s, to, x, y, seq![(0int, 0int), (1int, 0int), (-2int, 0int), (1int, -2int), (-2int, 1int)]))
            &&& (is_i && from == 0 && to == 3 ==> wall_kick(s, from, to, x, y) == first_fit(s, to, x, y, seq![(0int, 0int), (-1int, 0int), (2int, 0int), (-1int, 2int), (2int, -1int)]))
            &&& (!is_i && from == 0 && to == 1 ==> wall_kick(s, from, to, x, y) == first_fit(s, to, x, y, seq![(0int, 0int), (-1int, 0int), (-1int, 1int), (0int, -2int), (-1int, -2int)]))
            &&& (!is_i && from == 1 && to == 0 ==> wall_kick(s, from, to, x, y) == first_fit(s, to, x, y, seq![(0int, 0int), (1int, 0int), (1int, -1int), (0int, 2int), (1int, 2int)]))
            &&& (!is_i && from == 1 && to == 2 ==> wall_kick(s, from, to, x, y) == first_fit(s, to, x, y, seq![(0int, 0int), (1int, 0int), (1int, -1int), (0int, 2int), (1int, 2int)]))
            &&& (!is_i && from == 2 && to == 1 ==> wall_kick(s, from, to, x, y) == first_fit(s, to, x, y, seq![(0int, 0int), (-1int, 0int), (-1int, 1int), (0int, -2int), (-1int, -2int)]))
            &&& (!is_i && from == 2 && to == 3 ==> wall_kick(s, from, to, x, y) == first_fit(s, to, x, y, seq![(0int, 0int), (1int, 0int), (1int, 1int), (0int, -2int), (1int, -2int)]))
            &&& (!is_i && from == 3 && to == 2 ==> wall_kick(s, from, to, x, y) == first_fit(s, to, x, y, seq![(0int, 0int), (-1int, 0int), (-1int, -1int), (0int, 2int), (-1int, 2int)]))
            &&& (!is_i && from == 3 && to == 0 ==> wall_kick(s, from, to, x, y) == first_fit(s, to, x, y, seq![(0int, 0int), (-1int, 0int), (-1int, -1int), (0int, 2int), (-1int, 2int)]))
            &&& (!is_i && from == 0 && to == 3 ==> wall_kick(s, from, to, x, y) == first_fit(s, to, x, y, seq![(0int, 0int), (1int, 0int), (1int, 1int), (0int, -2int), (1int, -2int)]))
        }),
        kick_row(from, to) is None ==> wall_kick(s, from, to, x, y) is None,
{
    reveal(kick);
    let is_i = s.current.tetrimino_type == TetriminoType::I;
    if from == 0 && to == 1 {
        if is_i {
            lemma_kicks_as_list(s, to, x, y, true, 0, seq![(0int, 0int), (-2int, 0int), (1int, 0int), (-2int, -1int), (1int, 2int)]);
        } else {
            lemma_kicks_as_list(s, to, x, y, false, 0, seq![(0int, 0int), (-1int, 0int), (-1int, 1int), (0int, -2int), (-1int, -2int)]);
        }
    }
    if from == 1 && to == 0 {
        if is_i {
            lemma_kicks_as_list(s, to, x, y, true, 1, seq![(0int, 0int), (2int, 0int), (-1int, 0int), (2int, 1int), (-1int, -2int)]);
        } else {
            lemma_kicks_as_list(s, to, x, y, false, 1, seq![(0int, 0int), (1int, 0int), (1int, -1int), (0int, 2int), (1int, 2int)]);
        }
    }
    if from == 1 && to == 2 {
        if is_i {
            lemma_kicks_as_list(s, to, x, y, true, 2, seq![(0int, 0int), (-1int, 0int), (2int, 0int), (-1int, 2int), (2int, -1int)]);
        } else {
            lemma_kicks_as_list(s, to, x, y, false, 2, seq![(0int, 0int), (1int, 0int), (1int, -1int), (0int, 2int), (1int, 2int)]);
        }
    }
    if from == 2 && to == 1 {
        if is_i {
            lemma_kicks_as_list(s, to, x, y, true, 3, seq![(0int, 0int), (1int, 0int), (-2int, 0int), (1int, -2int), (-2int, 1int)]);
        } else {
            lemma_kicks_as_list(s, to, x, y, false, 3, seq![(0int, 0int), (-1int, 0int), (-1int, 1int), (0int, -2int), (-1int, -2int)]);
        }
    }
    if from == 2 && to == 3 {
        if is_i {
            lemma_kicks_as_list(s, to, x, y, true, 4, seq![(0int, 0int), (2int, 0int), (-1int, 0int), (2int, 1int), (-1int, -2int)]);
        } else {
            lemma_kicks_as_list(s, to, x, y, false, 4, seq![(0int, 0int), (1int, 0int), (1int, 1int), (0int, -2int), (1int, -2int)]);
        }
    }
    if from == 3 && to == 2 {
        if is_i {
            lemma_kicks_as_list(s, to, x, y, true, 5, seq![(0int, 0int), (-2int, 0int), (1int, 0int), (-2int, -1int), (1int, 2int)]);
        } else {
            lemma_kicks_as_list(s, to, x, y, false, 5, seq![(0int, 0int), (-1int, 0int), (-1int, -1int), (0int, 2int), (-1int, 2int)]);
        }
    }
    if from == 3 && to == 0 {
        if is_i {
            lemma_kicks_as_list(s, to, x, y, true, 6, seq![(0int, 0int), (1int, 0int), (-2int, 0int), (1int, -2int), (-2int, 1int)]);
        } else {
            lemma_kicks_as_list(s, to, x, y, false, 6, seq![(0int, 0int), (-1int, 0int), (-1int, -1int), (0int, 2int), (-1int, 2int)]);
        }
    }
    if from == 0 && to == 3 {
        if is_i {
            lemma_kicks_as_list(s, to, x, y, true, 7, seq![(0int, 0int), (-1int, 0int), (2int, 0int), (-1int, 2int), (2int, -1int)]);
        } else {
            lemma_kicks_as_list(s, to, x, y, false, 7, seq![(0int, 0int), (1int, 0int), (1int, 1int), (0int, -2int), (1int, -2int)]);
        }
    }
}

/// The row the shape lands on when it falls straight down from row `y`.
pub open spec fn landing_row(g: Seq<Option<u8>>, m: Seq<u8>, x: int, y: int) -> int
    decreases 17 - y,
{
    if y >= 17 {
        y
    } else if !collides(g, m, x, y + 1) {
        landing_row(g, m, x, y + 1)
    } else {
        y
    }
}

/// A hard drop goes as far down as the piece fits: from a place where it
/// fits, the landing row is no higher, the piece fits in every row down to
/// it, and one row lower it would overlap the floor or a block.
pub proof fn lemma_landing_is_lowest_fit(g: Seq<Option<u8>>, m: Seq<u8>, x: int, y: int, px: int, py: int)
    requires
        !collides(g, m, x, y),
        0 <= px < 4,
        0 <= py < 4,
        m[py * 4 + px] != 0,
    ensures
        y <= landing_row(g, m, x, y),
        !collides(g, m, x, landing_row(g, m, x, y)),
        collides(g, m, x, landing_row(g, m, x, y) + 1),
        forall|r: int| y <= r <= landing_row(g, m, x, y) ==> !collides(g, m, x, r),
    decreases 17 - y,
{
    if y >= 17 {
        assert(blocked(g, m, x, y + 1, px, py));
    } else if !collides(g, m, x, y + 1) {
        lemma_landing_is_lowest_fit(g, m, x, y + 1, px, py);
    }
}

/// The board after the falling piece settles where it is.
pub open spec fn settled_cells(s: TetrisState) -> Seq<Option<u8>> {
    stamped(
        s.board.cells,
        piece_shape(s.current, s.current.rotation as int),
        s.x as int,
        s.y as int,
        (type_index(s.current.tetrimino_type) + 1) as u8,
    )
}

/// The state right after the falling piece settles, before the next piece
/// enters: full rows removed and scored.
pub open spec fn after_settling(s: TetrisState) -> TetrisState {
    let p = settled_cells(s);
    let n = full_rows(p, 0).len();
    TetrisState {
        board: BoardState { cells: cleared_cells(p), lines_to_clear: full_rows(p, 0) },
        score: if n > 0 {
            score_after_lines(s.score, n as usize)
        } else {
            s.score
        },
        ..s
    }
}

/// `after` is `before` with the next piece brought in at the top: the
/// preview takes a fresh unrotated piece (its shape left to chance), holding
/// is allowed again, and the game ends if the new piece does not fit.
pub open spec fn spawned(before: TetrisState, after: TetrisState) -> bool {
    &&& after.board == before.board
    &&& after.score == before.score
    &&& after.current == Tetrimino { tetrimino_type: before.next.tetrimino_type, rotation: 0 }
    &&& after.next.rotation == 0
    &&& after.hold == before.hold
    &&& after.can_hold
    &&& after.x == 4
    &&& after.y == 0
    &&& after.game_over == (before.game_over || collides(
        before.board.cells,
        shape(type_index(before.next.tetrimino_type), 0),
        4,
        0,
    ))
    &&& after.paused == before.paused
    &&& after.needs_redraw
}

/// Room in the counters for one more lock.
pub open spec fn lock_headroom(s: ScoreState) -> bool {
    &&& s.score + 1200 * (s.level + 1) <= u32::MAX
    &&& s.lines_cleared + 18 <= u32::MAX
    &&& s.level + 1 <= u32::MAX
}

/// Room in the counters for one more drop and lock.
pub open spec fn score_headroom(s: ScoreState) -> bool {
    &&& s.score + 2 * 32 + 1200 * (s.level + 1) <= u32::MAX
    &&& s.lines_cleared + 18 <= u32::MAX
    &&& s.level + 1 <= u32::MAX
}

/// The wall-kick offsets tried, in order, when a rotation is blocked:
/// entry `j` of row `row` (row from `kick_row`), for the I piece or the
/// others.
#[verifier::opaque]
pub open spec fn kick(is_i: bool, row: int, j: int) -> (int, int) {
    if is_i {
        if row == 0 {
            if j == 0 {
                (0, 0)
            } else if j == 1 {
                (-2, 0)
            } else if j == 2 {
                (1, 0)
            } else if j == 3 {
                (-2, -1)
            } else if j == 4 {
                (1, 2)
            } else {
                (0, 0)
            }
        } else if row == 1 {
            if j == 0 {
                (0, 0)
            } else if j == 1 {
                (2, 0)
            } else if j == 2 {
                (-1, 0)
            } else if j == 3 {
                (2, 1)
            } else if j == 4 {
                (-1, -2)
            } else {
                (0, 0)
            }
        } else if row == 2 {
            if j == 0 {
                (0, 0)
            } else if j == 1 {
                (-1, 0)
            } else if j == 2 {
                (2, 0)
            } else if j == 3 {
                (-1, 2)
            } else if j == 4 {
                (2, -1)
            } else {
                (0, 0)
            }
        } else if row == 3 {
            if j == 0 {
                (0, 0)
            } else if j == 1 {
                (1, 0)
            } else if j == 2 {
                (-2, 0)
            } else if j == 3 {
                (1, -2)
            } else if j == 4 {
                (-2, 1)
            } else {
                (0, 0)
            }
        } else if row == 4 {
            if j == 0 {
                (0, 0)
            } else if j == 1 {
                (2, 0)
            } else if j == 2 {
                (-1, 0)
            } else if j == 3 {
                (2, 1)
            } else if j == 4 {
                (-1, -2)
            } else {
                (0, 0)
            }
        } else if row == 5 {
            if j == 0 {
                (0, 0)
            } else if j == 1 {
                (-2, 0)
            } else if j == 2 {
                (1, 0)
            } else if j == 3 {
                (-2, -1)
            } else if j == 4 {
                (1, 2)
            } else {
                (0, 0)
            }
        } else if row == 6 {
            if j == 0 {
                (0, 0)
            } else if j == 1 {
                (1, 0)
            } else if j == 2 {
                (-2, 0)
            } else if j == 3 {
                (1, -2)
            } else if j == 4 {
                (-2, 1)
            } else {
                (0, 0)
            }
        } else if row == 7 {
            if j == 0 {
                (0, 0)
            } else if j == 1 {
                (-1, 0)
            } else if j == 2 {
                (2, 0)
            } else if j == 3 {
                (-1, 2)
            } else if j == 4 {
                (2, -1)
            } else {
                (0, 0)
            }
        } else {
            (0, 0)
        }
    } else {
        if row == 0 {
            if j == 0 {
                (0, 0)
            } else if j == 1 {
                (-1, 0)
            } else if j == 2 {
                (-1, 1)
            } else if j == 3 {
                (0, -2)
            } else if j == 4 {
                (-1, -2)
            } else {
                (0, 0)
            }
        } else if row == 1 {
            if j == 0 {
                (0, 0)
            } else if j == 1 {
                (1, 0)
            } else if j == 2 {
                (1, -1)
            } else if j == 3 {
                (0, 2)
            } else if j == 4 {
                (1, 2)
            } else {
                (0, 0)
            }
        } else if row == 2 {
            if j == 0 {
                (0, 0)
            } else if j == 1 {
                (1, 0)
            } else if j == 2 {
                (1, -1)
            } else if j == 3 {
                (0, 2)
            } else if j == 4 {
                (1, 2)
            } else {
                (0, 0)
            }
        } else if row == 3 {
            if j == 0 {
                (0, 0)
            } else if j == 1 {
                (-1, 0)
            } else if j == 2 {
                (-1, 1)
            } else if j == 3 {
                (0, -2)
            } else if j == 4 {
                (-1, -2)
            } else {
                (0, 0)
            }
        } else if row == 4 {
            if j == 0 {
                (0, 0)
            } else if j == 1 {
                (1, 0)
            } else if j == 2 {
                (1, 1)
            } else if j == 3 {
                (0, -2)
            } else if j == 4 {
                (1, -2)
            } else {
                (0, 0)
            }
        } else if row == 5 {
            if j == 0 {
                (0, 0)
            } else if j == 1 {
                (-1, 0)
            } else if j == 2 {
                (-1, -1)
            } else if j == 3 {
                (0, 2)
            } else if j == 4 {
                (-1, 2)
            } else {
                (0, 0)
            }
        } else if row == 6 {
            if j == 0 {
                (0, 0)
            } else if j == 1 {
                (-1, 0)
            } else if j == 2 {
                (-1, -1)
            } else if j == 3 {
                (0, 2)
            } else if j == 4 {
                (-1, 2)
            } else {
                (0, 0)
            }
        } else if row == 7 {
            if j == 0 {
                (0, 0)
            } else if j == 1 {
                (1, 0)
            } else if j == 2 {
                (1, 1)
            } else if j == 3 {
                (0, -2)
            } else if j == 4 {
                (1, -2)
            } else {
                (0, 0)
            }
        } else {
            (0, 0)
        }
    }
}

fn kick_offset(is_i: bool, row: usize, j: usize) -> (k: (i32, i32))
    requires
        row < 8,
        j < 5,
    ensures
        k.0 as int == kick(is_i, row as int, j as int).0,
        k.1 as int == kick(is_i, row as int, j as int).1,
{
    reveal(kick);
    let idx = row * 5 + j;
    if is_i {
        match idx {
            0 => (0, 0),
            1 => (-2, 0),
            2 => (1, 0),
            3 => (-2, -1),
            4 => (1, 2),
            5 => (0, 0),
            6 => (2, 0),
            7 => (-1, 0),
            8 => (2, 1),
            9 => (-1, -2),
            10 => (0, 0),
            11 => (-1, 0),
            12 => (2, 0),
            13 => (-1, 2),
            14 => (2, -1),
            15 => (0, 0),
            16 => (1, 0),
            17 => (-2, 0),
            18 => (1, -2),
            19 => (-2, 1),
            20 => (0, 0),
            21 => (2, 0),
            22 => (-1, 0),
            23 => (2, 1),
            24 => (-1, -2),
            25 => (0, 0),
            26 => (-2, 0),
            27 => (1, 0),
            28 => (-2, -1),
            29 => (1, 2),
            30 => (0, 0),
            31 => (1, 0),
            32 => (-2, 0),
            33 => (1, -2),
            34 => (-2, 1),
            35 => (0, 0),
            36 => (-1, 0),
            37 => (2, 0),
            38 => (-1, 2),
            39 => (2, -1),
            _ => (0, 0),
        }
    } else {
        match idx {
            0 => (0, 0),
            1 => (-1, 0),
            2 => (-1, 1),
            3 => (0, -2),
            4 => (-1, -2),
            5 => (0, 0),
            6 => (1, 0),
            7 => (1, -1),
            8 => (0, 2),
            9 => (1, 2),
            10 => (0, 0),
            11 => (1, 0),
            12 => (1, -1),
            13 => (0, 2),
            14 => (1, 2),
            15 => (0, 0),
            16 => (-1, 0),
            17 => (-1, 1),
            18 => (0, -2),
            19 => (-1, -2),
            20 => (0, 0),
            21 => (1, 0),
            22 => (1, 1),
            23 => (0, -2),
            24 => (1, -2),
            25 => (0, 0),
            26 => (-1, 0),
            27 => (-1, -1),
            28 => (0, 2),
            29 => (-1, 2),
            30 => (0, 0),
            31 => (-1, 0),
            32 => (-1, -1),
            33 => (0, 2),
            34 => (-1, 2),
            35 => (0, 0),
            36 => (1, 0),
            37 => (1, 1),
            38 => (0, -2),
            39 => (1, -2),
            _ => (0, 0),
        }
    }
}

/// A shape that fits somewhere lies inside the walls and above the floor.
pub proof fn lemma_fit_bounds(g: Seq<Option<u8>>, kind: int, rotation: int, x: int, y: int)
    requires
        0 <= kind < 7,
        0 <= rotation < 4,
        !collides(g, shape(kind, rotation), x, y),
    ensures
        -2 <= x <= 8,
        y <= 16,
{
    let m = shape(kind, rotation);
    assert(!blocked(g, m, x, y, 1, 1));
    assert(!blocked(g, m, x, y, 2, 1));
    assert(!blocked(g, m, x, y, 1, 2));
    assert(!blocked(g, m, x, y, 2, 2));
    assert(m[5] != 0 || m[6] != 0 || m[9] != 0 || m[10] != 0);
}

/// Above the top row only the walls matter, so the height makes no difference.
pub proof fn lemma_above_board(g: Seq<Option<u8>>, m: Seq<u8>, x: int, y1: int, y2: int)
    requires
        m.len() == 16,
        y1 <= -4,
        y2 <= -4,
    ensures
        collides(g, m, x, y1) == collides(g, m, x, y2),
{
    assert forall|px: int, py: int| 0 <= px < 4 && 0 <= py < 4 implies blocked(g, m, x, y1, px, py)
        == blocked(g, m, x, y2, px, py) by {
    }
    if collides(g, m, x, y1) {
        let (px, py) = choose|px: int, py: int|
            0 <= px < 4 && 0 <= py < 4 && #[trigger] blocked(g, m, x, y1, px, py);
        assert(blocked(g, m, x, y2, px, py));
    }
    if collides(g, m, x, y2) {
        let (px, py) = choose|px: int, py: int|
            0 <= px < 4 && 0 <= py < 4 && #[trigger] blocked(g, m, x, y2, px, py);
        assert(blocked(g, m, x, y1, px, py));
    }
}

/// Every upward kick is preceded in its row by a kick with the same
/// sideways offset and no vertical one; no kick moves more than two cells.
proof fn lemma_kick_table(is_i: bool, row: int, j: int)
    requires
        0 <= row < 8,
        0 <= j < 5,
    ensures
        -2 <= kick(is_i, row, j).0 <= 2,
        -2 <= kick(is_i, row, j).1 <= 2,
        kick(is_i, row, j).1 < 0 ==> ({
            let i = if kick(is_i, row, 0).0 == kick(is_i, row, j).0 {
                0int
            } else if kick(is_i, row, 1).0 == kick(is_i, row, j).0 {
                1int
            } else {
                2int
            };
            &&& 0 <= i < j
            &&& kick(is_i, row, i).0 == kick(is_i, row, j).0
            &&& kick(is_i, row, i).1 == 0
        }),
{
    reveal(kick);
}

/// A kick chosen after all earlier ones in its row failed never lifts the
/// piece above row -5.
proof fn lemma_kick_keeps_height(g: Seq<Option<u8>>, m: Seq<u8>, x: int, y: int, is_i: bool, row: int, j: int)
    requires
        0 <= row < 8,
        0 <= j < 5,
        m.len() == 16,
        -5 <= y,
        forall|i: int| 0 <= i < j ==> collides(g, m, x + (#[trigger] kick(is_i, row, i)).0, y + kick(is_i, row, i).1),
        !collides(g, m, x + kick(is_i, row, j).0, y + kick(is_i, row, j).1),
    ensures
        -5 <= y + kick(is_i, row, j).1,
        -2 <= kick(is_i, row, j).0 <= 2,
{
    lemma_kick_table(is_i, row, j);
    let k = kick(is_i, row, j);
    if k.1 < 0 && y <= -4 {
        let i = if kick(is_i, row, 0).0 == k.0 {
            0int
        } else if kick(is_i, row, 1).0 == k.0 {
            1int
        } else {
            2int
        };
        assert(collides(g, m, x + kick(is_i, row, i).0, y + kick(is_i, row, i).1));
        lemma_above_board(g, m, x + k.0, y, y + k.1);
    }
}

/// A fitting piece keeps falling until the row below is blocked.
proof fn lemma_landing_step(g: Seq<Option<u8>>, m: Seq<u8>, x: int, y: int)
    requires
        y < 17,
        !collides(g, m, x, y + 1),
    ensures
        landing_row(g, m, x, y) == landing_row(g, m, x, y + 1),
{
}

/// Whatever the board, the shape cannot sink below row 17.
proof fn lemma_floor(g: Seq<Option<u8>>, kind: int, rotation: int, x: int, y: int)
    requires
        0 <= kind < 7,
        0 <= rotation < 4,
        y >= 17,
    ensures
        collides(g, shape(kind, rotation), x, y),
{
    if !collides(g, shape(kind, rotation), x, y) {
        lemma_fit_bounds(g, kind, rotation, x, y);
    }
}

/// A game of falling blocks: the playfield, the falling piece with its
/// position, the preview and held pieces, the score and the gravity clock.
pub struct TetrisGame {
    board: Board,
    score: Score,
    current_tetrimino: Tetrimino,
    next_tetrimino: Tetrimino,
    hold_tetrimino: Option<Tetrimino>,
    can_hold: bool,
    position: (i32, i32),
    game_over: bool,
    paused: bool,
    last_update: std::time::Instant,
    needs_redraw: bool,
}

impl View for TetrisGame {
    type V = TetrisState;

    closed spec fn view(&self) -> TetrisState {
        TetrisState {
            board: self.board@,
            score: self.score@,
            current: self.current_tetrimino,
            next: self.next_tetrimino,
            hold: self.hold_tetrimino,
            can_hold: self.can_hold,
            x: self.position.0,
            y: self.position.1,
            game_over: self.game_over,
            paused: self.paused,
            needs_redraw: self.needs_redraw,
        }
    }
}

impl TetrisGame {
    /// The game's invariant: a well-formed playfield, table rotations, a
    /// position near the playfield, and a falling piece that fits unless
    /// the game is over.
    pub closed spec fn wf(&self) -> bool {
        &&& self.board.wf()
        &&& self.current_tetrimino.rotation < 4
        &&& self.next_tetrimino.rotation < 4
        &&& (self.hold_tetrimino matches Some(h) ==> h.rotation < 4)
        &&& -3 <= self.position.0 <= 9
        &&& -5 <= self.position.1 <= 17
        &&& (!self.game_over ==> fits(
            self@,
            self.position.0 as int,
            self.position.1 as int,
            self.current_tetrimino.rotation as int,
        ))
    }

    /// The clock reading of the last gravity step, or of the moment the
    /// falling piece came in.
    pub closed spec fn last_update(&self) -> std::time::Instant {
        self.last_update
    }

    pub proof fn lemma_wf(&self)
        requires
            self.wf(),
        ensures
            self@.board.cells.len() == 180,
            self@.current.rotation < 4,
            self@.next.rotation < 4,
            -3 <= self@.x <= 9,
            -5 <= self@.y <= 17,
            !self@.game_over ==> fits(self@, self@.x as int, self@.y as int, self@.current.rotation as int),
    {
        self.board.lemma_wf();
    }

    /// A new game: empty playfield, fresh score, two random unrotated
    /// pieces, nothing held, the falling piece at column 4, row 0.
    pub fn new() -> (g: Self)
        ensures
            g.wf(),
            g@.board.cells == crate::board::empty_cells(),
            g@.board.lines_to_clear.len() == 0,
            g@.score == initial_score_state(),
            g@.current.rotation == 0,
            g@.next.rotation == 0,
            g@.hold is None,
            g@.can_hold,
            g@.x == 4,
            g@.y == 0,
            !g@.paused,
            g@.needs_redraw,
            g@.game_over == collides(crate::board::empty_cells(), piece_shape(g@.current, 0), 4, 0),
    {
        let mut game = Self {
            board: Board::new(),
            score: Score::new(),
            current_tetrimino: Tetrimino::random(),
            next_tetrimino: Tetrimino::random(),
            hold_tetrimino: None,
            can_hold: true,
            position: (4, 0),
            game_over: false,
            paused: false,
            last_update: instant_now(),
            needs_redraw: true,
        };
        proof {
            game.board.lemma_wf();
        }
        if game.check_collision(game.position.0, game.position.1, None) {
            game.game_over = true;
        }
        game
    }

    fn check_collision(&self, x: i32, y: i32, rotation: Option<usize>) -> (r: bool)
        requires
            self.board.wf(),
            self.current_tetrimino.rotation < 4,
            (rotation matches Some(rot) ==> rot < 4),
            x <= i32::MAX - 3,
            y <= i32::MAX - 3,
        ensures
            r == !fits(
                self@,
                x as int,
                y as int,
                match rotation {
                    Some(rot) => rot as int,
                    None => self.current_tetrimino.rotation as int,
                },
            ),
    {
        self.board.check_collision(&self.current_tetrimino, x, y, rotation)
    }

    fn valid_position(&self, x: i32, y: i32, rotation: Option<usize>) -> (r: bool)
        requires
            self.board.wf(),
            self.current_tetrimino.rotation < 4,
            (rotation matches Some(rot) ==> rot < 4),
            x <= i32::MAX - 3,
            y <= i32::MAX - 3,
        ensures
            r == fits(
                self@,
                x as int,
                y as int,
                match rotation {
                    Some(rot) => rot as int,
                    None => self.current_tetrimino.rotation as int,
                },
            ),
    {
        !self.check_collision(x, y, rotation)
    }

    /// The first wall kick, in table order, that lets the falling piece
    /// turn from `from_rotation` to `to_rotation` at `(x, y)`; `None` if
    /// none does or the two rotations are not neighbours.
    fn try_wall_kick(&self, from_rotation: usize, to_rotation: usize, x: i32, y: i32) -> (r: Option<(i32, i32)>)
        requires
            self.wf(),
            to_rotation < 4,
            -3 <= x <= 9,
            -5 <= y <= 17,
        ensures
            (match r {
                Some((nx, ny)) => wall_kick(self@, from_rotation as int, to_rotation as int, x as int, y as int)
                    == Some((nx as int, ny as int)) && -3 <= nx <= 9 && -5 <= ny <= 17,
                None => wall_kick(self@, from_rotation as int, to_rotation as int, x as int, y as int) is None,
            }),
    {
        let is_i_piece = match self.current_tetrimino.tetrimino_type {
            TetriminoType::I => true,
            _ => false,
        };
        let kick_index: usize = if from_rotation == 0 && to_rotation == 1 {
            0
        } else if from_rotation == 1 && to_rotation == 0 {
            1
        } else if from_rotation == 1 && to_rotation == 2 {
            2
        } else if from_rotation == 2 && to_rotation == 1 {
            3
        } else if from_rotation == 2 && to_rotation == 3 {
            4
        } else if from_rotation == 3 && to_rotation == 2 {
            5
        } else if from_rotation == 3 && to_rotation == 0 {
            6
        } else if from_rotation == 0 && to_rotation == 3 {
            7
        } else {
            return None;
        };
        let ghost g = self@.board.cells;
        let ghost m = piece_shape(self@.current, to_rotation as int);
        assert(is_i_piece == (self@.current.tetrimino_type == TetriminoType::I));
        assert(kick_row(from_rotation as int, to_rotation as int) == Some(kick_index as int));
        let mut j: usize = 0;
        while j < 5
            invariant
                self.wf(),
                j <= 5,
                kick_index < 8,
                to_rotation < 4,
                -3 <= x <= 9,
                -5 <= y <= 17,
                g == self@.board.cells,
                m == piece_shape(self@.current, to_rotation as int),
                m.len() == 16,
                is_i_piece == (self@.current.tetrimino_type == TetriminoType::I),
                kick_row(from_rotation as int, to_rotation as int) == Some(kick_index as int),
                first_fitting_kick(g, m, x as int, y as int, is_i_piece, kick_index as int, 0)
                    == first_fitting_kick(g, m, x as int, y as int, is_i_piece, kick_index as int, j as int),
                forall|i: int| 0 <= i < j ==> collides(
                    g,
                    m,
                    x + (#[trigger] kick(is_i_piece, kick_index as int, i)).0,
                    y + kick(is_i_piece, kick_index as int, i).1,
                ),
            decreases 5 - j,
        {
            let (kx, ky) = kick_offset(is_i_piece, kick_index, j);
            proof {
                lemma_kick_table(is_i_piece, kick_index as int, j as int);
            }
            let new_x = x + kx;
            let new_y = y + ky;
            if self.valid_position(new_x, new_y, Some(to_rotation)) {
                proof {
                    lemma_fit_bounds(g, type_index(self@.current.tetrimino_type), to_rotation as int, new_x as int, new_y as int);
                    lemma_kick_keeps_height(g, m, x as int, y as int, is_i_piece, kick_index as int, j as int);
                }
                return Some((new_x, new_y));
            }
            j = j + 1;
        }
        None
    }

    /// Moves the falling piece one column left if the game accepts moves and
    /// the piece fits there. Returns whether it moved.
    pub fn move_left(&mut self) -> (moved: bool)
        requires
            old(self).wf(),
        ensures
            final(self).wf(),
            moved == (active(old(self)@) && fits(old(self)@, old(self)@.x - 1, old(self)@.y as int, old(self)@.current.rotation as int)),
            moved ==> final(self)@ == (TetrisState { x: (old(self)@.x - 1) as i32, needs_redraw: true, ..old(self)@ }),
            !moved ==> final(self)@ == old(self)@,
            final(self).last_update() == old(self).last_update(),
    {
        if !self.game_over && !self.paused {
            let new_x = self.position.0 - 1;
            if self.valid_position(new_x, self.position.1, None) {
                proof {
                    lemma_fit_bounds(self@.board.cells, type_index(self@.current.tetrimino_type), self@.current.rotation as int, new_x as int, self@.y as int);
                }
                self.position.0 = new_x;
                self.needs_redraw = true;
                return true;
            }
        }
        false
    }

    /// Moves the falling piece one column right if the game accepts moves
    /// and the piece fits there. Returns whether it moved.
    pub fn move_right(&mut self) -> (moved: bool)
        requires
            old(self).wf(),
        ensures
            final(self).wf(),
            moved == (active(old(self)@) && fits(old(self)@, old(self)@.x + 1, old(self)@.y as int, old(self)@.current.rotation as int)),
            moved ==> final(self)@ == (TetrisState { x: (old(self)@.x + 1) as i32, needs_redraw: true, ..old(self)@ }),
            !moved ==> final(self)@ == old(self)@,
            final(self).last_update() == old(self).last_update(),
    {
        if !self.game_over && !self.paused {
            let new_x = self.position.0 + 1;
            if self.valid_position(new_x, self.position.1, None) {
                proof {
                    lemma_fit_bounds(self@.board.cells, type_index(self@.current.tetrimino_type), self@.current.rotation as int, new_x as int, self@.y as int);
                }
                self.position.0 = new_x;
                self.needs_redraw = true;
                return true;
            }
        }
        false
    }

    /// Moves the falling piece one row down, for one point, if it fits
    /// there; otherwise settles it and brings in the next piece. Does
    /// nothing when the game is over or paused. Returns whether anything
    /// happened.
    pub fn soft_drop(&mut self) -> (r: bool)
        requires
            old(self).wf(),
            score_headroom(old(self)@.score),
        ensures
            final(self).wf(),
            r == active(old(self)@),
            active(old(self)@) && fits(old(self)@, old(self)@.x as int, old(self)@.y + 1, old(self)@.current.rotation as int)
                ==> final(self)@ == (TetrisState {
                    y: (old(self)@.y + 1) as i32,
                    score: ScoreState { score: (old(self)@.score.score + 1) as u32, ..old(self)@.score },
                    needs_redraw: true,
                    ..old(self)@
                }),
            active(old(self)@) && !fits(old(self)@, old(self)@.x as int, old(self)@.y + 1, old(self)@.current.rotation as int)
                ==> spawned(after_settling(old(self)@), final(self)@),
            !active(old(self)@) ==> final(self)@ == old(self)@,
            !(active(old(self)@) && !fits(old(self)@, old(self)@.x as int, old(self)@.y + 1, old(self)@.current.rotation as int))
                ==> final(self).last_update() == old(self).last_update(),
    {
        if !self.game_over && !self.paused {
            let new_y = self.position.1 + 1;
            if self.valid_position(self.position.0, new_y, None) {
                proof {
                    lemma_fit_bounds(self@.board.cells, type_index(self@.current.tetrimino_type), self@.current.rotation as int, self@.x as int, new_y as int);
                }
                self.position.1 = new_y;
                self.score.add_soft_drop_points(1);
                self.needs_redraw = true;
                return true;
            } else {
                return self.lock_current_piece();
            }
        }
        false
    }

    /// Drops the falling piece straight down as far as it fits, two points
    /// per row, then settles it and brings in the next piece. Does nothing
    /// when the game is over or paused. Returns whether anything happened.
    pub fn hard_drop(&mut self) -> (r: bool)
        requires
            old(self).wf(),
            score_headroom(old(self)@.score),
        ensures
            final(self).wf(),
            r == active(old(self)@),
            active(old(self)@) ==> ({
                let land = landing_row(
                    old(self)@.board.cells,
                    piece_shape(old(self)@.current, old(self)@.current.rotation as int),
                    old(self)@.x as int,
                    old(self)@.y as int,
                );
                let dropped = TetrisState {
                    y: land as i32,
                    score: ScoreState {
                        score: (old(self)@.score.score + 2 * (land - old(self)@.y)) as u32,
                        ..old(self)@.score
                    },
                    ..old(self)@
                };
                spawned(after_settling(dropped), final(self)@)
            }),
            !active(old(self)@) ==> final(self)@ == old(self)@,
    {
        if self.game_over || self.paused {
            return false;
        }
        let ghost g = self@.board.cells;
        let ghost m = piece_shape(self@.current, self@.current.rotation as int);
        let ghost y0 = self.position.1 as int;
        let ghost x0 = self.position.0 as int;
        proof {
            self.board.lemma_wf();
            lemma_fit_bounds(g, type_index(self@.current.tetrimino_type), self@.current.rotation as int, x0, y0);
        }
        let mut drop_distance: i32 = 0;
        while self.valid_position(self.position.0, self.position.1 + drop_distance + 1, None)
            invariant
                self.wf(),
                !self.game_over,
                !self.paused,
                g == self@.board.cells,
                m == piece_shape(self@.current, self@.current.rotation as int),
                x0 == self.position.0,
                y0 == self.position.1,
                0 <= drop_distance,
                y0 + drop_distance <= 16,
                fits(self@, x0, y0 + drop_distance, self@.current.rotation as int),
                landing_row(g, m, x0, y0) == landing_row(g, m, x0, y0 + drop_distance),
                score_headroom(self@.score),
            decreases 16 - y0 - drop_distance,
        {
            proof {
                lemma_landing_step(g, m, x0, y0 + drop_distance);
                lemma_fit_bounds(g, type_index(self@.current.tetrimino_type), self@.current.rotation as int, x0, y0 + drop_distance + 1);
            }
            drop_distance = drop_distance + 1;
        }
        proof {
            if y0 + drop_distance < 17 {
            } else {
                lemma_floor(g, type_index(self@.current.tetrimino_type), self@.current.rotation as int, x0, y0 + drop_distance);
            }
            assert(landing_row(g, m, x0, y0 + drop_distance) == y0 + drop_distance);
        }
        self.position.1 = self.position.1 + drop_distance;
        self.score.add_hard_drop_points(drop_distance as u32);
        self.lock_current_piece()
    }

    /// Turns the falling piece a quarter counter-clockwise, in place if it
    /// fits, else by the first fitting wall kick. Does nothing when the game
    /// is over or paused or no kick fits. Returns whether it turned.
    pub fn rotate_left(&mut self) -> (turned: bool)
        requires
            old(self).wf(),
        ensures
            final(self).wf(),
            ({
                let s = old(self)@;
                let from = s.current.rotation as int;
                let to = (from + 3) % 4;
                let turned_piece = Tetrimino { rotation: to as usize, ..s.current };
                &&& !active(s) ==> !turned && final(self)@ == s
                &&& active(s) && fits(s, s.x as int, s.y as int, to) ==> turned && final(self)@
                    == (TetrisState { current: turned_piece, needs_redraw: true, ..s })
                &&& active(s) && !fits(s, s.x as int, s.y as int, to) ==> match wall_kick(s, from, to, s.x as int, s.y as int) {
                    Some((nx, ny)) => turned && final(self)@ == (TetrisState {
                        current: turned_piece,
                        x: nx as i32,
                        y: ny as i32,
                        needs_redraw: true,
                        ..s
                    }),
                    None => !turned && final(self)@ == s,
                }
            }),
            final(self).last_update() == old(self).last_update(),
    {
        if self.game_over || self.paused {
            return false;
        }
        let from_rotation = self.current_tetrimino.rotation;
        let to_rotation = (from_rotation + 3) % 4;
        if self.valid_position(self.position.0, self.position.1, Some(to_rotation)) {
            self.current_tetrimino.rotate_left();
            self.needs_redraw = true;
            return true;
        }
        match self.try_wall_kick(from_rotation, to_rotation, self.position.0, self.position.1) {
            Some((new_x, new_y)) => {
                proof {
                    let s = self@;
                    let row = kick_row(from_rotation as int, to_rotation as int)->0;
                    lemma_first_fitting_kick_fits(
                        s.board.cells,
                        piece_shape(s.current, to_rotation as int),
                        s.x as int,
                        s.y as int,
                        s.current.tetrimino_type == TetriminoType::I,
                        row,
                        0,
                    );
                }
                self.current_tetrimino.rotate_left();
                self.position = (new_x, new_y);
                self.needs_redraw = true;
                true
            },
            None => false,
        }
    }

    /// Turns the falling piece a quarter clockwise, in place if it fits,
    /// else by the first fitting wall kick. Does nothing when the game is
    /// over or paused or no kick fits. Returns whether it turned.
    pub fn rotate_right(&mut self) -> (turned: bool)
        requires
            old(self).wf(),
        ensures
            final(self).wf(),
            ({
                let s = old(self)@;
                let from = s.current.rotation as int;
                let to = (from + 1) % 4;
                let turned_piece = Tetrimino { rotation: to as usize, ..s.current };
                &&& !active(s) ==> !turned && final(self)@ == s
                &&& active(s) && fits(s, s.x as int, s.y as int, to) ==> turned && final(self)@
                    == (TetrisState { current: turned_piece, needs_redraw: true, ..s })
                &&& active(s) && !fits(s, s.x as int, s.y as int, to) ==> match wall_kick(s, from, to, s.x as int, s.y as int) {
                    Some((nx, ny)) => turned && final(self)@ == (TetrisState {
                        current: turned_piece,
                        x: nx as i32,
                        y: ny as i32,
                        needs_redraw: true,
                        ..s
                    }),
                    None => !turned && final(self)@ == s,
                }
            }),
            final(self).last_update() == old(self).last_update(),
    {
        if self.game_over || self.paused {
            return false;
        }
        let from_rotation = self.current_tetrimino.rotation;
        let to_rotation = (from_rotation + 1) % 4;
        if self.valid_position(self.position.0, self.position.1, Some(to_rotation)) {
            self.current_tetrimino.rotate_right();
            self.needs_redraw = true;
            return true;
        }
        match self.try_wall_kick(from_rotation, to_rotation, self.position.0, self.position.1) {
            Some((new_x, new_y)) => {
                proof {
                    let s = self@;
                    let row = kick_row(from_rotation as int, to_rotation as int)->0;
                    lemma_first_fitting_kick_fits(
                        s.board.cells,
                        piece_shape(s.current, to_rotation as int),
                        s.x as int,
                        s.y as int,
                        s.current.tetrimino_type == TetriminoType::I,
                        row,
                        0,
                    );
                }
                self.current_tetrimino.rotate_right();
                self.position = (new_x, new_y);
                self.needs_redraw = true;
                true
            },
            None => false,
        }
    }

    /// Swaps the falling piece with the held one (or, with nothing held,
    /// holds it and brings in the preview piece), restarting at column 4,
    /// row 0, unrotated. Allowed once per piece; not when the game is over
    /// or paused. Returns whether it happened.
    pub fn hold_current_piece(&mut self) -> (r: bool)
        requires
            old(self).wf(),
        ensures
            final(self).wf(),
            ({
                let s = old(self)@;
                let t = final(self)@;
                &&& r == (active(s) && s.can_hold)
                &&& !r ==> t == s
                &&& r ==> ({
                    let incoming = match s.hold {
                        Some(h) => h.tetrimino_type,
                        None => s.next.tetrimino_type,
                    };
                    &&& t.board == s.board
                    &&& t.score == s.score
                    &&& t.hold == Some(s.current)
                    &&& t.current == Tetrimino { tetrimino_type: incoming, rotation: 0 }
                    &&& (s.hold is Some ==> t.next == s.next)
                    &&& (s.hold is None ==> t.next.rotation == 0)
                    &&& !t.can_hold
                    &&& t.x == 4
                    &&& t.y == 0
                    &&& t.game_over == collides(s.board.cells, shape(type_index(incoming), 0), 4, 0)
                    &&& t.paused == s.paused
                    &&& t.needs_redraw
                })
            }),
    {
        if self.game_over || self.paused || !self.can_hold {
            return false;
        }
        match self.hold_tetrimino {
            Some(hold_piece) => {
                let temp = self.current_tetrimino;
                self.current_tetrimino = hold_piece;
                self.hold_tetrimino = Some(temp);
            },
            None => {
                self.hold_tetrimino = Some(self.current_tetrimino);
                self.current_tetrimino = self.next_tetrimino;
                self.next_tetrimino = Tetrimino::random();
            },
        }
        self.position = (4, 0);
        self.current_tetrimino.rotation = 0;
        self.can_hold = false;
        if self.check_collision(self.position.0, self.position.1, None) {
            self.game_over = true;
        }
        self.needs_redraw = true;
        true
    }

    /// Settles the falling piece where it is, scores the removed rows and
    /// brings in the next piece.
    fn lock_current_piece(&mut self) -> (r: bool)
        requires
            old(self).wf(),
            active(old(self)@),
            lock_headroom(old(self)@.score),
        ensures
            final(self).wf(),
            r,
            spawned(after_settling(old(self)@), final(self)@),
    {
        if self.game_over || self.paused {
            return false;
        }
        let ghost s0 = self@;
        let lines_cleared = self.board.lock_tetrimino(&self.current_tetrimino, self.position.0, self.position.1);
        proof {
            lemma_clearing_leaves_no_full_row(settled_cells(s0));
            assert(line_points(lines_cleared as int) <= 1200);
            assert(line_points(lines_cleared as int) * (s0.score.level + 1) <= 1200 * (s0.score.level + 1))
                by (nonlinear_arith)
                requires
                    0 <= line_points(lines_cleared as int) <= 1200,
                    s0.score.level >= 0,
            ;
        }
        if lines_cleared > 0 {
            self.score.add_lines(lines_cleared);
        }
        proof {
            assert(self@ == TetrisState { needs_redraw: s0.needs_redraw, ..after_settling(s0) });
        }
        self.spawn_new_piece();
        true
    }

    fn spawn_new_piece(&mut self)
        requires
            old(self).board.wf(),
            old(self).next_tetrimino.rotation < 4,
            (old(self).hold_tetrimino matches Some(h) ==> h.rotation < 4),
            !old(self).game_over,
        ensures
            final(self).wf(),
            spawned(old(self)@, final(self)@),
    {
        self.current_tetrimino = self.next_tetrimino;
        self.next_tetrimino = Tetrimino::random();
        self.position = (4, 0);
        self.current_tetrimino.rotation = 0;
        self.can_hold = true;
        self.last_update = instant_now();
        if self.check_collision(self.position.0, self.position.1, None) {
            self.game_over = true;
        }
        self.needs_redraw = true;
    }

    /// Applies gravity: reads the clock and hands the time since the last
    /// gravity step to `update_after`.
    pub fn update(&mut self)
        requires
            old(self).wf(),
            score_headroom(old(self)@.score),
        ensures
            final(self).wf(),
            final(self)@ == old(self)@ || (active(old(self)@) && old(self)@.board.lines_to_clear.len() == 0
                && (fits(old(self)@, old(self)@.x as int, old(self)@.y + 1, old(self)@.current.rotation as int)
                ==> final(self)@ == (TetrisState {
                    y: (old(self)@.y + 1) as i32,
                    score: ScoreState { score: (old(self)@.score.score + 1) as u32, ..old(self)@.score },
                    needs_redraw: true,
                    ..old(self)@
                })) && (!fits(old(self)@, old(self)@.x as int, old(self)@.y + 1, old(self)@.current.rotation as int)
                ==> spawned(after_settling(old(self)@), final(self)@))),
            final(self).last_update() == old(self).last_update() || (active(old(self)@) && !fits(
                old(self)@,
                old(self)@.x as int,
                old(self)@.y + 1,
                old(self)@.current.rotation as int,
            )),
    {
        if self.game_over || self.paused || self.board.is_line_clearing() {
            return;
        }
        let now = instant_now();
        let elapsed = millis_between(&self.last_update, &now);
        self.update_after(elapsed, now);
    }

    /// Gravity given the milliseconds since the last gravity step: once the
    /// level's interval has passed, the piece moves down one row as by
    /// `soft_drop`. Nothing happens while the game is over or paused, or
    /// while the last lock's removed rows are still recorded. The gravity
    /// clock keeps its reading unless the piece settles, when the next
    /// piece's arrival is read from the clock; `now` would be stored only if
    /// the drop did nothing, which cannot happen once gravity is due.
    pub fn update_after(&mut self, elapsed_ms: u128, now: std::time::Instant)
        requires
            old(self).wf(),
            score_headroom(old(self)@.score),
        ensures
            final(self).wf(),
            ({
                let s = old(self)@;
                let due = active(s) && s.board.lines_to_clear.len() == 0 && elapsed_ms >= s.score.drop_interval_ms;
                &&& !due ==> final(self)@ == s
                &&& due && fits(s, s.x as int, s.y + 1, s.current.rotation as int) ==> final(self)@ == (TetrisState {
                    y: (s.y + 1) as i32,
                    score: ScoreState { score: (s.score.score + 1) as u32, ..s.score },
                    needs_redraw: true,
                    ..s
                })
                &&& due && !fits(s, s.x as int, s.y + 1, s.current.rotation as int) ==> spawned(after_settling(s), final(self)@)
                &&& !(due && !fits(s, s.x as int, s.y + 1, s.current.rotation as int)) ==> final(self).last_update()
                    == old(self).last_update()
            }),
    {
        if self.game_over || self.paused || self.board.is_line_clearing() {
            return;
        }
        if elapsed_ms >= self.score.drop_interval() as u128 {
            if !self.soft_drop() {
                self.last_update = now;
            }
        }
    }

    /// Starts a new game in place of this one.
    pub fn reset(&mut self)
        ensures
            final(self).wf(),
            final(self)@.board.cells == crate::board::empty_cells(),
            final(self)@.board.lines_to_clear.len() == 0,
            final(self)@.score == initial_score_state(),
            final(self)@.current.rotation == 0,
            final(self)@.next.rotation == 0,
            final(self)@.hold is None,
            final(self)@.can_hold,
            final(self)@.x == 4,
            final(self)@.y == 0,
            !final(self)@.paused,
            final(self)@.needs_redraw,
            final(self)@.game_over == collides(
                crate::board::empty_cells(),
                piece_shape(final(self)@.current, 0),
                4,
                0,
            ),
    {
        *self = Self::new();
    }

    /// Pauses or resumes a game that is not over.
    pub fn toggle_pause(&mut self)
        requires
            old(self).wf(),
        ensures
            final(self).wf(),
            old(self)@.game_over ==> final(self)@ == old(self)@,
            !old(self)@.game_over ==> final(self)@ == (TetrisState {
                paused: !old(self)@.paused,
                needs_redraw: true,
                ..old(self)@
            }),
            final(self).last_update() == old(self).last_update(),
    {
        if !self.game_over {
            self.paused = !self.paused;
            self.needs_redraw = true;
        }
    }

    pub fn is_game_over(&self) -> (b: bool)
        ensures
            b == self@.game_over,
    {
        self.game_over
    }

    pub fn is_paused(&self) -> (b: bool)
        ensures
            b == self@.paused,
    {
        self.paused
    }

    pub fn needs_redraw(&self) -> (b: bool)
        ensures
            b == self@.needs_redraw,
    {
        self.needs_redraw
    }

    pub fn clear_redraw_flag(&mut self)
        ensures
            final(self)@ == (TetrisState { needs_redraw: false, ..old(self)@ }),
            old(self).wf() ==> final(self).wf(),
    {
        self.needs_redraw = false;
    }

    /// Whether the counters have room for one more drop and lock.
    pub fn score_has_headroom(&self) -> (b: bool)
        ensures
            b == score_headroom(self@.score),
    {
        let s = self.score.score() as u64;
        let level = self.score.level() as u64;
        let lines = self.score.lines_cleared() as u64;
        s + 64 + 1200 * (level + 1) <= u32::MAX as u64 && lines + 18 <= u32::MAX as u64 && level + 1
            <= u32::MAX as u64
    }

    /// The row where the falling piece would land if dropped now.
    pub fn ghost_position(&self) -> (y: i32)
        requires
            self.wf(),
            !self@.game_over,
        ensures
            y == landing_row(
                self@.board.cells,
                piece_shape(self@.current, self@.current.rotation as int),
                self@.x as int,
                self@.y as int,
            ),
    {
        let ghost g = self@.board.cells;
        let ghost m = piece_shape(self@.current, self@.current.rotation as int);
        proof {
            lemma_fit_bounds(g, type_index(self@.current.tetrimino_type), self@.current.rotation as int, self@.x as int, self@.y as int);
        }
        let mut ghost_y = self.position.1;
        while self.valid_position(self.position.0, ghost_y + 1, None)
            invariant
                self.wf(),
                !self@.game_over,
                g == self@.board.cells,
                m == piece_shape(self@.current, self@.current.rotation as int),
                self.position.1 <= ghost_y <= 16,
                fits(self@, self.position.0 as int, ghost_y as int, self@.current.rotation as int),
                landing_row(g, m, self.position.0 as int, self.position.1 as int) == landing_row(
                    g,
                    m,
                    self.position.0 as int,
                    ghost_y as int,
                ),
            decreases 16 - ghost_y,
        {
            proof {
                lemma_landing_step(g, m, self.position.0 as int, ghost_y as int);
                lemma_fit_bounds(g, type_index(self@.current.tetrimino_type), self@.current.rotation as int, self.position.0 as int, ghost_y + 1);
            }
            ghost_y = ghost_y + 1;
        }
        proof {
            if ghost_y >= 17 {
                lemma_floor(g, type_index(self@.current.tetrimino_type), self@.current.rotation as int, self.position.0 as int, ghost_y as int);
            }
        }
        ghost_y
    }

    /// The playfield.
    pub fn board(&self) -> (b: &Board)
        ensures
            b@ == self@.board,
            self.wf() ==> b.wf(),
    {
        &self.board
    }

    /// The scoreboard.
    pub fn score(&self) -> (s: &Score)
        ensures
            s@ == self@.score,
    {
        &self.score
    }

    /// The falling piece.
    pub fn current_piece(&self) -> (t: Tetrimino)
        ensures
            t == self@.current,
    {
        self.current_tetrimino
    }

    /// The preview piece.
    pub fn next_piece(&self) -> (t: Tetrimino)
        ensures
            t == self@.next,
    {
        self.next_tetrimino
    }

    /// The held piece, if any.
    pub fn held_piece(&self) -> (t: Option<Tetrimino>)
        ensures
            t == self@.hold,
    {
        self.hold_tetrimino
    }

    /// The column and row of the falling piece's 4x4 box.
    pub fn position(&self) -> (p: (i32, i32))
        ensures
            p == (self@.x, self@.y),
    {
        self.position
    }
}

/// The first fitting kick does fit.
pub proof fn lemma_first_fitting_kick_fits(
    g: Seq<Option<u8>>,
    m: Seq<u8>,
    x: int,
    y: int,
    is_i: bool,
    row: int,
    j: int,
)
    ensures
        first_fitting_kick(g, m, x, y, is_i, row, j) matches Some((nx, ny)) ==> !collides(g, m, nx, ny),
    decreases 5 - j,
{
    if 0 <= j < 5 {
        lemma_first_fitting_kick_fits(g, m, x, y, is_i, row, j + 1);
    }
}

/// A move to the left that succeeded is undone by a move to the right,
/// which then always succeeds.
pub proof fn lemma_left_then_right(s: TetrisState)
    requires
        active(s),
        fits(s, s.x as int, s.y as int, s.current.rotation as int),
        fits(s, s.x - 1, s.y as int, s.current.rotation as int),
        -100 <= s.x <= 100,
    ensures
        ({
            let t = TetrisState { x: (s.x - 1) as i32, needs_redraw: true, ..s };
            &&& active(t)
            &&& fits(t, t.x + 1, t.y as int, t.current.rotation as int)
            &&& TetrisState { x: (t.x + 1) as i32, needs_redraw: true, ..t } == TetrisState {
                needs_redraw: true,
                ..s
            }
        }),
{
}

/// A move to the right that succeeded is undone by a move to the left,
/// which then always succeeds.
pub proof fn lemma_right_then_left(s: TetrisState)
    requires
        active(s),
        fits(s, s.x as int, s.y as int, s.current.rotation as int),
        fits(s, s.x + 1, s.y as int, s.current.rotation as int),
        -100 <= s.x <= 100,
    ensures
        ({
            let t = TetrisState { x: (s.x + 1) as i32, needs_redraw: true, ..s };
            &&& active(t)
            &&& fits(t, t.x - 1, t.y as int, t.current.rotation as int)
            &&& TetrisState { x: (t.x - 1) as i32, needs_redraw: true, ..t } == TetrisState {
                needs_redraw: true,
                ..s
            }
        }),
{
}

/// What a move to the left does to the game: the piece goes one column
/// left where the game accepts moves and the piece fits there.
pub open spec fn left_step(s: TetrisState, t: TetrisState) -> bool {
    if active(s) && fits(s, s.x - 1, s.y as int, s.current.rotation as int) {
        t == TetrisState { x: (s.x - 1) as i32, needs_redraw: true, ..s }
    } else {
        t == s
    }
}

/// What a move to the right does to the game.
pub open spec fn right_step(s: TetrisState, t: TetrisState) -> bool {
    if active(s) && fits(s, s.x + 1, s.y as int, s.current.rotation as int) {
        t == TetrisState { x: (s.x + 1) as i32, needs_redraw: true, ..s }
    } else {
        t == s
    }
}

/// What a soft drop does: a row down for a point where the piece fits,
/// else the piece settles and the next comes in.
pub open spec fn soft_drop_step(s: TetrisState, t: TetrisState) -> bool {
    if !active(s) {
        t == s
    } else if fits(s, s.x as int, s.y + 1, s.current.rotation as int) {
        t == TetrisState {
            y: (s.y + 1) as i32,
            score: ScoreState { score: (s.score.score + 1) as u32, ..s.score },
            needs_redraw: true,
            ..s
        }
    } else {
        spawned(after_settling(s), t)
    }
}

/// What a hard drop does: the piece falls to its landing row for two
/// points a row, settles, and the next comes in.
pub open spec fn hard_drop_step(s: TetrisState, t: TetrisState) -> bool {
    if !active(s) {
        t == s
    } else {
        let land = landing_row(
            s.board.cells,
            piece_shape(s.current, s.current.rotation as int),
            s.x as int,
            s.y as int,
        );
        let dropped = TetrisState {
            y: land as i32,
            score: ScoreState { score: (s.score.score + 2 * (land - s.y)) as u32, ..s.score },
            ..s
        };
        spawned(after_settling(dropped), t)
    }
}

/// What a quarter turn (`turns` quarters clockwise: 1 right, 3 left) does:
/// in place where it fits, else at the first wall kick that fits, else
/// nothing.
pub open spec fn turn_step(s: TetrisState, t: TetrisState, turns: int) -> bool {
    let from = s.current.rotation as int;
    let to = (from + turns) % 4;
    let turned_piece = Tetrimino { rotation: to as usize, ..s.current };
    if !active(s) {
        t == s
    } else if fits(s, s.x as int, s.y as int, to) {
        t == TetrisState { current: turned_piece, needs_redraw: true, ..s }
    } else {
        match wall_kick(s, from, to, s.x as int, s.y as int) {
            Some((nx, ny)) => t == TetrisState {
                current: turned_piece,
                x: nx as i32,
                y: ny as i32,
                needs_redraw: true,
                ..s
            },
            None => t == s,
        }
    }
}

/// What holding does: once per piece, the piece goes to the hold and the
/// held one (or the next) comes in at the top.
pub open spec fn hold_step(s: TetrisState, t: TetrisState) -> bool {
    if !(active(s) && s.can_hold) {
        t == s
    } else {
        let incoming = match s.hold {
            Some(h) => h.tetrimino_type,
            None => s.next.tetrimino_type,
        };
        &&& t.board == s.board
        &&& t.score == s.score
        &&& t.hold == Some(s.current)
        &&& t.current == Tetrimino { tetrimino_type: incoming, rotation: 0 }
        &&& (s.hold is Some ==> t.next == s.next)
        &&& (s.hold is None ==> t.next.rotation == 0)
        &&& !t.can_hold
        &&& t.x == 4
        &&& t.y == 0
        &&& t.game_over == collides(s.board.cells, shape(type_index(incoming), 0), 4, 0)
        &&& t.paused == s.paused
        &&& t.needs_redraw
    }
}

/// What pausing does: a game that is not over pauses or resumes.
pub open spec fn pause_step(s: TetrisState, t: TetrisState) -> bool {
    if s.game_over {
        t == s
    } else {
        t == TetrisState { paused: !s.paused, needs_redraw: true, ..s }
    }
}

/// A new game: empty board, fresh score, pieces at the top, not paused.
pub open spec fn fresh_game(t: TetrisState) -> bool {
    &&& t.board.cells == crate::board::empty_cells()
    &&& t.board.lines_to_clear.len() == 0
    &&& t.score == initial_score_state()
    &&& t.current.rotation == 0
    &&& t.next.rotation == 0
    &&& t.hold is None
    &&& t.can_hold
    &&& t.x == 4
    &&& t.y == 0
    &&& !t.paused
    &&& t.needs_redraw
    &&& t.game_over == collides(crate::board::empty_cells(), piece_shape(t.current, 0), 4, 0)
}

} // verus!
