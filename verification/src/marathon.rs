use vstd::prelude::*;
use crate::board::{clear_full_rows, cleared_cells, full_rows};
use crate::randomness::choose_one;
use crate::tetrimino::{TetriminoType, type_index};
use crate::action::Action;
use crate::keys::Key;
use crate::board::lemma_clearing_leaves_no_full_row;

verus! {

/// Columns of the playfield.
pub const GRID_SIZE: usize = 10;

/// Rows of the playfield.
pub const GRID_HEIGHT: usize = 18;

/// A falling piece: its kind, its square shape matrix (non-zero cells are
/// blocks), and the playfield row and column of the matrix's top-left cell.
pub struct Piece {
    pub kind: TetriminoType,
    pub matrix: Vec<Vec<u8>>,
    pub row: i32,
    pub col: i32,
}

/// A piece as a mathematical value.
pub struct PieceState {
    pub kind: TetriminoType,
    pub matrix: Seq<Seq<u8>>,
    pub row: int,
    pub col: int,
}

impl View for Piece {
    type V = PieceState;

    open spec fn view(&self) -> PieceState {
        PieceState {
            kind: self.kind,
            matrix: self.matrix@.map_values(|r: Vec<u8>| r@),
            row: self.row as int,
            col: self.col as int,
        }
    }
}

/// The shape matrix each kind starts with.
pub open spec fn spawn_matrix(kind: TetriminoType) -> Seq<Seq<u8>> {
    match kind {
        TetriminoType::I => seq![seq![0u8, 0, 0, 0], seq![1u8, 1, 1, 1], seq![0u8, 0, 0, 0], seq![0u8, 0, 0, 0]],
        TetriminoType::J => seq![seq![1u8, 0, 0], seq![1u8, 1, 1], seq![0u8, 0, 0]],
        TetriminoType::L => seq![seq![0u8, 0, 1], seq![1u8, 1, 1], seq![0u8, 0, 0]],
        TetriminoType::O => seq![seq![1u8, 1], seq![1u8, 1]],
        TetriminoType::S => seq![seq![0u8, 1, 1], seq![1u8, 1, 0], seq![0u8, 0, 0]],
        TetriminoType::Z => seq![seq![1u8, 1, 0], seq![0u8, 1, 1], seq![0u8, 0, 0]],
        TetriminoType::T => seq![seq![0u8, 1, 0], seq![1u8, 1, 1], seq![0u8, 0, 0]],
    }
}

/// A new piece of `kind`: its starting matrix, two rows above the top,
/// in column 3.
pub open spec fn spawned(kind: TetriminoType) -> PieceState {
    PieceState { kind: kind, matrix: spawn_matrix(kind), row: -2, col: 3 }
}

/// The matrix is square, two to four cells wide.
pub open spec fn square(m: Seq<Seq<u8>>) -> bool {
    &&& 2 <= m.len() <= 4
    &&& forall|i: int| 0 <= i < m.len() ==> (#[trigger] m[i]).len() == m.len()
}

/// Cell `(y, x)` of the matrix is a block.
pub open spec fn block(m: Seq<Seq<u8>>, y: int, x: int) -> bool {
    0 <= y < m.len() && 0 <= x < m.len() && m[y][x] != 0
}

/// The matrix turned a quarter clockwise.
pub open spec fn rotated(m: Seq<Seq<u8>>) -> Seq<Seq<u8>> {
    Seq::new(m.len(), |j: int| Seq::new(m.len(), |k: int| m[m.len() - 1 - k][j]))
}

/// The matrix placed at row `r`, column `c` lies within the side walls and
/// above the floor, and no block of it lands on a settled block.
pub open spec fn fits(pf: Seq<Option<u8>>, m: Seq<Seq<u8>>, r: int, c: int) -> bool {
    forall|y: int, x: int|
        #[trigger] block(m, y, x) ==> 0 <= c + x < 10 && r + y < 18 && (r + y >= 0 ==> pf[(r + y) * 10
            + c + x] is None)
}

/// The matrix placed at row `r`, column `c` lies within the side walls and
/// above the floor.
pub open spec fn inside(m: Seq<Seq<u8>>, r: int, c: int) -> bool {
    forall|y: int, x: int| #[trigger] block(m, y, x) ==> 0 <= c + x < 10 && r + y < 18
}

/// A block of the matrix placed at row `r` is above the top row.
pub open spec fn sticks_out(m: Seq<Seq<u8>>, r: int) -> bool {
    exists|y: int, x: int| #[trigger] block(m, y, x) && r + y < 0
}

/// The playfield with the blocks of the matrix placed at row `r`, column
/// `c` set to `k`.
pub open spec fn stamped(pf: Seq<Option<u8>>, m: Seq<Seq<u8>>, r: int, c: int, k: u8) -> Seq<
    Option<u8>,
> {
    Seq::new(
        180,
        |i: int|
            if block(m, i / 10 - r, i % 10 - c) {
                Some(k)
            } else {
                pf[i]
            },
    )
}

/// Points for clearing `n` rows at once, before the level factor.
pub open spec fn clear_points(n: int) -> int {
    if n == 1 {
        100
    } else if n == 2 {
        300
    } else if n == 3 {
        500
    } else if n == 4 {
        800
    } else {
        0
    }
}

/// Frames between two gravity steps at `level`: from 60 at level 1 down to
/// 0 from level 15 on.
pub open spec fn drop_delay(level: int) -> int {
    let i = if level <= 1 {
        0
    } else if level - 1 < 14 {
        level - 1
    } else {
        14
    };
    seq![60int, 48, 37, 28, 21, 16, 11, 8, 6, 4, 3, 2, 1, 1, 0][i]
}

/// The state of a marathon game.
pub struct MarathonState {
    pub playfield: Seq<Option<u8>>,
    pub active: PieceState,
    pub next: PieceState,
    pub tick_count: int,
    pub game_over: bool,
    pub stats: Seq<u32>,
    pub score: int,
    pub level: int,
    pub lines: int,
}

/// The playfield after the active piece settles, before full rows go.
pub open spec fn settled(st: MarathonState) -> Seq<Option<u8>> {
    stamped(
        st.playfield,
        st.active.matrix,
        st.active.row,
        st.active.col,
        type_index(st.active.kind) as u8,
    )
}

/// Rows that the settling piece completes.
pub open spec fn completed(st: MarathonState) -> int {
    full_rows(settled(st), 0).len() as int
}

/// The active piece settles. If a block of it is above the top row, the
/// game is over and nothing else changes. Otherwise its blocks join the
/// playfield, full rows are removed and scored (the level goes up every
/// ten rows), the next piece becomes active and is counted, and `next`
/// comes up.
pub open spec fn placed(st: MarathonState, next: PieceState) -> MarathonState {
    if sticks_out(st.active.matrix, st.active.row) {
        MarathonState { game_over: true, ..st }
    } else {
        let n = completed(st);
        let lines = st.lines + n;
        MarathonState {
            playfield: cleared_cells(settled(st)),
            active: st.next,
            next: next,
            stats: st.stats.update(
                type_index(st.next.kind),
                (st.stats[type_index(st.next.kind)] + 1) as u32,
            ),
            score: if n > 0 {
                st.score + clear_points(n) * st.level
            } else {
                st.score
            },
            lines: lines,
            level: if n > 0 {
                lines / 10 + 1
            } else {
                st.level
            },
            ..st
        }
    }
}

/// Settling the active piece stays within the counters' range.
pub open spec fn place_fits(st: MarathonState) -> bool {
    !sticks_out(st.active.matrix, st.active.row) ==> {
        &&& st.score + clear_points(completed(st)) * st.level <= u32::MAX
        &&& st.lines + completed(st) <= u32::MAX
        &&& st.stats[type_index(st.next.kind)] < u32::MAX
    }
}

pub proof fn lemma_spawn_matrix(kind: TetriminoType)
    ensures
        square(spawn_matrix(kind)),
        inside(spawn_matrix(kind), -2, 3),
        block(spawn_matrix(kind), 1, 1),
{
    let m = spawn_matrix(kind);
    assert(m.len() >= 2);
    assert(m[1][1] != 0);
    assert forall|y: int, x: int| #[trigger] block(m, y, x) implies 0 <= 3 + x < 10 && -2 + y < 18 by {
    }
}

/// The blocks of the matrix at row `r`, column `c` that come before
/// matrix cell `(y, x)` in row-major order set to `k`.
pub open spec fn stamped_upto(
    pf: Seq<Option<u8>>,
    m: Seq<Seq<u8>>,
    r: int,
    c: int,
    k: u8,
    y: int,
    x: int,
) -> Seq<Option<u8>> {
    Seq::new(
        180,
        |i: int|
            {
                let yy = i / 10 - r;
                let xx = i % 10 - c;
                if block(m, yy, xx) && (yy < y || (yy == y && xx < x)) {
                    Some(k)
                } else {
                    pf[i]
                }
            },
    )
}

fn spawn_matrix_of(kind: TetriminoType) -> (m: Vec<Vec<u8>>)
    ensures
        m@.map_values(|r: Vec<u8>| r@) == spawn_matrix(kind),
{
    let m: Vec<Vec<u8>> = match kind {
        TetriminoType::I => vec![vec![0u8, 0, 0, 0], vec![1u8, 1, 1, 1], vec![0u8, 0, 0, 0], vec![0u8, 0, 0, 0]],
        TetriminoType::J => vec![vec![1u8, 0, 0], vec![1u8, 1, 1], vec![0u8, 0, 0]],
        TetriminoType::L => vec![vec![0u8, 0, 1], vec![1u8, 1, 1], vec![0u8, 0, 0]],
        TetriminoType::O => vec![vec![1u8, 1], vec![1u8, 1]],
        TetriminoType::S => vec![vec![0u8, 1, 1], vec![1u8, 1, 0], vec![0u8, 0, 0]],
        TetriminoType::Z => vec![vec![1u8, 1, 0], vec![0u8, 1, 1], vec![0u8, 0, 0]],
        TetriminoType::T => vec![vec![0u8, 1, 0], vec![1u8, 1, 1], vec![0u8, 0, 0]],
    };
    proof {
        assert(m@.map_values(|r: Vec<u8>| r@) =~= spawn_matrix(kind));
    }
    m
}

/// A new piece of a kind drawn at random, at its starting place.
pub fn spawn_piece() -> (p: Piece)
    ensures
        p@ == spawned(p.kind),
{
    let kinds: [u8; 7] = [0, 6, 5, 1, 2, 4, 3];
    let i = choose_one(&kinds);
    proof {
        let j = choose|j: int| 0 <= j < 7 && kinds@[j] == i;
        assert(i < 7);
    }
    let kind = TetriminoType::from_index(i as usize);
    Piece { kind, matrix: spawn_matrix_of(kind), row: -2, col: 3 }
}

/// The matrix turned a quarter clockwise.
pub fn rotate(matrix: &Vec<Vec<u8>>) -> (r: Vec<Vec<u8>>)
    requires
        square(matrix@.map_values(|r: Vec<u8>| r@)),
    ensures
        r@.map_values(|r: Vec<u8>| r@) == rotated(matrix@.map_values(|r: Vec<u8>| r@)),
{
    let ghost m = matrix@.map_values(|r: Vec<u8>| r@);
    let n = matrix.len();
    let mut result: Vec<Vec<u8>> = Vec::new();
    let mut j: usize = 0;
    while j < n
        invariant
            n == m.len(),
            square(m),
            m == matrix@.map_values(|r: Vec<u8>| r@),
            j <= n,
            result@.len() == j,
            forall|jj: int| 0 <= jj < j ==> (#[trigger] result@[jj])@ == rotated(m)[jj],
        decreases n - j,
    {
        let mut line: Vec<u8> = Vec::new();
        let mut k: usize = 0;
        while k < n
            invariant
                n == m.len(),
                square(m),
                m == matrix@.map_values(|r: Vec<u8>| r@),
                j < n,
                k <= n,
                line@ == Seq::new(k as nat, |kk: int| m[n - 1 - kk][j as int]),
            decreases n - k,
        {
            proof {
                assert(matrix@[n - 1 - k]@ == m[n - 1 - k]);
                assert(m[n - 1 - k].len() == n);
            }
            line.push(matrix[n - 1 - k][j]);
            proof {
                assert(line@ =~= Seq::new((k + 1) as nat, |kk: int| m[n - 1 - kk][j as int]));
            }
            k = k + 1;
        }
        proof {
            assert(line@ =~= rotated(m)[j as int]);
        }
        result.push(line);
        j = j + 1;
    }
    proof {
        assert(result@.map_values(|r: Vec<u8>| r@) =~= rotated(m));
    }
    result
}

/// Turning keeps the matrix square and keeps a block in it.
proof fn lemma_fits_inside(pf: Seq<Option<u8>>, m: Seq<Seq<u8>>, r: int, c: int)
    requires
        fits(pf, m, r, c),
    ensures
        inside(m, r, c),
{
    assert forall|y: int, x: int| #[trigger] block(m, y, x) implies 0 <= c + x < 10 && r + y < 18 by {
    }
}

pub proof fn lemma_rotated(m: Seq<Seq<u8>>, y: int, x: int)
    requires
        square(m),
        block(m, y, x),
    ensures
        square(rotated(m)),
        block(rotated(m), x, m.len() - 1 - y),
{
    let r = rotated(m);
    assert forall|i: int| 0 <= i < r.len() implies (#[trigger] r[i]).len() == r.len() by {
    }
}

/// A marathon game of falling blocks: the playfield (kind index of each
/// settled block, row-major, row 0 on top), the falling and the next piece,
/// the frame counter of gravity, and the statistics of pieces dealt (by kind
/// index), the score, the level and the rows cleared.
pub struct ZeugtrisPage {
    playfield: Vec<Option<u8>>,
    active_piece: Piece,
    next_piece: Piece,
    tick_count: u32,
    game_over: bool,
    stats: Vec<u32>,
    score: u32,
    level: u32,
    lines: u32,
}

impl View for ZeugtrisPage {
    type V = MarathonState;

    closed spec fn view(&self) -> MarathonState {
        MarathonState {
            playfield: self.playfield@,
            active: self.active_piece@,
            next: self.next_piece@,
            tick_count: self.tick_count as int,
            game_over: self.game_over,
            stats: self.stats@,
            score: self.score as int,
            level: self.level as int,
            lines: self.lines as int,
        }
    }
}

/// The game's invariant over its state.
pub open spec fn marathon_wf(st: MarathonState) -> bool {
    &&& st.playfield.len() == 180
    &&& st.stats.len() == 7
    &&& square(st.active.matrix)
    &&& exists|y: int, x: int| #[trigger] block(st.active.matrix, y, x)
    &&& inside(st.active.matrix, st.active.row, st.active.col)
    &&& -2 <= st.active.row
    &&& st.next == spawned(st.next.kind)
    &&& 0 <= st.tick_count <= 60
    &&& 1 <= st.level <= u32::MAX
    &&& 0 <= st.score <= u32::MAX
    &&& 0 <= st.lines <= u32::MAX
}

/// The piece moved to row `r`, column `c`.
pub open spec fn moved(p: PieceState, r: int, c: int) -> PieceState {
    PieceState { row: r, col: c, ..p }
}

/// What a key does: while the game runs, the arrows move the piece left or
/// right, turn it (up) or drop it a row (down, one point) where it fits,
/// and Esc leaves; once it is over, only Esc does anything.
pub open spec fn after_key(st: MarathonState, key: Key) -> (MarathonState, Action) {
    let a = st.active;
    let pf = st.playfield;
    if st.game_over {
        (st, if key == Key::Esc { Action::Pop } else { Action::Nothing })
    } else {
        match key {
            Key::Left => (if fits(pf, a.matrix, a.row, a.col - 1) {
                MarathonState { active: moved(a, a.row, a.col - 1), ..st }
            } else {
                st
            }, Action::Redraw),
            Key::Right => (if fits(pf, a.matrix, a.row, a.col + 1) {
                MarathonState { active: moved(a, a.row, a.col + 1), ..st }
            } else {
                st
            }, Action::Redraw),
            Key::Up => (if fits(pf, rotated(a.matrix), a.row, a.col) {
                MarathonState { active: PieceState { matrix: rotated(a.matrix), ..a }, ..st }
            } else {
                st
            }, Action::Redraw),
            Key::Down => (if fits(pf, a.matrix, a.row + 1, a.col) {
                MarathonState { active: moved(a, a.row + 1, a.col), score: st.score + 1, ..st }
            } else {
                st
            }, Action::Redraw),
            Key::Esc => (st, Action::Pop),
            _ => (st, Action::Redraw),
        }
    }
}

/// A key stays within the score's range.
pub open spec fn key_fits(st: MarathonState, key: Key) -> bool {
    (!st.game_over && key == Key::Down && fits(st.playfield, st.active.matrix, st.active.row + 1, st.active.col))
        ==> st.score < u32::MAX
}

/// One frame goes by: every `drop_delay` frames the piece falls a row,
/// or settles where it cannot (the new next piece being `next`).
pub open spec fn after_tick(st: MarathonState, next: PieceState) -> (MarathonState, Action) {
    let a = st.active;
    if st.game_over {
        (st, Action::Nothing)
    } else if st.tick_count + 1 >= drop_delay(st.level) {
        if fits(st.playfield, a.matrix, a.row + 1, a.col) {
            (MarathonState { active: moved(a, a.row + 1, a.col), tick_count: 0, ..st }, Action::Redraw)
        } else {
            (placed(MarathonState { tick_count: 0, ..st }, next), Action::Redraw)
        }
    } else {
        (MarathonState { tick_count: st.tick_count + 1, ..st }, Action::Nothing)
    }
}

/// A frame stays within the counters' range.
pub open spec fn tick_fits(st: MarathonState) -> bool {
    (!st.game_over && st.tick_count + 1 >= drop_delay(st.level) && !fits(
        st.playfield,
        st.active.matrix,
        st.active.row + 1,
        st.active.col,
    )) ==> place_fits(st)
}

impl ZeugtrisPage {
    pub closed spec fn wf(&self) -> bool {
        &&& marathon_wf(self@)
        &&& self.active_piece.matrix@.len() == self@.active.matrix.len()
    }

    /// A new game: an empty playfield, two random pieces (the first one
    /// counted), level 1.
    pub fn new() -> (g: Self)
        ensures
            g.wf(),
            g@.playfield == Seq::new(180, |i: int| None::<u8>),
            g@.active == spawned(g@.active.kind),
            g@.next == spawned(g@.next.kind),
            g@.stats == Seq::new(7, |i: int| if i == type_index(g@.active.kind) { 1u32 } else { 0u32 }),
            g@.tick_count == 0,
            !g@.game_over,
            g@.score == 0,
            g@.level == 1,
            g@.lines == 0,
    {
        let first = spawn_piece();
        let next = spawn_piece();
        let mut stats: Vec<u32> = Vec::new();
        let mut i: usize = 0;
        while i < 7
            invariant
                i <= 7,
                stats@ == Seq::new(i as nat, |k: int| 0u32),
            decreases 7 - i,
        {
            stats.push(0);
            i = i + 1;
        }
        let k = first.kind.as_index();
        stats.set(k, 1);
        let mut playfield: Vec<Option<u8>> = Vec::new();
        let mut j: usize = 0;
        while j < 180
            invariant
                j <= 180,
                playfield@ == Seq::new(j as nat, |k: int| None::<u8>),
            decreases 180 - j,
        {
            playfield.push(None);
            j = j + 1;
        }
        let g = ZeugtrisPage {
            playfield,
            active_piece: first,
            next_piece: next,
            tick_count: 0,
            game_over: false,
            stats,
            score: 0,
            level: 1,
            lines: 0,
        };
        proof {
            lemma_spawn_matrix(g@.active.kind);
            assert(block(g@.active.matrix, 1, 1));
            assert(g@.stats =~= Seq::new(7, |i: int| if i == type_index(g@.active.kind) { 1u32 } else { 0u32 }));
            assert(g@.playfield =~= Seq::new(180, |i: int| None::<u8>));
        }
        g
    }

    /// The matrix fits at row `r`, column `c`.
    fn is_valid_move(&self, matrix: &Vec<Vec<u8>>, r: i32, c: i32) -> (b: bool)
        requires
            self@.playfield.len() == 180,
            square(matrix@.map_values(|v: Vec<u8>| v@)),
            -100 <= r <= 100,
            -100 <= c <= 100,
        ensures
            b == fits(self@.playfield, matrix@.map_values(|v: Vec<u8>| v@), r as int, c as int),
    {
        let ghost m = matrix@.map_values(|v: Vec<u8>| v@);
        let ghost pf = self@.playfield;
        let n = matrix.len();
        let mut y: usize = 0;
        while y < n
            invariant
                n == m.len(),
                square(m),
                m == matrix@.map_values(|v: Vec<u8>| v@),
                pf == self.playfield@,
                pf.len() == 180,
                -100 <= r <= 100,
                -100 <= c <= 100,
                y <= n,
                forall|yy: int, xx: int|
                    #[trigger] block(m, yy, xx) && yy < y ==> 0 <= c + xx < 10 && r + yy < 18 && (r + yy
                        >= 0 ==> pf[(r + yy) * 10 + c + xx] is None),
            decreases n - y,
        {
            let mut x: usize = 0;
            proof {
                assert(matrix@[y as int]@ == m[y as int]);
            }
            while x < n
                invariant
                    n == m.len(),
                    square(m),
                    m == matrix@.map_values(|v: Vec<u8>| v@),
                    pf == self.playfield@,
                    pf.len() == 180,
                    -100 <= r <= 100,
                    -100 <= c <= 100,
                    y < n,
                    x <= n,
                    forall|yy: int, xx: int|
                        #[trigger] block(m, yy, xx) && (yy < y || (yy == y && xx < x)) ==> 0 <= c + xx < 10 && r
                            + yy < 18 && (r + yy >= 0 ==> pf[(r + yy) * 10 + c + xx] is None),
                decreases n - x,
            {
                proof {
                    assert(matrix@[y as int]@ == m[y as int]);
                }
                if matrix[y][x] != 0 {
                    let nr = r + y as i32;
                    let nc = c + x as i32;
                    if nc < 0 || nc >= GRID_SIZE as i32 || nr >= GRID_HEIGHT as i32 {
                        proof {
                            assert(block(m, y as int, x as int));
                        }
                        return false;
                    }
                    if nr >= 0 && self.playfield[(nr * 10 + nc) as usize].is_some() {
                        proof {
                            assert(block(m, y as int, x as int));
                        }
                        return false;
                    }
                }
                x = x + 1;
            }
            y = y + 1;
        }
        true
    }

    /// A block of the falling piece is above the top row.
    fn piece_sticks_out(&self) -> (b: bool)
        requires
            self.wf(),
        ensures
            b == sticks_out(self@.active.matrix, self@.active.row),
    {
        let ghost m = self@.active.matrix;
        let matrix = &self.active_piece.matrix;
        let n = matrix.len();
        let mut y: usize = 0;
        while y < n
            invariant
                n == m.len(),
                square(m),
                m == matrix@.map_values(|v: Vec<u8>| v@),
                self.wf(),
                matrix == &self.active_piece.matrix,
                y <= n,
                forall|yy: int, xx: int| #[trigger] block(m, yy, xx) && yy < y ==> self@.active.row + yy >= 0,
            decreases n - y,
        {
            let mut x: usize = 0;
            while x < n
                invariant
                    n == m.len(),
                    square(m),
                    m == matrix@.map_values(|v: Vec<u8>| v@),
                    self.wf(),
                    matrix == &self.active_piece.matrix,
                    y < n,
                    x <= n,
                    forall|yy: int, xx: int|
                        #[trigger] block(m, yy, xx) && (yy < y || (yy == y && xx < x)) ==> self@.active.row + yy
                            >= 0,
                decreases n - x,
            {
                proof {
                    assert(matrix@[y as int]@ == m[y as int]);
                }
                if matrix[y][x] != 0 && self.active_piece.row + (y as i32) < 0 {
                    proof {
                        assert(block(m, y as int, x as int));
                    }
                    return true;
                }
                x = x + 1;
            }
            y = y + 1;
        }
        false
    }

    /// Sets the blocks of the falling piece into the playfield.
    fn stamp_piece(&mut self)
        requires
            old(self).wf(),
            !sticks_out(old(self)@.active.matrix, old(self)@.active.row),
        ensures
            final(self).wf(),
            final(self)@ == (MarathonState { playfield: settled(old(self)@), ..old(self)@ }),
    {
        proof {
            let (y0, x0) = choose|y: int, x: int| #[trigger] block(self@.active.matrix, y, x);
            assert(block(self@.active.matrix, y0, x0));
        }
        stamp(&mut self.playfield, &self.active_piece);
    }

    /// Removes the full rows and scores them: 100, 300, 500 or 800 points
    /// for one to four rows, times the level; the level goes up every ten
    /// rows.
    fn clear_lines(&mut self)
        requires
            old(self).wf(),
            old(self)@.score + clear_points(full_rows(old(self)@.playfield, 0).len() as int) * old(
                self,
            )@.level <= u32::MAX,
            old(self)@.lines + full_rows(old(self)@.playfield, 0).len() <= u32::MAX,
        ensures
            final(self).wf(),
            final(self)@ == ({
                let st = old(self)@;
                let n = full_rows(st.playfield, 0).len() as int;
                MarathonState {
                    playfield: cleared_cells(st.playfield),
                    score: if n > 0 {
                        st.score + clear_points(n) * st.level
                    } else {
                        st.score
                    },
                    lines: st.lines + n,
                    level: if n > 0 {
                        (st.lines + n) / 10 + 1
                    } else {
                        st.level
                    },
                    ..st
                }
            }),
    {
        proof {
            lemma_clearing_leaves_no_full_row(self@.playfield);
        }
        let (grid, full) = clear_full_rows(&self.playfield);
        let n = full.len();
        self.playfield = grid;
        if n > 0 {
            let base: u32 = if n == 1 {
                100
            } else if n == 2 {
                300
            } else if n == 3 {
                500
            } else if n == 4 {
                800
            } else {
                0
            };
            proof {
                assert(base as int * self.level as int == clear_points(n as int) * self.level);
            }
            self.score = self.score + base * self.level;
            self.lines = self.lines + n as u32;
            self.level = self.lines / 10 + 1;
        }
    }

    /// The falling piece settles: see `placed`.
    fn place_piece(&mut self)
        requires
            old(self).wf(),
            place_fits(old(self)@),
        ensures
            final(self).wf(),
            final(self)@ == placed(old(self)@, final(self)@.next),
            final(self)@.next == spawned(final(self)@.next.kind),
    {
        if self.piece_sticks_out() {
            self.game_over = true;
            return;
        }
        let ghost st = self@;
        self.stamp_piece();
        self.clear_lines();
        let mut incoming = spawn_piece();
        std::mem::swap(&mut self.next_piece, &mut incoming);
        self.active_piece = incoming;
        let k = self.active_piece.kind.as_index();
        let count = self.stats[k];
        self.stats.set(k, count + 1);
        proof {
            lemma_spawn_matrix(st.next.kind);
            assert(block(self@.active.matrix, 1, 1));
        }
    }

    /// Frames between two gravity steps at the current level.
    fn get_drop_delay(&self) -> (d: u32)
        requires
            self@.level >= 1,
        ensures
            d == drop_delay(self@.level),
    {
        let delays: [u32; 15] = [60, 48, 37, 28, 21, 16, 11, 8, 6, 4, 3, 2, 1, 1, 0];
        let lv = if self.level > 0 {
            self.level - 1
        } else {
            0
        };
        let idx: usize = if lv < 14 {
            lv as usize
        } else {
            14
        };
        proof {
            assert(delays@ == seq![60u32, 48, 37, 28, 21, 16, 11, 8, 6, 4, 3, 2, 1, 1, 0]);
        }
        delays[idx]
    }

    /// A key press; see `after_key`.
    pub fn update(&mut self, key: Key) -> (a: Action)
        requires
            old(self).wf(),
            key_fits(old(self)@, key),
        ensures
            final(self).wf(),
            (final(self)@, a) == after_key(old(self)@, key),
    {
        proof {
            let (y0, x0) = choose|y: int, x: int| #[trigger] block(self@.active.matrix, y, x);
            assert(block(self@.active.matrix, y0, x0));
        }
        if self.game_over {
            return if key == Key::Esc {
                Action::Pop
            } else {
                Action::Nothing
            };
        }
        match key {
            Key::Left => {
                if self.is_valid_move(&self.active_piece.matrix, self.active_piece.row, self.active_piece.col - 1) {
                    self.active_piece.col = self.active_piece.col - 1;
                    proof {
                        lemma_fits_inside(self@.playfield, self@.active.matrix, self@.active.row, self@.active.col);
                    }
                }
            },
            Key::Right => {
                if self.is_valid_move(&self.active_piece.matrix, self.active_piece.row, self.active_piece.col + 1) {
                    self.active_piece.col = self.active_piece.col + 1;
                    proof {
                        lemma_fits_inside(self@.playfield, self@.active.matrix, self@.active.row, self@.active.col);
                    }
                }
            },
            Key::Up => {
                let turned = rotate(&self.active_piece.matrix);
                let ghost m = self@.active.matrix;
                proof {
                    let (y0, x0) = choose|y: int, x: int| #[trigger] block(m, y, x);
                    lemma_rotated(m, y0, x0);
                    assert(block(rotated(m), x0, m.len() - 1 - y0));
                }
                if self.is_valid_move(&turned, self.active_piece.row, self.active_piece.col) {
                    self.active_piece.matrix = turned;
                    proof {
                        lemma_fits_inside(self@.playfield, rotated(m), self@.active.row, self@.active.col);
                    }
                }
            },
            Key::Down => {
                if self.is_valid_move(&self.active_piece.matrix, self.active_piece.row + 1, self.active_piece.col) {
                    self.active_piece.row = self.active_piece.row + 1;
                    self.score = self.score + 1;
                    proof {
                        lemma_fits_inside(self@.playfield, self@.active.matrix, self@.active.row, self@.active.col);
                    }
                }
            },
            Key::Esc => {
                return Action::Pop;
            },
            _ => {},
        }
        Action::Redraw
    }

    /// A frame goes by; see `after_tick`. The piece dealt when the falling
    /// one settles is drawn at random.
    pub fn tick(&mut self) -> (a: Action)
        requires
            old(self).wf(),
            tick_fits(old(self)@),
        ensures
            final(self).wf(),
            final(self)@.next == spawned(final(self)@.next.kind),
            (final(self)@, a) == after_tick(old(self)@, final(self)@.next),
    {
        if self.game_over {
            return Action::Nothing;
        }
        self.tick_count = self.tick_count + 1;
        let drop_delay = self.get_drop_delay();
        if self.tick_count >= drop_delay {
            self.tick_count = 0;
            proof {
                let (y0, x0) = choose|y: int, x: int| #[trigger] block(self@.active.matrix, y, x);
                assert(block(self@.active.matrix, y0, x0));
            }
            if self.is_valid_move(&self.active_piece.matrix, self.active_piece.row + 1, self.active_piece.col) {
                self.active_piece.row = self.active_piece.row + 1;
                proof {
                    lemma_fits_inside(self@.playfield, self@.active.matrix, self@.active.row, self@.active.col);
                }
                return Action::Redraw;
            } else {
                self.place_piece();
                return Action::Redraw;
            }
        }
        Action::Nothing
    }

    /// Tests `key_fits`.
    pub fn can_update(&self, key: Key) -> (b: bool)
        requires
            self.wf(),
        ensures
            b == key_fits(self@, key),
    {
        proof {
            let (y0, x0) = choose|y: int, x: int| #[trigger] block(self@.active.matrix, y, x);
            assert(block(self@.active.matrix, y0, x0));
        }
        if !self.game_over && key == Key::Down && self.is_valid_move(
            &self.active_piece.matrix,
            self.active_piece.row + 1,
            self.active_piece.col,
        ) {
            self.score < u32::MAX
        } else {
            true
        }
    }

    /// Tests `tick_fits`.
    pub fn can_tick(&self) -> (b: bool)
        requires
            self.wf(),
        ensures
            b == tick_fits(self@),
    {
        proof {
            let (y0, x0) = choose|y: int, x: int| #[trigger] block(self@.active.matrix, y, x);
            assert(block(self@.active.matrix, y0, x0));
        }
        if self.game_over {
            return true;
        }
        let delay = self.get_drop_delay();
        if (self.tick_count as u64) + 1 < delay as u64 {
            return true;
        }
        if self.is_valid_move(&self.active_piece.matrix, self.active_piece.row + 1, self.active_piece.col) {
            return true;
        }
        if self.piece_sticks_out() {
            return true;
        }
        let mut grid = self.playfield.clone();
        proof {
            assert(grid@ =~= self.playfield@);
        }
        stamp(&mut grid, &self.active_piece);
        proof {
            lemma_clearing_leaves_no_full_row(grid@);
        }
        let (_cleared, full) = clear_full_rows(&grid);
        let n = full.len() as u64;
        let base: u64 = if n == 1 {
            100
        } else if n == 2 {
            300
        } else if n == 3 {
            500
        } else if n == 4 {
            800
        } else {
            0
        };
        let k = self.next_piece.kind.as_index();
        self.score as u64 + base * (self.level as u64) <= u32::MAX as u64 && self.lines as u64 + n
            <= u32::MAX as u64 && self.stats[k] < u32::MAX
    }

    /// The settled blocks, row-major (kind index of each block).
    pub fn playfield(&self) -> (pf: &Vec<Option<u8>>)
        ensures
            pf@ == self@.playfield,
    {
        &self.playfield
    }

    /// The falling piece.
    pub fn active_piece(&self) -> (p: &Piece)
        ensures
            p@ == self@.active,
    {
        &self.active_piece
    }

    /// The piece that comes next.
    pub fn next_piece(&self) -> (p: &Piece)
        ensures
            p@ == self@.next,
    {
        &self.next_piece
    }

    /// Pieces dealt so far, by kind index.
    pub fn stats(&self) -> (s: &Vec<u32>)
        ensures
            s@ == self@.stats,
    {
        &self.stats
    }

    pub fn score(&self) -> (n: u32)
        ensures
            n == self@.score,
    {
        self.score
    }

    pub fn level(&self) -> (n: u32)
        ensures
            n == self@.level,
    {
        self.level
    }

    pub fn lines(&self) -> (n: u32)
        ensures
            n == self@.lines,
    {
        self.lines
    }

    pub fn is_game_over(&self) -> (b: bool)
        ensures
            b == self@.game_over,
    {
        self.game_over
    }
}

/// A move to the left that happened is undone by a move to the right.
pub proof fn lemma_left_then_right(st: MarathonState)
    requires
        marathon_wf(st),
        !st.game_over,
        fits(st.playfield, st.active.matrix, st.active.row, st.active.col),
        fits(st.playfield, st.active.matrix, st.active.row, st.active.col - 1),
    ensures
        after_key(after_key(st, Key::Left).0, Key::Right).0 == st,
{
}

/// Keys never lower the score.
pub proof fn lemma_keys_keep_score(st: MarathonState, key: Key)
    ensures
        after_key(st, key).0.score >= st.score,
        after_key(st, key).0.playfield == st.playfield,
{
}

/// After a piece settles, no row of the playfield is full, and the score
/// has not gone down.
pub proof fn lemma_settling_leaves_no_full_row(st: MarathonState, next: PieceState)
    requires
        marathon_wf(st),
        !sticks_out(st.active.matrix, st.active.row),
    ensures
        forall|r: int| 0 <= r < 18 ==> !crate::board::row_full(#[trigger] placed(st, next).playfield, r),
        placed(st, next).score >= st.score,
{
    let g = settled(st);
    lemma_clearing_leaves_no_full_row(g);
    assert(g.len() == 180);
    assert(st.level >= 1);
    let n = completed(st);
    assert(clear_points(n) >= 0);
    assert(clear_points(n) * st.level >= 0) by (nonlinear_arith)
        requires
            clear_points(n) >= 0,
            st.level >= 1,
    ;
}

/// A settling piece that completes `n` rows at level `L` scores 100, 300,
/// 500 or 800 times `L` for `n` = 1, 2, 3, 4 (nothing when it completes
/// none); the rows are counted and the level is one more than the tens of
/// rows cleared so far.
pub proof fn lemma_clearing_scores(st: MarathonState, next: PieceState)
    requires
        !sticks_out(st.active.matrix, st.active.row),
    ensures
        ({
            let n = completed(st);
            let t = placed(st, next);
            &&& n == 0 ==> t.score == st.score && t.lines == st.lines && t.level == st.level
            &&& n == 1 ==> t.score == st.score + 100 * st.level
            &&& n == 2 ==> t.score == st.score + 300 * st.level
            &&& n == 3 ==> t.score == st.score + 500 * st.level
            &&& n == 4 ==> t.score == st.score + 800 * st.level
            &&& n > 0 ==> t.lines == st.lines + n && t.level == (st.lines + n) / 10 + 1
        }),
{
}

/// Gravity speeds up with the level: 60 frames between steps at level 1,
/// never more at a higher level, and none from level 15 on.
pub proof fn lemma_drop_delay_shrinks(l1: int, l2: int)
    requires
        l1 <= l2,
    ensures
        drop_delay(1) == 60,
        drop_delay(l2) <= drop_delay(l1),
        l2 >= 15 ==> drop_delay(l2) == 0,
        0 <= drop_delay(l1) <= 60,
{
    let t = seq![60int, 48, 37, 28, 21, 16, 11, 8, 6, 4, 3, 2, 1, 1, 0];
    assert(forall|i: int, j: int| 0 <= i <= j < 15 ==> #[trigger] t[j] <= #[trigger] t[i]);
    assert(forall|i: int| 0 <= i < 15 ==> 0 <= #[trigger] t[i] <= 60);
}

/// Sets the blocks of piece `p` into the playfield `grid`, marked with
/// the kind's index.
fn stamp(grid: &mut Vec<Option<u8>>, p: &Piece)
requires
    old(grid)@.len() == 180,
    square(p@.matrix),
    exists|y: int, x: int| #[trigger] block(p@.matrix, y, x),
    inside(p@.matrix, p@.row, p@.col),
    -2 <= p@.row,
    !sticks_out(p@.matrix, p@.row),
ensures
    final(grid)@ == stamped(old(grid)@, p@.matrix, p@.row, p@.col, type_index(p.kind) as u8),
{
    let ghost pf0 = grid@;
    let ghost m = p@.matrix;
    let ghost r = p@.row;
    let ghost c = p@.col;
    let k = p.kind.as_index() as u8;
    let n = p.matrix.len();
    let row = p.row;
    let col = p.col;
    proof {
        assert(grid@ =~= stamped_upto(pf0, m, r, c, k, 0, 0));
        let (y0, x0) = choose|y: int, x: int| #[trigger] block(m, y, x);
        assert(block(m, y0, x0));
    }
    let mut y: usize = 0;
    while y < n
        invariant
            n == m.len(),
            square(m),
            m == p.matrix@.map_values(|v: Vec<u8>| v@),
            p@.matrix == m,
            r == row,
            c == col,
            -3 <= col <= 9,
            -2 <= row <= 17,
            k == type_index(p.kind),
            inside(m, r, c),
            !sticks_out(m, r),
            grid@.len() == 180,
            y <= n,
            grid@ == stamped_upto(pf0, m, r, c, k, y as int, 0),
        decreases n - y,
    {
        let mut x: usize = 0;
        while x < n
            invariant
                n == m.len(),
                square(m),
                m == p.matrix@.map_values(|v: Vec<u8>| v@),
                p@.matrix == m,
                r == row,
                c == col,
                -3 <= col <= 9,
                -2 <= row <= 17,
                inside(m, r, c),
                !sticks_out(m, r),
                grid@.len() == 180,
                    y < n,
                x <= n,
                grid@ == stamped_upto(pf0, m, r, c, k, y as int, x as int),
            decreases n - x,
        {
            proof {
                assert(p.matrix@[y as int]@ == m[y as int]);
            }
            if p.matrix[y][x] != 0 {
                proof {
                    assert(block(m, y as int, x as int));
                }
                let ar = row + y as i32;
                let ac = col + x as i32;
                let idx = (ar * 10 + ac) as usize;
                let ghost before = grid@;
                grid.set(idx, Some(k));
                proof {
                    assert forall|i: int| 0 <= i < 180 implies grid@[i] == stamped_upto(
                        pf0,
                        m,
                        r,
                        c,
                        k,
                        y as int,
                        x + 1,
                    )[i] by {
                        let yy = i / 10 - r;
                        let xx = i % 10 - c;
                        if i == idx {
                            assert(yy == y && xx == x);
                        } else {
                            assert(!(yy == y && xx == x));
                        }
                    }
                    assert(grid@ =~= stamped_upto(pf0, m, r, c, k, y as int, x + 1));
                }
            } else {
                proof {
                    assert(grid@ =~= stamped_upto(pf0, m, r, c, k, y as int, x + 1));
                }
            }
            x = x + 1;
        }
        proof {
            assert(grid@ =~= stamped_upto(pf0, m, r, c, k, y + 1, 0));
        }
        y = y + 1;
    }
    proof {
        assert(grid@ =~= stamped(pf0, m, r, c, k));
    }
}

} // verus!
