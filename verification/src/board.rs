use vstd::prelude::*;
use crate::tetrimino::{Tetrimino, shape, type_index};

verus! {

pub const ARENA_WIDTH: usize = 10;
pub const ARENA_HEIGHT: usize = 18;

/// The mathematical state of a playfield: `cells[y * 10 + x]` is the colour
/// of the settled block at column `x`, row `y` (row 0 on top), if any; and
/// the rows removed by the last lock, bottom row first.
pub struct BoardState {
    pub cells: Seq<Option<u8>>,
    pub lines_to_clear: Seq<usize>,
}

/// The settled blocks of a playfield, with the rows cleared by the last lock.
pub struct Board {
    grid: Vec<Option<u8>>,
    lines_to_clear: Vec<usize>,
}

impl View for Board {
    type V = BoardState;

    closed spec fn view(&self) -> BoardState {
        BoardState { cells: self.grid@, lines_to_clear: self.lines_to_clear@ }
    }
}

/// An empty playfield.
pub open spec fn empty_cells() -> Seq<Option<u8>> {
    Seq::new(180, |i: int| None::<u8>)
}

/// Row `r` of a playfield.
pub open spec fn row(g: Seq<Option<u8>>, r: int) -> Seq<Option<u8>> {
    g.subrange(r * 10, r * 10 + 10)
}

/// Every cell of row `r` holds a block.
pub open spec fn row_full(g: Seq<Option<u8>>, r: int) -> bool {
    forall|x: int| 0 <= x < 10 ==> (#[trigger] g[r * 10 + x]) is Some
}

/// Some cell of the row is empty.
pub open spec fn has_hole(s: Seq<Option<u8>>) -> bool {
    exists|x: int| 0 <= x < 10 && (#[trigger] s[x]) is None
}

/// The rows of `r..18` that are not full, top to bottom.
pub open spec fn kept_rows(g: Seq<Option<u8>>, r: int) -> Seq<Seq<Option<u8>>>
    decreases 18 - r,
{
    if r >= 18 || r < 0 {
        Seq::empty()
    } else if row_full(g, r) {
        kept_rows(g, r + 1)
    } else {
        seq![row(g, r)] + kept_rows(g, r + 1)
    }
}

/// The full rows of `r..18`, bottom to top.
pub open spec fn full_rows(g: Seq<Option<u8>>, r: int) -> Seq<usize>
    decreases 18 - r,
{
    if r >= 18 || r < 0 {
        Seq::empty()
    } else if row_full(g, r) {
        full_rows(g, r + 1).push(r as usize)
    } else {
        full_rows(g, r + 1)
    }
}

/// The playfield after removing its full rows: the remaining rows keep their
/// order and sink to the bottom, empty rows fill the top.
pub open spec fn cleared_cells(g: Seq<Option<u8>>) -> Seq<Option<u8>> {
    let kept = kept_rows(g, 0);
    let top = 18 - kept.len();
    Seq::new(
        180,
        |i: int|
            if i / 10 < top {
                None
            } else {
                kept[i / 10 - top][i % 10]
            },
    )
}

/// A cell is empty or holds one of the seven piece colours, 1 to 7.
pub open spec fn cell_in_range(c: Option<u8>) -> bool {
    c matches Some(k) ==> 1 <= k <= 7
}

/// Every cell is empty or holds a piece colour.
pub open spec fn cells_in_range(g: Seq<Option<u8>>) -> bool {
    forall|i: int| 0 <= i < g.len() ==> cell_in_range(#[trigger] g[i])
}

/// Cell `(px, py)` of the shape, placed with its top-left corner at
/// `(x, y)`, is filled and lies outside the walls or floor, or on a block.
pub open spec fn blocked(g: Seq<Option<u8>>, m: Seq<u8>, x: int, y: int, px: int, py: int) -> bool {
    let ax = x + px;
    let ay = y + py;
    &&& m[py * 4 + px] != 0
    &&& (ax < 0 || ax >= 10 || ay >= 18 || (ay >= 0 && g[ay * 10 + ax] is Some))
}

/// The shape placed at `(x, y)` overlaps a wall, the floor or a block.
/// Cells above the top row do not collide.
pub open spec fn collides(g: Seq<Option<u8>>, m: Seq<u8>, x: int, y: int) -> bool {
    exists|px: int, py: int| 0 <= px < 4 && 0 <= py < 4 && #[trigger] blocked(g, m, x, y, px, py)
}

/// The colour that cell `(cx, cy)` takes when the shape is stamped at `(x, y)`.
pub open spec fn stamped_cell(
    g: Seq<Option<u8>>,
    m: Seq<u8>,
    x: int,
    y: int,
    color: u8,
    cx: int,
    cy: int,
) -> Option<u8> {
    if 0 <= cx - x < 4 && 0 <= cy - y < 4 && m[(cy - y) * 4 + (cx - x)] != 0 {
        Some(color)
    } else {
        g[cy * 10 + cx]
    }
}

/// The playfield with the shape's cells that fall inside it set to `color`.
pub open spec fn stamped(g: Seq<Option<u8>>, m: Seq<u8>, x: int, y: int, color: u8) -> Seq<Option<u8>> {
    Seq::new(180, |i: int| stamped_cell(g, m, x, y, color, i % 10, i / 10))
}

proof fn lemma_kept_rows_shape(g: Seq<Option<u8>>, r: int)
    requires
        0 <= r <= 18,
        g.len() == 180,
    ensures
        kept_rows(g, r).len() + full_rows(g, r).len() == 18 - r,
        forall|k: int| 0 <= k < kept_rows(g, r).len() ==> (#[trigger] kept_rows(g, r)[k]).len() == 10,
        forall|k: int| 0 <= k < kept_rows(g, r).len() ==> has_hole(#[trigger] kept_rows(g, r)[k]),
    decreases 18 - r,
{
    if r < 18 {
        lemma_kept_rows_shape(g, r + 1);
        if !row_full(g, r) {
            let k0 = kept_rows(g, r);
            let rest = kept_rows(g, r + 1);
            assert forall|k: int| 0 <= k < k0.len() implies has_hole(#[trigger] k0[k]) by {
                if k == 0 {
                    let x = choose|x: int| 0 <= x < 10 && !((#[trigger] g[r * 10 + x]) is Some);
                    assert(k0[0][x] == g[r * 10 + x]);
                    assert(k0[0][x] is None);
                } else {
                    assert(k0[k] == rest[k - 1]);
                }
            }
            assert forall|k: int| 0 <= k < k0.len() implies (#[trigger] k0[k]).len() == 10 by {
                if k > 0 {
                    assert(k0[k] == rest[k - 1]);
                }
            }
        }
    }
}

proof fn lemma_kept_rows_in_range(g: Seq<Option<u8>>, r: int)
    requires
        0 <= r <= 18,
        g.len() == 180,
        cells_in_range(g),
    ensures
        forall|k: int, x: int|
            0 <= k < kept_rows(g, r).len() && 0 <= x < 10 ==> cell_in_range(#[trigger] kept_rows(g, r)[k][x]),
    decreases 18 - r,
{
    if r < 18 {
        lemma_kept_rows_in_range(g, r + 1);
        let k0 = kept_rows(g, r);
        let rest = kept_rows(g, r + 1);
        if !row_full(g, r) {
            assert forall|k: int, x: int| 0 <= k < k0.len() && 0 <= x < 10 implies cell_in_range(
                #[trigger] k0[k][x],
            ) by {
                if k == 0 {
                    assert(k0[0][x] == g[r * 10 + x]);
                } else {
                    assert(k0[k] == rest[k - 1]);
                }
            }
        }
    }
}

/// Removing the full rows brings in no new colour.
proof fn lemma_cleared_in_range(g: Seq<Option<u8>>)
    requires
        g.len() == 180,
        cells_in_range(g),
    ensures
        cells_in_range(cleared_cells(g)),
{
    lemma_kept_rows_in_range(g, 0);
    lemma_kept_rows_shape(g, 0);
    let kept = kept_rows(g, 0);
    let top = 18 - kept.len();
    let cc = cleared_cells(g);
    assert forall|i: int| 0 <= i < cc.len() implies cell_in_range(#[trigger] cc[i]) by {
        if i / 10 >= top {
            assert(cell_in_range(kept[i / 10 - top][i % 10]));
        }
    }
}

impl Board {
    /// The invariant of a playfield: 18 rows of 10 cells, each empty or
    /// holding a piece colour 1 to 7.
    pub closed spec fn wf(&self) -> bool {
        &&& self.grid@.len() == 180
        &&& cells_in_range(self.grid@)
    }

    pub proof fn lemma_wf(&self)
        ensures
            self.wf() <==> (self@.cells.len() == 180 && cells_in_range(self@.cells)),
    {
    }

    /// An empty playfield with no cleared rows.
    pub fn new() -> (b: Self)
        ensures
            b.wf(),
            b@.cells == empty_cells(),
            b@.lines_to_clear == Seq::<usize>::empty(),
    {
        let mut grid: Vec<Option<u8>> = Vec::new();
        let mut i: usize = 0;
        while i < 180
            invariant
                i <= 180,
                grid@ == Seq::new(i as nat, |k: int| None::<u8>),
            decreases 180 - i,
        {
            grid.push(None);
            i = i + 1;
        }
        Self { grid, lines_to_clear: Vec::new() }
    }

    /// Empties the playfield and forgets the cleared rows.
    pub fn clear(&mut self)
        ensures
            final(self).wf(),
            final(self)@.cells == empty_cells(),
            final(self)@.lines_to_clear == Seq::<usize>::empty(),
            final(self)@ == board_step(old(self)@, BoardCall::Clear),
    {
        *self = Self::new();
    }

    /// Whether the piece, in the given rotation (its own when `None`), with
    /// its 4x4 box at column `x`, row `y`, overlaps a wall, the floor or a
    /// settled block.
    pub fn check_collision(&self, tetrimino: &Tetrimino, x: i32, y: i32, rotation: Option<usize>) -> (r: bool)
        requires
            self.wf(),
            (match rotation {
                Some(rot) => rot < 4,
                None => tetrimino.rotation < 4,
            }),
        ensures
            r == collides(
                self@.cells,
                shape(
                    type_index(tetrimino.tetrimino_type),
                    match rotation {
                        Some(rot) => rot as int,
                        None => tetrimino.rotation as int,
                    },
                ),
                x as int,
                y as int,
            ),
    {
        let matrix = tetrimino.get_matrix(rotation);
        let ghost m = matrix@;
        let ghost g = self.grid@;
        let mut py: usize = 0;
        while py < 4
            invariant
                py <= 4,
                g == self.grid@,
                g.len() == 180,
                m == matrix@,
                m == shape(
                    type_index(tetrimino.tetrimino_type),
                    match rotation {
                        Some(rot) => rot as int,
                        None => tetrimino.rotation as int,
                    },
                ),
                m.len() == 16,
                forall|qx: int, qy: int|
                    0 <= qx < 4 && 0 <= qy < py ==> !#[trigger] blocked(g, m, x as int, y as int, qx, qy),
            decreases 4 - py,
        {
            let mut px: usize = 0;
            while px < 4
                invariant
                    py < 4,
                    px <= 4,
                    g == self.grid@,
                    g.len() == 180,
                    m == matrix@,
                    m == shape(
                    type_index(tetrimino.tetrimino_type),
                    match rotation {
                        Some(rot) => rot as int,
                        None => tetrimino.rotation as int,
                    },
                ),
                    m.len() == 16,
                    forall|qx: int, qy: int|
                        0 <= qx < 4 && 0 <= qy < py ==> !#[trigger] blocked(g, m, x as int, y as int, qx, qy),
                    forall|qx: int| 0 <= qx < px ==> !#[trigger] blocked(g, m, x as int, y as int, qx, py as int),
                decreases 4 - px,
            {
                let index = py * 4 + px;
                if matrix[index] != 0 {
                    let arena_x = x as i64 + px as i64;
                    let arena_y = y as i64 + py as i64;
                    if arena_x < 0 || arena_x >= 10 || arena_y >= 18 {
                        assert(blocked(g, m, x as int, y as int, px as int, py as int));
                        assert(collides(g, m, x as int, y as int));
                        return true;
                    }
                    if arena_y >= 0 && self.grid[(arena_y as usize) * 10 + arena_x as usize].is_some() {
                        assert(blocked(g, m, x as int, y as int, px as int, py as int));
                        assert(collides(g, m, x as int, y as int));
                        return true;
                    }
                }
                px = px + 1;
            }
            py = py + 1;
        }
        false
    }

    /// Settles the piece (in its own rotation) with its 4x4 box at column
    /// `x`, row `y`: its cells inside the playfield take the colour
    /// `type index + 1`; then full rows are removed. Returns how many.
    pub fn lock_tetrimino(&mut self, tetrimino: &Tetrimino, x: i32, y: i32) -> (n: usize)
        requires
            old(self).wf(),
            tetrimino.rotation < 4,
        ensures
            final(self).wf(),
            ({
                let p = stamped(
                    old(self)@.cells,
                    tetrimino.cells(),
                    x as int,
                    y as int,
                    (type_index(tetrimino.tetrimino_type) + 1) as u8,
                );
                &&& final(self)@.cells == cleared_cells(p)
                &&& final(self)@.lines_to_clear == full_rows(p, 0)
                &&& n == full_rows(p, 0).len()
            }),
            final(self)@ == board_step(old(self)@, BoardCall::Lock(*tetrimino, x, y)),
            n == rows_removed(old(self)@, BoardCall::Lock(*tetrimino, x, y)),
    {
        let color_index = tetrimino.tetrimino_type.as_index() as u8 + 1;
        let matrix = tetrimino.matrix();
        let ghost m = matrix@;
        let ghost g0 = self.grid@;
        let mut py: usize = 0;
        while py < 4
            invariant
                py <= 4,
                self.grid@.len() == 180,
                g0.len() == 180,
                m == matrix@,
                m.len() == 16,
                forall|cx: int, cy: int|
                    #![trigger self.grid@[cy * 10 + cx]]
                    0 <= cx < 10 && 0 <= cy < 18 ==> self.grid@[cy * 10 + cx] == (if 0 <= cy - y < py
                        && 0 <= cx - x < 4 && m[(cy - y) * 4 + (cx - x)] != 0 {
                        Some(color_index)
                    } else {
                        g0[cy * 10 + cx]
                    }),
            decreases 4 - py,
        {
            let mut px: usize = 0;
            while px < 4
                invariant
                    py < 4,
                    px <= 4,
                    self.grid@.len() == 180,
                    g0.len() == 180,
                    m == matrix@,
                    m.len() == 16,
                    forall|cx: int, cy: int|
                        #![trigger self.grid@[cy * 10 + cx]]
                        0 <= cx < 10 && 0 <= cy < 18 ==> self.grid@[cy * 10 + cx] == (if ((0 <= cy - y
                            < py && 0 <= cx - x < 4) || (cy - y == py && 0 <= cx - x < px)) && m[(cy - y)
                            * 4 + (cx - x)] != 0 {
                            Some(color_index)
                        } else {
                            g0[cy * 10 + cx]
                        }),
                decreases 4 - px,
            {
                let index = py * 4 + px;
                if matrix[index] != 0 {
                    let ax = x as i64 + px as i64;
                    let ay = y as i64 + py as i64;
                    if 0 <= ax && ax < 10 && 0 <= ay && ay < 18 {
                        let k = (ay as usize) * 10 + ax as usize;
                        self.grid.set(k, Some(color_index));
                    }
                }
                px = px + 1;
            }
            py = py + 1;
        }
        proof {
            let p = stamped(g0, m, x as int, y as int, color_index);
            assert forall|i: int| 0 <= i < 180 implies self.grid@[i] == p[i] by {
                let cx = i % 10;
                let cy = i / 10;
                assert(i == cy * 10 + cx);
            }
            assert(self.grid@ =~= p);
            assert(0 <= type_index(tetrimino.tetrimino_type) < 7);
            assert(cells_in_range(self.grid@));
        }
        self.check_lines()
    }

    /// Removes the full rows: the others keep their order and sink to the
    /// bottom. Records the removed rows, bottom first, and returns how many.
    fn check_lines(&mut self) -> (n: usize)
        requires
            old(self).wf(),
        ensures
            final(self).wf(),
            final(self)@.cells == cleared_cells(old(self)@.cells),
            final(self)@.lines_to_clear == full_rows(old(self)@.cells, 0),
            n == full_rows(old(self)@.cells, 0).len(),
    {
        let (grid, full) = clear_full_rows(&self.grid);
        proof {
            lemma_cleared_in_range(self.grid@);
        }
        let n = full.len();
        self.grid = grid;
        self.lines_to_clear = full;
        n
    }

    /// The colour at column `x`, row `y`; `None` for an empty cell or a
    /// position outside the playfield.
    pub fn get_cell(&self, x: usize, y: usize) -> (c: Option<u8>)
        requires
            self.wf(),
        ensures
            c == (if x < 10 && y < 18 {
                self@.cells[y * 10 + x]
            } else {
                None
            }),
            cell_in_range(c),
    {
        if x < ARENA_WIDTH && y < ARENA_HEIGHT {
            self.grid[y * ARENA_WIDTH + x]
        } else {
            None
        }
    }

    pub fn width(&self) -> (w: usize)
        ensures
            w == 10,
    {
        ARENA_WIDTH
    }

    pub fn height(&self) -> (h: usize)
        ensures
            h == 18,
    {
        ARENA_HEIGHT
    }

    /// The rows removed by the last lock, bottom row first.
    pub fn lines_to_clear(&self) -> (v: &Vec<usize>)
        ensures
            v@ == self@.lines_to_clear,
    {
        &self.lines_to_clear
    }

    /// Whether the last lock removed any row.
    pub fn is_line_clearing(&self) -> (b: bool)
        ensures
            b == (self@.lines_to_clear.len() > 0),
    {
        self.lines_to_clear.len() > 0
    }
}

/// After the full rows are removed no row is full, and the removed rows and
/// the kept rows together account for all eighteen rows.
pub proof fn lemma_clearing_leaves_no_full_row(g: Seq<Option<u8>>)
    requires
        g.len() == 180,
    ensures
        forall|r: int| 0 <= r < 18 ==> !row_full(cleared_cells(g), r),
        kept_rows(g, 0).len() + full_rows(g, 0).len() == 18,
{
    lemma_kept_rows_shape(g, 0);
    let kept = kept_rows(g, 0);
    let top = 18 - kept.len();
    let cc = cleared_cells(g);
    assert forall|r: int| 0 <= r < 18 implies !row_full(cc, r) by {
        if r < top {
            assert(cc[r * 10 + 0] is None);
        } else {
            assert(has_hole(kept[r - top]));
            let x = choose|x: int| 0 <= x < 10 && (#[trigger] kept[r - top][x]) is None;
            assert(cc[r * 10 + x] == kept[r - top][x]);
        }
    }
}

/// Removing full rows from a playfield without full rows changes nothing.
pub proof fn lemma_clearing_is_idempotent(g: Seq<Option<u8>>)
    requires
        g.len() == 180,
    ensures
        cleared_cells(cleared_cells(g)) == cleared_cells(g),
        full_rows(cleared_cells(g), 0).len() == 0,
{
    lemma_clearing_leaves_no_full_row(g);
    let c = cleared_cells(g);
    lemma_no_full_rows_keeps_all(c, 0);
    assert forall|i: int| 0 <= i < 180 implies cleared_cells(c)[i] == c[i] by {
        let rr = i / 10;
        let cx = i % 10;
        assert(kept_rows(c, 0)[rr] == row(c, rr));
        assert(c[i] == row(c, rr)[cx]);
    }
    assert(cleared_cells(c) =~= c);
}

/// A call that changes a playfield: `clear`, or `lock_tetrimino` with a
/// piece and the column and row of its box.
pub enum BoardCall {
    Clear,
    Lock(Tetrimino, i32, i32),
}

/// The cells with piece `t` settled at `(x, y)`, before full rows go.
pub open spec fn settled_piece(g: Seq<Option<u8>>, t: Tetrimino, x: int, y: int) -> Seq<Option<u8>> {
    stamped(g, t.cells(), x, y, (type_index(t.tetrimino_type) + 1) as u8)
}

/// The playfield after one call.
pub open spec fn board_step(b: BoardState, call: BoardCall) -> BoardState {
    match call {
        BoardCall::Clear => BoardState { cells: empty_cells(), lines_to_clear: Seq::empty() },
        BoardCall::Lock(t, x, y) => {
            let p = settled_piece(b.cells, t, x as int, y as int);
            BoardState { cells: cleared_cells(p), lines_to_clear: full_rows(p, 0) }
        },
    }
}

/// What a lock returns: how many rows it removed; 0 for `clear`.
pub open spec fn rows_removed(b: BoardState, call: BoardCall) -> nat {
    match call {
        BoardCall::Clear => 0,
        BoardCall::Lock(t, x, y) => full_rows(settled_piece(b.cells, t, x as int, y as int), 0).len(),
    }
}

/// The playfield after the calls, in order.
pub open spec fn board_run(b: BoardState, calls: Seq<BoardCall>) -> BoardState
    decreases calls.len(),
{
    if calls.len() == 0 {
        b
    } else {
        board_step(board_run(b, calls.drop_last()), calls.last())
    }
}

proof fn lemma_settled_in_range(g: Seq<Option<u8>>, t: Tetrimino, x: int, y: int)
    requires
        g.len() == 180,
        cells_in_range(g),
    ensures
        settled_piece(g, t, x, y).len() == 180,
        cells_in_range(settled_piece(g, t, x, y)),
{
    let p = settled_piece(g, t, x, y);
    assert forall|i: int| 0 <= i < p.len() implies cell_in_range(#[trigger] p[i]) by {
        assert((i / 10) * 10 + i % 10 == i);
    }
}

/// Whatever calls of `clear` and `lock_tetrimino` follow, from a playfield
/// such as `new` gives, every cell stays empty or holds a piece colour 1 to 7.
pub proof fn lemma_reachable_cells_in_range(b: BoardState, calls: Seq<BoardCall>)
    requires
        b.cells.len() == 180,
        cells_in_range(b.cells),
    ensures
        board_run(b, calls).cells.len() == 180,
        cells_in_range(board_run(b, calls).cells),
    decreases calls.len(),
{
    if calls.len() > 0 {
        lemma_reachable_cells_in_range(b, calls.drop_last());
        let prev = board_run(b, calls.drop_last());
        match calls.last() {
            BoardCall::Clear => {},
            BoardCall::Lock(t, x, y) => {
                lemma_settled_in_range(prev.cells, t, x as int, y as int);
                lemma_cleared_in_range(settled_piece(prev.cells, t, x as int, y as int));
            },
        }
    }
}

/// Whatever calls of `clear` and `lock_tetrimino` follow, from a playfield
/// with no recorded rows such as `new` gives, rows are recorded (so
/// `is_line_clearing` holds) exactly when the last call was a lock that
/// removed rows, and they are the rows it removed.
pub proof fn lemma_line_clearing_follows_last_lock(b: BoardState, calls: Seq<BoardCall>)
    requires
        b.lines_to_clear.len() == 0,
    ensures
        (board_run(b, calls).lines_to_clear.len() > 0) == (calls.len() > 0 && calls.last() is Lock
            && rows_removed(board_run(b, calls.drop_last()), calls.last()) > 0),
        calls.len() > 0 ==> board_run(b, calls).lines_to_clear.len() == rows_removed(
            board_run(b, calls.drop_last()),
            calls.last(),
        ),
{
}

proof fn lemma_no_full_rows_keeps_all(g: Seq<Option<u8>>, r: int)
    requires
        g.len() == 180,
        0 <= r <= 18,
        forall|q: int| 0 <= q < 18 ==> !row_full(g, q),
    ensures
        kept_rows(g, r).len() == 18 - r,
        full_rows(g, r).len() == 0,
        forall|k: int| 0 <= k < 18 - r ==> (#[trigger] kept_rows(g, r)[k]) == row(g, r + k),
    decreases 18 - r,
{
    if r < 18 {
        lemma_no_full_rows_keeps_all(g, r + 1);
        let kr = kept_rows(g, r);
        let rest = kept_rows(g, r + 1);
        assert forall|k: int| 0 <= k < 18 - r implies (#[trigger] kr[k]) == row(g, r + k) by {
            if k > 0 {
                assert(kr[k] == rest[k - 1]);
            }
        }
    }
}

/// Removes the full rows of a playfield: the others keep their order and
/// sink to the bottom. Gives the new cells and the removed rows, bottom first.
pub(crate) fn clear_full_rows(grid: &Vec<Option<u8>>) -> (r: (Vec<Option<u8>>, Vec<usize>))
    requires
        grid@.len() == 180,
    ensures
        r.0@ == cleared_cells(grid@),
        r.1@ == full_rows(grid@, 0),
{
    let ghost g = grid@;
    let mut full: Vec<usize> = Vec::new();
    let mut lines_cleared: usize = 0;
    let mut new_grid: Vec<Option<u8>> = Vec::new();
    let mut i: usize = 0;
    while i < 180
        invariant
            i <= 180,
            new_grid@ == Seq::new(i as nat, |k: int| None::<u8>),
        decreases 180 - i,
    {
        new_grid.push(None);
        i = i + 1;
    }
    let mut placed: usize = 0;
    let mut r: usize = 18;
    while r > 0
        invariant
            r <= 18,
            g == grid@,
            g.len() == 180,
            new_grid@.len() == 180,
            placed == kept_rows(g, r as int).len(),
            lines_cleared == full_rows(g, r as int).len(),
            full@ == full_rows(g, r as int),
            placed + lines_cleared == 18 - r,
            forall|rr: int, cx: int|
                #![trigger new_grid@[rr * 10 + cx]]
                0 <= rr < 18 && 0 <= cx < 10 ==> new_grid@[rr * 10 + cx] == (if rr < 18 - placed {
                    None
                } else {
                    kept_rows(g, r as int)[rr - (18 - placed)][cx]
                }),
        decreases r,
    {
        r = r - 1;
        proof {
            lemma_kept_rows_shape(g, r + 1);
        }
        let mut line_full = true;
        let mut x: usize = 0;
        while x < 10 && line_full
            invariant
                x <= 10,
                r < 18,
                g == grid@,
                g.len() == 180,
                forall|q: int| 0 <= q < x ==> (#[trigger] g[r * 10 + q]) is Some,
                !line_full ==> x < 10 && g[r * 10 + x] is None,
            decreases 10 - x + (if line_full { 1int } else { 0int }),
        {
            if grid[r * 10 + x].is_none() {
                line_full = false;
            } else {
                x = x + 1;
            }
        }
        assert(line_full <==> row_full(g, r as int));
        if !line_full {
            let ghost old_ng = new_grid@;
            let ghost kept_before = kept_rows(g, r as int + 1);
            let target = 17 - placed;
            let mut c: usize = 0;
            while c < 10
                invariant
                    c <= 10,
                    r < 18,
                    target == 17 - placed,
                    placed < 18,
                    g == grid@,
                    g.len() == 180,
                    new_grid@.len() == 180,
                    forall|rr: int, cx: int|
                        #![trigger new_grid@[rr * 10 + cx]]
                        0 <= rr < 18 && 0 <= cx < 10 ==> new_grid@[rr * 10 + cx] == (if rr == target
                            && cx < c {
                            g[r * 10 + cx]
                        } else {
                            old_ng[rr * 10 + cx]
                        }),
                decreases 10 - c,
            {
                let v = grid[r * 10 + c];
                new_grid.set(target * 10 + c, v);
                c = c + 1;
            }
            placed = placed + 1;
            proof {
                let kr = kept_rows(g, r as int);
                assert(kr == seq![row(g, r as int)] + kept_before);
                assert forall|rr: int, cx: int|
                    0 <= rr < 18 && 0 <= cx < 10 implies #[trigger] new_grid@[rr * 10 + cx] == (if rr
                        < 18 - placed {
                        None
                    } else {
                        kr[rr - (18 - placed)][cx]
                    }) by {
                    if rr > target {
                        assert(kr[rr - (18 - placed)] == kept_before[rr - (18 - placed) - 1]);
                    }
                }
            }
        } else {
            full.push(r);
            lines_cleared = lines_cleared + 1;
        }
    }
    proof {
        lemma_kept_rows_shape(g, 0);
        let cc = cleared_cells(g);
        assert forall|i: int| 0 <= i < 180 implies new_grid@[i] == cc[i] by {
            let cx = i % 10;
            let rr = i / 10;
            assert(i == rr * 10 + cx);
        }
        assert(new_grid@ =~= cc);
    }
    (new_grid, full)
}

} // verus!
