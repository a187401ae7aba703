use vstd::prelude::*;
use crate::char_class::{alphanumeric, is_alphanumeric};
use crate::glyphs::{
    advance, glyph_width, width_of, is_piece, lemma_advance_concat, lemma_piece_advance, lemma_wrapped_pieces,
    text_width, text_width_of, total_len, wrap_line, wrapped,
};
use crate::keys::Key;
use crate::page_id::PageId;

verus! {

/// Display lines shown at once.
pub const MAX_VISIBLE_LINES: usize = 6;

/// Left edge of the text, in pixels.
pub const LEFT_MARGIN: usize = 10;

/// The view scrolls once the cursor reaches this many lines below its top.
pub const SCROLL_THRESHOLD: usize = 4;

/// The display lines `ws` of text line `line`, each with that index and the
/// number of characters of the display lines before it.
pub open spec fn tagged(ws: Seq<Seq<char>>, line: int) -> Seq<(Seq<char>, int, int)>
    decreases ws.len(),
{
    if ws.len() == 0 {
        Seq::empty()
    } else {
        tagged(ws.drop_last(), line).push((ws.last(), line, total_len(ws.drop_last())))
    }
}

/// Every display line of the text, in order, tagged as `tagged` does.
pub open spec fn all_wrapped(widths: Seq<usize>, lines: Seq<Seq<char>>) -> Seq<(Seq<char>, int, int)>
    decreases lines.len(),
{
    if lines.len() == 0 {
        Seq::empty()
    } else {
        all_wrapped(widths, lines.drop_last()) + tagged(
            wrapped(widths, lines.last()),
            lines.len() - 1,
        )
    }
}

/// The display line `e` holds cursor position `cp` of text line `cl`.
pub open spec fn holds_cursor(e: (Seq<char>, int, int), cl: int, cp: int) -> bool {
    e.1 == cl && e.2 <= cp && cp <= e.2 + e.0.len()
}

/// The first of the first `n` display lines that holds the cursor.
pub open spec fn first_holding(all: Seq<(Seq<char>, int, int)>, cl: int, cp: int, n: int) -> Option<int>
    decreases n,
{
    if n <= 0 {
        None
    } else {
        match first_holding(all, cl, cp, n - 1) {
            Some(i) => Some(i),
            None => if holds_cursor(all[n - 1], cl, cp) {
                Some(n - 1)
            } else {
                None
            },
        }
    }
}

proof fn lemma_first_holding_stays(all: Seq<(Seq<char>, int, int)>, cl: int, cp: int, i: int, n: int)
    requires
        0 <= i < n,
        first_holding(all, cl, cp, i + 1) == Some(i),
    ensures
        first_holding(all, cl, cp, n) == Some(i),
    decreases n - i,
{
    if n > i + 1 {
        lemma_first_holding_stays(all, cl, cp, i, n - 1);
    }
}

proof fn lemma_first_holding_range(all: Seq<(Seq<char>, int, int)>, cl: int, cp: int, n: int)
    ensures
        first_holding(all, cl, cp, n) matches Some(i) ==> 0 <= i < n,
    decreases n,
{
    if n > 0 {
        lemma_first_holding_range(all, cl, cp, n - 1);
    }
}

proof fn lemma_cursor_row_range(all: Seq<(Seq<char>, int, int)>, cl: int, cp: int)
    requires
        all.len() > 0,
    ensures
        0 <= cursor_row(all, cl, cp) < all.len(),
{
    lemma_first_holding_range(all, cl, cp, all.len() as int);
}

/// The display line of the cursor: the first that holds it, else the last.
pub open spec fn cursor_row(all: Seq<(Seq<char>, int, int)>, cl: int, cp: int) -> int {
    match first_holding(all, cl, cp, all.len() as int) {
        Some(i) => i,
        None => if all.len() > 0 {
            all.len() - 1
        } else {
            0
        },
    }
}

/// Horizontal position of the cursor after `pos` characters of `s`.
pub open spec fn x_at(widths: Seq<usize>, s: Seq<char>, pos: int) -> int {
    LEFT_MARGIN + text_width_of(
        widths,
        8,
        s.take(
            if pos < s.len() {
                pos
            } else {
                s.len() as int
            },
        ),
    )
}

pub open spec fn distance(a: int, b: int) -> int {
    if a >= b {
        a - b
    } else {
        b - a
    }
}

/// Among positions `0..n` of `s`, the first whose horizontal position is
/// closest to `x`.
pub open spec fn closest_position(widths: Seq<usize>, s: Seq<char>, x: int, n: int) -> int
    decreases n,
{
    if n <= 1 {
        0
    } else {
        let b = closest_position(widths, s, x, n - 1);
        if distance(x_at(widths, s, n - 1), x) < distance(x_at(widths, s, b), x) {
            n - 1
        } else {
            b
        }
    }
}

/// The cursor moved onto display line `t`, as near as can be to the
/// column it had; unchanged where there is no such display line.
pub open spec fn cursor_on_row(
    widths: Seq<usize>,
    lines: Seq<Seq<char>>,
    cl: int,
    cp: int,
    t: int,
) -> (int, int) {
    let all = all_wrapped(widths, lines);
    if 0 <= t < all.len() {
        let e = all[t];
        let x = x_at(widths, lines[cl], cp);
        (e.1, e.2 + closest_position(widths, e.0, x, e.0.len() + 1int))
    } else {
        (cl, cp)
    }
}

/// The scroll offset that shows display line `row`: it scrolls once the
/// cursor goes above the view or `SCROLL_THRESHOLD` lines into it, and never
/// past the last full screen.
pub open spec fn scrolled(scroll: int, row: int, total: int) -> int {
    let s = if row < scroll {
        row
    } else if row >= scroll + SCROLL_THRESHOLD {
        row - SCROLL_THRESHOLD + 1
    } else {
        scroll
    };
    if total > MAX_VISIBLE_LINES {
        if s < total - MAX_VISIBLE_LINES {
            s
        } else {
            total - MAX_VISIBLE_LINES
        }
    } else {
        0
    }
}

/// Number of words of `s`: runs of alphanumeric characters.
pub open spec fn words(s: Seq<char>) -> int
    decreases s.len(),
{
    if s.len() == 0 {
        0
    } else {
        words(s.drop_last()) + if alphanumeric(s.last()) && (s.len() == 1 || !alphanumeric(
            s[s.len() - 2],
        )) {
            1int
        } else {
            0int
        }
    }
}

/// Number of words of the text; a word never runs over a line break.
pub open spec fn word_total(lines: Seq<Seq<char>>) -> int
    decreases lines.len(),
{
    if lines.len() == 0 {
        0
    } else {
        word_total(lines.drop_last()) + words(lines.last())
    }
}

/// Total advance of the text's lines.
pub open spec fn doc_advance(widths: Seq<usize>, lines: Seq<Seq<char>>) -> int
    decreases lines.len(),
{
    if lines.len() == 0 {
        0
    } else {
        doc_advance(widths, lines.drop_last()) + advance(widths, 8, lines.last())
    }
}

/// The state of the writing screen: the text's lines, the cursor (line,
/// and position counted in characters), the first display line shown, and
/// the word count.
pub struct WriteMenuState {
    pub lines: Seq<Seq<char>>,
    pub cursor_line: int,
    pub cursor_pos: int,
    pub scroll_offset: int,
    pub word_count: int,
}

/// Enter: the cursor's line is broken at the cursor (or an empty line is
/// opened below it when the cursor is at its end); the cursor goes to the
/// start of the new line.
pub open spec fn break_line(st: WriteMenuState) -> WriteMenuState {
    let cl = st.cursor_line;
    let cp = st.cursor_pos;
    let l = st.lines[cl];
    let lines = if cp >= l.len() {
        st.lines.insert(cl + 1, Seq::<char>::empty())
    } else {
        st.lines.update(cl, l.take(cp)).insert(cl + 1, l.skip(cp))
    };
    WriteMenuState { lines: lines, cursor_line: cl + 1, cursor_pos: 0, ..st }
}

/// Typing `c`: it goes in at the cursor (at the line's end where the
/// cursor is past it) and the cursor moves one on.
pub open spec fn type_char(st: WriteMenuState, c: char) -> WriteMenuState {
    let cl = st.cursor_line;
    let cp = st.cursor_pos;
    let l = st.lines[cl];
    let nl = if cp < l.len() {
        l.insert(cp, c)
    } else {
        l.push(c)
    };
    WriteMenuState { lines: st.lines.update(cl, nl), cursor_pos: cp + 1, ..st }
}

/// Backspace: removes the character before the cursor, or joins the line
/// to the one above at the start of a line.
pub open spec fn erase_back(st: WriteMenuState) -> WriteMenuState {
    let cl = st.cursor_line;
    let cp = st.cursor_pos;
    let l = st.lines[cl];
    if cp > 0 {
        let nl = if cp - 1 < l.len() {
            l.remove(cp - 1)
        } else {
            l
        };
        WriteMenuState { lines: st.lines.update(cl, nl), cursor_pos: cp - 1, ..st }
    } else if cl > 0 {
        let prev = st.lines[cl - 1];
        WriteMenuState {
            lines: st.lines.update(cl - 1, prev + l).remove(cl),
            cursor_line: cl - 1,
            cursor_pos: prev.len() as int,
            ..st
        }
    } else {
        st
    }
}

/// Delete: removes the character at the cursor, or joins the next line to
/// this one at the end of a line.
pub open spec fn erase_forward(st: WriteMenuState) -> WriteMenuState {
    let cl = st.cursor_line;
    let cp = st.cursor_pos;
    let l = st.lines[cl];
    if cp < l.len() {
        WriteMenuState { lines: st.lines.update(cl, l.remove(cp)), ..st }
    } else if cl + 1 < st.lines.len() {
        WriteMenuState { lines: st.lines.update(cl, l + st.lines[cl + 1]).remove(cl + 1), ..st }
    } else {
        st
    }
}

pub open spec fn step_left(st: WriteMenuState) -> WriteMenuState {
    if st.cursor_pos > 0 {
        WriteMenuState { cursor_pos: st.cursor_pos - 1, ..st }
    } else if st.cursor_line > 0 {
        WriteMenuState {
            cursor_line: st.cursor_line - 1,
            cursor_pos: st.lines[st.cursor_line - 1].len() as int,
            ..st
        }
    } else {
        st
    }
}

pub open spec fn step_right(st: WriteMenuState) -> WriteMenuState {
    if st.cursor_pos < st.lines[st.cursor_line].len() {
        WriteMenuState { cursor_pos: st.cursor_pos + 1, ..st }
    } else if st.cursor_line + 1 < st.lines.len() {
        WriteMenuState { cursor_line: st.cursor_line + 1, cursor_pos: 0, ..st }
    } else {
        st
    }
}

/// Up: onto the display line above, keeping the cursor's horizontal place
/// as well as it can; from the first display line, to the end of the line
/// above if there is one.
pub open spec fn step_up(widths: Seq<usize>, st: WriteMenuState) -> WriteMenuState {
    let row = cursor_row(all_wrapped(widths, st.lines), st.cursor_line, st.cursor_pos);
    if row > 0 {
        let (l, p) = cursor_on_row(widths, st.lines, st.cursor_line, st.cursor_pos, row - 1);
        WriteMenuState { cursor_line: l, cursor_pos: p, ..st }
    } else if st.cursor_line > 0 {
        WriteMenuState {
            cursor_line: st.cursor_line - 1,
            cursor_pos: st.lines[st.cursor_line - 1].len() as int,
            ..st
        }
    } else {
        st
    }
}

/// Down: onto the display line below, keeping the cursor's horizontal
/// place as well as it can; from the last display line, to the start of
/// the next line if there is one.
pub open spec fn step_down(widths: Seq<usize>, st: WriteMenuState) -> WriteMenuState {
    let all = all_wrapped(widths, st.lines);
    let row = cursor_row(all, st.cursor_line, st.cursor_pos);
    if row + 1 < all.len() {
        let (l, p) = cursor_on_row(widths, st.lines, st.cursor_line, st.cursor_pos, row + 1);
        WriteMenuState { cursor_line: l, cursor_pos: p, ..st }
    } else if st.cursor_line + 1 < st.lines.len() {
        WriteMenuState { cursor_line: st.cursor_line + 1, cursor_pos: 0, ..st }
    } else {
        st
    }
}

/// `st` scrolled so that the cursor is in view.
pub open spec fn shown(widths: Seq<usize>, st: WriteMenuState) -> WriteMenuState {
    let all = all_wrapped(widths, st.lines);
    WriteMenuState {
        scroll_offset: scrolled(
            st.scroll_offset,
            cursor_row(all, st.cursor_line, st.cursor_pos),
            all.len() as int,
        ),
        ..st
    }
}

/// `st` with its words counted anew.
pub open spec fn recounted(st: WriteMenuState) -> WriteMenuState {
    WriteMenuState { word_count: word_total(st.lines), ..st }
}

/// What a key does on the writing screen, and the screen it asks for:
/// editing keys change the text and count the words anew, moving keys move
/// the cursor, and each keeps the cursor in view; Esc and Ctrl-X go back to
/// the menu.
pub open spec fn after_key(widths: Seq<usize>, st: WriteMenuState, key: Key) -> (
    WriteMenuState,
    Option<PageId>,
) {
    match key {
        Key::Char(c) => if c == '\n' {
            (recounted(shown(widths, break_line(st))), None)
        } else {
            (recounted(shown(widths, type_char(st, c))), None)
        },
        Key::Backspace => (recounted(shown(widths, erase_back(st))), None),
        Key::Delete => (recounted(shown(widths, erase_forward(st))), None),
        Key::Left => (shown(widths, step_left(st)), None),
        Key::Right => (shown(widths, step_right(st)), None),
        Key::Up => (shown(widths, step_up(widths, st)), None),
        Key::Down => (shown(widths, step_down(widths, st)), None),
        Key::PageUp => if st.scroll_offset > 0 {
            (
                shown(
                    widths,
                    WriteMenuState {
                        scroll_offset: if st.scroll_offset >= MAX_VISIBLE_LINES {
                            st.scroll_offset - MAX_VISIBLE_LINES
                        } else {
                            0
                        },
                        ..st
                    },
                ),
                None,
            )
        } else {
            (st, None)
        },
        Key::PageDown => {
            let total = all_wrapped(widths, st.lines).len() as int;
            if st.scroll_offset + MAX_VISIBLE_LINES < total {
                (
                    shown(
                        widths,
                        WriteMenuState {
                            scroll_offset: if st.scroll_offset + MAX_VISIBLE_LINES < total - 1 {
                                st.scroll_offset + MAX_VISIBLE_LINES
                            } else {
                                total - 1
                            },
                            ..st
                        },
                    ),
                    None,
                )
            } else {
                (st, None)
            }
        },
        Key::Esc => (st, Some(PageId::Menu)),
        Key::Ctrl(c) => if c == 'x' {
            (st, Some(PageId::Menu))
        } else {
            (st, None)
        },
        _ => (st, None),
    }
}

/// A key fits the text's room: typing a character needs room for one more
/// advance and one more cursor step.
pub open spec fn has_room(widths: Seq<usize>, st: WriteMenuState, key: Key) -> bool {
    match key {
        Key::Char(c) => c == '\n' || (2 * (doc_advance(widths, st.lines) + width_of(widths, 8, c) + 2)
            + 64 <= usize::MAX && st.cursor_pos < usize::MAX),
        _ => true,
    }
}

proof fn lemma_advance_nonneg(widths: Seq<usize>, s: Seq<char>)
    ensures
        advance(widths, 8, s) >= 2 * s.len(),
{
    lemma_advance_concat(widths, 8, s, Seq::<char>::empty());
}

proof fn lemma_doc_advance_line(widths: Seq<usize>, lines: Seq<Seq<char>>, k: int)
    requires
        0 <= k < lines.len(),
    ensures
        advance(widths, 8, lines[k]) <= doc_advance(widths, lines),
        doc_advance(widths, lines) >= 0,
    decreases lines.len(),
{
    lemma_doc_advance_nonneg(widths, lines.drop_last());
    lemma_advance_nonneg(widths, lines.last());
    if k < lines.len() - 1 {
        lemma_doc_advance_line(widths, lines.drop_last(), k);
    }
}

proof fn lemma_doc_advance_nonneg(widths: Seq<usize>, lines: Seq<Seq<char>>)
    ensures
        doc_advance(widths, lines) >= 0,
    decreases lines.len(),
{
    if lines.len() > 0 {
        lemma_doc_advance_nonneg(widths, lines.drop_last());
        lemma_advance_nonneg(widths, lines.last());
    }
}

proof fn lemma_total_len_prefix(ws: Seq<Seq<char>>, j: int)
    requires
        0 <= j <= ws.len(),
    ensures
        total_len(ws.take(j)) <= total_len(ws),
        0 <= total_len(ws.take(j)),
    decreases ws.len(),
{
    if j < ws.len() {
        assert(ws.drop_last().take(j) =~= ws.take(j));
        lemma_total_len_prefix(ws.drop_last(), j);
    } else {
        assert(ws.take(j) =~= ws);
        lemma_total_len_nonneg(ws);
    }
}

proof fn lemma_total_len_nonneg(ws: Seq<Seq<char>>)
    ensures
        total_len(ws) >= 0,
    decreases ws.len(),
{
    if ws.len() > 0 {
        lemma_total_len_nonneg(ws.drop_last());
    }
}

/// The display lines of one text line, tagged with its index.
fn tag_rows(
    widths: &Vec<usize>,
    line: &Vec<char>,
    index: usize,
    out: &mut Vec<(Vec<char>, usize, usize)>,
)
    requires
        2 * advance(widths@, 8, line@) + 64 <= usize::MAX,
    ensures
        final(out)@.map_values(|t: (Vec<char>, usize, usize)| (t.0@, t.1 as int, t.2 as int)) == old(
            out,
        )@.map_values(|t: (Vec<char>, usize, usize)| (t.0@, t.1 as int, t.2 as int)) + tagged(
            wrapped(widths@, line@),
            index as int,
        ),
{
    let rows = wrap_line(widths.as_slice(), line.as_slice());
    let ghost ws = wrapped(widths@, line@);
    let ghost start = out@.map_values(|t: (Vec<char>, usize, usize)| (t.0@, t.1 as int, t.2 as int));
    proof {
        lemma_wrapped_pieces(widths@, line@);
        lemma_advance_nonneg(widths@, line@);
        assert(ws.take(0) =~= Seq::<Seq<char>>::empty());
        assert(start + tagged(ws.take(0), index as int) =~= start);
    }
    let mut offset: usize = 0;
    let mut j: usize = 0;
    while j < rows.len()
        invariant
            rows@.map_values(|l: Vec<char>| l@) == ws,
            ws == wrapped(widths@, line@),
            total_len(ws) <= line@.len(),
            2 * advance(widths@, 8, line@) + 64 <= usize::MAX,
            advance(widths@, 8, line@) >= 2 * line@.len(),
            j <= rows@.len(),
            offset == total_len(ws.take(j as int)),
            out@.map_values(|t: (Vec<char>, usize, usize)| (t.0@, t.1 as int, t.2 as int)) == start
                + tagged(ws.take(j as int), index as int),
        decreases rows@.len() - j,
    {
        let row = rows[j].clone();
        proof {
            assert(row@ == ws[j as int]);
            assert(ws.take(j + 1).drop_last() =~= ws.take(j as int));
            assert(ws.take(j + 1).last() == ws[j as int]);
            lemma_total_len_prefix(ws, j + 1);
        }
        let n = row.len();
        let ghost before = out@;
        out.push((row, index, offset));
        proof {
            let f = |t: (Vec<char>, usize, usize)| (t.0@, t.1 as int, t.2 as int);
            assert(tagged(ws.take(j + 1), index as int) == tagged(ws.take(j as int), index as int).push(
                (ws[j as int], index as int, total_len(ws.take(j as int))),
            ));
            assert(out@.map_values(f) =~= before.map_values(f).push(
                (ws[j as int], index as int, offset as int),
            ));
            assert(out@.map_values(f) =~= start + tagged(ws.take(j + 1), index as int));
        }
        offset = offset + n;
        j = j + 1;
    }
    proof {
        assert(ws.take(j as int) =~= ws);
    }
}

proof fn lemma_tagged(ws: Seq<Seq<char>>, l: int)
    ensures
        tagged(ws, l).len() == ws.len(),
        forall|k: int|
            0 <= k < ws.len() ==> #[trigger] tagged(ws, l)[k] == (ws[k], l, total_len(ws.take(k))),
    decreases ws.len(),
{
    if ws.len() > 0 {
        lemma_tagged(ws.drop_last(), l);
        assert forall|k: int| 0 <= k < ws.len() implies #[trigger] tagged(ws, l)[k] == (
            ws[k],
            l,
            total_len(ws.take(k)),
        ) by {
            if k < ws.len() - 1 {
                assert(ws.drop_last().take(k) =~= ws.take(k));
            } else {
                assert(ws.take(k) =~= ws.drop_last());
            }
        }
    }
}

/// A display line of `lines`: it names a text line, is a run of that
/// line's characters, and ends within the line.
pub open spec fn row_fits(lines: Seq<Seq<char>>, e: (Seq<char>, int, int)) -> bool {
    &&& 0 <= e.1 < lines.len()
    &&& 0 <= e.2
    &&& e.2 + e.0.len() <= lines[e.1].len()
    &&& is_piece(e.0, lines[e.1])
}

proof fn lemma_rows(widths: Seq<usize>, lines: Seq<Seq<char>>)
    ensures
        all_wrapped(widths, lines).len() >= lines.len(),
        forall|i: int|
            0 <= i < all_wrapped(widths, lines).len() ==> row_fits(
                lines,
                #[trigger] all_wrapped(widths, lines)[i],
            ),
    decreases lines.len(),
{
    if lines.len() > 0 {
        let p = lines.drop_last();
        let l = lines.len() - 1;
        let ws = wrapped(widths, lines.last());
        lemma_rows(widths, p);
        lemma_tagged(ws, l);
        lemma_wrapped_pieces(widths, lines.last());
        let a = all_wrapped(widths, p);
        let all = all_wrapped(widths, lines);
        assert(all == a + tagged(ws, l));
        assert forall|i: int| 0 <= i < all.len() implies row_fits(lines, #[trigger] all[i]) by {
            if i < a.len() {
                assert(all[i] == a[i]);
                assert(row_fits(p, a[i]));
                assert(lines[a[i].1] == p[a[i].1]);
                assert(row_fits(lines, all[i]));
            } else {
                let k = i - a.len();
                assert(all[i] == tagged(ws, l)[k]);
                assert(tagged(ws, l)[k] == (ws[k], l, total_len(ws.take(k))));
                assert(ws.take(k + 1).drop_last() =~= ws.take(k));
                assert(ws.take(k + 1).last() == ws[k]);
                assert(total_len(ws.take(k + 1)) == total_len(ws.take(k)) + ws[k].len());
                lemma_total_len_prefix(ws, k + 1);
                lemma_total_len_nonneg(ws.take(k));
                assert(lines[l] == lines.last());
                assert(is_piece(ws[k], lines.last()));
                assert(total_len(ws) <= lines.last().len());
                assert(total_len(ws.take(k)) >= 0);
                assert(total_len(ws.take(k)) + ws[k].len() <= lines[l].len());
                assert(row_fits(lines, all[i]));
            }
        }
    }
}

proof fn lemma_doc_advance_concat(widths: Seq<usize>, a: Seq<Seq<char>>, b: Seq<Seq<char>>)
    ensures
        doc_advance(widths, a + b) == doc_advance(widths, a) + doc_advance(widths, b),
    decreases b.len(),
{
    if b.len() == 0 {
        assert(a + b =~= a);
    } else {
        assert((a + b).drop_last() =~= a + b.drop_last());
        lemma_doc_advance_concat(widths, a, b.drop_last());
    }
}

proof fn lemma_doc_advance_single(widths: Seq<usize>, l: Seq<char>)
    ensures
        doc_advance(widths, seq![l]) == advance(widths, 8, l),
{
    assert(seq![l].drop_last() =~= Seq::<Seq<char>>::empty());
    assert(seq![l].last() == l);
    assert(doc_advance(widths, Seq::<Seq<char>>::empty()) == 0);
}

/// The text around line `k`: the lines before it, the line, the lines after.
proof fn lemma_doc_advance_split(widths: Seq<usize>, lines: Seq<Seq<char>>, k: int)
    requires
        0 <= k < lines.len(),
    ensures
        doc_advance(widths, lines) == doc_advance(widths, lines.take(k)) + advance(widths, 8, lines[k])
            + doc_advance(widths, lines.skip(k + 1)),
        doc_advance(widths, lines.take(k)) >= 0,
        doc_advance(widths, lines.skip(k + 1)) >= 0,
{
    assert(lines =~= lines.take(k) + (seq![lines[k]] + lines.skip(k + 1)));
    lemma_doc_advance_concat(widths, lines.take(k), seq![lines[k]] + lines.skip(k + 1));
    lemma_doc_advance_concat(widths, seq![lines[k]], lines.skip(k + 1));
    lemma_doc_advance_single(widths, lines[k]);
    lemma_doc_advance_nonneg(widths, lines.take(k));
    lemma_doc_advance_nonneg(widths, lines.skip(k + 1));
}

proof fn lemma_words_bound(s: Seq<char>)
    ensures
        0 <= words(s) <= s.len(),
    decreases s.len(),
{
    if s.len() > 0 {
        lemma_words_bound(s.drop_last());
    }
}

proof fn lemma_word_total_bound(widths: Seq<usize>, lines: Seq<Seq<char>>)
    ensures
        0 <= 2 * word_total(lines) <= doc_advance(widths, lines),
    decreases lines.len(),
{
    if lines.len() > 0 {
        lemma_word_total_bound(widths, lines.drop_last());
        lemma_words_bound(lines.last());
        lemma_advance_nonneg(widths, lines.last());
    }
}

/// The first `n` characters of `v`, or all of them where it has fewer.
fn take_chars(v: &Vec<char>, n: usize) -> (r: Vec<char>)
    ensures
        r@ == v@.take(
            if n < v@.len() {
                n as int
            } else {
                v@.len() as int
            },
        ),
{
    let m = if n < v.len() {
        n
    } else {
        v.len()
    };
    let mut r: Vec<char> = Vec::new();
    let mut i: usize = 0;
    while i < m
        invariant
            m <= v@.len(),
            i <= m,
            r@ == v@.take(i as int),
        decreases m - i,
    {
        r.push(v[i]);
        proof {
            assert(r@ =~= v@.take(i + 1));
        }
        i = i + 1;
    }
    r
}

proof fn lemma_prefix_piece(s: Seq<char>, k: int)
    requires
        0 <= k <= s.len(),
    ensures
        is_piece(s.take(k), s),
{
    assert(s.subrange(0, 0int + s.take(k).len()) =~= s.take(k));
}

/// The writing screen: a text of lines edited through a cursor, shown
/// wrapped to the screen's width, with a running word count.
pub struct WriteMenuPage {
    char_widths: Vec<usize>,
    small_char_widths: Vec<usize>,
    lines: Vec<Vec<char>>,
    cursor_line: usize,
    cursor_pos: usize,
    scroll_offset: usize,
    word_count: usize,
}

impl View for WriteMenuPage {
    type V = WriteMenuState;

    closed spec fn view(&self) -> WriteMenuState {
        WriteMenuState {
            lines: self.lines@.map_values(|l: Vec<char>| l@),
            cursor_line: self.cursor_line as int,
            cursor_pos: self.cursor_pos as int,
            scroll_offset: self.scroll_offset as int,
            word_count: self.word_count as int,
        }
    }
}

impl WriteMenuPage {
    /// The measured widths of the text font's glyphs.
    pub closed spec fn widths(&self) -> Seq<usize> {
        self.char_widths@
    }

    /// The measured widths of the small font's glyphs.
    pub closed spec fn small_widths(&self) -> Seq<usize> {
        self.small_char_widths@
    }

    /// The screen's invariant: there is a line, the cursor is on one, and
    /// the text's advance leaves room for the layout arithmetic.
    pub open spec fn wf(&self) -> bool {
        &&& self@.lines.len() >= 1
        &&& 0 <= self@.cursor_line < self@.lines.len()
        &&& 0 <= self@.cursor_pos <= usize::MAX
        &&& 0 <= self@.scroll_offset <= usize::MAX
        &&& 2 * doc_advance(self.widths(), self@.lines) + 64 <= usize::MAX
    }

    proof fn lemma_view(&self)
        ensures
            self@.lines.len() == self.lines@.len(),
            forall|i: int| 0 <= i < self.lines@.len() ==> #[trigger] self@.lines[i] == self.lines@[i]@,
            self@.cursor_line == self.cursor_line,
            self@.cursor_pos == self.cursor_pos,
            self@.scroll_offset == self.scroll_offset,
            self@.word_count == self.word_count,
            self.widths() == self.char_widths@,
    {
    }

    /// An empty text with the cursor at its start; `char_widths` measure the
    /// text font, `small_char_widths` the font of the word count.
    pub fn new(char_widths: Vec<usize>, small_char_widths: Vec<usize>) -> (p: Self)
        ensures
            p.wf(),
            p.widths() == char_widths@,
            p.small_widths() == small_char_widths@,
            p@ == (WriteMenuState {
                lines: seq![Seq::<char>::empty()],
                cursor_line: 0,
                cursor_pos: 0,
                scroll_offset: 0,
                word_count: 0,
            }),
    {
        let mut lines: Vec<Vec<char>> = Vec::new();
        lines.push(Vec::new());
        let mut page = WriteMenuPage {
            char_widths,
            small_char_widths,
            lines,
            cursor_line: 0,
            cursor_pos: 0,
            scroll_offset: 0,
            word_count: 0,
        };
        proof {
            assert(page@.lines =~= seq![Seq::<char>::empty()]);
            lemma_doc_advance_single(page.widths(), Seq::<char>::empty());
            assert(advance(page.widths(), 8, Seq::<char>::empty()) == 0);
            assert(word_total(seq![Seq::<char>::empty()]) == 0) by {
                assert(seq![Seq::<char>::empty()].drop_last() =~= Seq::<Seq<char>>::empty());
                assert(word_total(Seq::<Seq<char>>::empty()) == 0);
                assert(words(Seq::<char>::empty()) == 0);
            }
        }
        page.update_word_count();
        page
    }

    /// Every display line of the text: its characters, its text line, and
    /// the characters of the display lines of that text line before it.
    pub fn get_all_wrapped_lines(&self) -> (rows: Vec<(Vec<char>, usize, usize)>)
        requires
            self.wf(),
        ensures
            rows@.map_values(|t: (Vec<char>, usize, usize)| (t.0@, t.1 as int, t.2 as int))
                == all_wrapped(self.widths(), self@.lines),
    {
        let mut rows: Vec<(Vec<char>, usize, usize)> = Vec::new();
        let mut i: usize = 0;
        let ghost lines = self@.lines;
        proof {
            self.lemma_view();
            assert(lines.take(0) =~= Seq::<Seq<char>>::empty());
            assert(rows@.map_values(|t: (Vec<char>, usize, usize)| (t.0@, t.1 as int, t.2 as int))
                =~= all_wrapped(self.widths(), lines.take(0)));
        }
        while i < self.lines.len()
            invariant
                self.wf(),
                lines == self@.lines,
                lines.len() == self.lines@.len(),
                forall|k: int| 0 <= k < self.lines@.len() ==> #[trigger] lines[k] == self.lines@[k]@,
                i <= self.lines@.len(),
                rows@.map_values(|t: (Vec<char>, usize, usize)| (t.0@, t.1 as int, t.2 as int))
                    == all_wrapped(self.widths(), lines.take(i as int)),
            decreases self.lines@.len() - i,
        {
            proof {
                lemma_doc_advance_line(self.widths(), lines, i as int);
                assert(lines.take(i + 1).drop_last() =~= lines.take(i as int));
                assert(lines.take(i + 1).last() == lines[i as int]);
            }
            tag_rows(&self.char_widths, &self.lines[i], i, &mut rows);
            i = i + 1;
        }
        proof {
            assert(lines.take(i as int) =~= lines);
        }
        rows
    }

    /// The display line that holds the cursor: the first that does, or the
    /// last display line.
    pub fn find_wrapped_line_for_cursor(&self) -> (r: usize)
        requires
            self.wf(),
        ensures
            r == cursor_row(all_wrapped(self.widths(), self@.lines), self@.cursor_line, self@.cursor_pos),
    {
        let rows = self.get_all_wrapped_lines();
        let ghost all = all_wrapped(self.widths(), self@.lines);
        proof {
            lemma_rows(self.widths(), self@.lines);
        }
        let mut i: usize = 0;
        while i < rows.len()
            invariant
                self.wf(),
                all == all_wrapped(self.widths(), self@.lines),
                rows@.map_values(|t: (Vec<char>, usize, usize)| (t.0@, t.1 as int, t.2 as int)) == all,
                forall|k: int| 0 <= k < all.len() ==> row_fits(self@.lines, #[trigger] all[k]),
                i <= rows@.len(),
                first_holding(all, self@.cursor_line, self@.cursor_pos, i as int) is None,
            decreases rows@.len() - i,
        {
            let ghost e = all[i as int];
            proof {
                assert(row_fits(self@.lines, e));
                lemma_doc_advance_line(self.widths(), self@.lines, e.1);
                lemma_advance_nonneg(self.widths(), self@.lines[e.1]);
            }
            let n = rows[i].0.len();
            proof {
                assert(rows@.map_values(|t: (Vec<char>, usize, usize)| (t.0@, t.1 as int, t.2 as int))[i as int] == e);
            }
            if rows[i].1 == self.cursor_line && self.cursor_pos >= rows[i].2 && self.cursor_pos
                <= rows[i].2 + n {
                proof {
                    lemma_first_holding_stays(all, self@.cursor_line, self@.cursor_pos, i as int, all.len() as int);
                }
                return i;
            }
            i = i + 1;
        }
        if rows.len() > 0 {
            rows.len() - 1
        } else {
            0
        }
    }

    /// Horizontal position of the cursor on its line.
    fn get_cursor_x_position(&self) -> (x: usize)
        requires
            self.wf(),
        ensures
            x == x_at(self.widths(), self@.lines[self@.cursor_line], self@.cursor_pos),
            x <= doc_advance(self.widths(), self@.lines) + LEFT_MARGIN,
    {
        let line = &self.lines[self.cursor_line];
        let prefix = take_chars(line, self.cursor_pos);
        proof {
            self.lemma_view();
            let l = self@.lines[self@.cursor_line];
            assert(line@ == l);
            lemma_prefix_piece(l, prefix@.len() as int);
            lemma_piece_advance(self.widths(), 8, prefix@, l);
            lemma_doc_advance_line(self.widths(), self@.lines, self@.cursor_line);
        }
        LEFT_MARGIN + text_width(self.char_widths.as_slice(), 8, prefix.as_slice())
    }

    /// Counts the words of the text anew.
    fn update_word_count(&mut self)
        requires
            old(self).wf(),
        ensures
            final(self).wf(),
            final(self).widths() == old(self).widths(),
            final(self).small_widths() == old(self).small_widths(),
            final(self)@ == (WriteMenuState { word_count: word_total(old(self)@.lines), ..old(self)@ }),
    {
        let ghost lines = self@.lines;
        let ghost widths = self.widths();
        proof {
            self.lemma_view();
            assert(lines.take(0) =~= Seq::<Seq<char>>::empty());
        }
        let mut count: usize = 0;
        let mut li: usize = 0;
        while li < self.lines.len()
            invariant
                self.wf(),
                lines == self@.lines,
                widths == self.widths(),
                lines.len() == self.lines@.len(),
                forall|k: int| 0 <= k < self.lines@.len() ==> #[trigger] lines[k] == self.lines@[k]@,
                li <= lines.len(),
                count == word_total(lines.take(li as int)),
            decreases lines.len() - li,
        {
            let line = &self.lines[li];
            let ghost l = lines[li as int];
            let mut in_word = false;
            let mut j: usize = 0;
            proof {
                assert(line@ == l);
                assert(l.take(0) =~= Seq::<char>::empty());
                lemma_doc_advance_split(widths, lines, li as int);
                lemma_word_total_bound(widths, lines.take(li as int));
                lemma_advance_nonneg(widths, l);
            }
            while j < line.len()
                invariant
                    line@ == l,
                    j <= l.len(),
                    count == word_total(lines.take(li as int)) + words(l.take(j as int)),
                    in_word == (j > 0 && alphanumeric(l[j - 1])),
                    2 * word_total(lines.take(li as int)) + 2 * l.len() <= doc_advance(widths, lines),
                    2 * doc_advance(widths, lines) + 64 <= usize::MAX,
                decreases l.len() - j,
            {
                let c = line[j];
                proof {
                    assert(l.take(j + 1).drop_last() =~= l.take(j as int));
                    assert(l.take(j + 1).last() == c);
                    if j > 0 {
                        assert(l.take(j + 1)[j - 1] == l[j - 1]);
                    }
                    lemma_words_bound(l.take(j as int));
                }
                if is_alphanumeric(c) {
                    if !in_word {
                        count = count + 1;
                        in_word = true;
                    }
                } else {
                    in_word = false;
                }
                j = j + 1;
            }
            proof {
                assert(l.take(j as int) =~= l);
                assert(lines.take(li + 1).drop_last() =~= lines.take(li as int));
                assert(lines.take(li + 1).last() == l);
            }
            li = li + 1;
        }
        proof {
            assert(lines.take(li as int) =~= lines);
        }
        self.word_count = count;
    }

    /// The cursor placed on display line `target`, at the position whose
    /// horizontal place is nearest the cursor's; the cursor as it is where
    /// there is no such display line.
    pub fn find_cursor_for_wrapped_line(&self, target: usize) -> (r: (usize, usize))
        requires
            self.wf(),
        ensures
            (r.0 as int, r.1 as int) == cursor_on_row(
                self.widths(),
                self@.lines,
                self@.cursor_line,
                self@.cursor_pos,
                target as int,
            ),
    {
        let rows = self.get_all_wrapped_lines();
        let ghost all = all_wrapped(self.widths(), self@.lines);
        let ghost widths = self.widths();
        proof {
            lemma_rows(self.widths(), self@.lines);
        }
        if target < rows.len() {
            let current_x = self.get_cursor_x_position();
            let text = &rows[target].0;
            let ghost e = all[target as int];
            proof {
                assert(rows@.map_values(|t: (Vec<char>, usize, usize)| (t.0@, t.1 as int, t.2 as int))[target as int] == e);
                assert(text@ == e.0);
                assert(row_fits(self@.lines, e));
                lemma_doc_advance_line(widths, self@.lines, e.1);
                lemma_advance_nonneg(widths, self@.lines[e.1]);
                lemma_piece_advance(widths, 8, e.0, self@.lines[e.1]);
            }
            let n = text.len();
            let mut best_pos: usize = 0;
            let mut best_distance: usize = usize::MAX;
            let mut pos: usize = 0;
            while pos <= n
                invariant
                    text@ == e.0,
                    n == e.0.len(),
                    n + 64 <= usize::MAX,
                    advance(widths, 8, e.0) + LEFT_MARGIN <= usize::MAX / 2,
                    current_x <= usize::MAX / 2,
                    widths == self.char_widths@,
                    pos <= n + 1,
                    pos == 0 ==> best_pos == 0 && best_distance == usize::MAX,
                    pos > 0 ==> best_pos < pos && best_pos == closest_position(
                        widths,
                        e.0,
                        current_x as int,
                        pos as int,
                    ) && best_distance == distance(x_at(widths, e.0, best_pos as int), current_x as int),
                decreases n + 1 - pos,
            {
                let prefix = take_chars(text, pos);
                proof {
                    lemma_prefix_piece(e.0, prefix@.len() as int);
                    lemma_piece_advance(widths, 8, prefix@, e.0);
                }
                let x_pos = LEFT_MARGIN + text_width(self.char_widths.as_slice(), 8, prefix.as_slice());
                let d = if x_pos >= current_x {
                    x_pos - current_x
                } else {
                    current_x - x_pos
                };
                if d < best_distance {
                    best_distance = d;
                    best_pos = pos;
                }
                pos = pos + 1;
            }
            return (rows[target].1, rows[target].2 + best_pos);
        }
        (self.cursor_line, self.cursor_pos)
    }

    /// Scrolls so that the cursor's display line is in view: once it goes
    /// above the view or `SCROLL_THRESHOLD` lines into it, and never past
    /// the last full screen.
    fn ensure_cursor_visible(&mut self)
        requires
            old(self).wf(),
        ensures
            final(self).wf(),
            final(self).widths() == old(self).widths(),
            final(self).small_widths() == old(self).small_widths(),
            final(self)@ == (WriteMenuState {
                scroll_offset: scrolled(
                    old(self)@.scroll_offset,
                    cursor_row(
                        all_wrapped(old(self).widths(), old(self)@.lines),
                        old(self)@.cursor_line,
                        old(self)@.cursor_pos,
                    ),
                    all_wrapped(old(self).widths(), old(self)@.lines).len() as int,
                ),
                ..old(self)@
            }),
    {
        let row = self.find_wrapped_line_for_cursor();
        let total = self.get_all_wrapped_lines().len();
        let mut scroll = self.scroll_offset;
        if row < scroll {
            scroll = row;
        } else if row - scroll >= SCROLL_THRESHOLD {
            scroll = row - SCROLL_THRESHOLD + 1;
        }
        if total > MAX_VISIBLE_LINES {
            let max_scroll = total - MAX_VISIBLE_LINES;
            if max_scroll < scroll {
                scroll = max_scroll;
            }
        } else {
            scroll = 0;
        }
        self.scroll_offset = scroll;
    }

    /// Enter at the cursor.
    fn break_line_at_cursor(&mut self)
        requires
            old(self).wf(),
        ensures
            final(self).wf(),
            final(self).widths() == old(self).widths(),
            final(self).small_widths() == old(self).small_widths(),
            final(self)@ == break_line(old(self)@),
    {
        let ghost st = self@;
        let ghost widths = self.widths();
        let cl = self.cursor_line;
        let cp = self.cursor_pos;
        proof {
            self.lemma_view();
        }
        let count = self.lines.len();
        let n = self.lines[cl].len();
        if cp >= n {
            self.lines.insert(cl + 1, Vec::new());
            proof {
                let nl = st.lines.insert(cl + 1, Seq::<char>::empty());
                assert(self.lines@.map_values(|l: Vec<char>| l@) =~= nl);
                assert(nl =~= st.lines.take(cl + 1) + (seq![Seq::<char>::empty()] + st.lines.skip(
                    cl + 1,
                )));
                assert(st.lines =~= st.lines.take(cl + 1) + st.lines.skip(cl + 1));
                lemma_doc_advance_concat(widths, st.lines.take(cl + 1), st.lines.skip(cl + 1));
                lemma_doc_advance_concat(
                    widths,
                    st.lines.take(cl + 1),
                    seq![Seq::<char>::empty()] + st.lines.skip(cl + 1),
                );
                lemma_doc_advance_concat(widths, seq![Seq::<char>::empty()], st.lines.skip(cl + 1));
                lemma_doc_advance_single(widths, Seq::<char>::empty());
            }
        } else {
            let line = self.lines[cl].clone();
            let left = take_chars(&line, cp);
            let right = drop_chars(&line, cp);
            self.lines.set(cl, left);
            self.lines.insert(cl + 1, right);
            proof {
                let l = st.lines[cl as int];
                assert(line@ == l);
                let nl = st.lines.update(cl as int, l.take(cp as int)).insert(cl + 1, l.skip(cp as int));
                assert(self.lines@.map_values(|l: Vec<char>| l@) =~= nl);
                let mid = seq![l.take(cp as int)] + seq![l.skip(cp as int)];
                assert(nl =~= st.lines.take(cl as int) + (mid + st.lines.skip(cl + 1)));
                lemma_doc_advance_split(widths, st.lines, cl as int);
                lemma_doc_advance_concat(widths, st.lines.take(cl as int), mid + st.lines.skip(cl + 1));
                lemma_doc_advance_concat(widths, mid, st.lines.skip(cl + 1));
                lemma_doc_advance_concat(widths, seq![l.take(cp as int)], seq![l.skip(cp as int)]);
                lemma_doc_advance_single(widths, l.take(cp as int));
                lemma_doc_advance_single(widths, l.skip(cp as int));
                assert(l =~= l.take(cp as int) + l.skip(cp as int));
                lemma_advance_concat(widths, 8, l.take(cp as int), l.skip(cp as int));
            }
        }
        self.cursor_line = cl + 1;
        self.cursor_pos = 0;
    }

    /// Typing a character other than Enter at the cursor.
    fn type_at_cursor(&mut self, c: char)
        requires
            old(self).wf(),
            has_room(old(self).widths(), old(self)@, Key::Char(c)),
            c != '\n',
        ensures
            final(self).wf(),
            final(self).widths() == old(self).widths(),
            final(self).small_widths() == old(self).small_widths(),
            final(self)@ == type_char(old(self)@, c),
    {
        let ghost st = self@;
        let ghost widths = self.widths();
        let cl = self.cursor_line;
        let cp = self.cursor_pos;
        proof {
            self.lemma_view();
        }
        let mut line = self.lines[cl].clone();
        let ghost l = st.lines[cl as int];
        if cp < line.len() {
            line.insert(cp, c);
            proof {
                assert(l.insert(cp as int, c) =~= l.take(cp as int) + seq![c] + l.skip(cp as int));
                assert(l =~= l.take(cp as int) + l.skip(cp as int));
                lemma_advance_concat(widths, 8, l.take(cp as int), l.skip(cp as int));
                lemma_advance_concat(widths, 8, l.take(cp as int) + seq![c], l.skip(cp as int));
                lemma_advance_concat(widths, 8, l.take(cp as int), seq![c]);
            }
        } else {
            line.push(c);
            proof {
                assert(l.push(c) =~= l + seq![c]);
                lemma_advance_concat(widths, 8, l, seq![c]);
            }
        }
        proof {
            assert(seq![c].drop_last() =~= Seq::<char>::empty());
            assert(seq![c].last() == c);
            assert(advance(widths, 8, Seq::<char>::empty()) == 0);
            assert(advance(widths, 8, seq![c]) == width_of(widths, 8, c) + 2);
            let nl = st.lines.update(cl as int, line@);
            assert(nl =~= st.lines.take(cl as int) + (seq![line@] + st.lines.skip(cl + 1)));
            lemma_doc_advance_split(widths, st.lines, cl as int);
            lemma_doc_advance_concat(widths, st.lines.take(cl as int), seq![line@] + st.lines.skip(cl + 1));
            lemma_doc_advance_concat(widths, seq![line@], st.lines.skip(cl + 1));
            lemma_doc_advance_single(widths, line@);
        }
        self.lines.set(cl, line);
        proof {
            assert(self.lines@.map_values(|l: Vec<char>| l@) =~= st.lines.update(cl as int, line@));
        }
        self.cursor_pos = cp + 1;
    }

    /// Backspace at the cursor.
    fn erase_before_cursor(&mut self)
        requires
            old(self).wf(),
        ensures
            final(self).wf(),
            final(self).widths() == old(self).widths(),
            final(self).small_widths() == old(self).small_widths(),
            final(self)@ == erase_back(old(self)@),
    {
        let ghost st = self@;
        let ghost widths = self.widths();
        let cl = self.cursor_line;
        let cp = self.cursor_pos;
        proof {
            self.lemma_view();
        }
        if cp > 0 {
            let mut line = self.lines[cl].clone();
            let ghost l = st.lines[cl as int];
            if cp - 1 < line.len() {
                line.remove(cp - 1);
                proof {
                    let k = cp - 1;
                    assert(l =~= l.take(k as int) + seq![l[k as int]] + l.skip(cp as int));
                    assert(l.remove(k as int) =~= l.take(k as int) + l.skip(cp as int));
                    lemma_advance_concat(widths, 8, l.take(k as int) + seq![l[k as int]], l.skip(cp as int));
                    lemma_advance_concat(widths, 8, l.take(k as int), seq![l[k as int]]);
                    lemma_advance_concat(widths, 8, l.take(k as int), l.skip(cp as int));
                    lemma_advance_nonneg(widths, seq![l[k as int]]);
                }
            }
            proof {
                let nl = st.lines.update(cl as int, line@);
                assert(nl =~= st.lines.take(cl as int) + (seq![line@] + st.lines.skip(cl + 1)));
                lemma_doc_advance_split(widths, st.lines, cl as int);
                lemma_doc_advance_concat(widths, st.lines.take(cl as int), seq![line@] + st.lines.skip(cl + 1));
                lemma_doc_advance_concat(widths, seq![line@], st.lines.skip(cl + 1));
                lemma_doc_advance_single(widths, line@);
            }
            self.lines.set(cl, line);
            proof {
                assert(self.lines@.map_values(|l: Vec<char>| l@) =~= st.lines.update(cl as int, line@));
            }
            self.cursor_pos = cp - 1;
        } else if cl > 0 {
            let current = self.lines.remove(cl);
            let mut prev = self.lines[cl - 1].clone();
            let prev_len = prev.len();
            let mut rest = current;
            prev.append(&mut rest);
            self.lines.set(cl - 1, prev);
            proof {
                let k = cl - 1;
                let a = st.lines[k as int];
                let b = st.lines[cl as int];
                let nl = st.lines.update(k as int, a + b).remove(cl as int);
                assert(self.lines@.map_values(|l: Vec<char>| l@) =~= nl);
                assert(nl =~= st.lines.take(k as int) + (seq![a + b] + st.lines.skip(cl + 1)));
                assert(st.lines =~= st.lines.take(k as int) + (seq![a] + (seq![b] + st.lines.skip(cl + 1))));
                lemma_doc_advance_concat(widths, st.lines.take(k as int), seq![a + b] + st.lines.skip(cl + 1));
                lemma_doc_advance_concat(widths, seq![a + b], st.lines.skip(cl + 1));
                lemma_doc_advance_concat(widths, st.lines.take(k as int), seq![a] + (seq![b] + st.lines.skip(cl + 1)));
                lemma_doc_advance_concat(widths, seq![a], seq![b] + st.lines.skip(cl + 1));
                lemma_doc_advance_concat(widths, seq![b], st.lines.skip(cl + 1));
                lemma_doc_advance_single(widths, a + b);
                lemma_doc_advance_single(widths, a);
                lemma_doc_advance_single(widths, b);
                lemma_advance_concat(widths, 8, a, b);
            }
            self.cursor_line = cl - 1;
            self.cursor_pos = prev_len;
        }
    }

    /// Delete at the cursor.
    fn erase_at_cursor(&mut self)
        requires
            old(self).wf(),
        ensures
            final(self).wf(),
            final(self).widths() == old(self).widths(),
            final(self).small_widths() == old(self).small_widths(),
            final(self)@ == erase_forward(old(self)@),
    {
        let ghost st = self@;
        let ghost widths = self.widths();
        let cl = self.cursor_line;
        let cp = self.cursor_pos;
        proof {
            self.lemma_view();
        }
        let count = self.lines.len();
        let n = self.lines[cl].len();
        if cp < n {
            let mut line = self.lines[cl].clone();
            let ghost l = st.lines[cl as int];
            line.remove(cp);
            proof {
                assert(l =~= l.take(cp as int) + seq![l[cp as int]] + l.skip(cp + 1));
                assert(l.remove(cp as int) =~= l.take(cp as int) + l.skip(cp + 1));
                lemma_advance_concat(widths, 8, l.take(cp as int) + seq![l[cp as int]], l.skip(cp + 1));
                lemma_advance_concat(widths, 8, l.take(cp as int), seq![l[cp as int]]);
                lemma_advance_concat(widths, 8, l.take(cp as int), l.skip(cp + 1));
                lemma_advance_nonneg(widths, seq![l[cp as int]]);
                let nl = st.lines.update(cl as int, line@);
                assert(nl =~= st.lines.take(cl as int) + (seq![line@] + st.lines.skip(cl + 1)));
                lemma_doc_advance_split(widths, st.lines, cl as int);
                lemma_doc_advance_concat(widths, st.lines.take(cl as int), seq![line@] + st.lines.skip(cl + 1));
                lemma_doc_advance_concat(widths, seq![line@], st.lines.skip(cl + 1));
                lemma_doc_advance_single(widths, line@);
            }
            self.lines.set(cl, line);
            proof {
                assert(self.lines@.map_values(|l: Vec<char>| l@) =~= st.lines.update(cl as int, line@));
            }
        } else if cl + 1 < self.lines.len() {
            let next = self.lines.remove(cl + 1);
            let mut line = self.lines[cl].clone();
            let mut rest = next;
            line.append(&mut rest);
            self.lines.set(cl, line);
            proof {
                let a = st.lines[cl as int];
                let b = st.lines[cl + 1];
                let nl = st.lines.update(cl as int, a + b).remove(cl + 1);
                assert(self.lines@.map_values(|l: Vec<char>| l@) =~= nl);
                assert(nl =~= st.lines.take(cl as int) + (seq![a + b] + st.lines.skip(cl + 2)));
                assert(st.lines =~= st.lines.take(cl as int) + (seq![a] + (seq![b] + st.lines.skip(cl + 2))));
                lemma_doc_advance_concat(widths, st.lines.take(cl as int), seq![a + b] + st.lines.skip(cl + 2));
                lemma_doc_advance_concat(widths, seq![a + b], st.lines.skip(cl + 2));
                lemma_doc_advance_concat(widths, st.lines.take(cl as int), seq![a] + (seq![b] + st.lines.skip(cl + 2)));
                lemma_doc_advance_concat(widths, seq![a], seq![b] + st.lines.skip(cl + 2));
                lemma_doc_advance_concat(widths, seq![b], st.lines.skip(cl + 2));
                lemma_doc_advance_single(widths, a + b);
                lemma_doc_advance_single(widths, a);
                lemma_doc_advance_single(widths, b);
                lemma_advance_concat(widths, 8, a, b);
            }
        }
    }

    /// Applies a key press: edits, moves the cursor or scrolls, and tells
    /// which screen to go to, if another.
    pub fn handle_key(&mut self, key: Key) -> (r: Option<PageId>)
        requires
            old(self).wf(),
            has_room(old(self).widths(), old(self)@, key),
        ensures
            final(self).wf(),
            final(self).widths() == old(self).widths(),
            final(self).small_widths() == old(self).small_widths(),
            (final(self)@, r) == after_key(old(self).widths(), old(self)@, key),
    {
        let ghost widths = self.widths();
        proof {
            self.lemma_view();
            lemma_rows(widths, self@.lines);
            lemma_cursor_row_range(all_wrapped(widths, self@.lines), self@.cursor_line, self@.cursor_pos);
        }
        match key {
            Key::Char(c) => {
                if c == '\n' {
                    self.break_line_at_cursor();
                } else {
                    self.type_at_cursor(c);
                }
                self.ensure_cursor_visible();
                self.update_word_count();
                None
            },
            Key::Backspace => {
                self.erase_before_cursor();
                self.ensure_cursor_visible();
                self.update_word_count();
                None
            },
            Key::Delete => {
                self.erase_at_cursor();
                self.ensure_cursor_visible();
                self.update_word_count();
                None
            },
            Key::Left => {
                if self.cursor_pos > 0 {
                    self.cursor_pos = self.cursor_pos - 1;
                } else if self.cursor_line > 0 {
                    self.cursor_line = self.cursor_line - 1;
                    self.cursor_pos = self.lines[self.cursor_line].len();
                }
                self.ensure_cursor_visible();
                None
            },
            Key::Right => {
                let n = self.lines[self.cursor_line].len();
                let count = self.lines.len();
                if self.cursor_pos < n {
                    self.cursor_pos = self.cursor_pos + 1;
                } else if self.cursor_line + 1 < count {
                    self.cursor_line = self.cursor_line + 1;
                    self.cursor_pos = 0;
                }
                self.ensure_cursor_visible();
                None
            },
            Key::Up => {
                let row = self.find_wrapped_line_for_cursor();
                if row > 0 {
                    let (l, p) = self.find_cursor_for_wrapped_line(row - 1);
                    proof {
                        let all = all_wrapped(widths, self@.lines);
                        assert(row_fits(self@.lines, all[row - 1]));
                    }
                    self.cursor_line = l;
                    self.cursor_pos = p;
                } else if self.cursor_line > 0 {
                    self.cursor_line = self.cursor_line - 1;
                    self.cursor_pos = self.lines[self.cursor_line].len();
                }
                self.ensure_cursor_visible();
                None
            },
            Key::Down => {
                let row = self.find_wrapped_line_for_cursor();
                let total = self.get_all_wrapped_lines().len();
                let count = self.lines.len();
                if row + 1 < total {
                    let (l, p) = self.find_cursor_for_wrapped_line(row + 1);
                    proof {
                        let all = all_wrapped(widths, self@.lines);
                        assert(row_fits(self@.lines, all[row + 1]));
                    }
                    self.cursor_line = l;
                    self.cursor_pos = p;
                } else if self.cursor_line + 1 < count {
                    self.cursor_line = self.cursor_line + 1;
                    self.cursor_pos = 0;
                }
                self.ensure_cursor_visible();
                None
            },
            Key::PageUp => {
                if self.scroll_offset > 0 {
                    self.scroll_offset = if self.scroll_offset >= MAX_VISIBLE_LINES {
                        self.scroll_offset - MAX_VISIBLE_LINES
                    } else {
                        0
                    };
                    self.ensure_cursor_visible();
                }
                None
            },
            Key::PageDown => {
                let total = self.get_all_wrapped_lines().len();
                if total > MAX_VISIBLE_LINES && self.scroll_offset < total - MAX_VISIBLE_LINES {
                    let next = self.scroll_offset + MAX_VISIBLE_LINES;
                    self.scroll_offset = if next < total - 1 {
                        next
                    } else {
                        total - 1
                    };
                    self.ensure_cursor_visible();
                }
                None
            },
            Key::Esc => Some(PageId::Menu),
            Key::Ctrl(c) => {
                if c == 'x' {
                    Some(PageId::Menu)
                } else {
                    None
                }
            },
            _ => None,
        }
    }

    /// The text's lines.
    pub fn lines(&self) -> (ls: &Vec<Vec<char>>)
        ensures
            ls@.map_values(|l: Vec<char>| l@) == self@.lines,
    {
        &self.lines
    }

    /// The cursor: its line and its position in the line.
    pub fn cursor(&self) -> (c: (usize, usize))
        ensures
            c.0 == self@.cursor_line,
            c.1 == self@.cursor_pos,
    {
        (self.cursor_line, self.cursor_pos)
    }

    /// The first display line shown.
    pub fn scroll_offset(&self) -> (s: usize)
        ensures
            s == self@.scroll_offset,
    {
        self.scroll_offset
    }

    /// The number of words of the text.
    pub fn word_count(&self) -> (n: usize)
        ensures
            n == self@.word_count,
    {
        self.word_count
    }

    /// The measured widths of the text font's glyphs.
    pub fn char_widths(&self) -> (w: &Vec<usize>)
        ensures
            w@ == self.widths(),
    {
        &self.char_widths
    }

    /// The measured widths of the small font's glyphs.
    pub fn small_char_widths(&self) -> (w: &Vec<usize>)
        ensures
            w@ == self.small_widths(),
    {
        &self.small_char_widths
    }

    /// Tests `has_room` for a key.
    pub fn has_room_for(&self, key: Key) -> (b: bool)
        requires
            self.wf(),
        ensures
            b == has_room(self.widths(), self@, key),
    {
        match key {
            Key::Char(c) => {
                if c == '\n' {
                    return true;
                }
                let ghost widths = self.widths();
                let ghost lines = self@.lines;
                proof {
                    self.lemma_view();
                    assert(lines.take(0) =~= Seq::<Seq<char>>::empty());
                }
                let mut total: usize = 0;
                let mut i: usize = 0;
                while i < self.lines.len()
                    invariant
                        self.wf(),
                        widths == self.widths(),
                        widths == self.char_widths@,
                        lines == self@.lines,
                        lines.len() == self.lines@.len(),
                        forall|k: int| 0 <= k < self.lines@.len() ==> #[trigger] lines[k] == self.lines@[k]@,
                        i <= lines.len(),
                        total == doc_advance(widths, lines.take(i as int)),
                    decreases lines.len() - i,
                {
                    let line = &self.lines[i];
                    let ghost l = lines[i as int];
                    proof {
                        assert(line@ == l);
                        assert(lines.take(i + 1).drop_last() =~= lines.take(i as int));
                        assert(lines.take(i + 1).last() == l);
                        assert(lines =~= lines.take(i + 1) + lines.skip(i + 1));
                        lemma_doc_advance_concat(widths, lines.take(i + 1), lines.skip(i + 1));
                        lemma_doc_advance_nonneg(widths, lines.skip(i + 1));
                        assert(l.take(0) =~= Seq::<char>::empty());
                    }
                    let mut j: usize = 0;
                    let mut sum: usize = total;
                    while j < line.len()
                        invariant
                            line@ == l,
                            j <= l.len(),
                            sum == total + advance(widths, 8, l.take(j as int)),
                            total + advance(widths, 8, l) <= usize::MAX,
                            widths == self.char_widths@,
                        decreases l.len() - j,
                    {
                        proof {
                            assert(l.take(j + 1).drop_last() =~= l.take(j as int));
                            assert(l =~= l.take(j + 1) + l.skip(j + 1));
                            lemma_advance_concat(widths, 8, l.take(j + 1), l.skip(j + 1));
                            lemma_advance_nonneg(widths, l.skip(j + 1));
                        }
                        sum = sum + glyph_width(self.char_widths.as_slice(), 8, line[j]) + 2;
                        j = j + 1;
                    }
                    proof {
                        assert(l.take(j as int) =~= l);
                    }
                    total = sum;
                    i = i + 1;
                }
                proof {
                    assert(lines.take(i as int) =~= lines);
                }
                let w = glyph_width(self.char_widths.as_slice(), 8, c);
                let need: u128 = 2 * (total as u128 + w as u128 + 2) + 64;
                need <= usize::MAX as u128 && self.cursor_pos < usize::MAX
            },
            _ => true,
        }
    }
}

/// Typing a character and then pressing Backspace gives back the text and
/// the cursor.
pub proof fn lemma_type_then_erase(st: WriteMenuState, c: char)
    requires
        0 <= st.cursor_line < st.lines.len(),
        0 <= st.cursor_pos <= st.lines[st.cursor_line].len(),
    ensures
        erase_back(type_char(st, c)).lines == st.lines,
        erase_back(type_char(st, c)).cursor_line == st.cursor_line,
        erase_back(type_char(st, c)).cursor_pos == st.cursor_pos,
{
    let l = st.lines[st.cursor_line];
    let t = type_char(st, c);
    let nl = t.lines[st.cursor_line];
    if st.cursor_pos < l.len() {
        assert(nl == l.insert(st.cursor_pos, c));
        assert(nl.remove(st.cursor_pos) =~= l);
    } else {
        assert(nl == l.push(c));
        assert(nl.remove(st.cursor_pos) =~= l);
    }
    assert(st.lines.update(st.cursor_line, nl).update(st.cursor_line, l) =~= st.lines);
}

/// The characters of `v` from `n` on.
fn drop_chars(v: &Vec<char>, n: usize) -> (r: Vec<char>)
    requires
        n <= v@.len(),
    ensures
        r@ == v@.skip(n as int),
{
    let mut r: Vec<char> = Vec::new();
    let mut i: usize = n;
    while i < v.len()
        invariant
            n <= i <= v@.len(),
            r@ == v@.subrange(n as int, i as int),
        decreases v@.len() - i,
    {
        r.push(v[i]);
        proof {
            assert(r@ =~= v@.subrange(n as int, i + 1));
        }
        i = i + 1;
    }
    proof {
        assert(r@ =~= v@.skip(n as int));
    }
    r
}

} // verus!
