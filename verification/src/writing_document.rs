use vstd::prelude::*;
use crate::utf8_text::{
    byte_len, utf8_width, char_len_utf8, count_newlines, lemma_byte_len_concat, lemma_byte_len_full,
    lemma_byte_len_single, lemma_byte_len_take_mono, lemma_byte_len_take_step,
    lemma_byte_len_take_strict, lemma_split_lines_len, prefix_byte_len, split_lines,
};

verus! {

/// Calls `String::push`. Claimed: the character is appended to the string.
#[verifier::external_body]
pub(crate) fn push_char(s: &mut String, c: char)
    ensures
        final(s)@ == old(s)@.push(c),
{
    s.push(c);
}

/// Start of the line holding position `k`: just after the last newline
/// before `k`, or 0.
pub open spec fn line_start(s: Seq<char>, k: int) -> int
    decreases k,
{
    if k <= 0 {
        0
    } else if s[k - 1] == '\n' {
        k
    } else {
        line_start(s, k - 1)
    }
}

/// End of the line holding position `i`: the first newline at or after `i`,
/// or the end of the text.
pub open spec fn line_end(s: Seq<char>, i: int) -> int
    decreases s.len() - i,
{
    if i >= s.len() {
        s.len() as int
    } else if s[i] == '\n' {
        i
    } else {
        line_end(s, i + 1)
    }
}

/// The cursor position one line up, keeping the column where the line
/// above is long enough; unchanged on the first line.
pub open spec fn position_above(s: Seq<char>, k: int) -> int {
    let ls = line_start(s, k);
    if ls == 0 {
        k
    } else {
        let pls = line_start(s, ls - 1);
        let col = k - ls;
        let plen = (ls - 1) - pls;
        pls + if col < plen {
            col
        } else {
            plen
        }
    }
}

/// The cursor position one line down, keeping the column where the line
/// below is long enough; unchanged on the last line.
pub open spec fn position_below(s: Seq<char>, k: int) -> int {
    let le = line_end(s, k);
    if le >= s.len() {
        k
    } else {
        let q = le + 1;
        let col = k - line_start(s, k);
        let nlen = line_end(s, q) - q;
        q + if col < nlen {
            col
        } else {
            nlen
        }
    }
}

/// The mathematical state of a document: its characters, the cursor as a
/// character index and as a byte offset, the text split into lines, and
/// the view and file bookkeeping.
pub struct DocumentState {
    pub text: Seq<char>,
    pub cursor: nat,
    pub cursor_bytes: usize,
    pub scroll_offset: usize,
    pub dirty: bool,
    pub lines: Seq<Seq<char>>,
    pub visible_lines: usize,
    pub file_path: Option<Seq<char>>,
}

/// `t` is `s` with the text replaced by `text` and the cursor at character
/// `k`, the lines recomputed, everything else kept.
pub open spec fn edited(s: DocumentState, text: Seq<char>, k: nat, dirty: bool) -> DocumentState {
    DocumentState {
        text: text,
        cursor: k,
        cursor_bytes: byte_len(text.take(k as int)) as usize,
        lines: split_lines(text),
        dirty: dirty,
        ..s
    }
}

/// `s` with the cursor moved to character `k`.
pub open spec fn moved_to(s: DocumentState, k: nat) -> DocumentState {
    DocumentState { cursor: k, cursor_bytes: byte_len(s.text.take(k as int)) as usize, ..s }
}

/// The text with `c` inserted before character `k`.
pub open spec fn inserted(text: Seq<char>, k: int, c: char) -> Seq<char> {
    text.take(k) + seq![c] + text.skip(k)
}

/// The scroll offset that brings line `line` into a window of `visible`
/// lines starting at `scroll`, moving the window as little as possible.
pub open spec fn scrolled_to(scroll: int, visible: int, line: int) -> int {
    if line < scroll {
        line
    } else if line >= scroll + visible {
        line - visible + 1
    } else {
        scroll
    }
}

/// A call of a document method that the editor makes between loads and
/// saves.
pub enum DocCall {
    InsertChar(char),
    InsertNewline,
    DeleteChar,
    DeleteForward,
    MoveLeft,
    MoveRight,
    MoveUp,
    MoveDown,
    MoveHome,
    MoveEnd,
    EnsureCursorVisible,
    SetVisibleLines(usize),
    SetFilePath(Seq<char>),
}

/// The document after one call.
#[verifier::opaque]
pub open spec fn doc_step(s: DocumentState, call: DocCall) -> DocumentState {
    let k = s.cursor as int;
    match call {
        DocCall::InsertChar(c) => edited(s, inserted(s.text, k, c), s.cursor + 1, true),
        DocCall::InsertNewline => edited(s, inserted(s.text, k, '\n'), s.cursor + 1, true),
        DocCall::DeleteChar => if k > 0 {
            edited(s, s.text.remove(k - 1), (k - 1) as nat, true)
        } else {
            s
        },
        DocCall::DeleteForward => if k < s.text.len() {
            edited(s, s.text.remove(k), s.cursor, true)
        } else {
            s
        },
        DocCall::MoveLeft => if k > 0 {
            moved_to(s, (k - 1) as nat)
        } else {
            s
        },
        DocCall::MoveRight => if k < s.text.len() {
            moved_to(s, s.cursor + 1)
        } else {
            s
        },
        DocCall::MoveUp => moved_to(s, position_above(s.text, k) as nat),
        DocCall::MoveDown => moved_to(s, position_below(s.text, k) as nat),
        DocCall::MoveHome => moved_to(s, line_start(s.text, k) as nat),
        DocCall::MoveEnd => moved_to(s, line_end(s.text, k) as nat),
        DocCall::EnsureCursorVisible => DocumentState {
            scroll_offset: scrolled_to(
                s.scroll_offset as int,
                s.visible_lines as int,
                count_newlines(s.text.take(k)) as int,
            ) as usize,
            ..s
        },
        DocCall::SetVisibleLines(n) => DocumentState { visible_lines: n, ..s },
        DocCall::SetFilePath(p) => DocumentState { file_path: Some(p), ..s },
    }
}

/// The document after the calls, in order.
pub open spec fn doc_run(s: DocumentState, calls: Seq<DocCall>) -> DocumentState
    decreases calls.len(),
{
    if calls.len() == 0 {
        s
    } else {
        doc_step(doc_run(s, calls.drop_last()), calls.last())
    }
}

/// The call changes the text: an insertion, a backspace with a character
/// before the cursor, or a forward delete with a character after it.
pub open spec fn changes_text(s: DocumentState, call: DocCall) -> bool {
    match call {
        DocCall::InsertChar(_) => true,
        DocCall::InsertNewline => true,
        DocCall::DeleteChar => s.cursor > 0,
        DocCall::DeleteForward => s.cursor < s.text.len(),
        _ => false,
    }
}

/// Some call of the sequence changes the text.
pub open spec fn some_change(s: DocumentState, calls: Seq<DocCall>) -> bool
    decreases calls.len(),
{
    if calls.len() == 0 {
        false
    } else {
        some_change(s, calls.drop_last()) || changes_text(doc_run(s, calls.drop_last()), calls.last())
    }
}

/// After any sequence of calls the document is dirty exactly when it was
/// dirty before or some call changed the text; so after `new`, `load_text`
/// or `mark_saved`, exactly when some later call changed it. Moving the
/// cursor, scrolling, and setting the window or the path never do.
pub proof fn lemma_dirty_after_calls(s: DocumentState, calls: Seq<DocCall>)
    ensures
        doc_run(s, calls).dirty == (s.dirty || some_change(s, calls)),
    decreases calls.len(),
{
    if calls.len() > 0 {
        lemma_dirty_after_calls(s, calls.drop_last());
        reveal(doc_step);
    }
}

/// Inserting a character and then deleting backwards gives back the text,
/// the lines and the cursor.
pub proof fn lemma_insert_then_backspace(s: DocumentState, c: char)
    requires
        s.cursor <= s.text.len(),
        s.cursor_bytes == byte_len(s.text.take(s.cursor as int)),
        s.lines == split_lines(s.text),
    ensures
        ({
            let t = doc_step(doc_step(s, DocCall::InsertChar(c)), DocCall::DeleteChar);
            &&& t.text == s.text
            &&& t.lines == s.lines
            &&& t.cursor == s.cursor
            &&& t.cursor_bytes == s.cursor_bytes
        }),
{
    let k = s.cursor;
    lemma_insert_then_delete(s.text, k as int, c);
    lemma_step_facts(s, c);
    let t1 = doc_step(s, DocCall::InsertChar(c));
    lemma_step_facts(t1, c);
    assert(t1.text == inserted(s.text, k as int, c) && t1.cursor == k + 1);
}

/// Inserting a character, moving left and deleting forward give back the
/// text, the lines and the cursor; deleting forward at the end of the text
/// changes nothing, the dirty flag included.
pub proof fn lemma_insert_left_delete_forward(s: DocumentState, c: char)
    requires
        s.cursor <= s.text.len(),
        s.cursor_bytes == byte_len(s.text.take(s.cursor as int)),
        s.lines == split_lines(s.text),
    ensures
        ({
            let t = doc_run(s, seq![DocCall::InsertChar(c), DocCall::MoveLeft, DocCall::DeleteForward]);
            &&& t.text == s.text
            &&& t.lines == s.lines
            &&& t.cursor == s.cursor
            &&& t.cursor_bytes == s.cursor_bytes
        }),
        s.cursor == s.text.len() ==> doc_step(s, DocCall::DeleteForward) == s,
{
    let k = s.cursor;
    let i = inserted(s.text, k as int, c);
    lemma_insert_then_delete(s.text, k as int, c);
    lemma_run_three(s, DocCall::InsertChar(c), DocCall::MoveLeft, DocCall::DeleteForward);
    lemma_step_facts(s, c);
    let t1 = doc_step(s, DocCall::InsertChar(c));
    assert(t1.text == i && t1.cursor == k + 1);
    lemma_step_facts(t1, c);
    let t2 = doc_step(t1, DocCall::MoveLeft);
    lemma_step_facts(t2, c);
    assert(t2.text == i && t2.cursor == k);
    let t3 = doc_step(t2, DocCall::DeleteForward);
    assert(t3.text == s.text && t3.cursor == k && t3.lines == split_lines(s.text));
    assert(i.take(k as int) =~= s.text.take(k as int));
}

proof fn lemma_step_facts(s: DocumentState, c: char)
    ensures
        doc_step(s, DocCall::InsertChar(c)) == edited(s, inserted(s.text, s.cursor as int, c), s.cursor + 1, true),
        s.cursor > 0 ==> doc_step(s, DocCall::MoveLeft) == moved_to(s, (s.cursor - 1) as nat),
        s.cursor < s.text.len() ==> doc_step(s, DocCall::DeleteForward) == edited(
            s,
            s.text.remove(s.cursor as int),
            s.cursor,
            true,
        ),
        s.cursor >= s.text.len() ==> doc_step(s, DocCall::DeleteForward) == s,
        s.cursor > 0 ==> doc_step(s, DocCall::DeleteChar) == edited(
            s,
            s.text.remove(s.cursor - 1),
            (s.cursor - 1) as nat,
            true,
        ),
{
    reveal(doc_step);
}

proof fn lemma_run_three(s: DocumentState, a: DocCall, b: DocCall, d: DocCall)
    ensures
        doc_run(s, seq![a, b, d]) == doc_step(doc_step(doc_step(s, a), b), d),
{
    let c1 = seq![a];
    let c2 = seq![a, b];
    let c3 = seq![a, b, d];
    assert(c1.drop_last() =~= Seq::<DocCall>::empty());
    assert(c2.drop_last() =~= c1);
    assert(c3.drop_last() =~= c2);
    assert(doc_run(s, Seq::<DocCall>::empty()) == s);
    assert(c1.last() == a && c2.last() == b && c3.last() == d);
    assert(doc_run(s, c1) == doc_step(s, a));
    assert(doc_run(s, c2) == doc_step(doc_step(s, a), b));
}

proof fn lemma_line_start_prefix(s: Seq<char>, n: int, k: int)
    requires
        0 <= k <= n <= s.len(),
    ensures
        line_start(s.take(n), k) == line_start(s, k),
    decreases k,
{
    if k > 0 {
        assert(s.take(n)[k - 1] == s[k - 1]);
        lemma_line_start_prefix(s, n, k - 1);
    }
}

proof fn lemma_line_start_same(s: Seq<char>, p: int, e: int)
    requires
        0 <= p <= e <= s.len(),
        forall|j: int| p <= j < e ==> s[j] != '\n',
    ensures
        line_start(s, e) == line_start(s, p),
    decreases e - p,
{
    if e > p {
        lemma_line_start_same(s, p, e - 1);
    }
}

proof fn lemma_newlines_same(s: Seq<char>, p: int, e: int)
    requires
        0 <= p <= e <= s.len(),
        forall|j: int| p <= j < e ==> s[j] != '\n',
    ensures
        count_newlines(s.take(e)) == count_newlines(s.take(p)),
{
    let t = s.take(e);
    lemma_count_newlines_split(t, p);
    assert(t.take(p) =~= s.take(p));
    assert forall|j: int| 0 <= j < t.skip(p).len() implies t.skip(p)[j] != '\n' by {
        assert(t.skip(p)[j] == s[p + j]);
    }
    lemma_no_newline_count(t.skip(p));
}

/// The last line of a text is what follows its last newline.
proof fn lemma_last_line(t: Seq<char>)
    ensures
        split_lines(t).last() == t.skip(line_start(t, t.len() as int)),
    decreases t.len(),
{
    lemma_split_lines_len(t);
    if t.len() == 0 {
        assert(t.skip(0) =~= Seq::<char>::empty());
    } else {
        let u = t.drop_last();
        lemma_split_lines_len(u);
        if t.last() == '\n' {
            assert(t.skip(t.len() as int) =~= Seq::<char>::empty());
        } else {
            lemma_last_line(u);
            lemma_line_start_bounds(u, u.len() as int);
            assert(u =~= t.take(u.len() as int));
            lemma_line_start_prefix(t, u.len() as int, u.len() as int);
            let ls = line_start(t, u.len() as int);
            assert(t.skip(ls) =~= u.skip(ls).push(t.last()));
        }
    }
}

/// Lines already ended by a newline within the first `n` characters stay
/// as they are however the text goes on.
proof fn lemma_finished_lines(s: Seq<char>, n: int, m: int, i: int)
    requires
        0 <= n <= m <= s.len(),
        0 <= i < count_newlines(s.take(n)),
    ensures
        split_lines(s.take(m))[i] == split_lines(s.take(n))[i],
    decreases m - n,
{
    if m > n {
        lemma_finished_lines(s, n, m - 1, i);
        let t = s.take(m);
        assert(t.drop_last() =~= s.take(m - 1));
        lemma_split_lines_len(s.take(m - 1));
        lemma_count_newlines_split(s.take(m - 1), n);
        assert(s.take(m - 1).take(n) =~= s.take(n));
    }
}

/// Line `count_newlines(s.take(p))` of the text, the one holding position
/// `p`, runs from the start to the end of that position's line.
pub proof fn lemma_line_of_position(s: Seq<char>, p: int)
    requires
        0 <= p <= s.len(),
    ensures
        split_lines(s)[count_newlines(s.take(p)) as int] == s.subrange(line_start(s, p), line_end(s, p)),
{
    let e = line_end(s, p);
    lemma_line_end_bounds(s, p);
    lemma_line_start_bounds(s, p);
    lemma_line_start_same(s, p, e);
    lemma_newlines_same(s, p, e);
    let l = count_newlines(s.take(p)) as int;
    let te = s.take(e);
    lemma_last_line(te);
    lemma_split_lines_len(te);
    lemma_line_start_prefix(s, e, e);
    assert(te.skip(line_start(s, p)) =~= s.subrange(line_start(s, p), e));
    if e < s.len() {
        let t1 = s.take(e + 1);
        assert(t1.drop_last() =~= te);
        assert(t1.last() == '\n');
        lemma_finished_lines(s, e + 1, s.len() as int, l);
        assert(s.take(s.len() as int) =~= s);
    } else {
        assert(te =~= s);
    }
}

/// Moving down keeps the column: from column `c` of a line that is not the
/// last, the cursor goes to the next line, at column `c` or at the end of
/// that line where it is shorter; on the last line it stays.
pub proof fn lemma_down_keeps_column(s: Seq<char>, k: int)
    requires
        0 <= k <= s.len(),
    ensures
        ({
            let l = count_newlines(s.take(k)) as int;
            let p = position_below(s, k);
            let col = k - line_start(s, k);
            let below = split_lines(s)[l + 1].len() as int;
            &&& 0 <= p <= s.len()
            &&& l + 1 < split_lines(s).len() ==> count_newlines(s.take(p)) == l + 1 && p - line_start(s, p) == (if col < below {
                col
            } else {
                below
            })
            &&& l + 1 >= split_lines(s).len() ==> p == k
        }),
{
    lemma_split_lines_len(s);
    lemma_line_end_last(s, k);
    lemma_line_end_bounds(s, k);
    lemma_line_start_bounds(s, k);
    let l = count_newlines(s.take(k)) as int;
    let le = line_end(s, k);
    if le < s.len() {
        let q = le + 1;
        lemma_line_end_bounds(s, q);
        lemma_newlines_same(s, k, le);
        let tq = s.take(q);
        assert(tq.drop_last() =~= s.take(le));
        assert(count_newlines(tq) == l + 1);
        assert(line_start(s, q) == q);
        lemma_line_of_position(s, q);
        let p = position_below(s, k);
        lemma_newlines_same(s, q, p);
        lemma_line_start_same(s, q, p);
    }
}

proof fn lemma_line_end_at(s: Seq<char>, i: int, e: int)
    requires
        0 <= i <= e < s.len(),
        s[e] == '\n',
        forall|j: int| i <= j < e ==> s[j] != '\n',
    ensures
        line_end(s, i) == e,
    decreases e - i,
{
    if i < e {
        lemma_line_end_at(s, i + 1, e);
    }
}

/// Moving up keeps the column: from column `c` of a line that is not the
/// first, the cursor goes to the line above, at column `c` or at the end of
/// that line where it is shorter; on the first line it stays.
pub proof fn lemma_up_keeps_column(s: Seq<char>, k: int)
    requires
        0 <= k <= s.len(),
    ensures
        ({
            let l = count_newlines(s.take(k)) as int;
            let p = position_above(s, k);
            let col = k - line_start(s, k);
            let above = split_lines(s)[l - 1].len() as int;
            &&& 0 <= p <= s.len()
            &&& l > 0 ==> count_newlines(s.take(p)) == l - 1 && p - line_start(s, p) == (if col < above {
                col
            } else {
                above
            })
            &&& l == 0 ==> p == k
        }),
{
    lemma_split_lines_len(s);
    lemma_line_start_zero(s, k);
    lemma_line_start_bounds(s, k);
    let l = count_newlines(s.take(k)) as int;
    let ls = line_start(s, k);
    if ls > 0 {
        let pls = line_start(s, ls - 1);
        lemma_line_start_bounds(s, ls - 1);
        lemma_newlines_same(s, ls, k);
        let t = s.take(ls);
        assert(t.drop_last() =~= s.take(ls - 1));
        assert(count_newlines(s.take(ls - 1)) == l - 1);
        lemma_newlines_same(s, pls, ls - 1);
        lemma_line_end_at(s, pls, ls - 1);
        lemma_line_of_position(s, pls);
        assert(line_start(s, pls) == pls) by {
            if pls > 0 {
                assert(s[pls - 1] == '\n');
            }
        }
        let p = position_above(s, k);
        lemma_newlines_same(s, pls, p);
        lemma_line_start_same(s, pls, p);
    }
}

/// Home and End go to the ends of the cursor's line: Home to just after
/// the last newline before the cursor (or the start of the text), End to
/// the first newline at or after it (or the end of the text); the cursor
/// stays on its line, and what lies between is that line of the text.
pub proof fn lemma_home_end_bound_the_line(s: Seq<char>, k: int)
    requires
        0 <= k <= s.len(),
    ensures
        ({
            let h = line_start(s, k);
            let e = line_end(s, k);
            &&& 0 <= h <= k <= e <= s.len()
            &&& h == 0 || s[h - 1] == '\n'
            &&& e == s.len() || s[e] == '\n'
            &&& forall|j: int| h <= j < e ==> s[j] != '\n'
            &&& count_newlines(s.take(h)) == count_newlines(s.take(k))
            &&& count_newlines(s.take(e)) == count_newlines(s.take(k))
            &&& s.subrange(h, e) == split_lines(s)[count_newlines(s.take(k)) as int]
        }),
{
    lemma_line_start_bounds(s, k);
    lemma_line_end_bounds(s, k);
    let h = line_start(s, k);
    let e = line_end(s, k);
    lemma_newlines_same(s, h, k);
    lemma_newlines_same(s, k, e);
    lemma_line_of_position(s, k);
}

/// A text document edited through a cursor, kept split into lines.
#[derive(Debug, Clone)]
pub struct WritingDocument {
    text: String,
    chars: Vec<char>,
    cursor_position: usize,
    cursor_index: usize,
    scroll_offset: usize,
    dirty: bool,
    lines: Vec<String>,
    visible_lines: usize,
    file_path: Option<String>,
}

impl View for WritingDocument {
    type V = DocumentState;

    closed spec fn view(&self) -> DocumentState {
        DocumentState {
            text: self.chars@,
            cursor: self.cursor_index as nat,
            cursor_bytes: self.cursor_position,
            scroll_offset: self.scroll_offset,
            dirty: self.dirty,
            lines: self.lines@.map_values(|l: String| l@),
            visible_lines: self.visible_lines,
            file_path: match self.file_path {
                Some(p) => Some(p@),
                None => None,
            },
        }
    }
}

proof fn lemma_line_start_bounds(s: Seq<char>, k: int)
    requires
        0 <= k <= s.len(),
    ensures
        0 <= line_start(s, k) <= k,
        line_start(s, k) > 0 ==> s[line_start(s, k) - 1] == '\n',
        forall|j: int| line_start(s, k) <= j < k ==> s[j] != '\n',
    decreases k,
{
    if k > 0 && s[k - 1] != '\n' {
        lemma_line_start_bounds(s, k - 1);
    }
}

proof fn lemma_line_end_bounds(s: Seq<char>, i: int)
    requires
        0 <= i <= s.len(),
    ensures
        i <= line_end(s, i) <= s.len(),
        line_end(s, i) < s.len() ==> s[line_end(s, i)] == '\n',
        forall|j: int| i <= j < line_end(s, i) ==> s[j] != '\n',
    decreases s.len() - i,
{
    if i < s.len() && s[i] != '\n' {
        lemma_line_end_bounds(s, i + 1);
    }
}

/// The line of a position is the number of newlines before it; it is the
/// first line exactly when no newline precedes the position.
pub proof fn lemma_line_start_zero(s: Seq<char>, k: int)
    requires
        0 <= k <= s.len(),
    ensures
        (line_start(s, k) == 0) == (count_newlines(s.take(k)) == 0),
    decreases k,
{
    if k > 0 {
        assert(s.take(k).drop_last() =~= s.take(k - 1));
        assert(s.take(k).last() == s[k - 1]);
        if s[k - 1] != '\n' {
            lemma_line_start_zero(s, k - 1);
        }
    }
}

/// There is a line below the cursor exactly when a newline follows it.
pub proof fn lemma_line_end_last(s: Seq<char>, k: int)
    requires
        0 <= k <= s.len(),
    ensures
        (line_end(s, k) < s.len()) == (count_newlines(s.take(k)) < count_newlines(s)),
{
    lemma_count_newlines_split(s, k);
    lemma_line_end_bounds(s, k);
    if line_end(s, k) < s.len() {
        let e = line_end(s, k);
        lemma_count_newlines_split(s.skip(k), e - k + 1);
        assert(s.skip(k).take(e - k + 1).last() == '\n');
        assert(s.skip(k).take(e - k + 1).drop_last() =~= s.skip(k).take(e - k));
    } else {
        lemma_no_newline_count(s.skip(k));
    }
}

proof fn lemma_no_newline_count(s: Seq<char>)
    requires
        forall|j: int| 0 <= j < s.len() ==> s[j] != '\n',
    ensures
        count_newlines(s) == 0,
    decreases s.len(),
{
    if s.len() > 0 {
        lemma_no_newline_count(s.drop_last());
    }
}

proof fn lemma_count_newlines_split(s: Seq<char>, k: int)
    requires
        0 <= k <= s.len(),
    ensures
        count_newlines(s) == count_newlines(s.take(k)) + count_newlines(s.skip(k)),
    decreases s.len() - k,
{
    if k == s.len() {
        assert(s.take(k) =~= s);
        assert(s.skip(k) =~= Seq::<char>::empty());
    } else {
        lemma_count_newlines_split(s.drop_last(), if k < s.len() - 1 { k } else { k });
        if k <= s.len() - 1 {
            assert(s.drop_last().take(k) =~= s.take(k));
            assert(s.skip(k).drop_last() =~= s.drop_last().skip(k));
            assert(s.skip(k).last() == s.last());
        }
    }
}

impl WritingDocument {
    /// The document's invariant: the string and the characters agree, the
    /// cursor sits on a character boundary inside the text, and the lines
    /// are the text split at its newlines.
    pub closed spec fn wf(&self) -> bool {
        &&& self.text@ == self.chars@
        &&& self.cursor_index <= self.chars@.len()
        &&& self.cursor_position == byte_len(self.chars@.take(self.cursor_index as int))
        &&& byte_len(self.chars@) < usize::MAX
        &&& self.lines@.map_values(|l: String| l@) == split_lines(self.chars@)
    }

    /// What the invariant tells about the state.
    pub proof fn lemma_wf(&self)
        requires
            self.wf(),
        ensures
            self@.cursor <= self@.text.len(),
            self@.cursor_bytes == byte_len(self@.text.take(self@.cursor as int)),
            byte_len(self@.text) <= usize::MAX,
            self@.lines == split_lines(self@.text),
    {
    }

    /// An empty document: one empty line, cursor at 0, six visible lines,
    /// no file.
    pub fn new() -> (d: Self)
        ensures
            d.wf(),
            d@.text == Seq::<char>::empty(),
            d@.cursor == 0,
            d@.cursor_bytes == 0,
            d@.scroll_offset == 0,
            !d@.dirty,
            d@.lines == seq![Seq::<char>::empty()],
            d@.visible_lines == 6,
            d@.file_path is None,
    {
        let mut lines: Vec<String> = Vec::new();
        lines.push(String::new());
        let d = Self {
            text: String::new(),
            chars: Vec::new(),
            cursor_position: 0,
            cursor_index: 0,
            scroll_offset: 0,
            dirty: false,
            lines,
            visible_lines: 6,
            file_path: None,
        };
        proof {
            assert(d.chars@.take(0) =~= Seq::<char>::empty());
            assert(vstd::utf8::encode_utf8(Seq::<char>::empty()) =~= Seq::<u8>::empty());
            assert(d.lines@.map_values(|l: String| l@) =~= seq![Seq::<char>::empty()]);
        }
        d
    }

    /// Rebuilds the string and the lines from the characters.
    fn update_lines(&mut self)
        ensures
            final(self).text@ == final(self).chars@,
            final(self).chars@ == old(self).chars@,
            final(self).lines@.map_values(|l: String| l@) == split_lines(old(self).chars@),
            final(self).cursor_position == old(self).cursor_position,
            final(self).cursor_index == old(self).cursor_index,
            final(self).scroll_offset == old(self).scroll_offset,
            final(self).dirty == old(self).dirty,
            final(self).visible_lines == old(self).visible_lines,
            final(self).file_path == old(self).file_path,
    {
        let mut text = String::new();
        let mut lines: Vec<String> = Vec::new();
        let mut current = String::new();
        let mut i: usize = 0;
        let n = self.chars.len();
        proof {
            assert(self.chars@.take(0) =~= Seq::<char>::empty());
            assert(lines@.map_values(|l: String| l@).push(current@) =~= split_lines(Seq::<char>::empty()));
        }
        while i < n
            invariant
                n == self.chars@.len(),
                i <= n,
                text@ == self.chars@.take(i as int),
                lines@.map_values(|l: String| l@).push(current@) == split_lines(self.chars@.take(i as int)),
            decreases n - i,
        {
            let c = self.chars[i];
            push_char(&mut text, c);
            let ghost prev = split_lines(self.chars@.take(i as int));
            let ghost before = lines@.map_values(|l: String| l@);
            proof {
                assert(self.chars@.take(i + 1).drop_last() =~= self.chars@.take(i as int));
                assert(self.chars@.take(i + 1).last() == c);
                assert(self.chars@.take(i + 1) =~= self.chars@.take(i as int).push(c));
            }
            if c == '\n' {
                let done = current;
                lines.push(done);
                current = String::new();
                proof {
                    assert(lines@.map_values(|l: String| l@) =~= before.push(done@));
                    assert(lines@.map_values(|l: String| l@).push(current@) =~= prev.push(Seq::<char>::empty()));
                }
            } else {
                let ghost cur0 = current@;
                push_char(&mut current, c);
                proof {
                    assert(lines@.map_values(|l: String| l@) =~= before);
                    assert(prev.last() == before.push(cur0).last());
                    assert(lines@.map_values(|l: String| l@).push(current@) =~= prev.update(
                        prev.len() - 1,
                        prev.last().push(c),
                    ));
                }
            }
            i = i + 1;
        }
        lines.push(current);
        proof {
            assert(self.chars@.take(n as int) =~= self.chars@);
        }
        self.text = text;
        self.lines = lines;
    }

    /// Inserts `c` at the cursor and moves the cursor past it; a newline
    /// starts a new line. The document becomes dirty.
    pub fn insert_char(&mut self, c: char)
        requires
            old(self).wf(),
            byte_len(old(self)@.text) + 4 < usize::MAX,
        ensures
            final(self).wf(),
            final(self)@ == edited(
                old(self)@,
                inserted(old(self)@.text, old(self)@.cursor as int, c),
                old(self)@.cursor + 1,
                true,
            ),
            final(self)@ == doc_step(old(self)@, DocCall::InsertChar(c)),
    {
        proof {
            reveal(doc_step);
        }
        if c == '\n' {
            self.insert_newline();
        } else {
            self.insert_at_cursor(c);
            self.update_lines();
        }
    }

    /// Inserts a newline at the cursor and moves the cursor past it. The
    /// document becomes dirty.
    pub fn insert_newline(&mut self)
        requires
            old(self).wf(),
            byte_len(old(self)@.text) + 4 < usize::MAX,
        ensures
            final(self).wf(),
            final(self)@ == edited(
                old(self)@,
                inserted(old(self)@.text, old(self)@.cursor as int, '\n'),
                old(self)@.cursor + 1,
                true,
            ),
            final(self)@ == doc_step(old(self)@, DocCall::InsertNewline),
    {
        proof {
            reveal(doc_step);
        }
        self.insert_at_cursor('\n');
        self.update_lines();
    }

    fn insert_at_cursor(&mut self, c: char)
        requires
            old(self).wf(),
            byte_len(old(self)@.text) + 4 < usize::MAX,
        ensures
            final(self).chars@ == inserted(old(self).chars@, old(self).cursor_index as int, c),
            final(self).cursor_index == old(self).cursor_index + 1,
            final(self).cursor_position == byte_len(final(self).chars@.take(final(self).cursor_index as int)),
            byte_len(final(self).chars@) < usize::MAX,
            final(self).dirty,
            final(self).scroll_offset == old(self).scroll_offset,
            final(self).visible_lines == old(self).visible_lines,
            final(self).file_path == old(self).file_path,
    {
        let ghost s = self.chars@;
        let k = self.cursor_index;
        self.chars.insert(k, c);
        let n = self.chars.len();
        let w = char_len_utf8(c);
        proof {
            let t = inserted(s, k as int, c);
            assert(self.chars@ =~= t);
            assert(t.take(k + 1) =~= s.take(k as int) + seq![c]);
            lemma_byte_len_concat(s.take(k as int), seq![c]);
            lemma_byte_len_single(c);
            assert(t =~= (s.take(k as int) + seq![c]) + s.skip(k as int));
            assert(s =~= s.take(k as int) + s.skip(k as int));
            lemma_byte_len_concat(s.take(k as int) + seq![c], s.skip(k as int));
            lemma_byte_len_concat(s.take(k as int), s.skip(k as int));
        }
        self.cursor_position = self.cursor_position + w;
        self.cursor_index = k + 1;
        self.dirty = true;
    }

    /// Backspace: removes the character before the cursor, if any, and
    /// moves the cursor back over it; the document becomes dirty when
    /// something was removed.
    pub fn delete_char(&mut self)
        requires
            old(self).wf(),
        ensures
            final(self).wf(),
            old(self)@.cursor > 0 ==> final(self)@ == edited(
                old(self)@,
                old(self)@.text.remove(old(self)@.cursor - 1),
                (old(self)@.cursor - 1) as nat,
                true,
            ),
            old(self)@.cursor == 0 ==> final(self)@ == old(self)@,
            final(self)@ == doc_step(old(self)@, DocCall::DeleteChar),
    {
        proof {
            reveal(doc_step);
        }
        if self.cursor_index > 0 {
            let ghost s = self.chars@;
            let k = self.cursor_index - 1;
            let c = self.chars.remove(k);
            proof {
                lemma_byte_len_take_step(s, k as int);
                assert(self.chars@.take(k as int) =~= s.take(k as int));
                assert(s =~= s.take(k as int) + seq![c] + s.skip(k + 1));
                assert(self.chars@ =~= s.take(k as int) + s.skip(k + 1));
                lemma_byte_len_concat(s.take(k as int) + seq![c], s.skip(k + 1));
                lemma_byte_len_concat(s.take(k as int), s.skip(k + 1));
                lemma_byte_len_concat(s.take(k as int), seq![c]);
                assert(c == s[k as int]);
                assert(byte_len(self.chars@) < usize::MAX);
                assert(self.cursor_position == byte_len(s.take(k as int)) + utf8_width(c));
            }
            self.cursor_position = self.cursor_position - char_len_utf8(c);
            self.cursor_index = k;
            self.dirty = true;
            self.update_lines();
            proof {
                assert(self.cursor_position == byte_len(self.chars@.take(k as int)));
                assert(self.cursor_index <= self.chars@.len());
            }
        }
    }

    /// Delete: removes the character after the cursor, if any. The cursor
    /// stays; the document becomes dirty when something was removed.
    pub fn delete_forward(&mut self)
        requires
            old(self).wf(),
        ensures
            final(self).wf(),
            old(self)@.cursor < old(self)@.text.len() ==> final(self)@ == edited(
                old(self)@,
                old(self)@.text.remove(old(self)@.cursor as int),
                old(self)@.cursor,
                true,
            ),
            old(self)@.cursor == old(self)@.text.len() ==> final(self)@ == old(self)@,
            final(self)@ == doc_step(old(self)@, DocCall::DeleteForward),
    {
        proof {
            reveal(doc_step);
        }
        let n = self.chars.len();
        if self.cursor_index < n {
            let ghost s = self.chars@;
            let k = self.cursor_index;
            let c = self.chars.remove(k);
            proof {
                assert(self.chars@.take(k as int) =~= s.take(k as int));
                assert(s =~= s.take(k as int) + seq![c] + s.skip(k + 1));
                assert(self.chars@ =~= s.take(k as int) + s.skip(k + 1));
                lemma_byte_len_concat(s.take(k as int) + seq![c], s.skip(k + 1));
                lemma_byte_len_concat(s.take(k as int), s.skip(k + 1));
                lemma_byte_len_concat(s.take(k as int), seq![c]);
            }
            self.dirty = true;
            self.update_lines();
        } else {
            proof {
                lemma_byte_len_full(self.chars@);
            }
        }
    }

    /// Moves the cursor to the start of the previous character, if any.
    pub fn move_cursor_left(&mut self)
        requires
            old(self).wf(),
        ensures
            final(self).wf(),
            old(self)@.cursor > 0 ==> final(self)@ == moved_to(old(self)@, (old(self)@.cursor - 1) as nat),
            old(self)@.cursor == 0 ==> final(self)@ == old(self)@,
            final(self)@ == doc_step(old(self)@, DocCall::MoveLeft),
    {
        proof {
            reveal(doc_step);
        }
        if self.cursor_index > 0 {
            let k = self.cursor_index - 1;
            proof {
                lemma_byte_len_take_step(self.chars@, k as int);
            }
            self.cursor_position = self.cursor_position - char_len_utf8(self.chars[k]);
            self.cursor_index = k;
        }
    }

    /// Moves the cursor past the next character, if any.
    pub fn move_cursor_right(&mut self)
        requires
            old(self).wf(),
        ensures
            final(self).wf(),
            old(self)@.cursor < old(self)@.text.len() ==> final(self)@ == moved_to(
                old(self)@,
                old(self)@.cursor + 1,
            ),
            old(self)@.cursor == old(self)@.text.len() ==> final(self)@ == old(self)@,
            final(self)@ == doc_step(old(self)@, DocCall::MoveRight),
    {
        proof {
            reveal(doc_step);
        }
        if self.cursor_index < self.chars.len() {
            let k = self.cursor_index;
            proof {
                lemma_byte_len_take_step(self.chars@, k as int);
                lemma_byte_len_take_mono(self.chars@, k + 1, self.chars@.len() as int);
                lemma_byte_len_full(self.chars@);
            }
            self.cursor_position = self.cursor_position + char_len_utf8(self.chars[k]);
            self.cursor_index = k + 1;
        }
    }

    fn set_cursor_index(&mut self, k: usize)
        requires
            old(self).wf(),
            k <= old(self).chars@.len(),
        ensures
            final(self).wf(),
            final(self)@ == moved_to(old(self)@, k as nat),
    {
        proof {
            lemma_byte_len_take_mono(self.chars@, k as int, self.chars@.len() as int);
            lemma_byte_len_full(self.chars@);
        }
        self.cursor_position = prefix_byte_len(&self.chars, k);
        self.cursor_index = k;
    }

    fn find_line_start(&self, k: usize) -> (r: usize)
        requires
            k <= self.chars@.len(),
        ensures
            r == line_start(self.chars@, k as int),
    {
        let mut i = k;
        while i > 0 && self.chars[i - 1] != '\n'
            invariant
                i <= k,
                k <= self.chars@.len(),
                line_start(self.chars@, k as int) == line_start(self.chars@, i as int),
            decreases i,
        {
            i = i - 1;
        }
        i
    }

    fn find_line_end(&self, i: usize) -> (r: usize)
        requires
            i <= self.chars@.len(),
        ensures
            r == line_end(self.chars@, i as int),
    {
        let n = self.chars.len();
        let mut j = i;
        while j < n && self.chars[j] != '\n'
            invariant
                i <= j <= n,
                n == self.chars@.len(),
                line_end(self.chars@, i as int) == line_end(self.chars@, j as int),
            decreases n - j,
        {
            j = j + 1;
        }
        j
    }

    /// Moves the cursor one line up, to the same column or the end of the
    /// line above if that is shorter. Nothing happens on the first line.
    pub fn move_cursor_up(&mut self)
        requires
            old(self).wf(),
        ensures
            final(self).wf(),
            final(self)@ == moved_to(
                old(self)@,
                position_above(old(self)@.text, old(self)@.cursor as int) as nat,
            ),
            final(self)@ == doc_step(old(self)@, DocCall::MoveUp),
    {
        proof {
            reveal(doc_step);
        }
        let k = self.cursor_index;
        let ls = self.find_line_start(k);
        proof {
            lemma_line_start_bounds(self.chars@, k as int);
        }
        if ls > 0 {
            let pls = self.find_line_start(ls - 1);
            proof {
                lemma_line_start_bounds(self.chars@, ls - 1);
            }
            let col = k - ls;
            let plen = (ls - 1) - pls;
            let target = pls + if col < plen {
                col
            } else {
                plen
            };
            self.set_cursor_index(target);
        } else {
            self.set_cursor_index(k);
        }
    }

    /// Moves the cursor one line down, to the same column or the end of the
    /// line below if that is shorter. Nothing happens on the last line.
    pub fn move_cursor_down(&mut self)
        requires
            old(self).wf(),
        ensures
            final(self).wf(),
            final(self)@ == moved_to(
                old(self)@,
                position_below(old(self)@.text, old(self)@.cursor as int) as nat,
            ),
            final(self)@ == doc_step(old(self)@, DocCall::MoveDown),
    {
        proof {
            reveal(doc_step);
        }
        let k = self.cursor_index;
        let le = self.find_line_end(k);
        proof {
            lemma_line_end_bounds(self.chars@, k as int);
        }
        if le < self.chars.len() {
            let ls = self.find_line_start(k);
            proof {
                lemma_line_start_bounds(self.chars@, k as int);
            }
            let q = le + 1;
            let nle = self.find_line_end(q);
            proof {
                lemma_line_end_bounds(self.chars@, q as int);
            }
            let col = k - ls;
            let nlen = nle - q;
            let target = q + if col < nlen {
                col
            } else {
                nlen
            };
            self.set_cursor_index(target);
        } else {
            self.set_cursor_index(k);
        }
    }

    /// Moves the cursor to the start of its line.
    pub fn move_cursor_home(&mut self)
        requires
            old(self).wf(),
        ensures
            final(self).wf(),
            final(self)@ == moved_to(old(self)@, line_start(old(self)@.text, old(self)@.cursor as int) as nat),
            final(self)@ == doc_step(old(self)@, DocCall::MoveHome),
    {
        proof {
            reveal(doc_step);
        }
        let k = self.cursor_index;
        let ls = self.find_line_start(k);
        proof {
            lemma_line_start_bounds(self.chars@, k as int);
        }
        self.set_cursor_index(ls);
    }

    /// Moves the cursor to the end of its line.
    pub fn move_cursor_end(&mut self)
        requires
            old(self).wf(),
        ensures
            final(self).wf(),
            final(self)@ == moved_to(old(self)@, line_end(old(self)@.text, old(self)@.cursor as int) as nat),
            final(self)@ == doc_step(old(self)@, DocCall::MoveEnd),
    {
        proof {
            reveal(doc_step);
        }
        let k = self.cursor_index;
        let le = self.find_line_end(k);
        proof {
            lemma_line_end_bounds(self.chars@, k as int);
        }
        self.set_cursor_index(le);
    }

    /// The index of the cursor's line: the number of newlines before it.
    pub fn get_current_line_index(&self) -> (l: usize)
        requires
            self.wf(),
        ensures
            l == count_newlines(self@.text.take(self@.cursor as int)),
            l <= self@.cursor,
    {
        let k = self.cursor_index;
        let mut count: usize = 0;
        let mut i: usize = 0;
        proof {
            assert(self.chars@.take(0) =~= Seq::<char>::empty());
        }
        while i < k
            invariant
                i <= k,
                k <= self.chars@.len(),
                count == count_newlines(self.chars@.take(i as int)),
                count <= i,
            decreases k - i,
        {
            proof {
                assert(self.chars@.take(i + 1).drop_last() =~= self.chars@.take(i as int));
                assert(self.chars@.take(i + 1).last() == self.chars@[i as int]);
            }
            if self.chars[i] == '\n' {
                count = count + 1;
            }
            i = i + 1;
        }
        count
    }

    /// The cursor's column: the number of characters between the start of
    /// its line and the cursor.
    pub fn get_cursor_column(&self) -> (c: usize)
        requires
            self.wf(),
        ensures
            c == self@.cursor - line_start(self@.text, self@.cursor as int),
    {
        let k = self.cursor_index;
        let ls = self.find_line_start(k);
        proof {
            lemma_line_start_bounds(self.chars@, k as int);
        }
        k - ls
    }

    /// Scrolls the least amount that shows the cursor's line within the
    /// window of visible lines.
    pub fn ensure_cursor_visible(&mut self)
        requires
            old(self).wf(),
        ensures
            final(self).wf(),
            final(self)@ == (DocumentState {
                scroll_offset: scrolled_to(
                    old(self)@.scroll_offset as int,
                    old(self)@.visible_lines as int,
                    count_newlines(old(self)@.text.take(old(self)@.cursor as int)) as int,
                ) as usize,
                ..old(self)@
            }),
            final(self)@ == doc_step(old(self)@, DocCall::EnsureCursorVisible),
    {
        proof {
            reveal(doc_step);
        }
        let current_line = self.get_current_line_index();
        proof {
            if self.chars@.len() > 0 {
                lemma_byte_len_take_strict(self.chars@, 0, self.chars@.len() as int);
                lemma_byte_len_full(self.chars@);
            }
        }
        if current_line < self.scroll_offset {
            self.scroll_offset = current_line;
        } else if current_line - self.scroll_offset >= self.visible_lines {
            self.scroll_offset = current_line - self.visible_lines + 1;
        }
    }

    /// The whole text.
    pub fn get_text(&self) -> (t: &str)
        requires
            self.wf(),
        ensures
            t@ == self@.text,
    {
        self.text.as_str()
    }

    /// The text split into lines.
    pub fn get_lines(&self) -> (ls: &[String])
        ensures
            ls@.map_values(|l: String| l@) == self@.lines,
    {
        self.lines.as_slice()
    }

    /// The cursor as a byte offset into the text.
    pub fn get_cursor_position(&self) -> (p: usize)
        ensures
            p == self@.cursor_bytes,
    {
        self.cursor_position
    }

    pub fn get_scroll_offset(&self) -> (s: usize)
        ensures
            s == self@.scroll_offset,
    {
        self.scroll_offset
    }

    /// Lines of text shown at once.
    pub fn get_visible_lines(&self) -> (n: usize)
        ensures
            n == self@.visible_lines,
    {
        self.visible_lines
    }

    pub fn set_visible_lines(&mut self, visible_lines: usize)
        requires
            old(self).wf(),
        ensures
            final(self).wf(),
            final(self)@ == (DocumentState { visible_lines, ..old(self)@ }),
            final(self)@ == doc_step(old(self)@, DocCall::SetVisibleLines(visible_lines)),
    {
        proof {
            reveal(doc_step);
        }
        self.visible_lines = visible_lines;
    }

    pub fn is_dirty(&self) -> (b: bool)
        ensures
            b == self@.dirty,
    {
        self.dirty
    }

    /// Records that the text has been saved.
    pub fn mark_saved(&mut self)
        requires
            old(self).wf(),
        ensures
            final(self).wf(),
            final(self)@ == (DocumentState { dirty: false, ..old(self)@ }),
    {
        self.dirty = false;
    }

    pub fn get_file_path(&self) -> (p: Option<&str>)
        ensures
            match p {
                Some(s) => self@.file_path == Some(s@),
                None => self@.file_path is None,
            },
    {
        match &self.file_path {
            Some(p) => Some(p.as_str()),
            None => None,
        }
    }

    pub fn set_file_path(&mut self, path: String)
        requires
            old(self).wf(),
        ensures
            final(self).wf(),
            final(self)@ == (DocumentState { file_path: Some(path@), ..old(self)@ }),
            final(self)@ == doc_step(old(self)@, DocCall::SetFilePath(path@)),
    {
        proof {
            reveal(doc_step);
        }
        self.file_path = Some(path);
    }

    /// Replaces the text, putting the cursor and the view at the top and
    /// marking the document clean.
    pub fn load_text(&mut self, text: String)
        requires
            old(self).wf(),
            byte_len(text@) < usize::MAX,
        ensures
            final(self).wf(),
            final(self)@ == (DocumentState {
                text: text@,
                cursor: 0,
                cursor_bytes: 0,
                scroll_offset: 0,
                dirty: false,
                lines: split_lines(text@),
                ..old(self)@
            }),
    {
        let mut chars: Vec<char> = Vec::new();
        let ghost all = text@;
        let ts = text.as_str();
        let n = ts.unicode_len();
        let mut i: usize = 0;
        while i < n
            invariant
                i <= n,
                n == all.len(),
                ts@ == all,
                chars@ == all.take(i as int),
            decreases n - i,
        {
            let c = ts.get_char(i);
            chars.push(c);
            proof {
                assert(chars@ =~= all.take(i + 1));
            }
            i = i + 1;
        }
        proof {
            assert(all.take(n as int) =~= all);
            assert(chars@.take(0) =~= Seq::<char>::empty());
            assert(vstd::utf8::encode_utf8(Seq::<char>::empty()) =~= Seq::<u8>::empty());
        }
        self.chars = chars;
        self.cursor_position = 0;
        self.cursor_index = 0;
        self.scroll_offset = 0;
        self.dirty = false;
        self.update_lines();
    }
}

/// Inserting a character and deleting it again restores the text.
pub proof fn lemma_insert_then_delete(text: Seq<char>, k: int, c: char)
    requires
        0 <= k <= text.len(),
    ensures
        inserted(text, k, c).remove(k) == text,
        inserted(text, k, c)[k] == c,
        inserted(text, k, c).len() == text.len() + 1,
{
    assert(inserted(text, k, c).remove(k) =~= text);
}

/// The text has one line more than it has newlines, none of its lines holds
/// a newline, and the cursor's line is one of them.
pub proof fn lemma_lines_of_text(text: Seq<char>, k: int)
    requires
        0 <= k <= text.len(),
    ensures
        split_lines(text).len() == count_newlines(text) + 1,
        forall|i: int| 0 <= i < split_lines(text).len() ==> !(#[trigger] split_lines(text)[i]).contains('\n'),
        count_newlines(text.take(k)) < split_lines(text).len(),
        (count_newlines(text.take(k)) > 0) == (line_start(text, k) > 0),
        (count_newlines(text.take(k)) + 1 < split_lines(text).len()) == (line_end(text, k) < text.len()),
{
    lemma_split_lines_len(text);
    lemma_count_newlines_split(text, k);
    lemma_line_start_zero(text, k);
    lemma_line_start_bounds(text, k);
    lemma_line_end_last(text, k);
}

} // verus!
