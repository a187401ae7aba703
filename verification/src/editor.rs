use vstd::prelude::*;
use crate::action::Action;
use crate::browser::{file_name_of, path_file_name};
use crate::char_class::{is_whitespace, to_uppercase, uppercased, whitespace};
use crate::keys::Key;
use crate::utf8_text::{
    at_boundary, byte_len, index_at, insert_at_byte, lemma_byte_len_concat, prefix_byte_len, remove_at_byte,
    string_of,
};

verus! {

/// Top of the text area, in pixels.
pub const TOP_MARGIN: u32 = 25;

/// Top of the bottom bar, in pixels.
pub const BOTTOM_BAR_Y: u32 = 218;

/// Largest font size the keys reach.
pub const MAX_FONT_SIZE: u32 = 60;

/// Smallest font size the keys reach.
pub const MIN_FONT_SIZE: u32 = 10;

/// A line of the laid-out text: its text, the byte offset in the content
/// where it starts, its length in bytes, and whether a line break ends it.
pub struct VisualLine {
    pub text: String,
    pub start_index: usize,
    pub len: usize,
    pub is_hard_break: bool,
}

impl VisualLine {
    /// Byte offset just past the line's text.
    pub fn end_index(&self) -> (e: usize)
        requires
            self.start_index + self.len <= usize::MAX,
        ensures
            e == self.start_index + self.len,
    {
        self.start_index + self.len
    }
}

/// A laid-out line as plain values: text, start, length, hard break.
pub open spec fn line_view(l: VisualLine) -> (Seq<char>, int, int, bool) {
    (l.text@, l.start_index as int, l.len as int, l.is_hard_break)
}

/// A layout being built paragraph by paragraph and word by word: the lines
/// done, the line being filled, the byte offset where the paragraph starts
/// and that of the line being filled within it.
pub struct LayoutState {
    pub lines: Seq<(Seq<char>, int, int, bool)>,
    pub current: Seq<char>,
    pub para_start: int,
    pub line_rel: int,
}

/// The offsets stay below `usize::MAX` after `extra` more bytes.
pub open spec fn layout_room(s: LayoutState, extra: int) -> bool {
    s.para_start + s.line_rel + byte_len(s.current) + extra < usize::MAX
}

/// The layout after the next word of a paragraph, where `too_wide` says
/// whether the line being filled, with the word added, is wider than the
/// text area: then a line that holds something ends and the word starts
/// the next one; otherwise the word joins the line.
pub open spec fn word_placed(s: LayoutState, word: Seq<char>, too_wide: bool) -> LayoutState {
    if too_wide && s.current.len() > 0 {
        LayoutState {
            lines: s.lines.push((s.current, s.para_start + s.line_rel, byte_len(s.current) as int, false)),
            current: word,
            line_rel: s.line_rel + byte_len(s.current),
            ..s
        }
    } else {
        LayoutState { current: s.current + word, ..s }
    }
}

/// Lays text out in lines no wider than the text area, breaking after
/// spaces; the program measures each candidate line with the font.
pub struct LayoutBuilder {
    lines: Vec<VisualLine>,
    current: Vec<char>,
    current_bytes: usize,
    para_start: usize,
    line_rel: usize,
}

impl View for LayoutBuilder {
    type V = LayoutState;

    closed spec fn view(&self) -> LayoutState {
        LayoutState {
            lines: self.lines@.map_values(|l: VisualLine| line_view(l)),
            current: self.current@,
            para_start: self.para_start as int,
            line_rel: self.line_rel as int,
        }
    }
}

impl LayoutBuilder {
    pub closed spec fn wf(&self) -> bool {
        &&& self.current_bytes == byte_len(self.current@)
        &&& self.para_start + self.line_rel + self.current_bytes <= usize::MAX
    }

    /// Nothing laid out yet.
    pub fn new() -> (b: Self)
        ensures
            b.wf(),
            b@ == (LayoutState { lines: Seq::empty(), current: Seq::empty(), para_start: 0, line_rel: 0 }),
    {
        let b = Self { lines: Vec::new(), current: Vec::new(), current_bytes: 0, para_start: 0, line_rel: 0 };
        proof {
            assert(b.lines@.map_values(|l: VisualLine| line_view(l)) =~= Seq::empty());
            assert(vstd::utf8::encode_utf8(Seq::<char>::empty()) =~= Seq::<u8>::empty());
        }
        b
    }

    /// Byte offset where the current paragraph starts.
    pub fn paragraph_start(&self) -> (p: usize)
        ensures
            p == self@.para_start,
    {
        self.para_start
    }

    /// Whether `extra` more bytes keep the offsets below `usize::MAX`.
    pub fn has_room(&self, extra: usize) -> (b: bool)
        requires
            self.wf(),
        ensures
            b == layout_room(self@, extra as int),
    {
        extra < usize::MAX - (self.para_start + self.line_rel + self.current_bytes)
    }

    /// The line being filled with `word` added: what is to be measured.
    pub fn candidate(&self, word: &Vec<char>) -> (r: Vec<char>)
        ensures
            r@ == self@.current + word@,
    {
        let mut r = self.current.clone();
        let mut i: usize = 0;
        proof {
            assert(word@.take(0) =~= Seq::<char>::empty());
            assert(r@ =~= self.current@ + word@.take(0));
        }
        while i < word.len()
            invariant
                i <= word@.len(),
                r@ == self.current@ + word@.take(i as int),
            decreases word@.len() - i,
        {
            r.push(word[i]);
            i = i + 1;
            proof {
                assert(r@ =~= self.current@ + word@.take(i as int));
            }
        }
        proof {
            assert(word@.take(i as int) =~= word@);
        }
        r
    }

    /// Places the next word of a paragraph, given the width of the
    /// candidate line and that of the text area.
    pub fn add_word(&mut self, word: &Vec<char>, width: i32, max_width: i32)
        requires
            old(self).wf(),
            layout_room(old(self)@, byte_len(word@) as int),
        ensures
            final(self).wf(),
            final(self)@ == word_placed(old(self)@, word@, width > max_width),
    {
        let wb = prefix_byte_len(word, word.len());
        proof {
            assert(word@.take(word@.len() as int) =~= word@);
        }
        if width > max_width && self.current.len() > 0 {
            let len = self.current_bytes;
            let line = VisualLine {
                text: string_of(&self.current),
                start_index: self.para_start + self.line_rel,
                len,
                is_hard_break: false,
            };
            let ghost before = self.lines@;
            self.lines.push(line);
            proof {
                assert(self.lines@.map_values(|l: VisualLine| line_view(l)) =~= before.map_values(
                    |l: VisualLine| line_view(l),
                ).push(line_view(line)));
            }
            self.line_rel = self.line_rel + len;
            self.current = word.clone();
            proof {
                assert(self.current@ =~= word@);
            }
            self.current_bytes = wb;
        } else {
            let joined = self.candidate(word);
            proof {
                lemma_byte_len_concat(self.current@, word@);
            }
            self.current = joined;
            self.current_bytes = self.current_bytes + wb;
        }
    }

    /// Ends a paragraph of `para_len` bytes: the line being filled becomes
    /// the paragraph's last line, ended by a break unless the paragraph is
    /// the last; the next paragraph starts after it and its newline.
    pub fn end_paragraph(&mut self, para_len: usize, last: bool)
        requires
            old(self).wf(),
            layout_room(old(self)@, 0),
            old(self)@.para_start + para_len + 1 < usize::MAX,
        ensures
            final(self).wf(),
            final(self)@ == (LayoutState {
                lines: old(self)@.lines.push(
                    (
                        old(self)@.current,
                        old(self)@.para_start + old(self)@.line_rel,
                        byte_len(old(self)@.current) as int,
                        !last,
                    ),
                ),
                current: Seq::empty(),
                para_start: old(self)@.para_start + para_len + (if last {
                    0int
                } else {
                    1int
                }),
                line_rel: 0,
            }),
    {
        let line = VisualLine {
            text: string_of(&self.current),
            start_index: self.para_start + self.line_rel,
            len: self.current_bytes,
            is_hard_break: !last,
        };
        let ghost before = self.lines@;
        self.lines.push(line);
        proof {
            assert(self.lines@.map_values(|l: VisualLine| line_view(l)) =~= before.map_values(
                |l: VisualLine| line_view(l),
            ).push(line_view(line)));
        }
        self.para_start = self.para_start + para_len;
        if !last {
            self.para_start = self.para_start + 1;
        }
        self.line_rel = 0;
        self.current = Vec::new();
        self.current_bytes = 0;
        proof {
            assert(vstd::utf8::encode_utf8(Seq::<char>::empty()) =~= Seq::<u8>::empty());
        }
    }

    /// An empty paragraph: an empty line, ended by a break unless the
    /// paragraph is the last; the next paragraph starts one byte later.
    pub fn empty_paragraph(&mut self, last: bool)
        requires
            old(self).wf(),
            layout_room(old(self)@, 1),
        ensures
            final(self).wf(),
            final(self)@ == (LayoutState {
                lines: old(self)@.lines.push((Seq::empty(), old(self)@.para_start, 0, !last)),
                para_start: old(self)@.para_start + 1,
                ..old(self)@
            }),
    {
        let line = VisualLine {
            text: String::new(),
            start_index: self.para_start,
            len: 0,
            is_hard_break: !last,
        };
        let ghost before = self.lines@;
        self.lines.push(line);
        proof {
            assert(line.text@ =~= Seq::<char>::empty());
            assert(self.lines@.map_values(|l: VisualLine| line_view(l)) =~= before.map_values(
                |l: VisualLine| line_view(l),
            ).push(line_view(line)));
        }
        self.para_start = self.para_start + 1;
    }

    /// The lines laid out.
    pub fn finish(self) -> (ls: Vec<VisualLine>)
        ensures
            ls@.map_values(|l: VisualLine| line_view(l)) == self@.lines,
    {
        self.lines
    }
}

/// The cursor, at byte offset `cursor` of a content of `content_len`
/// bytes, is on the line that starts at `start` and has `len` bytes: within
/// it, or at its end where a break or the end of the content follows, or
/// the line is empty.
pub open spec fn cursor_on_line(cursor: int, content_len: int, start: int, len: int, hard_break: bool) -> bool {
    if start <= cursor < start + len {
        true
    } else if cursor == start + len {
        hard_break || len == 0 || cursor == content_len
    } else {
        false
    }
}

/// A line's offsets stay within `usize`.
pub open spec fn line_fits(l: VisualLine) -> bool {
    l.start_index + l.len <= usize::MAX
}

/// The first line of the layout that holds the cursor.
pub open spec fn line_of_cursor(cursor: int, content_len: int, layout: Seq<VisualLine>, n: int) -> Option<int>
    decreases n,
{
    if n <= 0 {
        None
    } else {
        match line_of_cursor(cursor, content_len, layout, n - 1) {
            Some(i) => Some(i),
            None => {
                let l = layout[n - 1];
                if cursor_on_line(cursor, content_len, l.start_index as int, l.len as int, l.is_hard_break) {
                    Some(n - 1)
                } else {
                    None
                }
            },
        }
    }
}

/// The first position whose width is nearest `target`.
pub open spec fn nearest(widths: Seq<i32>, target: int, n: int) -> int
    decreases n,
{
    if n <= 1 {
        0
    } else {
        let b = nearest(widths, target, n - 1);
        let d = |w: int| if w >= target { w - target } else { target - w };
        if d(widths[n - 1] as int) < d(widths[b] as int) {
            n - 1
        } else {
            b
        }
    }
}

/// Every width's distance to `target` fits in an `i32`, as the subtraction
/// and its absolute value need.
pub open spec fn distances_fit(widths: Seq<i32>, target: int) -> bool {
    forall|i: int| 0 <= i < widths.len() ==> i32::MIN < #[trigger] widths[i] - target <= i32::MAX
}

/// Among widths, the first one nearest `target_x` (0 for no widths).
pub fn closest_offset(prefix_widths: &Vec<i32>, target_x: i32) -> (best: usize)
    requires
        distances_fit(prefix_widths@, target_x as int),
    ensures
        prefix_widths@.len() > 0 ==> best == nearest(prefix_widths@, target_x as int, prefix_widths@.len() as int),
        prefix_widths@.len() > 0 ==> best < prefix_widths@.len(),
        prefix_widths@.len() == 0 ==> best == 0,
{
    let mut best: usize = 0;
    let mut min_diff: i32 = i32::MAX;
    let mut i: usize = 0;
    while i < prefix_widths.len()
        invariant
            i <= prefix_widths@.len(),
            distances_fit(prefix_widths@, target_x as int),
            i == 0 ==> best == 0 && min_diff == i32::MAX,
            i > 0 ==> best < i && best == nearest(prefix_widths@, target_x as int, i as int) && min_diff as int == (
                if prefix_widths@[best as int] >= target_x {
                    prefix_widths@[best as int] - target_x
                } else {
                    target_x - prefix_widths@[best as int]
                }),
        decreases prefix_widths@.len() - i,
    {
        let w = prefix_widths[i];
        proof {
            assert(i32::MIN < prefix_widths@[i as int] - target_x <= i32::MAX);
        }
        let d = w - target_x;
        let diff = if d >= 0 {
            d
        } else {
            -d
        };
        if diff < min_diff {
            min_diff = diff;
            best = i;
        }
        i = i + 1;
    }
    best
}

/// Words of `s`: the runs of non-whitespace characters, as
/// `str::split_whitespace` gives them.
pub open spec fn ws_words(s: Seq<char>) -> int
    decreases s.len(),
{
    if s.len() == 0 {
        0
    } else {
        ws_words(s.drop_last()) + if !whitespace(s.last()) && (s.len() == 1 || whitespace(s[s.len() - 2])) {
            1int
        } else {
            0int
        }
    }
}

/// Height of a line of text for a font size: 1.2 times the size, rounded
/// down.
pub open spec fn line_height(font_size: int) -> int {
    font_size * 6 / 5
}

/// Lines of text that fit above the bottom bar.
pub open spec fn visible_lines(font_size: int) -> int {
    (BOTTOM_BAR_Y - TOP_MARGIN) / line_height(font_size)
}

/// The editor's state: the file, its content, the cursor as a byte
/// offset, the first line shown, the horizontal place kept by vertical
/// moves, whether there are unsaved changes, and the font size.
pub struct EditorState {
    pub path: Seq<char>,
    pub content: Seq<char>,
    pub cursor_pos: int,
    pub scroll_line_offset: int,
    pub target_cursor_x: Option<i32>,
    pub is_dirty: bool,
    pub font_size: int,
}

/// What a key asks beyond the edit.
#[derive(Clone, Copy, Debug, PartialEq, Eq, Structural)]
pub enum EditorStep {
    Stay,
    Leave,
    /// Write the content to the file.
    Save,
    /// Move up (-1) or down (1): lay the text out and call `move_vertical`.
    Vertical(i32),
}

/// What a key does to the editor. Esc leaves; Ctrl-S asks for a save and
/// marks the text saved; Alt-+ (or Alt-=) and Alt-- change the font size
/// by two within 10 to 60; left and right move the cursor a byte; a
/// character goes in at the cursor, which moves a byte on; Backspace moves
/// the cursor a byte back and removes the character there. Editing and
/// horizontal moves forget the horizontal place kept.
pub open spec fn editor_after_key(st: EditorState, key: Key) -> (EditorState, EditorStep) {
    let n = byte_len(st.content);
    match key {
        Key::Esc => (st, EditorStep::Leave),
        Key::Ctrl(c) => if c == 's' {
            (EditorState { is_dirty: false, ..st }, EditorStep::Save)
        } else {
            (st, EditorStep::Stay)
        },
        Key::Alt(c) => if c == '+' || c == '=' {
            (if st.font_size < MAX_FONT_SIZE {
                EditorState { font_size: st.font_size + 2, ..st }
            } else {
                st
            }, EditorStep::Stay)
        } else if c == '-' {
            (if st.font_size > MIN_FONT_SIZE {
                EditorState { font_size: st.font_size - 2, ..st }
            } else {
                st
            }, EditorStep::Stay)
        } else {
            (st, EditorStep::Stay)
        },
        Key::Left => (EditorState {
            cursor_pos: if st.cursor_pos > 0 {
                st.cursor_pos - 1
            } else {
                st.cursor_pos
            },
            target_cursor_x: None,
            ..st
        }, EditorStep::Stay),
        Key::Right => (EditorState {
            cursor_pos: if st.cursor_pos < n {
                st.cursor_pos + 1
            } else {
                st.cursor_pos
            },
            target_cursor_x: None,
            ..st
        }, EditorStep::Stay),
        Key::Up => (st, EditorStep::Vertical(-1i32)),
        Key::Down => (st, EditorStep::Vertical(1i32)),
        Key::Char(c) => (EditorState {
            content: st.content.insert(index_at(st.content, st.cursor_pos), c),
            cursor_pos: st.cursor_pos + 1,
            is_dirty: true,
            target_cursor_x: None,
            ..st
        }, EditorStep::Stay),
        Key::Backspace => (if st.cursor_pos > 0 {
            EditorState {
                content: st.content.remove(index_at(st.content, st.cursor_pos - 1)),
                cursor_pos: st.cursor_pos - 1,
                is_dirty: true,
                target_cursor_x: None,
                ..st
            }
        } else {
            st
        }, EditorStep::Stay),
        _ => (st, EditorStep::Stay),
    }
}

/// A key edits at character boundaries only, within `usize`.
pub open spec fn editor_key_ok(st: EditorState, key: Key) -> bool {
    match key {
        Key::Char(_) => at_boundary(st.content, st.cursor_pos) && byte_len(st.content) + 4 <= usize::MAX,
        Key::Backspace => st.cursor_pos > 0 ==> at_boundary(st.content, st.cursor_pos - 1),
        _ => true,
    }
}

/// A text editor on one file, laid out in a proportional font.
pub struct EditorPage {
    path: String,
    content: Vec<char>,
    cursor_pos: usize,
    scroll_line_offset: usize,
    target_cursor_x: Option<i32>,
    is_dirty: bool,
    font_size: u32,
}

impl View for EditorPage {
    type V = EditorState;

    closed spec fn view(&self) -> EditorState {
        EditorState {
            path: self.path@,
            content: self.content@,
            cursor_pos: self.cursor_pos as int,
            scroll_line_offset: self.scroll_line_offset as int,
            target_cursor_x: self.target_cursor_x,
            is_dirty: self.is_dirty,
            font_size: self.font_size as int,
        }
    }
}

impl EditorPage {
    /// The editor's invariant: the cursor lies within the content, whose
    /// bytes fit in `usize`, and the font size is even and stays in its
    /// range.
    pub open spec fn wf(&self) -> bool {
        &&& 0 <= self@.cursor_pos <= byte_len(self@.content)
        &&& byte_len(self@.content) <= usize::MAX
        &&& MIN_FONT_SIZE <= self@.font_size <= MAX_FONT_SIZE + 2
        &&& self@.font_size % 2 == 0
    }

    /// The editor on the file at `path` holding `content` (as read), with
    /// the cursor at its end, font size 22.
    pub fn new(path: String, content: Vec<char>) -> (p: Self)
        requires
            byte_len(content@) <= usize::MAX,
        ensures
            p.wf(),
            p@ == (EditorState {
                path: path@,
                content: content@,
                cursor_pos: byte_len(content@) as int,
                scroll_line_offset: 0,
                target_cursor_x: None,
                is_dirty: false,
                font_size: 22,
            }),
    {
        let n = prefix_byte_len(&content, content.len());
        proof {
            assert(content@.take(content@.len() as int) =~= content@);
        }
        EditorPage {
            path,
            content,
            cursor_pos: n,
            scroll_line_offset: 0,
            target_cursor_x: None,
            is_dirty: false,
            font_size: 22,
        }
    }

    /// The cursor is on the line.
    pub fn cursor_is_on_this_line(&self, line: &VisualLine) -> (b: bool)
        requires
            self.wf(),
            line_fits(*line),
        ensures
            b == cursor_on_line(
                self@.cursor_pos,
                byte_len(self@.content) as int,
                line.start_index as int,
                line.len as int,
                line.is_hard_break,
            ),
    {
        let end = line.end_index();
        if self.cursor_pos >= line.start_index && self.cursor_pos < end {
            true
        } else if self.cursor_pos == end {
            let n = prefix_byte_len(&self.content, self.content.len());
            proof {
                assert(self.content@.take(self.content@.len() as int) =~= self.content@);
            }
            line.is_hard_break || line.len == 0 || self.cursor_pos == n
        } else {
            false
        }
    }

    /// The first line of the layout that holds the cursor.
    pub fn cursor_line_index(&self, layout: &Vec<VisualLine>) -> (r: Option<usize>)
        requires
            self.wf(),
            forall|i: int| 0 <= i < layout@.len() ==> line_fits(#[trigger] layout@[i]),
        ensures
            match line_of_cursor(self@.cursor_pos, byte_len(self@.content) as int, layout@, layout@.len() as int) {
                Some(i) => r == Some(i as usize),
                None => r is None,
            },
    {
        let mut i: usize = 0;
        while i < layout.len()
            invariant
                self.wf(),
                forall|q: int| 0 <= q < layout@.len() ==> line_fits(#[trigger] layout@[q]),
                i <= layout@.len(),
                line_of_cursor(self@.cursor_pos, byte_len(self@.content) as int, layout@, i as int) is None,
            decreases layout@.len() - i,
        {
            if self.cursor_is_on_this_line(&layout[i]) {
                proof {
                    lemma_line_of_cursor_stays(self@.cursor_pos, byte_len(self@.content) as int, layout@, i as int, layout@.len() as int);
                }
                return Some(i);
            }
            i = i + 1;
        }
        None
    }

    /// A vertical move onto line `target` of the layout, which starts at
    /// `target_start`: the cursor goes to the position whose width
    /// (`target_prefix_widths`, one per byte offset) is nearest the kept
    /// horizontal place, or, with none kept, `current_x` (the width of the
    /// text before the cursor), which is then kept.
    pub fn move_vertical(&mut self, target_start: usize, target_prefix_widths: &Vec<i32>, current_x: i32)
        requires
            old(self).wf(),
            target_prefix_widths@.len() > 0,
            target_start + target_prefix_widths@.len() - 1 <= byte_len(old(self)@.content),
            distances_fit(
                target_prefix_widths@,
                match old(self)@.target_cursor_x {
                    Some(t) => t as int,
                    None => current_x as int,
                },
            ),
        ensures
            final(self).wf(),
            ({
                let tx = match old(self)@.target_cursor_x {
                    Some(t) => t,
                    None => current_x,
                };
                final(self)@ == (EditorState {
                    cursor_pos: target_start + nearest(
                        target_prefix_widths@,
                        tx as int,
                        target_prefix_widths@.len() as int,
                    ),
                    target_cursor_x: Some(tx),
                    ..old(self)@
                })
            }),
    {
        let tx = match self.target_cursor_x {
            Some(t) => t,
            None => current_x,
        };
        let best = closest_offset(target_prefix_widths, tx);
        self.cursor_pos = target_start + best;
        self.target_cursor_x = Some(tx);
    }

    /// A key press; see `editor_after_key`. Afterwards the caller lays the
    /// text out anew and calls `scroll_to_cursor`.
    pub fn update(&mut self, key: Key) -> (r: EditorStep)
        requires
            old(self).wf(),
            editor_key_ok(old(self)@, key),
        ensures
            final(self).wf(),
            (final(self)@, r) == editor_after_key(old(self)@, key),
    {
        match key {
            Key::Esc => EditorStep::Leave,
            Key::Ctrl(c) => {
                if c == 's' {
                    self.is_dirty = false;
                    EditorStep::Save
                } else {
                    EditorStep::Stay
                }
            },
            Key::Alt(c) => {
                if c == '+' || c == '=' {
                    if self.font_size < MAX_FONT_SIZE {
                        self.font_size = self.font_size + 2;
                    }
                } else if c == '-' {
                    if self.font_size > MIN_FONT_SIZE {
                        self.font_size = self.font_size - 2;
                    }
                }
                EditorStep::Stay
            },
            Key::Left => {
                if self.cursor_pos > 0 {
                    self.cursor_pos = self.cursor_pos - 1;
                }
                self.target_cursor_x = None;
                EditorStep::Stay
            },
            Key::Right => {
                let n = prefix_byte_len(&self.content, self.content.len());
                proof {
                    assert(self.content@.take(self.content@.len() as int) =~= self.content@);
                }
                if self.cursor_pos < n {
                    self.cursor_pos = self.cursor_pos + 1;
                }
                self.target_cursor_x = None;
                EditorStep::Stay
            },
            Key::Up => EditorStep::Vertical(-1),
            Key::Down => EditorStep::Vertical(1),
            Key::Char(c) => {
                insert_at_byte(&mut self.content, self.cursor_pos, c);
                self.cursor_pos = self.cursor_pos + 1;
                self.is_dirty = true;
                self.target_cursor_x = None;
                EditorStep::Stay
            },
            Key::Backspace => {
                if self.cursor_pos > 0 {
                    self.cursor_pos = self.cursor_pos - 1;
                    remove_at_byte(&mut self.content, self.cursor_pos);
                    self.is_dirty = true;
                    self.target_cursor_x = None;
                }
                EditorStep::Stay
            },
            _ => EditorStep::Stay,
        }
    }

    /// Lines of text that fit above the bottom bar at the current size.
    pub fn visible_line_count(&self) -> (n: usize)
        requires
            self.wf(),
        ensures
            n == visible_lines(self@.font_size),
    {
        let h = self.font_size * 6 / 5;
        ((BOTTOM_BAR_Y - TOP_MARGIN) / h) as usize
    }

    /// Scrolls so that line `line` of the layout (the cursor's, 0 where no
    /// line holds it) is shown: up to it where it is above, so that it is
    /// the last shown where it is below.
    pub fn scroll_to_cursor(&mut self, line: usize)
        requires
            old(self).wf(),
        ensures
            final(self).wf(),
            final(self)@ == (EditorState {
                scroll_line_offset: {
                    let s = old(self)@.scroll_line_offset;
                    let v = visible_lines(old(self)@.font_size);
                    if line < s {
                        line as int
                    } else if line >= s + v {
                        line - (if v > 0 {
                            v - 1
                        } else {
                            0
                        })
                    } else {
                        s
                    }
                },
                ..old(self)@
            }),
    {
        let v = self.visible_line_count();
        if line < self.scroll_line_offset {
            self.scroll_line_offset = line;
        } else if line - self.scroll_line_offset >= v {
            self.scroll_line_offset = line - (if v > 0 {
                v - 1
            } else {
                0
            });
        }
    }

    /// Words of the content; see `ws_words`.
    pub fn get_word_count(&self) -> (n: usize)
        ensures
            n == ws_words(self@.content),
    {
        let mut count: usize = 0;
        let mut i: usize = 0;
        proof {
            assert(self.content@.take(0) =~= Seq::<char>::empty());
        }
        while i < self.content.len()
            invariant
                i <= self.content@.len(),
                count == ws_words(self.content@.take(i as int)),
                count <= i,
            decreases self.content@.len() - i,
        {
            let ghost s = self.content@;
            proof {
                assert(s.take(i + 1).drop_last() =~= s.take(i as int));
                assert(s.take(i + 1).last() == s[i as int]);
                if i > 0 {
                    assert(s.take(i + 1)[i - 1] == s[i - 1]);
                }
            }
            let starts = !is_whitespace(self.content[i]) && (i == 0 || is_whitespace(self.content[i - 1]));
            if starts {
                count = count + 1;
            }
            i = i + 1;
        }
        proof {
            assert(self.content@.take(i as int) =~= self.content@);
        }
        count
    }

    /// The file edited.
    pub fn path(&self) -> (p: &String)
        ensures
            p@ == self@.path,
    {
        &self.path
    }

    /// The name shown in the status bar: the file's name in capitals, or
    /// "UNTITLED.TXT" where the path names no file.
    pub fn display_name(&self) -> (r: String)
        ensures
            r@ == (match path_file_name(self@.path) {
                Some(n) => uppercased(n),
                None => "UNTITLED.TXT"@,
            }),
    {
        match file_name_of(self.path.as_str()) {
            Some(n) => to_uppercase(n.as_str()),
            None => "UNTITLED.TXT".to_owned(),
        }
    }

    /// The content.
    pub fn content(&self) -> (c: &Vec<char>)
        ensures
            c@ == self@.content,
    {
        &self.content
    }

    pub fn cursor_pos(&self) -> (c: usize)
        ensures
            c == self@.cursor_pos,
    {
        self.cursor_pos
    }

    pub fn scroll_line_offset(&self) -> (s: usize)
        ensures
            s == self@.scroll_line_offset,
    {
        self.scroll_line_offset
    }

    /// The horizontal place kept by vertical moves, if any.
    pub fn target_cursor_x(&self) -> (t: Option<i32>)
        ensures
            t == self@.target_cursor_x,
    {
        self.target_cursor_x
    }

    pub fn is_dirty(&self) -> (b: bool)
        ensures
            b == self@.is_dirty,
    {
        self.is_dirty
    }

    pub fn font_size(&self) -> (f: u32)
        ensures
            f == self@.font_size,
    {
        self.font_size
    }
}

proof fn lemma_line_of_cursor_stays(cursor: int, content_len: int, layout: Seq<VisualLine>, i: int, n: int)
    requires
        0 <= i < n,
        line_of_cursor(cursor, content_len, layout, i) is None,
        cursor_on_line(cursor, content_len, layout[i].start_index as int, layout[i].len as int, layout[i].is_hard_break),
    ensures
        line_of_cursor(cursor, content_len, layout, n) == Some(i),
    decreases n - i,
{
    if n > i + 1 {
        lemma_line_of_cursor_stays(cursor, content_len, layout, i, n - 1);
    }
}

} // verus!
