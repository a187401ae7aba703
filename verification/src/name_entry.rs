use vstd::prelude::*;
use crate::action::Action;
use crate::browser::{join_path, path_joined};
use crate::char_class::{trim, trim_end, trim_start};
use crate::keys::Key;
use crate::utf8_text::{at_boundary, boundary_index, byte_len, index_at, lemma_byte_len_at_most, lemma_index_unique, prefix_byte_len};

verus! {

/// Longest name that can be typed, in bytes: typing stops once it is
/// reached.
pub const MAX_NAME_BYTES: usize = 24;

/// Which part of the page has the keyboard.
#[derive(Clone, Copy, Debug, PartialEq, Eq, Structural)]
pub enum EntryFocus {
    TextInput,
    BottomBar,
}

/// Why a name was not taken.
#[derive(Clone, Copy, Debug, PartialEq, Eq, Structural)]
pub enum EntryError {
    /// The name is empty once trimmed.
    Empty,
    /// Something of that name is already there.
    Exists,
    /// Creating it failed.
    System,
}

impl EntryError {
    /// The message shown for the error.
    pub fn message(&self) -> (m: &'static str)
        ensures
            m@ == entry_error_text(*self),
    {
        match self {
            EntryError::Empty => "NAME CANNOT BE EMPTY",
            EntryError::Exists => "NAME ALREADY EXISTS",
            EntryError::System => "SYSTEM ERROR",
        }
    }
}

pub open spec fn entry_error_text(e: EntryError) -> Seq<char> {
    match e {
        EntryError::Empty => "NAME CANNOT BE EMPTY"@,
        EntryError::Exists => "NAME ALREADY EXISTS"@,
        EntryError::System => "SYSTEM ERROR"@,
    }
}

/// What the file system answered to a creation.
#[derive(Clone, Copy, Debug, PartialEq, Eq, Structural)]
pub enum CreateResult {
    AlreadyExists,
    Created,
    Failed,
}

/// What a key asks for: an action, or that the path given (the name typed,
/// inside the parent directory) be created as a folder or a file, as the
/// page says.
pub enum EntryStep {
    Done(Action),
    Create(String),
}

/// The state of the naming page: the name typed, the cursor as a byte
/// offset, the focus, the footer button (0 cancel, 1 save), the error shown.
pub struct NameEntryState {
    pub parent: Seq<char>,
    pub is_folder: bool,
    pub text: Seq<char>,
    pub cursor: int,
    pub focus: EntryFocus,
    pub footer_index: int,
    pub error: Option<EntryError>,
}

/// `c` in upper case where it is an ASCII letter.
pub open spec fn ascii_upper(c: char) -> char {
    if 'a' <= c && c <= 'z' {
        ((c as u32) - 32) as char
    } else {
        c
    }
}

/// `c` in upper case where it is an ASCII letter, as
/// `char::to_ascii_uppercase` gives it.
pub fn to_ascii_upper(c: char) -> (u: char)
    ensures
        u == ascii_upper(c),
{
    if 'a' <= c && c <= 'z' {
        (((c as u32) - 32) as u8) as char
    } else {
        c
    }
}

/// What a key does on the naming page. In the text: left and right move
/// the cursor a byte, Backspace removes the character before it, a
/// character goes in upper case at the cursor while the name is under
/// `MAX_NAME_BYTES` bytes, Down or Enter go to the footer. In the footer:
/// up goes back, left and right pick cancel or save, Enter cancels (Pop)
/// or asks for the trimmed name to be created, refusing an empty one.
pub open spec fn entry_after_key(st: NameEntryState, key: Key) -> (NameEntryState, Option<Action>) {
    match st.focus {
        EntryFocus::TextInput => match key {
            Key::Left => (if st.cursor > 0 {
                NameEntryState { cursor: st.cursor - 1, ..st }
            } else {
                st
            }, Some(Action::Nothing)),
            Key::Right => (if st.cursor < byte_len(st.text) {
                NameEntryState { cursor: st.cursor + 1, ..st }
            } else {
                st
            }, Some(Action::Nothing)),
            Key::Backspace => (if st.cursor > 0 {
                NameEntryState {
                    text: st.text.remove(index_at(st.text, st.cursor - 1)),
                    cursor: st.cursor - 1,
                    error: None,
                    ..st
                }
            } else {
                st
            }, Some(Action::Nothing)),
            Key::Down => (NameEntryState { focus: EntryFocus::BottomBar, ..st }, Some(Action::Nothing)),
            Key::Char(c) => if c == '\n' {
                (NameEntryState { focus: EntryFocus::BottomBar, ..st }, Some(Action::Nothing))
            } else if byte_len(st.text) < MAX_NAME_BYTES {
                (
                    NameEntryState {
                        text: st.text.insert(index_at(st.text, st.cursor), ascii_upper(c)),
                        cursor: st.cursor + 1,
                        error: None,
                        ..st
                    },
                    Some(Action::Nothing),
                )
            } else {
                (st, Some(Action::Nothing))
            },
            _ => (st, Some(Action::Nothing)),
        },
        EntryFocus::BottomBar => match key {
            Key::Up => (NameEntryState { focus: EntryFocus::TextInput, ..st }, Some(Action::Nothing)),
            Key::Left => (NameEntryState { footer_index: 0, ..st }, Some(Action::Nothing)),
            Key::Right => (NameEntryState { footer_index: 1, ..st }, Some(Action::Nothing)),
            Key::Char(c) => if c == '\n' {
                if st.footer_index == 0 {
                    (st, Some(Action::Pop))
                } else if trim_end(trim_start(st.text)).len() == 0 {
                    (NameEntryState { error: Some(EntryError::Empty), ..st }, Some(Action::Nothing))
                } else {
                    (st, None)
                }
            } else {
                (st, Some(Action::Nothing))
            },
            _ => (st, Some(Action::Nothing)),
        },
    }
}

/// A key cannot make the page fail: editing happens at character
/// boundaries only.
pub open spec fn entry_key_ok(st: NameEntryState, key: Key) -> bool {
    st.focus == EntryFocus::TextInput ==> match key {
        Key::Backspace => st.cursor > 0 ==> at_boundary(st.text, st.cursor - 1),
        Key::Char(c) => (c != '\n' && byte_len(st.text) < MAX_NAME_BYTES) ==> at_boundary(
            st.text,
            st.cursor,
        ),
        _ => true,
    }
}

/// The page that names a new folder or file.
pub struct NameEntryPage {
    parent_path: String,
    is_folder: bool,
    input_text: Vec<char>,
    cursor_pos: usize,
    focus: EntryFocus,
    footer_index: usize,
    error_msg: Option<EntryError>,
}

impl View for NameEntryPage {
    type V = NameEntryState;

    closed spec fn view(&self) -> NameEntryState {
        NameEntryState {
            parent: self.parent_path@,
            is_folder: self.is_folder,
            text: self.input_text@,
            cursor: self.cursor_pos as int,
            focus: self.focus,
            footer_index: self.footer_index as int,
            error: self.error_msg,
        }
    }
}

impl NameEntryPage {
    /// The page's invariant: the cursor is within the name, which is a few
    /// bytes long.
    pub open spec fn wf(&self) -> bool {
        &&& 0 <= self@.cursor <= byte_len(self@.text)
        &&& byte_len(self@.text) < MAX_NAME_BYTES + 4
        &&& self@.footer_index <= 1
    }

    /// An empty name with the cursor at its start, the text focused, the
    /// save button picked, no error.
    pub fn new(parent_path: String, is_folder: bool) -> (p: Self)
        ensures
            p.wf(),
            p@ == (NameEntryState {
                parent: parent_path@,
                is_folder: is_folder,
                text: Seq::empty(),
                cursor: 0,
                focus: EntryFocus::TextInput,
                footer_index: 1,
                error: None,
            }),
    {
        let p = NameEntryPage {
            parent_path,
            is_folder,
            input_text: Vec::new(),
            cursor_pos: 0,
            focus: EntryFocus::TextInput,
            footer_index: 1,
            error_msg: None,
        };
        proof {
            assert(vstd::utf8::encode_utf8(Seq::<char>::empty()) =~= Seq::<u8>::empty());
        }
        p
    }

    /// A key press; see `entry_after_key`. Where the trimmed name is to be
    /// created, the page asks for it and waits for `creation_finished`.
    pub fn update(&mut self, key: Key) -> (r: EntryStep)
        requires
            old(self).wf(),
            entry_key_ok(old(self)@, key),
        ensures
            final(self).wf(),
            final(self)@ == entry_after_key(old(self)@, key).0,
            match entry_after_key(old(self)@, key).1 {
                Some(a) => r == EntryStep::Done(a),
                None => r matches EntryStep::Create(path) && path@ == path_joined(
                    old(self)@.parent,
                    trim_end(trim_start(old(self)@.text)),
                ),
            },
    {
        let ghost st = self@;
        proof {
            lemma_byte_len_at_most(self@.text);
        }
        match self.focus {
            EntryFocus::TextInput => match key {
                Key::Left => {
                    if self.cursor_pos > 0 {
                        self.cursor_pos = self.cursor_pos - 1;
                    }
                    EntryStep::Done(Action::Nothing)
                },
                Key::Right => {
                    let n = prefix_byte_len(&self.input_text, self.input_text.len());
                    proof {
                        assert(self.input_text@.take(self.input_text@.len() as int) =~= self.input_text@);
                    }
                    if self.cursor_pos < n {
                        self.cursor_pos = self.cursor_pos + 1;
                    }
                    EntryStep::Done(Action::Nothing)
                },
                Key::Backspace => {
                    if self.cursor_pos > 0 {
                        let k = boundary_index(&self.input_text, self.cursor_pos - 1);
                        match k {
                            Some(k) => {
                                proof {
                                    lemma_index_unique(st.text, k as int, st.cursor - 1);
                                    if k == st.text.len() {
                                        assert(st.text.take(k as int) =~= st.text);
                                    }
                                }
                                let ghost t = self.input_text@;
                                self.input_text.remove(k);
                                proof {
                                    assert(t =~= t.take(k as int) + seq![t[k as int]] + t.skip(k + 1));
                                    assert(self.input_text@ =~= t.take(k as int) + t.skip(k + 1));
                                    crate::utf8_text::lemma_byte_len_concat(t.take(k as int) + seq![t[k as int]], t.skip(k + 1));
                                    crate::utf8_text::lemma_byte_len_concat(t.take(k as int), seq![t[k as int]]);
                                    crate::utf8_text::lemma_byte_len_concat(t.take(k as int), t.skip(k + 1));
                                    crate::utf8_text::lemma_byte_len_single(t[k as int]);
                                    crate::utf8_text::lemma_encode_scalar_len(t[k as int]);
                                }
                                self.cursor_pos = self.cursor_pos - 1;
                                self.error_msg = None;
                            },
                            None => {},
                        }
                    }
                    EntryStep::Done(Action::Nothing)
                },
                Key::Down => {
                    self.focus = EntryFocus::BottomBar;
                    EntryStep::Done(Action::Nothing)
                },
                Key::Char(c) => {
                    if c == '\n' {
                        self.focus = EntryFocus::BottomBar;
                        return EntryStep::Done(Action::Nothing);
                    }
                    let n = prefix_byte_len(&self.input_text, self.input_text.len());
                    proof {
                        assert(self.input_text@.take(self.input_text@.len() as int) =~= self.input_text@);
                    }
                    if n < MAX_NAME_BYTES {
                        let k = boundary_index(&self.input_text, self.cursor_pos);
                        match k {
                            Some(k) => {
                                proof {
                                    lemma_index_unique(st.text, k as int, st.cursor);
                                }
                                let u = to_ascii_upper(c);
                                let ghost t = self.input_text@;
                                self.input_text.insert(k, u);
                                proof {
                                    assert(t =~= t.take(k as int) + t.skip(k as int));
                                    assert(self.input_text@ =~= t.take(k as int) + seq![u] + t.skip(k as int));
                                    crate::utf8_text::lemma_byte_len_concat(t.take(k as int) + seq![u], t.skip(k as int));
                                    crate::utf8_text::lemma_byte_len_concat(t.take(k as int), seq![u]);
                                    crate::utf8_text::lemma_byte_len_concat(t.take(k as int), t.skip(k as int));
                                    crate::utf8_text::lemma_byte_len_single(u);
                                    crate::utf8_text::lemma_encode_scalar_len(u);
                                }
                                self.cursor_pos = self.cursor_pos + 1;
                                self.error_msg = None;
                            },
                            None => {},
                        }
                    }
                    EntryStep::Done(Action::Nothing)
                },
                _ => EntryStep::Done(Action::Nothing),
            },
            EntryFocus::BottomBar => match key {
                Key::Up => {
                    self.focus = EntryFocus::TextInput;
                    EntryStep::Done(Action::Nothing)
                },
                Key::Left => {
                    self.footer_index = 0;
                    EntryStep::Done(Action::Nothing)
                },
                Key::Right => {
                    self.footer_index = 1;
                    EntryStep::Done(Action::Nothing)
                },
                Key::Char(c) => {
                    if c != '\n' {
                        return EntryStep::Done(Action::Nothing);
                    }
                    if self.footer_index == 0 {
                        EntryStep::Done(Action::Pop)
                    } else {
                        self.try_save()
                    }
                },
                _ => EntryStep::Done(Action::Nothing),
            },
        }
    }

    /// The trimmed name: refused when empty, else to be created.
    fn try_save(&mut self) -> (r: EntryStep)
        requires
            old(self).wf(),
        ensures
            final(self).wf(),
            trim_end(trim_start(old(self)@.text)).len() == 0 ==> final(self)@ == (NameEntryState {
                error: Some(EntryError::Empty),
                ..old(self)@
            }) && r == EntryStep::Done(Action::Nothing),
            trim_end(trim_start(old(self)@.text)).len() != 0 ==> final(self)@ == old(self)@ && (r matches EntryStep::Create(
                path,
            ) && path@ == path_joined(old(self)@.parent, trim_end(trim_start(old(self)@.text)))),
    {
        let mut text = String::new();
        let mut i: usize = 0;
        while i < self.input_text.len()
            invariant
                i <= self.input_text@.len(),
                text@ == self.input_text@.take(i as int),
            decreases self.input_text@.len() - i,
        {
            crate::writing_document::push_char(&mut text, self.input_text[i]);
            proof {
                assert(text@ =~= self.input_text@.take(i + 1));
            }
            i = i + 1;
        }
        proof {
            assert(self.input_text@.take(i as int) =~= self.input_text@);
        }
        let name = trim(text.as_str());
        if name.unicode_len() == 0 {
            self.error_msg = Some(EntryError::Empty);
            EntryStep::Done(Action::Nothing)
        } else {
            EntryStep::Create(join_path(self.parent_path.as_str(), name))
        }
    }

    /// The file system's answer to a creation: created leaves the page,
    /// otherwise the error is shown.
    pub fn creation_finished(&mut self, result: CreateResult) -> (a: Action)
        requires
            old(self).wf(),
        ensures
            final(self).wf(),
            final(self)@ == (match result {
                CreateResult::Created => old(self)@,
                CreateResult::AlreadyExists => NameEntryState { error: Some(EntryError::Exists), ..old(self)@ },
                CreateResult::Failed => NameEntryState { error: Some(EntryError::System), ..old(self)@ },
            }),
            a == (if result == CreateResult::Created {
                Action::Pop
            } else {
                Action::Nothing
            }),
    {
        match result {
            CreateResult::Created => Action::Pop,
            CreateResult::AlreadyExists => {
                self.error_msg = Some(EntryError::Exists);
                Action::Nothing
            },
            CreateResult::Failed => {
                self.error_msg = Some(EntryError::System);
                Action::Nothing
            },
        }
    }

    /// The directory the name goes into.
    pub fn parent_path(&self) -> (p: &String)
        ensures
            p@ == self@.parent,
    {
        &self.parent_path
    }

    /// A folder (`true`) or a file is being named.
    pub fn is_folder(&self) -> (b: bool)
        ensures
            b == self@.is_folder,
    {
        self.is_folder
    }

    /// The name typed so far.
    pub fn input_text(&self) -> (t: &Vec<char>)
        ensures
            t@ == self@.text,
    {
        &self.input_text
    }

    /// The cursor's byte offset in the name.
    pub fn cursor_pos(&self) -> (c: usize)
        ensures
            c == self@.cursor,
    {
        self.cursor_pos
    }

    pub fn focus(&self) -> (f: EntryFocus)
        ensures
            f == self@.focus,
    {
        self.focus
    }

    pub fn footer_index(&self) -> (i: usize)
        ensures
            i == self@.footer_index,
    {
        self.footer_index
    }

    pub fn error(&self) -> (e: Option<EntryError>)
        ensures
            e == self@.error,
    {
        self.error_msg
    }
}

} // verus!
