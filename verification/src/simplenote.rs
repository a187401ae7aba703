use vstd::prelude::*;
use crate::action::Action;
use crate::char_class::{to_uppercase, trim, trim_end, trim_start, uppercased};
use crate::keys::Key;
use crate::learn::{contains_seq, replaced};
use crate::name_entry::EntryFocus;
use crate::utf8_text::{
    at_boundary, byte_len, chars_of, index_at, insert_at_byte, prefix_byte_len, remove_at_byte,
    string_of,
};

verus! {

/// Longest e-mail address or password that can be typed, in bytes.
pub const MAX_CREDENTIAL_BYTES: usize = 40;

/// Where the setup stands.
#[derive(Clone, Copy, Debug, PartialEq, Eq, Structural)]
pub enum SetupStep {
    Email,
    Password,
    ReadyToSync,
    Syncing,
}

/// What went wrong.
#[derive(Clone, Copy, Debug, PartialEq, Eq, Structural)]
pub enum SetupError {
    InvalidEmail,
    PasswordRequired,
    CredentialsNotSaved,
    SyncFailed,
}

impl SetupError {
    /// The text shown for the error.
    pub fn message(&self) -> (m: &'static str)
        ensures
            m@ == setup_error_text(*self),
    {
        match self {
            SetupError::InvalidEmail => "INVALID EMAIL",
            SetupError::PasswordRequired => "PASSWORD REQUIRED",
            SetupError::CredentialsNotSaved => "SYS ERROR: COULD NOT SAVE CREDS",
            SetupError::SyncFailed => "SYNC FAILED. CHECK WIFI.",
        }
    }
}

pub open spec fn setup_error_text(e: SetupError) -> Seq<char> {
    match e {
        SetupError::InvalidEmail => "INVALID EMAIL"@,
        SetupError::PasswordRequired => "PASSWORD REQUIRED"@,
        SetupError::CredentialsNotSaved => "SYS ERROR: COULD NOT SAVE CREDS"@,
        SetupError::SyncFailed => "SYNC FAILED. CHECK WIFI."@,
    }
}

/// The line the sync script sends when it succeeded.
pub open spec fn finished_success() -> Seq<char> {
    "__FINISHED_SUCCESS__"@
}

/// The line the sync script sends when it failed.
pub open spec fn finished_error() -> Seq<char> {
    "__FINISHED_ERROR__"@
}

/// The setup page's state: the step, what was typed, the cursor (a byte
/// offset into the field being typed), the focus and footer button, the
/// error and the status shown, and whether a sync is under way.
pub struct SetupState {
    pub step: SetupStep,
    pub email: Seq<char>,
    pub password: Seq<char>,
    pub cursor: int,
    pub focus: EntryFocus,
    pub footer_index: int,
    pub error: Option<SetupError>,
    pub status: Option<Seq<char>>,
    pub listening: bool,
}

/// What a key asks for: an action, writing the credentials (e-mail, a
/// line break, password), or starting a sync.
pub enum SetupReply {
    Act(Action),
    WriteCreds(Seq<char>),
    StartSync,
}

/// The field being typed into: the e-mail at the first step, the password
/// otherwise.
pub open spec fn field(st: SetupState) -> Seq<char> {
    if st.step == SetupStep::Email {
        st.email
    } else {
        st.password
    }
}

pub open spec fn with_field(st: SetupState, t: Seq<char>) -> SetupState {
    if st.step == SetupStep::Email {
        SetupState { email: t, ..st }
    } else {
        SetupState { password: t, ..st }
    }
}

/// The bottom bar's Enter: go on from the step.
pub open spec fn submitted(st: SetupState) -> (SetupState, SetupReply) {
    match st.step {
        SetupStep::Email => if contains_seq(st.email, seq!['@']) && contains_seq(st.email, seq!['.']) {
            (
                SetupState {
                    step: SetupStep::Password,
                    cursor: 0,
                    focus: EntryFocus::TextInput,
                    ..st
                },
                SetupReply::Act(Action::Nothing),
            )
        } else {
            (SetupState { error: Some(SetupError::InvalidEmail), ..st }, SetupReply::Act(Action::Nothing))
        },
        SetupStep::Password => if st.password.len() == 0 {
            (SetupState { error: Some(SetupError::PasswordRequired), ..st }, SetupReply::Act(Action::Nothing))
        } else {
            (st, SetupReply::WriteCreds(st.email + seq!['\n'] + st.password))
        },
        SetupStep::ReadyToSync => (
            SetupState {
                step: SetupStep::Syncing,
                status: Some("INITIALIZING..."@),
                error: None,
                listening: true,
                ..st
            },
            SetupReply::StartSync,
        ),
        SetupStep::Syncing => (st, SetupReply::Act(Action::Nothing)),
    }
}

/// What a key does. In the text: the arrows move the cursor a byte,
/// Backspace removes the character before it, a character goes in at the
/// cursor (at the first two steps, while the field is under
/// `MAX_CREDENTIAL_BYTES` bytes), each edit clearing the messages; Down or
/// Enter go to the bottom bar. In the bar: up goes back (at the first two
/// steps), left and right pick cancel or go on, Enter cancels (Pop) or
/// submits.
pub open spec fn setup_after_key(st: SetupState, key: Key) -> (SetupState, SetupReply) {
    let t = field(st);
    let nothing = SetupReply::Act(Action::Nothing);
    match st.focus {
        EntryFocus::TextInput => match key {
            Key::Left => (if st.cursor > 0 {
                SetupState { cursor: st.cursor - 1, ..st }
            } else {
                st
            }, nothing),
            Key::Right => (if st.cursor < byte_len(t) {
                SetupState { cursor: st.cursor + 1, ..st }
            } else {
                st
            }, nothing),
            Key::Backspace => (if st.cursor > 0 {
                SetupState {
                    cursor: st.cursor - 1,
                    error: None,
                    status: None,
                    ..with_field(st, t.remove(index_at(t, st.cursor - 1)))
                }
            } else {
                st
            }, nothing),
            Key::Down => (SetupState { focus: EntryFocus::BottomBar, ..st }, nothing),
            Key::Char(c) => if c == '\n' {
                (SetupState { focus: EntryFocus::BottomBar, ..st }, nothing)
            } else if st.step == SetupStep::ReadyToSync || st.step == SetupStep::Syncing {
                (st, nothing)
            } else if byte_len(t) < MAX_CREDENTIAL_BYTES {
                (
                    SetupState {
                        cursor: st.cursor + 1,
                        error: None,
                        status: None,
                        ..with_field(st, t.insert(index_at(t, st.cursor), c))
                    },
                    nothing,
                )
            } else {
                (st, nothing)
            },
            _ => (st, nothing),
        },
        EntryFocus::BottomBar => match key {
            Key::Up => (if st.step != SetupStep::ReadyToSync && st.step != SetupStep::Syncing {
                SetupState { focus: EntryFocus::TextInput, ..st }
            } else {
                st
            }, nothing),
            Key::Left => (SetupState { footer_index: 0, ..st }, nothing),
            Key::Right => (SetupState { footer_index: 1, ..st }, nothing),
            Key::Char(c) => if c != '\n' {
                (st, nothing)
            } else if st.footer_index == 0 {
                (st, SetupReply::Act(Action::Pop))
            } else {
                submitted(st)
            },
            _ => (st, nothing),
        },
    }
}

/// A key edits at character boundaries only.
pub open spec fn setup_key_ok(st: SetupState, key: Key) -> bool {
    let t = field(st);
    st.focus == EntryFocus::TextInput ==> match key {
        Key::Backspace => st.cursor > 0 ==> at_boundary(t, st.cursor - 1),
        Key::Char(c) => (c != '\n' && st.step != SetupStep::ReadyToSync && st.step != SetupStep::Syncing
            && byte_len(t) < MAX_CREDENTIAL_BYTES) ==> at_boundary(t, st.cursor),
        _ => true,
    }
}

/// A progress line of the sync as shown: without "Syncing...", trimmed,
/// in upper case.
pub open spec fn progress_text(line: Seq<char>) -> Seq<char> {
    trim_end(trim_start(replaced(line, "Syncing..."@, Seq::empty())))
}

/// The page after the sync's lines: progress lines update the status; the
/// first end marker ends the sync (lines after it are dropped).
pub open spec fn after_lines(st: SetupState, lines: Seq<Seq<char>>) -> SetupState
    decreases lines.len(),
{
    if lines.len() == 0 || !st.listening {
        st
    } else {
        let l = lines[0];
        if l == finished_success() {
            SetupState {
                step: SetupStep::ReadyToSync,
                status: Some("SYNC COMPLETE"@),
                listening: false,
                ..st
            }
        } else if l == finished_error() {
            SetupState {
                step: SetupStep::ReadyToSync,
                error: Some(SetupError::SyncFailed),
                listening: false,
                ..st
            }
        } else {
            let p = progress_text(l);
            after_lines(
                if p.len() > 0 {
                    SetupState { status: Some(uppercased(p)), ..st }
                } else {
                    st
                },
                lines.drop_first(),
            )
        }
    }
}

/// What a step asks of the caller.
pub enum SetupStepReply {
    Done(Action),
    /// Write these credentials, then report with `creds_written`.
    WriteCreds(String),
    /// Start the sync script and hand its lines to `tick`.
    StartSync,
}

pub open spec fn setup_reply_of(r: SetupStepReply) -> SetupReply {
    match r {
        SetupStepReply::Done(a) => SetupReply::Act(a),
        SetupStepReply::WriteCreds(s) => SetupReply::WriteCreds(s@),
        SetupStepReply::StartSync => SetupReply::StartSync,
    }
}

/// Setting up the note service: e-mail, password, then syncing.
pub struct SimpleNoteSetupPage {
    step: SetupStep,
    email: Vec<char>,
    password: Vec<char>,
    cursor_pos: usize,
    focus: EntryFocus,
    footer_index: usize,
    error_msg: Option<SetupError>,
    status_msg: Option<String>,
    listening: bool,
}

impl View for SimpleNoteSetupPage {
    type V = SetupState;

    closed spec fn view(&self) -> SetupState {
        SetupState {
            step: self.step,
            email: self.email@,
            password: self.password@,
            cursor: self.cursor_pos as int,
            focus: self.focus,
            footer_index: self.footer_index as int,
            error: self.error_msg,
            status: match &self.status_msg {
                Some(s) => Some(s@),
                None => None,
            },
            listening: self.listening,
        }
    }
}

fn contains_char(s: &Vec<char>, c: char) -> (b: bool)
    ensures
        b == contains_seq(s@, seq![c]),
{
    let mut i: usize = 0;
    while i < s.len()
        invariant
            i <= s@.len(),
            forall|q: int| 0 <= q < i ==> s@[q] != c,
        decreases s@.len() - i,
    {
        if s[i] == c {
            proof {
                assert(s@.subrange(i as int, i + 1) =~= seq![c]);
            }
            return true;
        }
        i = i + 1;
    }
    proof {
        assert forall|q: int| 0 <= q && q + 1 <= s@.len() implies #[trigger] s@.subrange(q, q + seq![c].len()) != seq![c] by {
            assert(s@.subrange(q, q + 1)[0] == s@[q]);
        }
    }
    false
}

impl SimpleNoteSetupPage {
    /// The page's invariant: the cursor lies within the field typed, and
    /// the fields are short.
    pub open spec fn wf(&self) -> bool {
        &&& 0 <= self@.cursor <= byte_len(field(self@))
        &&& byte_len(self@.email) < MAX_CREDENTIAL_BYTES + 4
        &&& byte_len(self@.password) < MAX_CREDENTIAL_BYTES + 4
        &&& self@.footer_index <= 1
        &&& self@.listening ==> self@.step == SetupStep::Syncing
    }

    /// The page; with credentials saved already it is ready to sync, with
    /// the bottom bar focused.
    pub fn new(creds_exist: bool) -> (p: Self)
        ensures
            p.wf(),
            p@ == (SetupState {
                step: if creds_exist {
                    SetupStep::ReadyToSync
                } else {
                    SetupStep::Email
                },
                email: Seq::empty(),
                password: Seq::empty(),
                cursor: 0,
                focus: if creds_exist {
                    EntryFocus::BottomBar
                } else {
                    EntryFocus::TextInput
                },
                footer_index: 1,
                error: None,
                status: None,
                listening: false,
            }),
    {
        let step = if creds_exist {
            SetupStep::ReadyToSync
        } else {
            SetupStep::Email
        };
        let p = SimpleNoteSetupPage {
            step,
            email: Vec::new(),
            password: Vec::new(),
            cursor_pos: 0,
            focus: if creds_exist {
                EntryFocus::BottomBar
            } else {
                EntryFocus::TextInput
            },
            footer_index: 1,
            error_msg: None,
            status_msg: None,
            listening: false,
        };
        proof {
            assert(vstd::utf8::encode_utf8(Seq::<char>::empty()) =~= Seq::<u8>::empty());
        }
        p
    }

    /// A key press; see `setup_after_key`.
    pub fn update(&mut self, key: Key) -> (r: SetupStepReply)
        requires
            old(self).wf(),
            setup_key_ok(old(self)@, key),
        ensures
            final(self).wf(),
            (final(self)@, setup_reply_of(r)) == setup_after_key(old(self)@, key),
    {
        let ghost st = self@;
        match self.focus {
            EntryFocus::TextInput => match key {
                Key::Left => {
                    if self.cursor_pos > 0 {
                        self.cursor_pos = self.cursor_pos - 1;
                    }
                    SetupStepReply::Done(Action::Nothing)
                },
                Key::Right => {
                    let n = if self.step == SetupStep::Email {
                        prefix_byte_len(&self.email, self.email.len())
                    } else {
                        prefix_byte_len(&self.password, self.password.len())
                    };
                    proof {
                        assert(self.email@.take(self.email@.len() as int) =~= self.email@);
                        assert(self.password@.take(self.password@.len() as int) =~= self.password@);
                    }
                    if self.cursor_pos < n {
                        self.cursor_pos = self.cursor_pos + 1;
                    }
                    SetupStepReply::Done(Action::Nothing)
                },
                Key::Backspace => {
                    if self.cursor_pos > 0 {
                        if self.step == SetupStep::Email {
                            remove_at_byte(&mut self.email, self.cursor_pos - 1);
                        } else {
                            remove_at_byte(&mut self.password, self.cursor_pos - 1);
                        }
                        self.cursor_pos = self.cursor_pos - 1;
                        self.error_msg = None;
                        self.status_msg = None;
                    }
                    SetupStepReply::Done(Action::Nothing)
                },
                Key::Down => {
                    self.focus = EntryFocus::BottomBar;
                    SetupStepReply::Done(Action::Nothing)
                },
                Key::Char(c) => {
                    if c == '\n' {
                        self.focus = EntryFocus::BottomBar;
                        return SetupStepReply::Done(Action::Nothing);
                    }
                    if self.step == SetupStep::ReadyToSync || self.step == SetupStep::Syncing {
                        return SetupStepReply::Done(Action::Nothing);
                    }
                    let n = if self.step == SetupStep::Email {
                        prefix_byte_len(&self.email, self.email.len())
                    } else {
                        prefix_byte_len(&self.password, self.password.len())
                    };
                    proof {
                        assert(self.email@.take(self.email@.len() as int) =~= self.email@);
                        assert(self.password@.take(self.password@.len() as int) =~= self.password@);
                    }
                    if n < MAX_CREDENTIAL_BYTES {
                        if self.step == SetupStep::Email {
                            insert_at_byte(&mut self.email, self.cursor_pos, c);
                        } else {
                            insert_at_byte(&mut self.password, self.cursor_pos, c);
                        }
                        self.cursor_pos = self.cursor_pos + 1;
                        self.error_msg = None;
                        self.status_msg = None;
                    }
                    SetupStepReply::Done(Action::Nothing)
                },
                _ => SetupStepReply::Done(Action::Nothing),
            },
            EntryFocus::BottomBar => match key {
                Key::Up => {
                    if self.step != SetupStep::ReadyToSync && self.step != SetupStep::Syncing {
                        self.focus = EntryFocus::TextInput;
                    }
                    SetupStepReply::Done(Action::Nothing)
                },
                Key::Left => {
                    self.footer_index = 0;
                    SetupStepReply::Done(Action::Nothing)
                },
                Key::Right => {
                    self.footer_index = 1;
                    SetupStepReply::Done(Action::Nothing)
                },
                Key::Char(c) => {
                    if c != '\n' {
                        SetupStepReply::Done(Action::Nothing)
                    } else if self.footer_index == 0 {
                        SetupStepReply::Done(Action::Pop)
                    } else {
                        self.handle_submit()
                    }
                },
                _ => SetupStepReply::Done(Action::Nothing),
            },
        }
    }

    /// Enter on the bottom bar's second button; see `submitted`.
    fn handle_submit(&mut self) -> (r: SetupStepReply)
        requires
            old(self).wf(),
        ensures
            final(self).wf(),
            (final(self)@, setup_reply_of(r)) == submitted(old(self)@),
    {
        match self.step {
            SetupStep::Email => {
                if contains_char(&self.email, '@') && contains_char(&self.email, '.') {
                    self.step = SetupStep::Password;
                    self.cursor_pos = 0;
                    self.focus = EntryFocus::TextInput;
                } else {
                    self.error_msg = Some(SetupError::InvalidEmail);
                }
                SetupStepReply::Done(Action::Nothing)
            },
            SetupStep::Password => {
                if self.password.len() == 0 {
                    self.error_msg = Some(SetupError::PasswordRequired);
                    return SetupStepReply::Done(Action::Nothing);
                }
                let mut creds = self.email.clone();
                creds.push('\n');
                let mut p = self.password.clone();
                creds.append(&mut p);
                proof {
                    assert(creds@ =~= self@.email + seq!['\n'] + self@.password);
                }
                SetupStepReply::WriteCreds(string_of(&creds))
            },
            SetupStep::ReadyToSync => {
                self.step = SetupStep::Syncing;
                self.status_msg = Some("INITIALIZING...".to_owned());
                self.error_msg = None;
                self.listening = true;
                SetupStepReply::StartSync
            },
            SetupStep::Syncing => SetupStepReply::Done(Action::Nothing),
        }
    }

    /// The credentials were written (`ok`) or not: written, the page is
    /// ready to sync with "LOGIN SAVED" shown; else the error is shown.
    pub fn creds_written(&mut self, ok: bool)
        requires
            old(self).wf(),
            old(self)@.step == SetupStep::Password,
        ensures
            final(self).wf(),
            final(self)@ == (if ok {
                SetupState {
                    step: SetupStep::ReadyToSync,
                    focus: EntryFocus::BottomBar,
                    footer_index: 1,
                    error: None,
                    status: Some("LOGIN SAVED"@),
                    ..old(self)@
                }
            } else {
                SetupState { error: Some(SetupError::CredentialsNotSaved), ..old(self)@ }
            }),
    {
        if ok {
            self.step = SetupStep::ReadyToSync;
            self.focus = EntryFocus::BottomBar;
            self.footer_index = 1;
            self.error_msg = None;
            self.status_msg = Some("LOGIN SAVED".to_owned());
        } else {
            self.error_msg = Some(SetupError::CredentialsNotSaved);
        }
    }

    /// The lines the sync script has sent since the last call; see
    /// `after_lines`. Afterwards `is_listening` tells whether to go on
    /// reading them.
    pub fn tick(&mut self, lines: &Vec<String>) -> (a: Action)
        requires
            old(self).wf(),
        ensures
            final(self).wf(),
            final(self)@ == after_lines(old(self)@, lines@.map_values(|l: String| l@)),
            a == Action::Nothing,
    {
        let ghost ls = lines@.map_values(|l: String| l@);
        let mut i: usize = 0;
        proof {
            assert(ls.skip(0) =~= ls);
        }
        let marker_ok = chars_of("__FINISHED_SUCCESS__");
        let marker_err = chars_of("__FINISHED_ERROR__");
        let tag = chars_of("Syncing...");
        let nothing: Vec<char> = Vec::new();
        let ghost st0 = self@;
        while i < lines.len()
            invariant
                ls == lines@.map_values(|l: String| l@),
                i <= ls.len(),
                marker_ok@ == finished_success(),
                marker_err@ == finished_error(),
                tag@ == "Syncing..."@,
                nothing@ == Seq::<char>::empty(),
                self.wf(),
                st0 == old(self)@,
                after_lines(self@, ls.skip(i as int)) == after_lines(st0, ls),
            decreases ls.len() - i,
        {
            if !self.listening {
                proof {
                    assert(after_lines(self@, ls.skip(i as int)) == self@);
                }
                return Action::Nothing;
            }
            let l = chars_of(lines[i].as_str());
            proof {
                assert(ls.skip(i as int)[0] == ls[i as int]);
                assert(ls.skip(i as int).drop_first() =~= ls.skip(i + 1));
            }
            let ghost pre = self@;
            proof {
                assert(l@ == ls.skip(i as int)[0]);
                assert(ls.skip(i as int).len() > 0);
            }
            if vec_eq(&l, &marker_ok) {
                proof {
                    assert(after_lines(pre, ls.skip(i as int)) == (SetupState {
                        step: SetupStep::ReadyToSync,
                        status: Some("SYNC COMPLETE"@),
                        listening: false,
                        ..pre
                    }));
                }
                self.step = SetupStep::ReadyToSync;
                self.status_msg = Some("SYNC COMPLETE".to_owned());
                self.listening = false;
                return Action::Nothing;
            } else if vec_eq(&l, &marker_err) {
                self.step = SetupStep::ReadyToSync;
                self.error_msg = Some(SetupError::SyncFailed);
                self.listening = false;
                return Action::Nothing;
            }
            proof {
                reveal_strlit("Syncing...");
            }
            let cleaned = crate::learn::replace_chars(&l, &tag, &nothing);
            let cs = string_of(&cleaned);
            let t = trim(cs.as_str());
            if t.unicode_len() > 0 {
                self.status_msg = Some(to_uppercase(t));
            }
            i = i + 1;
        }
        proof {
            assert(ls.skip(i as int) =~= Seq::<Seq<char>>::empty());
        }
        Action::Nothing
    }

    /// A sync is under way and its lines are wanted.
    pub fn is_listening(&self) -> (b: bool)
        ensures
            b == self@.listening,
    {
        self.listening
    }

    pub fn step(&self) -> (s: SetupStep)
        ensures
            s == self@.step,
    {
        self.step
    }

    pub fn email(&self) -> (e: &Vec<char>)
        ensures
            e@ == self@.email,
    {
        &self.email
    }

    pub fn password(&self) -> (p: &Vec<char>)
        ensures
            p@ == self@.password,
    {
        &self.password
    }

    pub fn cursor_pos(&self) -> (c: usize)
        ensures
            c == self@.cursor,
    {
        self.cursor_pos
    }

    pub fn focus(&self) -> (f: EntryFocus)
        ensures
            f == self@.focus,
    {
        self.focus
    }

    pub fn footer_index(&self) -> (i: usize)
        ensures
            i == self@.footer_index,
    {
        self.footer_index
    }

    pub fn error(&self) -> (e: Option<SetupError>)
        ensures
            e == self@.error,
    {
        self.error_msg
    }

    /// The status shown, if any.
    pub fn status(&self) -> (s: Option<&String>)
        ensures
            match s {
                Some(t) => self@.status == Some(t@),
                None => self@.status is None,
            },
    {
        match &self.status_msg {
            Some(t) => Some(t),
            None => None,
        }
    }
}

/// The two sequences hold the same characters.
fn vec_eq(a: &Vec<char>, b: &Vec<char>) -> (r: bool)
    ensures
        r == (a@ == b@),
{
    if a.len() != b.len() {
        return false;
    }
    let mut i: usize = 0;
    while i < a.len()
        invariant
            a@.len() == b@.len(),
            i <= a@.len(),
            forall|q: int| 0 <= q < i ==> a@[q] == b@[q],
        decreases a@.len() - i,
    {
        if a[i] != b[i] {
            return false;
        }
        i = i + 1;
    }
    proof {
        assert(a@ =~= b@);
    }
    true
}

} // verus!
