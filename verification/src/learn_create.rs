use vstd::prelude::*;
use crate::action::Action;
use crate::char_class::{trim, trim_end, trim_start};
use crate::clock::{instant_now, millis_between};
use crate::keys::Key;
use crate::utf8_text::{
    at_boundary, byte_len, chars_of, index_at, insert_at_byte, lemma_byte_len_at_most,
    lemma_encode_scalar_len, prefix_byte_len, remove_at_byte, string_of, utf8_width,
};

verus! {

/// How long a notice stays, in milliseconds.
pub const NOTICE_MILLIS: u128 = 2000;

/// The characters of the Unicode category "Cc" (control characters).
pub open spec fn control(c: char) -> bool {
    (c as u32) <= 0x1F || (0x7F <= (c as u32) && (c as u32) <= 0x9F)
}

/// Tests `control`, as `char::is_control` does.
pub fn is_control(c: char) -> (b: bool)
    ensures
        b == control(c),
{
    let u = c as u32;
    u <= 0x1F || (0x7F <= u && u <= 0x9F)
}

/// Which side of the card is being written.
#[derive(Clone, Copy, Debug, PartialEq, Eq, Structural)]
pub enum EditSide {
    Front,
    Back,
}

/// What a save ended with.
#[derive(Clone, Copy, Debug, PartialEq, Eq, Structural)]
pub enum SaveNotice {
    DbError,
    WriteError,
    Saved,
}

impl SaveNotice {
    /// The text shown for the notice.
    pub fn message(&self) -> (m: &'static str)
        ensures
            m@ == notice_text(*self),
    {
        match self {
            SaveNotice::DbError => "DB ERROR",
            SaveNotice::WriteError => "WRITE ERROR",
            SaveNotice::Saved => "SAVED AS APKG!",
        }
    }
}

pub open spec fn notice_text(n: SaveNotice) -> Seq<char> {
    match n {
        SaveNotice::DbError => "DB ERROR"@,
        SaveNotice::WriteError => "WRITE ERROR"@,
        SaveNotice::Saved => "SAVED AS APKG!"@,
    }
}

/// A card being written: its two sides and a cursor (a byte offset) in
/// each.
pub struct CardEditor {
    pub front: Vec<char>,
    pub back: Vec<char>,
    pub front_cursor: usize,
    pub back_cursor: usize,
}

/// A card being written, as a mathematical value.
pub struct CardState {
    pub front: Seq<char>,
    pub back: Seq<char>,
    pub front_cursor: int,
    pub back_cursor: int,
}

pub open spec fn card_state(c: CardEditor) -> CardState {
    CardState {
        front: c.front@,
        back: c.back@,
        front_cursor: c.front_cursor as int,
        back_cursor: c.back_cursor as int,
    }
}

pub open spec fn blank_card() -> CardState {
    CardState { front: Seq::empty(), back: Seq::empty(), front_cursor: 0, back_cursor: 0 }
}

/// The deck being written: the file it goes to, its cards, the card and
/// side being written.
pub struct CreateState {
    pub path: Seq<char>,
    pub cards: Seq<CardState>,
    pub current_index: int,
    pub side: EditSide,
}

/// The note of a card: its trimmed front and back, separated by the unit
/// separator.
pub open spec fn note_of(c: CardState) -> Seq<char> {
    trim_end(trim_start(c.front)) + seq!['\x1f'] + trim_end(trim_start(c.back))
}

/// The notes of the cards that have something on a side.
pub open spec fn notes_of(cards: Seq<CardState>) -> Seq<Seq<char>>
    decreases cards.len(),
{
    if cards.len() == 0 {
        Seq::empty()
    } else {
        let prev = notes_of(cards.drop_last());
        let c = cards.last();
        if trim_end(trim_start(c.front)).len() > 0 || trim_end(trim_start(c.back)).len() > 0 {
            prev.push(note_of(c))
        } else {
            prev
        }
    }
}

/// The card being written after a key that edits it, on side `front` or
/// the back.
pub open spec fn card_after(c: CardState, front: bool, key: Key) -> CardState {
    let t = if front {
        c.front
    } else {
        c.back
    };
    let p = if front {
        c.front_cursor
    } else {
        c.back_cursor
    };
    let (nt, np) = match key {
        Key::Left => (t, if p > 0 {
            p - 1
        } else {
            p
        }),
        Key::Right => (t, if p < byte_len(t) {
            p + 1
        } else {
            p
        }),
        Key::Char(ch) => if control(ch) {
            (t, p)
        } else {
            (t.insert(index_at(t, p), ch), p + 1)
        },
        Key::Backspace => if p > 0 {
            (t.remove(index_at(t, p - 1)), p - 1)
        } else {
            (t, p)
        },
        _ => (t, p),
    };
    if front {
        CardState { front: nt, front_cursor: np, ..c }
    } else {
        CardState { back: nt, back_cursor: np, ..c }
    }
}

/// What a key does to the deck (Ctrl-S, which saves, and Esc, which
/// leaves, change nothing): Ctrl-T turns the card over, Ctrl-P and Ctrl-N
/// go to the previous and next card (Ctrl-N adds a blank card after the
/// last one), Ctrl-D deletes the card (or blanks the only one), and the
/// arrows, characters and Backspace edit the side being written.
pub open spec fn create_after_key(st: CreateState, key: Key) -> CreateState {
    let i = st.current_index;
    let n = st.cards.len() as int;
    match key {
        Key::Ctrl(c) => if c == 't' {
            CreateState {
                side: if st.side == EditSide::Front {
                    EditSide::Back
                } else {
                    EditSide::Front
                },
                ..st
            }
        } else if c == 'p' {
            CreateState {
                current_index: if i > 0 {
                    i - 1
                } else {
                    i
                },
                ..st
            }
        } else if c == 'n' {
            if i < n - 1 {
                CreateState { current_index: i + 1, ..st }
            } else {
                CreateState {
                    cards: st.cards.push(blank_card()),
                    current_index: n,
                    side: EditSide::Front,
                    ..st
                }
            }
        } else if c == 'd' {
            if n > 1 {
                CreateState {
                    cards: st.cards.remove(i),
                    current_index: if i >= n - 1 {
                        n - 2
                    } else {
                        i
                    },
                    ..st
                }
            } else {
                CreateState { cards: st.cards.update(i, blank_card()), ..st }
            }
        } else {
            st
        },
        Key::Left | Key::Right | Key::Char(_) | Key::Backspace => CreateState {
            cards: st.cards.update(i, card_after(st.cards[i], st.side == EditSide::Front, key)),
            ..st
        },
        _ => st,
    }
}

/// A key edits at character boundaries only, within `usize`.
pub open spec fn create_key_ok(st: CreateState, key: Key) -> bool {
    let c = st.cards[st.current_index];
    let t = if st.side == EditSide::Front {
        c.front
    } else {
        c.back
    };
    let p = if st.side == EditSide::Front {
        c.front_cursor
    } else {
        c.back_cursor
    };
    match key {
        Key::Char(ch) => !control(ch) ==> at_boundary(t, p) && byte_len(t) + 4 <= usize::MAX,
        Key::Backspace => p > 0 ==> at_boundary(t, p - 1),
        _ => true,
    }
}

/// What a key asks beyond the edit: an action, or that the notes be saved
/// into the deck's file (see `LearnCreatePage::save_finished`).
pub enum CreateStep {
    Done(Action),
    Save(Vec<String>),
}

/// Writing a new deck card by card.
pub struct LearnCreatePage {
    path: String,
    cards: Vec<CardEditor>,
    current_index: usize,
    side: EditSide,
    message: Option<(SaveNotice, std::time::Instant)>,
}

impl View for LearnCreatePage {
    type V = CreateState;

    closed spec fn view(&self) -> CreateState {
        CreateState {
            path: self.path@,
            cards: self.cards@.map_values(|c: CardEditor| card_state(c)),
            current_index: self.current_index as int,
            side: self.side,
        }
    }
}

/// Whatever key comes, the deck keeps a card and the card written stays
/// one of them; Ctrl-N on the last card adds a blank card after it and
/// goes to its front side.
pub proof fn lemma_keys_keep_a_card(st: CreateState, key: Key)
    requires
        st.cards.len() >= 1,
        0 <= st.current_index < st.cards.len(),
    ensures
        create_after_key(st, key).cards.len() >= 1,
        0 <= create_after_key(st, key).current_index < create_after_key(st, key).cards.len(),
        key == Key::Ctrl('n') && st.current_index == st.cards.len() - 1 ==> ({
            let t = create_after_key(st, key);
            &&& t.cards == st.cards.push(blank_card())
            &&& t.cards.len() == st.cards.len() + 1
            &&& t.cards.last().front.len() == 0
            &&& t.cards.last().back.len() == 0
            &&& t.current_index == st.cards.len()
            &&& t.side == EditSide::Front
        }),
{
}

/// A card's cursors lie within its sides.
pub open spec fn card_ok(c: CardState) -> bool {
    &&& 0 <= c.front_cursor <= byte_len(c.front)
    &&& 0 <= c.back_cursor <= byte_len(c.back)
    &&& byte_len(c.front) <= usize::MAX
    &&& byte_len(c.back) <= usize::MAX
}

impl LearnCreatePage {
    /// The page's invariant: there is a card, the card written is one of
    /// them, and each card's cursors lie within its sides.
    pub open spec fn wf(&self) -> bool {
        &&& self@.cards.len() >= 1
        &&& 0 <= self@.current_index < self@.cards.len()
        &&& forall|k: int| 0 <= k < self@.cards.len() ==> card_ok(#[trigger] self@.cards[k])
    }

    /// The notice shown, if any.
    pub closed spec fn notice(&self) -> Option<SaveNotice> {
        match self.message {
            Some((n, _)) => Some(n),
            None => None,
        }
    }

    /// A deck of one blank card, going to `path`, front side.
    pub fn new(path: String) -> (p: Self)
        ensures
            p.wf(),
            p@ == (CreateState {
                path: path@,
                cards: seq![blank_card()],
                current_index: 0,
                side: EditSide::Front,
            }),
            p.notice() is None,
    {
        let mut cards: Vec<CardEditor> = Vec::new();
        cards.push(CardEditor { front: Vec::new(), back: Vec::new(), front_cursor: 0, back_cursor: 0 });
        let p = LearnCreatePage { path, cards, current_index: 0, side: EditSide::Front, message: None };
        proof {
            assert(p@.cards =~= seq![blank_card()]);
            assert(vstd::utf8::encode_utf8(Seq::<char>::empty()) =~= Seq::<u8>::empty());
        }
        p
    }

    /// The notes to save: see `notes_of`.
    pub fn notes(&self) -> (notes: Vec<String>)
        ensures
            notes@.map_values(|s: String| s@) == notes_of(self@.cards),
    {
        let ghost cs = self@.cards;
        let mut notes: Vec<String> = Vec::new();
        let mut i: usize = 0;
        proof {
            assert(cs.take(0) =~= Seq::<CardState>::empty());
            assert(notes@.map_values(|s: String| s@) =~= notes_of(cs.take(0)));
        }
        while i < self.cards.len()
            invariant
                cs == self@.cards,
                i <= cs.len(),
                notes@.map_values(|s: String| s@) == notes_of(cs.take(i as int)),
            decreases cs.len() - i,
        {
            let card = &self.cards[i];
            proof {
                assert(cs.take(i + 1).drop_last() =~= cs.take(i as int));
                assert(cs.take(i + 1).last() == cs[i as int]);
                assert(card_state(*card) == cs[i as int]);
            }
            let fs = string_of(&card.front);
            let bs = string_of(&card.back);
            let f = trim(fs.as_str());
            let b = trim(bs.as_str());
            let fl = chars_of(f);
            let bl = chars_of(b);
            if fl.len() > 0 || bl.len() > 0 {
                let mut note: Vec<char> = fl;
                note.push('\x1f');
                let mut rest = bl;
                let ghost n0 = note@;
                note.append(&mut rest);
                proof {
                    assert(note@ =~= note_of(cs[i as int]));
                }
                let ghost before = notes@.map_values(|s: String| s@);
                notes.push(string_of(&note));
                proof {
                    assert(notes@.map_values(|s: String| s@) =~= before.push(note_of(cs[i as int])));
                }
            }
            i = i + 1;
        }
        proof {
            assert(cs.take(i as int) =~= cs);
        }
        notes
    }

    /// Clears the notice once it has been shown for `NOTICE_MILLIS`. How
    /// long it has been shown is read from the clock, so whether it goes is
    /// left open; nothing else changes (see `expire_after` for the rule).
    pub fn expire_message(&mut self)
        requires
            old(self).wf(),
        ensures
            final(self).wf(),
            final(self)@ == old(self)@,
            final(self).notice() == old(self).notice() || final(self).notice() is None,
    {
        let elapsed = match &self.message {
            Some((_, time)) => {
                let now = instant_now();
                millis_between(time, &now)
            },
            None => 0,
        };
        self.expire_after(elapsed);
    }

    /// Clears the notice where it has been shown for `elapsed_ms`
    /// milliseconds, at least `NOTICE_MILLIS`; keeps it otherwise.
    pub fn expire_after(&mut self, elapsed_ms: u128)
        requires
            old(self).wf(),
        ensures
            final(self).wf(),
            final(self)@ == old(self)@,
            final(self).notice() == (if elapsed_ms >= NOTICE_MILLIS {
                None
            } else {
                old(self).notice()
            }),
    {
        if elapsed_ms >= NOTICE_MILLIS {
            self.message = None;
        }
    }

    /// The save ended with `notice`, which is shown from now on.
    pub fn save_finished(&mut self, notice: SaveNotice)
        requires
            old(self).wf(),
        ensures
            final(self).wf(),
            final(self)@ == old(self)@,
            final(self).notice() == Some(notice),
    {
        self.message = Some((notice, instant_now()));
    }

    /// A key press, after the notice has had its chance to expire; see
    /// `create_after_key`. Ctrl-S asks for the notes to be saved, Esc
    /// leaves.
    pub fn update(&mut self, key: Key) -> (r: CreateStep)
        requires
            old(self).wf(),
            create_key_ok(old(self)@, key),
        ensures
            final(self).wf(),
            final(self)@ == create_after_key(old(self)@, key),
            final(self).notice() == old(self).notice() || final(self).notice() is None,
            key == Key::Ctrl('s') ==> (r matches CreateStep::Save(notes) && notes@.map_values(
                |s: String| s@,
            ) == notes_of(old(self)@.cards)),
            key == Key::Esc ==> r matches CreateStep::Done(Action::Pop),
            (key != Key::Ctrl('s') && key != Key::Esc) ==> r matches CreateStep::Done(Action::Nothing),
    {
        self.expire_message();
        let ghost st = self@;
        match key {
            Key::Ctrl(c) => {
                if c == 's' {
                    return CreateStep::Save(self.notes());
                } else if c == 't' {
                    self.side = if self.side == EditSide::Front {
                        EditSide::Back
                    } else {
                        EditSide::Front
                    };
                } else if c == 'p' {
                    if self.current_index > 0 {
                        self.current_index = self.current_index - 1;
                    }
                } else if c == 'n' {
                    if self.current_index < self.cards.len() - 1 {
                        self.current_index = self.current_index + 1;
                    } else {
                        self.add_new_card();
                    }
                } else if c == 'd' {
                    self.delete_current_card();
                }
                CreateStep::Done(Action::Nothing)
            },
            Key::Left | Key::Right | Key::Char(_) | Key::Backspace => {
                self.edit_current(key);
                CreateStep::Done(Action::Nothing)
            },
            Key::Esc => CreateStep::Done(Action::Pop),
            _ => CreateStep::Done(Action::Nothing),
        }
    }

    fn add_new_card(&mut self)
        requires
            old(self).wf(),
        ensures
            final(self).wf(),
            final(self)@ == (CreateState {
                cards: old(self)@.cards.push(blank_card()),
                current_index: old(self)@.cards.len() as int,
                side: EditSide::Front,
                ..old(self)@
            }),
            final(self).notice() == old(self).notice(),
    {
        self.cards.push(CardEditor { front: Vec::new(), back: Vec::new(), front_cursor: 0, back_cursor: 0 });
        self.current_index = self.cards.len() - 1;
        self.side = EditSide::Front;
        proof {
            assert(vstd::utf8::encode_utf8(Seq::<char>::empty()) =~= Seq::<u8>::empty());
            assert(self@.cards =~= old(self)@.cards.push(blank_card()));
        }
    }

    fn delete_current_card(&mut self)
        requires
            old(self).wf(),
        ensures
            final(self).wf(),
            final(self)@ == create_after_key(old(self)@, Key::Ctrl('d')),
            final(self).notice() == old(self).notice(),
    {
        let ghost st = self@;
        if self.cards.len() > 1 {
            self.cards.remove(self.current_index);
            if self.current_index >= self.cards.len() {
                self.current_index = self.cards.len() - 1;
            }
            proof {
                assert(self@.cards =~= st.cards.remove(st.current_index));
            }
        } else {
            let i = self.current_index;
            self.cards.set(i, CardEditor { front: Vec::new(), back: Vec::new(), front_cursor: 0, back_cursor: 0 });
            proof {
                assert(vstd::utf8::encode_utf8(Seq::<char>::empty()) =~= Seq::<u8>::empty());
                assert(self@.cards =~= st.cards.update(i as int, blank_card()));
            }
        }
    }

    fn edit_current(&mut self, key: Key)
        requires
            old(self).wf(),
            create_key_ok(old(self)@, key),
        ensures
            final(self).wf(),
            final(self)@ == (CreateState {
                cards: old(self)@.cards.update(
                    old(self)@.current_index,
                    card_after(
                        old(self)@.cards[old(self)@.current_index],
                        old(self)@.side == EditSide::Front,
                        key,
                    ),
                ),
                ..old(self)@
            }),
            final(self).notice() == old(self).notice(),
    {
        let ghost st = self@;
        let i = self.current_index;
        let front = self.side == EditSide::Front;
        let old_card = &self.cards[i];
        let mut text = if front {
            old_card.front.clone()
        } else {
            old_card.back.clone()
        };
        let mut pos = if front {
            old_card.front_cursor
        } else {
            old_card.back_cursor
        };
        let ghost c0 = st.cards[i as int];
        proof {
            assert(card_state(*old_card) == c0);
            assert(card_ok(c0));
        }
        match key {
            Key::Left => {
                if pos > 0 {
                    pos = pos - 1;
                }
            },
            Key::Right => {
                proof {
                    lemma_byte_len_at_most(text@);
                    assert(text@.take(text@.len() as int) =~= text@);
                }
                let n = prefix_byte_len(&text, text.len());
                if pos < n {
                    pos = pos + 1;
                }
            },
            Key::Char(ch) => {
                if !is_control(ch) {
                    insert_at_byte(&mut text, pos, ch);
                    proof {
                        lemma_encode_scalar_len(ch);
                    }
                    pos = pos + 1;
                }
            },
            Key::Backspace => {
                if pos > 0 {
                    remove_at_byte(&mut text, pos - 1);
                    pos = pos - 1;
                }
            },
            _ => {},
        }
        let (f, b, fc, bc) = if front {
            (text, self.cards[i].back.clone(), pos, self.cards[i].back_cursor)
        } else {
            (self.cards[i].front.clone(), text, self.cards[i].front_cursor, pos)
        };
        self.cards.set(i, CardEditor { front: f, back: b, front_cursor: fc, back_cursor: bc });
        proof {
            assert(self@.cards =~= st.cards.update(i as int, card_after(c0, front, key)));
        }
    }

    /// The file the deck goes to.
    pub fn path(&self) -> (p: &String)
        ensures
            p@ == self@.path,
    {
        &self.path
    }

    /// The cards.
    pub fn cards(&self) -> (c: &Vec<CardEditor>)
        ensures
            c@.map_values(|c: CardEditor| card_state(c)) == self@.cards,
    {
        &self.cards
    }

    pub fn current_index(&self) -> (i: usize)
        ensures
            i == self@.current_index,
    {
        self.current_index
    }

    pub fn side(&self) -> (s: EditSide)
        ensures
            s == self@.side,
    {
        self.side
    }

    /// The notice shown, if any.
    pub fn message(&self) -> (m: Option<SaveNotice>)
        ensures
            m == self.notice(),
    {
        match &self.message {
            Some((n, _)) => Some(*n),
            None => None,
        }
    }
}

} // verus!
