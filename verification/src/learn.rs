use vstd::prelude::*;
use crate::action::Action;
use crate::char_class::{lowercased, to_lowercase, trim, trim_end, trim_start};
use crate::keys::Key;
use crate::utf8_text::{chars_of, split_chars, split_on, string_of};

verus! {

/// What `regex::Regex::replace_all` gives when the regular expression
/// `pattern` is used to replace, in `text`, every match by `replacement`.
pub uninterp spec fn regex_replaced(pattern: Seq<char>, text: Seq<char>, replacement: Seq<char>) -> Seq<
    char,
>;

/// The text with its tags removed, as replacing every match of `<[^>]*>`
/// by nothing does: scanning from the left, a `<` that has a `>` somewhere
/// after it is removed together with everything up to and including the
/// first such `>`; a `<` with no `>` after it stays, as does every other
/// character outside a tag.
pub open spec fn tags_stripped(s: Seq<char>) -> Seq<char> {
    stripped_from(s, false)
}

/// `tags_stripped` of the rest of a text, where `inside` says that the
/// scan is within a tag, after its `<`.
pub open spec fn stripped_from(s: Seq<char>, inside: bool) -> Seq<char>
    decreases s.len(),
{
    if s.len() == 0 {
        Seq::empty()
    } else if inside {
        stripped_from(s.skip(1), s[0] != '>')
    } else if s[0] == '<' && s.skip(1).contains('>') {
        stripped_from(s.skip(1), true)
    } else {
        seq![s[0]] + stripped_from(s.skip(1), false)
    }
}

/// Calls `regex::Regex::new(pattern)` and, where it compiles,
/// `replace_all(text, replacement)` on it. Claimed: the text returned is
/// `regex_replaced` of the three (a function of them alone); the pattern
/// that matches HTML tags compiles, and with an empty replacement it gives
/// `tags_stripped` of the text, since the search takes the leftmost match,
/// `[^>]*` cannot pass a `>`, and matches do not overlap. For other
/// patterns what the replacement is is not restated here.
#[verifier::external_body]
fn regex_replace_all(pattern: &str, text: &str, replacement: &str) -> (r: Option<String>)
    ensures
        r matches Some(s) ==> s@ == regex_replaced(pattern@, text@, replacement@),
        pattern@ == "<[^>]*>"@ ==> r is Some,
        r matches Some(s) ==> (pattern@ == "<[^>]*>"@ && replacement@.len() == 0 ==> s@ == tags_stripped(text@)),
{
    match regex::Regex::new(pattern) {
        Ok(re) => Some(re.replace_all(text, replacement).into_owned()),
        Err(_) => None,
    }
}

/// Card text being wrapped: the lines done and the line being filled.
pub struct WrapState {
    pub lines: Seq<Seq<char>>,
    pub current: Seq<char>,
}

/// The line being filled with `word` added after a space (or alone when
/// the line is empty).
pub open spec fn with_word(current: Seq<char>, word: Seq<char>) -> Seq<char> {
    if current.len() == 0 {
        word
    } else {
        current + seq![' '] + word
    }
}

/// The wrapping after the next word, where `too_wide` says whether the
/// candidate line is wider than the card: then the line being filled ends
/// (even an empty one) and the word starts the next.
pub open spec fn word_wrapped(s: WrapState, word: Seq<char>, too_wide: bool) -> WrapState {
    if too_wide {
        WrapState { lines: s.lines.push(s.current), current: word }
    } else {
        WrapState { current: with_word(s.current, word), ..s }
    }
}

/// Wraps card text into lines that fit the card, word by word; the program
/// measures each candidate line with the font.
pub struct WrapBuilder {
    lines: Vec<Vec<char>>,
    current: Vec<char>,
}

impl View for WrapBuilder {
    type V = WrapState;

    closed spec fn view(&self) -> WrapState {
        WrapState { lines: self.lines@.map_values(|l: Vec<char>| l@), current: self.current@ }
    }
}

impl WrapBuilder {
    /// Nothing wrapped yet.
    pub fn new() -> (b: Self)
        ensures
            b@ == (WrapState { lines: Seq::empty(), current: Seq::empty() }),
    {
        let b = Self { lines: Vec::new(), current: Vec::new() };
        proof {
            assert(b.lines@.map_values(|l: Vec<char>| l@) =~= Seq::<Seq<char>>::empty());
        }
        b
    }

    /// The line being filled with `word` added: what is to be measured.
    pub fn candidate(&self, word: &Vec<char>) -> (r: Vec<char>)
        ensures
            r@ == with_word(self@.current, word@),
    {
        let mut r: Vec<char> = if self.current.len() == 0 {
            Vec::new()
        } else {
            let mut c = self.current.clone();
            c.push(' ');
            c
        };
        let ghost start = r@;
        proof {
            assert(word@.take(0) =~= Seq::<char>::empty());
            assert(r@ =~= start + word@.take(0));
        }
        let mut i: usize = 0;
        while i < word.len()
            invariant
                i <= word@.len(),
                r@ == start + word@.take(i as int),
            decreases word@.len() - i,
        {
            r.push(word[i]);
            i = i + 1;
            proof {
                assert(r@ =~= start + word@.take(i as int));
            }
        }
        proof {
            assert(word@.take(i as int) =~= word@);
            if self.current@.len() == 0 {
                assert(r@ =~= word@);
            } else {
                assert(r@ =~= self.current@ + seq![' '] + word@);
            }
        }
        r
    }

    /// Places the next word, given the width of the candidate line and the
    /// widest a line may be.
    pub fn add_word(&mut self, word: &Vec<char>, width: i32, max_width: i32)
        ensures
            final(self)@ == word_wrapped(old(self)@, word@, width > max_width),
    {
        if width > max_width {
            let ghost before = self.lines@.map_values(|l: Vec<char>| l@);
            let done = self.current.clone();
            proof {
                assert(done@ =~= self.current@);
            }
            self.lines.push(done);
            self.current = word.clone();
            proof {
                assert(self.current@ =~= word@);
                assert(self.lines@.map_values(|l: Vec<char>| l@) =~= before.push(done@));
            }
        } else {
            self.current = self.candidate(word);
        }
    }

    /// Ends a paragraph: the line being filled, if it holds anything,
    /// becomes a line.
    pub fn end_paragraph(&mut self)
        ensures
            final(self)@ == (WrapState {
                lines: if old(self)@.current.len() > 0 {
                    old(self)@.lines.push(old(self)@.current)
                } else {
                    old(self)@.lines
                },
                current: Seq::empty(),
            }),
    {
        if self.current.len() > 0 {
            let ghost before = self.lines@.map_values(|l: Vec<char>| l@);
            let done = self.current.clone();
            proof {
                assert(done@ =~= self.current@);
            }
            self.lines.push(done);
            proof {
                assert(self.lines@.map_values(|l: Vec<char>| l@) =~= before.push(done@));
            }
        }
        self.current = Vec::new();
    }

    /// The lines wrapped.
    pub fn finish(self) -> (ls: Vec<Vec<char>>)
        ensures
            ls@.map_values(|l: Vec<char>| l@) == self@.lines,
    {
        self.lines
    }
}

/// `s` with every occurrence of `pat` replaced by `rep`, from left to
/// right, as `str::replace` does.
pub open spec fn replaced(s: Seq<char>, pat: Seq<char>, rep: Seq<char>) -> Seq<char>
    decreases s.len(),
{
    if s.len() == 0 || pat.len() == 0 {
        s
    } else if s.len() >= pat.len() && s.take(pat.len() as int) == pat {
        rep + replaced(s.skip(pat.len() as int), pat, rep)
    } else {
        seq![s[0]] + replaced(s.skip(1), pat, rep)
    }
}

/// `pat` occurs in `s`.
pub open spec fn contains_seq(s: Seq<char>, pat: Seq<char>) -> bool {
    exists|i: int| 0 <= i && i + pat.len() <= s.len() && #[trigger] s.subrange(i, i + pat.len()) == pat
}

/// The markup of list items, breaks and non-breaking spaces turned into
/// line breaks, bullets and spaces.
pub open spec fn unmarked(s: Seq<char>) -> Seq<char> {
    let a = replaced(s, seq!['<', 'l', 'i', '>'], seq!['\n', '•', ' ']);
    let b = replaced(a, seq!['<', '/', 'l', 'i', '>'], Seq::empty());
    let c = replaced(b, seq!['<', 'u', 'l', '>'], seq!['\n']);
    let d = replaced(c, seq!['<', '/', 'u', 'l', '>'], seq!['\n']);
    let e = replaced(d, seq!['<', 'b', 'r', '>'], seq!['\n']);
    let f = replaced(e, seq!['<', 'b', 'r', '/', '>'], seq!['\n']);
    replaced(f, seq!['&', 'n', 'b', 's', 'p', ';'], seq![' '])
}

/// The lines without their tags and surrounding whitespace, blank ones left
/// out.
pub open spec fn cleaned_lines(ls: Seq<Seq<char>>) -> Seq<Seq<char>>
    decreases ls.len(),
{
    if ls.len() == 0 {
        Seq::empty()
    } else {
        let prev = cleaned_lines(ls.drop_last());
        let t = trim_end(trim_start(tags_stripped(ls.last())));
        if t.len() > 0 {
            prev.push(t)
        } else {
            prev
        }
    }
}

/// The lines joined with line breaks.
pub open spec fn joined(ls: Seq<Seq<char>>) -> Seq<char>
    decreases ls.len(),
{
    if ls.len() == 0 {
        Seq::empty()
    } else if ls.len() == 1 {
        ls[0]
    } else {
        joined(ls.drop_last()) + seq!['\n'] + ls.last()
    }
}

/// A card field as plain text: list and break markup turned into line
/// breaks, tags removed, each line trimmed, blank lines dropped.
pub open spec fn clean_html_text(s: Seq<char>) -> Seq<char> {
    joined(cleaned_lines(split_on(unmarked(s), '\n')))
}

/// `s` with every `pat` replaced by `rep`, as `str::replace` does.
pub(crate) fn replace_chars(s: &Vec<char>, pat: &Vec<char>, rep: &Vec<char>) -> (r: Vec<char>)
    requires
        pat@.len() > 0,
    ensures
        r@ == replaced(s@, pat@, rep@),
{
    let mut out: Vec<char> = Vec::new();
    let mut i: usize = 0;
    let n = s.len();
    let m = pat.len();
    proof {
        assert(s@.skip(0) =~= s@);
        assert(out@ + replaced(s@.skip(0), pat@, rep@) =~= replaced(s@, pat@, rep@));
    }
    while i < n
        invariant
            n == s@.len(),
            m == pat@.len(),
            m > 0,
            i <= n,
            out@ + replaced(s@.skip(i as int), pat@, rep@) == replaced(s@, pat@, rep@),
        decreases n - i,
    {
        let ghost t = s@.skip(i as int);
        let mut matched = n - i >= m;
        let mut j: usize = 0;
        while matched && j < m
            invariant
                n == s@.len(),
                m == pat@.len(),
                i < n,
                j <= m,
                t == s@.skip(i as int),
                matched ==> n - i >= m && forall|q: int| 0 <= q < j ==> s@[i + q] == pat@[q],
                !matched ==> !(t.len() >= m && t.take(m as int) == pat@),
            decreases m - j + (if matched { 1int } else { 0int }),
        {
            if s[i + j] != pat[j] {
                matched = false;
                proof {
                    if t.len() >= m && t.take(m as int) == pat@ {
                        assert(t.take(m as int)[j as int] == s@[i + j]);
                    }
                }
            } else {
                j = j + 1;
            }
        }
        if matched {
            proof {
                assert(t.take(m as int) =~= pat@);
                assert(t.skip(m as int) =~= s@.skip(i + m));
            }
            let mut k: usize = 0;
            let ghost out0 = out@;
            while k < rep.len()
                invariant
                    k <= rep@.len(),
                    out@ == out0 + rep@.take(k as int),
                decreases rep@.len() - k,
            {
                out.push(rep[k]);
                proof {
                    assert(out@ =~= out0 + rep@.take(k + 1));
                }
                k = k + 1;
            }
            proof {
                assert(rep@.take(k as int) =~= rep@);
                assert(out@ + replaced(s@.skip(i + m), pat@, rep@) =~= out0 + (rep@ + replaced(
                    t.skip(m as int),
                    pat@,
                    rep@,
                )));
            }
            i = i + m;
        } else {
            proof {
                assert(t.skip(1) =~= s@.skip(i + 1));
                assert(t[0] == s@[i as int]);
            }
            let ghost out0 = out@;
            out.push(s[i]);
            proof {
                assert(out@ + replaced(s@.skip(i + 1), pat@, rep@) =~= out0 + (seq![t[0]] + replaced(
                    t.skip(1),
                    pat@,
                    rep@,
                )));
            }
            i = i + 1;
        }
    }
    proof {
        assert(s@.skip(i as int) =~= Seq::<char>::empty());
    }
    out
}

/// `pat` occurs in `s`.
fn contains_chars(s: &Vec<char>, pat: &Vec<char>) -> (b: bool)
    ensures
        b == contains_seq(s@, pat@),
{
    let n = s.len();
    let m = pat.len();
    if m > n {
        return false;
    }
    let mut i: usize = 0;
    while i <= n - m
        invariant
            n == s@.len(),
            m == pat@.len(),
            m <= n,
            i <= n - m + 1,
            forall|q: int| 0 <= q < i ==> #[trigger] s@.subrange(q, q + m) != pat@,
        decreases n - m + 1 - i,
    {
        let mut j: usize = 0;
        let mut same = true;
        while same && j < m
            invariant
                n == s@.len(),
                m == pat@.len(),
                i + m <= n,
                j <= m,
                same ==> forall|q: int| 0 <= q < j ==> s@[i + q] == pat@[q],
                !same ==> s@.subrange(i as int, i + m) != pat@,
            decreases m - j + (if same { 1int } else { 0int }),
        {
            if s[i + j] != pat[j] {
                same = false;
                proof {
                    assert(s@.subrange(i as int, i + m)[j as int] == s@[i + j]);
                }
            } else {
                j = j + 1;
            }
        }
        if same {
            proof {
                assert(s@.subrange(i as int, i + m) =~= pat@);
            }
            return true;
        }
        if i == n - m {
            return false;
        }
        i = i + 1;
    }
    false
}

/// A card field as plain text; see `clean_html_text`.
pub fn clean_html(input: &str) -> (r: String)
    ensures
        r@ == clean_html_text(input@),
{
    let li_open: Vec<char> = vec!['<', 'l', 'i', '>'];
    let bullet: Vec<char> = vec!['\n', '•', ' '];
    let li_close: Vec<char> = vec!['<', '/', 'l', 'i', '>'];
    let nothing: Vec<char> = Vec::new();
    let ul_open: Vec<char> = vec!['<', 'u', 'l', '>'];
    let ul_close: Vec<char> = vec!['<', '/', 'u', 'l', '>'];
    let br: Vec<char> = vec!['<', 'b', 'r', '>'];
    let br_closed: Vec<char> = vec!['<', 'b', 'r', '/', '>'];
    let nbsp: Vec<char> = vec!['&', 'n', 'b', 's', 'p', ';'];
    let newline: Vec<char> = vec!['\n'];
    let space: Vec<char> = vec![' '];
    proof {
        assert(li_open@ =~= seq!['<', 'l', 'i', '>']);
        assert(bullet@ =~= seq!['\n', '•', ' ']);
        assert(li_close@ =~= seq!['<', '/', 'l', 'i', '>']);
        assert(nothing@ =~= Seq::<char>::empty());
        assert(ul_open@ =~= seq!['<', 'u', 'l', '>']);
        assert(ul_close@ =~= seq!['<', '/', 'u', 'l', '>']);
        assert(br@ =~= seq!['<', 'b', 'r', '>']);
        assert(br_closed@ =~= seq!['<', 'b', 'r', '/', '>']);
        assert(nbsp@ =~= seq!['&', 'n', 'b', 's', 'p', ';']);
        assert(newline@ =~= seq!['\n']);
        assert(space@ =~= seq![' ']);
    }
    let s0 = chars_of(input);
    let s1 = replace_chars(&s0, &li_open, &bullet);
    let s2 = replace_chars(&s1, &li_close, &nothing);
    let s3 = replace_chars(&s2, &ul_open, &newline);
    let s4 = replace_chars(&s3, &ul_close, &newline);
    let s5 = replace_chars(&s4, &br, &newline);
    let s6 = replace_chars(&s5, &br_closed, &newline);
    let s = replace_chars(&s6, &nbsp, &space);
    proof {
        assert(s@ == unmarked(input@));
    }
    let lines = split_chars(&s, '\n');
    let ghost ls = lines@.map_values(|p: Vec<char>| p@);
    let mut kept: Vec<String> = Vec::new();
    let mut i: usize = 0;
    proof {
        assert(ls.take(0) =~= Seq::<Seq<char>>::empty());
        assert(kept@.map_values(|k: String| k@) =~= cleaned_lines(ls.take(0)));
    }
    while i < lines.len()
        invariant
            ls == lines@.map_values(|p: Vec<char>| p@),
            i <= ls.len(),
            kept@.map_values(|k: String| k@) == cleaned_lines(ls.take(i as int)),
        decreases ls.len() - i,
    {
        let line = string_of(&lines[i]);
        let stripped = regex_replace_all("<[^>]*>", line.as_str(), "");
        proof {
            reveal_strlit("");
            assert(ls.take(i + 1).drop_last() =~= ls.take(i as int));
            assert(ls.take(i + 1).last() == lines@[i as int]@);
        }
        proof {
            assert(""@ =~= Seq::<char>::empty());
            assert(line@ == ls[i as int]);
            assert(stripped is Some);
        }
        match stripped {
            Some(st) => {
                proof {
                    assert(st@ == tags_stripped(ls[i as int]));
                }
                let t = trim(st.as_str());
                if t.unicode_len() > 0 {
                    let ghost before = kept@.map_values(|k: String| k@);
                    kept.push(t.to_owned());
                    proof {
                        assert(kept@.map_values(|k: String| k@) =~= before.push(t@));
                    }
                }
            },
            None => {},
        }
        i = i + 1;
    }
    proof {
        assert(ls.take(i as int) =~= ls);
    }
    let mut out = String::new();
    let mut j: usize = 0;
    let ghost cl = kept@.map_values(|k: String| k@);
    while j < kept.len()
        invariant
            cl == kept@.map_values(|k: String| k@),
            j <= cl.len(),
            out@ == joined(cl.take(j as int)),
        decreases cl.len() - j,
    {
        proof {
            assert(cl.take(j + 1).drop_last() =~= cl.take(j as int));
            assert(cl.take(j + 1).last() == kept@[j as int]@);
            if j == 0 {
                assert(cl.take(0) =~= Seq::<Seq<char>>::empty());
            }
        }
        if j > 0 {
            crate::writing_document::push_char(&mut out, '\n');
        }
        let piece = chars_of(kept[j].as_str());
        let mut k: usize = 0;
        let ghost out0 = out@;
        while k < piece.len()
            invariant
                k <= piece@.len(),
                out@ == out0 + piece@.take(k as int),
            decreases piece@.len() - k,
        {
            crate::writing_document::push_char(&mut out, piece[k]);
            proof {
                assert(out@ =~= out0 + piece@.take(k + 1));
            }
            k = k + 1;
        }
        proof {
            assert(piece@.take(k as int) =~= piece@);
            if j == 0 {
                assert(cl.take(1)[0] == cl[0]);
                assert(out@ =~= cl.take(1)[0]);
            } else {
                assert(out@ =~= joined(cl.take(j as int)) + seq!['\n'] + cl[j as int]);
            }
        }
        j = j + 1;
    }
    proof {
        assert(cl.take(j as int) =~= cl);
    }
    out
}

/// A card: a question and its answer.
pub struct Flashcard {
    pub question: String,
    pub answer: String,
}

/// The card a note's fields (separated by the unit separator) give: the
/// first field cleaned is the question, the second the answer ("Empty A"
/// where there is none).
pub open spec fn card_of(fields: Seq<char>) -> (Seq<char>, Seq<char>) {
    let parts = split_on(fields, '\x1f');
    (
        clean_html_text(parts[0]),
        if parts.len() > 1 {
            clean_html_text(parts[1])
        } else {
            "Empty A"@
        },
    )
}

/// A card is kept unless its question is empty or, in lower case, asks to
/// update the program.
pub open spec fn card_kept(question: Seq<char>) -> bool {
    &&& !contains_seq(lowercased(question), "update to the latest anki"@)
    &&& lowercased(question).len() > 0
}

/// The card of a note's fields; see `card_of`.
pub fn card_from_fields(fields: &str) -> (c: Flashcard)
    ensures
        (c.question@, c.answer@) == card_of(fields@),
{
    let chars = chars_of(fields);
    let parts = split_chars(&chars, '\x1f');
    let q = string_of(&parts[0]);
    let question = clean_html(q.as_str());
    let answer = if parts.len() > 1 {
        let a = string_of(&parts[1]);
        clean_html(a.as_str())
    } else {
        "Empty A".to_owned()
    };
    Flashcard { question, answer }
}

/// Tests `card_kept` on the card's question.
pub fn keep_card(card: &Flashcard) -> (b: bool)
    ensures
        b == card_kept(card.question@),
{
    let lower = to_lowercase(card.question.as_str());
    let l = chars_of(lower.as_str());
    let pat = chars_of("update to the latest anki");
    !contains_chars(&l, &pat) && l.len() > 0
}

/// The deck that the notes' fields give: each note's card, those that
/// `card_kept` refuses left out.
pub open spec fn deck_of(rows: Seq<Seq<char>>) -> Seq<(Seq<char>, Seq<char>)>
    decreases rows.len(),
{
    if rows.len() == 0 {
        Seq::empty()
    } else {
        let prev = deck_of(rows.drop_last());
        let c = card_of(rows.last());
        if card_kept(c.0) {
            prev.push(c)
        } else {
            prev
        }
    }
}

pub open spec fn cards_view(deck: Seq<Flashcard>) -> Seq<(Seq<char>, Seq<char>)> {
    deck.map_values(|c: Flashcard| (c.question@, c.answer@))
}

/// The deck of the notes' fields; see `deck_of`.
pub fn deck_from_rows(rows: &Vec<String>) -> (deck: Vec<Flashcard>)
    ensures
        cards_view(deck@) == deck_of(rows@.map_values(|r: String| r@)),
{
    let ghost rs = rows@.map_values(|r: String| r@);
    let mut deck: Vec<Flashcard> = Vec::new();
    let mut i: usize = 0;
    proof {
        assert(rs.take(0) =~= Seq::<Seq<char>>::empty());
        assert(cards_view(deck@) =~= deck_of(rs.take(0)));
    }
    while i < rows.len()
        invariant
            rs == rows@.map_values(|r: String| r@),
            i <= rs.len(),
            cards_view(deck@) == deck_of(rs.take(i as int)),
        decreases rs.len() - i,
    {
        proof {
            assert(rs.take(i + 1).drop_last() =~= rs.take(i as int));
            assert(rs.take(i + 1).last() == rows@[i as int]@);
        }
        let card = card_from_fields(rows[i].as_str());
        if keep_card(&card) {
            let ghost before = cards_view(deck@);
            let ghost cv = (card.question@, card.answer@);
            deck.push(card);
            proof {
                assert(cards_view(deck@) =~= before.push(cv));
            }
        }
        i = i + 1;
    }
    proof {
        assert(rs.take(i as int) =~= rs);
    }
    deck
}

/// Which side of the card is shown.
#[derive(Clone, Copy, Debug, PartialEq, Eq, Structural)]
pub enum LearnState {
    Question,
    Answer,
}

/// The learning page's state: the deck, the card shown, its side, and
/// whether its answer has been seen.
pub struct LearnView {
    pub deck: Seq<(Seq<char>, Seq<char>)>,
    pub current_index: int,
    pub state: LearnState,
    pub answer_revealed: bool,
}

/// The next card (after the last, the first), question side, answer not
/// yet seen; nothing changes with an empty deck.
pub open spec fn next_card_of(v: LearnView) -> LearnView {
    if v.deck.len() > 0 {
        LearnView {
            current_index: (v.current_index + 1) % (v.deck.len() as int),
            state: LearnState::Question,
            answer_revealed: false,
            ..v
        }
    } else {
        v
    }
}

/// What a key does: space turns the card over (and marks the answer seen
/// when it shows it), a rating from 1 to 4 goes to the next card once the
/// answer has been seen, Esc leaves.
pub open spec fn learn_after_key(v: LearnView, key: Key) -> (LearnView, Action) {
    match key {
        Key::Char(c) => if c == ' ' {
            (if v.state == LearnState::Question {
                LearnView { state: LearnState::Answer, answer_revealed: true, ..v }
            } else {
                LearnView { state: LearnState::Question, ..v }
            }, Action::Nothing)
        } else if '1' <= c && c <= '4' {
            (if v.answer_revealed {
                next_card_of(v)
            } else {
                v
            }, Action::Nothing)
        } else {
            (v, Action::Nothing)
        },
        Key::Esc => (v, Action::Pop),
        _ => (v, Action::Nothing),
    }
}

/// Studying a deck, one card at a time.
pub struct LearnPage {
    deck: Vec<Flashcard>,
    current_index: usize,
    state: LearnState,
    answer_revealed: bool,
}

impl View for LearnPage {
    type V = LearnView;

    closed spec fn view(&self) -> LearnView {
        LearnView {
            deck: cards_view(self.deck@),
            current_index: self.current_index as int,
            state: self.state,
            answer_revealed: self.answer_revealed,
        }
    }
}

impl LearnPage {
    /// The page's invariant: the card shown is in the deck, or the deck is
    /// empty and the first card is named.
    pub open spec fn wf(&self) -> bool {
        if self@.deck.len() > 0 {
            0 <= self@.current_index < self@.deck.len()
        } else {
            self@.current_index == 0
        }
    }

    /// The page on a deck: first card, question side.
    pub fn new(deck: Vec<Flashcard>) -> (p: Self)
        ensures
            p.wf(),
            p@ == (LearnView {
                deck: cards_view(deck@),
                current_index: 0,
                state: LearnState::Question,
                answer_revealed: false,
            }),
    {
        LearnPage { deck, current_index: 0, state: LearnState::Question, answer_revealed: false }
    }

    fn next_card(&mut self)
        requires
            old(self).wf(),
        ensures
            final(self).wf(),
            final(self)@ == next_card_of(old(self)@),
    {
        if self.deck.len() > 0 {
            self.current_index = (self.current_index + 1) % self.deck.len();
            self.state = LearnState::Question;
            self.answer_revealed = false;
        }
    }

    /// A key press; see `learn_after_key`.
    pub fn update(&mut self, key: Key) -> (a: Action)
        requires
            old(self).wf(),
        ensures
            final(self).wf(),
            (final(self)@, a) == learn_after_key(old(self)@, key),
    {
        match key {
            Key::Char(c) => {
                if c == ' ' {
                    if self.state == LearnState::Question {
                        self.state = LearnState::Answer;
                        self.answer_revealed = true;
                    } else {
                        self.state = LearnState::Question;
                    }
                } else if '1' <= c && c <= '4' {
                    if self.answer_revealed {
                        self.next_card();
                    }
                }
                Action::Nothing
            },
            Key::Esc => Action::Pop,
            _ => Action::Nothing,
        }
    }

    /// The deck.
    pub fn deck(&self) -> (d: &Vec<Flashcard>)
        ensures
            cards_view(d@) == self@.deck,
    {
        &self.deck
    }

    pub fn current_index(&self) -> (i: usize)
        ensures
            i == self@.current_index,
    {
        self.current_index
    }

    pub fn state(&self) -> (s: LearnState)
        ensures
            s == self@.state,
    {
        self.state
    }

    pub fn answer_revealed(&self) -> (b: bool)
        ensures
            b == self@.answer_revealed,
    {
        self.answer_revealed
    }
}

/// Going on from card to card comes back to the first after as many steps
/// as the deck has cards (each step shows the next card's question).
pub proof fn lemma_next_card_cycles(v: LearnView)
    requires
        v.deck.len() > 0,
        0 <= v.current_index < v.deck.len(),
    ensures
        next_card_of(v).current_index == (if v.current_index + 1 == v.deck.len() {
            0
        } else {
            v.current_index + 1
        }),
        next_card_of(v).state == LearnState::Question,
        !next_card_of(v).answer_revealed,
        next_card_of(v).deck == v.deck,
{
    if v.current_index + 1 < v.deck.len() {
        vstd::arithmetic::div_mod::lemma_small_mod((v.current_index + 1) as nat, v.deck.len());
    } else {
        vstd::arithmetic::div_mod::lemma_mod_self_0(v.deck.len() as int);
    }
}

/// Turning a card over twice shows the same side again, and the answer
/// counts as seen.
pub proof fn lemma_flip_twice(v: LearnView)
    ensures
        learn_after_key(learn_after_key(v, Key::Char(' ')).0, Key::Char(' ')).0 == (LearnView {
            answer_revealed: true,
            ..v
        }),
{
}

} // verus!
