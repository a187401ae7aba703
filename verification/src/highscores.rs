use vstd::prelude::*;
use crate::action::Action;
use crate::char_class::{trim, trim_end, trim_start};
use crate::keys::Key;

verus! {

/// Entries the table shows.
pub const TABLE_SIZE: usize = 10;

/// Every character of `s` is an ASCII digit, and there is one at least.
pub open spec fn all_digits(s: Seq<char>) -> bool {
    s.len() >= 1 && forall|i: int| 0 <= i < s.len() ==> '0' <= #[trigger] s[i] && s[i] <= '9'
}

/// The number that the decimal digits `s` write.
pub open spec fn decimal(s: Seq<char>) -> int
    decreases s.len(),
{
    if s.len() == 0 {
        0
    } else {
        decimal(s.drop_last()) * 10 + (s.last() as int - '0' as int)
    }
}

/// What `u32::from_str` gives for `s`: an optional `+` followed by decimal
/// digits whose value fits in 32 bits; nothing for any other text.
pub open spec fn parsed_u32(s: Seq<char>) -> Option<u32> {
    let body = if s.len() > 0 && s[0] == '+' {
        s.drop_first()
    } else {
        s
    };
    if all_digits(body) && decimal(body) <= u32::MAX {
        Some(decimal(body) as u32)
    } else {
        None
    }
}

/// Calls `str::parse::<u32>`. Claimed: it succeeds exactly on an optional
/// `+` followed by decimal digits whose value fits, with that value, as the
/// documentation of `u32::from_str_radix` says.
#[verifier::external_body]
fn parse_u32(s: &str) -> (r: Option<u32>)
    ensures
        r == parsed_u32(s@),
{
    s.parse::<u32>().ok()
}

/// The scores that the lines give: each line that, trimmed, is a number.
pub open spec fn scores_of(lines: Seq<Seq<char>>) -> Seq<u32>
    decreases lines.len(),
{
    if lines.len() == 0 {
        Seq::empty()
    } else {
        let before = scores_of(lines.drop_last());
        match parsed_u32(trim_end(trim_start(lines.last()))) {
            Some(v) => before.push(v),
            None => before,
        }
    }
}

/// `s` with `v` put before its first element smaller than `v`.
pub open spec fn insert_desc(s: Seq<u32>, v: u32) -> Seq<u32>
    decreases s.len(),
{
    if s.len() == 0 {
        seq![v]
    } else if s[0] < v {
        seq![v] + s
    } else {
        seq![s[0]] + insert_desc(s.drop_first(), v)
    }
}

/// The elements of `s` from the largest to the smallest.
pub open spec fn sorted_desc(s: Seq<u32>) -> Seq<u32>
    decreases s.len(),
{
    if s.len() == 0 {
        Seq::empty()
    } else {
        insert_desc(sorted_desc(s.drop_last()), s.last())
    }
}

/// No element is smaller than one after it.
pub open spec fn descending(s: Seq<u32>) -> bool {
    forall|i: int, j: int| 0 <= i < j < s.len() ==> s[i] >= s[j]
}

/// The first `n` elements of `s`, filled up with zeros to `n`.
pub open spec fn padded(s: Seq<u32>, n: int) -> Seq<u32> {
    Seq::new(n as nat, |i: int| if i < s.len() { s[i] } else { 0u32 })
}

/// The table of the best scores that the lines give: the largest first,
/// always ten entries, zeros where there are fewer scores.
pub open spec fn score_table(lines: Seq<Seq<char>>) -> Seq<u32> {
    padded(sorted_desc(scores_of(lines)), TABLE_SIZE as int)
}

/// Where `insert_desc` puts `v`: before the first element smaller than it.
pub open spec fn insert_pos(s: Seq<u32>, v: u32) -> int
    decreases s.len(),
{
    if s.len() == 0 {
        0
    } else if s[0] < v {
        0
    } else {
        1 + insert_pos(s.drop_first(), v)
    }
}

proof fn lemma_insert_pos(s: Seq<u32>, v: u32)
    ensures
        0 <= insert_pos(s, v) <= s.len(),
        insert_desc(s, v) == s.insert(insert_pos(s, v), v),
        forall|k: int| 0 <= k < insert_pos(s, v) ==> s[k] >= v,
        insert_pos(s, v) < s.len() ==> s[insert_pos(s, v)] < v,
    decreases s.len(),
{
    if s.len() == 0 {
        assert(insert_desc(s, v) =~= s.insert(0, v));
    } else if s[0] < v {
        assert(insert_desc(s, v) =~= s.insert(0, v));
    } else {
        let t = s.drop_first();
        lemma_insert_pos(t, v);
        let p = insert_pos(t, v);
        assert(insert_desc(s, v) =~= s.insert(p + 1, v));
        assert forall|k: int| 0 <= k < insert_pos(s, v) implies s[k] >= v by {
            if k > 0 {
                assert(s[k] == t[k - 1]);
            }
        }
    }
}

proof fn lemma_insert_desc(s: Seq<u32>, v: u32)
    requires
        descending(s),
    ensures
        descending(insert_desc(s, v)),
        insert_desc(s, v).to_multiset() == s.to_multiset().insert(v),
        insert_desc(s, v).len() == s.len() + 1,
{
    lemma_insert_pos(s, v);
    let p = insert_pos(s, v);
    let r = insert_desc(s, v);
    vstd::seq_lib::to_multiset_insert(s, p, v);
    assert forall|i: int, j: int| 0 <= i < j < r.len() implies r[i] >= r[j] by {
        if j < p {
        } else if j == p {
            assert(r[i] == s[i]);
        } else if i < p {
            assert(r[j] == s[j - 1]);
            assert(s[p] < v);
        } else if i == p {
            assert(r[j] == s[j - 1]);
            assert(s[p] < v);
            assert(s[p] >= s[j - 1] || p == j - 1);
        } else {
            assert(r[i] == s[i - 1] && r[j] == s[j - 1]);
        }
    }
}

/// Sorting gives the same scores, from the largest to the smallest.
pub proof fn lemma_sorted_desc(s: Seq<u32>)
    ensures
        descending(sorted_desc(s)),
        sorted_desc(s).to_multiset() == s.to_multiset(),
        sorted_desc(s).len() == s.len(),
    decreases s.len(),
{
    if s.len() == 0 {
        vstd::seq_lib::to_multiset_len(s);
        vstd::seq_lib::to_multiset_len(sorted_desc(s));
        assert(s.to_multiset() =~= vstd::multiset::Multiset::<u32>::empty());
        assert(sorted_desc(s).to_multiset() =~= vstd::multiset::Multiset::<u32>::empty());
    } else {
        lemma_sorted_desc(s.drop_last());
        lemma_insert_desc(sorted_desc(s.drop_last()), s.last());
        assert(s =~= s.drop_last().push(s.last()));
        vstd::seq_lib::to_multiset_insert(s.drop_last(), s.drop_last().len() as int, s.last());
        assert(s.drop_last().insert(s.drop_last().len() as int, s.last()) =~= s);
    }
}

/// `s` (in descending order) with `v` inserted in its place.
fn insert_sorted(s: &mut Vec<u32>, v: u32)
    ensures
        final(s)@ == insert_desc(old(s)@, v),
{
    let ghost s0 = old(s)@;
    let mut i: usize = 0;
    proof {
        assert(s0.skip(0) =~= s0);
        assert(s0.take(0) + insert_desc(s0, v) =~= insert_desc(s0, v));
    }
    while i < s.len() && s[i] >= v
        invariant
            s@ == s0,
            i <= s0.len(),
            insert_desc(s0, v) == s0.take(i as int) + insert_desc(s0.skip(i as int), v),
        decreases s0.len() - i,
    {
        proof {
            let t = s0.skip(i as int);
            assert(t[0] == s0[i as int]);
            assert(t.drop_first() =~= s0.skip(i + 1));
            assert(s0.take(i + 1) =~= s0.take(i as int) + seq![s0[i as int]]);
        }
        i = i + 1;
    }
    proof {
        let t = s0.skip(i as int);
        if i < s0.len() {
            assert(t[0] == s0[i as int]);
        }
    }
    s.insert(i, v);
    proof {
        assert(s@ =~= s0.take(i as int) + insert_desc(s0.skip(i as int), v));
    }
}

/// The lines' scores, the largest first.
fn sort_scores_desc(values: &Vec<u32>) -> (r: Vec<u32>)
    ensures
        r@ == sorted_desc(values@),
{
    let mut r: Vec<u32> = Vec::new();
    let mut i: usize = 0;
    proof {
        assert(values@.take(0) =~= Seq::<u32>::empty());
    }
    while i < values.len()
        invariant
            i <= values@.len(),
            r@ == sorted_desc(values@.take(i as int)),
        decreases values@.len() - i,
    {
        proof {
            assert(values@.take(i + 1).drop_last() =~= values@.take(i as int));
        }
        insert_sorted(&mut r, values[i]);
        i = i + 1;
    }
    proof {
        assert(values@.take(i as int) =~= values@);
    }
    r
}

/// The table of the best scores that `lines` give (see `score_table`).
pub fn score_table_from_lines(lines: &Vec<String>) -> (table: Vec<u32>)
    ensures
        table@ == score_table(lines@.map_values(|l: String| l@)),
{
    let ghost ls = lines@.map_values(|l: String| l@);
    let mut scores: Vec<u32> = Vec::new();
    let mut i: usize = 0;
    proof {
        assert(ls.take(0) =~= Seq::<Seq<char>>::empty());
    }
    while i < lines.len()
        invariant
            ls == lines@.map_values(|l: String| l@),
            i <= lines@.len(),
            scores@ == scores_of(ls.take(i as int)),
        decreases lines@.len() - i,
    {
        proof {
            assert(ls.take(i + 1).drop_last() =~= ls.take(i as int));
            assert(ls.take(i + 1).last() == lines@[i as int]@);
        }
        let t = trim(lines[i].as_str());
        match parse_u32(t) {
            Some(v) => scores.push(v),
            None => {},
        }
        i = i + 1;
    }
    proof {
        assert(ls.take(i as int) =~= ls);
    }
    let mut table = sort_scores_desc(&scores);
    table.resize(TABLE_SIZE, 0);
    proof {
        assert(table@ =~= padded(sorted_desc(scores@), TABLE_SIZE as int));
    }
    table
}

/// The high-score screen: the table of the ten best scores.
pub struct ZeugtrisHighscoresPage {
    scores: Vec<u32>,
}

impl View for ZeugtrisHighscoresPage {
    type V = Seq<u32>;

    closed spec fn view(&self) -> Seq<u32> {
        self.scores@
    }
}

impl ZeugtrisHighscoresPage {
    /// The screen for the lines of the score file (see `score_table`).
    pub fn new(lines: &Vec<String>) -> (p: Self)
        ensures
            p@ == score_table(lines@.map_values(|l: String| l@)),
    {
        ZeugtrisHighscoresPage { scores: score_table_from_lines(lines) }
    }

    /// The ten entries of the table.
    pub fn scores(&self) -> (s: &Vec<u32>)
        ensures
            s@ == self@,
    {
        &self.scores
    }

    /// Esc leaves; other keys do nothing.
    pub fn update(&mut self, key: Key) -> (a: Action)
        ensures
            final(self)@ == old(self)@,
            a == (if key == Key::Esc {
                Action::Pop
            } else {
                Action::Nothing
            }),
    {
        if key == Key::Esc {
            Action::Pop
        } else {
            Action::Nothing
        }
    }
}

/// The table always has ten entries, from the largest to the smallest.
pub proof fn lemma_table_descends(lines: Seq<Seq<char>>)
    ensures
        score_table(lines).len() == TABLE_SIZE,
        descending(score_table(lines)),
{
    let s = sorted_desc(scores_of(lines));
    lemma_sorted_desc(scores_of(lines));
    let t = score_table(lines);
    assert forall|i: int, j: int| 0 <= i < j < t.len() implies t[i] >= t[j] by {
        if j < s.len() {
            assert(s[i] >= s[j]);
        }
    }
}

} // verus!
