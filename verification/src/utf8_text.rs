use vstd::prelude::*;
use vstd::utf8::{encode_utf8, encode_scalar, char_is_scalar};
use crate::char_class::{is_whitespace, whitespace};

verus! {

/// Number of bytes of the UTF-8 encoding of `c`.
pub open spec fn utf8_width(c: char) -> nat {
    if (c as u32) <= 0x7F {
        1
    } else if (c as u32) <= 0x7FF {
        2
    } else if (c as u32) <= 0xFFFF {
        3
    } else {
        4
    }
}

/// Number of bytes of the UTF-8 encoding of `s`.
pub open spec fn byte_len(s: Seq<char>) -> nat {
    encode_utf8(s).len()
}

/// Number of newlines in `s`.
pub open spec fn count_newlines(s: Seq<char>) -> nat
    decreases s.len(),
{
    if s.len() == 0 {
        0
    } else {
        count_newlines(s.drop_last()) + if s.last() == '\n' {
            1nat
        } else {
            0nat
        }
    }
}

/// Splits `s` at every newline, as `str::split('\n')` does: `k` newlines
/// give `k + 1` pieces, none containing a newline.
pub open spec fn split_lines(s: Seq<char>) -> Seq<Seq<char>>
    decreases s.len(),
{
    if s.len() == 0 {
        seq![Seq::<char>::empty()]
    } else {
        let p = split_lines(s.drop_last());
        if s.last() == '\n' {
            p.push(Seq::<char>::empty())
        } else {
            p.update(p.len() - 1, p.last().push(s.last()))
        }
    }
}

/// A character's encoding takes its width in bytes, one to four.
pub proof fn lemma_encode_scalar_len(c: char)
    ensures
        encode_scalar(c as u32).len() == utf8_width(c),
        1 <= utf8_width(c) <= 4,
{
    char_is_scalar(c);
}

/// The encoding of joined texts is the joined encodings.
pub proof fn lemma_encode_concat(a: Seq<char>, b: Seq<char>)
    ensures
        encode_utf8(a + b) == encode_utf8(a) + encode_utf8(b),
    decreases a.len(),
{
    if a.len() == 0 {
        assert(a + b =~= b);
        assert(encode_utf8(a) =~= Seq::<u8>::empty());
        assert(encode_utf8(a) + encode_utf8(b) =~= encode_utf8(b));
    } else {
        lemma_encode_concat(a.drop_first(), b);
        assert((a + b).drop_first() =~= a.drop_first() + b);
        assert((a + b)[0] == a[0]);
        assert(encode_utf8(a + b) =~= encode_scalar(a[0] as u32) + encode_utf8(a.drop_first() + b));
        assert(encode_utf8(a) + encode_utf8(b) =~= encode_scalar(a[0] as u32) + (encode_utf8(
            a.drop_first(),
        ) + encode_utf8(b)));
    }
}

/// Joined texts take the bytes of both.
pub proof fn lemma_byte_len_concat(a: Seq<char>, b: Seq<char>)
    ensures
        byte_len(a + b) == byte_len(a) + byte_len(b),
{
    lemma_encode_concat(a, b);
}

/// One character takes its width in bytes.
pub proof fn lemma_byte_len_single(c: char)
    ensures
        byte_len(seq![c]) == utf8_width(c),
{
    lemma_encode_scalar_len(c);
    assert(seq![c].drop_first() =~= Seq::<char>::empty());
    assert(encode_utf8(Seq::<char>::empty()) =~= Seq::<u8>::empty());
}

/// Taking one more character adds that character's width.
pub proof fn lemma_byte_len_take_step(s: Seq<char>, k: int)
    requires
        0 <= k < s.len(),
    ensures
        byte_len(s.take(k + 1)) == byte_len(s.take(k)) + utf8_width(s[k]),
{
    assert(s.take(k + 1) =~= s.take(k) + seq![s[k]]);
    lemma_byte_len_concat(s.take(k), seq![s[k]]);
    lemma_byte_len_single(s[k]);
}

/// Longer prefixes have strictly more bytes.
pub proof fn lemma_byte_len_take_strict(s: Seq<char>, k1: int, k2: int)
    requires
        0 <= k1 < k2 <= s.len(),
    ensures
        byte_len(s.take(k1)) + (k2 - k1) <= byte_len(s.take(k2)),
    decreases k2 - k1,
{
    lemma_byte_len_take_step(s, k2 - 1);
    lemma_encode_scalar_len(s[k2 - 1]);
    if k1 < k2 - 1 {
        lemma_byte_len_take_strict(s, k1, k2 - 1);
    }
}

/// Longer prefixes take no fewer bytes.
pub proof fn lemma_byte_len_take_mono(s: Seq<char>, k1: int, k2: int)
    requires
        0 <= k1 <= k2 <= s.len(),
    ensures
        byte_len(s.take(k1)) <= byte_len(s.take(k2)),
{
    if k1 < k2 {
        lemma_byte_len_take_strict(s, k1, k2);
    }
}

/// All of a text is its longest prefix.
pub proof fn lemma_byte_len_full(s: Seq<char>)
    ensures
        s.take(s.len() as int) == s,
{
    assert(s.take(s.len() as int) =~= s);
}

/// The width of a character, as `char::len_utf8` gives it.
pub fn char_len_utf8(c: char) -> (w: usize)
    ensures
        w == utf8_width(c),
        1 <= w <= 4,
{
    let v = c as u32;
    if v <= 0x7F {
        1
    } else if v <= 0x7FF {
        2
    } else if v <= 0xFFFF {
        3
    } else {
        4
    }
}

/// Number of bytes of the first `k` characters.
pub fn prefix_byte_len(chars: &Vec<char>, k: usize) -> (n: usize)
    requires
        k <= chars@.len(),
        byte_len(chars@) <= usize::MAX,
    ensures
        n == byte_len(chars@.take(k as int)),
{
    let mut n: usize = 0;
    let mut i: usize = 0;
    proof {
        assert(chars@.take(0) =~= Seq::<char>::empty());
        assert(encode_utf8(Seq::<char>::empty()) =~= Seq::<u8>::empty());
    }
    while i < k
        invariant
            i <= k,
            k <= chars@.len(),
            byte_len(chars@) <= usize::MAX,
            n == byte_len(chars@.take(i as int)),
        decreases k - i,
    {
        proof {
            lemma_byte_len_take_step(chars@, i as int);
            lemma_byte_len_take_mono(chars@, i + 1, chars@.len() as int);
            lemma_byte_len_full(chars@);
        }
        n = n + char_len_utf8(chars[i]);
        i = i + 1;
    }
    n
}

/// Text splits into one line more than it has newlines, and no line holds
/// a newline.
pub proof fn lemma_split_lines_len(s: Seq<char>)
    ensures
        split_lines(s).len() == count_newlines(s) + 1,
        forall|i: int|
            0 <= i < split_lines(s).len() ==> !(#[trigger] split_lines(s)[i]).contains('\n'),
    decreases s.len(),
{
    if s.len() > 0 {
        lemma_split_lines_len(s.drop_last());
        let p = split_lines(s.drop_last());
        let q = split_lines(s);
        if s.last() != '\n' {
            assert forall|i: int| 0 <= i < q.len() implies !(#[trigger] q[i]).contains('\n') by {
                if i == q.len() - 1 {
                    let l = p.last().push(s.last());
                    assert(q[i] == l);
                    if l.contains('\n') {
                        let j = choose|j: int| 0 <= j < l.len() && l[j] == '\n';
                        if j < p.last().len() {
                            assert(p.last()[j] == '\n');
                            assert(p[p.len() - 1].contains('\n'));
                        }
                    }
                } else {
                    assert(q[i] == p[i]);
                }
            }
        } else {
            assert forall|i: int| 0 <= i < q.len() implies !(#[trigger] q[i]).contains('\n') by {
                if i < p.len() {
                    assert(q[i] == p[i]);
                }
            }
        }
    }
}

/// No character takes more than four bytes.
pub proof fn lemma_byte_len_at_most(s: Seq<char>)
    ensures
        byte_len(s) <= 4 * s.len(),
        s.len() <= byte_len(s),
    decreases s.len(),
{
    if s.len() == 0 {
        assert(encode_utf8(s) =~= Seq::<u8>::empty());
    } else {
        lemma_byte_len_at_most(s.drop_last());
        assert(s =~= s.drop_last() + seq![s.last()]);
        lemma_byte_len_concat(s.drop_last(), seq![s.last()]);
        lemma_byte_len_single(s.last());
        lemma_encode_scalar_len(s.last());
    }
}

/// Byte offset `pos` of `s` starts a character, or is the end.
pub open spec fn at_boundary(s: Seq<char>, pos: int) -> bool {
    exists|k: int| 0 <= k <= s.len() && byte_len(#[trigger] s.take(k)) == pos
}

/// The number of characters before byte offset `pos`, where it starts a
/// character or is the end; `None` elsewhere.
pub fn boundary_index(chars: &Vec<char>, pos: usize) -> (r: Option<usize>)
    requires
        byte_len(chars@) <= usize::MAX,
    ensures
        r is Some <==> at_boundary(chars@, pos as int),
        r matches Some(k) ==> k <= chars@.len() && byte_len(chars@.take(k as int)) == pos,
{
    let n = chars.len();
    let mut acc: usize = 0;
    let mut i: usize = 0;
    proof {
        assert(chars@.take(0) =~= Seq::<char>::empty());
        assert(encode_utf8(Seq::<char>::empty()) =~= Seq::<u8>::empty());
    }
    while i < n && acc < pos
        invariant
            byte_len(chars@) <= usize::MAX,
            n == chars@.len(),
            i <= n,
            acc == byte_len(chars@.take(i as int)),
            forall|k: int| 0 <= k < i ==> byte_len(#[trigger] chars@.take(k)) < pos,
        decreases n - i,
    {
        proof {
            lemma_byte_len_take_step(chars@, i as int);
            lemma_byte_len_take_mono(chars@, i + 1, n as int);
            lemma_byte_len_full(chars@);
        }
        acc = acc + char_len_utf8(chars[i]);
        i = i + 1;
    }
    if acc == pos {
        return Some(i);
    }
    proof {
        assert forall|k: int| 0 <= k <= chars@.len() implies byte_len(#[trigger] chars@.take(k)) != pos by {
            if k > i {
                lemma_byte_len_take_strict(chars@, i as int, k);
            }
            if acc < pos {
                assert(i == n);
            }
        }
    }
    None
}

/// Splits `s` at every `sep`, as `str::split(sep)` does: `k` separators
/// give `k + 1` pieces.
pub open spec fn split_on(s: Seq<char>, sep: char) -> Seq<Seq<char>>
    decreases s.len(),
{
    if s.len() == 0 {
        seq![Seq::<char>::empty()]
    } else {
        let p = split_on(s.drop_last(), sep);
        if s.last() == sep {
            p.push(Seq::<char>::empty())
        } else {
            p.update(p.len() - 1, p.last().push(s.last()))
        }
    }
}

proof fn lemma_split_on_nonempty(s: Seq<char>, sep: char)
    ensures
        split_on(s, sep).len() >= 1,
    decreases s.len(),
{
    if s.len() > 0 {
        lemma_split_on_nonempty(s.drop_last(), sep);
    }
}

/// The pieces of `s` between the separators `sep`.
pub fn split_chars(s: &Vec<char>, sep: char) -> (pieces: Vec<Vec<char>>)
    ensures
        pieces@.map_values(|p: Vec<char>| p@) == split_on(s@, sep),
        pieces@.len() >= 1,
{
    let mut pieces: Vec<Vec<char>> = Vec::new();
    let mut current: Vec<char> = Vec::new();
    let mut i: usize = 0;
    proof {
        assert(s@.take(0) =~= Seq::<char>::empty());
        assert(pieces@.map_values(|p: Vec<char>| p@).push(current@) =~= split_on(Seq::<char>::empty(), sep));
    }
    while i < s.len()
        invariant
            i <= s@.len(),
            pieces@.map_values(|p: Vec<char>| p@).push(current@) == split_on(s@.take(i as int), sep),
        decreases s@.len() - i,
    {
        let c = s[i];
        let ghost prev = split_on(s@.take(i as int), sep);
        let ghost before = pieces@.map_values(|p: Vec<char>| p@);
        proof {
            assert(s@.take(i + 1).drop_last() =~= s@.take(i as int));
            assert(s@.take(i + 1).last() == c);
        }
        if c == sep {
            let done = current;
            pieces.push(done);
            current = Vec::new();
            proof {
                assert(pieces@.map_values(|p: Vec<char>| p@) =~= before.push(done@));
                assert(pieces@.map_values(|p: Vec<char>| p@).push(current@) =~= prev.push(Seq::<char>::empty()));
            }
        } else {
            let ghost cur0 = current@;
            current.push(c);
            proof {
                assert(pieces@.map_values(|p: Vec<char>| p@) =~= before);
                assert(prev.last() == before.push(cur0).last());
                assert(pieces@.map_values(|p: Vec<char>| p@).push(current@) =~= prev.update(
                    prev.len() - 1,
                    prev.last().push(c),
                ));
            }
        }
        i = i + 1;
    }
    pieces.push(current);
    proof {
        assert(s@.take(i as int) =~= s@);
    }
    pieces
}

/// The pieces of `s` as `str::split_inclusive(sep)` gives them: each ends
/// just after a `sep`, the last one at the end of `s`; an empty `s` has none.
pub open spec fn split_inclusive_on(s: Seq<char>, sep: char) -> Seq<Seq<char>>
    decreases s.len(),
{
    if s.len() == 0 {
        Seq::empty()
    } else {
        let p = split_inclusive_on(s.drop_last(), sep);
        if s.len() >= 2 && s[s.len() - 2] != sep {
            p.update(p.len() - 1, p.last().push(s.last()))
        } else {
            p.push(seq![s.last()])
        }
    }
}

/// The pieces of `s` that end just after each `sep`, and the rest.
pub fn split_inclusive_chars(s: &Vec<char>, sep: char) -> (pieces: Vec<Vec<char>>)
    ensures
        pieces@.map_values(|p: Vec<char>| p@) == split_inclusive_on(s@, sep),
{
    let mut pieces: Vec<Vec<char>> = Vec::new();
    let mut current: Vec<char> = Vec::new();
    let mut i: usize = 0;
    proof {
        assert(s@.take(0) =~= Seq::<char>::empty());
        assert(pieces@.map_values(|p: Vec<char>| p@) =~= Seq::<Seq<char>>::empty());
    }
    while i < s.len()
        invariant
            i <= s@.len(),
            (current@.len() == 0) == (i == 0 || s@[i - 1] == sep),
            (if current@.len() == 0 {
                pieces@.map_values(|p: Vec<char>| p@)
            } else {
                pieces@.map_values(|p: Vec<char>| p@).push(current@)
            }) == split_inclusive_on(s@.take(i as int), sep),
        decreases s@.len() - i,
    {
        let c = s[i];
        let ghost prev = split_inclusive_on(s@.take(i as int), sep);
        let ghost before = pieces@.map_values(|p: Vec<char>| p@);
        let ghost cur0 = current@;
        proof {
            assert(s@.take(i + 1).drop_last() =~= s@.take(i as int));
            assert(s@.take(i + 1).last() == c);
            if i >= 1 {
                assert(s@.take(i + 1)[i - 1] == s@[i - 1]);
            }
        }
        current.push(c);
        proof {
            if cur0.len() == 0 {
                assert(current@ =~= seq![c]);
                assert(before.push(current@) =~= prev.push(seq![c]));
            } else {
                assert(before.push(current@) =~= prev.update(prev.len() - 1, prev.last().push(c)));
            }
        }
        if c == sep {
            let done = current;
            pieces.push(done);
            current = Vec::new();
            proof {
                assert(pieces@.map_values(|p: Vec<char>| p@) =~= before.push(done@));
            }
        } else {
            proof {
                assert(pieces@.map_values(|p: Vec<char>| p@) =~= before);
            }
        }
        i = i + 1;
    }
    if current.len() > 0 {
        let ghost before = pieces@.map_values(|p: Vec<char>| p@);
        let done = current;
        pieces.push(done);
        proof {
            assert(pieces@.map_values(|p: Vec<char>| p@) =~= before.push(done@));
        }
    }
    proof {
        assert(s@.take(i as int) =~= s@);
    }
    pieces
}

/// The runs of non-whitespace characters of `s`, in order, as
/// `str::split_whitespace` gives them.
pub open spec fn words_of(s: Seq<char>) -> Seq<Seq<char>>
    decreases s.len(),
{
    if s.len() == 0 {
        Seq::empty()
    } else {
        let p = words_of(s.drop_last());
        if whitespace(s.last()) {
            p
        } else if s.len() >= 2 && !whitespace(s[s.len() - 2]) {
            p.update(p.len() - 1, p.last().push(s.last()))
        } else {
            p.push(seq![s.last()])
        }
    }
}

/// The runs of non-whitespace characters of `s`.
pub fn split_words(s: &Vec<char>) -> (words: Vec<Vec<char>>)
    ensures
        words@.map_values(|p: Vec<char>| p@) == words_of(s@),
{
    let mut words: Vec<Vec<char>> = Vec::new();
    let mut current: Vec<char> = Vec::new();
    let mut i: usize = 0;
    proof {
        assert(s@.take(0) =~= Seq::<char>::empty());
        assert(words@.map_values(|p: Vec<char>| p@) =~= Seq::<Seq<char>>::empty());
    }
    while i < s.len()
        invariant
            i <= s@.len(),
            (current@.len() == 0) == (i == 0 || whitespace(s@[i - 1])),
            (if current@.len() == 0 {
                words@.map_values(|p: Vec<char>| p@)
            } else {
                words@.map_values(|p: Vec<char>| p@).push(current@)
            }) == words_of(s@.take(i as int)),
        decreases s@.len() - i,
    {
        let c = s[i];
        let ghost prev = words_of(s@.take(i as int));
        let ghost before = words@.map_values(|p: Vec<char>| p@);
        let ghost cur0 = current@;
        proof {
            assert(s@.take(i + 1).drop_last() =~= s@.take(i as int));
            assert(s@.take(i + 1).last() == c);
            if i >= 1 {
                assert(s@.take(i + 1)[i - 1] == s@[i - 1]);
            }
        }
        if is_whitespace(c) {
            if current.len() > 0 {
                let done = current;
                words.push(done);
                current = Vec::new();
                proof {
                    assert(words@.map_values(|p: Vec<char>| p@) =~= before.push(done@));
                }
            }
        } else {
            current.push(c);
            proof {
                assert(words@.map_values(|p: Vec<char>| p@) =~= before);
                if cur0.len() == 0 {
                    assert(current@ =~= seq![c]);
                    assert(before.push(current@) =~= prev.push(seq![c]));
                } else {
                    assert(before.push(current@) =~= prev.update(prev.len() - 1, prev.last().push(c)));
                }
            }
        }
        i = i + 1;
    }
    if current.len() > 0 {
        let ghost before = words@.map_values(|p: Vec<char>| p@);
        let done = current;
        words.push(done);
        proof {
            assert(words@.map_values(|p: Vec<char>| p@) =~= before.push(done@));
        }
    }
    proof {
        assert(s@.take(i as int) =~= s@);
    }
    words
}

/// The characters of `s` as a `String`.
pub fn string_of(s: &Vec<char>) -> (r: String)
    ensures
        r@ == s@,
{
    let mut r = String::new();
    let mut i: usize = 0;
    while i < s.len()
        invariant
            i <= s@.len(),
            r@ == s@.take(i as int),
        decreases s@.len() - i,
    {
        crate::writing_document::push_char(&mut r, s[i]);
        proof {
            assert(r@ =~= s@.take(i + 1));
        }
        i = i + 1;
    }
    proof {
        assert(s@.take(i as int) =~= s@);
    }
    r
}

/// The characters of `s`.
pub fn chars_of(s: &str) -> (r: Vec<char>)
    ensures
        r@ == s@,
{
    let n = s.unicode_len();
    let mut r: Vec<char> = Vec::new();
    let mut i: usize = 0;
    while i < n
        invariant
            i <= n,
            n == s@.len(),
            r@ == s@.take(i as int),
        decreases n - i,
    {
        r.push(s.get_char(i));
        proof {
            assert(r@ =~= s@.take(i + 1));
        }
        i = i + 1;
    }
    proof {
        assert(s@.take(i as int) =~= s@);
    }
    r
}

/// The character that starts at byte offset `pos` (a boundary).
pub open spec fn index_at(s: Seq<char>, pos: int) -> int {
    choose|k: int| 0 <= k <= s.len() && byte_len(#[trigger] s.take(k)) == pos
}

/// Only one number of characters ends at a given byte offset.
pub proof fn lemma_index_unique(s: Seq<char>, k: int, pos: int)
    requires
        0 <= k <= s.len(),
        byte_len(s.take(k)) == pos,
    ensures
        index_at(s, pos) == k,
{
    assert(at_boundary(s, pos));
    let j = index_at(s, pos);
    if j < k {
        lemma_byte_len_take_strict(s, j, k);
    } else if j > k {
        lemma_byte_len_take_strict(s, k, j);
    }
}

/// Where the last `want` bytes of `s` begin, if a character starts there.
pub fn tail_start(s: &Vec<char>, want: usize) -> (r: Option<usize>)
    ensures
        r matches Some(k) ==> k <= s@.len() && byte_len(s@.skip(k as int)) == want,
        r is None ==> forall|k: int| 0 <= k <= s@.len() ==> byte_len(#[trigger] s@.skip(k)) != want,
{
    let mut k: usize = s.len();
    let mut rest: usize = want;
    proof {
        assert(s@.skip(k as int) =~= Seq::<char>::empty());
        assert(encode_utf8(Seq::<char>::empty()) =~= Seq::<u8>::empty());
    }
    while k > 0 && rest > 0
        invariant
            k <= s@.len(),
            rest + byte_len(s@.skip(k as int)) == want,
            forall|j: int| k < j <= s@.len() ==> byte_len(#[trigger] s@.skip(j)) < want,
        decreases k,
    {
        proof {
            assert(s@.skip(k - 1) =~= seq![s@[k - 1]] + s@.skip(k as int));
            lemma_byte_len_concat(seq![s@[k - 1]], s@.skip(k as int));
            lemma_byte_len_single(s@[k - 1]);
            lemma_encode_scalar_len(s@[k - 1]);
        }
        let w = char_len_utf8(s[k - 1]);
        if w > rest {
            proof {
                assert forall|j: int| 0 <= j <= s@.len() implies byte_len(#[trigger] s@.skip(j)) != want by {
                    if j < k - 1 {
                        lemma_skip_bytes_grow(s@, j, k - 1);
                    }
                }
            }
            return None;
        }
        rest = rest - w;
        k = k - 1;
    }
    if rest == 0 {
        return Some(k);
    }
    proof {
        assert forall|j: int| 0 <= j <= s@.len() implies byte_len(#[trigger] s@.skip(j)) != want by {
            if j < k {
                lemma_skip_bytes_grow(s@, j, k as int);
            }
        }
    }
    None
}

proof fn lemma_skip_bytes_grow(s: Seq<char>, j: int, k: int)
    requires
        0 <= j < k <= s.len(),
    ensures
        byte_len(s.skip(j)) > byte_len(s.skip(k)),
    decreases k - j,
{
    assert(s.skip(j) =~= seq![s[j]] + s.skip(j + 1));
    lemma_byte_len_concat(seq![s[j]], s.skip(j + 1));
    lemma_byte_len_single(s[j]);
    lemma_encode_scalar_len(s[j]);
    if j + 1 < k {
        lemma_skip_bytes_grow(s, j + 1, k);
    }
}

/// The bytes before and after position `k` make up all of `s`'s bytes.
pub proof fn lemma_byte_len_split(s: Seq<char>, k: int)
    requires
        0 <= k <= s.len(),
    ensures
        byte_len(s) == byte_len(s.take(k)) + byte_len(s.skip(k)),
{
    assert(s =~= s.take(k) + s.skip(k));
    lemma_byte_len_concat(s.take(k), s.skip(k));
}

/// `s` takes more than `limit` bytes.
pub fn byte_len_exceeds(s: &Vec<char>, limit: usize) -> (b: bool)
    ensures
        b == (byte_len(s@) > limit),
{
    let mut rest: usize = limit;
    let mut i: usize = 0;
    proof {
        assert(s@.take(0) =~= Seq::<char>::empty());
        assert(encode_utf8(Seq::<char>::empty()) =~= Seq::<u8>::empty());
    }
    while i < s.len()
        invariant
            i <= s@.len(),
            rest + byte_len(s@.take(i as int)) == limit,
        decreases s@.len() - i,
    {
        proof {
            lemma_byte_len_take_step(s@, i as int);
            lemma_encode_scalar_len(s@[i as int]);
        }
        let w = char_len_utf8(s[i]);
        if w > rest {
            proof {
                lemma_byte_len_take_mono(s@, i + 1, s@.len() as int);
                lemma_byte_len_full(s@);
            }
            return true;
        }
        rest = rest - w;
        i = i + 1;
    }
    proof {
        assert(s@.take(i as int) =~= s@);
    }
    false
}

/// Puts `c` in at byte offset `pos`, which starts a character or is the end.
pub fn insert_at_byte(text: &mut Vec<char>, pos: usize, c: char)
    requires
        at_boundary(old(text)@, pos as int),
        byte_len(old(text)@) + 4 <= usize::MAX,
    ensures
        final(text)@ == old(text)@.insert(index_at(old(text)@, pos as int), c),
        byte_len(final(text)@) == byte_len(old(text)@) + utf8_width(c),
        pos + 1 <= byte_len(final(text)@),
        byte_len(final(text)@) <= byte_len(old(text)@) + 4,
{
    let ghost t = text@;
    proof {
        lemma_byte_len_at_most(t);
    }
    let k = boundary_index(text, pos);
    match k {
        Some(k) => {
            proof {
                lemma_index_unique(t, k as int, pos as int);
            }
            text.insert(k, c);
            proof {
                assert(t =~= t.take(k as int) + t.skip(k as int));
                assert(text@ =~= t.take(k as int) + seq![c] + t.skip(k as int));
                lemma_byte_len_concat(t.take(k as int) + seq![c], t.skip(k as int));
                lemma_byte_len_concat(t.take(k as int), seq![c]);
                lemma_byte_len_concat(t.take(k as int), t.skip(k as int));
                lemma_byte_len_single(c);
                lemma_encode_scalar_len(c);
            }
        },
        None => {},
    }
}

/// Takes out the character that starts at byte offset `pos`.
pub fn remove_at_byte(text: &mut Vec<char>, pos: usize)
    requires
        at_boundary(old(text)@, pos as int),
        pos < byte_len(old(text)@),
        byte_len(old(text)@) <= usize::MAX,
    ensures
        index_at(old(text)@, pos as int) < old(text)@.len(),
        final(text)@ == old(text)@.remove(index_at(old(text)@, pos as int)),
        byte_len(final(text)@) + utf8_width(old(text)@[index_at(old(text)@, pos as int)]) == byte_len(
            old(text)@,
        ),
        pos <= byte_len(final(text)@),
{
    let ghost t = text@;
    let k = boundary_index(text, pos);
    match k {
        Some(k) => {
            proof {
                lemma_index_unique(t, k as int, pos as int);
                if k == t.len() {
                    assert(t.take(k as int) =~= t);
                }
            }
            text.remove(k);
            proof {
                assert(t =~= t.take(k as int) + seq![t[k as int]] + t.skip(k + 1));
                assert(text@ =~= t.take(k as int) + t.skip(k + 1));
                lemma_byte_len_concat(t.take(k as int) + seq![t[k as int]], t.skip(k + 1));
                lemma_byte_len_concat(t.take(k as int), seq![t[k as int]]);
                lemma_byte_len_concat(t.take(k as int), t.skip(k + 1));
                lemma_byte_len_single(t[k as int]);
            }
        },
        None => {},
    }
}

} // verus!
