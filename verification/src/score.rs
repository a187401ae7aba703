use vstd::prelude::*;

verus! {

/// `b` raised to the power `e`.
pub open spec fn pow(b: int, e: nat) -> int
    decreases e,
{
    if e == 0 {
        1
    } else {
        b * pow(b, (e - 1) as nat)
    }
}

proof fn lemma_pow_positive(b: int, e: nat)
    requires
        b > 0,
    ensures
        pow(b, e) > 0,
    decreases e,
{
    if e > 0 {
        lemma_pow_positive(b, (e - 1) as nat);
        assert(b * pow(b, (e - 1) as nat) > 0) by (nonlinear_arith)
            requires
                b > 0,
                pow(b, (e - 1) as nat) > 0,
        ;
    }
}

proof fn lemma_pow_monotone(b: int, e1: nat, e2: nat)
    requires
        b > 0,
        e1 <= e2,
    ensures
        pow(b, e1) <= pow(b, e2),
    decreases e2,
{
    if e1 < e2 {
        lemma_pow_monotone(b, e1, (e2 - 1) as nat);
        lemma_pow_positive(b, (e2 - 1) as nat);
        assert(pow(b, (e2 - 1) as nat) <= b * pow(b, (e2 - 1) as nat)) by (nonlinear_arith)
            requires
                b > 0,
                pow(b, (e2 - 1) as nat) > 0,
        ;
    }
}

/// Points awarded for clearing `lines` rows at once, before the level bonus.
pub open spec fn line_points(lines: int) -> int {
    if lines == 1 {
        40
    } else if lines == 2 {
        100
    } else if lines == 3 {
        300
    } else if lines == 4 {
        1200
    } else {
        0
    }
}

/// Gravity interval in milliseconds for a level: `1000 * 0.8^(level - 1)`,
/// rounded down, and never below 50.
pub open spec fn drop_interval_for_level(level: int) -> int {
    let k = if level >= 1 { (level - 1) as nat } else { 0nat };
    let exact = (1000 * pow(4, k)) / pow(5, k);
    if exact > 50 { exact } else { 50 }
}

/// The mathematical state of a scoreboard.
pub struct ScoreState {
    pub score: u32,
    pub lines_cleared: u32,
    pub level: u32,
    pub drop_interval_ms: u64,
}

/// Scoring, level and gravity bookkeeping of the falling-block game.
pub struct Score {
    score: u32,
    lines_cleared: u32,
    level: u32,
    drop_interval_ms: u64,
}

impl View for Score {
    type V = ScoreState;

    closed spec fn view(&self) -> ScoreState {
        ScoreState {
            score: self.score,
            lines_cleared: self.lines_cleared,
            level: self.level,
            drop_interval_ms: self.drop_interval_ms,
        }
    }
}

/// The state of a fresh scoreboard.
pub open spec fn initial_score_state() -> ScoreState {
    ScoreState { score: 0, lines_cleared: 0, level: 1, drop_interval_ms: 1000 }
}

/// The state after clearing `lines` rows at once from state `s`.
pub open spec fn score_after_lines(s: ScoreState, lines: usize) -> ScoreState {
    let new_lines = (s.lines_cleared + (lines as u32)) as u32;
    let new_level = (new_lines / 10 + 1) as u32;
    ScoreState {
        score: (s.score + line_points(lines as int) * (s.level + 1)) as u32,
        lines_cleared: new_lines,
        level: new_level,
        drop_interval_ms: drop_interval_for_level(new_level as int) as u64,
    }
}

/// Whether clearing `lines` rows from state `s` stays within the counters' range.
pub open spec fn can_add_lines(s: ScoreState, lines: usize) -> bool {
    &&& s.lines_cleared + (lines as u32) <= u32::MAX
    &&& s.score + line_points(lines as int) * (s.level + 1) <= u32::MAX
    &&& s.level + 1 <= u32::MAX
}

/// For k >= 14 the gravity formula is below its floor of 50 ms.
proof fn lemma_drop_floor(k: nat)
    requires
        k >= 14,
    ensures
        1000 * pow(4, k) < 50 * pow(5, k),
    decreases k,
{
    if k == 14 {
        reveal_with_fuel(pow, 15);
        assert(pow(4, 14) == 268435456);
        assert(pow(5, 14) == 6103515625);
    } else {
        lemma_drop_floor((k - 1) as nat);
        let a = pow(4, (k - 1) as nat);
        let b = pow(5, (k - 1) as nat);
        assert(pow(4, k) == 4 * a);
        assert(pow(5, k) == 5 * b);
        lemma_pow_positive(4, (k - 1) as nat);
    }
}

/// Computes `drop_interval_for_level` exactly in integers.
fn compute_drop_interval(level: u32) -> (ms: u64)
    ensures
        ms == drop_interval_for_level(level as int),
{
    let k: u32 = if level >= 1 { level - 1 } else { 0 };
    if k >= 14 {
        proof {
            lemma_drop_floor(k as nat);
            let n = 1000 * pow(4, k as nat);
            let d = pow(5, k as nat);
            lemma_pow_positive(5, k as nat);
            assert(n < d * 50);
            vstd::arithmetic::div_mod::lemma_multiply_divide_lt(n, d, 50);
        }
        return 50;
    }
    let mut num: u64 = 1000;
    let mut den: u64 = 1;
    let mut i: u32 = 0;
    while i < k
        invariant
            k < 14,
            i <= k,
            num == 1000 * pow(4, i as nat),
            den == pow(5, i as nat),
            den >= 1,
            num <= 1000 * 67108864,
            den <= 1220703125,
        decreases k - i,
    {
        proof {
            assert(pow(4, (i + 1) as nat) == 4 * pow(4, i as nat));
            assert(pow(5, (i + 1) as nat) == 5 * pow(5, i as nat));
            lemma_pow_monotone(4, i as nat, 12);
            lemma_pow_monotone(5, i as nat, 12);
            reveal_with_fuel(pow, 13);
            assert(pow(4, 12) == 16777216);
            assert(pow(5, 12) == 244140625);
        }
        num = num * 4;
        den = den * 5;
        i = i + 1;
    }
    let exact = num / den;
    if exact > 50 {
        exact
    } else {
        50
    }
}

impl Score {
    /// A fresh scoreboard: no points, no lines, level 1, one second per row.
    pub fn new() -> (s: Self)
        ensures
            s@ == initial_score_state(),
    {
        Self { score: 0, lines_cleared: 0, level: 1, drop_interval_ms: 1000 }
    }

    /// Records `lines` rows cleared by one lock: adds the classic points
    /// (40/100/300/1200 times `level + 1`), recomputes the level as
    /// `lines_cleared / 10 + 1` and the gravity interval of that level.
    pub fn add_lines(&mut self, lines: usize)
        requires
            can_add_lines(old(self)@, lines),
        ensures
            final(self)@ == score_after_lines(old(self)@, lines),
    {
        let line_points: u32 = match lines {
            1 => 40,
            2 => 100,
            3 => 300,
            4 => 1200,
            _ => 0,
        };
        self.lines_cleared = self.lines_cleared + (lines as u32);
        proof {
            assert(line_points * (self.level + 1) <= u32::MAX) by (nonlinear_arith)
                requires
                    self.score + line_points * (self.level + 1) <= u32::MAX,
                    self.score >= 0,
            ;
        }
        self.score = self.score + line_points * (self.level + 1);
        self.level = (self.lines_cleared / 10) + 1;
        self.drop_interval_ms = compute_drop_interval(self.level);
    }

    /// Adds one point per row of a soft drop.
    pub fn add_soft_drop_points(&mut self, lines: u32)
        requires
            old(self)@.score + lines <= u32::MAX,
        ensures
            final(self)@ == (ScoreState { score: (old(self)@.score + lines) as u32, ..old(self)@ }),
    {
        self.score = self.score + lines;
    }

    /// Adds two points per row of a hard drop.
    pub fn add_hard_drop_points(&mut self, lines: u32)
        requires
            old(self)@.score + 2 * lines <= u32::MAX,
        ensures
            final(self)@ == (ScoreState { score: (old(self)@.score + 2 * lines) as u32, ..old(self)@ }),
    {
        self.score = self.score + lines * 2;
    }

    pub fn score(&self) -> (r: u32)
        ensures
            r == self@.score,
    {
        self.score
    }

    pub fn level(&self) -> (r: u32)
        ensures
            r == self@.level,
    {
        self.level
    }

    pub fn lines_cleared(&self) -> (r: u32)
        ensures
            r == self@.lines_cleared,
    {
        self.lines_cleared
    }

    /// The current gravity interval, in milliseconds.
    pub fn drop_interval(&self) -> (r: u64)
        ensures
            r == self@.drop_interval_ms,
    {
        self.drop_interval_ms
    }

    /// Back to the state of a fresh scoreboard.
    pub fn reset(&mut self)
        ensures
            final(self)@ == initial_score_state(),
    {
        self.score = 0;
        self.lines_cleared = 0;
        self.level = 1;
        self.drop_interval_ms = 1000;
    }
}

/// Clearing rows never lowers the score, the rows cleared or the level,
/// and never makes the pieces fall slower.
pub proof fn lemma_clearing_only_raises(s: ScoreState, lines: usize)
    requires
        can_add_lines(s, lines),
        s.level >= 1,
        s.level == s.lines_cleared / 10 + 1,
    ensures
        score_after_lines(s, lines).score >= s.score,
        score_after_lines(s, lines).lines_cleared >= s.lines_cleared,
        score_after_lines(s, lines).level >= s.level,
{
    assert(line_points(lines as int) >= 0);
    assert(line_points(lines as int) * (s.level + 1) >= 0) by (nonlinear_arith)
        requires
            line_points(lines as int) >= 0,
            s.level >= 1,
    ;
}

/// Clearing `n` rows at once at level `L` adds 40, 100, 300 or 1200 times
/// `L + 1` points for `n` = 1, 2, 3, 4 (nothing for other counts); the rows
/// are counted and the level becomes one more than their tens.
pub proof fn lemma_line_scores(s: ScoreState, lines: usize)
    requires
        can_add_lines(s, lines),
        lines <= u32::MAX,
    ensures
        ({
            let t = score_after_lines(s, lines);
            &&& lines == 1 ==> t.score == s.score + 40 * (s.level + 1)
            &&& lines == 2 ==> t.score == s.score + 100 * (s.level + 1)
            &&& lines == 3 ==> t.score == s.score + 300 * (s.level + 1)
            &&& lines == 4 ==> t.score == s.score + 1200 * (s.level + 1)
            &&& (lines == 0 || lines > 4) ==> t.score == s.score
            &&& t.lines_cleared == s.lines_cleared + lines
            &&& t.level == (s.lines_cleared + lines) / 10 + 1
        }),
{
}

proof fn lemma_interval_step(k: nat)
    ensures
        (1000 * pow(4, k + 1)) / pow(5, k + 1) <= (1000 * pow(4, k)) / pow(5, k),
{
    lemma_pow_positive(4, k);
    lemma_pow_positive(5, k);
    let a = 1000 * pow(4, k);
    let b = pow(5, k);
    assert(pow(4, k + 1) == 4 * pow(4, k));
    assert(pow(5, k + 1) == 5 * b);
    assert(1000 * pow(4, k + 1) == 4 * a) by (nonlinear_arith)
        requires
            pow(4, k + 1) == 4 * pow(4, k),
            a == 1000 * pow(4, k),
    ;
    assert(a > 0) by (nonlinear_arith)
        requires
            pow(4, k) > 0,
            a == 1000 * pow(4, k),
    ;
    vstd::arithmetic::div_mod::lemma_div_multiples_vanish_quotient(5, a, b);
    assert(5 * b > 0);
    vstd::arithmetic::div_mod::lemma_div_is_ordered(4 * a, 5 * a, 5 * b);
}

proof fn lemma_interval_decreasing(k1: nat, k2: nat)
    requires
        k1 <= k2,
    ensures
        (1000 * pow(4, k2)) / pow(5, k2) <= (1000 * pow(4, k1)) / pow(5, k1),
    decreases k2 - k1,
{
    if k1 < k2 {
        lemma_interval_decreasing(k1, (k2 - 1) as nat);
        lemma_interval_step((k2 - 1) as nat);
    }
}

/// Pieces fall once a second at level 1, never slower at a higher level,
/// and never faster than once every 50 milliseconds.
pub proof fn lemma_gravity_speeds_up(l1: int, l2: int)
    requires
        l1 <= l2,
    ensures
        drop_interval_for_level(1) == 1000,
        drop_interval_for_level(l2) <= drop_interval_for_level(l1),
        drop_interval_for_level(l1) >= 50,
{
    assert(pow(4, 0) == 1 && pow(5, 0) == 1);
    let k1 = if l1 >= 1 { (l1 - 1) as nat } else { 0nat };
    let k2 = if l2 >= 1 { (l2 - 1) as nat } else { 0nat };
    lemma_interval_decreasing(k1, k2);
}

} // verus!
