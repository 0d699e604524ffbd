use vstd::prelude::*;
use crate::bignat::BigNat;
use crate::cursor::Cursor;
use crate::cursor_map::CursorMap;

verus! {

/// A score as an exact fraction `num / den`, with `den > 0`.
#[derive(Debug)]
pub struct Score {
    num: BigNat,
    den: BigNat,
}

impl Score {
    /// The denominator is positive.
    #[verifier::type_invariant]
    pub closed spec fn well_formed(self) -> bool {
        self.den@ > 0
    }

    /// The numerator.
    pub fn numerator(&self) -> (r: &BigNat)
        ensures
            r@ == self@.0,
    {
        &self.num
    }

    /// The denominator, which is positive.
    pub fn denominator(&self) -> (r: &BigNat)
        ensures
            r@ == self@.1,
            r@ > 0,
    {
        proof {
            use_type_invariant(self);
        }
        &self.den
    }

    /// A copy of the score.
    pub fn copy(&self) -> (r: Score)
        ensures
            r@ == self@,
    {
        proof {
            use_type_invariant(self);
        }
        Score { num: self.num.copy(), den: self.den.copy() }
    }

    /// Whether this score is greater than `other`.
    pub fn gt(&self, other: &Score) -> (r: bool)
        ensures
            r == score_gt(self@, other@),
            self@.1 > 0,
            other@.1 > 0,
    {
        proof {
            use_type_invariant(self);
            use_type_invariant(other);
        }
        let left = self.num.mul(&other.den);
        let right = other.num.mul(&self.den);
        right.lt(&left)
    }

    /// Whether this score is at least `num / den`.
    pub fn at_least(&self, num: u64, den: u64) -> (r: bool)
        ensures
            r == !score_gt((num as int, den as int), self@),
    {
        let left = self.num.mul(&BigNat::from_u64(den));
        let right = BigNat::from_u64(num).mul(&self.den);
        !left.lt(&right)
    }
}

/// A well-formed score has a positive denominator.
pub proof fn lemma_score_den(s: Score)
    requires
        s.well_formed(),
    ensures
        s@.1 > 0,
{
}

/// The fraction `num / den`.
impl View for Score {
    type V = (int, int);

    closed spec fn view(&self) -> (int, int) {
        (self.num@ as int, self.den@ as int)
    }
}

/// Whether the fraction `a` is greater than the fraction `b` (both with
/// positive denominators).
pub open spec fn score_gt(a: (int, int), b: (int, int)) -> bool {
    a.0 * b.1 > b.0 * a.1
}

/// Scores are ordered: a score above one that is at least a third is above the
/// third too (for positive denominators).
pub proof fn lemma_score_order(a: (int, int), c: (int, int), d: (int, int))
    requires
        a.1 > 0,
        c.1 > 0,
        d.1 > 0,
        score_gt(a, c),
        !score_gt(d, c),
    ensures
        !score_gt(d, a),
{
    let (a0, a1) = a;
    let (c0, c1) = c;
    let (d0, d1) = d;
    assert(d0 * a1 <= a0 * d1) by (nonlinear_arith)
        requires
            a1 > 0,
            c1 > 0,
            d1 > 0,
            a0 * c1 > c0 * a1,
            d0 * c1 <= c0 * d1,
    {
        assert(a0 * c1 * d1 > c0 * a1 * d1) by (nonlinear_arith)
            requires
                a0 * c1 > c0 * a1,
                d1 > 0,
        ;
        assert(d0 * c1 * a1 <= c0 * d1 * a1) by (nonlinear_arith)
            requires
                d0 * c1 <= c0 * d1,
                a1 > 0,
        ;
        assert(d0 * a1 * c1 < a0 * d1 * c1) by (nonlinear_arith)
            requires
                a0 * c1 * d1 > c0 * a1 * d1,
                d0 * c1 * a1 <= c0 * d1 * a1,
        ;
    }
}

/// A score above one that is at least a third is strictly above the third
/// too (for positive denominators).
pub proof fn lemma_score_gt_trans(a: (int, int), c: (int, int), d: (int, int))
    requires
        a.1 > 0,
        c.1 > 0,
        d.1 > 0,
        score_gt(a, c),
        !score_gt(d, c),
    ensures
        score_gt(a, d),
{
    let (a0, a1) = a;
    let (c0, c1) = c;
    let (d0, d1) = d;
    assert(a0 * d1 > d0 * a1) by (nonlinear_arith)
        requires
            a1 > 0,
            c1 > 0,
            d1 > 0,
            a0 * c1 > c0 * a1,
            d0 * c1 <= c0 * d1,
    {
        assert(a0 * c1 * d1 > c0 * a1 * d1) by (nonlinear_arith)
            requires
                a0 * c1 > c0 * a1,
                d1 > 0,
        ;
        assert(d0 * c1 * a1 <= c0 * d1 * a1) by (nonlinear_arith)
            requires
                d0 * c1 <= c0 * d1,
                a1 > 0,
        ;
        assert(a0 * d1 * c1 > d0 * a1 * c1) by (nonlinear_arith)
            requires
                a0 * c1 * d1 > c0 * a1 * d1,
                d0 * c1 * a1 <= c0 * d1 * a1,
        ;
    }
}

/// "Not above" is transitive for scores with positive denominators.
pub proof fn lemma_score_le_trans(a: (int, int), b: (int, int), c: (int, int))
    requires
        a.1 > 0,
        b.1 > 0,
        c.1 > 0,
        !score_gt(a, b),
        !score_gt(b, c),
    ensures
        !score_gt(a, c),
{
    let (a0, a1) = a;
    let (b0, b1) = b;
    let (c0, c1) = c;
    assert(a0 * c1 <= c0 * a1) by (nonlinear_arith)
        requires
            a1 > 0,
            b1 > 0,
            c1 > 0,
            a0 * b1 <= b0 * a1,
            b0 * c1 <= c0 * b1,
    {
        assert(a0 * b1 * c1 <= b0 * a1 * c1) by (nonlinear_arith)
            requires
                a0 * b1 <= b0 * a1,
                c1 > 0,
        ;
        assert(b0 * c1 * a1 <= c0 * b1 * a1) by (nonlinear_arith)
            requires
                b0 * c1 <= c0 * b1,
                a1 > 0,
        ;
        assert(a0 * c1 * b1 <= c0 * a1 * b1) by (nonlinear_arith)
            requires
                a0 * b1 * c1 <= b0 * a1 * c1,
                b0 * c1 * a1 <= c0 * b1 * a1,
        ;
    }
}

/// Two scores that each equal a third score (as fractions with positive
/// denominators) are equal: neither is above the other.
pub proof fn lemma_score_eq_trans(x: (int, int), y: (int, int), s: (int, int))
    requires
        x.1 > 0,
        y.1 > 0,
        s.1 > 0,
        !score_gt(x, s),
        !score_gt(s, x),
        !score_gt(y, s),
        !score_gt(s, y),
    ensures
        !score_gt(x, y),
        !score_gt(y, x),
{
    let (x0, x1) = x;
    let (y0, y1) = y;
    let (s0, s1) = s;
    assert(x0 * y1 == y0 * x1) by (nonlinear_arith)
        requires
            x1 > 0,
            y1 > 0,
            s1 > 0,
            x0 * s1 == s0 * x1,
            y0 * s1 == s0 * y1,
    {
        assert(x0 * s1 * y1 == s0 * x1 * y1) by (nonlinear_arith)
            requires
                x0 * s1 == s0 * x1,
        ;
        assert(y0 * s1 * x1 == s0 * y1 * x1) by (nonlinear_arith)
            requires
                y0 * s1 == s0 * y1,
        ;
        assert(x0 * y1 * s1 == y0 * x1 * s1) by (nonlinear_arith)
            requires
                x0 * s1 * y1 == s0 * x1 * y1,
                y0 * s1 * x1 == s0 * y1 * x1,
        ;
    }
}

/// Something that carries a score.
pub trait Scored {
    /// The score, as a fraction.
    spec fn score_view(&self) -> (int, int);

    /// The score.
    fn score_ref(&self) -> (r: &Score)
        ensures
            r@ == self.score_view(),
    ;
}

/// Whether the items are in order of decreasing score.
pub open spec fn scores_descending<T: Scored>(v: Seq<T>) -> bool {
    forall|i: int, j: int|
        0 <= i < j < v.len() ==> !score_gt((#[trigger] v[j]).score_view(), (#[trigger] v[i]).score_view())
}

/// Whether every item's score has a positive denominator.
pub open spec fn scores_positive<T: Scored>(v: Seq<T>) -> bool {
    forall|x: int| 0 <= x < v.len() ==> (#[trigger] v[x]).score_view().1 > 0
}

/// Inserts an item after every item with a score at least its own, keeping
/// the items in order of decreasing score; gives back where it went.
pub fn insert_by_score<T: Scored>(result: &mut Vec<T>, item: T) -> (p: usize)
    requires
        scores_descending(old(result)@),
        scores_positive(old(result)@),
        item.score_view().1 > 0,
    ensures
        p <= old(result)@.len(),
        final(result)@ == old(result)@.insert(p as int, item),
        scores_descending(final(result)@),
        scores_positive(final(result)@),
        forall|x: int| 0 <= x < p ==> !score_gt(item.score_view(), (#[trigger] old(result)@[x]).score_view()),
        p < old(result)@.len() ==> score_gt(item.score_view(), old(result)@[p as int].score_view()),
{
    let mut p: usize = 0;
    while p < result.len() && !item.score_ref().gt(result[p].score_ref())
        invariant
            p <= result.len(),
            forall|x: int| 0 <= x < p ==> !score_gt(item.score_view(), (#[trigger] result@[x]).score_view()),
        decreases result.len() - p,
    {
        p = p + 1;
    }
    let ghost old_result = result@;
    let ghost iv = item;
    result.insert(p, item);
    proof {
        let r = result@;
        assert(r == old_result.insert(p as int, iv));
        assert forall|x: int, y: int| 0 <= x < y < r.len() implies !score_gt(
            (#[trigger] r[y]).score_view(),
            (#[trigger] r[x]).score_view(),
        ) by {
            if x == p {
                let oy = y - 1;
                assert(r[y] == old_result[oy]);
                assert(score_gt(r[x].score_view(), old_result[p as int].score_view()));
                if oy > p {
                    assert(!score_gt(old_result[oy].score_view(), old_result[p as int].score_view()));
                    lemma_score_order(
                        r[x].score_view(),
                        old_result[p as int].score_view(),
                        old_result[oy].score_view(),
                    );
                }
            } else if y == p {
                assert(r[x] == old_result[x]);
            } else {
                let ox = if x < p { x } else { x - 1 };
                let oy = if y < p { y } else { y - 1 };
                assert(r[x] == old_result[ox]);
                assert(r[y] == old_result[oy]);
            }
        }
        assert forall|x: int| 0 <= x < r.len() implies (#[trigger] r[x]).score_view().1 > 0 by {
            if x != p {
                let ox = if x < p { x } else { x - 1 };
                assert(r[x] == old_result[ox]);
            }
        }
    }
    p
}

/// How well a file name matches a cursor: a total out of a maximum. The total
/// is kept as an exact fraction.
#[derive(Debug)]
pub struct Evaluation {
    total_num: BigNat,
    total_den: BigNat,
    max: BigNat,
}

/// The normalized score of an evaluation `(total numerator, total
/// denominator, maximum)`: the total divided by the maximum, 0 where the
/// maximum is 0.
pub open spec fn normalized_view(v: (int, int, int)) -> (int, int) {
    if v.2 == 0 {
        (0, 1)
    } else {
        (v.0, v.1 * v.2)
    }
}

/// The merge of two evaluations: the totals and the maxima added.
pub open spec fn merged_view(a: (int, int, int), b: (int, int, int)) -> (int, int, int) {
    (a.0 * b.1 + b.0 * a.1, a.1 * b.1, a.2 + b.2)
}

/// The evaluation of a match between an expected word set and a name's words:
/// `matched / expected + matched / words` out of 2.
pub open spec fn match_view(matched: int, expected: int, words: int) -> (int, int, int) {
    (matched * (words + expected), expected * words, 2)
}

impl Evaluation {
    /// The total's denominator is positive.
    #[verifier::type_invariant]
    spec fn well_formed(self) -> bool {
        self.total_den@ > 0
    }

    /// The empty evaluation: nothing out of nothing.
    pub fn empty() -> (r: Evaluation)
        ensures
            r@ == (0int, 1int, 0int),
    {
        Evaluation { total_num: BigNat::zero(), total_den: BigNat::from_u64(1), max: BigNat::zero() }
    }

    /// The evaluation of `matched` words found among `expected` expected
    /// words and a name's `words` words: recall plus precision, out of 2.
    pub fn from_match(matched: usize, expected: usize, words: usize) -> (r: Evaluation)
        requires
            expected > 0,
            words > 0,
        ensures
            r@ == match_view(matched as int, expected as int, words as int),
    {
        let m = BigNat::from_usize(matched);
        let e = BigNat::from_usize(expected);
        let w = BigNat::from_usize(words);
        let num = m.mul(&w.add(&e));
        let den = e.mul(&w);
        proof {
            assert(e@ * w@ > 0) by (nonlinear_arith)
                requires
                    e@ > 0,
                    w@ > 0,
            ;
        }
        Evaluation { total_num: num, total_den: den, max: BigNat::from_u64(2) }
    }

    /// A copy of the evaluation.
    pub fn copy(&self) -> (r: Evaluation)
        ensures
            r@ == self@,
    {
        proof {
            use_type_invariant(self);
        }
        Evaluation {
            total_num: self.total_num.copy(),
            total_den: self.total_den.copy(),
            max: self.max.copy(),
        }
    }

    /// The total divided by the maximum; zero when the maximum is zero.
    pub fn normalized(&self) -> (r: Score)
        ensures
            r@ == normalized_view(self@),
            r@.1 > 0,
    {
        proof {
            use_type_invariant(self);
        }
        if self.max.is_zero() {
            Score { num: BigNat::zero(), den: BigNat::from_u64(1) }
        } else {
            let den = self.total_den.mul(&self.max);
            proof {
                assert(self.total_den@ * self.max@ > 0) by (nonlinear_arith)
                    requires
                        self.total_den@ > 0,
                        self.max@ > 0,
                ;
            }
            Score { num: self.total_num.copy(), den }
        }
    }

    /// Adds another evaluation's total and maximum to this one's.
    pub fn merge(&mut self, other: &Evaluation)
        ensures
            final(self)@ == merged_view(old(self)@, other@),
    {
        proof {
            use_type_invariant(&*self);
            use_type_invariant(other);
        }
        let num = self.total_num.mul(&other.total_den).add(&other.total_num.mul(&self.total_den));
        let den = self.total_den.mul(&other.total_den);
        let max = self.max.add(&other.max);
        proof {
            assert(self.total_den@ * other.total_den@ > 0) by (nonlinear_arith)
                requires
                    self.total_den@ > 0,
                    other.total_den@ > 0,
            ;
        }
        *self = Evaluation { total_num: num, total_den: den, max };
    }
}

/// The total's numerator and denominator, and the maximum.
impl View for Evaluation {
    type V = (int, int, int);

    closed spec fn view(&self) -> (int, int, int) {
        (self.total_num@ as int, self.total_den@ as int, self.max@ as int)
    }
}

/// The best of two evaluations of a cursor: the new one where its normalized
/// score is greater, the current one otherwise.
pub open spec fn better(current: (int, int, int), new: (int, int, int)) -> (int, int, int) {
    if score_gt(normalized_view(new), normalized_view(current)) {
        new
    } else {
        current
    }
}

/// Merging scoreboards: every cursor of either, with the better evaluation
/// where both have one.
pub open spec fn spec_merge_best(
    a: Map<(nat, Seq<char>), (int, int, int)>,
    b: Map<(nat, Seq<char>), (int, int, int)>,
) -> Map<(nat, Seq<char>), (int, int, int)> {
    Map::new(
        |k: (nat, Seq<char>)| a.contains_key(k) || b.contains_key(k),
        |k: (nat, Seq<char>)|
            if a.contains_key(k) && b.contains_key(k) {
                better(a[k], b[k])
            } else if b.contains_key(k) {
                b[k]
            } else {
                a[k]
            },
    )
}

/// Merging scoreboards keeps every cursor of either, and for each cursor a
/// score that is at least the score it had in each (and is one of them).
pub proof fn lemma_merge_best_keeps_best(
    a: Map<(nat, Seq<char>), (int, int, int)>,
    b: Map<(nat, Seq<char>), (int, int, int)>,
    k: (nat, Seq<char>),
)
    ensures
        spec_merge_best(a, b).contains_key(k) == (a.contains_key(k) || b.contains_key(k)),
        a.contains_key(k) ==> !score_gt(
            normalized_view(a[k]),
            normalized_view(spec_merge_best(a, b)[k]),
        ),
        b.contains_key(k) ==> !score_gt(
            normalized_view(b[k]),
            normalized_view(spec_merge_best(a, b)[k]),
        ),
        spec_merge_best(a, b).contains_key(k) ==> (a.contains_key(k) && spec_merge_best(a, b)[k]
            == a[k]) || (b.contains_key(k) && spec_merge_best(a, b)[k] == b[k]),
{
}

/// Merging a scoreboard with itself, or with an empty one, changes nothing.
pub proof fn lemma_merge_best_identity(a: Map<(nat, Seq<char>), (int, int, int)>)
    ensures
        spec_merge_best(a, a) == a,
        spec_merge_best(a, Map::empty()) == a,
        spec_merge_best(Map::empty(), a) == a,
{
    assert(spec_merge_best(a, a) =~= a);
    assert(spec_merge_best(a, Map::empty()) =~= a);
    assert(spec_merge_best(Map::empty(), a) =~= a);
}

/// The evaluation of a match that shares `matched` of the `expected` and
/// `words` words, with at least one shared, has a normalized score above 0
/// and at most 1; all words shared on both sides give exactly 1.
pub proof fn lemma_match_score_bounds(matched: int, expected: int, words: int)
    requires
        0 < matched <= expected,
        matched <= words,
    ensures
        normalized_view(match_view(matched, expected, words)).0 > 0,
        normalized_view(match_view(matched, expected, words)).1 > 0,
        normalized_view(match_view(matched, expected, words)).0 <= normalized_view(
            match_view(matched, expected, words),
        ).1,
        matched == expected && matched == words ==> normalized_view(
            match_view(matched, expected, words),
        ).0 == normalized_view(match_view(matched, expected, words)).1,
{
    let m = matched;
    let e = expected;
    let w = words;
    assert(m * (w + e) > 0) by (nonlinear_arith)
        requires
            m > 0,
            w > 0,
            e > 0,
    ;
    assert(e * w * 2 > 0) by (nonlinear_arith)
        requires
            w > 0,
            e > 0,
    ;
    assert(m * (w + e) <= e * w * 2) by (nonlinear_arith)
        requires
            0 < m <= e,
            m <= w,
    ;
    if m == e && m == w {
        assert(m * (w + e) == e * w * 2) by (nonlinear_arith)
            requires
                m == e,
                m == w,
        ;
    }
}

/// The evaluations of several cursors.
#[derive(Debug)]
pub struct Scoreboard {
    pub scores: CursorMap<Evaluation>,
}

impl Default for Scoreboard {
    /// An empty scoreboard.
    fn default() -> (r: Scoreboard)
        ensures
            r.scores@ == Map::<(nat, Seq<char>), (int, int, int)>::empty(),
    {
        Scoreboard { scores: CursorMap::new() }
    }
}

impl Scoreboard {
    /// Adds an evaluation to the cursor's (an empty one where it has none).
    pub fn add(&mut self, cursor: Cursor, evaluation: &Evaluation)
        ensures
            final(self).scores@ == old(self).scores@.insert(
                cursor@,
                merged_view(
                    if old(self).scores@.contains_key(cursor@) {
                        old(self).scores@[cursor@]
                    } else {
                        (0int, 1int, 0int)
                    },
                    evaluation@,
                ),
            ),
    {
        let mut current = match self.scores.get(&cursor) {
            Some(c) => c.copy(),
            None => Evaluation::empty(),
        };
        current.merge(evaluation);
        self.scores.insert(cursor, current);
    }

    /// Takes, for each cursor of `other`, its evaluation where this
    /// scoreboard has none or one with a lower normalized score.
    pub fn merge_best(&mut self, other: Scoreboard)
        ensures
            final(self).scores@ == spec_merge_best(old(self).scores@, other.scores@),
    {
        let ghost a = self.scores@;
        let ghost b = other.scores@;
        let entries = other.scores.into_entries();
        let mut i: usize = 0;
        while i < entries.len()
            invariant
                i <= entries.len(),
                a == old(self).scores@,
                forall|j: int| 0 <= j < entries.len() ==> b.contains_key((#[trigger] entries@[j]).0@)
                    && b[entries@[j].0@] == entries@[j].1@,
                forall|k: (nat, Seq<char>)| #[trigger] b.contains_key(k) ==> exists|j: int|
                    0 <= j < entries.len() && (#[trigger] entries@[j]).0@ == k,
                forall|x: int, y: int| 0 <= x < y < entries.len() ==> (#[trigger] entries@[x]).0@ != (
                #[trigger] entries@[y]).0@,
                forall|k: (nat, Seq<char>)| #[trigger] self.scores@.contains_key(k) ==> a.contains_key(k)
                    || b.contains_key(k),
                forall|j: int| 0 <= j < i ==> self.scores@.contains_key((#[trigger] entries@[j]).0@)
                    && self.scores@[entries@[j].0@] == spec_merge_best(a, b)[entries@[j].0@],
                forall|k: (nat, Seq<char>)|
                    #![trigger self.scores@.contains_key(k)]
                    (forall|j: int| 0 <= j < i ==> (#[trigger] entries@[j]).0@ != k) ==> (
                    self.scores@.contains_key(k) == a.contains_key(k) && (a.contains_key(k)
                        ==> self.scores@[k] == a[k])),
            decreases entries.len() - i,
        {
            let cursor = &entries[i].0;
            let evaluation = entries[i].1.copy();
            let ghost k = cursor@;
            let ghost before = self.scores@;
            let take = match self.scores.get(cursor) {
                Some(current) => evaluation.normalized().gt(&current.normalized()),
                None => true,
            };
            if take {
                self.scores.insert(cursor.duplicate(), evaluation);
            }
            proof {
                assert forall|j: int| 0 <= j < i + 1 implies self.scores@.contains_key(
                    (#[trigger] entries@[j]).0@,
                ) && self.scores@[entries@[j].0@] == spec_merge_best(a, b)[entries@[j].0@] by {
                    if j < i {
                        assert(entries@[j].0@ != k);
                    }
                }
                assert forall|k2: (nat, Seq<char>)|
                    (forall|j: int| 0 <= j < i + 1 ==> (#[trigger] entries@[j]).0@ != k2) implies (
                    self.scores@.contains_key(k2) == a.contains_key(k2) && (a.contains_key(k2)
                        ==> self.scores@[k2] == a[k2])) by {
                    assert(entries@[i as int].0@ != k2);
                    assert(forall|j: int| 0 <= j < i ==> (#[trigger] entries@[j]).0@ != k2);
                    assert(before.contains_key(k2) == a.contains_key(k2));
                }
            }
            i = i + 1;
        }
        proof {
            let m = spec_merge_best(a, b);
            assert forall|k: (nat, Seq<char>)| #[trigger] self.scores@.contains_key(k) == m.contains_key(k)
                && (self.scores@.contains_key(k) ==> self.scores@[k] == m[k]) by {
                if b.contains_key(k) {
                    let j = choose|j: int| 0 <= j < entries.len() && (#[trigger] entries@[j]).0@ == k;
                } else {
                    assert forall|j: int| 0 <= j < i implies (#[trigger] entries@[j]).0@ != k by {}
                }
            }
            assert(self.scores@ =~= m);
        }
    }
}

/// The characters of an optional string.
pub open spec fn stem_view(stem: Option<&str>) -> Option<Seq<char>> {
    match stem {
        Some(s) => Some(s@),
        None => None,
    }
}

/// Something that scores how well a file's name (its stem) matches each cursor.
pub trait Evaluator {
    /// The scores, or `None` where the evaluator has nothing to say.
    spec fn spec_evaluate(&self, stem: Option<Seq<char>>) -> Option<
        Map<(nat, Seq<char>), (int, int, int)>,
    >;

    /// Scores a file's stem (`None` where the file has no stem that is text).
    fn evaluate(&self, stem: Option<&str>) -> (r: Option<Scoreboard>)
        ensures
            match r {
                Some(b) => self.spec_evaluate(stem_view(stem)) == Some(b.scores@),
                None => self.spec_evaluate(stem_view(stem)) is None,
            },
    ;
}

} // verus!
