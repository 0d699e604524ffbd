use vstd::prelude::*;
use crate::cursor::Cursor;
use crate::eval::{
    insert_by_score, normalized_view, scores_descending, scores_positive, spec_merge_best,
    stem_view, Evaluator, Score, Scoreboard, Scored,
};

verus! {

/// A cursor that a file may stand for, and how well it matches.
#[derive(Debug)]
pub struct CursorMatch {
    pub cursor: Cursor,
    pub score: Score,
}

/// Recognizes which cursors a cursor file stands for, by the scores of its
/// evaluators.
pub struct CursorRecognizer<E> {
    evaluators: Vec<E>,
}

/// The scoreboard that the evaluators give a stem: each evaluator's scores
/// merged in turn, keeping each cursor's best.
pub open spec fn spec_board<E: Evaluator>(evaluators: Seq<E>, stem: Option<Seq<char>>) -> Map<
    (nat, Seq<char>),
    (int, int, int),
>
    decreases evaluators.len(),
{
    if evaluators.len() == 0 {
        Map::empty()
    } else {
        let before = spec_board(evaluators.drop_last(), stem);
        match evaluators.last().spec_evaluate(stem) {
            Some(m) => spec_merge_best(before, m),
            None => before,
        }
    }
}

impl Scored for CursorMatch {
    open spec fn score_view(&self) -> (int, int) {
        self.score@
    }

    fn score_ref(&self) -> (r: &Score) {
        &self.score
    }
}

/// Whether the matches are in order of decreasing score.
pub open spec fn sorted_by_score(m: Seq<CursorMatch>) -> bool {
    scores_descending(m)
}

/// Whether the matches are exactly the cursors of `board`, each once, with its
/// normalized score.
pub open spec fn matches_board(m: Seq<CursorMatch>, board: Map<(nat, Seq<char>), (int, int, int)>) -> bool {
    &&& forall|i: int| 0 <= i < m.len() ==> board.contains_key((#[trigger] m[i]).cursor@)
        && m[i].score@ == normalized_view(board[m[i].cursor@])
    &&& forall|k: (nat, Seq<char>)| #[trigger] board.contains_key(k) ==> exists|i: int|
        0 <= i < m.len() && (#[trigger] m[i]).cursor@ == k
    &&& forall|i: int, j: int| 0 <= i < j < m.len() ==> (#[trigger] m[i]).cursor@ != (
    #[trigger] m[j]).cursor@
}

/// Whether every match has a positive score denominator.
pub open spec fn positive_scores(m: Seq<CursorMatch>) -> bool {
    scores_positive(m)
}

/// Whether every match is for one of the first `n` entries.
pub open spec fn from_entries(m: Seq<CursorMatch>, entries: Seq<(Cursor, crate::eval::Evaluation)>, n: int) -> bool {
    forall|x: int| 0 <= x < m.len() ==> exists|j: int|
        0 <= j < n && (#[trigger] entries[j]).0@ == (#[trigger] m[x]).cursor@
}

/// Whether each of the first `n` entries has a match.
pub open spec fn covers_entries(m: Seq<CursorMatch>, entries: Seq<(Cursor, crate::eval::Evaluation)>, n: int) -> bool {
    forall|j: int| 0 <= j < n ==> exists|x: int|
        0 <= x < m.len() && (#[trigger] entries[j]).0@ == (#[trigger] m[x]).cursor@
}

/// Whether every match is for a cursor of `b`, with its normalized score.
pub open spec fn scored_from(m: Seq<CursorMatch>, b: Map<(nat, Seq<char>), (int, int, int)>) -> bool {
    forall|x: int| 0 <= x < m.len() ==> b.contains_key((#[trigger] m[x]).cursor@)
        && m[x].score@ == normalized_view(b[m[x].cursor@])
}

/// Whether no cursor has two matches.
pub open spec fn distinct_cursors(m: Seq<CursorMatch>) -> bool {
    forall|x: int, y: int| 0 <= x < y < m.len() ==> (#[trigger] m[x]).cursor@ != (
    #[trigger] m[y]).cursor@
}

/// Whether the matches are, each once, the first `n` entries of a scoreboard
/// `b`, each with its normalized score.
pub open spec fn drawn_from(
    m: Seq<CursorMatch>,
    entries: Seq<(Cursor, crate::eval::Evaluation)>,
    n: int,
    b: Map<(nat, Seq<char>), (int, int, int)>,
) -> bool {
    &&& from_entries(m, entries, n)
    &&& covers_entries(m, entries, n)
    &&& scored_from(m, b)
    &&& distinct_cursors(m)
}

/// `r` is `old` with `item` put at index `p`.
pub open spec fn inserted_at(old: Seq<CursorMatch>, p: int, item: CursorMatch, r: Seq<CursorMatch>) -> bool {
    &&& 0 <= p <= old.len()
    &&& r.len() == old.len() + 1
    &&& r[p] == item
    &&& forall|x: int| 0 <= x < p ==> r[x] == old[x]
    &&& forall|x: int| p < x < r.len() ==> r[x] == old[x - 1]
}

proof fn lemma_from_entries_insert(
    old: Seq<CursorMatch>,
    entries: Seq<(Cursor, crate::eval::Evaluation)>,
    n: int,
    p: int,
    r: Seq<CursorMatch>,
)
    requires
        0 <= n < entries.len(),
        from_entries(old, entries, n),
        inserted_at(old, p, r[p], r),
        r[p].cursor@ == entries[n].0@,
    ensures
        from_entries(r, entries, n + 1),
{
    assert forall|x: int| 0 <= x < r.len() implies exists|j: int|
        0 <= j < n + 1 && (#[trigger] entries[j]).0@ == (#[trigger] r[x]).cursor@ by {
        if x == p {
            assert(entries[n].0@ == r[x].cursor@);
        } else {
            let ox = if x < p { x } else { x - 1 };
            assert(r[x] == old[ox]);
            let j = choose|j: int| 0 <= j < n && (#[trigger] entries[j]).0@ == old[ox].cursor@;
        }
    }
}

proof fn lemma_covers_entries_insert(
    old: Seq<CursorMatch>,
    entries: Seq<(Cursor, crate::eval::Evaluation)>,
    n: int,
    p: int,
    r: Seq<CursorMatch>,
)
    requires
        0 <= n < entries.len(),
        covers_entries(old, entries, n),
        inserted_at(old, p, r[p], r),
        r[p].cursor@ == entries[n].0@,
    ensures
        covers_entries(r, entries, n + 1),
{
    assert forall|j: int| 0 <= j < n + 1 implies exists|x: int|
        0 <= x < r.len() && (#[trigger] entries[j]).0@ == (#[trigger] r[x]).cursor@ by {
        if j == n {
            assert(entries[j].0@ == r[p].cursor@);
        } else {
            let ox = choose|x: int| 0 <= x < old.len() && (#[trigger] entries[j]).0@ == (#[trigger] old[x]).cursor@;
            let x = if ox < p { ox } else { ox + 1 };
            assert(r[x] == old[ox]);
        }
    }
}

proof fn lemma_scored_from_insert(
    old: Seq<CursorMatch>,
    b: Map<(nat, Seq<char>), (int, int, int)>,
    p: int,
    r: Seq<CursorMatch>,
)
    requires
        scored_from(old, b),
        inserted_at(old, p, r[p], r),
        b.contains_key(r[p].cursor@),
        r[p].score@ == normalized_view(b[r[p].cursor@]),
    ensures
        scored_from(r, b),
{
    assert forall|x: int| 0 <= x < r.len() implies b.contains_key((#[trigger] r[x]).cursor@)
        && r[x].score@ == normalized_view(b[r[x].cursor@]) by {
        if x != p {
            let ox = if x < p { x } else { x - 1 };
            assert(r[x] == old[ox]);
        }
    }
}

proof fn lemma_distinct_cursors_insert(old: Seq<CursorMatch>, p: int, r: Seq<CursorMatch>)
    requires
        distinct_cursors(old),
        inserted_at(old, p, r[p], r),
        forall|x: int| 0 <= x < old.len() ==> (#[trigger] old[x]).cursor@ != r[p].cursor@,
    ensures
        distinct_cursors(r),
{
    assert forall|x: int, y: int| 0 <= x < y < r.len() implies (#[trigger] r[x]).cursor@ != (
    #[trigger] r[y]).cursor@ by {
        let ox = if x < p { x } else { x - 1 };
        let oy = if y < p { y } else { y - 1 };
        if x == p {
            assert(r[y] == old[oy]);
        } else if y == p {
            assert(r[x] == old[ox]);
        } else {
            assert(r[x] == old[ox]);
            assert(r[y] == old[oy]);
        }
    }
}

/// Inserting the match for entry `n` keeps the matches drawn from the entries.
proof fn lemma_drawn_from_insert(
    old: Seq<CursorMatch>,
    entries: Seq<(Cursor, crate::eval::Evaluation)>,
    n: int,
    b: Map<(nat, Seq<char>), (int, int, int)>,
    p: int,
    r: Seq<CursorMatch>,
)
    requires
        0 <= n < entries.len(),
        drawn_from(old, entries, n, b),
        forall|j: int| 0 <= j < entries.len() ==> b.contains_key((#[trigger] entries[j]).0@)
            && b[entries[j].0@] == entries[j].1@,
        forall|x: int, y: int| 0 <= x < y < entries.len() ==> (#[trigger] entries[x]).0@ != (
        #[trigger] entries[y]).0@,
        inserted_at(old, p, r[p], r),
        r[p].cursor@ == entries[n].0@,
        r[p].score@ == normalized_view(entries[n].1@),
    ensures
        drawn_from(r, entries, n + 1, b),
{
    lemma_from_entries_insert(old, entries, n, p, r);
    lemma_covers_entries_insert(old, entries, n, p, r);
    assert(b.contains_key(entries[n].0@) && b[entries[n].0@] == entries[n].1@);
    lemma_scored_from_insert(old, b, p, r);
    assert forall|x: int| 0 <= x < old.len() implies (#[trigger] old[x]).cursor@ != r[p].cursor@ by {
        let j = choose|j: int| 0 <= j < n && (#[trigger] entries[j]).0@ == old[x].cursor@;
        assert(entries[j].0@ != entries[n].0@);
    }
    lemma_distinct_cursors_insert(old, p, r);
}

impl<E: Evaluator> CursorRecognizer<E> {
    /// The evaluators, in the order they were added.
    pub closed spec fn spec_evaluators(self) -> Seq<E> {
        self.evaluators@
    }

    /// A recognizer without evaluators.
    pub fn new() -> (r: Self)
        ensures
            r.spec_evaluators() == Seq::<E>::empty(),
    {
        CursorRecognizer { evaluators: Vec::new() }
    }

    /// The recognizer with one more evaluator.
    pub fn evaluator(self, evaluator: E) -> (r: Self)
        ensures
            r.spec_evaluators() == self.spec_evaluators().push(evaluator),
    {
        let mut evaluators = self.evaluators;
        evaluators.push(evaluator);
        CursorRecognizer { evaluators }
    }

    /// The cursors that a file with the given stem may stand for, best first:
    /// every cursor that some evaluator scores, once, with the best normalized
    /// score it got. The order among matches with equal scores is left open.
    pub fn recognize(&self, stem: Option<&str>) -> (r: Vec<CursorMatch>)
        ensures
            matches_board(r@, spec_board(self.spec_evaluators(), stem_view(stem))),
            sorted_by_score(r@),
    {
        let ghost sv = stem_view(stem);
        let mut board = Scoreboard::default();
        let mut i: usize = 0;
        proof {
            assert(self.evaluators@.take(0) =~= Seq::<E>::empty());
        }
        while i < self.evaluators.len()
            invariant
                i <= self.evaluators.len(),
                sv == stem_view(stem),
                board.scores@ == spec_board(self.evaluators@.take(i as int), sv),
            decreases self.evaluators.len() - i,
        {
            proof {
                assert(self.evaluators@.take(i as int + 1).drop_last() =~= self.evaluators@.take(
                    i as int,
                ));
            }
            match self.evaluators[i].evaluate(stem) {
                Some(scores) => board.merge_best(scores),
                None => {},
            }
            i = i + 1;
        }
        proof {
            assert(self.evaluators@.take(i as int) =~= self.evaluators@);
        }
        let ghost b = board.scores@;
        let entries = board.scores.into_entries();
        let mut result: Vec<CursorMatch> = Vec::new();
        let mut n: usize = 0;
        while n < entries.len()
            invariant
                n <= entries.len(),
                forall|j: int| 0 <= j < entries.len() ==> b.contains_key((#[trigger] entries@[j]).0@)
                    && b[entries@[j].0@] == entries@[j].1@,
                forall|k: (nat, Seq<char>)| #[trigger] b.contains_key(k) ==> exists|j: int|
                    0 <= j < entries.len() && (#[trigger] entries@[j]).0@ == k,
                forall|x: int, y: int| 0 <= x < y < entries.len() ==> (#[trigger] entries@[x]).0@ != (
                #[trigger] entries@[y]).0@,
                result.len() == n,
                sorted_by_score(result@),
                positive_scores(result@),
                drawn_from(result@, entries@, n as int, b),
            decreases entries.len() - n,
        {
            let item = CursorMatch { cursor: entries[n].0.duplicate(), score: entries[n].1.normalized() };
            let ghost old_result = result@;
            let ghost iv = item;
            let p = insert_by_score(&mut result, item);
            proof {
                assert(result@ == old_result.insert(p as int, iv));
                assert(inserted_at(old_result, p as int, iv, result@));
                lemma_drawn_from_insert(old_result, entries@, n as int, b, p as int, result@);
            }
            n = n + 1;
        }
        proof {
            assert forall|k: (nat, Seq<char>)| #[trigger] b.contains_key(k) implies exists|i: int|
                0 <= i < result@.len() && (#[trigger] result@[i]).cursor@ == k by {
                let j = choose|j: int| 0 <= j < entries.len() && (#[trigger] entries@[j]).0@ == k;
                let x = choose|x: int| 0 <= x < result.len() && (#[trigger] entries@[j]).0@ == (#[trigger] result@[x]).cursor@;
            }
        }
        result
    }
}

} // verus!
