use vstd::prelude::*;
use crate::eval::{
    insert_by_score, lemma_score_den, lemma_score_eq_trans, lemma_score_gt_trans, score_gt,
    scores_descending, scores_positive, Score, Scored,
};
use crate::text::chars_of;
use crate::cursor::Cursor;
use crate::cursor_map::CursorPathMap;

verus! {

broadcast use vstd::seq_lib::group_to_multiset_ensures, vstd::multiset::lemma_multiset_empty_len;

/// A cursor file suggested for a cursor, with how well it matched.
#[derive(Debug)]
pub struct Suggestion {
    pub path: String,
    pub score: Score,
}

/// Whether a file extension is one of a cursor file: `ani` or `cur`.
pub open spec fn spec_is_cursor_extension(ext: Seq<char>) -> bool {
    ext == "ani"@ || ext == "cur"@
}

/// Whether a file with this extension is a cursor file (`ani` or `cur`).
pub fn is_cursor_extension(ext: &str) -> (r: bool)
    ensures
        r == spec_is_cursor_extension(ext@),
{
    let chars = chars_of(ext);
    let ani = chars_of("ani");
    let cur = chars_of("cur");
    same_chars(chars.as_slice(), ani.as_slice()) || same_chars(chars.as_slice(), cur.as_slice())
}

/// Whether two character sequences are equal.
fn same_chars(a: &[char], b: &[char]) -> (r: bool)
    ensures
        r == (a@ == b@),
{
    if a.len() != b.len() {
        return false;
    }
    let mut i: usize = 0;
    while i < a.len()
        invariant
            i <= a.len(),
            a.len() == b.len(),
            forall|j: int| 0 <= j < i ==> a@[j] == b@[j],
        decreases a.len() - i,
    {
        if a[i] != b[i] {
            return false;
        }
        i = i + 1;
    }
    assert(a@ =~= b@);
    true
}

impl Scored for Suggestion {
    open spec fn score_view(&self) -> (int, int) {
        self.score@
    }

    fn score_ref(&self) -> (r: &Score) {
        &self.score
    }
}

/// Whether the suggestions are in order of decreasing score.
pub open spec fn suggestions_sorted(v: Seq<Suggestion>) -> bool {
    scores_descending(v)
}

/// Whether every suggestion has a positive score denominator.
pub open spec fn positive_suggestions(v: Seq<Suggestion>) -> bool {
    scores_positive(v)
}

/// The test for suggestions whose score equals the fraction `s`.
pub open spec fn same_score(s: (int, int)) -> spec_fn(Suggestion) -> bool {
    |x: Suggestion| !score_gt(x.score@, s) && !score_gt(s, x.score@)
}

/// Inserting at `p` a suggestion that scores above every suggestion from `p`
/// on adds it at the end of the suggestions with its score, and leaves those
/// with other scores as they were.
proof fn lemma_insert_keeps_ties(old: Seq<Suggestion>, p: int, item: Suggestion, s: (int, int))
    requires
        0 <= p <= old.len(),
        suggestions_sorted(old),
        positive_suggestions(old),
        item.score@.1 > 0,
        s.1 > 0,
        p < old.len() ==> score_gt(item.score@, old[p].score@),
    ensures
        old.insert(p, item).filter(same_score(s)) == (if same_score(s)(item) {
            old.filter(same_score(s)).push(item)
        } else {
            old.filter(same_score(s))
        }),
{
    let f = same_score(s);
    let a = old.take(p);
    let b = old.skip(p);
    let one = seq![item];
    assert(old =~= a + b);
    assert(old.insert(p, item) =~= (a + one) + b);
    Seq::filter_distributes_over_add(a + one, b, f);
    Seq::filter_distributes_over_add(a, one, f);
    Seq::filter_distributes_over_add(a, b, f);
    Seq::<Suggestion>::empty().lemma_filter_prepend(item, f);
    assert(one =~= seq![item] + Seq::<Suggestion>::empty());
    assert(Seq::<Suggestion>::empty().filter(f) =~= Seq::<Suggestion>::empty()) by {
        reveal(Seq::filter);
    }
    if f(item) {
        assert forall|j: int| 0 <= j < b.len() implies !f(#[trigger] b[j]) by {
            assert(b[j] == old[p + j]);
            assert(score_gt(item.score@, old[p + j].score@)) by {
                if j > 0 {
                    assert(!score_gt(old[p + j].score@, old[p].score@));
                    assert(old[p].score@.1 > 0);
                    assert(old[p + j].score@.1 > 0);
                    lemma_score_gt_trans(item.score@, old[p].score@, old[p + j].score@);
                }
            }
            if f(b[j]) {
                assert(old[p + j].score@.1 > 0);
                lemma_score_eq_trans(item.score@, b[j].score@, s);
            }
        }
        assert(b.filter(f) =~= Seq::<Suggestion>::empty()) by {
            if b.filter(f).len() > 0 {
                let x = b.filter(f)[0];
                b.lemma_filter_pred(f, 0);
                assert(b.filter(f).contains(x));
                b.lemma_filter_contains_rev(f, x);
                let j = choose|j: int| 0 <= j < b.len() && b[j] == x;
                assert(!f(b[j]));
            }
        }
        assert(old.insert(p, item).filter(f) =~= old.filter(f).push(item));
    } else {
        assert(old.insert(p, item).filter(f) =~= old.filter(f));
    }
}

/// Inserts a suggestion after every one with a score at least its own.
fn insert_suggestion(result: &mut Vec<Suggestion>, item: Suggestion)
    requires
        suggestions_sorted(old(result)@),
        positive_suggestions(old(result)@),
        item.score@.1 > 0,
    ensures
        suggestions_sorted(final(result)@),
        positive_suggestions(final(result)@),
        final(result)@.to_multiset() == old(result)@.to_multiset().insert(item),
        forall|s: (int, int)|
            s.1 > 0 ==> #[trigger] final(result)@.filter(same_score(s)) == (if same_score(s)(item) {
                old(result)@.filter(same_score(s)).push(item)
            } else {
                old(result)@.filter(same_score(s))
            }),
{
    let ghost old_result = result@;
    let ghost iv = item;
    let p = insert_by_score(result, item);
    proof {
        let r = result@;
        assert forall|s: (int, int)| s.1 > 0 implies #[trigger] r.filter(same_score(s)) == (if same_score(
            s,
        )(iv) {
            old_result.filter(same_score(s)).push(iv)
        } else {
            old_result.filter(same_score(s))
        }) by {
            lemma_insert_keeps_ties(old_result, p as int, iv, s);
        }
    }
}

/// The suggestions in order of decreasing score; suggestions with equal
/// scores keep their order.
pub fn sort_suggestions(v: Vec<Suggestion>) -> (r: Vec<Suggestion>)
    ensures
        suggestions_sorted(r@),
        r@.to_multiset() == v@.to_multiset(),
        forall|s: (int, int)|
            s.1 > 0 ==> #[trigger] r@.filter(same_score(s)) == v@.filter(same_score(s)),
{
    let mut rest = v;
    let mut result: Vec<Suggestion> = Vec::new();
    let ghost input = rest@;
    proof {
        broadcast use vstd::multiset::group_multiset_axioms;
        assert(result@ =~= Seq::<Suggestion>::empty());
        assert(result@.to_multiset() =~= vstd::multiset::Multiset::<Suggestion>::empty());
        assert(result@.to_multiset().add(rest@.to_multiset()) =~= input.to_multiset());
        assert forall|s: (int, int)| s.1 > 0 implies #[trigger] result@.filter(same_score(s))
            + rest@.filter(same_score(s)) == input.filter(same_score(s)) by {
            assert(result@.filter(same_score(s)) =~= Seq::<Suggestion>::empty()) by {
                reveal(Seq::filter);
            }
            assert(result@.filter(same_score(s)) + rest@.filter(same_score(s)) =~= rest@.filter(
                same_score(s),
            ));
        }
    }
    while rest.len() > 0
        invariant
            suggestions_sorted(result@),
            positive_suggestions(result@),
            result@.to_multiset().add(rest@.to_multiset()) == input.to_multiset(),
            forall|s: (int, int)|
                s.1 > 0 ==> #[trigger] result@.filter(same_score(s)) + rest@.filter(same_score(s))
                    == input.filter(same_score(s)),
        decreases rest.len(),
    {
        let ghost before = rest@;
        let item = rest.remove(0);
        proof {
            use_type_invariant(&item.score);
            lemma_score_den(item.score);
            assert(rest@ == before.remove(0));
        }
        let ghost done = result@;
        let ghost iv = item;
        insert_suggestion(&mut result, item);
        proof {
            broadcast use vstd::multiset::group_multiset_axioms;
            assert(result@.to_multiset().add(rest@.to_multiset()) =~= input.to_multiset());
            assert(before =~= seq![iv] + rest@);
            assert forall|s: (int, int)| s.1 > 0 implies #[trigger] result@.filter(same_score(s))
                + rest@.filter(same_score(s)) == input.filter(same_score(s)) by {
                let f = same_score(s);
                rest@.lemma_filter_prepend(iv, f);
                assert(done.filter(f) + before.filter(f) == input.filter(f));
                if f(iv) {
                    assert(result@.filter(f) + rest@.filter(f) =~= done.filter(f) + (seq![iv]
                        + rest@.filter(f)));
                } else {
                    assert(seq![iv] + rest@ == before);
                    assert(before.filter(f) =~= rest@.filter(f));
                }
            }
        }
    }
    proof {
        broadcast use vstd::multiset::group_multiset_axioms;
        assert(rest@ =~= Seq::<Suggestion>::empty());
        assert(rest@.to_multiset() =~= vstd::multiset::Multiset::<Suggestion>::empty());
        assert(result@.to_multiset() =~= input.to_multiset());
        assert forall|s: (int, int)| s.1 > 0 implies #[trigger] result@.filter(same_score(s))
            == input.filter(same_score(s)) by {
            assert(rest@.filter(same_score(s)) =~= Seq::<Suggestion>::empty()) by {
                reveal(Seq::filter);
            }
            assert(result@.filter(same_score(s)) + rest@.filter(same_score(s)) =~= result@.filter(
                same_score(s),
            ));
        }
    }
    result
}

/// The threshold a suggestion's score must reach to be chosen: 3 / 10.
pub open spec fn threshold() -> (int, int) {
    (3, 10)
}

/// The index of the suggestion to choose: the first one with the greatest
/// score among those that reach the threshold; `None` where none does.
pub open spec fn spec_best_suggestion(v: Seq<Suggestion>) -> Option<int>
    decreases v.len(),
{
    if v.len() == 0 {
        None
    } else {
        let b = spec_best_suggestion(v.drop_last());
        let s = v.last().score@;
        if !score_gt(threshold(), s) && (b is None || score_gt(s, v[b->0].score@)) {
            Some(v.len() - 1)
        } else {
            b
        }
    }
}

/// Whether a suggestion's score reaches the threshold.
pub open spec fn reaches_threshold(x: Suggestion) -> bool {
    !score_gt(threshold(), x.score@)
}

/// The suggestion chosen is one that reaches the threshold, no suggestion
/// that reaches it scores higher, and every such suggestion before it scores
/// lower (the first of the best); none is chosen only where no suggestion
/// reaches the threshold.
pub proof fn lemma_best_suggestion_is_first_best(v: Seq<Suggestion>)
    requires
        positive_suggestions(v),
    ensures
        spec_best_suggestion(v) matches Some(i) ==> {
            &&& 0 <= i < v.len()
            &&& reaches_threshold(v[i])
            &&& forall|j: int|
                0 <= j < v.len() && reaches_threshold(#[trigger] v[j]) ==> !score_gt(
                    v[j].score@,
                    v[i].score@,
                ) && (j < i ==> score_gt(v[i].score@, v[j].score@))
        },
        spec_best_suggestion(v) is None ==> forall|j: int|
            0 <= j < v.len() ==> !reaches_threshold(#[trigger] v[j]),
    decreases v.len(),
{
    if v.len() > 0 {
        let w = v.drop_last();
        assert(positive_suggestions(w)) by {
            assert forall|x: int| 0 <= x < w.len() implies (#[trigger] w[x]).score@.1 > 0 by {
                assert(w[x] == v[x]);
            }
        }
        lemma_best_suggestion_is_first_best(w);
        let n = v.len() - 1;
        let last = v[n];
        assert(last.score@.1 > 0);
        assert forall|j: int| 0 <= j < n implies #[trigger] v[j] == w[j] by {}
        match spec_best_suggestion(w) {
            Some(b) => {
                assert(v[b] == w[b]);
                assert(v[b].score@.1 > 0);
                if reaches_threshold(last) && score_gt(last.score@, v[b].score@) {
                    assert forall|j: int|
                        0 <= j < v.len() && reaches_threshold(#[trigger] v[j]) implies !score_gt(
                        v[j].score@,
                        v[n].score@,
                    ) && (j < n ==> score_gt(v[n].score@, v[j].score@)) by {
                        if j < n {
                            assert(v[j] == w[j]);
                            assert(v[j].score@.1 > 0);
                            lemma_score_gt_trans(last.score@, v[b].score@, v[j].score@);
                        }
                    }
                } else {
                    assert forall|j: int|
                        0 <= j < v.len() && reaches_threshold(#[trigger] v[j]) implies !score_gt(
                        v[j].score@,
                        v[b].score@,
                    ) && (j < b ==> score_gt(v[b].score@, v[j].score@)) by {
                        if j < n {
                            assert(v[j] == w[j]);
                        }
                    }
                }
            },
            None => {
                assert forall|j: int| 0 <= j < n implies !reaches_threshold(#[trigger] v[j]) by {
                    assert(v[j] == w[j]);
                }
            },
        }
    }
}

/// The index of the suggestion to choose, as `spec_best_suggestion` says.
pub fn best_suggestion(v: &Vec<Suggestion>) -> (r: Option<usize>)
    ensures
        r matches Some(i) ==> spec_best_suggestion(v@) == Some(i as int),
        r is None ==> spec_best_suggestion(v@) is None,
{
    let mut best: Option<usize> = None;
    let mut i: usize = 0;
    proof {
        assert(v@.take(0) =~= Seq::<Suggestion>::empty());
    }
    while i < v.len()
        invariant
            i <= v.len(),
            best matches Some(b) ==> b < i && spec_best_suggestion(v@.take(i as int)) == Some(b as int),
            best is None ==> spec_best_suggestion(v@.take(i as int)) is None,
        decreases v.len() - i,
    {
        proof {
            assert(v@.take(i as int + 1).drop_last() =~= v@.take(i as int));
            assert(v@.take(i as int + 1).last() == v@[i as int]);
            if let Some(b) = best {
                assert(v@.take(i as int + 1)[b as int] == v@[b as int]);
            }
        }
        let s = &v[i];
        if s.score.at_least(3, 10) {
            let take = match best {
                None => true,
                Some(b) => s.score.gt(&v[b].score),
            };
            if take {
                best = Some(i);
            }
        }
        i = i + 1;
    }
    proof {
        assert(v@.take(i as int) =~= v@);
    }
    best
}

/// What the user picked for a cursor: a file (a suggestion or one typed in),
/// no file, or nothing (the choice is cancelled).
#[derive(Debug)]
pub enum Choice {
    Path(String),
    Empty,
    Cancel,
}

/// Applies the user's choice for a cursor to the chosen files: a file
/// replaces the cursor's file, `Empty` removes it, `Cancel` changes nothing.
pub fn apply_choice(candidate: &mut CursorPathMap, cursor: Cursor, choice: Choice)
    ensures
        match choice {
            Choice::Path(p) => final(candidate)@ == old(candidate)@.insert(cursor@, p@),
            Choice::Empty => final(candidate)@ == old(candidate)@.remove(cursor@),
            Choice::Cancel => final(candidate)@ == old(candidate)@,
        },
{
    match choice {
        Choice::Path(p) => {
            candidate.insert(cursor, p);
        },
        Choice::Empty => {
            candidate.remove(&cursor);
        },
        Choice::Cancel => {},
    }
}

} // verus!
