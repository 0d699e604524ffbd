use vstd::prelude::*;
use crate::cursor::{code_view, spec_resource_id, Cursor, VARIANT_COUNT};
use crate::resource::ResourceId;
use crate::text::string_of;
use crate::tokens::{
    icu_tokenize, insert_distinct, pascal_case_tokenize, spec_icu_tokenize,
    spec_pascal_case_tokenize, spec_tokenize, tokenize, trim_end_by,
};
use crate::cursor_map::CursorMap;
use crate::eval::{
    lemma_merge_best_identity, lemma_merge_best_keeps_best, lemma_score_gt_trans,
    lemma_match_score_bounds, lemma_score_le_trans, match_view, merged_view, normalized_view, score_gt, spec_merge_best,
    Evaluation, Evaluator, Scoreboard,
};
use crate::tokens::{
    ascii_case_facts, cut_at, lemma_ascii_tokenize_words, lower_words, pascal_boundaries, plain_word,
    spec_ascii_tokenize, spec_split_pascal_case, views,
};
use crate::text::join_with;
use crate::unicode::{ascii_lower, is_ascii_text, spec_is_ascii_digit};
use crate::cursor::{spec_english_name, spec_registry_name};

verus! {

/// Number of words that two word sets share.
pub open spec fn common(e: Set<Seq<char>>, w: Set<Seq<char>>) -> nat {
    e.intersect(w).len()
}

/// Whether `s` holds a string with the characters `x`.
pub fn contains_string(s: &Vec<String>, x: &String) -> (r: bool)
    ensures
        r == views(s@).contains(x@),
{
    let mut i: usize = 0;
    while i < s.len()
        invariant
            i <= s.len(),
            forall|j: int| 0 <= j < i ==> (#[trigger] s@[j])@ != x@,
        decreases s.len() - i,
    {
        if s[i] == *x {
            assert(views(s@)[i as int] == x@);
            return true;
        }
        i = i + 1;
    }
    proof {
        if views(s@).contains(x@) {
            let j = choose|j: int| 0 <= j < views(s@).len() && views(s@)[j] == x@;
            assert(s@[j]@ == x@);
        }
    }
    false
}

/// Number of words of `expected` that `words` also holds (both without
/// repeats): the size of the intersection of the two sets.
pub fn count_common(expected: &Vec<String>, words: &Vec<String>) -> (r: usize)
    requires
        views(expected@).no_duplicates(),
    ensures
        r == common(views(expected@).to_set(), views(words@).to_set()),
{
    broadcast use vstd::seq_lib::seq_to_set_is_finite;
    let ghost e = views(expected@);
    let ghost w = views(words@).to_set();
    let mut count: usize = 0;
    let mut i: usize = 0;
    proof {
        assert(e.take(0).to_set() =~= Set::<Seq<char>>::empty());
        assert(e.take(0).to_set().intersect(w) =~= Set::<Seq<char>>::empty());
    }
    while i < expected.len()
        invariant
            i <= expected.len(),
            e == views(expected@),
            e.no_duplicates(),
            w == views(words@).to_set(),
            count as nat == common(e.take(i as int).to_set(), w),
            count <= i,
        decreases expected.len() - i,
    {
        let x = &expected[i];
        let ghost xv = x@;
        let ghost before = e.take(i as int).to_set();
        proof {
            assert(e.take(i as int + 1) =~= e.take(i as int).push(xv));
            assert(e.take(i as int).push(xv).to_set() =~= before.insert(xv)) by {
                assert(e.take(i as int).push(xv) =~= e.take(i as int) + seq![xv]);
                Seq::lemma_to_set_insert_commutes(e.take(i as int), xv);
            }
            assert(!before.contains(xv)) by {
                if before.contains(xv) {
                    let j = choose|j: int| 0 <= j < i && e.take(i as int)[j] == xv;
                    assert(e[j] == e[i as int]);
                }
            }
            assert(before.finite());
            assert(before.intersect(w).finite());
        }
        if contains_string(words, x) {
            proof {
                assert(before.insert(xv).intersect(w) =~= before.intersect(w).insert(xv));
            }
            count = count + 1;
        } else {
            proof {
                assert(before.insert(xv).intersect(w) =~= before.intersect(w));
            }
        }
        i = i + 1;
    }
    proof {
        assert(e.take(i as int) =~= e);
    }
    count
}

/// Whether an expected word set counts against a name's words: it shares a
/// word with them.
pub open spec fn scorable(e: Set<Seq<char>>, w: Set<Seq<char>>) -> bool {
    common(e, w) > 0
}

/// The evaluation of an expected word set against a name's words: recall
/// (shared / expected) plus precision (shared / words), out of 2.
pub open spec fn set_evaluation(e: Set<Seq<char>>, w: Set<Seq<char>>) -> (int, int, int) {
    match_view(common(e, w) as int, e.len() as int, w.len() as int)
}

/// The best evaluation among a cursor's expected word sets: the first one
/// with the greatest normalized score among those that count.
pub open spec fn best_of(sets: Seq<Set<Seq<char>>>, w: Set<Seq<char>>) -> Option<(int, int, int)>
    decreases sets.len(),
{
    if sets.len() == 0 {
        None
    } else {
        let b = best_of(sets.drop_last(), w);
        let e = sets.last();
        if scorable(e, w) && (b is None || score_gt(
            normalized_view(set_evaluation(e, w)),
            normalized_view(b->0),
        )) {
            Some(set_evaluation(e, w))
        } else {
            b
        }
    }
}

/// The scoreboard of a name's words against a dictionary: each cursor with a
/// set that shares a word with them gets its best evaluation.
pub open spec fn spec_evaluate_words(
    dict: Map<(nat, Seq<char>), Seq<Set<Seq<char>>>>,
    w: Set<Seq<char>>,
) -> Map<(nat, Seq<char>), (int, int, int)> {
    Map::new(
        |k: (nat, Seq<char>)| dict.contains_key(k) && best_of(dict[k], w) is Some,
        |k: (nat, Seq<char>)| best_of(dict[k], w)->0,
    )
}

/// The normalized score of a set that shares a word with a name's words has
/// a positive denominator.
proof fn lemma_set_score_den(e: Set<Seq<char>>, w: Set<Seq<char>>)
    requires
        e.finite(),
        w.finite(),
        scorable(e, w),
    ensures
        normalized_view(set_evaluation(e, w)).1 > 0,
{
    vstd::set_lib::lemma_len_intersect(e, w);
    vstd::set_lib::lemma_len_intersect(w, e);
    assert(w.intersect(e) =~= e.intersect(w));
    let a = e.len() as int;
    let b = w.len() as int;
    assert(a * b * 2 > 0) by (nonlinear_arith)
        requires
            a > 0,
            b > 0,
    ;
}

/// A cursor's best evaluation exists exactly when one of its sets shares a
/// word with the name's words; it is the evaluation of one such set, and no
/// such set scores higher.
pub proof fn lemma_best_of(sets: Seq<Set<Seq<char>>>, w: Set<Seq<char>>)
    requires
        w.finite(),
        forall|i: int| 0 <= i < sets.len() ==> (#[trigger] sets[i]).finite(),
    ensures
        best_of(sets, w) is Some <==> exists|i: int| 0 <= i < sets.len() && scorable(
            #[trigger] sets[i],
            w,
        ),
        best_of(sets, w) matches Some(b) ==> {
            &&& exists|i: int|
                0 <= i < sets.len() && scorable(#[trigger] sets[i], w) && b == set_evaluation(
                    sets[i],
                    w,
                )
            &&& forall|i: int|
                0 <= i < sets.len() && scorable(#[trigger] sets[i], w) ==> !score_gt(
                    normalized_view(set_evaluation(sets[i], w)),
                    normalized_view(b),
                )
        },
    decreases sets.len(),
{
    if sets.len() > 0 {
        let rest = sets.drop_last();
        let n = sets.len() - 1;
        let e = sets[n];
        assert forall|i: int| 0 <= i < rest.len() implies (#[trigger] rest[i]).finite() by {
            assert(rest[i] == sets[i]);
        }
        lemma_best_of(rest, w);
        assert forall|i: int| 0 <= i < n implies #[trigger] rest[i] == sets[i] by {}
        match best_of(rest, w) {
            Some(b) => {
                let j = choose|j: int|
                    0 <= j < rest.len() && scorable(#[trigger] rest[j], w) && b == set_evaluation(
                        rest[j],
                        w,
                    );
                assert(sets[j] == rest[j]);
                lemma_set_score_den(rest[j], w);
                if scorable(e, w) && score_gt(
                    normalized_view(set_evaluation(e, w)),
                    normalized_view(b),
                ) {
                    lemma_set_score_den(e, w);
                    assert forall|i: int|
                        0 <= i < sets.len() && scorable(#[trigger] sets[i], w) implies !score_gt(
                        normalized_view(set_evaluation(sets[i], w)),
                        normalized_view(set_evaluation(e, w)),
                    ) by {
                        if i < n {
                            assert(rest[i] == sets[i]);
                            lemma_set_score_den(sets[i], w);
                            lemma_score_gt_trans(
                                normalized_view(set_evaluation(e, w)),
                                normalized_view(b),
                                normalized_view(set_evaluation(sets[i], w)),
                            );
                        }
                    }
                } else {
                    assert forall|i: int|
                        0 <= i < sets.len() && scorable(#[trigger] sets[i], w) implies !score_gt(
                        normalized_view(set_evaluation(sets[i], w)),
                        normalized_view(b),
                    ) by {
                        if i < n {
                            assert(rest[i] == sets[i]);
                        }
                    }
                }
            },
            None => {
                assert forall|i: int| 0 <= i < n implies !scorable(#[trigger] sets[i], w) by {
                    assert(rest[i] == sets[i]);
                }
            },
        }
    }
}

/// Scoring a name's words gives exactly the cursors that have a word set
/// sharing a word with them; each gets the recall plus precision (out of 2)
/// of one such set, and no such set of the cursor scores higher.
pub proof fn lemma_evaluate_words_best(
    dict: Map<(nat, Seq<char>), Seq<Set<Seq<char>>>>,
    w: Set<Seq<char>>,
    k: (nat, Seq<char>),
)
    requires
        w.finite(),
        dict.contains_key(k) ==> forall|i: int|
            0 <= i < dict[k].len() ==> (#[trigger] dict[k][i]).finite(),
    ensures
        spec_evaluate_words(dict, w).contains_key(k) <==> dict.contains_key(k) && exists|i: int|
            0 <= i < dict[k].len() && common(#[trigger] dict[k][i], w) > 0,
        spec_evaluate_words(dict, w).contains_key(k) ==> {
            &&& exists|i: int|
                0 <= i < dict[k].len() && common(#[trigger] dict[k][i], w) > 0
                    && spec_evaluate_words(dict, w)[k] == set_evaluation(dict[k][i], w)
            &&& forall|i: int|
                0 <= i < dict[k].len() && common(#[trigger] dict[k][i], w) > 0 ==> !score_gt(
                    normalized_view(set_evaluation(dict[k][i], w)),
                    normalized_view(spec_evaluate_words(dict, w)[k]),
                )
        },
{
    if dict.contains_key(k) {
        lemma_best_of(dict[k], w);
    }
}

/// Joining one word.
proof fn lemma_join1(a: Seq<char>)
    ensures
        join_with(seq![a], ' ') == a,
{
}

/// Joining two words.
proof fn lemma_join2(a: Seq<char>, b: Seq<char>)
    ensures
        join_with(seq![a, b], ' ') == a + seq![' '] + b,
{
    assert(seq![a, b].drop_first() =~= seq![b]);
    lemma_join1(b);
    assert(seq![a, b][0] == a);
}

/// Joining three words.
proof fn lemma_join3(a: Seq<char>, b: Seq<char>, c: Seq<char>)
    ensures
        join_with(seq![a, b, c], ' ') == a + seq![' '] + b + seq![' '] + c,
{
    assert(seq![a, b, c].drop_first() =~= seq![b, c]);
    lemma_join2(b, c);
    assert(seq![a, b, c][0] == a);
    assert(a + seq![' '] + (b + seq![' '] + c) =~= a + seq![' '] + b + seq![' '] + c);
}

/// An English cursor name made of the words `ws` joined by single spaces
/// tokenizes to the lowercased words `lower`.
proof fn lemma_name_tokens(name: Seq<char>, ws: Seq<Seq<char>>, lower: Seq<Seq<char>>)
    requires
        ws.len() >= 1,
        name == join_with(ws, ' '),
        forall|i: int| 0 <= i < ws.len() ==> plain_word(#[trigger] ws[i]),
        !spec_is_ascii_digit(ws[0][0]),
        lower_words(ws) == lower,
    ensures
        is_ascii_text(name),
        spec_ascii_tokenize(name).to_set() == words_of(lower),
{
    lemma_ascii_tokenize_words(ws);
}

/// The English name of the cursor with code 0 tokenizes to its first
/// built-in word set.
proof fn lemma_english_name_0()
    ensures
        is_ascii_text(spec_english_name(0)->0),
        spec_ascii_tokenize(spec_english_name(0)->0).to_set() == spec_builtin_sets(0)[0],
{
    reveal_strlit("Normal");
    reveal_strlit("Normal Select");
    reveal_strlit("Select");
    reveal_strlit("normal");
    reveal_strlit("select");
    let ws = seq!["Normal"@, "Select"@];
    let lower = seq!["normal"@, "select"@];
    lemma_join2("Normal"@, "Select"@);
    assert("Normal Select"@ =~= "Normal"@ + seq![' '] + "Select"@);
    assert(plain_word("Normal"@));
    assert(plain_word("Select"@));
    assert(lower_words(ws) =~= lower) by {
        assert(ascii_lower("Normal"@) =~= "normal"@);
        assert(ascii_lower("Select"@) =~= "select"@);
    }
    lemma_name_tokens("Normal Select"@, ws, lower);
}

/// The English name of the cursor with code 1 tokenizes to its first
/// built-in word set.
proof fn lemma_english_name_1()
    ensures
        is_ascii_text(spec_english_name(1)->0),
        spec_ascii_tokenize(spec_english_name(1)->0).to_set() == spec_builtin_sets(1)[0],
{
    reveal_strlit("Help");
    reveal_strlit("Help Select");
    reveal_strlit("Select");
    reveal_strlit("help");
    reveal_strlit("select");
    let ws = seq!["Help"@, "Select"@];
    let lower = seq!["help"@, "select"@];
    lemma_join2("Help"@, "Select"@);
    assert("Help Select"@ =~= "Help"@ + seq![' '] + "Select"@);
    assert(plain_word("Help"@));
    assert(plain_word("Select"@));
    assert(lower_words(ws) =~= lower) by {
        assert(ascii_lower("Help"@) =~= "help"@);
        assert(ascii_lower("Select"@) =~= "select"@);
    }
    lemma_name_tokens("Help Select"@, ws, lower);
}

/// The English name of the cursor with code 2 tokenizes to its first
/// built-in word set.
proof fn lemma_english_name_2()
    ensures
        is_ascii_text(spec_english_name(2)->0),
        spec_ascii_tokenize(spec_english_name(2)->0).to_set() == spec_builtin_sets(2)[0],
{
    reveal_strlit("Background");
    reveal_strlit("In");
    reveal_strlit("Working");
    reveal_strlit("Working In Background");
    reveal_strlit("background");
    reveal_strlit("in");
    reveal_strlit("working");
    let ws = seq!["Working"@, "In"@, "Background"@];
    let lower = seq!["working"@, "in"@, "background"@];
    lemma_join3("Working"@, "In"@, "Background"@);
    assert("Working In Background"@ =~= "Working"@ + seq![' '] + "In"@ + seq![' '] + "Background"@);
    assert(plain_word("Working"@));
    assert(plain_word("In"@));
    assert(plain_word("Background"@));
    assert(lower_words(ws) =~= lower) by {
        assert(ascii_lower("Working"@) =~= "working"@);
        assert(ascii_lower("In"@) =~= "in"@);
        assert(ascii_lower("Background"@) =~= "background"@);
    }
    lemma_name_tokens("Working In Background"@, ws, lower);
}

/// The English name of the cursor with code 3 tokenizes to its first
/// built-in word set.
proof fn lemma_english_name_3()
    ensures
        is_ascii_text(spec_english_name(3)->0),
        spec_ascii_tokenize(spec_english_name(3)->0).to_set() == spec_builtin_sets(3)[0],
{
    reveal_strlit("Busy");
    reveal_strlit("busy");
    let ws = seq!["Busy"@];
    let lower = seq!["busy"@];
    lemma_join1("Busy"@);
    assert("Busy"@ =~= "Busy"@);
    assert(plain_word("Busy"@));
    assert(lower_words(ws) =~= lower) by {
        assert(ascii_lower("Busy"@) =~= "busy"@);
    }
    lemma_name_tokens("Busy"@, ws, lower);
}

/// The English name of the cursor with code 4 tokenizes to its first
/// built-in word set.
proof fn lemma_english_name_4()
    ensures
        is_ascii_text(spec_english_name(4)->0),
        spec_ascii_tokenize(spec_english_name(4)->0).to_set() == spec_builtin_sets(4)[0],
{
    reveal_strlit("Precision");
    reveal_strlit("Precision Select");
    reveal_strlit("Select");
    reveal_strlit("precision");
    reveal_strlit("select");
    let ws = seq!["Precision"@, "Select"@];
    let lower = seq!["precision"@, "select"@];
    lemma_join2("Precision"@, "Select"@);
    assert("Precision Select"@ =~= "Precision"@ + seq![' '] + "Select"@);
    assert(plain_word("Precision"@));
    assert(plain_word("Select"@));
    assert(lower_words(ws) =~= lower) by {
        assert(ascii_lower("Precision"@) =~= "precision"@);
        assert(ascii_lower("Select"@) =~= "select"@);
    }
    lemma_name_tokens("Precision Select"@, ws, lower);
}

/// The English name of the cursor with code 5 tokenizes to its first
/// built-in word set.
proof fn lemma_english_name_5()
    ensures
        is_ascii_text(spec_english_name(5)->0),
        spec_ascii_tokenize(spec_english_name(5)->0).to_set() == spec_builtin_sets(5)[0],
{
    reveal_strlit("Select");
    reveal_strlit("Text");
    reveal_strlit("Text Select");
    reveal_strlit("select");
    reveal_strlit("text");
    let ws = seq!["Text"@, "Select"@];
    let lower = seq!["text"@, "select"@];
    lemma_join2("Text"@, "Select"@);
    assert("Text Select"@ =~= "Text"@ + seq![' '] + "Select"@);
    assert(plain_word("Text"@));
    assert(plain_word("Select"@));
    assert(lower_words(ws) =~= lower) by {
        assert(ascii_lower("Text"@) =~= "text"@);
        assert(ascii_lower("Select"@) =~= "select"@);
    }
    lemma_name_tokens("Text Select"@, ws, lower);
}

/// The English name of the cursor with code 6 tokenizes to its first
/// built-in word set.
proof fn lemma_english_name_6()
    ensures
        is_ascii_text(spec_english_name(6)->0),
        spec_ascii_tokenize(spec_english_name(6)->0).to_set() == spec_builtin_sets(6)[0],
{
    reveal_strlit("Handwriting");
    reveal_strlit("handwriting");
    let ws = seq!["Handwriting"@];
    let lower = seq!["handwriting"@];
    lemma_join1("Handwriting"@);
    assert("Handwriting"@ =~= "Handwriting"@);
    assert(plain_word("Handwriting"@));
    assert(lower_words(ws) =~= lower) by {
        assert(ascii_lower("Handwriting"@) =~= "handwriting"@);
    }
    lemma_name_tokens("Handwriting"@, ws, lower);
}

/// The English name of the cursor with code 7 tokenizes to its first
/// built-in word set.
proof fn lemma_english_name_7()
    ensures
        is_ascii_text(spec_english_name(7)->0),
        spec_ascii_tokenize(spec_english_name(7)->0).to_set() == spec_builtin_sets(7)[0],
{
    reveal_strlit("Unavailable");
    reveal_strlit("unavailable");
    let ws = seq!["Unavailable"@];
    let lower = seq!["unavailable"@];
    lemma_join1("Unavailable"@);
    assert("Unavailable"@ =~= "Unavailable"@);
    assert(plain_word("Unavailable"@));
    assert(lower_words(ws) =~= lower) by {
        assert(ascii_lower("Unavailable"@) =~= "unavailable"@);
    }
    lemma_name_tokens("Unavailable"@, ws, lower);
}

/// The English name of the cursor with code 8 tokenizes to its first
/// built-in word set.
proof fn lemma_english_name_8()
    ensures
        is_ascii_text(spec_english_name(8)->0),
        spec_ascii_tokenize(spec_english_name(8)->0).to_set() == spec_builtin_sets(8)[0],
{
    reveal_strlit("Resize");
    reveal_strlit("Vertical");
    reveal_strlit("Vertical Resize");
    reveal_strlit("resize");
    reveal_strlit("vertical");
    let ws = seq!["Vertical"@, "Resize"@];
    let lower = seq!["vertical"@, "resize"@];
    lemma_join2("Vertical"@, "Resize"@);
    assert("Vertical Resize"@ =~= "Vertical"@ + seq![' '] + "Resize"@);
    assert(plain_word("Vertical"@));
    assert(plain_word("Resize"@));
    assert(lower_words(ws) =~= lower) by {
        assert(ascii_lower("Vertical"@) =~= "vertical"@);
        assert(ascii_lower("Resize"@) =~= "resize"@);
    }
    lemma_name_tokens("Vertical Resize"@, ws, lower);
}

/// The English name of the cursor with code 9 tokenizes to its first
/// built-in word set.
proof fn lemma_english_name_9()
    ensures
        is_ascii_text(spec_english_name(9)->0),
        spec_ascii_tokenize(spec_english_name(9)->0).to_set() == spec_builtin_sets(9)[0],
{
    reveal_strlit("Horizontal");
    reveal_strlit("Horizontal Resize");
    reveal_strlit("Resize");
    reveal_strlit("horizontal");
    reveal_strlit("resize");
    let ws = seq!["Horizontal"@, "Resize"@];
    let lower = seq!["horizontal"@, "resize"@];
    lemma_join2("Horizontal"@, "Resize"@);
    assert("Horizontal Resize"@ =~= "Horizontal"@ + seq![' '] + "Resize"@);
    assert(plain_word("Horizontal"@));
    assert(plain_word("Resize"@));
    assert(lower_words(ws) =~= lower) by {
        assert(ascii_lower("Horizontal"@) =~= "horizontal"@);
        assert(ascii_lower("Resize"@) =~= "resize"@);
    }
    lemma_name_tokens("Horizontal Resize"@, ws, lower);
}

/// The English name of the cursor with code 10 tokenizes to its first
/// built-in word set.
proof fn lemma_english_name_10()
    ensures
        is_ascii_text(spec_english_name(10)->0),
        spec_ascii_tokenize(spec_english_name(10)->0).to_set() == spec_builtin_sets(10)[0],
{
    reveal_strlit("1");
    reveal_strlit("Diagonal");
    reveal_strlit("Diagonal Resize 1");
    reveal_strlit("Resize");
    reveal_strlit("diagonal");
    reveal_strlit("resize");
    let ws = seq!["Diagonal"@, "Resize"@, "1"@];
    let lower = seq!["diagonal"@, "resize"@, "1"@];
    lemma_join3("Diagonal"@, "Resize"@, "1"@);
    assert("Diagonal Resize 1"@ =~= "Diagonal"@ + seq![' '] + "Resize"@ + seq![' '] + "1"@);
    assert(plain_word("Diagonal"@));
    assert(plain_word("Resize"@));
    assert(plain_word("1"@));
    assert(lower_words(ws) =~= lower) by {
        assert(ascii_lower("Diagonal"@) =~= "diagonal"@);
        assert(ascii_lower("Resize"@) =~= "resize"@);
        assert(ascii_lower("1"@) =~= "1"@);
    }
    lemma_name_tokens("Diagonal Resize 1"@, ws, lower);
}

/// The English name of the cursor with code 11 tokenizes to its first
/// built-in word set.
proof fn lemma_english_name_11()
    ensures
        is_ascii_text(spec_english_name(11)->0),
        spec_ascii_tokenize(spec_english_name(11)->0).to_set() == spec_builtin_sets(11)[0],
{
    reveal_strlit("2");
    reveal_strlit("Diagonal");
    reveal_strlit("Diagonal Resize 2");
    reveal_strlit("Resize");
    reveal_strlit("diagonal");
    reveal_strlit("resize");
    let ws = seq!["Diagonal"@, "Resize"@, "2"@];
    let lower = seq!["diagonal"@, "resize"@, "2"@];
    lemma_join3("Diagonal"@, "Resize"@, "2"@);
    assert("Diagonal Resize 2"@ =~= "Diagonal"@ + seq![' '] + "Resize"@ + seq![' '] + "2"@);
    assert(plain_word("Diagonal"@));
    assert(plain_word("Resize"@));
    assert(plain_word("2"@));
    assert(lower_words(ws) =~= lower) by {
        assert(ascii_lower("Diagonal"@) =~= "diagonal"@);
        assert(ascii_lower("Resize"@) =~= "resize"@);
        assert(ascii_lower("2"@) =~= "2"@);
    }
    lemma_name_tokens("Diagonal Resize 2"@, ws, lower);
}

/// The English name of the cursor with code 12 tokenizes to its first
/// built-in word set.
proof fn lemma_english_name_12()
    ensures
        is_ascii_text(spec_english_name(12)->0),
        spec_ascii_tokenize(spec_english_name(12)->0).to_set() == spec_builtin_sets(12)[0],
{
    reveal_strlit("Move");
    reveal_strlit("move");
    let ws = seq!["Move"@];
    let lower = seq!["move"@];
    lemma_join1("Move"@);
    assert("Move"@ =~= "Move"@);
    assert(plain_word("Move"@));
    assert(lower_words(ws) =~= lower) by {
        assert(ascii_lower("Move"@) =~= "move"@);
    }
    lemma_name_tokens("Move"@, ws, lower);
}

/// The English name of the cursor with code 13 tokenizes to its first
/// built-in word set.
proof fn lemma_english_name_13()
    ensures
        is_ascii_text(spec_english_name(13)->0),
        spec_ascii_tokenize(spec_english_name(13)->0).to_set() == spec_builtin_sets(13)[0],
{
    reveal_strlit("Alternate");
    reveal_strlit("Alternate Select");
    reveal_strlit("Select");
    reveal_strlit("alternate");
    reveal_strlit("select");
    let ws = seq!["Alternate"@, "Select"@];
    let lower = seq!["alternate"@, "select"@];
    lemma_join2("Alternate"@, "Select"@);
    assert("Alternate Select"@ =~= "Alternate"@ + seq![' '] + "Select"@);
    assert(plain_word("Alternate"@));
    assert(plain_word("Select"@));
    assert(lower_words(ws) =~= lower) by {
        assert(ascii_lower("Alternate"@) =~= "alternate"@);
        assert(ascii_lower("Select"@) =~= "select"@);
    }
    lemma_name_tokens("Alternate Select"@, ws, lower);
}

/// The English name of the cursor with code 14 tokenizes to its first
/// built-in word set.
proof fn lemma_english_name_14()
    ensures
        is_ascii_text(spec_english_name(14)->0),
        spec_ascii_tokenize(spec_english_name(14)->0).to_set() == spec_builtin_sets(14)[0],
{
    reveal_strlit("Link");
    reveal_strlit("Link Select");
    reveal_strlit("Select");
    reveal_strlit("link");
    reveal_strlit("select");
    let ws = seq!["Link"@, "Select"@];
    let lower = seq!["link"@, "select"@];
    lemma_join2("Link"@, "Select"@);
    assert("Link Select"@ =~= "Link"@ + seq![' '] + "Select"@);
    assert(plain_word("Link"@));
    assert(plain_word("Select"@));
    assert(lower_words(ws) =~= lower) by {
        assert(ascii_lower("Link"@) =~= "link"@);
        assert(ascii_lower("Select"@) =~= "select"@);
    }
    lemma_name_tokens("Link Select"@, ws, lower);
}

/// The English name of the cursor with code 15 tokenizes to its first
/// built-in word set.
proof fn lemma_english_name_15()
    ensures
        is_ascii_text(spec_english_name(15)->0),
        spec_ascii_tokenize(spec_english_name(15)->0).to_set() == spec_builtin_sets(15)[0],
{
    reveal_strlit("Location");
    reveal_strlit("Location Select");
    reveal_strlit("Select");
    reveal_strlit("location");
    reveal_strlit("select");
    let ws = seq!["Location"@, "Select"@];
    let lower = seq!["location"@, "select"@];
    lemma_join2("Location"@, "Select"@);
    assert("Location Select"@ =~= "Location"@ + seq![' '] + "Select"@);
    assert(plain_word("Location"@));
    assert(plain_word("Select"@));
    assert(lower_words(ws) =~= lower) by {
        assert(ascii_lower("Location"@) =~= "location"@);
        assert(ascii_lower("Select"@) =~= "select"@);
    }
    lemma_name_tokens("Location Select"@, ws, lower);
}

/// The English name of the cursor with code 16 tokenizes to its first
/// built-in word set.
proof fn lemma_english_name_16()
    ensures
        is_ascii_text(spec_english_name(16)->0),
        spec_ascii_tokenize(spec_english_name(16)->0).to_set() == spec_builtin_sets(16)[0],
{
    reveal_strlit("Person");
    reveal_strlit("Person Select");
    reveal_strlit("Select");
    reveal_strlit("person");
    reveal_strlit("select");
    let ws = seq!["Person"@, "Select"@];
    let lower = seq!["person"@, "select"@];
    lemma_join2("Person"@, "Select"@);
    assert("Person Select"@ =~= "Person"@ + seq![' '] + "Select"@);
    assert(plain_word("Person"@));
    assert(plain_word("Select"@));
    assert(lower_words(ws) =~= lower) by {
        assert(ascii_lower("Person"@) =~= "person"@);
        assert(ascii_lower("Select"@) =~= "select"@);
    }
    lemma_name_tokens("Person Select"@, ws, lower);
}

/// The first built-in word set of each standard cursor is the set of words
/// that its English name tokenizes to (the English names are ASCII, so
/// `tokenize` gives exactly `spec_ascii_tokenize` of them).
pub proof fn lemma_english_names_tokenize(code: nat)
    requires
        code < 17,
    ensures
        is_ascii_text(spec_english_name(code)->0),
        spec_ascii_tokenize(spec_english_name(code)->0).to_set() == spec_builtin_sets(code)[0],
{
    if code == 0 {
        lemma_english_name_0();
    } else if code == 1 {
        lemma_english_name_1();
    } else if code == 2 {
        lemma_english_name_2();
    } else if code == 3 {
        lemma_english_name_3();
    } else if code == 4 {
        lemma_english_name_4();
    } else if code == 5 {
        lemma_english_name_5();
    } else if code == 6 {
        lemma_english_name_6();
    } else if code == 7 {
        lemma_english_name_7();
    } else if code == 8 {
        lemma_english_name_8();
    } else if code == 9 {
        lemma_english_name_9();
    } else if code == 10 {
        lemma_english_name_10();
    } else if code == 11 {
        lemma_english_name_11();
    } else if code == 12 {
        lemma_english_name_12();
    } else if code == 13 {
        lemma_english_name_13();
    } else if code == 14 {
        lemma_english_name_14();
    } else if code == 15 {
        lemma_english_name_15();
    } else {
        lemma_english_name_16();
    }
}

/// The registry name of the cursor with code 0 splits into PascalCase
/// words whose lowercase forms make its second built-in word set.
proof fn lemma_registry_name_0()
    requires
        ascii_case_facts(),
    ensures
        lower_words(spec_split_pascal_case(spec_registry_name(0)->0)).to_set()
            == spec_builtin_sets(0)[1],
{
    reveal_strlit("Arrow");
    reveal_strlit("arrow");
    let s = "Arrow"@;
    assert(pascal_boundaries(s, 1) =~= Seq::<int>::empty());
    assert(pascal_boundaries(s, 2) =~= Seq::<int>::empty());
    assert(pascal_boundaries(s, 3) =~= Seq::<int>::empty());
    assert(pascal_boundaries(s, 4) =~= Seq::<int>::empty());
    assert(pascal_boundaries(s, 5) =~= Seq::<int>::empty());
    let bs = Seq::<int>::empty();
    assert(spec_split_pascal_case(s) == cut_at(s, bs));
    assert(cut_at(s, bs).len() == 1);
    assert(cut_at(s, bs)[0] =~= "Arrow"@);
    assert(cut_at(s, bs) =~= seq!["Arrow"@]);
    assert(lower_words(seq!["Arrow"@]) =~= seq!["arrow"@]) by {
        assert(ascii_lower("Arrow"@) =~= "arrow"@);
    }
}

/// The registry name of the cursor with code 1 splits into PascalCase
/// words whose lowercase forms make its second built-in word set.
proof fn lemma_registry_name_1()
    requires
        ascii_case_facts(),
    ensures
        lower_words(spec_split_pascal_case(spec_registry_name(1)->0)).to_set()
            == spec_builtin_sets(1)[1],
{
    reveal_strlit("Help");
    reveal_strlit("help");
    let s = "Help"@;
    assert(pascal_boundaries(s, 1) =~= Seq::<int>::empty());
    assert(pascal_boundaries(s, 2) =~= Seq::<int>::empty());
    assert(pascal_boundaries(s, 3) =~= Seq::<int>::empty());
    assert(pascal_boundaries(s, 4) =~= Seq::<int>::empty());
    let bs = Seq::<int>::empty();
    assert(spec_split_pascal_case(s) == cut_at(s, bs));
    assert(cut_at(s, bs).len() == 1);
    assert(cut_at(s, bs)[0] =~= "Help"@);
    assert(cut_at(s, bs) =~= seq!["Help"@]);
    assert(lower_words(seq!["Help"@]) =~= seq!["help"@]) by {
        assert(ascii_lower("Help"@) =~= "help"@);
    }
}

/// The registry name of the cursor with code 2 splits into PascalCase
/// words whose lowercase forms make its second built-in word set.
proof fn lemma_registry_name_2()
    requires
        ascii_case_facts(),
    ensures
        lower_words(spec_split_pascal_case(spec_registry_name(2)->0)).to_set()
            == spec_builtin_sets(2)[1],
{
    reveal_strlit("App");
    reveal_strlit("AppStarting");
    reveal_strlit("Starting");
    reveal_strlit("app");
    reveal_strlit("starting");
    let s = "AppStarting"@;
    assert(pascal_boundaries(s, 1) =~= Seq::<int>::empty());
    assert(pascal_boundaries(s, 2) =~= Seq::<int>::empty());
    assert(pascal_boundaries(s, 3) =~= Seq::<int>::empty());
    assert(pascal_boundaries(s, 4) =~= seq![3int]);
    assert(pascal_boundaries(s, 5) =~= seq![3int]);
    assert(pascal_boundaries(s, 6) =~= seq![3int]);
    assert(pascal_boundaries(s, 7) =~= seq![3int]);
    assert(pascal_boundaries(s, 8) =~= seq![3int]);
    assert(pascal_boundaries(s, 9) =~= seq![3int]);
    assert(pascal_boundaries(s, 10) =~= seq![3int]);
    assert(pascal_boundaries(s, 11) =~= seq![3int]);
    let bs = seq![3int];
    assert(spec_split_pascal_case(s) == cut_at(s, bs));
    assert(cut_at(s, bs).len() == 2);
    assert(cut_at(s, bs)[0] =~= "App"@);
    assert(cut_at(s, bs)[1] =~= "Starting"@);
    assert(cut_at(s, bs) =~= seq!["App"@, "Starting"@]);
    assert(lower_words(seq!["App"@, "Starting"@]) =~= seq!["app"@, "starting"@]) by {
        assert(ascii_lower("App"@) =~= "app"@);
        assert(ascii_lower("Starting"@) =~= "starting"@);
    }
}

/// The registry name of the cursor with code 3 splits into PascalCase
/// words whose lowercase forms make its second built-in word set.
proof fn lemma_registry_name_3()
    requires
        ascii_case_facts(),
    ensures
        lower_words(spec_split_pascal_case(spec_registry_name(3)->0)).to_set()
            == spec_builtin_sets(3)[1],
{
    reveal_strlit("Wait");
    reveal_strlit("wait");
    let s = "Wait"@;
    assert(pascal_boundaries(s, 1) =~= Seq::<int>::empty());
    assert(pascal_boundaries(s, 2) =~= Seq::<int>::empty());
    assert(pascal_boundaries(s, 3) =~= Seq::<int>::empty());
    assert(pascal_boundaries(s, 4) =~= Seq::<int>::empty());
    let bs = Seq::<int>::empty();
    assert(spec_split_pascal_case(s) == cut_at(s, bs));
    assert(cut_at(s, bs).len() == 1);
    assert(cut_at(s, bs)[0] =~= "Wait"@);
    assert(cut_at(s, bs) =~= seq!["Wait"@]);
    assert(lower_words(seq!["Wait"@]) =~= seq!["wait"@]) by {
        assert(ascii_lower("Wait"@) =~= "wait"@);
    }
}

/// The registry name of the cursor with code 4 splits into PascalCase
/// words whose lowercase forms make its second built-in word set.
proof fn lemma_registry_name_4()
    requires
        ascii_case_facts(),
    ensures
        lower_words(spec_split_pascal_case(spec_registry_name(4)->0)).to_set()
            == spec_builtin_sets(4)[1],
{
    reveal_strlit("Crosshair");
    reveal_strlit("crosshair");
    let s = "Crosshair"@;
    assert(pascal_boundaries(s, 1) =~= Seq::<int>::empty());
    assert(pascal_boundaries(s, 2) =~= Seq::<int>::empty());
    assert(pascal_boundaries(s, 3) =~= Seq::<int>::empty());
    assert(pascal_boundaries(s, 4) =~= Seq::<int>::empty());
    assert(pascal_boundaries(s, 5) =~= Seq::<int>::empty());
    assert(pascal_boundaries(s, 6) =~= Seq::<int>::empty());
    assert(pascal_boundaries(s, 7) =~= Seq::<int>::empty());
    assert(pascal_boundaries(s, 8) =~= Seq::<int>::empty());
    assert(pascal_boundaries(s, 9) =~= Seq::<int>::empty());
    let bs = Seq::<int>::empty();
    assert(spec_split_pascal_case(s) == cut_at(s, bs));
    assert(cut_at(s, bs).len() == 1);
    assert(cut_at(s, bs)[0] =~= "Crosshair"@);
    assert(cut_at(s, bs) =~= seq!["Crosshair"@]);
    assert(lower_words(seq!["Crosshair"@]) =~= seq!["crosshair"@]) by {
        assert(ascii_lower("Crosshair"@) =~= "crosshair"@);
    }
}

/// The registry name of the cursor with code 5 splits into PascalCase
/// words whose lowercase forms make its second built-in word set.
proof fn lemma_registry_name_5()
    requires
        ascii_case_facts(),
    ensures
        lower_words(spec_split_pascal_case(spec_registry_name(5)->0)).to_set()
            == spec_builtin_sets(5)[1],
{
    reveal_strlit("Beam");
    reveal_strlit("I");
    reveal_strlit("IBeam");
    reveal_strlit("beam");
    reveal_strlit("i");
    let s = "IBeam"@;
    assert(pascal_boundaries(s, 1) =~= Seq::<int>::empty());
    assert(pascal_boundaries(s, 2) =~= seq![1int]);
    assert(pascal_boundaries(s, 3) =~= seq![1int]);
    assert(pascal_boundaries(s, 4) =~= seq![1int]);
    assert(pascal_boundaries(s, 5) =~= seq![1int]);
    let bs = seq![1int];
    assert(spec_split_pascal_case(s) == cut_at(s, bs));
    assert(cut_at(s, bs).len() == 2);
    assert(cut_at(s, bs)[0] =~= "I"@);
    assert(cut_at(s, bs)[1] =~= "Beam"@);
    assert(cut_at(s, bs) =~= seq!["I"@, "Beam"@]);
    assert(lower_words(seq!["I"@, "Beam"@]) =~= seq!["i"@, "beam"@]) by {
        assert(ascii_lower("I"@) =~= "i"@);
        assert(ascii_lower("Beam"@) =~= "beam"@);
    }
}

/// The registry name of the cursor with code 6 splits into PascalCase
/// words whose lowercase forms make its second built-in word set.
proof fn lemma_registry_name_6()
    requires
        ascii_case_facts(),
    ensures
        lower_words(spec_split_pascal_case(spec_registry_name(6)->0)).to_set()
            == spec_builtin_sets(6)[1],
{
    reveal_strlit("NW");
    reveal_strlit("NWPen");
    reveal_strlit("Pen");
    reveal_strlit("nw");
    reveal_strlit("pen");
    let s = "NWPen"@;
    assert(pascal_boundaries(s, 1) =~= Seq::<int>::empty());
    assert(pascal_boundaries(s, 2) =~= Seq::<int>::empty());
    assert(pascal_boundaries(s, 3) =~= seq![2int]);
    assert(pascal_boundaries(s, 4) =~= seq![2int]);
    assert(pascal_boundaries(s, 5) =~= seq![2int]);
    let bs = seq![2int];
    assert(spec_split_pascal_case(s) == cut_at(s, bs));
    assert(cut_at(s, bs).len() == 2);
    assert(cut_at(s, bs)[0] =~= "NW"@);
    assert(cut_at(s, bs)[1] =~= "Pen"@);
    assert(cut_at(s, bs) =~= seq!["NW"@, "Pen"@]);
    assert(lower_words(seq!["NW"@, "Pen"@]) =~= seq!["nw"@, "pen"@]) by {
        assert(ascii_lower("NW"@) =~= "nw"@);
        assert(ascii_lower("Pen"@) =~= "pen"@);
    }
}

/// The registry name of the cursor with code 7 splits into PascalCase
/// words whose lowercase forms make its second built-in word set.
proof fn lemma_registry_name_7()
    requires
        ascii_case_facts(),
    ensures
        lower_words(spec_split_pascal_case(spec_registry_name(7)->0)).to_set()
            == spec_builtin_sets(7)[1],
{
    reveal_strlit("No");
    reveal_strlit("no");
    let s = "No"@;
    assert(pascal_boundaries(s, 1) =~= Seq::<int>::empty());
    assert(pascal_boundaries(s, 2) =~= Seq::<int>::empty());
    let bs = Seq::<int>::empty();
    assert(spec_split_pascal_case(s) == cut_at(s, bs));
    assert(cut_at(s, bs).len() == 1);
    assert(cut_at(s, bs)[0] =~= "No"@);
    assert(cut_at(s, bs) =~= seq!["No"@]);
    assert(lower_words(seq!["No"@]) =~= seq!["no"@]) by {
        assert(ascii_lower("No"@) =~= "no"@);
    }
}

/// The registry name of the cursor with code 8 splits into PascalCase
/// words whose lowercase forms make its second built-in word set.
proof fn lemma_registry_name_8()
    requires
        ascii_case_facts(),
    ensures
        lower_words(spec_split_pascal_case(spec_registry_name(8)->0)).to_set()
            == spec_builtin_sets(8)[1],
{
    reveal_strlit("NS");
    reveal_strlit("Size");
    reveal_strlit("SizeNS");
    reveal_strlit("ns");
    reveal_strlit("size");
    let s = "SizeNS"@;
    assert(pascal_boundaries(s, 1) =~= Seq::<int>::empty());
    assert(pascal_boundaries(s, 2) =~= Seq::<int>::empty());
    assert(pascal_boundaries(s, 3) =~= Seq::<int>::empty());
    assert(pascal_boundaries(s, 4) =~= Seq::<int>::empty());
    assert(pascal_boundaries(s, 5) =~= seq![4int]);
    assert(pascal_boundaries(s, 6) =~= seq![4int]);
    let bs = seq![4int];
    assert(spec_split_pascal_case(s) == cut_at(s, bs));
    assert(cut_at(s, bs).len() == 2);
    assert(cut_at(s, bs)[0] =~= "Size"@);
    assert(cut_at(s, bs)[1] =~= "NS"@);
    assert(cut_at(s, bs) =~= seq!["Size"@, "NS"@]);
    assert(lower_words(seq!["Size"@, "NS"@]) =~= seq!["size"@, "ns"@]) by {
        assert(ascii_lower("Size"@) =~= "size"@);
        assert(ascii_lower("NS"@) =~= "ns"@);
    }
}

/// The registry name of the cursor with code 9 splits into PascalCase
/// words whose lowercase forms make its second built-in word set.
proof fn lemma_registry_name_9()
    requires
        ascii_case_facts(),
    ensures
        lower_words(spec_split_pascal_case(spec_registry_name(9)->0)).to_set()
            == spec_builtin_sets(9)[1],
{
    reveal_strlit("Size");
    reveal_strlit("SizeWE");
    reveal_strlit("WE");
    reveal_strlit("size");
    reveal_strlit("we");
    let s = "SizeWE"@;
    assert(pascal_boundaries(s, 1) =~= Seq::<int>::empty());
    assert(pascal_boundaries(s, 2) =~= Seq::<int>::empty());
    assert(pascal_boundaries(s, 3) =~= Seq::<int>::empty());
    assert(pascal_boundaries(s, 4) =~= Seq::<int>::empty());
    assert(pascal_boundaries(s, 5) =~= seq![4int]);
    assert(pascal_boundaries(s, 6) =~= seq![4int]);
    let bs = seq![4int];
    assert(spec_split_pascal_case(s) == cut_at(s, bs));
    assert(cut_at(s, bs).len() == 2);
    assert(cut_at(s, bs)[0] =~= "Size"@);
    assert(cut_at(s, bs)[1] =~= "WE"@);
    assert(cut_at(s, bs) =~= seq!["Size"@, "WE"@]);
    assert(lower_words(seq!["Size"@, "WE"@]) =~= seq!["size"@, "we"@]) by {
        assert(ascii_lower("Size"@) =~= "size"@);
        assert(ascii_lower("WE"@) =~= "we"@);
    }
}

/// The registry name of the cursor with code 10 splits into PascalCase
/// words whose lowercase forms make its second built-in word set.
proof fn lemma_registry_name_10()
    requires
        ascii_case_facts(),
    ensures
        lower_words(spec_split_pascal_case(spec_registry_name(10)->0)).to_set()
            == spec_builtin_sets(10)[1],
{
    reveal_strlit("NWSE");
    reveal_strlit("Size");
    reveal_strlit("SizeNWSE");
    reveal_strlit("nwse");
    reveal_strlit("size");
    let s = "SizeNWSE"@;
    assert(pascal_boundaries(s, 1) =~= Seq::<int>::empty());
    assert(pascal_boundaries(s, 2) =~= Seq::<int>::empty());
    assert(pascal_boundaries(s, 3) =~= Seq::<int>::empty());
    assert(pascal_boundaries(s, 4) =~= Seq::<int>::empty());
    assert(pascal_boundaries(s, 5) =~= seq![4int]);
    assert(pascal_boundaries(s, 6) =~= seq![4int]);
    assert(pascal_boundaries(s, 7) =~= seq![4int]);
    assert(pascal_boundaries(s, 8) =~= seq![4int]);
    let bs = seq![4int];
    assert(spec_split_pascal_case(s) == cut_at(s, bs));
    assert(cut_at(s, bs).len() == 2);
    assert(cut_at(s, bs)[0] =~= "Size"@);
    assert(cut_at(s, bs)[1] =~= "NWSE"@);
    assert(cut_at(s, bs) =~= seq!["Size"@, "NWSE"@]);
    assert(lower_words(seq!["Size"@, "NWSE"@]) =~= seq!["size"@, "nwse"@]) by {
        assert(ascii_lower("Size"@) =~= "size"@);
        assert(ascii_lower("NWSE"@) =~= "nwse"@);
    }
}

/// The registry name of the cursor with code 11 splits into PascalCase
/// words whose lowercase forms make its second built-in word set.
proof fn lemma_registry_name_11()
    requires
        ascii_case_facts(),
    ensures
        lower_words(spec_split_pascal_case(spec_registry_name(11)->0)).to_set()
            == spec_builtin_sets(11)[1],
{
    reveal_strlit("NESW");
    reveal_strlit("Size");
    reveal_strlit("SizeNESW");
    reveal_strlit("nesw");
    reveal_strlit("size");
    let s = "SizeNESW"@;
    assert(pascal_boundaries(s, 1) =~= Seq::<int>::empty());
    assert(pascal_boundaries(s, 2) =~= Seq::<int>::empty());
    assert(pascal_boundaries(s, 3) =~= Seq::<int>::empty());
    assert(pascal_boundaries(s, 4) =~= Seq::<int>::empty());
    assert(pascal_boundaries(s, 5) =~= seq![4int]);
    assert(pascal_boundaries(s, 6) =~= seq![4int]);
    assert(pascal_boundaries(s, 7) =~= seq![4int]);
    assert(pascal_boundaries(s, 8) =~= seq![4int]);
    let bs = seq![4int];
    assert(spec_split_pascal_case(s) == cut_at(s, bs));
    assert(cut_at(s, bs).len() == 2);
    assert(cut_at(s, bs)[0] =~= "Size"@);
    assert(cut_at(s, bs)[1] =~= "NESW"@);
    assert(cut_at(s, bs) =~= seq!["Size"@, "NESW"@]);
    assert(lower_words(seq!["Size"@, "NESW"@]) =~= seq!["size"@, "nesw"@]) by {
        assert(ascii_lower("Size"@) =~= "size"@);
        assert(ascii_lower("NESW"@) =~= "nesw"@);
    }
}

/// The registry name of the cursor with code 12 splits into PascalCase
/// words whose lowercase forms make its second built-in word set.
proof fn lemma_registry_name_12()
    requires
        ascii_case_facts(),
    ensures
        lower_words(spec_split_pascal_case(spec_registry_name(12)->0)).to_set()
            == spec_builtin_sets(12)[1],
{
    reveal_strlit("All");
    reveal_strlit("Size");
    reveal_strlit("SizeAll");
    reveal_strlit("all");
    reveal_strlit("size");
    let s = "SizeAll"@;
    assert(pascal_boundaries(s, 1) =~= Seq::<int>::empty());
    assert(pascal_boundaries(s, 2) =~= Seq::<int>::empty());
    assert(pascal_boundaries(s, 3) =~= Seq::<int>::empty());
    assert(pascal_boundaries(s, 4) =~= Seq::<int>::empty());
    assert(pascal_boundaries(s, 5) =~= seq![4int]);
    assert(pascal_boundaries(s, 6) =~= seq![4int]);
    assert(pascal_boundaries(s, 7) =~= seq![4int]);
    let bs = seq![4int];
    assert(spec_split_pascal_case(s) == cut_at(s, bs));
    assert(cut_at(s, bs).len() == 2);
    assert(cut_at(s, bs)[0] =~= "Size"@);
    assert(cut_at(s, bs)[1] =~= "All"@);
    assert(cut_at(s, bs) =~= seq!["Size"@, "All"@]);
    assert(lower_words(seq!["Size"@, "All"@]) =~= seq!["size"@, "all"@]) by {
        assert(ascii_lower("Size"@) =~= "size"@);
        assert(ascii_lower("All"@) =~= "all"@);
    }
}

/// The registry name of the cursor with code 13 splits into PascalCase
/// words whose lowercase forms make its second built-in word set.
proof fn lemma_registry_name_13()
    requires
        ascii_case_facts(),
    ensures
        lower_words(spec_split_pascal_case(spec_registry_name(13)->0)).to_set()
            == spec_builtin_sets(13)[1],
{
    reveal_strlit("Arrow");
    reveal_strlit("Up");
    reveal_strlit("UpArrow");
    reveal_strlit("arrow");
    reveal_strlit("up");
    let s = "UpArrow"@;
    assert(pascal_boundaries(s, 1) =~= Seq::<int>::empty());
    assert(pascal_boundaries(s, 2) =~= Seq::<int>::empty());
    assert(pascal_boundaries(s, 3) =~= seq![2int]);
    assert(pascal_boundaries(s, 4) =~= seq![2int]);
    assert(pascal_boundaries(s, 5) =~= seq![2int]);
    assert(pascal_boundaries(s, 6) =~= seq![2int]);
    assert(pascal_boundaries(s, 7) =~= seq![2int]);
    let bs = seq![2int];
    assert(spec_split_pascal_case(s) == cut_at(s, bs));
    assert(cut_at(s, bs).len() == 2);
    assert(cut_at(s, bs)[0] =~= "Up"@);
    assert(cut_at(s, bs)[1] =~= "Arrow"@);
    assert(cut_at(s, bs) =~= seq!["Up"@, "Arrow"@]);
    assert(lower_words(seq!["Up"@, "Arrow"@]) =~= seq!["up"@, "arrow"@]) by {
        assert(ascii_lower("Up"@) =~= "up"@);
        assert(ascii_lower("Arrow"@) =~= "arrow"@);
    }
}

/// The registry name of the cursor with code 14 splits into PascalCase
/// words whose lowercase forms make its second built-in word set.
proof fn lemma_registry_name_14()
    requires
        ascii_case_facts(),
    ensures
        lower_words(spec_split_pascal_case(spec_registry_name(14)->0)).to_set()
            == spec_builtin_sets(14)[1],
{
    reveal_strlit("Hand");
    reveal_strlit("hand");
    let s = "Hand"@;
    assert(pascal_boundaries(s, 1) =~= Seq::<int>::empty());
    assert(pascal_boundaries(s, 2) =~= Seq::<int>::empty());
    assert(pascal_boundaries(s, 3) =~= Seq::<int>::empty());
    assert(pascal_boundaries(s, 4) =~= Seq::<int>::empty());
    let bs = Seq::<int>::empty();
    assert(spec_split_pascal_case(s) == cut_at(s, bs));
    assert(cut_at(s, bs).len() == 1);
    assert(cut_at(s, bs)[0] =~= "Hand"@);
    assert(cut_at(s, bs) =~= seq!["Hand"@]);
    assert(lower_words(seq!["Hand"@]) =~= seq!["hand"@]) by {
        assert(ascii_lower("Hand"@) =~= "hand"@);
    }
}

/// The registry name of the cursor with code 15 splits into PascalCase
/// words whose lowercase forms make its second built-in word set.
proof fn lemma_registry_name_15()
    requires
        ascii_case_facts(),
    ensures
        lower_words(spec_split_pascal_case(spec_registry_name(15)->0)).to_set()
            == spec_builtin_sets(15)[1],
{
    reveal_strlit("Pin");
    reveal_strlit("pin");
    let s = "Pin"@;
    assert(pascal_boundaries(s, 1) =~= Seq::<int>::empty());
    assert(pascal_boundaries(s, 2) =~= Seq::<int>::empty());
    assert(pascal_boundaries(s, 3) =~= Seq::<int>::empty());
    let bs = Seq::<int>::empty();
    assert(spec_split_pascal_case(s) == cut_at(s, bs));
    assert(cut_at(s, bs).len() == 1);
    assert(cut_at(s, bs)[0] =~= "Pin"@);
    assert(cut_at(s, bs) =~= seq!["Pin"@]);
    assert(lower_words(seq!["Pin"@]) =~= seq!["pin"@]) by {
        assert(ascii_lower("Pin"@) =~= "pin"@);
    }
}

/// The registry name of the cursor with code 16 splits into PascalCase
/// words whose lowercase forms make its second built-in word set.
proof fn lemma_registry_name_16()
    requires
        ascii_case_facts(),
    ensures
        lower_words(spec_split_pascal_case(spec_registry_name(16)->0)).to_set()
            == spec_builtin_sets(16)[1],
{
    reveal_strlit("Person");
    reveal_strlit("person");
    let s = "Person"@;
    assert(pascal_boundaries(s, 1) =~= Seq::<int>::empty());
    assert(pascal_boundaries(s, 2) =~= Seq::<int>::empty());
    assert(pascal_boundaries(s, 3) =~= Seq::<int>::empty());
    assert(pascal_boundaries(s, 4) =~= Seq::<int>::empty());
    assert(pascal_boundaries(s, 5) =~= Seq::<int>::empty());
    assert(pascal_boundaries(s, 6) =~= Seq::<int>::empty());
    let bs = Seq::<int>::empty();
    assert(spec_split_pascal_case(s) == cut_at(s, bs));
    assert(cut_at(s, bs).len() == 1);
    assert(cut_at(s, bs)[0] =~= "Person"@);
    assert(cut_at(s, bs) =~= seq!["Person"@]);
    assert(lower_words(seq!["Person"@]) =~= seq!["person"@]) by {
        assert(ascii_lower("Person"@) =~= "person"@);
    }
}

/// The second built-in word set of each standard cursor is the set of its
/// registry name's PascalCase words, lowercased (`Wait` gives {wait},
/// `SizeNWSE` gives {size, nwse}). This holds given Unicode's case
/// properties of ASCII letters, which std's `char::is_uppercase` and
/// `char::is_lowercase` test: `A`..=`Z` are the uppercase and `a`..=`z` the
/// lowercase ASCII characters.
pub proof fn lemma_registry_names_split(code: nat)
    requires
        code < 17,
        ascii_case_facts(),
    ensures
        lower_words(spec_split_pascal_case(spec_registry_name(code)->0)).to_set()
            == spec_builtin_sets(code)[1],
{
    if code == 0 {
        lemma_registry_name_0();
    } else if code == 1 {
        lemma_registry_name_1();
    } else if code == 2 {
        lemma_registry_name_2();
    } else if code == 3 {
        lemma_registry_name_3();
    } else if code == 4 {
        lemma_registry_name_4();
    } else if code == 5 {
        lemma_registry_name_5();
    } else if code == 6 {
        lemma_registry_name_6();
    } else if code == 7 {
        lemma_registry_name_7();
    } else if code == 8 {
        lemma_registry_name_8();
    } else if code == 9 {
        lemma_registry_name_9();
    } else if code == 10 {
        lemma_registry_name_10();
    } else if code == 11 {
        lemma_registry_name_11();
    } else if code == 12 {
        lemma_registry_name_12();
    } else if code == 13 {
        lemma_registry_name_13();
    } else if code == 14 {
        lemma_registry_name_14();
    } else if code == 15 {
        lemma_registry_name_15();
    } else {
        lemma_registry_name_16();
    }
}

/// The word sets of a list of word lists.
pub open spec fn word_sets(v: Seq<Vec<String>>) -> Seq<Set<Seq<char>>> {
    v.map_values(|s: Vec<String>| views(s@).to_set())
}

/// A set of words given as a list.
pub open spec fn words_of(list: Seq<Seq<char>>) -> Set<Seq<char>> {
    list.to_set()
}

/// The word sets that name each standard cursor before any localized name is
/// added: its English name's words, and its registry name's words.
pub open spec fn spec_builtin_sets(code: nat) -> Seq<Set<Seq<char>>> {
    if code == 0 {
        seq![words_of(seq!["normal"@, "select"@]), words_of(seq!["arrow"@])]
    } else if code == 1 {
        seq![words_of(seq!["help"@, "select"@]), words_of(seq!["help"@])]
    } else if code == 2 {
        seq![words_of(seq!["working"@, "in"@, "background"@]), words_of(seq!["app"@, "starting"@])]
    } else if code == 3 {
        seq![words_of(seq!["busy"@]), words_of(seq!["wait"@])]
    } else if code == 4 {
        seq![words_of(seq!["precision"@, "select"@]), words_of(seq!["crosshair"@])]
    } else if code == 5 {
        seq![words_of(seq!["text"@, "select"@]), words_of(seq!["i"@, "beam"@])]
    } else if code == 6 {
        seq![words_of(seq!["handwriting"@]), words_of(seq!["nw"@, "pen"@])]
    } else if code == 7 {
        seq![words_of(seq!["unavailable"@]), words_of(seq!["no"@])]
    } else if code == 8 {
        seq![words_of(seq!["vertical"@, "resize"@]), words_of(seq!["size"@, "ns"@])]
    } else if code == 9 {
        seq![words_of(seq!["horizontal"@, "resize"@]), words_of(seq!["size"@, "we"@])]
    } else if code == 10 {
        seq![words_of(seq!["diagonal"@, "resize"@, "1"@]), words_of(seq!["size"@, "nwse"@])]
    } else if code == 11 {
        seq![words_of(seq!["diagonal"@, "resize"@, "2"@]), words_of(seq!["size"@, "nesw"@])]
    } else if code == 12 {
        seq![words_of(seq!["move"@]), words_of(seq!["size"@, "all"@])]
    } else if code == 13 {
        seq![words_of(seq!["alternate"@, "select"@]), words_of(seq!["up"@, "arrow"@])]
    } else if code == 14 {
        seq![words_of(seq!["link"@, "select"@]), words_of(seq!["hand"@])]
    } else if code == 15 {
        seq![words_of(seq!["location"@, "select"@]), words_of(seq!["pin"@])]
    } else if code == 16 {
        seq![words_of(seq!["person"@, "select"@]), words_of(seq!["person"@])]
    } else {
        Seq::empty()
    }
}

/// A localized cursor name made ready to tokenize: trailing NULs dropped and
/// every `/` removed.
pub open spec fn spec_clean_name(d: Seq<char>) -> Seq<char> {
    trim_end_by(d, is_nul()).filter(not_slash())
}

/// The NUL test.
pub open spec fn is_nul() -> spec_fn(char) -> bool {
    |c: char| c == '\0'
}

/// The test for characters other than `/`.
pub open spec fn not_slash() -> spec_fn(char) -> bool {
    |c: char| c != '/'
}

/// A localized cursor name made ready to tokenize, as `spec_clean_name` says.
pub fn clean_name(name: &String) -> (r: String)
    ensures
        r@ == spec_clean_name(name@),
{
    let chars = crate::text::chars_of(name.as_str());
    let mut j: usize = chars.len();
    while j > 0 && chars[j - 1] == '\0'
        invariant
            j <= chars.len(),
            forall|k: int| j <= k < chars.len() ==> is_nul()(#[trigger] chars@[k]),
        decreases j,
    {
        j = j - 1;
    }
    let ghost kept = chars@.take(j as int);
    proof {
        crate::tokens::lemma_trim_end(chars@, is_nul(), j as int);
    }
    let mut out: Vec<char> = Vec::new();
    let mut i: usize = 0;
    proof {
        reveal_with_fuel(Seq::filter, 1);
        assert(kept.take(0) =~= Seq::<char>::empty());
    }
    while i < j
        invariant
            i <= j <= chars.len(),
            kept == chars@.take(j as int),
            out@ == kept.take(i as int).filter(not_slash()),
        decreases j - i,
    {
        let c = chars[i];
        proof {
            assert(kept.take(i as int + 1) =~= kept.take(i as int).push(c));
            kept.take(i as int).lemma_filter_push(c, not_slash());
        }
        if c != '/' {
            out.push(c);
        }
        i = i + 1;
    }
    proof {
        assert(kept.take(i as int) =~= kept);
    }
    string_of(out.as_slice())
}

/// The word sets that a localized name adds: its words split at whitespace
/// and `_`, its PascalCase words, and the words that ICU finds.
pub open spec fn name_sets(d: Seq<char>) -> Seq<Set<Seq<char>>> {
    let c = spec_clean_name(d);
    seq![spec_tokenize(c).to_set(), spec_pascal_case_tokenize(c).to_set(), spec_icu_tokenize(c).to_set()]
}

/// The word sets that the localized name of the cursor with code `code` adds,
/// where the cursor has a name resource and a name was loaded for it.
pub open spec fn loaded_sets(names: Seq<Option<Seq<char>>>, code: nat) -> Seq<Set<Seq<char>>> {
    if spec_resource_id(code) is Some && code < names.len() && names[code as int] is Some {
        name_sets(names[code as int]->0)
    } else {
        Seq::empty()
    }
}

/// The dictionary built from the localized names: every cursor variant (an
/// `Other` cursor with an empty name standing for its variant) with its
/// built-in word sets and then those its localized name adds.
pub open spec fn spec_dictionary(names: Seq<Option<Seq<char>>>) -> Map<(nat, Seq<char>), Seq<Set<Seq<char>>>> {
    Map::new(
        |k: (nat, Seq<char>)| k.0 < VARIANT_COUNT && k.1 == Seq::<char>::empty(),
        |k: (nat, Seq<char>)| spec_builtin_sets(k.0) + loaded_sets(names, k.0),
    )
}

/// The dictionary gives every cursor variant its built-in word sets; a
/// standard cursor with a name resource and a loaded localized name `d` gets,
/// after them, exactly three more: the words of `d` (cleaned of trailing NULs
/// and `/`) split at whitespace and `_`, its PascalCase words, and the words
/// ICU finds; every other cursor gets nothing more.
pub proof fn lemma_dictionary_sets(names: Seq<Option<Seq<char>>>, code: nat)
    requires
        code < VARIANT_COUNT,
    ensures
        spec_dictionary(names).contains_key(code_view(code)),
        spec_resource_id(code) is Some && code < names.len() && names[code as int] is Some
            ==> spec_dictionary(names)[code_view(code)] == spec_builtin_sets(code) + seq![
            spec_tokenize(spec_clean_name(names[code as int]->0)).to_set(),
            spec_pascal_case_tokenize(spec_clean_name(names[code as int]->0)).to_set(),
            spec_icu_tokenize(spec_clean_name(names[code as int]->0)).to_set(),
        ],
        !(spec_resource_id(code) is Some && code < names.len() && names[code as int] is Some)
            ==> spec_dictionary(names)[code_view(code)] == spec_builtin_sets(code),
        spec_builtin_sets(code).len() == (if code < 17 { 2int } else { 0int }),
{
    if !(spec_resource_id(code) is Some && code < names.len() && names[code as int] is Some) {
        assert(spec_builtin_sets(code) + Seq::<Set<Seq<char>>>::empty() =~= spec_builtin_sets(code));
    }
}

/// The strings of a list of optional strings.
pub open spec fn optional_views(v: Seq<Option<String>>) -> Seq<Option<Seq<char>>> {
    v.map_values(|o: Option<String>| match o {
        Some(s) => Some(s@),
        None => None,
    })
}

/// A word set of the given words.
fn word_set(words: &[&str]) -> (r: Vec<String>)
    ensures
        views(r@).no_duplicates(),
        views(r@).to_set() == words@.map_values(|w: &str| w@).to_set(),
{
    let mut r: Vec<String> = Vec::new();
    let ghost ws = words@.map_values(|w: &str| w@);
    let mut i: usize = 0;
    proof {
        assert(views(r@).to_set() =~= ws.take(0).to_set());
    }
    while i < words.len()
        invariant
            i <= words.len(),
            ws == words@.map_values(|w: &str| w@),
            views(r@).no_duplicates(),
            views(r@).to_set() == ws.take(i as int).to_set(),
        decreases words.len() - i,
    {
        let w = words[i];
        insert_distinct(&mut r, string_of(crate::text::chars_of(w).as_slice()));
        proof {
            assert(ws.take(i as int + 1) =~= ws.take(i as int) + seq![w@]);
            Seq::lemma_to_set_insert_commutes(ws.take(i as int), w@);
        }
        i = i + 1;
    }
    proof {
        assert(ws.take(i as int) =~= ws);
    }
    r
}

/// A word set of one word.
fn words1(a: &str) -> (r: Vec<String>)
    ensures
        views(r@).no_duplicates(),
        views(r@).to_set() == words_of(seq![a@]),
{
    let mut v: Vec<&str> = Vec::new();
    v.push(a);
    let r = word_set(v.as_slice());
    assert(v@.map_values(|w: &str| w@) =~= seq![a@]);
    r
}

/// A word set of two words.
fn words2(a: &str, b: &str) -> (r: Vec<String>)
    ensures
        views(r@).no_duplicates(),
        views(r@).to_set() == words_of(seq![a@, b@]),
{
    let mut v: Vec<&str> = Vec::new();
    v.push(a);
    v.push(b);
    let r = word_set(v.as_slice());
    assert(v@.map_values(|w: &str| w@) =~= seq![a@, b@]);
    r
}

/// A word set of three words.
fn words3(a: &str, b: &str, c: &str) -> (r: Vec<String>)
    ensures
        views(r@).no_duplicates(),
        views(r@).to_set() == words_of(seq![a@, b@, c@]),
{
    let mut v: Vec<&str> = Vec::new();
    v.push(a);
    v.push(b);
    v.push(c);
    let r = word_set(v.as_slice());
    assert(v@.map_values(|w: &str| w@) =~= seq![a@, b@, c@]);
    r
}

/// Two word sets.
fn pair(x: Vec<String>, y: Vec<String>) -> (r: Vec<Vec<String>>)
    ensures
        r@ == seq![x, y],
{
    let mut r: Vec<Vec<String>> = Vec::new();
    r.push(x);
    r.push(y);
    assert(r@ =~= seq![x, y]);
    r
}

/// The built-in word sets of a cursor.
fn builtin_word_sets(cursor: &Cursor) -> (r: Vec<Vec<String>>)
    ensures
        word_sets(r@) == spec_builtin_sets(cursor.code()),
        forall|i: int| 0 <= i < r.len() ==> views((#[trigger] r@[i])@).no_duplicates(),
{
    let r = match cursor.ordinal() {
        0 => pair(words2("normal", "select"), words1("arrow")),
        1 => pair(words2("help", "select"), words1("help")),
        2 => pair(words3("working", "in", "background"), words2("app", "starting")),
        3 => pair(words1("busy"), words1("wait")),
        4 => pair(words2("precision", "select"), words1("crosshair")),
        5 => pair(words2("text", "select"), words2("i", "beam")),
        6 => pair(words1("handwriting"), words2("nw", "pen")),
        7 => pair(words1("unavailable"), words1("no")),
        8 => pair(words2("vertical", "resize"), words2("size", "ns")),
        9 => pair(words2("horizontal", "resize"), words2("size", "we")),
        10 => pair(words3("diagonal", "resize", "1"), words2("size", "nwse")),
        11 => pair(words3("diagonal", "resize", "2"), words2("size", "nesw")),
        12 => pair(words1("move"), words2("size", "all")),
        13 => pair(words2("alternate", "select"), words2("up", "arrow")),
        14 => pair(words2("link", "select"), words1("hand")),
        15 => pair(words2("location", "select"), words1("pin")),
        16 => pair(words2("person", "select"), words1("person")),
        _ => Vec::new(),
    };
    proof {
        assert(word_sets(r@) =~= spec_builtin_sets(cursor.code()));
    }
    r
}

/// Recognizes cursors by the words of file names: each cursor has sets of
/// words that name it.
pub struct WordEvaluator {
    dict: CursorMap<Vec<Vec<String>>>,
}

impl WordEvaluator {
    #[verifier::type_invariant]
    spec fn sets_distinct(self) -> bool {
        forall|k: (nat, Seq<char>), i: int|
            #![trigger self.dict@[k][i]]
            self.dict@.contains_key(k) && 0 <= i < self.dict@[k].len() ==> views(
                self.dict@[k][i]@,
            ).no_duplicates()
    }

    /// The dictionary: the word sets of each cursor.
    pub closed spec fn dictionary(self) -> Map<(nat, Seq<char>), Seq<Set<Seq<char>>>> {
        Map::new(
            |k: (nat, Seq<char>)| self.dict@.contains_key(k),
            |k: (nat, Seq<char>)| word_sets(self.dict@[k]),
        )
    }

    /// Every word set of the dictionary is finite.
    pub proof fn lemma_dictionary_finite(self)
        ensures
            forall|k: (nat, Seq<char>), i: int|
                #![trigger self.dictionary()[k][i]]
                self.dictionary().contains_key(k) && 0 <= i < self.dictionary()[k].len()
                    ==> self.dictionary()[k][i].finite(),
    {
        assert forall|k: (nat, Seq<char>), i: int|
            #![trigger self.dictionary()[k][i]]
            self.dictionary().contains_key(k) && 0 <= i < self.dictionary()[k].len()
                implies self.dictionary()[k][i].finite() by {
            let v = self.dict@[k][i];
            assert(self.dictionary()[k][i] == views(v@).to_set());
            vstd::seq_lib::seq_to_set_is_finite(views(v@));
        }
    }

    /// A word evaluator whose dictionary holds, for every cursor, its built-in
    /// word sets and the word sets of its localized name. `display_names[i]`
    /// is the localized name loaded for the cursor with code `i` (see
    /// `Cursor::all`); it is used only for cursors that have a name resource.
    pub fn new(display_names: &Vec<Option<String>>) -> (r: WordEvaluator)
        ensures
            r.dictionary() == spec_dictionary(optional_views(display_names@)),
    {
        let ghost names = optional_views(display_names@);
        let all = Cursor::all();
        let mut dict: CursorMap<Vec<Vec<String>>> = CursorMap::new();
        let mut i: usize = 0;
        while i < all.len()
            invariant
                i <= all.len(),
                all.len() == VARIANT_COUNT,
                forall|j: int| 0 <= j < all.len() ==> #[trigger] all[j]@ == code_view(j as nat),
                names == optional_views(display_names@),
                forall|k: (nat, Seq<char>)| #[trigger] dict@.contains_key(k) <==> (k.0 < i && k.1
                    == Seq::<char>::empty()),
                forall|k: (nat, Seq<char>)| #[trigger] dict@.contains_key(k) ==> word_sets(dict@[k])
                    == spec_builtin_sets(k.0) + loaded_sets(names, k.0),
                forall|k: (nat, Seq<char>), t: int|
                    #![trigger dict@[k][t]]
                    dict@.contains_key(k) && 0 <= t < dict@[k].len() ==> views(
                        dict@[k][t]@,
                    ).no_duplicates(),
            decreases all.len() - i,
        {
            let cursor = &all[i];
            assert(cursor@ == code_view(i as nat));
            let mut sets = builtin_word_sets(cursor);
            let ghost builtin = word_sets(sets@);
            if ResourceId::of(cursor).0.is_some() && i < display_names.len() {
                if let Some(name) = &display_names[i] {
                    let cleaned = clean_name(name);
                    sets.push(tokenize(cleaned.as_str()));
                    sets.push(pascal_case_tokenize(cleaned.as_str()));
                    sets.push(icu_tokenize(cleaned.as_str()));
                    proof {
                        assert(names[i as int] == Some(name@));
                    }
                }
            }
            proof {
                assert(word_sets(sets@) =~= spec_builtin_sets(i as nat) + loaded_sets(names, i as nat));
            }
            let ghost before = dict@;
            dict.insert(cursor.duplicate(), sets);
            proof {
                assert forall|k: (nat, Seq<char>), t: int|
                    dict@.contains_key(k) && 0 <= t < dict@[k].len() implies views(
                        (#[trigger] dict@[k][t])@,
                    ).no_duplicates() by {
                    if k != code_view(i as nat) {
                        assert(before.contains_key(k));
                        assert(dict@[k][t] == before[k][t]);
                    }
                }
            }
            i = i + 1;
        }
        let r = WordEvaluator { dict };
        proof {
            assert(r.dictionary() =~= spec_dictionary(names));
        }
        r
    }

    /// The best evaluation among the expected word sets `sets` against `words`.
    fn best_evaluation(sets: &Vec<Vec<String>>, words: &Vec<String>) -> (r: Option<Evaluation>)
        requires
            forall|i: int| 0 <= i < sets.len() ==> views((#[trigger] sets@[i])@).no_duplicates(),
            views(words@).no_duplicates(),
        ensures
            r matches Some(e) ==> best_of(word_sets(sets@), views(words@).to_set()) == Some(e@),
            r is None ==> best_of(word_sets(sets@), views(words@).to_set()) is None,
    {
        let ghost w = views(words@).to_set();
        let ghost all = word_sets(sets@);
        proof {
            views(words@).unique_seq_to_set();
        }
        let mut best: Option<Evaluation> = None;
        let mut j: usize = 0;
        proof {
            assert(all.take(0) =~= Seq::<Set<Seq<char>>>::empty());
        }
        while j < sets.len()
            invariant
                j <= sets.len(),
                w == views(words@).to_set(),
                all == word_sets(sets@),
                w.len() == words.len(),
                forall|i: int| 0 <= i < sets.len() ==> views((#[trigger] sets@[i])@).no_duplicates(),
                best matches Some(e) ==> best_of(all.take(j as int), w) == Some(e@),
                best is None ==> best_of(all.take(j as int), w) is None,
            decreases sets.len() - j,
        {
            let expected = &sets[j];
            let ghost ev = views(expected@).to_set();
            proof {
                assert(all.take(j as int + 1).drop_last() =~= all.take(j as int));
                assert(all.take(j as int + 1).last() == ev);
                views(expected@).unique_seq_to_set();
            }
            let matched = count_common(expected, words);
            if matched > 0 {
                proof {
                    vstd::set_lib::lemma_len_intersect(ev, w);
                    vstd::seq_lib::seq_to_set_is_finite(views(words@));
                    vstd::set_lib::lemma_len_intersect(w, ev);
                    assert(w.intersect(ev) =~= ev.intersect(w));
                    vstd::seq_lib::seq_to_set_is_finite(views(expected@));
                }
                let evaluation = Evaluation::from_match(matched, expected.len(), words.len());
                let take = match &best {
                    None => true,
                    Some(b) => evaluation.normalized().gt(&b.normalized()),
                };
                if take {
                    best = Some(evaluation);
                }
            }
            j = j + 1;
        }
        proof {
            assert(all.take(j as int) =~= all);
        }
        best
    }

    /// Scores a name's words (a set without repeats) against the dictionary.
    pub fn evaluate_words(&self, words: &Vec<String>) -> (r: Scoreboard)
        requires
            views(words@).no_duplicates(),
        ensures
            r.scores@ == spec_evaluate_words(self.dictionary(), views(words@).to_set()),
    {
        proof {
            use_type_invariant(self);
            views(words@).unique_seq_to_set();
        }
        let ghost w = views(words@).to_set();
        let ghost dict = self.dictionary();
        let mut board = Scoreboard::default();
        let entries = self.dict.entries();
        let mut i: usize = 0;
        while i < entries.len()
            invariant
                i <= entries.len(),
                w == views(words@).to_set(),
                w.len() == words.len(),
                views(words@).no_duplicates(),
                dict == self.dictionary(),
                forall|j: int| 0 <= j < entries.len() ==> self.dict@.contains_key((#[trigger] entries@[j]).0@)
                    && self.dict@[entries@[j].0@] == entries@[j].1@,
                forall|k: (nat, Seq<char>)| #[trigger] self.dict@.contains_key(k) ==> exists|j: int|
                    0 <= j < entries.len() && (#[trigger] entries@[j]).0@ == k,
                forall|x: int, y: int| 0 <= x < y < entries.len() ==> (#[trigger] entries@[x]).0@ != (
                #[trigger] entries@[y]).0@,
                forall|k: (nat, Seq<char>), t: int|
                    #![trigger self.dict@[k][t]]
                    self.dict@.contains_key(k) && 0 <= t < self.dict@[k].len() ==> views(
                        self.dict@[k][t]@,
                    ).no_duplicates(),
                forall|k: (nat, Seq<char>)| #[trigger] board.scores@.contains_key(k) ==> exists|j: int|
                    0 <= j < i && (#[trigger] entries@[j]).0@ == k,
                forall|j: int| 0 <= j < i ==> (board.scores@.contains_key((#[trigger] entries@[j]).0@)
                    == (best_of(dict[entries@[j].0@], w) is Some)) && (board.scores@.contains_key(
                    entries@[j].0@) ==> board.scores@[entries@[j].0@] == best_of(
                    dict[entries@[j].0@],
                    w,
                )->0),
            decreases entries.len() - i,
        {
            let sets = &entries[i].1;
            let ghost k = entries@[i as int].0@;
            proof {
                assert forall|t: int| 0 <= t < sets.len() implies views(
                    (#[trigger] sets@[t])@,
                ).no_duplicates() by {
                    assert(self.dict@[k][t] == sets@[t]);
                }
                assert(dict[k] == word_sets(sets@));
            }
            let ghost before = board.scores@;
            match Self::best_evaluation(sets, words) {
                Some(best) => {
                    proof {
                        assert(!board.scores@.contains_key(k)) by {
                            if board.scores@.contains_key(k) {
                                let j = choose|j: int| 0 <= j < i && (#[trigger] entries@[j]).0@ == k;
                            }
                        }
                    }
                    board.add(entries[i].0.duplicate(), &best);
                    proof {
                        let bv = best@;
                        assert(merged_view((0int, 1int, 0int), bv) == bv) by {
                            assert(0int * bv.1 + bv.0 * 1int == bv.0);
                            assert(1int * bv.1 == bv.1);
                        }
                    }
                },
                None => {},
            }
            proof {
                assert forall|j: int| 0 <= j < i + 1 implies (board.scores@.contains_key(
                    (#[trigger] entries@[j]).0@,
                ) == (best_of(dict[entries@[j].0@], w) is Some)) && (board.scores@.contains_key(
                    entries@[j].0@) ==> board.scores@[entries@[j].0@] == best_of(
                    dict[entries@[j].0@],
                    w,
                )->0) by {
                    if j < i {
                        assert(entries@[j].0@ != k);
                    }
                }
                assert forall|k2: (nat, Seq<char>)| #[trigger] board.scores@.contains_key(k2)
                    implies exists|j: int| 0 <= j < i + 1 && (#[trigger] entries@[j]).0@ == k2 by {
                    if k2 != k {
                        assert(before.contains_key(k2));
                        let j = choose|j: int| 0 <= j < i && (#[trigger] entries@[j]).0@ == k2;
                    } else {
                        assert(entries@[i as int].0@ == k2);
                    }
                }
            }
            i = i + 1;
        }
        proof {
            let m = spec_evaluate_words(dict, w);
            assert forall|k: (nat, Seq<char>)| #[trigger] board.scores@.contains_key(k)
                == m.contains_key(k) && (board.scores@.contains_key(k) ==> board.scores@[k] == m[k]) by {
                if self.dict@.contains_key(k) {
                    let j = choose|j: int| 0 <= j < entries.len() && (#[trigger] entries@[j]).0@ == k;
                } else if board.scores@.contains_key(k) {
                    let j = choose|j: int| 0 <= j < i && (#[trigger] entries@[j]).0@ == k;
                }
            }
            assert(board.scores@ =~= m);
        }
        board
    }
}

/// The scoreboard of a name: the best of the scores of its words split at
/// whitespace and `_`, of its PascalCase words, and of the words ICU finds.
pub open spec fn spec_evaluate_name(
    dict: Map<(nat, Seq<char>), Seq<Set<Seq<char>>>>,
    name: Seq<char>,
) -> Map<(nat, Seq<char>), (int, int, int)> {
    let empty = Map::<(nat, Seq<char>), (int, int, int)>::empty();
    let a = spec_merge_best(empty, spec_evaluate_words(dict, spec_tokenize(name).to_set()));
    let b = spec_merge_best(a, spec_evaluate_words(dict, spec_pascal_case_tokenize(name).to_set()));
    spec_merge_best(b, spec_evaluate_words(dict, spec_icu_tokenize(name).to_set()))
}

/// Whether every word set of a dictionary is finite.
pub open spec fn dict_finite(dict: Map<(nat, Seq<char>), Seq<Set<Seq<char>>>>) -> bool {
    forall|k: (nat, Seq<char>), i: int|
        #![trigger dict[k][i]]
        dict.contains_key(k) && 0 <= i < dict[k].len() ==> dict[k][i].finite()
}

/// Every score of a words scoreboard has a positive denominator.
proof fn lemma_words_board_positive(
    dict: Map<(nat, Seq<char>), Seq<Set<Seq<char>>>>,
    w: Set<Seq<char>>,
    k: (nat, Seq<char>),
)
    requires
        w.finite(),
        dict_finite(dict),
    ensures
        spec_evaluate_words(dict, w).contains_key(k) ==> normalized_view(
            spec_evaluate_words(dict, w)[k],
        ).1 > 0,
{
    if spec_evaluate_words(dict, w).contains_key(k) {
        assert(dict.contains_key(k));
        assert forall|i: int| 0 <= i < dict[k].len() implies (#[trigger] dict[k][i]).finite() by {}
        lemma_evaluate_words_best(dict, w, k);
        let i = choose|i: int|
            0 <= i < dict[k].len() && common(#[trigger] dict[k][i], w) > 0
                && spec_evaluate_words(dict, w)[k] == set_evaluation(dict[k][i], w);
        lemma_set_score_den(dict[k][i], w);
    }
}

/// A name's scoreboard keeps the best of its three word passes (the words
/// split at whitespace and `_`, the PascalCase words, the words ICU finds):
/// it scores exactly the cursors that some pass scores, each with a
/// normalized score not below any pass's score for it, and every score comes
/// from one of the passes.
pub proof fn lemma_evaluate_name_keeps_passes(
    dict: Map<(nat, Seq<char>), Seq<Set<Seq<char>>>>,
    name: Seq<char>,
    k: (nat, Seq<char>),
)
    requires
        dict_finite(dict),
    ensures
        ({
            let r = spec_evaluate_name(dict, name);
            let a = spec_evaluate_words(dict, spec_tokenize(name).to_set());
            let b = spec_evaluate_words(dict, spec_pascal_case_tokenize(name).to_set());
            let c = spec_evaluate_words(dict, spec_icu_tokenize(name).to_set());
            &&& r.contains_key(k) <==> (a.contains_key(k) || b.contains_key(k) || c.contains_key(k))
            &&& a.contains_key(k) ==> !score_gt(normalized_view(a[k]), normalized_view(r[k]))
            &&& b.contains_key(k) ==> !score_gt(normalized_view(b[k]), normalized_view(r[k]))
            &&& c.contains_key(k) ==> !score_gt(normalized_view(c[k]), normalized_view(r[k]))
            &&& r.contains_key(k) ==> (a.contains_key(k) && r[k] == a[k]) || (b.contains_key(k)
                && r[k] == b[k]) || (c.contains_key(k) && r[k] == c[k])
        }),
{
    let a = spec_evaluate_words(dict, spec_tokenize(name).to_set());
    let b = spec_evaluate_words(dict, spec_pascal_case_tokenize(name).to_set());
    let c = spec_evaluate_words(dict, spec_icu_tokenize(name).to_set());
    vstd::seq_lib::seq_to_set_is_finite(spec_tokenize(name));
    vstd::seq_lib::seq_to_set_is_finite(spec_pascal_case_tokenize(name));
    vstd::seq_lib::seq_to_set_is_finite(spec_icu_tokenize(name));
    lemma_words_board_positive(dict, spec_tokenize(name).to_set(), k);
    lemma_words_board_positive(dict, spec_pascal_case_tokenize(name).to_set(), k);
    lemma_words_board_positive(dict, spec_icu_tokenize(name).to_set(), k);
    lemma_merge_best_identity(a);
    let empty = Map::<(nat, Seq<char>), (int, int, int)>::empty();
    assert(spec_merge_best(empty, a) == a);
    let m = spec_merge_best(a, b);
    let r = spec_merge_best(m, c);
    assert(r == spec_evaluate_name(dict, name));
    lemma_merge_best_keeps_best(a, b, k);
    lemma_merge_best_keeps_best(m, c, k);
    if a.contains_key(k) {
        lemma_score_le_trans(normalized_view(a[k]), normalized_view(m[k]), normalized_view(r[k]));
    }
    if b.contains_key(k) {
        lemma_score_le_trans(normalized_view(b[k]), normalized_view(m[k]), normalized_view(r[k]));
    }
}

/// Every built-in word set is finite.
proof fn lemma_builtin_sets_finite(code: nat)
    ensures
        forall|i: int| 0 <= i < spec_builtin_sets(code).len() ==> (#[trigger] spec_builtin_sets(
            code,
        )[i]).finite(),
{
    broadcast use vstd::seq_lib::seq_to_set_is_finite;

}

/// The evaluation of a set that shares a word with a name's words scores
/// above 0 and at most 1; a set equal to the words scores exactly 1.
proof fn lemma_set_score_bounds(e: Set<Seq<char>>, w: Set<Seq<char>>)
    requires
        e.finite(),
        w.finite(),
        scorable(e, w),
    ensures
        normalized_view(set_evaluation(e, w)).1 > 0,
        normalized_view(set_evaluation(e, w)).0 <= normalized_view(set_evaluation(e, w)).1,
        e == w ==> normalized_view(set_evaluation(e, w)).0 == normalized_view(
            set_evaluation(e, w),
        ).1,
{
    vstd::set_lib::lemma_len_intersect(e, w);
    vstd::set_lib::lemma_len_intersect(w, e);
    assert(w.intersect(e) =~= e.intersect(w));
    if e == w {
        assert(e.intersect(w) =~= e);
    }
    lemma_match_score_bounds(common(e, w) as int, e.len() as int, w.len() as int);
}

/// Every score of a words scoreboard is at most 1.
proof fn lemma_words_board_at_most_one(
    dict: Map<(nat, Seq<char>), Seq<Set<Seq<char>>>>,
    w: Set<Seq<char>>,
    k: (nat, Seq<char>),
)
    requires
        w.finite(),
        dict_finite(dict),
    ensures
        spec_evaluate_words(dict, w).contains_key(k) ==> normalized_view(
            spec_evaluate_words(dict, w)[k],
        ).0 <= normalized_view(spec_evaluate_words(dict, w)[k]).1,
{
    if spec_evaluate_words(dict, w).contains_key(k) {
        assert forall|i: int| 0 <= i < dict[k].len() implies (#[trigger] dict[k][i]).finite() by {}
        lemma_evaluate_words_best(dict, w, k);
        let i = choose|i: int|
            0 <= i < dict[k].len() && common(#[trigger] dict[k][i], w) > 0
                && spec_evaluate_words(dict, w)[k] == set_evaluation(dict[k][i], w);
        lemma_set_score_bounds(dict[k][i], w);
    }
}

/// With a loaded localized name `d` for a standard cursor that has a name
/// resource, a stem whose PascalCase words are those of `d` (and are not
/// none) scores exactly 1 for that cursor.
pub proof fn lemma_localized_pascal_name_scores_one(
    names: Seq<Option<Seq<char>>>,
    code: nat,
    stem: Seq<char>,
)
    requires
        code < 17,
        spec_resource_id(code) is Some,
        code < names.len(),
        names[code as int] is Some,
        spec_pascal_case_tokenize(stem).to_set() == spec_pascal_case_tokenize(
            spec_clean_name(names[code as int]->0),
        ).to_set(),
        spec_pascal_case_tokenize(stem).len() > 0,
    ensures
        spec_evaluate_name(spec_dictionary(names), stem).contains_key(code_view(code)),
        normalized_view(spec_evaluate_name(spec_dictionary(names), stem)[code_view(code)]).0
            == normalized_view(spec_evaluate_name(spec_dictionary(names), stem)[code_view(code)]).1,
{
    let dict = spec_dictionary(names);
    let k = code_view(code);
    let w = spec_pascal_case_tokenize(stem).to_set();
    lemma_dictionary_sets(names, code);
    assert(dict_finite(dict)) by {
        assert forall|k2: (nat, Seq<char>), i: int|
            #![trigger dict[k2][i]]
            dict.contains_key(k2) && 0 <= i < dict[k2].len() implies dict[k2][i].finite() by {
            lemma_dictionary_sets(names, k2.0);
            let c = spec_clean_name(names[k2.0 as int]->0);
            vstd::seq_lib::seq_to_set_is_finite(spec_tokenize(c));
            vstd::seq_lib::seq_to_set_is_finite(spec_pascal_case_tokenize(c));
            vstd::seq_lib::seq_to_set_is_finite(spec_icu_tokenize(c));
            lemma_builtin_sets_finite(k2.0);
        }
    }
    vstd::seq_lib::seq_to_set_is_finite(spec_pascal_case_tokenize(stem));
    let sets = dict[k];
    assert(sets[3] == w);
    assert(w.len() > 0) by {
        let x = spec_pascal_case_tokenize(stem)[0];
        assert(w.contains(x));
    }
    assert(w.intersect(w) =~= w);
    assert(scorable(sets[3], w));
    lemma_set_score_bounds(w, w);
    assert forall|i: int| 0 <= i < dict[k].len() implies (#[trigger] dict[k][i]).finite() by {}
    lemma_evaluate_words_best(dict, w, k);
    let b = spec_evaluate_words(dict, w);
    assert(common(dict[k][3], w) > 0);
    lemma_words_board_positive(dict, w, k);
    lemma_evaluate_name_keeps_passes(dict, stem, k);
    let r = spec_evaluate_name(dict, stem);
    let a0 = spec_evaluate_words(dict, spec_tokenize(stem).to_set());
    let c0 = spec_evaluate_words(dict, spec_icu_tokenize(stem).to_set());
    vstd::seq_lib::seq_to_set_is_finite(spec_tokenize(stem));
    vstd::seq_lib::seq_to_set_is_finite(spec_icu_tokenize(stem));
    lemma_words_board_at_most_one(dict, spec_tokenize(stem).to_set(), k);
    lemma_words_board_at_most_one(dict, w, k);
    lemma_words_board_at_most_one(dict, spec_icu_tokenize(stem).to_set(), k);
    lemma_words_board_positive(dict, spec_tokenize(stem).to_set(), k);
    lemma_words_board_positive(dict, spec_icu_tokenize(stem).to_set(), k);
    let one = normalized_view(set_evaluation(w, w));
    let bv = normalized_view(b[k]);
    let rv = normalized_view(r[k]);
    lemma_score_le_trans(one, bv, rv);
    assert(rv.0 == rv.1) by (nonlinear_arith)
        requires
            one.0 == one.1,
            one.1 > 0,
            rv.1 > 0,
            !(one.0 * rv.1 > rv.0 * one.1),
            rv.0 <= rv.1,
    ;
}

impl Evaluator for WordEvaluator {
    open spec fn spec_evaluate(&self, stem: Option<Seq<char>>) -> Option<
        Map<(nat, Seq<char>), (int, int, int)>,
    > {
        match stem {
            Some(name) => Some(spec_evaluate_name(self.dictionary(), name)),
            None => None,
        }
    }

    /// Scores the words of a file's stem against the dictionary, split three ways.
    fn evaluate(&self, stem: Option<&str>) -> (r: Option<Scoreboard>) {
        let words = match stem {
            Some(w) => w,
            None => return None,
        };
        let mut board = Scoreboard::default();
        board.merge_best(self.evaluate_words(&tokenize(words)));
        board.merge_best(self.evaluate_words(&pascal_case_tokenize(words)));
        board.merge_best(self.evaluate_words(&icu_tokenize(words)));
        Some(board)
    }
}

} // verus!
