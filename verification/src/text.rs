use vstd::prelude::*;
use vstd::std_specs::iter::IteratorSpec;
use crate::tokens::{is_word_separator, word_separator};

verus! {

/// Index of the first occurrence of `c` in `s`, or `s.len()` when there is none.
pub open spec fn find_char(s: Seq<char>, c: char) -> nat
    decreases s.len(),
{
    if s.len() == 0 {
        0
    } else if s[0] == c {
        0
    } else {
        1 + find_char(s.drop_first(), c)
    }
}

/// `find_char` is at most the length.
pub proof fn lemma_find_char_bound(s: Seq<char>, c: char)
    ensures
        find_char(s, c) <= s.len(),
    decreases s.len(),
{
    if s.len() > 0 && s[0] != c {
        lemma_find_char_bound(s.drop_first(), c);
    }
}

/// `find_char` is the first index that holds `c`, or the length.
pub proof fn lemma_find_char(s: Seq<char>, c: char, i: int)
    requires
        0 <= i <= s.len(),
        forall|j: int| 0 <= j < i ==> s[j] != c,
        i == s.len() || s[i] == c,
    ensures
        find_char(s, c) == i,
    decreases i,
{
    if i > 0 {
        let t = s.drop_first();
        assert forall|j: int| 0 <= j < i - 1 implies t[j] != c by {
            assert(s[j + 1] != c);
        }
        lemma_find_char(t, c, i - 1);
        assert(s[0] != c);
    }
}

/// Index of the first occurrence of `c`, or the length when there is none.
pub fn position_of(s: &[char], c: char) -> (r: usize)
    ensures
        r == find_char(s@, c),
        r <= s.len(),
{
    let mut i: usize = 0;
    while i < s.len() && s[i] != c
        invariant
            i <= s.len(),
            forall|j: int| 0 <= j < i ==> s@[j] != c,
        decreases s.len() - i,
    {
        i = i + 1;
    }
    proof {
        lemma_find_char(s@, c, i as int);
    }
    i
}

/// `piece` put in front of the first element of `pieces`.
pub open spec fn prepend_to_first(piece: Seq<char>, pieces: Seq<Seq<char>>) -> Seq<Seq<char>> {
    pieces.update(0, piece + pieces[0])
}

/// The pieces of `s` between the characters that satisfy `p`, as
/// `str::split` with a predicate gives them.
pub open spec fn split_by(s: Seq<char>, p: spec_fn(char) -> bool) -> Seq<Seq<char>>
    decreases s.len(),
{
    if s.len() == 0 {
        seq![Seq::empty()]
    } else {
        let rest = split_by(s.drop_first(), p);
        if p(s[0]) {
            seq![Seq::empty()] + rest
        } else {
            prepend_to_first(seq![s[0]], rest)
        }
    }
}

/// The test for the character `c`.
pub open spec fn is_char(c: char) -> spec_fn(char) -> bool {
    |x: char| x == c
}

/// The pieces of `s` between the occurrences of `c`, as `str::split` with a
/// `char` pattern gives them: one more piece than there are occurrences.
pub open spec fn split_on(s: Seq<char>, c: char) -> Seq<Seq<char>> {
    split_by(s, is_char(c))
}

/// The pieces joined, with `c` between neighbours.
pub open spec fn join_with(pieces: Seq<Seq<char>>, c: char) -> Seq<char>
    decreases pieces.len(),
{
    if pieces.len() == 0 {
        Seq::empty()
    } else if pieces.len() == 1 {
        pieces[0]
    } else {
        pieces[0] + seq![c] + join_with(pieces.drop_first(), c)
    }
}

/// `split_by` never gives an empty list.
pub proof fn lemma_split_by_nonempty(s: Seq<char>, p: spec_fn(char) -> bool)
    ensures
        split_by(s, p).len() >= 1,
    decreases s.len(),
{
    if s.len() > 0 {
        lemma_split_by_nonempty(s.drop_first(), p);
    }
}

/// Splitting `x` followed by `t`.
pub proof fn lemma_split_by_cons(x: char, t: Seq<char>, p: spec_fn(char) -> bool)
    ensures
        split_by(seq![x] + t, p) == if p(x) {
            seq![Seq::<char>::empty()] + split_by(t, p)
        } else {
            prepend_to_first(seq![x], split_by(t, p))
        },
{
    let s = seq![x] + t;
    assert(s.drop_first() =~= t);
    assert(s[0] == x);
}

/// Splitting `w` followed by a separator `c` and `t`, where no character of
/// `w` separates.
pub proof fn lemma_split_by_piece(w: Seq<char>, t: Seq<char>, p: spec_fn(char) -> bool, c: char)
    requires
        p(c),
        forall|k: int| 0 <= k < w.len() ==> !p(#[trigger] w[k]),
    ensures
        split_by(w + seq![c] + t, p) == seq![w] + split_by(t, p),
    decreases w.len(),
{
    lemma_split_by_nonempty(t, p);
    if w.len() == 0 {
        assert(w + seq![c] + t =~= seq![c] + t);
        lemma_split_by_cons(c, t, p);
        assert(w =~= Seq::<char>::empty());
    } else {
        let q = w.drop_first();
        assert forall|k: int| 0 <= k < q.len() implies !p(#[trigger] q[k]) by {
            assert(q[k] == w[k + 1]);
        }
        lemma_split_by_piece(q, t, p, c);
        assert(w + seq![c] + t =~= seq![w[0]] + (q + seq![c] + t));
        assert(!p(w[0]));
        lemma_split_by_cons(w[0], q + seq![c] + t, p);
        assert(seq![w[0]] + q =~= w);
        assert(prepend_to_first(seq![w[0]], seq![q] + split_by(t, p)) =~= seq![w] + split_by(t, p));
    }
}

/// Splitting a string none of whose characters separates gives the string
/// itself.
pub proof fn lemma_split_by_no_sep(w: Seq<char>, p: spec_fn(char) -> bool)
    requires
        forall|k: int| 0 <= k < w.len() ==> !p(#[trigger] w[k]),
    ensures
        split_by(w, p) == seq![w],
    decreases w.len(),
{
    if w.len() > 0 {
        let q = w.drop_first();
        assert forall|k: int| 0 <= k < q.len() implies !p(#[trigger] q[k]) by {
            assert(q[k] == w[k + 1]);
        }
        lemma_split_by_no_sep(q, p);
        assert(!p(w[0]));
        assert(seq![w[0]] + q =~= w);
        lemma_split_by_cons(w[0], q, p);
        assert(prepend_to_first(seq![w[0]], seq![q]) =~= seq![w]);
    } else {
        assert(w =~= Seq::<char>::empty());
    }
}

/// Splitting at the separators undoes joining with a separator `c`, when no
/// character of a piece separates.
pub proof fn lemma_split_by_join(pieces: Seq<Seq<char>>, p: spec_fn(char) -> bool, c: char)
    requires
        p(c),
        pieces.len() >= 1,
        forall|i: int, k: int|
            0 <= i < pieces.len() && 0 <= k < pieces[i].len() ==> !p(#[trigger] pieces[i][k]),
    ensures
        split_by(join_with(pieces, c), p) == pieces,
    decreases pieces.len(),
{
    assert forall|k: int| 0 <= k < pieces[0].len() implies !p(#[trigger] pieces[0][k]) by {}
    if pieces.len() == 1 {
        lemma_split_by_no_sep(pieces[0], p);
        assert(seq![pieces[0]] =~= pieces);
    } else {
        let rest = pieces.drop_first();
        assert forall|i: int, k: int| 0 <= i < rest.len() && 0 <= k < rest[i].len() implies !p(
            #[trigger] rest[i][k],
        ) by {
            assert(rest[i] == pieces[i + 1]);
        }
        lemma_split_by_join(rest, p, c);
        lemma_split_by_piece(pieces[0], join_with(rest, c), p, c);
        assert(seq![pieces[0]] + rest =~= pieces);
    }
}

/// Splitting a joined string followed by `c` and more text gives the pieces,
/// then the pieces of the rest, when no piece holds `c`.
pub proof fn lemma_split_join_then(pieces: Seq<Seq<char>>, t: Seq<char>, c: char)
    requires
        pieces.len() >= 1,
        forall|i: int| 0 <= i < pieces.len() ==> !(#[trigger] pieces[i]).contains(c),
    ensures
        split_on(join_with(pieces, c) + seq![c] + t, c) == pieces + split_on(t, c),
    decreases pieces.len(),
{
    let p0 = pieces[0];
    assert forall|k: int| 0 <= k < p0.len() implies !is_char(c)(#[trigger] p0[k]) by {
        if p0[k] == c {
            assert(p0.contains(c));
        }
    }
    if pieces.len() == 1 {
        lemma_split_by_piece(p0, t, is_char(c), c);
        assert(seq![p0] =~= pieces);
    } else {
        let rest = pieces.drop_first();
        assert forall|i: int| 0 <= i < rest.len() implies !(#[trigger] rest[i]).contains(c) by {
            assert(rest[i] == pieces[i + 1]);
        }
        lemma_split_join_then(rest, t, c);
        let tail = join_with(rest, c) + seq![c] + t;
        assert(join_with(pieces, c) + seq![c] + t =~= p0 + seq![c] + tail);
        lemma_split_by_piece(p0, tail, is_char(c), c);
        assert(seq![p0] + (rest + split_on(t, c)) =~= pieces + split_on(t, c));
    }
}

/// Splitting at `c` undoes joining with `c`, when no piece holds `c`.
pub proof fn lemma_split_join(pieces: Seq<Seq<char>>, c: char)
    requires
        pieces.len() >= 1,
        forall|i: int| 0 <= i < pieces.len() ==> !(#[trigger] pieces[i]).contains(c),
    ensures
        split_on(join_with(pieces, c), c) == pieces,
{
    assert forall|i: int, k: int|
        0 <= i < pieces.len() && 0 <= k < pieces[i].len() implies !is_char(c)(
        #[trigger] pieces[i][k],
    ) by {
        if pieces[i][k] == c {
            assert(pieces[i].contains(c));
        }
    }
    lemma_split_by_join(pieces, is_char(c), c);
}

/// Joining pieces without `d` with a separator other than `d` gives a string
/// without `d`.
pub proof fn lemma_join_lacks(pieces: Seq<Seq<char>>, c: char, d: char)
    requires
        c != d,
        forall|i: int| 0 <= i < pieces.len() ==> !(#[trigger] pieces[i]).contains(d),
    ensures
        !join_with(pieces, c).contains(d),
    decreases pieces.len(),
{
    if pieces.len() > 1 {
        let rest = pieces.drop_first();
        assert forall|i: int| 0 <= i < rest.len() implies !(#[trigger] rest[i]).contains(d) by {
            assert(rest[i] == pieces[i + 1]);
        }
        lemma_join_lacks(rest, c, d);
        let j = join_with(pieces, c);
        let r = join_with(rest, c);
        assert(!pieces[0].contains(d));
        if j.contains(d) {
            let k = choose|k: int| 0 <= k < j.len() && j[k] == d;
            if k < pieces[0].len() {
                assert(pieces[0][k] == d);
            } else if k == pieces[0].len() {
                assert(j[k] == c);
            } else {
                assert(r[k - pieces[0].len() - 1] == d);
            }
        }
    } else if pieces.len() == 1 {
        assert(!pieces[0].contains(d));
    }
}

/// Joining one more piece at the end.
pub proof fn lemma_join_push(pieces: Seq<Seq<char>>, p: Seq<char>, c: char)
    requires
        pieces.len() >= 1,
    ensures
        join_with(pieces.push(p), c) == join_with(pieces, c) + seq![c] + p,
    decreases pieces.len(),
{
    if pieces.len() == 1 {
        assert(pieces.push(p).drop_first() =~= seq![p]);
        assert(pieces.push(p)[0] == pieces[0]);
        assert(join_with(seq![p], c) == p);
        assert(join_with(pieces, c) == pieces[0]);
        assert(join_with(pieces.push(p), c) == pieces[0] + seq![c] + join_with(seq![p], c));
    } else {
        let rest = pieces.drop_first();
        lemma_join_push(rest, p, c);
        assert(pieces.push(p).drop_first() =~= rest.push(p));
        assert(pieces.push(p)[0] == pieces[0]);
        let j = join_with(rest, c);
        assert(join_with(pieces.push(p), c) == pieces[0] + seq![c] + join_with(rest.push(p), c));
        assert(join_with(pieces, c) == pieces[0] + seq![c] + j);
        assert(pieces[0] + seq![c] + (j + seq![c] + p) =~= (pieces[0] + seq![c] + j) + seq![c]
            + p);
    }
}

/// Joining after putting `a` in front of the first piece puts `a` in front.
pub proof fn lemma_join_prepend(a: Seq<char>, pieces: Seq<Seq<char>>, c: char)
    requires
        pieces.len() >= 1,
    ensures
        join_with(prepend_to_first(a, pieces), c) == a + join_with(pieces, c),
{
    let q = prepend_to_first(a, pieces);
    if pieces.len() > 1 {
        assert(q.drop_first() =~= pieces.drop_first());
        assert(a + (pieces[0] + seq![c] + join_with(pieces.drop_first(), c)) =~= (a + pieces[0])
            + seq![c] + join_with(pieces.drop_first(), c));
    }
}

/// Joining with `c` undoes splitting at `c`.
pub proof fn lemma_join_split(s: Seq<char>, c: char)
    ensures
        join_with(split_on(s, c), c) == s,
    decreases s.len(),
{
    if s.len() == 0 {
        assert(s =~= Seq::<char>::empty());
    } else {
        let t = s.drop_first();
        lemma_join_split(t, c);
        lemma_split_by_nonempty(t, is_char(c));
        let rest = split_on(t, c);
        if s[0] == c {
            let l = seq![Seq::<char>::empty()] + rest;
            assert(l.drop_first() =~= rest);
            assert(Seq::<char>::empty() + seq![c] + join_with(rest, c) =~= s);
        } else {
            lemma_join_prepend(seq![s[0]], rest, c);
            assert(seq![s[0]] + t =~= s);
        }
    }
}

/// The characters of a string slice.
pub fn chars_of(s: &str) -> (r: Vec<char>)
    ensures
        r@ == s@,
{
    broadcast use vstd::string::group_string_axioms;
    let mut r: Vec<char> = Vec::new();
    for c in it: s.chars()
        invariant
            it.seq() == s@,
            r@ == s@.take(it.index()),
    {
        r.push(c);
        assert(s@.take(it.index() + 1) =~= s@.take(it.index()).push(c));
    }
    assert(r@ =~= s@);
    r
}

/// A `String` made of the given characters (std's `String: FromIterator<char>`).
#[verifier::external_body]
pub(crate) fn string_of(chars: &[char]) -> (r: String)
    ensures
        r@ == chars@,
{
    chars.iter().collect()
}

/// What separates the pieces of a split: one character, or the word
/// separators (whitespace and `_`).
#[derive(Clone, Copy)]
pub enum Separator {
    Char(char),
    Word,
}

impl Separator {
    /// The test for a separating character.
    pub open spec fn pred(self) -> spec_fn(char) -> bool {
        match self {
            Separator::Char(c) => is_char(c),
            Separator::Word => word_separator(),
        }
    }

    /// Whether `x` separates pieces.
    pub fn test(&self, x: char) -> (r: bool)
        ensures
            r == self.pred()(x),
    {
        match self {
            Separator::Char(c) => x == *c,
            Separator::Word => is_word_separator(x),
        }
    }
}

/// The pieces of `s` between the characters that `sep` names.
fn split_pieces(s: &[char], sep: Separator) -> (r: Vec<Vec<char>>)
    ensures
        r@.map_values(|p: Vec<char>| p@) == split_by(s@, sep.pred()),
{
    let ghost p = sep.pred();
    let mut pieces: Vec<Vec<char>> = Vec::new();
    let mut cur: Vec<char> = Vec::new();
    let mut i: usize = 0;
    proof {
        lemma_split_by_nonempty(s@, p);
        assert(s@.skip(0) =~= s@);
        assert(prepend_to_first(cur@, split_by(s@, p)) =~= split_by(s@, p));
        assert(pieces@.map_values(|p: Vec<char>| p@) =~= Seq::<Seq<char>>::empty());
        assert(Seq::<Seq<char>>::empty() + split_by(s@, p) =~= split_by(s@, p));
    }
    while i < s.len()
        invariant
            i <= s.len(),
            p == sep.pred(),
            split_by(s@, p) == pieces@.map_values(|p: Vec<char>| p@) + prepend_to_first(
                cur@,
                split_by(s@.skip(i as int), p),
            ),
        decreases s.len() - i,
    {
        let ghost rest = s@.skip(i as int + 1);
        proof {
            assert(s@.skip(i as int) =~= seq![s@[i as int]] + rest);
            lemma_split_by_cons(s@[i as int], rest, p);
            lemma_split_by_nonempty(rest, p);
        }
        if sep.test(s[i]) {
            let ghost old_pieces = pieces@.map_values(|p: Vec<char>| p@);
            pieces.push(cur);
            cur = Vec::new();
            proof {
                assert(pieces@.map_values(|p: Vec<char>| p@) =~= old_pieces.push(
                    pieces@[pieces.len() - 1]@,
                ));
                let sr = split_by(rest, p);
                assert(prepend_to_first(cur@, sr) =~= sr);
                let old_cur = pieces@[pieces.len() - 1]@;
                assert(prepend_to_first(old_cur, seq![Seq::<char>::empty()] + sr) =~= seq![
                    old_cur,
                ] + sr);
                assert(old_pieces + (seq![old_cur] + sr) =~= old_pieces.push(old_cur) + sr);
            }
        } else {
            let ghost old_cur = cur@;
            cur.push(s[i]);
            proof {
                let sr = split_by(rest, p);
                assert(old_cur + (seq![s@[i as int]] + sr[0]) =~= cur@ + sr[0]);
                assert(prepend_to_first(old_cur, prepend_to_first(seq![s@[i as int]], sr))
                    =~= prepend_to_first(cur@, sr));
            }
        }
        i = i + 1;
    }
    let ghost old_pieces = pieces@.map_values(|p: Vec<char>| p@);
    proof {
        assert(s@.skip(i as int) =~= Seq::<char>::empty());
        assert(prepend_to_first(cur@, seq![Seq::<char>::empty()]) =~= seq![cur@]);
    }
    pieces.push(cur);
    proof {
        assert(pieces@.map_values(|p: Vec<char>| p@) =~= old_pieces.push(
            pieces@[pieces.len() - 1]@,
        ));
    }
    pieces
}

/// The pieces of `s` between the occurrences of `c`, as `str::split` gives them.
pub fn split_chars(s: &[char], c: char) -> (r: Vec<Vec<char>>)
    ensures
        r@.map_values(|p: Vec<char>| p@) == split_on(s@, c),
{
    split_pieces(s, Separator::Char(c))
}

/// The pieces of `s` between word separators.
pub fn split_words(s: &[char]) -> (r: Vec<Vec<char>>)
    ensures
        r@.map_values(|p: Vec<char>| p@) == split_by(s@, word_separator()),
{
    split_pieces(s, Separator::Word)
}

/// The pieces joined, with `c` between neighbours (as `[String]::join` does).
pub fn join_chars(pieces: &Vec<Vec<char>>, c: char) -> (r: Vec<char>)
    ensures
        r@ == join_with(pieces@.map_values(|p: Vec<char>| p@), c),
{
    let ghost views = pieces@.map_values(|p: Vec<char>| p@);
    let mut r: Vec<char> = Vec::new();
    if pieces.len() == 0 {
        return r;
    }
    r.extend_from_slice(pieces[0].as_slice());
    let mut i: usize = 1;
    proof {
        assert(views.take(1) =~= seq![views[0]]);
    }
    while i < pieces.len()
        invariant
            1 <= i <= pieces.len(),
            views == pieces@.map_values(|p: Vec<char>| p@),
            r@ == join_with(views.take(i as int), c),
        decreases pieces.len() - i,
    {
        proof {
            lemma_join_push(views.take(i as int), views[i as int], c);
            assert(views.take(i as int).push(views[i as int]) =~= views.take(i as int + 1));
        }
        r.push(c);
        r.extend_from_slice(pieces[i].as_slice());
        i = i + 1;
    }
    proof {
        assert(views.take(i as int) =~= views);
    }
    r
}

} // verus!
