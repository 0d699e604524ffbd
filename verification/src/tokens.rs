use vstd::prelude::*;
use crate::text::{
    chars_of, join_with, lemma_split_by_cons, lemma_split_by_join, lemma_split_by_nonempty,
    prepend_to_first, split_by, split_words, string_of,
};
use crate::unicode::{
    ascii_lower, ascii_lower_char, is_ascii_text, is_ascii_digit, is_lowercase, is_uppercase, is_whitespace, nfkc, spec_is_ascii_digit,
    spec_is_lowercase, spec_is_uppercase, spec_is_whitespace, spec_nfkc, spec_to_lowercase,
    spec_utf8_width, spec_word_breaks, to_lowercase, utf8_width, word_breaks,
};

verus! {

/// `s` without its leading characters that satisfy `p`.
pub open spec fn trim_start_by(s: Seq<char>, p: spec_fn(char) -> bool) -> Seq<char>
    decreases s.len(),
{
    if s.len() > 0 && p(s[0]) {
        trim_start_by(s.drop_first(), p)
    } else {
        s
    }
}

/// `s` without its trailing characters that satisfy `p`.
pub open spec fn trim_end_by(s: Seq<char>, p: spec_fn(char) -> bool) -> Seq<char>
    decreases s.len(),
{
    if s.len() > 0 && p(s.last()) {
        trim_end_by(s.drop_last(), p)
    } else {
        s
    }
}

/// The whitespace test that `str::trim` uses.
pub open spec fn whitespace() -> spec_fn(char) -> bool {
    |c: char| spec_is_whitespace(c)
}

/// The ASCII-digit test.
pub open spec fn ascii_digit() -> spec_fn(char) -> bool {
    |c: char| spec_is_ascii_digit(c)
}

/// What separates the words of a name: whitespace or `_`.
pub open spec fn word_separator() -> spec_fn(char) -> bool {
    |c: char| spec_is_whitespace(c) || c == '_'
}

/// `s` without leading and trailing whitespace (`str::trim`).
pub open spec fn trim_ws(s: Seq<char>) -> Seq<char> {
    trim_end_by(trim_start_by(s, whitespace()), whitespace())
}

/// The pieces, trimmed, without the ones that are then empty.
pub open spec fn nonempty_trimmed(pieces: Seq<Seq<char>>) -> Seq<Seq<char>> {
    pieces.map_values(|p: Seq<char>| trim_ws(p)).filter(|p: Seq<char>| p.len() > 0)
}

/// The strings of a vector.
pub open spec fn views(v: Seq<String>) -> Seq<Seq<char>> {
    v.map_values(|s: String| s@)
}

/// `trim_start_by` drops exactly the first `i` characters when they satisfy
/// `p` and the next does not.
pub proof fn lemma_trim_start(s: Seq<char>, p: spec_fn(char) -> bool, i: int)
    requires
        0 <= i <= s.len(),
        forall|k: int| 0 <= k < i ==> p(#[trigger] s[k]),
        i == s.len() || !p(s[i]),
    ensures
        trim_start_by(s, p) == s.skip(i),
    decreases i,
{
    if i > 0 {
        let t = s.drop_first();
        assert forall|k: int| 0 <= k < i - 1 implies p(#[trigger] t[k]) by {
            assert(p(s[k + 1]));
        }
        lemma_trim_start(t, p, i - 1);
        assert(p(s[0]));
        assert(t.skip(i - 1) =~= s.skip(i));
    } else {
        assert(s.skip(0) =~= s);
    }
}

/// `trim_end_by` keeps exactly the first `j` characters when the ones after
/// them satisfy `p` and the one before does not.
pub proof fn lemma_trim_end(s: Seq<char>, p: spec_fn(char) -> bool, j: int)
    requires
        0 <= j <= s.len(),
        forall|k: int| j <= k < s.len() ==> p(#[trigger] s[k]),
        j == 0 || !p(s[j - 1]),
    ensures
        trim_end_by(s, p) == s.take(j),
    decreases s.len() - j,
{
    if j < s.len() {
        let t = s.drop_last();
        assert forall|k: int| j <= k < t.len() implies p(#[trigger] t[k]) by {
            assert(p(s[k]));
        }
        lemma_trim_end(t, p, j);
        assert(p(s[s.len() - 1]));
        assert(t.take(j) =~= s.take(j));
    } else {
        assert(s.take(j) =~= s);
    }
}

/// No piece of `split_by(s, p)` holds a character that satisfies `p`.
pub proof fn lemma_split_by_pieces(s: Seq<char>, p: spec_fn(char) -> bool)
    ensures
        forall|i: int, k: int|
            0 <= i < split_by(s, p).len() && 0 <= k < split_by(s, p)[i].len() ==> !p(
                #[trigger] split_by(s, p)[i][k],
            ),
    decreases s.len(),
{
    if s.len() > 0 {
        let t = s.drop_first();
        lemma_split_by_pieces(t, p);
        lemma_split_by_nonempty(t, p);
        let rest = split_by(t, p);
        let r = split_by(s, p);
        assert forall|i: int, k: int| 0 <= i < r.len() && 0 <= k < r[i].len() implies !p(
            #[trigger] r[i][k],
        ) by {
            if p(s[0]) {
                if i > 0 {
                    assert(r[i] == rest[i - 1]);
                }
            } else if i == 0 {
                if k > 0 {
                    assert(r[0][k] == rest[0][k - 1]);
                }
            } else {
                assert(r[i] == rest[i]);
            }
        }
    }
}

/// `s` without leading and trailing whitespace (`str::trim`).
pub fn trim_whitespace(s: &[char]) -> (r: Vec<char>)
    ensures
        r@ == trim_ws(s@),
{
    let mut i: usize = 0;
    while i < s.len() && is_whitespace(s[i])
        invariant
            i <= s.len(),
            forall|k: int| 0 <= k < i ==> whitespace()(#[trigger] s@[k]),
        decreases s.len() - i,
    {
        i = i + 1;
    }
    proof {
        lemma_trim_start(s@, whitespace(), i as int);
    }
    let mut j: usize = s.len();
    while j > i && is_whitespace(s[j - 1])
        invariant
            i <= j <= s.len(),
            forall|k: int| j <= k < s.len() ==> whitespace()(#[trigger] s@[k]),
        decreases j,
    {
        j = j - 1;
    }
    let ghost t = s@.skip(i as int);
    proof {
        assert forall|k: int| j - i <= k < t.len() implies whitespace()(#[trigger] t[k]) by {
            assert(t[k] == s@[k + i]);
        }
        if j > i {
            assert(t[j - i - 1] == s@[j - 1]);
        }
        lemma_trim_end(t, whitespace(), j - i);
        assert(t.take(j - i) =~= s@.subrange(i as int, j as int));
    }
    let mut r: Vec<char> = Vec::new();
    r.extend_from_slice(&s[i..j]);
    r
}

/// `s` without its leading ASCII digits (`str::trim_start_matches`).
pub fn trim_leading_digits(s: &[char]) -> (r: Vec<char>)
    ensures
        r@ == trim_start_by(s@, ascii_digit()),
{
    let mut i: usize = 0;
    while i < s.len() && is_ascii_digit(s[i])
        invariant
            i <= s.len(),
            forall|k: int| 0 <= k < i ==> ascii_digit()(#[trigger] s@[k]),
        decreases s.len() - i,
    {
        i = i + 1;
    }
    proof {
        lemma_trim_start(s@, ascii_digit(), i as int);
    }
    let mut r: Vec<char> = Vec::new();
    r.extend_from_slice(&s[i..s.len()]);
    r
}

/// Whether a character separates words: whitespace or `_`.
pub fn is_word_separator(c: char) -> (r: bool)
    ensures
        r == word_separator()(c),
{
    is_whitespace(c) || c == '_'
}

/// Adds a string to a list of distinct strings unless it is already there.
pub fn insert_distinct(set: &mut Vec<String>, s: String)
    requires
        views(old(set)@).no_duplicates(),
    ensures
        views(final(set)@).no_duplicates(),
        views(final(set)@).to_set() == views(old(set)@).to_set().insert(s@),
{
    let ghost sv = s@;
    let mut i: usize = 0;
    while i < set.len()
        invariant
            i <= set.len(),
            forall|k: int| 0 <= k < i ==> (#[trigger] set@[k])@ != sv,
            sv == s@,
            set@ == old(set)@,
            views(set@).no_duplicates(),
        decreases set.len() - i,
    {
        if set[i] == s {
            proof {
                assert(views(set@)[i as int] == sv);
                assert(views(set@).to_set().insert(sv) =~= views(set@).to_set());
            }
            return;
        }
        i = i + 1;
    }
    let ghost old_views = views(set@);
    set.push(s);
    proof {
        assert(views(set@) =~= old_views.push(sv));
        assert forall|k: int| 0 <= k < old_views.len() implies old_views[k] != sv by {
            assert(old_views[k] == set@[k]@);
        }
        assert(views(set@).to_set() =~= old_views.to_set().insert(sv)) by {
            assert forall|x: Seq<char>| #[trigger] views(set@).contains(x) <==> old_views.contains(x)
                || x == sv by {
                if views(set@).contains(x) {
                    let k = choose|k: int| 0 <= k < views(set@).len() && views(set@)[k] == x;
                    if k < old_views.len() {
                        assert(old_views[k] == x);
                    }
                }
                if old_views.contains(x) {
                    let k = choose|k: int| 0 <= k < old_views.len() && old_views[k] == x;
                    assert(views(set@)[k] == x);
                }
                if x == sv {
                    assert(views(set@)[old_views.len() as int] == x);
                }
            }
        }
    }
}

/// The distinct non-empty trimmed pieces, as a set of strings.
pub fn collect_tokens(pieces: &Vec<Vec<char>>) -> (r: Vec<String>)
    ensures
        views(r@).no_duplicates(),
        views(r@).to_set() == nonempty_trimmed(pieces@.map_values(|p: Vec<char>| p@)).to_set(),
{
    let ghost pv = pieces@.map_values(|p: Vec<char>| p@);
    let mut r: Vec<String> = Vec::new();
    let mut i: usize = 0;
    proof {
        assert(views(r@).to_set() =~= nonempty_trimmed(pv.take(0)).to_set()) by {
            reveal_with_fuel(Seq::filter, 1);
            assert(pv.take(0).map_values(|p: Seq<char>| trim_ws(p)) =~= Seq::<Seq<char>>::empty());
        }
    }
    while i < pieces.len()
        invariant
            i <= pieces.len(),
            pv == pieces@.map_values(|p: Vec<char>| p@),
            views(r@).no_duplicates(),
            views(r@).to_set() == nonempty_trimmed(pv.take(i as int)).to_set(),
        decreases pieces.len() - i,
    {
        let t = trim_whitespace(pieces[i].as_slice());
        proof {
            let f = |p: Seq<char>| trim_ws(p);
            let keep = |p: Seq<char>| p.len() > 0;
            assert(pv.take(i as int + 1).map_values(f) =~= pv.take(i as int).map_values(f).push(
                t@,
            ));
            pv.take(i as int).map_values(f).lemma_filter_push(t@, keep);
        }
        if t.len() > 0 {
            insert_distinct(&mut r, string_of(t.as_slice()));
            proof {
                let f = |p: Seq<char>| trim_ws(p);
                let keep = |p: Seq<char>| p.len() > 0;
                let before = pv.take(i as int).map_values(f).filter(keep);
                assert(before.push(t@).to_set() =~= before.to_set().insert(t@)) by {
                    assert(before.push(t@) =~= before + seq![t@]);
                    Seq::lemma_to_set_insert_commutes(before, t@);
                }
            }
        }
        i = i + 1;
    }
    proof {
        assert(pv.take(i as int) =~= pv);
    }
    r
}

/// Unicode's case properties of ASCII characters, as std's
/// `char::is_uppercase` and `char::is_lowercase` test them: the uppercase
/// ASCII characters are `A`..=`Z`, the lowercase ones `a`..=`z`.
pub open spec fn ascii_case_facts() -> bool {
    &&& forall|c: char| (c as u32) < 128 ==> (#[trigger] spec_is_uppercase(c) <==> ('A' <= c <= 'Z'))
    &&& forall|c: char| (c as u32) < 128 ==> (#[trigger] spec_is_lowercase(c) <==> ('a' <= c <= 'z'))
}

/// An uppercase letter or an ASCII digit: where a PascalCase word may start.
pub open spec fn spec_is_upper_or_digit(c: char) -> bool {
    spec_is_uppercase(c) || spec_is_ascii_digit(c)
}

/// Whether `c` is an uppercase letter or an ASCII digit.
pub fn is_upper_or_digit(c: char) -> (r: bool)
    ensures
        r == spec_is_upper_or_digit(c),
{
    is_uppercase(c) || is_ascii_digit(c)
}

/// Whether a PascalCase word starts at index `i` of `s`: the character there
/// is uppercase or a digit, and the one before it or the one after it is
/// lowercase. The first character never starts a new word.
pub open spec fn is_pascal_boundary(s: Seq<char>, i: int) -> bool {
    &&& 1 <= i < s.len()
    &&& spec_is_upper_or_digit(s[i])
    &&& (spec_is_lowercase(s[i - 1]) || (i + 1 < s.len() && spec_is_lowercase(s[i + 1])))
}

/// The word starts of `s` below `n`, in increasing order.
pub open spec fn pascal_boundaries(s: Seq<char>, n: int) -> Seq<int>
    decreases n,
{
    if n <= 1 {
        Seq::empty()
    } else {
        let b = pascal_boundaries(s, n - 1);
        if is_pascal_boundary(s, n - 1) {
            b.push(n - 1)
        } else {
            b
        }
    }
}

/// `s` cut at the indices `bs`.
pub open spec fn cut_at(s: Seq<char>, bs: Seq<int>) -> Seq<Seq<char>> {
    Seq::new(
        bs.len() + 1,
        |k: int|
            s.subrange(
                if k == 0 {
                    0
                } else {
                    bs[k - 1]
                },
                if k == bs.len() {
                    s.len() as int
                } else {
                    bs[k]
                },
            ),
    )
}

/// `s` split into its PascalCase words.
pub open spec fn spec_split_pascal_case(s: Seq<char>) -> Seq<Seq<char>> {
    cut_at(s, pascal_boundaries(s, s.len() as int))
}

/// The word starts below `n` are increasing, and each is a word start.
pub proof fn lemma_pascal_boundaries(s: Seq<char>, n: int)
    ensures
        forall|k: int|
            0 <= k < pascal_boundaries(s, n).len() ==> 1 <= #[trigger] pascal_boundaries(s, n)[k]
                < n && is_pascal_boundary(s, pascal_boundaries(s, n)[k]),
        forall|a: int, b: int|
            0 <= a < b < pascal_boundaries(s, n).len() ==> #[trigger] pascal_boundaries(s, n)[a]
                < #[trigger] pascal_boundaries(s, n)[b],
        forall|i: int| 1 <= i < n && is_pascal_boundary(s, i) ==> pascal_boundaries(s, n).contains(i),
    decreases n,
{
    if n > 1 {
        lemma_pascal_boundaries(s, n - 1);
        let b = pascal_boundaries(s, n - 1);
        assert forall|i: int| 1 <= i < n && is_pascal_boundary(s, i) implies pascal_boundaries(
            s,
            n,
        ).contains(i) by {
            if i < n - 1 {
                let k = choose|k: int| 0 <= k < b.len() && b[k] == i;
                assert(pascal_boundaries(s, n)[k] == i);
            } else {
                assert(pascal_boundaries(s, n)[b.len() as int] == i);
            }
        }
    }
}

/// Cutting at increasing indices inside `s` and concatenating the pieces gives `s`.
pub proof fn lemma_cut_at_flatten(s: Seq<char>, bs: Seq<int>)
    requires
        forall|k: int| 0 <= k < bs.len() ==> 0 <= #[trigger] bs[k] <= s.len(),
        forall|a: int, b: int| 0 <= a < b < bs.len() ==> #[trigger] bs[a] <= #[trigger] bs[b],
    ensures
        cut_at(s, bs).flatten() == s,
    decreases bs.len(),
{
    if bs.len() == 0 {
        assert(cut_at(s, bs) =~= seq![s.subrange(0, s.len() as int)]);
        cut_at(s, bs).lemma_flatten_one_element();
        assert(s.subrange(0, s.len() as int) =~= s);
    } else {
        let last = bs.last();
        let t = s.take(last);
        let init = bs.drop_last();
        assert forall|a: int, b: int| 0 <= a < b < init.len() implies #[trigger] init[a]
            <= #[trigger] init[b] by {
            assert(bs[a] <= bs[b]);
        }
        assert forall|k: int| 0 <= k < init.len() implies 0 <= #[trigger] init[k] <= t.len() by {
            assert(bs[k] <= bs[bs.len() - 1]);
        }
        lemma_cut_at_flatten(t, init);
        let lhs = cut_at(s, bs);
        let rhs = cut_at(t, init).push(s.subrange(last, s.len() as int));
        assert forall|k: int| 0 <= k < lhs.len() implies lhs[k] == rhs[k] by {
            if k < bs.len() {
                let lo = if k == 0 { 0 } else { bs[k - 1] };
                let hi = bs[k];
                if k > 0 {
                    assert(bs[k - 1] <= bs[k]);
                }
                assert(hi <= last) by {
                    if k < bs.len() - 1 {
                        assert(bs[k] <= bs[bs.len() - 1]);
                    }
                }
                assert(s.subrange(lo, hi) =~= t.subrange(lo, hi));
            }
        }
        assert(lhs =~= rhs);
        cut_at(t, init).lemma_flatten_push(s.subrange(last, s.len() as int));
        assert(t + s.subrange(last, s.len() as int) =~= s);
    }
}

/// Splits `s` into its PascalCase words: a new word starts at each uppercase
/// letter or digit that follows a lowercase letter or is followed by one.
pub fn split_pascal_case(s: &[char]) -> (r: Vec<Vec<char>>)
    ensures
        r@.map_values(|p: Vec<char>| p@) == spec_split_pascal_case(s@),
{
    let mut boundaries: Vec<usize> = Vec::new();
    let mut i: usize = 1;
    while i < s.len()
        invariant
            1 <= i <= s.len() || (s.len() == 0 && i == 1),
            boundaries@.map_values(|b: usize| b as int) == pascal_boundaries(s@, i as int),
        decreases s.len() - i,
    {
        let current = s[i];
        let prev = s[i - 1];
        let next_lower = i + 1 < s.len() && is_lowercase(s[i + 1]);
        let ghost before = boundaries@.map_values(|b: usize| b as int);
        if is_upper_or_digit(current) && (is_lowercase(prev) || next_lower) {
            boundaries.push(i);
            assert(boundaries@.map_values(|b: usize| b as int) =~= before.push(i as int));
        }
        i = i + 1;
    }
    let ghost bs = pascal_boundaries(s@, s@.len() as int);
    proof {
        if s.len() > 0 {
            assert(i == s.len());
        } else {
            assert(pascal_boundaries(s@, 1) =~= pascal_boundaries(s@, 0));
        }
        lemma_pascal_boundaries(s@, s@.len() as int);
    }
    let mut result: Vec<Vec<char>> = Vec::new();
    let mut start: usize = 0;
    let mut k: usize = 0;
    while k < boundaries.len()
        invariant
            k <= boundaries.len(),
            boundaries@.map_values(|b: usize| b as int) == bs,
            forall|a: int| 0 <= a < bs.len() ==> 1 <= #[trigger] bs[a] < s.len(),
            forall|a: int, b: int| 0 <= a < b < bs.len() ==> #[trigger] bs[a] < #[trigger] bs[b],
            start == (if k == 0 { 0 } else { bs[k - 1] }),
            result.len() == k,
            forall|a: int| 0 <= a < k ==> (#[trigger] result@[a])@ == cut_at(s@, bs)[a],
        decreases boundaries.len() - k,
    {
        let b = boundaries[k];
        assert(b as int == bs[k as int]);
        if k > 0 {
            assert(bs[k - 1] < bs[k as int]);
        }
        let mut piece: Vec<char> = Vec::new();
        piece.extend_from_slice(&s[start..b]);
        result.push(piece);
        start = b;
        k = k + 1;
    }
    let mut piece: Vec<char> = Vec::new();
    piece.extend_from_slice(&s[start..s.len()]);
    assert(piece@ == cut_at(s@, bs)[k as int]);
    result.push(piece);
    proof {
        assert forall|a: int| 0 <= a < result.len() implies (#[trigger] result@[a])@ == cut_at(
            s@,
            bs,
        )[a] by {}
        assert(result@.map_values(|p: Vec<char>| p@) =~= cut_at(s@, bs));
    }
    result
}

/// PascalCase splitting cuts `s` into pieces that, concatenated, give `s`
/// back; a non-empty `s` gives non-empty pieces, and every piece but the first
/// starts with an uppercase letter or a digit.
pub proof fn lemma_split_pascal_case_partitions(s: Seq<char>)
    ensures
        spec_split_pascal_case(s).flatten() == s,
        s.len() > 0 ==> forall|k: int|
            0 <= k < spec_split_pascal_case(s).len() ==> (#[trigger] spec_split_pascal_case(
                s,
            )[k]).len() > 0,
        forall|k: int|
            1 <= k < spec_split_pascal_case(s).len() ==> spec_is_upper_or_digit(
                #[trigger] spec_split_pascal_case(s)[k][0],
            ),
{
    let bs = pascal_boundaries(s, s.len() as int);
    lemma_pascal_boundaries(s, s.len() as int);
    assert forall|a: int, b: int| 0 <= a < b < bs.len() implies #[trigger] bs[a] <= #[trigger] bs[b] by {
    }
    lemma_cut_at_flatten(s, bs);
    let pieces = spec_split_pascal_case(s);
    assert forall|k: int| 1 <= k < pieces.len() implies spec_is_upper_or_digit(
        #[trigger] pieces[k][0],
    ) by {
        let b = bs[k - 1];
        if k < bs.len() {
            assert(b < bs[k]);
        }
        assert(pieces[k][0] == s[b]);
    }
    if s.len() > 0 {
        assert forall|k: int| 0 <= k < pieces.len() implies (#[trigger] pieces[k]).len() > 0 by {
            if k > 0 && k < bs.len() {
                assert(bs[k - 1] < bs[k]);
            }
        }
    }
}

/// Trimming leaves a stretch of the string.
pub proof fn lemma_trim_start_suffix(s: Seq<char>, p: spec_fn(char) -> bool)
    ensures
        exists|a: int| 0 <= a <= s.len() && trim_start_by(s, p) == s.skip(a),
    decreases s.len(),
{
    if s.len() > 0 && p(s[0]) {
        lemma_trim_start_suffix(s.drop_first(), p);
        let a = choose|a: int| 0 <= a <= s.len() - 1 && trim_start_by(s.drop_first(), p)
            == s.drop_first().skip(a);
        assert(s.drop_first().skip(a) =~= s.skip(a + 1));
    } else {
        assert(s.skip(0) =~= s);
    }
}

/// Trimming the end leaves a prefix.
pub proof fn lemma_trim_end_prefix(s: Seq<char>, p: spec_fn(char) -> bool)
    ensures
        exists|b: int| 0 <= b <= s.len() && trim_end_by(s, p) == s.take(b),
    decreases s.len(),
{
    if s.len() > 0 && p(s.last()) {
        lemma_trim_end_prefix(s.drop_last(), p);
        let b = choose|b: int| 0 <= b <= s.len() - 1 && trim_end_by(s.drop_last(), p)
            == s.drop_last().take(b);
        assert(s.drop_last().take(b) =~= s.take(b));
    } else {
        assert(s.take(s.len() as int) =~= s);
    }
}

/// Every character of a trimmed string is one of the string's.
pub proof fn lemma_trim_ws_chars(s: Seq<char>)
    ensures
        forall|k: int| 0 <= k < trim_ws(s).len() ==> s.contains(#[trigger] trim_ws(s)[k]),
{
    let t = trim_start_by(s, whitespace());
    lemma_trim_start_suffix(s, whitespace());
    lemma_trim_end_prefix(t, whitespace());
    let a = choose|a: int| 0 <= a <= s.len() && t == s.skip(a);
    assert forall|k: int| 0 <= k < trim_ws(s).len() implies s.contains(#[trigger] trim_ws(s)[k]) by {
        let b = choose|b: int| 0 <= b <= t.len() && trim_end_by(t, whitespace()) == t.take(b);
        assert(trim_ws(s)[k] == s[a + k]);
    }
}

/// Every word that the whitespace-and-`_` tokenizer gives is non-empty and
/// holds neither whitespace nor `_`.
pub proof fn lemma_tokenize_words(s: Seq<char>)
    ensures
        forall|i: int| 0 <= i < spec_tokenize(s).len() ==> (#[trigger] spec_tokenize(s)[i]).len() > 0,
        forall|i: int, k: int|
            0 <= i < spec_tokenize(s).len() && 0 <= k < spec_tokenize(s)[i].len() ==> !word_separator()(
                #[trigger] spec_tokenize(s)[i][k],
            ),
{
    broadcast use vstd::seq_lib::group_filter_ensures, Seq::lemma_filter_contains_rev;
    let pieces = split_by(prepared(spec_to_lowercase(s)), word_separator());
    lemma_split_by_pieces(prepared(spec_to_lowercase(s)), word_separator());
    let f = |p: Seq<char>| trim_ws(p);
    let keep = |p: Seq<char>| p.len() > 0;
    let mapped = pieces.map_values(f);
    let toks = spec_tokenize(s);
    assert(toks == mapped.filter(keep));
    assert forall|i: int| 0 <= i < toks.len() implies (#[trigger] toks[i]).len() > 0 by {
        assert(keep(mapped.filter(keep)[i]));
    }
    assert forall|i: int, k: int| 0 <= i < toks.len() && 0 <= k < toks[i].len() implies !word_separator()(
        #[trigger] toks[i][k],
    ) by {
        assert(mapped.filter(keep).contains(toks[i]));
        let j = choose|j: int| 0 <= j < mapped.len() && mapped[j] == toks[i];
        lemma_trim_ws_chars(pieces[j]);
        let x = choose|x: int| 0 <= x < pieces[j].len() && pieces[j][x] == toks[i][k];
        assert(!word_separator()(split_by(prepared(spec_to_lowercase(s)), word_separator())[j][x]));
    }
}

/// Number of bytes that UTF-8 takes for `s`.
pub open spec fn utf8_len(s: Seq<char>) -> nat
    decreases s.len(),
{
    if s.len() == 0 {
        0
    } else {
        utf8_len(s.drop_last()) + spec_utf8_width(s.last())
    }
}

/// The character index at which the UTF-8 byte offset `b` falls, if `b` is a
/// character boundary of `s` (its length counts as one).
pub open spec fn char_index_at_byte(s: Seq<char>, b: int) -> Option<int> {
    if exists|i: int| 0 <= i <= s.len() && utf8_len(#[trigger] s.take(i)) == b {
        Some(choose|i: int| 0 <= i <= s.len() && utf8_len(#[trigger] s.take(i)) == b)
    } else {
        None
    }
}

/// The UTF-8 length of a prefix grows with the prefix.
pub proof fn lemma_utf8_len_grows(s: Seq<char>, i: int, j: int)
    requires
        0 <= i < j <= s.len(),
    ensures
        utf8_len(s.take(i)) < utf8_len(s.take(j)),
    decreases j - i,
{
    assert(s.take(j).drop_last() =~= s.take(j - 1));
    if i < j - 1 {
        lemma_utf8_len_grows(s, i, j - 1);
    }
}

/// The character index of byte offset `b`, if `b` is a character boundary.
pub fn char_index_at(s: &[char], b: usize) -> (r: Option<usize>)
    ensures
        r matches Some(i) ==> char_index_at_byte(s@, b as int) == Some(i as int),
        r is None ==> char_index_at_byte(s@, b as int) is None,
{
    let mut i: usize = 0;
    let mut acc: u128 = 0;
    proof {
        assert(s@.take(0) =~= Seq::<char>::empty());
    }
    while i < s.len() && acc < (b as u128)
        invariant
            i <= s.len(),
            acc == utf8_len(s@.take(i as int)),
            forall|j: int| 0 <= j < i ==> utf8_len(#[trigger] s@.take(j)) < b,
            acc <= b + 4,
        decreases s.len() - i,
    {
        proof {
            assert(s@.take(i as int + 1).drop_last() =~= s@.take(i as int));
        }
        acc = acc + utf8_width(s[i]) as u128;
        i = i + 1;
    }
    if acc == b as u128 {
        proof {
            assert(utf8_len(s@.take(i as int)) == b);
            let w = choose|w: int| 0 <= w <= s@.len() && utf8_len(#[trigger] s@.take(w)) == b;
            if w < i {
                assert(utf8_len(s@.take(w)) < b);
            } else if w > i {
                lemma_utf8_len_grows(s@, i as int, w);
            }
        }
        Some(i)
    } else {
        proof {
            assert forall|w: int| 0 <= w <= s@.len() implies utf8_len(#[trigger] s@.take(w)) != b by {
                if w < i {
                } else if w > i {
                    lemma_utf8_len_grows(s@, i as int, w);
                }
            }
        }
        None
    }
}

/// The pieces of `s` between word breaks: each break that falls on a
/// character boundary at or after the current start ends a piece there and
/// starts the next; other breaks are passed over.
pub open spec fn segments_from(s: Seq<char>, breaks: Seq<usize>, start: int) -> Seq<Seq<char>>
    decreases breaks.len(),
{
    if breaks.len() == 0 {
        Seq::empty()
    } else {
        match char_index_at_byte(s, breaks[0] as int) {
            Some(i) => if i >= start {
                seq![s.subrange(start, i)] + segments_from(s, breaks.drop_first(), i)
            } else {
                segments_from(s, breaks.drop_first(), start)
            },
            None => segments_from(s, breaks.drop_first(), start),
        }
    }
}

/// The pieces of `s` between the given word breaks.
pub fn segments_at(s: &[char], breaks: &Vec<usize>) -> (r: Vec<Vec<char>>)
    ensures
        r@.map_values(|p: Vec<char>| p@) == segments_from(s@, breaks@, 0),
{
    let mut r: Vec<Vec<char>> = Vec::new();
    let mut start: usize = 0;
    let mut k: usize = 0;
    proof {
        assert(breaks@.skip(0) =~= breaks@);
        assert(r@.map_values(|p: Vec<char>| p@) + segments_from(s@, breaks@, 0) =~= segments_from(s@, breaks@, 0));
    }
    while k < breaks.len()
        invariant
            k <= breaks.len(),
            start <= s.len(),
            r@.map_values(|p: Vec<char>| p@) + segments_from(s@, breaks@.skip(k as int), start as int)
                == segments_from(s@, breaks@, 0),
        decreases breaks.len() - k,
    {
        let ghost old_r = r@.map_values(|p: Vec<char>| p@);
        let ghost rest = breaks@.skip(k as int);
        proof {
            assert(rest.drop_first() =~= breaks@.skip(k as int + 1));
            assert(rest[0] == breaks@[k as int]);
        }
        match char_index_at(s, breaks[k]) {
            Some(i) => {
                if i >= start {
                    let mut piece: Vec<char> = Vec::new();
                    piece.extend_from_slice(&s[start..i]);
                    assert(piece@ == s@.subrange(start as int, i as int));
                    r.push(piece);
                    proof {
                        assert(r@.map_values(|p: Vec<char>| p@) =~= old_r.push(s@.subrange(start as int, i as int)));
                        assert(old_r + (seq![s@.subrange(start as int, i as int)] + segments_from(s@, breaks@.skip(k as int + 1), i as int))
                            =~= old_r.push(s@.subrange(start as int, i as int)) + segments_from(s@, breaks@.skip(k as int + 1), i as int));
                    }
                    start = i;
                }
            },
            None => {},
        }
        k = k + 1;
    }
    proof {
        assert(breaks@.skip(k as int) =~= Seq::<usize>::empty());
        assert(r@.map_values(|p: Vec<char>| p@) + Seq::<Seq<char>>::empty() =~= r@.map_values(|p: Vec<char>| p@));
    }
    r
}

/// What the name-word tokenizer starts from: the name, normalized, trimmed,
/// and without leading ASCII digits.
pub open spec fn prepared(s: Seq<char>) -> Seq<char> {
    trim_start_by(trim_ws(spec_nfkc(s)), ascii_digit())
}

/// The words of a name split at whitespace and `_`: lowercased, normalized,
/// trimmed, without leading digits; as a list (the tokenizer returns its set).
pub open spec fn spec_tokenize(s: Seq<char>) -> Seq<Seq<char>> {
    nonempty_trimmed(split_by(prepared(spec_to_lowercase(s)), word_separator()))
}

/// The PascalCase words of a name (normalized, trimmed, without leading
/// digits, case kept); as a list.
pub open spec fn spec_pascal_case_tokenize(s: Seq<char>) -> Seq<Seq<char>> {
    nonempty_trimmed(spec_split_pascal_case(prepared(s)))
}

/// The words that ICU's word segmenter finds in a name (normalized, trimmed,
/// without leading digits), each trimmed and then lowercased; as a list.
pub open spec fn spec_icu_tokenize(s: Seq<char>) -> Seq<Seq<char>> {
    let t = prepared(s);
    nonempty_trimmed(segments_from(t, spec_word_breaks(t), 0)).map_values(
        |w: Seq<char>| spec_to_lowercase(w),
    )
}

/// The words of an ASCII name split at whitespace and `_`, as `spec_tokenize`
/// gives them for such a name: lowercased, trimmed, without leading digits.
pub open spec fn spec_ascii_tokenize(s: Seq<char>) -> Seq<Seq<char>> {
    nonempty_trimmed(split_by(trim_start_by(trim_ws(ascii_lower(s)), ascii_digit()), word_separator()))
}

/// A word as English cursor names are made of: non-empty ASCII text with no
/// whitespace and no `_`.
pub open spec fn plain_word(w: Seq<char>) -> bool {
    &&& w.len() > 0
    &&& is_ascii_text(w)
    &&& forall|k: int| 0 <= k < w.len() ==> !word_separator()(#[trigger] w[k])
}

/// Lowercasing each word of a list.
pub open spec fn lower_words(ws: Seq<Seq<char>>) -> Seq<Seq<char>> {
    ws.map_values(|w: Seq<char>| ascii_lower(w))
}

/// Lowercasing a joined string lowercases each piece, when the separator is
/// no uppercase ASCII letter.
proof fn lemma_ascii_lower_join(ws: Seq<Seq<char>>, c: char)
    requires
        !('A' <= c <= 'Z'),
    ensures
        ascii_lower(join_with(ws, c)) == join_with(lower_words(ws), c),
    decreases ws.len(),
{
    let lw = lower_words(ws);
    if ws.len() == 0 {
        assert(ascii_lower(join_with(ws, c)) =~= Seq::<char>::empty());
    } else if ws.len() == 1 {
        assert(lw[0] == ascii_lower(ws[0]));
    } else {
        let rest = ws.drop_first();
        lemma_ascii_lower_join(rest, c);
        assert(lower_words(rest) =~= lw.drop_first());
        assert(lw[0] == ascii_lower(ws[0]));
        assert(ascii_lower(ws[0] + seq![c] + join_with(rest, c)) =~= ascii_lower(ws[0]) + seq![c]
            + ascii_lower(join_with(rest, c)));
    }
}

/// The first character of a joined string is the first of its first piece,
/// and the last is the last of its last piece (for non-empty pieces).
proof fn lemma_join_ends(ws: Seq<Seq<char>>, c: char)
    requires
        ws.len() >= 1,
        forall|i: int| 0 <= i < ws.len() ==> (#[trigger] ws[i]).len() > 0,
    ensures
        join_with(ws, c).len() > 0,
        join_with(ws, c)[0] == ws[0][0],
        join_with(ws, c).last() == ws.last().last(),
    decreases ws.len(),
{
    assert(ws[0].len() > 0);
    if ws.len() > 1 {
        let rest = ws.drop_first();
        assert forall|i: int| 0 <= i < rest.len() implies (#[trigger] rest[i]).len() > 0 by {
            assert(rest[i] == ws[i + 1]);
        }
        lemma_join_ends(rest, c);
        assert(rest.last() == ws.last());
        let j = join_with(ws, c);
        assert(j == ws[0] + seq![c] + join_with(rest, c));
        assert(j.last() == join_with(rest, c).last());
    }
}

/// A string whose ends are not whitespace is its own trim, and a string not
/// starting with a digit keeps its start.
proof fn lemma_trim_noop(s: Seq<char>)
    requires
        s.len() > 0,
        !spec_is_whitespace(s[0]),
        !spec_is_whitespace(s.last()),
        !spec_is_ascii_digit(s[0]),
    ensures
        trim_ws(s) == s,
        trim_start_by(trim_ws(s), ascii_digit()) == s,
{
    lemma_trim_start(s, whitespace(), 0);
    assert(s.skip(0) =~= s);
    lemma_trim_end(s, whitespace(), s.len() as int);
    assert(s.take(s.len() as int) =~= s);
    lemma_trim_start(s, ascii_digit(), 0);
}

/// Filtering with a test that every element passes changes nothing.
proof fn lemma_filter_all(s: Seq<Seq<char>>, p: spec_fn(Seq<char>) -> bool)
    requires
        forall|i: int| 0 <= i < s.len() ==> p(#[trigger] s[i]),
    ensures
        s.filter(p) == s,
    decreases s.len(),
{
    if s.len() == 0 {
        assert(s.filter(p) =~= s) by {
            reveal(Seq::filter);
        }
    } else {
        let t = s.drop_last();
        assert forall|i: int| 0 <= i < t.len() implies p(#[trigger] t[i]) by {
            assert(t[i] == s[i]);
        }
        lemma_filter_all(t, p);
        t.lemma_filter_push(s.last(), p);
        assert(t.push(s.last()) =~= s);
        assert(p(s[s.len() - 1]));
    }
}

/// Tokenizing an ASCII name made of plain words joined by single spaces, and
/// not starting with a digit, gives its words lowercased.
pub proof fn lemma_ascii_tokenize_words(ws: Seq<Seq<char>>)
    requires
        ws.len() >= 1,
        forall|i: int| 0 <= i < ws.len() ==> plain_word(#[trigger] ws[i]),
        !spec_is_ascii_digit(ws[0][0]),
    ensures
        is_ascii_text(join_with(ws, ' ')),
        spec_ascii_tokenize(join_with(ws, ' ')) == lower_words(ws),
{
    let lw = lower_words(ws);
    lemma_ascii_lower_join(ws, ' ');
    assert forall|i: int| 0 <= i < lw.len() implies plain_word(#[trigger] lw[i]) by {
        let w = ws[i];
        assert(plain_word(w));
        assert(lw[i] == ascii_lower(w));
        assert forall|k: int| 0 <= k < lw[i].len() implies !word_separator()(#[trigger] lw[i][k])
            && (lw[i][k] as u32) < 128 by {
            assert(!word_separator()(w[k]));
            assert((w[k] as u32) < 128);
        }
    }
    assert(lw[0][0] == ascii_lower_char(ws[0][0]));
    assert forall|i: int| 0 <= i < ws.len() implies (#[trigger] ws[i]).len() > 0 by {
        assert(plain_word(ws[i]));
    }
    assert forall|i: int| 0 <= i < lw.len() implies (#[trigger] lw[i]).len() > 0 by {
        assert(plain_word(lw[i]));
    }
    lemma_join_ends(lw, ' ');
    lemma_join_ends(ws, ' ');
    let j = join_with(lw, ' ');
    assert(plain_word(lw.last()));
    assert(!word_separator()(lw.last()[lw.last().len() - 1]));
    assert(!word_separator()(lw[0][0]));
    lemma_trim_noop(j);
    assert forall|i: int, k: int| 0 <= i < lw.len() && 0 <= k < lw[i].len() implies !word_separator()(
        #[trigger] lw[i][k],
    ) by {
        assert(plain_word(lw[i]));
    }
    assert(word_separator()(' '));
    lemma_split_by_join(lw, word_separator(), ' ');
    assert forall|i: int| 0 <= i < lw.len() implies trim_ws(#[trigger] lw[i]) == lw[i] by {
        assert(plain_word(lw[i]));
        let w = lw[i];
        assert(!word_separator()(w[0]));
        assert(!word_separator()(w[w.len() - 1]));
        lemma_trim_start(w, whitespace(), 0);
        assert(w.skip(0) =~= w);
        lemma_trim_end(w, whitespace(), w.len() as int);
        assert(w.take(w.len() as int) =~= w);
    }
    let trimmed = lw.map_values(|p: Seq<char>| trim_ws(p));
    assert(trimmed =~= lw);
    lemma_filter_all(lw, |p: Seq<char>| p.len() > 0);
    lemma_join_ascii(ws, ' ');
}

/// Joining ASCII pieces with an ASCII separator gives ASCII text.
proof fn lemma_join_ascii(ws: Seq<Seq<char>>, c: char)
    requires
        (c as u32) < 128,
        forall|i: int| 0 <= i < ws.len() ==> is_ascii_text(#[trigger] ws[i]),
    ensures
        is_ascii_text(join_with(ws, c)),
    decreases ws.len(),
{
    if ws.len() > 1 {
        let rest = ws.drop_first();
        assert forall|i: int| 0 <= i < rest.len() implies is_ascii_text(#[trigger] rest[i]) by {
            assert(rest[i] == ws[i + 1]);
        }
        lemma_join_ascii(rest, c);
        let j = ws[0] + seq![c] + join_with(rest, c);
        assert(is_ascii_text(ws[0]));
        assert forall|k: int| 0 <= k < j.len() implies (#[trigger] j[k] as u32) < 128 by {
            if k < ws[0].len() {
                assert(j[k] == ws[0][k]);
            } else if k > ws[0].len() {
                assert(j[k] == join_with(rest, c)[k - ws[0].len() - 1]);
            }
        }
    } else if ws.len() == 1 {
        assert(is_ascii_text(ws[0]));
    }
}

/// Lowercasing ASCII text gives ASCII text.
proof fn lemma_ascii_lower_ascii(s: Seq<char>)
    requires
        is_ascii_text(s),
    ensures
        is_ascii_text(ascii_lower(s)),
{
    assert forall|i: int| 0 <= i < ascii_lower(s).len() implies (#[trigger] ascii_lower(s)[i] as u32)
        < 128 by {
        assert((s[i] as u32) < 128);
    }
}

/// Prepares a name as `prepared` says.
pub fn prepare(s: &str) -> (r: Vec<char>)
    ensures
        r@ == prepared(s@),
        is_ascii_text(s@) ==> r@ == trim_start_by(trim_ws(s@), ascii_digit()),
{
    let normalized = nfkc(s);
    let chars = chars_of(normalized.as_str());
    let trimmed = trim_whitespace(chars.as_slice());
    trim_leading_digits(trimmed.as_slice())
}

/// The set of words of a name split at whitespace and `_`, lowercased.
pub fn tokenize(s: &str) -> (r: Vec<String>)
    ensures
        views(r@).no_duplicates(),
        views(r@).to_set() == spec_tokenize(s@).to_set(),
        is_ascii_text(s@) ==> views(r@).to_set() == spec_ascii_tokenize(s@).to_set(),
{
    let lower = to_lowercase(s);
    proof {
        if is_ascii_text(s@) {
            lemma_ascii_lower_ascii(s@);
        }
    }
    let prepared = prepare(lower.as_str());
    let pieces = split_words(prepared.as_slice());
    collect_tokens(&pieces)
}

/// The set of PascalCase words of a name.
pub fn pascal_case_tokenize(s: &str) -> (r: Vec<String>)
    ensures
        views(r@).no_duplicates(),
        views(r@).to_set() == spec_pascal_case_tokenize(s@).to_set(),
{
    let prepared = prepare(s);
    let pieces = split_pascal_case(prepared.as_slice());
    collect_tokens(&pieces)
}

/// The set of lowercased words that ICU's word segmenter finds in a name.
pub fn icu_tokenize(s: &str) -> (r: Vec<String>)
    ensures
        views(r@).no_duplicates(),
        views(r@).to_set() == spec_icu_tokenize(s@).to_set(),
{
    let prepared = prepare(s);
    let text = string_of(prepared.as_slice());
    let breaks = word_breaks(text.as_str());
    let segments = segments_at(prepared.as_slice(), &breaks);
    let ghost sv = segments@.map_values(|p: Vec<char>| p@);
    let ghost f = |p: Seq<char>| trim_ws(p);
    let ghost keep = |p: Seq<char>| p.len() > 0;
    let ghost low = |w: Seq<char>| spec_to_lowercase(w);
    let mut r: Vec<String> = Vec::new();
    let mut i: usize = 0;
    proof {
        reveal_with_fuel(Seq::filter, 1);
        assert(sv.take(0).map_values(f) =~= Seq::<Seq<char>>::empty());
        assert(nonempty_trimmed(sv.take(0)).map_values(low) =~= Seq::<Seq<char>>::empty());
        assert(views(r@).to_set() =~= nonempty_trimmed(sv.take(0)).map_values(low).to_set());
    }
    while i < segments.len()
        invariant
            i <= segments.len(),
            sv == segments@.map_values(|p: Vec<char>| p@),
            f == (|p: Seq<char>| trim_ws(p)),
            keep == (|p: Seq<char>| p.len() > 0),
            low == (|w: Seq<char>| spec_to_lowercase(w)),
            views(r@).no_duplicates(),
            views(r@).to_set() == nonempty_trimmed(sv.take(i as int)).map_values(low).to_set(),
        decreases segments.len() - i,
    {
        let t = trim_whitespace(segments[i].as_slice());
        proof {
            assert(sv.take(i as int + 1).map_values(f) =~= sv.take(i as int).map_values(f).push(
                t@,
            ));
            sv.take(i as int).map_values(f).lemma_filter_push(t@, keep);
        }
        if t.len() > 0 {
            let word = string_of(t.as_slice());
            let lowered = to_lowercase(word.as_str());
            insert_distinct(&mut r, lowered);
            proof {
                let before = sv.take(i as int).map_values(f).filter(keep);
                assert(before.push(t@).map_values(low) =~= before.map_values(low) + seq![spec_to_lowercase(t@)]);
                Seq::lemma_to_set_insert_commutes(before.map_values(low), spec_to_lowercase(t@));
            }
        }
        i = i + 1;
    }
    proof {
        assert(sv.take(i as int) =~= sv);
    }
    r
}

} // verus!
