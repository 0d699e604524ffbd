use cursmetic::bignat::BigNat;
use cursmetic::cursor::Cursor;
use cursmetic::eval::{Evaluation, Evaluator, Score, Scoreboard};
use cursmetic::recognizer::CursorRecognizer;
use cursmetic::tokens::{
    icu_tokenize, is_upper_or_digit, pascal_case_tokenize, split_pascal_case, tokenize,
};
use cursmetic::word::{clean_name, WordEvaluator};

fn num(b: &BigNat) -> f64 {
    b.limbs().iter().rev().fold(0.0, |acc, &d| acc * 4294967296.0 + d as f64)
}

fn ratio(s: &Score) -> f64 {
    num(s.numerator()) / num(s.denominator())
}

fn same(a: &Score, b: &Score) -> bool {
    !a.gt(b) && !b.gt(a)
}

fn sorted(mut v: Vec<String>) -> Vec<String> {
    v.sort();
    v
}

fn strs(v: &[&str]) -> Vec<String> {
    sorted(v.iter().map(|s| s.to_string()).collect())
}

fn pieces(s: &str) -> Vec<String> {
    let chars: Vec<char> = s.chars().collect();
    split_pascal_case(&chars).into_iter().map(|p| p.into_iter().collect()).collect()
}

#[test]
fn tokenize_splits_at_whitespace_and_underscore() {
    assert_eq!(sorted(tokenize("Normal Select")), strs(&["normal", "select"]));
    assert_eq!(
        sorted(tokenize("01 Working_in  Background")),
        strs(&["working", "in", "background"])
    );
    assert_eq!(sorted(tokenize("help help")), strs(&["help"]));
    assert_eq!(tokenize("   "), Vec::<String>::new());
    assert_eq!(sorted(tokenize("ＡＢＣ")), strs(&["abc"]));
}

#[test]
fn split_pascal_case_words() {
    assert_eq!(pieces("NormalSelect"), vec!["Normal", "Select"]);
    assert_eq!(pieces("HTMLParser"), vec!["HTML", "Parser"]);
    assert_eq!(pieces("SizeNWSE"), vec!["Size", "NWSE"]);
    assert_eq!(pieces("Diagonal2"), vec!["Diagonal", "2"]);
    assert_eq!(pieces(""), vec![""]);
    assert_eq!(pieces("lower"), vec!["lower"]);
    assert_eq!(pieces("ABC").concat(), "ABC");
}

#[test]
fn upper_or_digit() {
    assert!(is_upper_or_digit('A'));
    assert!(is_upper_or_digit('7'));
    assert!(!is_upper_or_digit('a'));
    assert!(!is_upper_or_digit('_'));
}

#[test]
fn pascal_case_tokens_keep_case() {
    assert_eq!(sorted(pascal_case_tokenize("NormalSelect")), strs(&["Normal", "Select"]));
    assert_eq!(sorted(pascal_case_tokenize("2 Busy")), strs(&["Busy"]));
}

#[test]
fn icu_tokens_are_lowercased_words() {
    assert_eq!(
        sorted(icu_tokenize("Working In Background")),
        strs(&["working", "in", "background"])
    );
    assert_eq!(icu_tokenize(""), Vec::<String>::new());
}

#[test]
fn cleaning_localized_names() {
    assert_eq!(clean_name(&"Text/Select\0\0".to_string()), "TextSelect");
    assert_eq!(clean_name(&"a\0b\0".to_string()), "a\0b");
}

fn score_of(board: &Scoreboard, c: &Cursor) -> Option<f64> {
    board.scores.get(c).map(|e| {
        let s = e.normalized();
        ratio(&s)
    })
}

#[test]
fn evaluation_scores() {
    let e = Evaluation::from_match(1, 2, 2);
    let s = e.normalized();
    assert_eq!(ratio(&s), 0.5);
    let full = Evaluation::from_match(2, 2, 2).normalized();
    assert_eq!(ratio(&full), 1.0);
    assert!(full.gt(&s));
    assert!(!s.gt(&full));
    let empty = Evaluation::empty().normalized();
    assert_eq!(num(empty.numerator()), 0.0);
    let mut m = Evaluation::empty();
    m.merge(&e);
    let ms = m.normalized();
    assert_eq!(ratio(&ms), 0.5);
}

#[test]
fn merge_best_keeps_higher_scores() {
    let mut a = Scoreboard::default();
    a.add(Cursor::Busy, &Evaluation::from_match(1, 2, 2));
    a.add(Cursor::Move, &Evaluation::from_match(2, 2, 2));
    let mut b = Scoreboard::default();
    b.add(Cursor::Busy, &Evaluation::from_match(2, 2, 2));
    b.add(Cursor::Move, &Evaluation::from_match(1, 2, 2));
    b.add(Cursor::Unknown, &Evaluation::from_match(1, 4, 1));
    a.merge_best(b);
    assert_eq!(score_of(&a, &Cursor::Busy), Some(1.0));
    assert_eq!(score_of(&a, &Cursor::Move), Some(1.0));
    assert_eq!(score_of(&a, &Cursor::Unknown), Some(0.625));
}

#[test]
fn add_merges_into_existing() {
    let mut a = Scoreboard::default();
    a.add(Cursor::Busy, &Evaluation::from_match(2, 2, 2));
    a.add(Cursor::Busy, &Evaluation::from_match(1, 2, 2));
    // (2 + 1) out of (2 + 2)
    assert_eq!(score_of(&a, &Cursor::Busy), Some(0.75));
}

fn no_names() -> Vec<Option<String>> {
    vec![None; 19]
}

#[test]
fn word_evaluator_scores_builtin_words() {
    let ev = WordEvaluator::new(&no_names());
    let board = ev.evaluate(Some("Normal Select")).unwrap();
    assert_eq!(score_of(&board, &Cursor::NormalSelect), Some(1.0));
    assert_eq!(score_of(&board, &Cursor::HelpSelect), Some(0.5));
    assert_eq!(score_of(&board, &Cursor::Busy), None);
    assert!(ev.evaluate(None).is_none());
}

#[test]
fn word_evaluator_uses_localized_names() {
    let mut names = no_names();
    names[3] = Some("Beschäftigt".to_string());
    names[18] = Some("Ignored".to_string());
    let ev = WordEvaluator::new(&names);
    let board = ev.evaluate(Some("beschäftigt")).unwrap();
    assert_eq!(score_of(&board, &Cursor::Busy), Some(1.0));
    let board = ev.evaluate(Some("ignored")).unwrap();
    assert_eq!(score_of(&board, &Cursor::Unknown), None);
}

#[test]
fn recognizer_orders_matches() {
    let rec = CursorRecognizer::new().evaluator(WordEvaluator::new(&no_names()));
    let matches = rec.recognize(Some("Normal Select"));
    assert!(matches.len() >= 2);
    assert!(matches[0].cursor.same(&Cursor::NormalSelect));
    for w in matches.windows(2) {
        assert!(!w[1].score.gt(&w[0].score));
    }
    assert!(rec.recognize(None).is_empty());
}

#[test]
fn recognizer_registry_names() {
    let rec = CursorRecognizer::new().evaluator(WordEvaluator::new(&no_names()));
    let matches = rec.recognize(Some("size_nwse"));
    assert!(matches[0].cursor.same(&Cursor::DiagonalResize1));
    let top = &matches[0].score;
    assert_eq!(ratio(top), 1.0);
}

fn sample_board() -> Scoreboard {
    let mut a = Scoreboard::default();
    a.add(Cursor::Busy, &Evaluation::from_match(1, 2, 2));
    a.add(Cursor::Move, &Evaluation::from_match(1, 4, 1));
    a
}

#[test]
fn merge_best_with_empty_or_itself_changes_nothing() {
    let mut a = sample_board();
    a.merge_best(Scoreboard::default());
    assert_eq!(score_of(&a, &Cursor::Busy), Some(0.5));
    assert_eq!(score_of(&a, &Cursor::Move), Some(0.625));
    assert_eq!(a.scores.entries().len(), 2);

    let mut b = sample_board();
    b.merge_best(sample_board());
    assert_eq!(score_of(&b, &Cursor::Busy), Some(0.5));
    assert_eq!(score_of(&b, &Cursor::Move), Some(0.625));
    assert_eq!(b.scores.entries().len(), 2);

    let mut c = Scoreboard::default();
    c.merge_best(sample_board());
    assert_eq!(score_of(&c, &Cursor::Busy), Some(0.5));
    assert_eq!(c.scores.entries().len(), 2);
}

#[test]
fn match_scores_stay_within_one() {
    for (m, e, w) in [(1, 1, 1), (1, 2, 3), (3, 3, 5), (2, 7, 2)] {
        let s = Evaluation::from_match(m, e, w).normalized();
        assert!(num(s.numerator()) > 0.0);
        assert!(ratio(&s) <= 1.0);
    }
    let s = Evaluation::from_match(4, 4, 4).normalized();
    assert_eq!(ratio(&s), 1.0);
}

#[test]
fn scores_of_any_size_stay_exact() {
    let big = usize::MAX;
    let full = Evaluation::from_match(big, big, big).normalized();
    let one = Evaluation::from_match(1, 1, 1).normalized();
    assert!(same(&full, &one));
    let half = Evaluation::from_match(big / 2, big - 1, big - 1).normalized();
    assert!(same(&half, &Evaluation::from_match(1, 2, 2).normalized()));
    assert!(full.gt(&half));
    // a sliver above one half: 2^62 + 1 shared of 2^63 on both sides
    let sliver = Evaluation::from_match((1usize << 62) + 1, 1usize << 63, 1usize << 63).normalized();
    assert!(sliver.gt(&half));
    assert!(!half.gt(&sliver));
}

#[test]
fn merging_has_no_bound() {
    let mut e = Evaluation::from_match(1, 3, 7);
    for k in 1..200usize {
        e.merge(&Evaluation::from_match(k, k + 5, k + 11));
    }
    let mut twice = e.copy();
    twice.merge(&e);
    assert!(same(&twice.normalized(), &e.normalized()));
    let mut board = Scoreboard::default();
    for _ in 0..100 {
        board.add(Cursor::Busy, &Evaluation::from_match(1, 2, 2));
    }
    assert_eq!(score_of(&board, &Cursor::Busy), Some(0.5));
}

#[test]
fn big_numbers() {
    let a = BigNat::from_u64(u64::MAX);
    let b = a.mul(&a).add(&BigNat::from_u64(1));
    assert!(a.lt(&b));
    assert!(!b.lt(&a));
    assert!(!BigNat::zero().lt(&BigNat::zero()));
    assert!(BigNat::zero().is_zero());
    assert!(!b.is_zero());
    // (2^64 - 1)^2 + 1 = 2^128 - 2^65 + 2
    let expected = (u64::MAX as f64) * (u64::MAX as f64);
    assert!((num(&b) - expected).abs() <= expected * 1e-12);
    assert_eq!(b.limbs()[0], 2);
}

#[test]
fn whitespace_is_unicode_white_space() {
    for c in (0u32..=0x10FFFF).filter_map(char::from_u32) {
        assert_eq!(cursmetic::unicode::is_whitespace(c), c.is_whitespace(), "{:?}", c);
    }
}

#[test]
fn english_names_tokenize_to_their_first_word_sets() {
    let expected: [&[&str]; 17] = [
        &["normal", "select"],
        &["help", "select"],
        &["working", "in", "background"],
        &["busy"],
        &["precision", "select"],
        &["text", "select"],
        &["handwriting"],
        &["unavailable"],
        &["vertical", "resize"],
        &["horizontal", "resize"],
        &["diagonal", "resize", "1"],
        &["diagonal", "resize", "2"],
        &["move"],
        &["alternate", "select"],
        &["link", "select"],
        &["location", "select"],
        &["person", "select"],
    ];
    for (i, cursor) in Cursor::all().iter().take(17).enumerate() {
        let name = cursor.english_display_name().unwrap();
        assert_eq!(sorted(tokenize(name)), strs(expected[i]), "{}", name);
    }
}
