use cursmetic::cursor::Cursor;
use cursmetic::cursor_map::CursorPathMap;
use cursmetic::suggestion::{apply_choice, Choice};
use cursmetic::eval::Evaluation;
use cursmetic::suggestion::{best_suggestion, is_cursor_extension, sort_suggestions, Suggestion};

fn sug(path: &str, matched: usize, expected: usize, words: usize) -> Suggestion {
    Suggestion {
        path: path.to_string(),
        score: Evaluation::from_match(matched, expected, words).normalized(),
    }
}

#[test]
fn cursor_extensions() {
    assert!(is_cursor_extension("ani"));
    assert!(is_cursor_extension("cur"));
    assert!(!is_cursor_extension("CUR"));
    assert!(!is_cursor_extension("png"));
    assert!(!is_cursor_extension(""));
}

#[test]
fn sorting_is_stable_and_descending() {
    let v = vec![sug("a", 1, 4, 4), sug("b", 2, 2, 2), sug("c", 1, 2, 2), sug("d", 2, 2, 2)];
    let s = sort_suggestions(v);
    let paths: Vec<&str> = s.iter().map(|x| x.path.as_str()).collect();
    assert_eq!(paths, vec!["b", "d", "c", "a"]);
}

#[test]
fn best_reaches_threshold() {
    // scores: 0.25, 1.0, 0.5, 1.0
    let v = vec![sug("a", 1, 4, 4), sug("b", 2, 2, 2), sug("c", 1, 2, 2), sug("d", 2, 2, 2)];
    assert_eq!(best_suggestion(&v), Some(1));
    let low = vec![sug("a", 1, 4, 4), sug("e", 1, 5, 5)];
    assert_eq!(best_suggestion(&low), None);
    // 0.3 exactly: 3 shared of 10 and 10
    let edge = vec![sug("t", 3, 10, 10)];
    assert_eq!(best_suggestion(&edge), Some(0));
    assert_eq!(best_suggestion(&Vec::new()), None);
}

#[test]
fn equal_scores_keep_their_order_whatever_the_fraction() {
    // 2/2 and 8/8 are the same score; 1/2 is written as 4/8 and 6/12.
    let v = vec![
        sug("x", 1, 2, 2),
        sug("p", 1, 1, 1),
        sug("y", 1, 2, 2),
        sug("q", 2, 2, 2),
        sug("z", 3, 6, 6),
    ];
    let s = sort_suggestions(v);
    let paths: Vec<&str> = s.iter().map(|x| x.path.as_str()).collect();
    assert_eq!(paths, vec!["p", "q", "x", "y", "z"]);
    assert_eq!(best_suggestion(&s), Some(0));
}

#[test]
fn choices_update_the_chosen_files() {
    let mut m = CursorPathMap::new();
    apply_choice(&mut m, Cursor::Busy, Choice::Path("busy.ani".to_string()));
    assert_eq!(m.get(&Cursor::Busy), Some(&"busy.ani".to_string()));
    apply_choice(&mut m, Cursor::Busy, Choice::Path("wait.ani".to_string()));
    assert_eq!(m.get(&Cursor::Busy), Some(&"wait.ani".to_string()));
    apply_choice(&mut m, Cursor::Busy, Choice::Cancel);
    assert_eq!(m.get(&Cursor::Busy), Some(&"wait.ani".to_string()));
    apply_choice(&mut m, Cursor::Busy, Choice::Empty);
    assert_eq!(m.get(&Cursor::Busy), None);
    assert_eq!(m.entries().len(), 0);
}
