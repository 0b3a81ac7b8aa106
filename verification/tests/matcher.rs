//! Tests of the matcher: case-insensitive substring selection that keeps
//! the input order and treats an empty query as match-all.

use jump_app::window::{match_windows, Window};

fn w(id: u64, name: &str) -> Window {
    Window { id, name: String::from(name) }
}

fn ids(ws: &[Window]) -> Vec<u64> {
    ws.iter().map(|x| x.id).collect()
}

#[test]
fn matches_is_case_insensitive_on_title() {
    let windows = vec![w(1, "FooBar")];
    assert_eq!(ids(&match_windows(&windows, "oba")), vec![1]);
    assert_eq!(ids(&match_windows(&windows, "OBA")), vec![1]);
    assert_eq!(ids(&match_windows(&windows, "fooBAR")), vec![1]);
    assert!(match_windows(&windows, "baz").is_empty());
}

#[test]
fn matches_mixed_case_query_and_title() {
    let upper = vec![w(7, "EMACS@HOST")];
    let lower = vec![w(7, "emacs@host")];
    for q in ["emacs", "EMACS", "eMaCs", "@HoSt"] {
        assert_eq!(ids(&match_windows(&upper, q)), vec![7]);
        assert_eq!(ids(&match_windows(&lower, q)), vec![7]);
    }
}

#[test]
fn match_set_preserves_input_order() {
    let windows = vec![w(9, "Zaphod"), w(2, "azure"), w(5, "plain"), w(1, "Bazaar")];
    assert_eq!(ids(&match_windows(&windows, "za")), vec![9, 1]);
    assert_eq!(ids(&match_windows(&windows, "a")), vec![9, 2, 5, 1]);
}

#[test]
fn empty_query_matches_all_unchanged() {
    let windows = vec![w(3, "gamma"), w(1, "alpha"), w(2, "beta")];
    let out = match_windows(&windows, "");
    assert_eq!(out, windows);
}

#[test]
fn empty_input_gives_empty_match_set() {
    let windows: Vec<Window> = Vec::new();
    assert!(match_windows(&windows, "").is_empty());
    assert!(match_windows(&windows, "x").is_empty());
}

#[test]
fn window_matches_takes_query_verbatim() {
    let win = w(4, "FooBar");
    assert!(win.matches("foo"));
    assert!(win.matches("bar"));
    // The title is lowercased, the query is not: an uppercase query can
    // only miss.
    assert!(!win.matches("Foo"));
}

#[test]
fn duplicates_propagate() {
    let windows = vec![w(1, "term"), w(1, "term")];
    assert_eq!(ids(&match_windows(&windows, "term")), vec![1, 1]);
}

#[test]
fn non_ascii_titles_match_exactly() {
    let windows = vec![w(6, "Größe — editor")];
    assert_eq!(ids(&match_windows(&windows, "größe")), vec![6]);
    // Non-ASCII characters are not case-folded.
    assert!(match_windows(&windows, "GRÖSSE").is_empty());
}
