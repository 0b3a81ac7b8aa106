//! Tests of the dispatch policy: launch on no match, toggle on a single
//! match, circular cycling on several matches, and determinism.

use jump_app::dispatch::{decide, find_first_pos, Action};
use jump_app::window::{match_windows, Window};

fn w(id: u64, name: &str) -> Window {
    Window { id, name: String::from(name) }
}

#[test]
fn no_match_always_launches() {
    let empty: Vec<Window> = Vec::new();
    for focused in [0u64, 1, 5, 42, u64::MAX] {
        assert_eq!(decide(&empty, focused), Action::Launch);
    }
}

#[test]
fn single_match_focused_minimizes() {
    let matches = vec![w(5, "Foo")];
    assert_eq!(decide(&matches, 5), Action::Minimize);
}

#[test]
fn single_match_unfocused_activates() {
    let matches = vec![w(5, "Foo")];
    assert_eq!(decide(&matches, 9), Action::Activate { id: 5 });
    assert_eq!(decide(&matches, 0), Action::Activate { id: 5 });
}

#[test]
fn cycle_advances_to_successor() {
    let matches = vec![w(1, "a"), w(2, "b"), w(3, "c")];
    assert_eq!(decide(&matches, 1), Action::Activate { id: 2 });
    assert_eq!(decide(&matches, 2), Action::Activate { id: 3 });
}

#[test]
fn cycle_wraps_from_last_to_first() {
    let matches = vec![w(1, "a"), w(2, "b"), w(3, "c")];
    assert_eq!(decide(&matches, 3), Action::Activate { id: 1 });
}

#[test]
fn cycle_with_absent_focused_lands_on_first() {
    let matches = vec![w(1, "a"), w(2, "b"), w(3, "c")];
    assert_eq!(decide(&matches, 42), Action::Activate { id: 1 });
}

#[test]
fn cycle_never_minimizes() {
    let matches = vec![w(1, "a"), w(2, "b")];
    for focused in [1u64, 2, 3] {
        assert!(matches!(decide(&matches, focused), Action::Activate { .. }));
    }
}

#[test]
fn two_matches_toggle_between_each_other() {
    let matches = vec![w(10, "x"), w(20, "y")];
    assert_eq!(decide(&matches, 10), Action::Activate { id: 20 });
    assert_eq!(decide(&matches, 20), Action::Activate { id: 10 });
}

#[test]
fn decide_is_deterministic() {
    let matches = vec![w(1, "a"), w(2, "b"), w(3, "c")];
    for focused in [0u64, 1, 2, 3, 42] {
        let first = decide(&matches, focused);
        for _ in 0..5 {
            assert_eq!(decide(&matches, focused), first);
        }
    }
}

#[test]
fn match_then_decide_end_to_end() {
    let windows = vec![
        w(0x10, "term.Alacritty"),
        w(0x20, "navigator.Firefox"),
        w(0x30, "scratch-term.Alacritty"),
    ];
    // No title contains "emacs": the dispatcher launches.
    assert_eq!(decide(&match_windows(&windows, "emacs"), 0x10), Action::Launch);
    // Exactly one match: toggle on the focused id.
    assert_eq!(decide(&match_windows(&windows, "firefox"), 0x20), Action::Minimize);
    assert_eq!(decide(&match_windows(&windows, "firefox"), 0x10), Action::Activate { id: 0x20 });
    // Two matches: cycle among them.
    assert_eq!(decide(&match_windows(&windows, "term"), 0x10), Action::Activate { id: 0x30 });
    assert_eq!(decide(&match_windows(&windows, "term"), 0x30), Action::Activate { id: 0x10 });
    assert_eq!(decide(&match_windows(&windows, "term"), 0x99), Action::Activate { id: 0x10 });
}

#[test]
fn first_pos_finds_first_occurrence() {
    let matches = vec![w(4, "a"), w(7, "b"), w(4, "c")];
    assert_eq!(find_first_pos(&matches, 4), 0);
    assert_eq!(find_first_pos(&matches, 7), 1);
    assert_eq!(find_first_pos(&matches, 9), 3);
}
