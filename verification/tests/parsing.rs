//! Tests of the acquisition parsers: hexadecimal window-id tokens, the
//! window-list report, and the focused-window report, with every error
//! variant exercised.

use jump_app::error::{error_to_exit_code, Error, FAILURE_EXIT_CODE};
use jump_app::parse::{parse_focused, parse_window_id, parse_window_list};

#[test]
fn window_id_parses_hex_after_prefix() {
    assert_eq!(parse_window_id("0x1a2B").unwrap(), 0x1a2b);
    assert_eq!(parse_window_id("0x04000007").unwrap(), 0x04000007);
    assert_eq!(parse_window_id("0x0").unwrap(), 0);
    assert_eq!(parse_window_id("0xFFFFFFFFFFFFFFFF").unwrap(), u64::MAX);
}

#[test]
fn window_id_skips_first_two_characters_unexamined() {
    // The first two characters are not checked, as with the original
    // radix-16 parse of everything after them.
    assert_eq!(parse_window_id("zzff").unwrap(), 0xff);
}

#[test]
fn window_id_rejects_short_tokens() {
    assert!(matches!(parse_window_id(""), Err(Error::Parse { .. })));
    assert!(matches!(parse_window_id("0x"), Err(Error::Parse { .. })));
    assert!(matches!(parse_window_id("ab"), Err(Error::Parse { .. })));
}

#[test]
fn window_id_rejects_non_hex_digits() {
    assert!(matches!(parse_window_id("0xg"), Err(Error::Parse { .. })));
    assert!(matches!(parse_window_id("0x12 4"), Err(Error::Parse { .. })));
    assert!(matches!(parse_window_id("0x-1"), Err(Error::Parse { .. })));
}

#[test]
fn window_id_rejects_overflow() {
    assert!(matches!(parse_window_id("0x10000000000000000"), Err(Error::Parse { .. })));
    // Leading zeroes keep the value in range, however many digits there are.
    assert_eq!(parse_window_id("0x000000000000000000ff").unwrap(), 0xff);
}

#[test]
fn window_list_keeps_desktop_zero_lines() {
    let out = "0x04000007  0 navigator.Firefox  host Mozilla Firefox\n\
               0x05000001  1 term.Term  host scratch\n\
               0x0600000a  0 emacs.Emacs  host notes.org\n";
    let ws = parse_window_list(out).unwrap();
    assert_eq!(ws.len(), 2);
    assert_eq!(ws[0].id, 0x04000007);
    assert_eq!(ws[0].name, "navigator.Firefox");
    assert_eq!(ws[1].id, 0x0600000a);
    assert_eq!(ws[1].name, "emacs.Emacs");
}

#[test]
fn window_list_empty_report_gives_no_windows() {
    assert!(parse_window_list("").unwrap().is_empty());
    assert!(parse_window_list("\n\n").unwrap().is_empty());
}

#[test]
fn window_list_ignores_other_desktops_and_short_lines() {
    let out = "0x1 -1 sticky\nlost\n0x2  3 elsewhere.App  host x\n";
    assert!(parse_window_list(out).unwrap().is_empty());
}

#[test]
fn window_list_bad_id_is_a_parse_error() {
    let out = "0xnope 0 name.Class host title\n";
    assert!(matches!(parse_window_list(out), Err(Error::Parse { .. })));
}

#[test]
fn window_list_missing_name_is_an_acquisition_error() {
    let out = "0x1a 0\n";
    assert!(matches!(parse_window_list(out), Err(Error::Acquisition { .. })));
}

#[test]
fn window_list_stops_at_first_malformed_kept_line() {
    let out = "0x1 0 one.App\n0xbad! 0 two.App\n0x3 0 three.App\n";
    assert!(matches!(parse_window_list(out), Err(Error::Parse { .. })));
}

#[test]
fn focused_takes_the_last_token() {
    let out = "_NET_ACTIVE_WINDOW(WINDOW): window id # 0x4a0000b";
    assert_eq!(parse_focused(out).unwrap(), 0x4a0000b);
    assert_eq!(parse_focused("0x10\n").unwrap(), 0x10);
}

#[test]
fn focused_without_tokens_is_an_acquisition_error() {
    assert!(matches!(parse_focused(""), Err(Error::Acquisition { .. })));
    assert!(matches!(parse_focused("  \n "), Err(Error::Acquisition { .. })));
}

#[test]
fn focused_bad_token_is_a_parse_error() {
    let out = "_NET_ACTIVE_WINDOW(WINDOW): window id # 0x";
    assert!(matches!(parse_focused(out), Err(Error::Parse { .. })));
}

#[test]
fn every_error_maps_to_the_failure_exit_code() {
    let errors = [
        Error::Acquisition { detail: String::from("no backend") },
        Error::Parse { token: String::from("0x") },
        Error::Launch { detail: String::from("missing executable") },
        Error::Action { detail: String::from("activate failed") },
    ];
    for e in &errors {
        assert_eq!(error_to_exit_code(e), FAILURE_EXIT_CODE);
        assert_ne!(error_to_exit_code(e), 0);
    }
}
