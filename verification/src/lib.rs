//! Core logic of a window-focus dispatcher: given a query string and the
//! current list of windows, pick the windows whose titles match the query
//! (case-insensitively) and decide on exactly one action — launch a fallback
//! program, activate a window, or minimize the focused one.

pub mod dispatch;
pub mod error;
pub mod parse;
pub mod sequences;
pub mod text;
pub mod window;
