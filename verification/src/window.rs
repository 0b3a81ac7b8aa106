//! The window data model and the matcher: a window is a numeric id plus a
//! title, and a query selects the windows whose titles contain it
//! case-insensitively, keeping the original order.

use vstd::prelude::*;

use crate::sequences::{lemma_subsequence_push, subsequence_of};
use crate::text::{chars_of, is_substring, lower_seq, lower_vec, seq_contains};

verus! {

/// One top-level window at the instant of the query: a platform-assigned
/// numeric id and a title string.
#[derive(Debug)]
pub struct Window {
    pub id: u64,
    pub name: String,
}

impl Clone for Window {
    fn clone(&self) -> (r: Self)
        ensures
            r == *self,
    {
        Window { id: self.id, name: self.name.clone() }
    }
}

impl PartialEq for Window {
    fn eq(&self, other: &Self) -> (r: bool) {
        self.id == other.id && self.name == other.name
    }
}

impl vstd::std_specs::cmp::PartialEqSpecImpl for Window {
    open spec fn obeys_eq_spec() -> bool {
        true
    }

    open spec fn eq_spec(&self, other: &Self) -> bool {
        self.id == other.id && self.name@ == other.name@
    }
}

/// The title of `w` contains `q` (already lowercased) case-insensitively.
pub open spec fn title_matches(w: Window, q: Seq<char>) -> bool {
    is_substring(lower_seq(w.name@), q)
}

/// The windows of `ws` whose titles contain `q` case-insensitively, in their
/// original order.
pub open spec fn match_spec(ws: Seq<Window>, q: Seq<char>) -> Seq<Window>
    decreases ws.len(),
{
    if ws.len() == 0 {
        Seq::<Window>::empty()
    } else {
        let rest = match_spec(ws.drop_last(), q);
        if title_matches(ws.last(), lower_seq(q)) {
            rest.push(ws.last())
        } else {
            rest
        }
    }
}

impl Window {
    /// Does this window's title contain `name`, comparing the title
    /// ASCII-lowercased? `name` is expected already lowercased by the caller.
    pub fn matches(&self, name: &str) -> (b: bool)
        ensures
            b == title_matches(*self, name@),
    {
        let q = chars_of(name);
        self.matches_lowered(&q)
    }

    /// As `matches`, with the query given as a character vector.
    pub fn matches_lowered(&self, q: &Vec<char>) -> (b: bool)
        ensures
            b == title_matches(*self, q@),
    {
        let t = chars_of(self.name.as_str());
        let lt = lower_vec(&t);
        seq_contains(&lt, q)
    }
}

/// The matcher: keep the windows whose titles contain `query`
/// case-insensitively, preserving the input order and never failing — an
/// empty result simply means "no match".
pub fn match_windows(windows: &Vec<Window>, query: &str) -> (r: Vec<Window>)
    ensures
        r@ == match_spec(windows@, query@),
{
    let q = chars_of(query);
    let lq = lower_vec(&q);
    let mut r: Vec<Window> = Vec::new();
    let mut i: usize = 0;
    while i < windows.len()
        invariant
            i <= windows.len(),
            lq@ == lower_seq(query@),
            r@ == match_spec(windows@.take(i as int), query@),
        decreases windows.len() - i,
    {
        let w = &windows[i];
        proof {
            let pre = windows@.take(i + 1);
            assert(pre.drop_last() =~= windows@.take(i as int));
            assert(pre.last() == windows@[i as int]);
        }
        if w.matches_lowered(&lq) {
            r.push(w.clone());
        }
        i = i + 1;
    }
    proof {
        assert(windows@.take(windows@.len() as int) =~= windows@);
    }
    r
}

/// Case-insensitivity: a one-window query result is non-empty exactly when
/// the lowercased title contains the lowercased query.
pub proof fn lemma_match_single(w: Window, q: Seq<char>)
    ensures
        match_spec(seq![w], q).len() > 0 <==> is_substring(lower_seq(w.name@), lower_seq(q)),
{
    assert(seq![w].drop_last() =~= Seq::<Window>::empty());
    assert(seq![w].last() == w);
    assert(match_spec(Seq::<Window>::empty(), q) =~= Seq::<Window>::empty());
}

/// Matching depends only on the lowercased title and the lowercased query:
/// changing the case of either changes nothing.
pub proof fn lemma_match_case_blind(t1: Window, t2: Window, q1: Seq<char>, q2: Seq<char>)
    requires
        lower_seq(t1.name@) == lower_seq(t2.name@),
        lower_seq(q1) == lower_seq(q2),
    ensures
        title_matches(t1, lower_seq(q1)) == title_matches(t2, lower_seq(q2)),
{
}

/// Order preservation: the match set is a subsequence of the input, in the
/// input's order.
pub proof fn lemma_match_preserves_order(ws: Seq<Window>, q: Seq<char>)
    ensures
        subsequence_of(match_spec(ws, q), ws),
    decreases ws.len(),
{
    if ws.len() == 0 {
    } else {
        lemma_match_preserves_order(ws.drop_last(), q);
        let rest = match_spec(ws.drop_last(), q);
        if title_matches(ws.last(), lower_seq(q)) {
            let whole = rest.push(ws.last());
            assert(whole.drop_last() =~= rest);
            assert(whole.last() == ws.last());
        } else {
            lemma_subsequence_push(rest, ws.drop_last(), ws.last());
            assert(ws.drop_last().push(ws.last()) =~= ws);
        }
    }
}

/// An empty query matches every window: the result is the input, unchanged.
pub proof fn lemma_empty_query_matches_all(ws: Seq<Window>)
    ensures
        match_spec(ws, Seq::<char>::empty()) == ws,
    decreases ws.len(),
{
    assert(lower_seq(Seq::<char>::empty()) =~= Seq::<char>::empty());
    if ws.len() == 0 {
        assert(match_spec(ws, Seq::<char>::empty()) =~= ws);
    } else {
        lemma_empty_query_matches_all(ws.drop_last());
        crate::text::lemma_empty_is_substring(lower_seq(ws.last().name@));
        assert(ws.drop_last().push(ws.last()) =~= ws);
        assert(match_spec(ws, Seq::<char>::empty()) =~= ws);
    }
}

} // verus!
