//! The dispatch policy: given the match set and the focused window id,
//! choose exactly one action. No matches launches the fallback program; a
//! single match toggles (minimize if focused, activate otherwise); several
//! matches activate the circular successor of the focused window.

use vstd::prelude::*;

use crate::window::Window;

verus! {

/// The one action an invocation performs: start the fallback program,
/// activate (raise and focus) the window with the given id, or minimize the
/// currently focused window.
#[derive(Clone, Copy, PartialEq, Eq, Structural, Debug)]
pub enum Action {
    Launch,
    Activate { id: u64 },
    Minimize,
}

/// Index of the first window of `ws` whose id is `focused`, or `ws.len()`
/// when no window has it.
pub open spec fn first_pos(ws: Seq<Window>, focused: u64) -> int
    decreases ws.len(),
{
    if ws.len() == 0 {
        0
    } else if ws[0].id == focused {
        0
    } else {
        1 + first_pos(ws.drop_first(), focused)
    }
}

pub proof fn lemma_first_pos_bounds(ws: Seq<Window>, focused: u64)
    ensures
        0 <= first_pos(ws, focused) <= ws.len(),
        first_pos(ws, focused) < ws.len() ==> ws[first_pos(ws, focused)].id == focused,
        forall|j: int| 0 <= j < first_pos(ws, focused) ==> ws[j].id != focused,
    decreases ws.len(),
{
    if ws.len() == 0 {
    } else if ws[0].id == focused {
    } else {
        lemma_first_pos_bounds(ws.drop_first(), focused);
        assert forall|j: int| 0 <= j < first_pos(ws, focused) implies ws[j].id != focused by {
            if j > 0 {
                assert(ws.drop_first()[j - 1] == ws[j]);
            }
        }
    }
}

/// `first_pos` is the unique index characterized by: everything before it
/// misses `focused`, and it either hits `focused` or is the length.
pub proof fn lemma_first_pos_is(ws: Seq<Window>, focused: u64, i: int)
    requires
        0 <= i <= ws.len(),
        forall|j: int| 0 <= j < i ==> ws[j].id != focused,
        i < ws.len() ==> ws[i].id == focused,
    ensures
        first_pos(ws, focused) == i,
    decreases ws.len(),
{
    if ws.len() == 0 {
    } else if ws[0].id == focused {
    } else {
        assert(forall|j: int| 0 <= j < i - 1 ==> ws.drop_first()[j].id != focused);
        lemma_first_pos_is(ws.drop_first(), focused, i - 1);
    }
}

/// The index of the cycle target among two or more matches: the element
/// after the focused one, wrapping from the last back to the first; the
/// first element outright when the focused id is absent.
pub open spec fn cycle_target(ws: Seq<Window>, focused: u64) -> int {
    let p = first_pos(ws, focused);
    if p == ws.len() {
        0
    } else {
        (p + 1) % (ws.len() as int)
    }
}

/// The decision, as a mathematical function of the match set and the focused
/// id: empty launches; a single match minimizes when focused, else activates
/// it; two or more matches activate the circular successor of the focused
/// one.
pub open spec fn decide_spec(ws: Seq<Window>, focused: u64) -> Action {
    if ws.len() == 0 {
        Action::Launch
    } else if ws.len() == 1 {
        if ws[0].id == focused {
            Action::Minimize
        } else {
            Action::Activate { id: ws[0].id }
        }
    } else {
        Action::Activate { id: ws[cycle_target(ws, focused)].id }
    }
}

/// Index of the first window of `ws` whose id is `focused`, or `ws.len()`
/// when none has it.
pub fn find_first_pos(ws: &Vec<Window>, focused: u64) -> (p: usize)
    ensures
        p as int == first_pos(ws@, focused),
{
    let mut i: usize = 0;
    while i < ws.len()
        invariant
            i <= ws.len(),
            forall|j: int| 0 <= j < i ==> ws@[j].id != focused,
        decreases ws.len() - i,
    {
        if ws[i].id == focused {
            proof {
                lemma_first_pos_is(ws@, focused, i as int);
            }
            return i;
        }
        i = i + 1;
    }
    proof {
        lemma_first_pos_is(ws@, focused, i as int);
    }
    i
}

/// The dispatch policy. Pure and total: it never fails, and its result is
/// exactly `decide_spec` of its arguments.
pub fn decide(matches: &Vec<Window>, focused: u64) -> (a: Action)
    ensures
        a == decide_spec(matches@, focused),
{
    if matches.len() == 0 {
        Action::Launch
    } else if matches.len() == 1 {
        if matches[0].id == focused {
            Action::Minimize
        } else {
            Action::Activate { id: matches[0].id }
        }
    } else {
        let p = find_first_pos(matches, focused);
        proof {
            lemma_first_pos_bounds(matches@, focused);
        }
        let next = if p == matches.len() {
            0
        } else {
            (p + 1) % matches.len()
        };
        Action::Activate { id: matches[next].id }
    }
}

/// No match always launches, whatever the focused id is.
pub proof fn lemma_no_match_launches(focused: u64)
    ensures
        decide_spec(Seq::<Window>::empty(), focused) == Action::Launch,
{
}

/// A single match toggles: minimize when it is the focused window, activate
/// it otherwise.
pub proof fn lemma_single_match_toggles(w: Window, focused: u64)
    ensures
        w.id == focused ==> decide_spec(seq![w], focused) == Action::Minimize,
        w.id != focused ==> decide_spec(seq![w], focused) == (Action::Activate { id: w.id }),
{
}

/// With several matches, the target is the circular successor of the focused
/// window: the element after its first occurrence, wrapping from the last
/// back to the first, and the first element outright when the focused id is
/// absent from the matches.
pub proof fn lemma_cycle_wraps(ws: Seq<Window>, focused: u64)
    requires
        ws.len() >= 2,
    ensures
        decide_spec(ws, focused) == (Action::Activate { id: ws[cycle_target(ws, focused)].id }),
        first_pos(ws, focused) < ws.len() - 1 ==> decide_spec(ws, focused) == (Action::Activate {
            id: ws[first_pos(ws, focused) + 1].id,
        }),
        first_pos(ws, focused) == ws.len() - 1 ==> decide_spec(ws, focused) == (Action::Activate {
            id: ws[0].id,
        }),
        (forall|j: int| 0 <= j < ws.len() ==> ws[j].id != focused) ==> decide_spec(ws, focused)
            == (Action::Activate { id: ws[0].id }),
{
    lemma_first_pos_bounds(ws, focused);
    let p = first_pos(ws, focused);
    if p < ws.len() - 1 {
        vstd::arithmetic::div_mod::lemma_small_mod((p + 1) as nat, ws.len());
    } else if p == ws.len() - 1 {
        vstd::arithmetic::div_mod::lemma_mod_self_0(ws.len() as int);
    }
    if forall|j: int| 0 <= j < ws.len() ==> ws[j].id != focused {
        lemma_first_pos_is(ws, focused, ws.len() as int);
    }
}

/// Determinism: the decision is a function of the match set and the focused
/// id alone; two results for the same arguments are the same result.
pub proof fn lemma_decide_deterministic(ws: Seq<Window>, focused: u64, a1: Action, a2: Action)
    requires
        a1 == decide_spec(ws, focused),
        a2 == decide_spec(ws, focused),
    ensures
        a1 == a2,
{
}

} // verus!
