//! Parsing of the window system's textual output: hexadecimal window-id
//! tokens, whitespace-separated fields, and the window-list report. A
//! malformed record means the data contract with the window system is
//! broken, so parsing aborts with an error instead of skipping the record.

use vstd::prelude::*;

use crate::error::Error;
use crate::window::Window;
use crate::text::{chars_of, string_from_chars};

verus! {

/// Value of one hexadecimal digit (`0-9`, `a-f`, `A-F`), or `-1` for any
/// other character.
pub open spec fn hex_digit_value(c: char) -> int {
    if 48 <= c as int && c as int <= 57 {  // '0'..='9'
        c as int - 48
    } else if 97 <= c as int && c as int <= 102 {  // 'a'..='f'
        c as int - 97 + 10
    } else if 65 <= c as int && c as int <= 70 {  // 'A'..='F'
        c as int - 65 + 10
    } else {
        -1
    }
}

pub open spec fn is_hex_digit(c: char) -> bool {
    hex_digit_value(c) >= 0
}

/// Numeric value of a sequence of hex digits, most significant first.
pub open spec fn hex_value(s: Seq<char>) -> int
    decreases s.len(),
{
    if s.len() == 0 {
        0
    } else {
        16 * hex_value(s.drop_last()) + hex_digit_value(s.last())
    }
}

/// A window-id token as the platform tools print it: two leading characters
/// (ordinarily `0x`), skipped unexamined, followed by at least one hex
/// digit, the whole value fitting in 64 bits.
pub open spec fn valid_id_token(t: Seq<char>) -> bool {
    &&& t.len() > 2
    &&& forall|i: int| 2 <= i < t.len() ==> is_hex_digit(#[trigger] t[i])
    &&& hex_value(t.skip(2)) < 0x1_0000_0000_0000_0000
}

/// The id a valid token denotes.
pub open spec fn id_value(t: Seq<char>) -> int {
    hex_value(t.skip(2))
}

/// Extending a nonnegative hex prefix by hex digits never shrinks its value.
proof fn lemma_hex_value_grows(s: Seq<char>, k: int)
    requires
        0 <= k <= s.len(),
        hex_value(s.take(k)) >= 0,
        forall|j: int| k <= j < s.len() ==> is_hex_digit(#[trigger] s[j]),
    ensures
        hex_value(s) >= hex_value(s.take(k)),
    decreases s.len() - k,
{
    if k == s.len() {
        assert(s.take(k) =~= s);
    } else {
        assert(s.take(k + 1).drop_last() =~= s.take(k));
        assert(s.take(k + 1).last() == s[k]);
        lemma_hex_value_grows(s, k + 1);
    }
}

/// Decode one hexadecimal digit.
fn hex_digit_of(c: char) -> (r: Option<u8>)
    ensures
        match r {
            Some(d) => is_hex_digit(c) && d == hex_digit_value(c),
            None => !is_hex_digit(c),
        },
{
    let u = c as u32;
    if 48 <= u && u <= 57 {
        Some((u - 48) as u8)
    } else if 97 <= u && u <= 102 {
        Some((u - 97 + 10) as u8)
    } else if 65 <= u && u <= 70 {
        Some((u - 65 + 10) as u8)
    } else {
        None
    }
}

/// As `parse_window_id`, over a character vector.
pub fn parse_window_id_chars(t: &Vec<char>) -> (r: Result<u64, Error>)
    ensures
        match r {
            Ok(v) => valid_id_token(t@) && v == id_value(t@),
            Err(e) => !valid_id_token(t@) && e is Parse,
        },
{
    if t.len() <= 2 {
        return Err(Error::Parse { token: string_from_chars(t) });
    }
    let mut i: usize = 2;
    while i < t.len()
        invariant
            2 <= i <= t.len(),
            forall|j: int| 2 <= j < i ==> is_hex_digit(#[trigger] t@[j]),
        decreases t.len() - i,
    {
        if hex_digit_of(t[i]).is_none() {
            return Err(Error::Parse { token: string_from_chars(t) });
        }
        i = i + 1;
    }
    let mut acc: u64 = 0;
    let mut i: usize = 2;
    while i < t.len()
        invariant
            2 <= i <= t.len(),
            t.len() > 2,
            forall|j: int| 2 <= j < t.len() ==> is_hex_digit(#[trigger] t@[j]),
            acc == hex_value(t@.subrange(2, i as int)),
        decreases t.len() - i,
    {
        // The first pass established that every position holds a hex digit,
        // so this arm cannot be reached.
        let d = match hex_digit_of(t[i]) {
            Some(d) => d,
            None => {
                proof {
                    assert(false);
                }
                0
            },
        };
        if acc >= 0x1000_0000_0000_0000 {
            proof {
                let s = t@.skip(2);
                let k = i - 1;  // i + 1 - 2 digits of the extended prefix
                assert(s.take(k) =~= t@.subrange(2, i + 1));
                assert(s.take(k).drop_last() =~= t@.subrange(2, i as int));
                assert(s.take(k).last() == t@[i as int]);
                assert(hex_value(s.take(k)) == 16 * (acc as int) + hex_digit_value(t@[i as int]));
                assert forall|j: int| k <= j < s.len() implies is_hex_digit(#[trigger] s[j]) by {
                    assert(s[j] == t@[j + 2]);
                }
                lemma_hex_value_grows(s, k);
                assert(hex_value(s) >= 0x1_0000_0000_0000_0000);
            }
            return Err(Error::Parse { token: string_from_chars(t) });
        }
        acc = acc * 16 + (d as u64);
        i = i + 1;
        proof {
            assert(t@.subrange(2, i as int).drop_last() =~= t@.subrange(2, i - 1));
            assert(t@.subrange(2, i as int).last() == t@[i - 1]);
        }
    }
    proof {
        assert(t@.subrange(2, t@.len() as int) =~= t@.skip(2));
    }
    Ok(acc)
}

/// Token separators: space, tab, carriage return and line feed. Within one
/// report line only the first three occur; the line feed matters when a
/// whole multi-line report is tokenized at once.
pub open spec fn is_space(c: char) -> bool {
    c == ' ' || c == '\t' || c == '\r' || c == '\n'
}

fn is_space_exec(c: char) -> (b: bool)
    ensures
        b == is_space(c),
{
    c == ' ' || c == '\t' || c == '\r' || c == '\n'
}

/// The maximal runs of non-separator characters of `s`, in order.
pub open spec fn split_tokens(s: Seq<char>) -> Seq<Seq<char>>
    decreases s.len(),
{
    if s.len() == 0 {
        Seq::<Seq<char>>::empty()
    } else if is_space(s[0]) {
        split_tokens(s.drop_first())
    } else {
        let rest = split_tokens(s.drop_first());
        if s.len() > 1 && !is_space(s[1]) {
            seq![seq![s[0]] + rest[0]] + rest.drop_first()
        } else {
            seq![seq![s[0]]] + rest
        }
    }
}

/// A sequence starting with a non-separator splits into at least one token.
proof fn lemma_split_tokens_some(s: Seq<char>)
    requires
        s.len() > 0,
        !is_space(s[0]),
    ensures
        split_tokens(s).len() >= 1,
{
}

/// The pieces of `s` between the newline characters, in order; every `\n`
/// is a separator, so there is always one piece more than there are
/// newlines.
pub open spec fn split_lines(s: Seq<char>) -> Seq<Seq<char>>
    decreases s.len(),
{
    if s.len() == 0 {
        seq![Seq::<char>::empty()]
    } else if s[0] == '\n' {
        seq![Seq::<char>::empty()] + split_lines(s.drop_first())
    } else {
        let rest = split_lines(s.drop_first());
        seq![seq![s[0]] + rest[0]] + rest.drop_first()
    }
}

proof fn lemma_split_lines_some(s: Seq<char>)
    ensures
        split_lines(s).len() >= 1,
{
}

/// Split `v` into whitespace-separated tokens.
pub fn tokens_of(v: &Vec<char>) -> (ts: Vec<Vec<char>>)
    ensures
        ts.deep_view() == split_tokens(v@),
{
    let mut ts: Vec<Vec<char>> = Vec::new();
    let mut i: usize = v.len();
    proof {
        assert(v@.skip(v@.len() as int) =~= Seq::<char>::empty());
        assert(ts.deep_view() =~~= split_tokens(v@.skip(i as int)));
    }
    while i > 0
        invariant
            i <= v.len(),
            ts.deep_view() == split_tokens(v@.skip(i as int)),
        decreases i,
    {
        i = i - 1;
        let c = v[i];
        proof {
            let s = v@.skip(i as int);
            assert(s.drop_first() =~= v@.skip(i + 1));
            assert(s[0] == v@[i as int]);
        }
        if is_space_exec(c) {
        } else if i + 1 < v.len() && !is_space_exec(v[i + 1]) {
            proof {
                lemma_split_tokens_some(v@.skip(i + 1));
            }
            let mut first = ts.remove(0);
            first.insert(0, c);
            ts.insert(0, first);
            proof {
                assert(ts.deep_view() =~~= split_tokens(v@.skip(i as int)));
            }
        } else {
            let mut nt: Vec<char> = Vec::new();
            nt.push(c);
            ts.insert(0, nt);
            proof {
                assert(ts.deep_view() =~~= split_tokens(v@.skip(i as int)));
            }
        }
    }
    proof {
        assert(v@.skip(0) =~= v@);
    }
    ts
}

/// Split `v` at every newline.
pub fn lines_of(v: &Vec<char>) -> (ls: Vec<Vec<char>>)
    ensures
        ls.deep_view() == split_lines(v@),
{
    let mut ls: Vec<Vec<char>> = Vec::new();
    ls.push(Vec::new());
    let mut i: usize = v.len();
    proof {
        assert(v@.skip(v@.len() as int) =~= Seq::<char>::empty());
        assert(ls.deep_view() =~~= split_lines(v@.skip(i as int)));
    }
    while i > 0
        invariant
            i <= v.len(),
            ls.deep_view() == split_lines(v@.skip(i as int)),
        decreases i,
    {
        i = i - 1;
        let c = v[i];
        proof {
            let s = v@.skip(i as int);
            assert(s.drop_first() =~= v@.skip(i + 1));
            assert(s[0] == v@[i as int]);
        }
        if c == '\n' {
            ls.insert(0, Vec::new());
            proof {
                assert(ls.deep_view() =~~= split_lines(v@.skip(i as int)));
            }
        } else {
            proof {
                lemma_split_lines_some(v@.skip(i + 1));
            }
            let mut first = ls.remove(0);
            first.insert(0, c);
            ls.insert(0, first);
            proof {
                assert(ls.deep_view() =~~= split_lines(v@.skip(i as int)));
            }
        }
    }
    proof {
        assert(v@.skip(0) =~= v@);
    }
    ls
}

/// Parse a window-id token: skip the first two characters (ordinarily the
/// `0x` prefix) and read the rest as a 64-bit hexadecimal number. Any token
/// not in that shape is a `Parse` error.
pub fn parse_window_id(id: &str) -> (r: Result<u64, Error>)
    ensures
        match r {
            Ok(v) => valid_id_token(id@) && v == id_value(id@),
            Err(e) => !valid_id_token(id@) && e is Parse,
        },
{
    let t = chars_of(id);
    parse_window_id_chars(&t)
}

/// The deep view of a vector of character vectors reads back element by
/// element.
proof fn lemma_deep_index(ts: Vec<Vec<char>>, m: int)
    requires
        0 <= m < ts@.len(),
    ensures
        ts.deep_view().len() == ts@.len(),
        ts.deep_view()[m] == ts@[m]@,
{
    assert(ts.deep_view()[m] =~= ts@[m]@);
}

/// A report line describes a window to list: it has at least two fields and
/// its second field (the desktop number) is exactly `0`.
pub open spec fn kept_line(l: Seq<char>) -> bool {
    let t = split_tokens(l);
    t.len() >= 2 && t[1] == seq!['0']
}

/// A kept line is well formed: an id field, the desktop field, and a name
/// field, with the id field a valid window-id token.
pub open spec fn line_ok(l: Seq<char>) -> bool {
    let t = split_tokens(l);
    t.len() >= 3 && valid_id_token(t[0])
}

/// The id a well-formed line carries.
pub open spec fn line_id(l: Seq<char>) -> int {
    id_value(split_tokens(l)[0])
}

/// The window name a well-formed line carries (its third field).
pub open spec fn line_name(l: Seq<char>) -> Seq<char> {
    split_tokens(l)[2]
}

/// The error a malformed kept line produces: a missing field is an
/// acquisition fault, a bad id token a parse fault.
pub open spec fn line_fault_matches(l: Seq<char>, e: Error) -> bool {
    if split_tokens(l).len() < 3 {
        e is Acquisition
    } else {
        e is Parse
    }
}

/// The kept lines of a report, in their original order.
pub open spec fn kept_lines(ls: Seq<Seq<char>>) -> Seq<Seq<char>>
    decreases ls.len(),
{
    if ls.len() == 0 {
        Seq::<Seq<char>>::empty()
    } else {
        let rest = kept_lines(ls.drop_last());
        if kept_line(ls.last()) {
            rest.push(ls.last())
        } else {
            rest
        }
    }
}

/// Keeping lines commutes with concatenation.
proof fn lemma_kept_lines_append(a: Seq<Seq<char>>, b: Seq<Seq<char>>)
    ensures
        kept_lines(a + b) == kept_lines(a) + kept_lines(b),
    decreases b.len(),
{
    if b.len() == 0 {
        assert(a + b =~= a);
        assert(kept_lines(a) + kept_lines(b) =~= kept_lines(a));
    } else {
        lemma_kept_lines_append(a, b.drop_last());
        assert((a + b).drop_last() =~= a + b.drop_last());
        assert((a + b).last() == b.last());
        if kept_line(b.last()) {
            assert(kept_lines(a + b) =~= kept_lines(a) + kept_lines(b));
        } else {
            assert(kept_lines(a + b) =~= kept_lines(a) + kept_lines(b));
        }
    }
}

/// Parse the window-list report: one window per line whose second field is
/// `0`, taking the first field as the window's hexadecimal id and the third
/// as its name. The first malformed kept line aborts the parse — a missing
/// field as an `Acquisition` error, a bad id token as a `Parse` error.
pub fn parse_window_list(out: &str) -> (r: Result<Vec<Window>, Error>)
    ensures
        ({
            let kept = kept_lines(split_lines(out@));
            match r {
                Ok(ws) => {
                    &&& forall|m: int| 0 <= m < kept.len() ==> line_ok(#[trigger] kept[m])
                    &&& ws@.len() == kept.len()
                    &&& forall|m: int|
                        0 <= m < kept.len() ==> ws@[m].id == line_id(#[trigger] kept[m])
                    &&& forall|m: int|
                        0 <= m < kept.len() ==> ws@[m].name@ == line_name(#[trigger] kept[m])
                },
                Err(e) => exists|k: int|
                    {
                        &&& 0 <= k < kept.len()
                        &&& !line_ok(#[trigger] kept[k])
                        &&& (forall|j: int| 0 <= j < k ==> line_ok(#[trigger] kept[j]))
                        &&& line_fault_matches(kept[k], e)
                    },
            }
        }),
{
    let v = chars_of(out);
    let lines = lines_of(&v);
    let ghost lsv = split_lines(out@);
    let mut ws: Vec<Window> = Vec::new();
    let mut i: usize = 0;
    proof {
        assert(lsv.take(0) =~= Seq::<Seq<char>>::empty());
    }
    while i < lines.len()
        invariant
            i <= lines.len(),
            lines.deep_view() == lsv,
            lsv == split_lines(out@),
            forall|m: int|
                0 <= m < kept_lines(lsv.take(i as int)).len() ==> line_ok(
                    #[trigger] kept_lines(lsv.take(i as int))[m],
                ),
            ws@.len() == kept_lines(lsv.take(i as int)).len(),
            forall|m: int|
                0 <= m < ws@.len() ==> ws@[m].id == line_id(
                    #[trigger] kept_lines(lsv.take(i as int))[m],
                ),
            forall|m: int|
                0 <= m < ws@.len() ==> ws@[m].name@ == line_name(
                    #[trigger] kept_lines(lsv.take(i as int))[m],
                ),
        decreases lines.len() - i,
    {
        let line = &lines[i];
        let toks = tokens_of(line);
        proof {
            assert(line@ == lsv[i as int]);
            assert(toks.deep_view() == split_tokens(lsv[i as int]));
            assert(lsv.take(i + 1).drop_last() =~= lsv.take(i as int));
            assert(lsv.take(i + 1).last() == lsv[i as int]);
        }
        let is_kept = toks.len() >= 2 && toks[1].len() == 1 && toks[1][0] == '0';
        proof {
            if toks@.len() >= 2 {
                lemma_deep_index(toks, 1);
                if is_kept {
                    assert(toks.deep_view()[1] =~= seq!['0']);
                } else if toks.deep_view()[1] == seq!['0'] {
                    assert(toks@[1]@.len() == 1 && toks@[1]@[0] == '0');
                }
            }
            assert(is_kept == kept_line(lsv[i as int]));
        }
        if is_kept {
            proof {
                let kp = kept_lines(lsv.take(i as int));
                let a = lsv.take(i + 1);
                let b = lsv.skip(i + 1);
                assert(lsv =~= a + b);
                lemma_kept_lines_append(a, b);
                assert(kept_lines(a) =~= kp.push(lsv[i as int]));
                assert(kept_lines(lsv)[kp.len() as int] == lsv[i as int]);
                assert(forall|j: int|
                    0 <= j < kp.len() ==> kept_lines(lsv)[j] == #[trigger] kp[j]);
            }
            if toks.len() < 3 {
                let e = Error::Acquisition { detail: string_from_chars(line) };
                proof {
                    let kept = kept_lines(lsv);
                    let k = kept_lines(lsv.take(i as int)).len() as int;
                    assert(!line_ok(kept[k]) && line_fault_matches(kept[k], e));
                }
                return Err(e);
            }
            match parse_window_id_chars(&toks[0]) {
                Err(e) => {
                    proof {
                        lemma_deep_index(toks, 0);
                        assert(toks@[0]@ == split_tokens(lsv[i as int])[0]);
                        let kept = kept_lines(lsv);
                        let k = kept_lines(lsv.take(i as int)).len() as int;
                        assert(!line_ok(kept[k]) && line_fault_matches(kept[k], e));
                    }
                    return Err(e);
                },
                Ok(id) => {
                    proof {
                        lemma_deep_index(toks, 0);
                        lemma_deep_index(toks, 2);
                        assert(toks@[0]@ == split_tokens(lsv[i as int])[0]);
                        assert(toks@[2]@ == split_tokens(lsv[i as int])[2]);
                    }
                    let name = string_from_chars(&toks[2]);
                    ws.push(Window { id, name });
                },
            }
        }
        i = i + 1;
    }
    proof {
        assert(lsv.take(lsv.len() as int) =~= lsv);
    }
    Ok(ws)
}

/// Parse the focused-window report: its last whitespace-separated token is
/// the focused window's id. No token at all is an `Acquisition` error; a
/// token that is not a window id is a `Parse` error.
pub fn parse_focused(out: &str) -> (r: Result<u64, Error>)
    ensures
        ({
            let toks = split_tokens(out@);
            match r {
                Ok(v) => toks.len() > 0 && valid_id_token(toks.last()) && v == id_value(
                    toks.last(),
                ),
                Err(e) => {
                    ||| toks.len() == 0 && e is Acquisition
                    ||| toks.len() > 0 && !valid_id_token(toks.last()) && e is Parse
                },
            }
        }),
{
    let v = chars_of(out);
    let ts = tokens_of(&v);
    if ts.len() == 0 {
        return Err(Error::Acquisition { detail: string_from_chars(&v) });
    }
    let last = ts.len() - 1;
    proof {
        lemma_deep_index(ts, last as int);
        assert(ts@[last as int]@ == split_tokens(out@).last());
    }
    parse_window_id_chars(&ts[last])
}

} // verus!
