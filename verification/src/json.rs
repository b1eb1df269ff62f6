//! The wire format of the toggle protocol: one-object JSON messages
//! with an `action` and a `filename` string field.
//!
//! `spec_message` defines the emitted encoding (no whitespace, `action`
//! first, control characters escaped). `spec_parse` defines the accepted
//! language, which is wider: whitespace between tokens, the two members
//! in either order, and the standard JSON string escapes — the named
//! ones and `\u` with four hex digits, a surrogate pair standing for
//! one supplementary character. Members besides the two known ones are
//! ignored; their values may be strings, numbers, `true`, `false` or
//! `null`, though not nested objects or arrays. A repeated known
//! member, a known member with a non-string value, or a lone surrogate
//! half is not in the language and is answered with the protocol's
//! error event.
//! `lemma_parse_of_message` proves the two sides consistent: every
//! emitted message parses back to the fields it was built from.

use vstd::prelude::*;
use vstd::string::StrSliceExecFns;
use vstd::string::StringExecFns;

use crate::stringops::{char_from_u32, is_scalar_value, push_char};
use crate::stringops::str_eq;

verus! {

/// The code of a character.
pub open spec fn char_code(c: char) -> int {
    c as int
}

/// The character with the given code; meaningful for scalar values.
pub open spec fn char_of(n: int) -> char {
    choose|c: char| char_code(c) == n
}

/// JSON insignificant whitespace.
pub open spec fn is_ws(c: char) -> bool {
    c == ' ' || c == '\t' || c == '\n' || c == '\r'
}

/// The first index at or after `i` not holding whitespace.
pub open spec fn skip_ws(s: Seq<char>, i: int) -> int
    decreases s.len() - i,
{
    if 0 <= i < s.len() && is_ws(s[i]) {
        skip_ws(s, i + 1)
    } else {
        i
    }
}

/// The value of a hex digit, or -1.
pub open spec fn hex_val(c: char) -> int {
    if 48 <= (c as int) && (c as int) <= 57 {
        c as int - 48
    } else if 97 <= (c as int) && (c as int) <= 102 {
        c as int - 87
    } else if 65 <= (c as int) && (c as int) <= 70 {
        c as int - 55
    } else {
        -1
    }
}

/// The lower-case hex digit for a value below sixteen.
pub open spec fn hex_digit(n: int) -> char {
    if n == 0 {
        '0'
    } else if n == 1 {
        '1'
    } else if n == 2 {
        '2'
    } else if n == 3 {
        '3'
    } else if n == 4 {
        '4'
    } else if n == 5 {
        '5'
    } else if n == 6 {
        '6'
    } else if n == 7 {
        '7'
    } else if n == 8 {
        '8'
    } else if n == 9 {
        '9'
    } else if n == 10 {
        'a'
    } else if n == 11 {
        'b'
    } else if n == 12 {
        'c'
    } else if n == 13 {
        'd'
    } else if n == 14 {
        'e'
    } else {
        'f'
    }
}

/// What a named escape letter decodes to, if it is one.
pub open spec fn unescape_char(c: char) -> Option<char> {
    if c == '"' {
        Some('"')
    } else if c == '\\' {
        Some('\\')
    } else if c == '/' {
        Some('/')
    } else if c == 'b' {
        Some('\u{8}')
    } else if c == 'f' {
        Some('\u{c}')
    } else if c == 'n' {
        Some('\n')
    } else if c == 'r' {
        Some('\r')
    } else if c == 't' {
        Some('\t')
    } else {
        None
    }
}

/// How one character is written inside an emitted quoted string:
/// quote and backslash escaped by name, control characters by their
/// named escape or `\u00..`, everything else as itself.
pub open spec fn escape_char(c: char) -> Seq<char> {
    if c == '"' || c == '\\' {
        seq!['\\', c]
    } else if c as int == 8 {
        seq!['\\', 'b']
    } else if c as int == 9 {
        seq!['\\', 't']
    } else if c as int == 10 {
        seq!['\\', 'n']
    } else if c as int == 12 {
        seq!['\\', 'f']
    } else if c as int == 13 {
        seq!['\\', 'r']
    } else if 0 <= (c as int) && (c as int) < 32 {
        let hi = hex_digit((c as int) / 16);
        let lo = hex_digit((c as int) % 16);
        seq!['\\', 'u', '0', '0', hi, lo]
    } else {
        seq![c]
    }
}

/// The body of an emitted quoted string: each character escaped in turn.
pub open spec fn spec_escape(s: Seq<char>) -> Seq<char>
    decreases s.len(),
{
    if s.len() == 0 {
        Seq::<char>::empty()
    } else {
        spec_escape(s.drop_last()) + escape_char(s.last())
    }
}

/// An emitted quoted JSON string.
pub open spec fn spec_quoted(s: Seq<char>) -> Seq<char> {
    seq!['"'] + spec_escape(s) + seq!['"']
}

/// The emitted message carrying `action` and `filename`.
pub open spec fn spec_message(action: Seq<char>, filename: Seq<char>) -> Seq<char> {
    "{\"action\":"@ + spec_quoted(action) + ",\"filename\":"@ + spec_quoted(filename) + "}"@
}

/// Scan the body of a quoted string from `i` (past the opening quote):
/// the decoded value and the index just past the closing quote.
pub open spec fn spec_scan_quoted(s: Seq<char>, i: int) -> Option<(Seq<char>, int)>
    decreases s.len() - i,
{
    if i < 0 || i >= s.len() {
        None
    } else if s[i] == '"' {
        Some((Seq::<char>::empty(), i + 1))
    } else if s[i] == '\\' {
        if i + 1 < s.len() && s[i + 1] == 'u' {
            if i + 5 < s.len() && hex_val(s[i + 2]) >= 0 && hex_val(s[i + 3]) >= 0 && hex_val(
                s[i + 4],
            ) >= 0 && hex_val(s[i + 5]) >= 0 {
                let n = 4096 * hex_val(s[i + 2]) + 256 * hex_val(s[i + 3]) + 16 * hex_val(s[i + 4])
                    + hex_val(s[i + 5]);
                if is_scalar_value(n) {
                    match spec_scan_quoted(s, i + 6) {
                        Some(r) => Some((seq![char_of(n)] + r.0, r.1)),
                        None => None,
                    }
                } else if 0xD800 <= n <= 0xDBFF {
                    if i + 11 < s.len() && s[i + 6] == '\\' && s[i + 7] == 'u' && hex_val(
                        s[i + 8],
                    ) >= 0 && hex_val(s[i + 9]) >= 0 && hex_val(s[i + 10]) >= 0 && hex_val(
                        s[i + 11],
                    ) >= 0 {
                        let m = 4096 * hex_val(s[i + 8]) + 256 * hex_val(s[i + 9]) + 16 * hex_val(
                            s[i + 10],
                        ) + hex_val(s[i + 11]);
                        if 0xDC00 <= m <= 0xDFFF {
                            let code = 0x10000 + (n - 0xD800) * 0x400 + (m - 0xDC00);
                            match spec_scan_quoted(s, i + 12) {
                                Some(r) => Some((seq![char_of(code)] + r.0, r.1)),
                                None => None,
                            }
                        } else {
                            None
                        }
                    } else {
                        None
                    }
                } else {
                    None
                }
            } else {
                None
            }
        } else if i + 1 < s.len() && unescape_char(s[i + 1]) is Some {
            match spec_scan_quoted(s, i + 2) {
                Some(r) => Some((seq![unescape_char(s[i + 1])->Some_0] + r.0, r.1)),
                None => None,
            }
        } else {
            None
        }
    } else {
        match spec_scan_quoted(s, i + 1) {
            Some(r) => Some((seq![s[i]] + r.0, r.1)),
            None => None,
        }
    }
}

/// A character that can continue a JSON number.
pub open spec fn is_number_char(c: char) -> bool {
    (48 <= (c as int) && (c as int) <= 57) || c == '-' || c == '+' || c == '.' || c == 'e' || c
        == 'E'
}

/// The first index at or after `i` not holding a number character.
pub open spec fn skip_number(s: Seq<char>, i: int) -> int
    decreases s.len() - i,
{
    if 0 <= i < s.len() && is_number_char(s[i]) {
        skip_number(s, i + 1)
    } else {
        i
    }
}

/// Pass over one non-string scalar value at `i` — a `true`, `false` or
/// `null` literal, or a number-shaped run — giving the index past it.
pub open spec fn skip_scalar(s: Seq<char>, i: int) -> Option<int> {
    if i + 4 <= s.len() && s[i] == 't' && s[i + 1] == 'r' && s[i + 2] == 'u' && s[i + 3] == 'e' {
        Some(i + 4)
    } else if i + 5 <= s.len() && s[i] == 'f' && s[i + 1] == 'a' && s[i + 2] == 'l' && s[i + 3]
        == 's' && s[i + 4] == 'e' {
        Some(i + 5)
    } else if i + 4 <= s.len() && s[i] == 'n' && s[i + 1] == 'u' && s[i + 2] == 'l' && s[i + 3]
        == 'l' {
        Some(i + 4)
    } else if 0 <= i < s.len() && is_number_char(s[i]) {
        Some(skip_number(s, i))
    } else {
        None
    }
}

/// Scan one `"key" : value` member from `i`, whitespace allowed around
/// the tokens: the key, the value if it is a string, and the index
/// just past the value. A non-string scalar value is passed over and
/// reported as no string.
pub open spec fn scan_member(s: Seq<char>, i: int) -> Option<(Seq<char>, Option<Seq<char>>, int)> {
    let a = skip_ws(s, i);
    if !(a < s.len() && s[a] == '"') {
        None
    } else {
        match spec_scan_quoted(s, a + 1) {
            None => None,
            Some(k) => {
                let b = skip_ws(s, k.1);
                if !(b < s.len() && s[b] == ':') {
                    None
                } else {
                    let c = skip_ws(s, b + 1);
                    if c < s.len() && s[c] == '"' {
                        match spec_scan_quoted(s, c + 1) {
                            None => None,
                            Some(v) => Some((k.0, Some(v.0), v.1)),
                        }
                    } else {
                        match skip_scalar(s, c) {
                            None => None,
                            Some(e) => Some((k.0, None::<Seq<char>>, e)),
                        }
                    }
                }
            },
        }
    }
}

/// The view of a possibly-found member value.
pub open spec fn opt_view(o: Option<String>) -> Option<Seq<char>> {
    match o {
        Some(x) => Some(x@),
        None => None,
    }
}

/// Walk the object's members from `i`: strings keyed by anything, the
/// two known keys at most once each and remembered, unknown keys
/// ignored. On the closing brace, the two found values and the index
/// just past it; `fuel` only bounds the walk and any value above the
/// member count gives the same answer.
pub open spec fn scan_members(
    s: Seq<char>,
    i: int,
    act: Option<Seq<char>>,
    fil: Option<Seq<char>>,
    fuel: nat,
) -> Option<(Seq<char>, Seq<char>, int)>
    decreases fuel,
{
    if fuel == 0 {
        None
    } else {
        match scan_member(s, i) {
            None => None,
            Some(m) => {
                if (m.0 == "action"@ && act is Some) || (m.0 == "filename"@ && fil is Some) {
                    None
                } else if (m.0 == "action"@ || m.0 == "filename"@) && m.1 is None {
                    None
                } else {
                    let act2 = if m.0 == "action"@ {
                        Some(m.1->Some_0)
                    } else {
                        act
                    };
                    let fil2 = if m.0 == "filename"@ {
                        Some(m.1->Some_0)
                    } else {
                        fil
                    };
                    let j = skip_ws(s, m.2);
                    if j < s.len() && s[j] == ',' {
                        scan_members(s, j + 1, act2, fil2, (fuel - 1) as nat)
                    } else if j < s.len() && s[j] == '}' {
                        match (act2, fil2) {
                            (Some(a), Some(f)) => Some((a, f, j + 1)),
                            _ => None,
                        }
                    } else {
                        None
                    }
                }
            },
        }
    }
}

/// The accepted language: an object of string members holding `action`
/// and `filename` exactly once each, in any order and position, other
/// members ignored, whitespace allowed between tokens, read back as
/// `(action, filename)`.
pub open spec fn spec_parse(s: Seq<char>) -> Option<(Seq<char>, Seq<char>)> {
    let i0 = skip_ws(s, 0);
    if !(0 <= i0 < s.len() && s[i0] == '{') {
        None
    } else {
        match scan_members(s, i0 + 1, None, None, (s.len() + 1) as nat) {
            None => None,
            Some(t) => {
                if skip_ws(s, t.2) == s.len() {
                    Some((t.0, t.1))
                } else {
                    None
                }
            },
        }
    }
}

/// The lower-case hex digit of a value below sixteen.
fn hex_digit_exec(n: u32) -> (c: char)
    requires
        n < 16,
    ensures
        c == hex_digit(n as int),
{
    if n == 0 {
        '0'
    } else if n == 1 {
        '1'
    } else if n == 2 {
        '2'
    } else if n == 3 {
        '3'
    } else if n == 4 {
        '4'
    } else if n == 5 {
        '5'
    } else if n == 6 {
        '6'
    } else if n == 7 {
        '7'
    } else if n == 8 {
        '8'
    } else if n == 9 {
        '9'
    } else if n == 10 {
        'a'
    } else if n == 11 {
        'b'
    } else if n == 12 {
        'c'
    } else if n == 13 {
        'd'
    } else if n == 14 {
        'e'
    } else {
        'f'
    }
}

/// The value of a hex digit, or sixteen for any other character.
fn hex_val_exec(c: char) -> (v: u32)
    ensures
        hex_val(c) >= 0 ==> v < 16 && v as int == hex_val(c),
        hex_val(c) < 0 ==> v == 16,
{
    let k = c as u32;
    if k >= 48 && k <= 57 {
        k - 48
    } else if k >= 97 && k <= 102 {
        k - 87
    } else if k >= 65 && k <= 70 {
        k - 55
    } else {
        16
    }
}

/// The first index at or after `i` not holding whitespace.
fn skip_ws_exec(s: &str, i: usize) -> (r: usize)
    requires
        i <= s@.len(),
    ensures
        i <= r <= s@.len(),
        r == skip_ws(s@, i as int),
{
    let n = s.unicode_len();
    let mut j = i;
    loop
        invariant
            i <= j <= n,
            n == s@.len(),
            skip_ws(s@, i as int) == skip_ws(s@, j as int),
        decreases n - j,
    {
        if j >= n {
            return j;
        }
        let c = s.get_char(j);
        if c == ' ' || c == '\t' || c == '\n' || c == '\r' {
            proof {
                assert(skip_ws(s@, j as int) == skip_ws(s@, j + 1));
            }
            j = j + 1;
        } else {
            proof {
                assert(skip_ws(s@, j as int) == j as int);
            }
            return j;
        }
    }
}

/// Append `s` as a quoted JSON string, escaping as `escape_char` says.
fn append_quoted(out: &mut String, s: &str)
    ensures
        final(out)@ == old(out)@ + spec_quoted(s@),
{
    push_char(out, '"');
    let n = s.unicode_len();
    for i in 0..n
        invariant
            n == s@.len(),
            out@ == old(out)@ + seq!['"'] + spec_escape(s@.take(i as int)),
    {
        let c = s.get_char(i);
        let code = c as u32;
        if c == '"' || c == '\\' {
            push_char(out, '\\');
            push_char(out, c);
        } else if code == 8 {
            push_char(out, '\\');
            push_char(out, 'b');
        } else if code == 9 {
            push_char(out, '\\');
            push_char(out, 't');
        } else if code == 10 {
            push_char(out, '\\');
            push_char(out, 'n');
        } else if code == 12 {
            push_char(out, '\\');
            push_char(out, 'f');
        } else if code == 13 {
            push_char(out, '\\');
            push_char(out, 'r');
        } else if code < 32 {
            push_char(out, '\\');
            push_char(out, 'u');
            push_char(out, '0');
            push_char(out, '0');
            push_char(out, hex_digit_exec(code / 16));
            push_char(out, hex_digit_exec(code % 16));
        } else {
            push_char(out, c);
        }
        proof {
            assert(s@.take(i + 1).drop_last() =~= s@.take(i as int));
            assert(s@.take(i + 1).last() == s@[i as int]);
            assert(out@ =~= old(out)@ + seq!['"'] + spec_escape(s@.take(i + 1)));
        }
    }
    push_char(out, '"');
    proof {
        assert(s@.take(n as int) =~= s@);
        assert(out@ =~= old(out)@ + spec_quoted(s@));
    }
}

/// Emit the message carrying `action` and `filename`.
pub fn sound_message_json(action: &str, filename: &str) -> (r: String)
    ensures
        r@ == spec_message(action@, filename@),
{
    let mut out: String = "{\"action\":".to_owned();
    append_quoted(&mut out, action);
    out.append(",\"filename\":");
    append_quoted(&mut out, filename);
    out.append("}");
    proof {
        assert(out@ =~= spec_message(action@, filename@));
    }
    out
}

/// The scanner's loop invariant: finishing the scan from `j` with
/// `acc` already decoded gives the same answer as scanning from `i`.
pub open spec fn scan_continues(s: Seq<char>, i: int, j: int, acc: Seq<char>) -> bool {
    match spec_scan_quoted(s, j) {
        Some(r) => spec_scan_quoted(s, i) == Some::<(Seq<char>, int)>((acc + r.0, r.1)),
        None => spec_scan_quoted(s, i) is None,
    }
}

/// Scan the body of a quoted string starting at `i`; on success the
/// decoded value and the index just past the closing quote.
fn scan_quoted(s: &str, i: usize) -> (r: Option<(String, usize)>)
    requires
        i <= s@.len(),
    ensures
        match r {
            Some(p) => {
                &&& spec_scan_quoted(s@, i as int) matches Some(q)
                &&& p.0@ == q.0
                &&& p.1 == q.1
                &&& i < p.1 <= s@.len()
            },
            None => spec_scan_quoted(s@, i as int) is None,
        },
{
    let n = s.unicode_len();
    let mut acc = String::new();
    let mut j = i;
    proof {
        match spec_scan_quoted(s@, i as int) {
            Some(r) => {
                assert(acc@ + r.0 =~= r.0);
            },
            None => {},
        }
    }
    loop
        invariant
            n == s@.len(),
            i <= j <= n,
            scan_continues(s@, i as int, j as int, acc@),
        decreases n - j,
    {
        if j >= n {
            return None;
        }
        let c = s.get_char(j);
        if c == '"' {
            proof {
                assert(spec_scan_quoted(s@, j as int) == Some::<(Seq<char>, int)>((
                    Seq::<char>::empty(),
                    j + 1,
                )));
                assert(acc@ + Seq::<char>::empty() =~= acc@);
            }
            return Some((acc, j + 1));
        } else if c == '\\' {
            if j + 1 >= n {
                return None;
            }
            let d = s.get_char(j + 1);
            if d == 'u' {
                if n - j < 6 {
                    return None;
                }
                let h1 = hex_val_exec(s.get_char(j + 2));
                let h2 = hex_val_exec(s.get_char(j + 3));
                let h3 = hex_val_exec(s.get_char(j + 4));
                let h4 = hex_val_exec(s.get_char(j + 5));
                if h1 >= 16 || h2 >= 16 || h3 >= 16 || h4 >= 16 {
                    return None;
                }
                let code: u32 = 4096 * h1 + 256 * h2 + 16 * h3 + h4;
                if 0xD800 <= code && code <= 0xDBFF {
                    if n - j < 12 {
                        return None;
                    }
                    if !(s.get_char(j + 6) == '\\' && s.get_char(j + 7) == 'u') {
                        return None;
                    }
                    let g1 = hex_val_exec(s.get_char(j + 8));
                    let g2 = hex_val_exec(s.get_char(j + 9));
                    let g3 = hex_val_exec(s.get_char(j + 10));
                    let g4 = hex_val_exec(s.get_char(j + 11));
                    if g1 >= 16 || g2 >= 16 || g3 >= 16 || g4 >= 16 {
                        return None;
                    }
                    let low: u32 = 4096 * g1 + 256 * g2 + 16 * g3 + g4;
                    if !(0xDC00 <= low && low <= 0xDFFF) {
                        return None;
                    }
                    let combined: u32 = 0x10000 + (code - 0xD800) * 0x400 + (low - 0xDC00);
                    match char_from_u32(combined) {
                        Some(ch) => {
                            let ghost pre = acc@;
                            push_char(&mut acc, ch);
                            proof {
                                assert(exists|cc: char| char_code(cc) == combined as int) by {
                                    assert(char_code(ch) == combined as int);
                                }
                                assert(char_of(combined as int) == ch);
                                assert(acc@ =~= pre + seq![char_of(combined as int)]);
                                lemma_scan_step(
                                    s@,
                                    i as int,
                                    j as int,
                                    pre,
                                    seq![char_of(combined as int)],
                                    j + 12,
                                    acc@,
                                );
                            }
                            j = j + 12;
                        },
                        None => {
                            // a combined code is always a scalar value
                            proof {
                                assert(is_scalar_value(combined as int));
                            }
                            return None;
                        },
                    }
                } else {
                    match char_from_u32(code) {
                        Some(ch) => {
                            let ghost pre = acc@;
                            push_char(&mut acc, ch);
                            proof {
                                assert(exists|cc: char| char_code(cc) == code as int) by {
                                    assert(char_code(ch) == code as int);
                                }
                                assert(char_of(code as int) == ch);
                                assert(acc@ =~= pre + seq![char_of(code as int)]);
                                lemma_scan_step(
                                    s@,
                                    i as int,
                                    j as int,
                                    pre,
                                    seq![char_of(code as int)],
                                    j + 6,
                                    acc@,
                                );
                            }
                            j = j + 6;
                        },
                        None => {
                            return None;
                        },
                    }
                }
            } else {
                let decoded: char = if d == '"' {
                    '"'
                } else if d == '\\' {
                    '\\'
                } else if d == '/' {
                    '/'
                } else if d == 'b' {
                    '\u{8}'
                } else if d == 'f' {
                    '\u{c}'
                } else if d == 'n' {
                    '\n'
                } else if d == 'r' {
                    '\r'
                } else if d == 't' {
                    '\t'
                } else {
                    return None;
                };
                let ghost pre = acc@;
                push_char(&mut acc, decoded);
                proof {
                    assert(unescape_char(s@[j + 1]) == Some(decoded));
                    assert(acc@ =~= pre + seq![decoded]);
                    lemma_scan_step(s@, i as int, j as int, pre, seq![decoded], j + 2, acc@);
                }
                j = j + 2;
            }
        } else {
            let ghost pre = acc@;
            push_char(&mut acc, c);
            proof {
                assert(acc@ =~= pre + seq![s@[j as int]]);
                lemma_scan_step(s@, i as int, j as int, pre, seq![s@[j as int]], j + 1, acc@);
            }
            j = j + 1;
        }
    }
}

/// One scanner step: when scanning from `j` first decodes `piece` and
/// continues at `k`, the continuation carries over to `k` with the
/// piece appended to the accumulator.
proof fn lemma_scan_step(
    s: Seq<char>,
    i: int,
    j: int,
    pre: Seq<char>,
    piece: Seq<char>,
    k: int,
    acc: Seq<char>,
)
    requires
        scan_continues(s, i, j, pre),
        acc == pre + piece,
        spec_scan_quoted(s, j) == match spec_scan_quoted(s, k) {
            Some(r) => Some::<(Seq<char>, int)>((piece + r.0, r.1)),
            None => None::<(Seq<char>, int)>,
        },
    ensures
        scan_continues(s, i, k, acc),
{
    match spec_scan_quoted(s, k) {
        Some(r) => {
            assert(pre + (piece + r.0) =~= acc + r.0);
        },
        None => {},
    }
}

/// The first index at or after `i` not holding a number character.
fn skip_number_exec(s: &str, i: usize) -> (r: usize)
    requires
        i <= s@.len(),
    ensures
        i <= r <= s@.len(),
        r == skip_number(s@, i as int),
{
    let n = s.unicode_len();
    let mut j = i;
    loop
        invariant
            i <= j <= n,
            n == s@.len(),
            skip_number(s@, i as int) == skip_number(s@, j as int),
        decreases n - j,
    {
        if j >= n {
            return j;
        }
        let c = s.get_char(j);
        let k = c as u32;
        if (k >= 48 && k <= 57) || c == '-' || c == '+' || c == '.' || c == 'e' || c == 'E' {
            proof {
                assert(skip_number(s@, j as int) == skip_number(s@, j + 1));
            }
            j = j + 1;
        } else {
            proof {
                assert(skip_number(s@, j as int) == j as int);
            }
            return j;
        }
    }
}

/// Pass over one non-string scalar value at `i`.
fn skip_scalar_exec(s: &str, i: usize) -> (r: Option<usize>)
    requires
        i <= s@.len(),
    ensures
        match r {
            Some(e) => skip_scalar(s@, i as int) == Some(e as int) && i < e <= s@.len(),
            None => skip_scalar(s@, i as int) is None,
        },
{
    let n = s.unicode_len();
    if n - i >= 4 && s.get_char(i) == 't' && s.get_char(i + 1) == 'r' && s.get_char(i + 2) == 'u'
        && s.get_char(i + 3) == 'e' {
        return Some(i + 4);
    }
    if n - i >= 5 && s.get_char(i) == 'f' && s.get_char(i + 1) == 'a' && s.get_char(i + 2) == 'l'
        && s.get_char(i + 3) == 's' && s.get_char(i + 4) == 'e' {
        return Some(i + 5);
    }
    if n - i >= 4 && s.get_char(i) == 'n' && s.get_char(i + 1) == 'u' && s.get_char(i + 2) == 'l'
        && s.get_char(i + 3) == 'l' {
        return Some(i + 4);
    }
    if i < n {
        let c = s.get_char(i);
        let k = c as u32;
        if (k >= 48 && k <= 57) || c == '-' || c == '+' || c == '.' || c == 'e' || c == 'E' {
            let e = skip_number_exec(s, i + 1);
            proof {
                assert(skip_number(s@, i as int) == skip_number(s@, i + 1));
            }
            return Some(e);
        }
    }
    None
}

/// Scan one `"key" : value` member starting at `i`.
fn scan_member_exec(s: &str, i: usize) -> (r: Option<(String, Option<String>, usize)>)
    requires
        i <= s@.len(),
    ensures
        match r {
            Some(t) => {
                &&& scan_member(s@, i as int) matches Some(m)
                &&& t.0@ == m.0
                &&& opt_view(t.1) == m.1
                &&& t.2 == m.2
                &&& i < t.2 <= s@.len()
            },
            None => scan_member(s@, i as int) is None,
        },
{
    let n = s.unicode_len();
    let a = skip_ws_exec(s, i);
    if !(a < n && s.get_char(a) == '"') {
        return None;
    }
    let key = match scan_quoted(s, a + 1) {
        Some(p) => p,
        None => {
            return None;
        },
    };
    let b = skip_ws_exec(s, key.1);
    if !(b < n && s.get_char(b) == ':') {
        return None;
    }
    let c = skip_ws_exec(s, b + 1);
    if c < n && s.get_char(c) == '"' {
        let val = match scan_quoted(s, c + 1) {
            Some(p) => p,
            None => {
                return None;
            },
        };
        Some((key.0, Some(val.0), val.1))
    } else {
        let e = match skip_scalar_exec(s, c) {
            Some(e) => e,
            None => {
                return None;
            },
        };
        Some((key.0, None, e))
    }
}

/// Parse a toggle-protocol message into its `action` and `filename`.
pub fn parse_sound_message(s: &str) -> (r: Option<(String, String)>)
    ensures
        match r {
            Some(p) => spec_parse(s@) == Some::<(Seq<char>, Seq<char>)>((p.0@, p.1@)),
            None => spec_parse(s@) is None,
        },
{
    let n = s.unicode_len();
    let i0 = skip_ws_exec(s, 0);
    if !(i0 < n && s.get_char(i0) == '{') {
        return None;
    }
    let ghost fuel0: nat = (s@.len() + 1) as nat;
    let mut act: Option<String> = None;
    let mut fil: Option<String> = None;
    let mut j = i0 + 1;
    let ghost mut fuel: nat = fuel0;
    loop
        invariant
            n == s@.len(),
            j <= n,
            fuel >= n - j + 1,
            scan_members(s@, i0 + 1, None, None, fuel0) == scan_members(
                s@,
                j as int,
                opt_view(act),
                opt_view(fil),
                fuel,
            ),
            spec_parse(s@) == (match scan_members(s@, i0 + 1, None, None, fuel0) {
                None => None::<(Seq<char>, Seq<char>)>,
                Some(t) => {
                    if skip_ws(s@, t.2) == s@.len() {
                        Some((t.0, t.1))
                    } else {
                        None::<(Seq<char>, Seq<char>)>
                    }
                },
            }),
        decreases n - j,
    {
        let ghost av0 = opt_view(act);
        let ghost fv0 = opt_view(fil);
        proof {
            assert(fuel != 0);
        }
        let m = match scan_member_exec(s, j) {
            Some(m) => m,
            None => {
                proof {
                    assert(scan_members(s@, j as int, av0, fv0, fuel) is None);
                }
                return None;
            },
        };
        let is_act = str_eq(m.0.as_str(), "action");
        let is_fil = str_eq(m.0.as_str(), "filename");
        if (is_act && act.is_some()) || (is_fil && fil.is_some()) {
            proof {
                assert(scan_members(s@, j as int, av0, fv0, fuel) is None);
            }
            return None;
        }
        if (is_act || is_fil) && m.1.is_none() {
            proof {
                assert(scan_members(s@, j as int, av0, fv0, fuel) is None);
            }
            return None;
        }
        let ghost msp = scan_member(s@, j as int)->Some_0;
        proof {
            assert(msp.0 == m.0@ && msp.1 == opt_view(m.1) && msp.2 == m.2 as int);
            assert("action"@ != "filename"@) by {
                reveal_strlit("action");
                reveal_strlit("filename");
                assert("action"@.len() == 6);
                assert("filename"@.len() == 8);
            }
        }
        if is_act {
            act = m.1;
        } else if is_fil {
            fil = m.1;
        }
        proof {
            assert(opt_view(act) == (if msp.0 == "action"@ {
                Some(msp.1->Some_0)
            } else {
                av0
            }));
            assert(opt_view(fil) == (if msp.0 == "filename"@ {
                Some(msp.1->Some_0)
            } else {
                fv0
            }));
        }
        let jj = skip_ws_exec(s, m.2);
        proof {
            assert(jj == skip_ws(s@, msp.2));
        }
        if jj < n && s.get_char(jj) == ',' {
            proof {
                assert(scan_members(s@, j as int, av0, fv0, fuel) == scan_members(
                    s@,
                    jj + 1,
                    opt_view(act),
                    opt_view(fil),
                    (fuel - 1) as nat,
                ));
                fuel = (fuel - 1) as nat;
            }
            j = jj + 1;
        } else if jj < n && s.get_char(jj) == '}' {
            proof {
                assert(scan_members(s@, j as int, av0, fv0, fuel) == (match (
                    opt_view(act),
                    opt_view(fil),
                ) {
                    (Some(a), Some(f)) => Some::<(Seq<char>, Seq<char>, int)>((a, f, jj + 1)),
                    _ => None::<(Seq<char>, Seq<char>, int)>,
                }));
            }
            match (act, fil) {
                (Some(a), Some(f)) => {
                    if skip_ws_exec(s, jj + 1) == n {
                        return Some((a, f));
                    } else {
                        return None;
                    }
                },
                _ => {
                    return None;
                },
            }
        } else {
            proof {
                assert(scan_members(s@, j as int, av0, fv0, fuel) is None);
            }
            return None;
        }
    }
}

/// Every emitted message parses back to the fields it carries.
pub proof fn lemma_parse_of_message(action: Seq<char>, filename: Seq<char>)
    ensures
        spec_parse(spec_message(action, filename)) == Some::<(Seq<char>, Seq<char>)>((
            action,
            filename,
        )),
{
    let s = spec_message(action, filename);
    let ea = spec_escape(action);
    let ef = spec_escape(filename);
    reveal_strlit("{\"action\":");
    reveal_strlit(",\"filename\":");
    reveal_strlit("}");
    reveal_strlit("action");
    reveal_strlit("filename");
    lemma_escape_len(action);
    lemma_escape_len(filename);
    let e1: int = 12 + ea.len() as int;
    let i2: int = e1 + 12;
    let e2: int = i2 + 2 + ef.len() as int;
    assert(s.len() == e2 + 1);

    assert(skip_ws(s, 0) == 0 && s[0] == '{');
    assert(skip_ws(s, 1) == 1 && s[1] == '"');
    assert(spec_escape("action"@) == "action"@) by {
        lemma_escape_plain_lit("action"@);
    }
    assert(s.subrange(2, 9) =~= spec_escape("action"@) + seq!['"']);
    lemma_scan_of_escape(s, 2, "action"@, 9);
    assert(skip_ws(s, 9) == 9 && s[9] == ':');
    assert(skip_ws(s, 10) == 10 && s[10] == '"');
    assert(s.subrange(11, e1) =~= ea + seq!['"']);
    lemma_scan_of_escape(s, 11, action, e1);
    assert(scan_member(s, 1) == Some::<(Seq<char>, Option<Seq<char>>, int)>((
        "action"@,
        Some(action),
        e1,
    )));

    assert(skip_ws(s, e1) == e1 && s[e1] == ',');
    assert(skip_ws(s, e1 + 1) == e1 + 1 && s[e1 + 1] == '"');
    assert(spec_escape("filename"@) == "filename"@) by {
        lemma_escape_plain_lit("filename"@);
    }
    assert(s.subrange(e1 + 2, e1 + 11) =~= spec_escape("filename"@) + seq!['"']);
    lemma_scan_of_escape(s, e1 + 2, "filename"@, e1 + 11);
    assert(skip_ws(s, e1 + 11) == e1 + 11 && s[e1 + 11] == ':');
    assert(skip_ws(s, i2) == i2 && s[i2] == '"');
    assert(s.subrange(i2 + 1, e2) =~= ef + seq!['"']);
    lemma_scan_of_escape(s, i2 + 1, filename, e2);
    assert(scan_member(s, e1 + 1) == Some::<(Seq<char>, Option<Seq<char>>, int)>((
        "filename"@,
        Some(filename),
        e2,
    )));

    assert(skip_ws(s, e2) == e2 && s[e2] == '}');
    assert(skip_ws(s, e2 + 1) == s.len());
    let fuel0 = (s.len() + 1) as nat;
    assert(scan_members(s, e1 + 1, Some(action), None, (fuel0 - 1) as nat)
        == Some::<(Seq<char>, Seq<char>, int)>((action, filename, e2 + 1)));
    assert(scan_members(s, 1, None, None, fuel0) == Some::<(Seq<char>, Seq<char>, int)>((
        action,
        filename,
        e2 + 1,
    )));
}

/// A character the emitter writes as itself.
pub open spec fn is_plain(c: char) -> bool {
    c != '"' && c != '\\' && (c as int) >= 32
}

/// Escaping a string of plain characters leaves it as it is.
proof fn lemma_escape_plain(v: Seq<char>)
    requires
        forall|k: int| 0 <= k < v.len() ==> is_plain(#[trigger] v[k]),
    ensures
        spec_escape(v) == v,
    decreases v.len(),
{
    if v.len() == 0 {
        assert(spec_escape(v) =~= v);
    } else {
        lemma_escape_plain(v.drop_last());
        assert(is_plain(v.last()));
        assert(spec_escape(v) =~= v);
    }
}

/// The two member keys hold plain characters only.
proof fn lemma_escape_plain_lit(v: Seq<char>)
    requires
        v == "action"@ || v == "filename"@,
    ensures
        spec_escape(v) == v,
{
    reveal_strlit("action");
    reveal_strlit("filename");
    assert forall|k: int| 0 <= k < v.len() implies is_plain(#[trigger] v[k]) by {
        if v == "action"@ {
            assert(k == 0 || k == 1 || k == 2 || k == 3 || k == 4 || k == 5);
        } else {
            assert(k == 0 || k == 1 || k == 2 || k == 3 || k == 4 || k == 5 || k == 6 || k == 7);
        }
    }
    lemma_escape_plain(v);
}

/// Scanning from the start of an escaped body decodes the body and
/// stops just past its closing quote.
proof fn lemma_scan_of_escape(s: Seq<char>, i: int, v: Seq<char>, e: int)
    requires
        0 <= i,
        e == i + spec_escape(v).len() + 1,
        e <= s.len(),
        s.subrange(i, e) == spec_escape(v) + seq!['"'],
    ensures
        spec_scan_quoted(s, i) == Some::<(Seq<char>, int)>((v, e)),
    decreases v.len(),
{
    lemma_escape_len(v);
    if v.len() == 0 {
        assert(s[i] == (spec_escape(v) + seq!['"'])[0]);
    } else {
        let c = v[0];
        let tail = v.drop_first();
        lemma_escape_first(v);
        lemma_escape_len(tail);
        let w = escape_char(c).len();
        assert(forall|k: int|
            0 <= k < e - i ==> s[i + k] == (#[trigger] (spec_escape(v) + seq!['"'])[k]));
        assert(forall|k: int| 0 <= k < w ==> (spec_escape(v) + seq!['"'])[k] == escape_char(c)[k]);
        assert(s.subrange(i + w, e) =~= spec_escape(tail) + seq!['"']) by {
            assert forall|k: int| 0 <= k < e - i - w implies s.subrange(i + w, e)[k] == (spec_escape(
                tail,
            ) + seq!['"'])[k] by {
                assert(s.subrange(i + w, e)[k] == s[i + w + k]);
                assert((spec_escape(v) + seq!['"'])[w + k] == (spec_escape(tail) + seq!['"'])[k]);
            }
        }
        if c == '"' || c == '\\' {
            assert(s[i] == '\\' && s[i + 1] == c);
            assert(s[i + 1] != 'u');
            assert(unescape_char(c) == Some(c));
            lemma_scan_of_escape(s, i + 2, tail, e);
            assert(seq![c] + tail =~= v);
        } else if c as int == 8 || c as int == 9 || c as int == 10 || c as int == 12 || c as int
            == 13 {
            assert(s[i] == '\\');
            let letter = escape_char(c)[1];
            assert(s[i + 1] == letter);
            assert(letter != 'u');
            assert(unescape_char(letter) == Some(c));
            lemma_scan_of_escape(s, i + 2, tail, e);
            assert(seq![c] + tail =~= v);
        } else if 0 <= (c as int) && (c as int) < 32 {
            assert(s[i] == '\\' && s[i + 1] == 'u');
            assert(s[i + 2] == '0' && s[i + 3] == '0');
            assert(s[i + 4] == hex_digit((c as int) / 16) && s[i + 5] == hex_digit((c as int) % 16));
            lemma_hex_round((c as int) / 16);
            lemma_hex_round((c as int) % 16);
            assert(hex_val('0') == 0);
            let n = 4096 * hex_val(s[i + 2]) + 256 * hex_val(s[i + 3]) + 16 * hex_val(s[i + 4])
                + hex_val(s[i + 5]);
            assert(n == c as int);
            assert(is_scalar_value(n));
            assert(exists|cc: char| char_code(cc) == n) by {
                assert(char_code(c) == n);
            }
            assert(char_of(n) == c);
            lemma_scan_of_escape(s, i + 6, tail, e);
            assert(seq![c] + tail =~= v);
        } else {
            assert((spec_escape(v) + seq!['"'])[0] == escape_char(c)[0]);
            assert(s[i] == c);
            assert(c != '"' && c != '\\');
            lemma_scan_of_escape(s, i + 1, tail, e);
            assert(seq![c] + tail =~= v);
        }
    }
}

/// A hex digit names the value it was made from.
proof fn lemma_hex_round(m: int)
    requires
        0 <= m < 16,
    ensures
        hex_val(hex_digit(m)) == m,
{
}

/// The escaped body of a non-empty string starts with its first
/// character's escape.
proof fn lemma_escape_first(v: Seq<char>)
    requires
        v.len() > 0,
    ensures
        spec_escape(v) == escape_char(v[0]) + spec_escape(v.drop_first()),
    decreases v.len(),
{
    if v.len() == 1 {
        assert(v.drop_last() =~= Seq::<char>::empty());
        assert(v.drop_first() =~= Seq::<char>::empty());
        assert(spec_escape(v) =~= escape_char(v[0]) + spec_escape(v.drop_first()));
    } else {
        lemma_escape_first(v.drop_last());
        assert(v.drop_last()[0] == v[0]);
        assert(v.drop_last().drop_first() =~= v.drop_first().drop_last());
        assert(v.drop_first().len() > 0);
        assert(spec_escape(v) == spec_escape(v.drop_last()) + escape_char(v.last()));
        assert(spec_escape(v.drop_first()) == spec_escape(v.drop_first().drop_last())
            + escape_char(v.drop_first().last()));
        assert(v.drop_first().last() == v.last());
        assert(spec_escape(v) =~= escape_char(v[0]) + spec_escape(v.drop_first()));
    }
}

/// Escaping at most sextuples and never shrinks.
proof fn lemma_escape_len(v: Seq<char>)
    ensures
        v.len() <= spec_escape(v).len() <= 6 * v.len(),
    decreases v.len(),
{
    if v.len() > 0 {
        lemma_escape_len(v.drop_last());
    }
}

} // verus!
