//! Rules about stored clip files: which file names name a sound clip.

use vstd::prelude::*;
use vstd::string::StrSliceExecFns;

verus! {

/// The index just after the last occurrence of `c`, or 0 if none occurs.
pub open spec fn start_after_last(s: Seq<char>, c: char) -> int
    decreases s.len(),
{
    if s.len() == 0 {
        0
    } else if s.last() == c {
        s.len() as int
    } else {
        start_after_last(s.drop_last(), c)
    }
}

/// The extension of the path's file name: what follows the last dot of
/// the part after the last separator, provided that dot neither leads
/// the file name nor lies before the separator.
pub open spec fn extension_of(s: Seq<char>) -> Option<Seq<char>> {
    let start = start_after_last(s, '/');
    let d = start_after_last(s, '.');
    if d - 1 > start {
        Some(s.skip(d))
    } else {
        None
    }
}

pub open spec fn is_ascii_upper(c: char) -> bool {
    65 <= c as int <= 90
}

/// `a` matches `b` up to ASCII case, `b` being lower case.
pub open spec fn ci_eq_char(a: char, b: char) -> bool {
    a == b || (is_ascii_upper(a) && a as int + 32 == b as int)
}

pub open spec fn ci_eq(s: Seq<char>, t: Seq<char>) -> bool {
    s.len() == t.len() && forall|i: int| 0 <= i < s.len() ==> ci_eq_char(s[i], #[trigger] t[i])
}

/// The extensions accepted for a sound clip, case-insensitively.
pub open spec fn allowed_extension(e: Seq<char>) -> bool {
    ci_eq(e, "wav"@) || ci_eq(e, "ogg"@) || ci_eq(e, "mp3"@)
}

/// A file names a clip when its extension is an accepted sound format.
pub open spec fn allowed_file(s: Seq<char>) -> bool {
    match extension_of(s) {
        Some(e) => allowed_extension(e),
        None => false,
    }
}

/// Whether `filename` names a sound clip the board serves: its
/// extension is `wav`, `ogg` or `mp3` in any ASCII case.
pub fn is_allowed_file(filename: &str) -> (r: bool)
    ensures
        r == allowed_file(filename@),
{
    let ghost s = filename@;
    let n = filename.unicode_len();
    let mut start: usize = 0;
    let mut d: usize = 0;
    for i in 0..n
        invariant
            n == s.len(),
            s == filename@,
            start <= i,
            d <= i,
            start == start_after_last(s.take(i as int), '/'),
            d == start_after_last(s.take(i as int), '.'),
    {
        let c = filename.get_char(i);
        proof {
            assert(s.take(i + 1).last() == s[i as int]);
            assert(s.take(i + 1).drop_last() =~= s.take(i as int));
        }
        if c == '/' {
            start = i + 1;
        }
        if c == '.' {
            d = i + 1;
        }
    }
    proof {
        assert(s.take(n as int) =~= s);
    }
    if d < 1 || d - 1 <= start {
        return false;
    }
    if n - d != 3 {
        proof {
            reveal_strlit("wav");
            reveal_strlit("ogg");
            reveal_strlit("mp3");
            assert(extension_of(s)->Some_0.len() != 3);
        }
        return false;
    }
    let e0 = filename.get_char(d);
    let e1 = filename.get_char(d + 1);
    let e2 = filename.get_char(d + 2);
    let wav = (e0 == 'w' || e0 == 'W') && (e1 == 'a' || e1 == 'A') && (e2 == 'v' || e2 == 'V');
    let ogg = (e0 == 'o' || e0 == 'O') && (e1 == 'g' || e1 == 'G') && (e2 == 'g' || e2 == 'G');
    let mp3 = (e0 == 'm' || e0 == 'M') && (e1 == 'p' || e1 == 'P') && e2 == '3';
    let r = wav || ogg || mp3;
    proof {
        reveal_strlit("wav");
        reveal_strlit("ogg");
        reveal_strlit("mp3");
        let e = s.skip(d as int);
        assert(e.len() == 3);
        assert(e[0] == e0 && e[1] == e1 && e[2] == e2);
        lemma_ci_eq_three(e, "wav"@);
        lemma_ci_eq_three(e, "ogg"@);
        lemma_ci_eq_three(e, "mp3"@);
    }
    r
}

/// For three-character sequences, case-insensitive equality is the
/// conjunction of the three per-character matches.
proof fn lemma_ci_eq_three(e: Seq<char>, t: Seq<char>)
    requires
        e.len() == 3,
        t.len() == 3,
    ensures
        ci_eq(e, t) == (ci_eq_char(e[0], t[0]) && ci_eq_char(e[1], t[1]) && ci_eq_char(e[2], t[2])),
{
    if ci_eq_char(e[0], t[0]) && ci_eq_char(e[1], t[1]) && ci_eq_char(e[2], t[2]) {
        assert forall|i: int| 0 <= i < e.len() implies ci_eq_char(e[i], #[trigger] t[i]) by {
            assert(i == 0 || i == 1 || i == 2);
        }
    }
}

/// Loudness normalization for a stored clip. The board stores clips as
/// uploaded; normalization is recorded as applied without altering the
/// file, and never fails.
pub fn normalize_audio_file(_filepath: &str) -> (r: Result<(), String>)
    ensures
        r is Ok,
{
    Ok(())
}

} // verus!
