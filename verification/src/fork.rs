//! Patching of editor arguments for the interactive-rebase helper.
//!
//! A configuration argument that names the helper's Windows executable
//! as an editor — a span `.editor=` followed, on the same line, by a
//! path ending in the helper executable's name — is patched to name the
//! caller-side helper script instead; the original executable path is
//! handed back so the caller can share it with the remote environment.
//! The path capture is greedy: it runs to the last occurrence of the
//! executable name on the line.

use vstd::prelude::*;

use crate::bytes::ascii_seq;
use crate::bytes::match_str_at;
use crate::bytes::matches_at;
use crate::bytes::push_range;
use crate::bytes::push_str_bytes;
use crate::relpath::lemma_run_end_bounds;
use crate::relpath::line_end;
use crate::relpath::line_end_exec;

verus! {

/// The largest position `e`, with `lo + 11 <= e <= hi`, at which an
/// occurrence of the helper executable's name ends.
pub open spec fn last_marker_end(s: Seq<u8>, lo: int, e: int) -> Option<int>
    decreases e - lo,
    when 0 <= lo
{
    if e < lo + 11 {
        None
    } else if matches_at(s, e - 11, ascii_seq("Fork.RI.exe"@)) {
        proof {
            reveal_strlit("Fork.RI.exe");
        }
        Some(e)
    } else {
        last_marker_end(s, lo, e - 1)
    }
}

pub proof fn lemma_last_marker_end_bounds(s: Seq<u8>, lo: int, e: int)
    requires
        0 <= lo,
    ensures
        match last_marker_end(s, lo, e) {
            Some(m) => lo + 11 <= m <= e && m <= s.len(),
            None => true,
        },
    decreases e - lo,
{
    reveal_strlit("Fork.RI.exe");
    if e < lo + 11 {
    } else if matches_at(s, e - 11, ascii_seq("Fork.RI.exe"@)) {
        assert(ascii_seq("Fork.RI.exe"@).len() == 11);
    } else {
        lemma_last_marker_end_bounds(s, lo, e - 1);
    }
}

/// The end of the editor match that starts at position `i`, if any: the
/// span `.editor=` must stand at `i`, and the helper executable's name
/// must end somewhere between the span and the end of the line; the
/// match runs to the last such occurrence.
pub open spec fn editor_match_end(s: Seq<u8>, i: int) -> Option<int> {
    if 0 <= i && matches_at(s, i, ascii_seq(".editor="@)) {
        last_marker_end(s, i + 8, line_end(s, i + 8))
    } else {
        None
    }
}

pub proof fn lemma_editor_match_end_bounds(s: Seq<u8>, i: int)
    requires
        0 <= i <= s.len(),
    ensures
        match editor_match_end(s, i) {
            Some(e) => i + 19 <= e <= s.len(),
            None => true,
        },
{
    reveal_strlit(".editor=");
    if matches_at(s, i, ascii_seq(".editor="@)) {
        assert(ascii_seq(".editor="@).len() == 8);
        lemma_run_end_bounds(s, i + 8, |c: u8| c != '\n' as u8);
        lemma_last_marker_end_bounds(s, i + 8, line_end(s, i + 8));
    }
}

/// The argument from position `i` on, with every editor match replaced
/// by the span `.editor=` and the helper script's path.
pub open spec fn patched_from(s: Seq<u8>, i: int, script: Seq<u8>) -> Seq<u8>
    decreases s.len() - i,
    when 0 <= i <= s.len()
{
    if i >= s.len() {
        Seq::empty()
    } else {
        match editor_match_end(s, i) {
            Some(e) => {
                proof {
                    lemma_editor_match_end_bounds(s, i);
                }
                ascii_seq(".editor="@) + script + patched_from(s, e, script)
            },
            None => seq![s[i]] + patched_from(s, i + 1, script),
        }
    }
}

/// The position and end of the first editor match of the argument, from
/// position `i` on.
pub open spec fn first_editor_match(s: Seq<u8>, i: int) -> Option<(int, int)>
    decreases s.len() - i,
    when 0 <= i <= s.len()
{
    if i >= s.len() {
        None
    } else {
        match editor_match_end(s, i) {
            Some(e) => Some((i, e)),
            None => first_editor_match(s, i + 1),
        }
    }
}

/// The original editor executable path of the first editor match: what
/// stands between its `.editor=` span and its end.
pub open spec fn editor_exe_path(s: Seq<u8>) -> Option<Seq<u8>> {
    match first_editor_match(s, 0) {
        Some((i, e)) => Some(s.subrange(i + 8, e)),
        None => None,
    }
}

fn editor_match_end_exec(s: &Vec<u8>, i: usize) -> (r: Option<usize>)
    requires
        i <= s@.len(),
    ensures
        match r {
            Some(e) => editor_match_end(s@, i as int) == Some(e as int) && i < e <= s@.len(),
            None => editor_match_end(s@, i as int) is None,
        },
{
    proof {
        reveal_strlit(".editor=");
        reveal_strlit("Fork.RI.exe");
        assert(".editor=".is_ascii());
        assert("Fork.RI.exe".is_ascii());
        lemma_editor_match_end_bounds(s@, i as int);
    }
    if !match_str_at(s, i, ".editor=") {
        return None;
    }
    let n = s.len();
    proof {
        assert(ascii_seq(".editor="@).len() == 8);
        assert(i + 8 <= n);
    }
    let le = line_end_exec(s, i + 8);
    let mut e: usize = le;
    loop
        invariant
            i + 8 <= e,
            e <= s@.len(),
            i + 8 <= s@.len(),
            matches_at(s@, i as int, ascii_seq(".editor="@)),
            last_marker_end(s@, i + 8 as int, line_end(s@, i + 8 as int)) == last_marker_end(
                s@,
                i + 8 as int,
                e as int,
            ),
        decreases e,
    {
        proof {
            reveal_strlit(".editor=");
            reveal_strlit("Fork.RI.exe");
            assert("Fork.RI.exe".is_ascii());
            assert(ascii_seq("Fork.RI.exe"@).len() == 11);
        }
        if e < 11 || e - 11 < i + 8 {
            return None;
        }
        if match_str_at(s, e - 11, "Fork.RI.exe") {
            return Some(e);
        }
        e = e - 1;
    }
}

/// Patches one argument for the interactive-rebase helper: every editor
/// match is redirected to the helper script, and the first match's
/// original executable path is returned alongside so the caller can
/// share it with the remote environment.  An argument without a match
/// is returned unchanged, with no path to share.
pub fn patch_argument(arg: &Vec<u8>, script_path: &Vec<u8>) -> (r: (Vec<u8>, Option<Vec<u8>>))
    ensures
        r.0@ == patched_from(arg@, 0, script_path@),
        match r.1 {
            Some(v) => editor_exe_path(arg@) == Some(v@),
            None => editor_exe_path(arg@) is None,
        },
{
    let n = arg.len();
    let mut out: Vec<u8> = Vec::new();
    let mut first: Option<(usize, usize)> = None;
    let mut i: usize = 0;
    while i < n
        invariant
            i <= n == arg@.len(),
            patched_from(arg@, 0, script_path@) == out@ + patched_from(
                arg@,
                i as int,
                script_path@,
            ),
            match first {
                Some(m) => first_editor_match(arg@, 0) == Some((m.0 as int, m.1 as int)) && m.0 + 8
                    <= m.1 <= arg@.len(),
                None => first_editor_match(arg@, 0) == first_editor_match(arg@, i as int),
            },
        decreases n - i,
    {
        let ghost out0 = out@;
        proof {
            reveal_strlit(".editor=");
            assert(".editor=".is_ascii());
            lemma_editor_match_end_bounds(arg@, i as int);
        }
        match editor_match_end_exec(arg, i) {
            Some(e) => {
                push_str_bytes(&mut out, ".editor=");
                push_range(&mut out, script_path, 0, script_path.len());
                proof {
                    assert(out@ + patched_from(arg@, e as int, script_path@) =~= out0
                        + patched_from(arg@, i as int, script_path@));
                }
                if first.is_none() {
                    first = Some((i, e));
                }
                i = e;
            },
            None => {
                out.push(arg[i]);
                proof {
                    assert(out@ + patched_from(arg@, i + 1 as int, script_path@) =~= out0
                        + patched_from(arg@, i as int, script_path@));
                }
                i = i + 1;
            },
        }
    }
    proof {
        assert(out@ =~= out@ + patched_from(arg@, n as int, script_path@));
    }
    let shared: Option<Vec<u8>> = match first {
        Some((fi, fe)) => {
            let mut v: Vec<u8> = Vec::new();
            push_range(&mut v, arg, fi + 8, fe);
            proof {
                assert(v@ =~= arg@.subrange(fi + 8 as int, fe as int));
            }
            Some(v)
        },
        None => None,
    };
    (out, shared)
}

} // verus!
