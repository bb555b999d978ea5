//! Path classification inside argument text.
//!
//! An argument is scanned for the longest path-like token at each anchor.
//! An absolute token begins at the start of the argument or right after
//! whitespace, a colon, an equal sign or the literal `file://` prefix; it
//! opens with a drive prefix (`X:\` or `X:/`), a doubled backslash or a
//! doubled forward slash, and continues with path components whose bytes
//! stay inside `is_abs_body`, delimited by single slashes of either kind.
//! Transport URLs (`ssh://` and friends) suppress absolute rewriting for
//! the whole argument, except that a `file://` argument still has the
//! path right after the prefix rewritten.

use vstd::prelude::*;

use crate::bytes::ascii_seq;
use crate::bytes::byte_is_abs_body;
use crate::bytes::byte_is_drive_letter;
use crate::bytes::byte_is_pre_delim;
use crate::bytes::byte_is_slash;
use crate::bytes::is_abs_body;
use crate::bytes::is_drive_letter;
use crate::bytes::is_pre_delim;
use crate::bytes::is_slash;
use crate::bytes::push_range;
use crate::bytes::push_str_bytes;
use crate::bytes::starts_with;
use crate::bytes::starts_with_str;

verus! {

/// Where the opening of an absolute path ends when one begins at `i`:
/// after a drive prefix (`X:` and a slash) or after a doubled slash.
pub open spec fn abs_prefix_end(s: Seq<u8>, i: int) -> Option<int> {
    if i + 3 <= s.len() && is_drive_letter(s[i]) && s[i + 1] == ':' as u8 && is_slash(s[i + 2]) {
        Some(i + 3)
    } else if i + 2 <= s.len() && s[i] == '\\' as u8 && s[i + 1] == '\\' as u8 {
        Some(i + 2)
    } else if i + 2 <= s.len() && s[i] == '/' as u8 && s[i + 1] == '/' as u8 {
        Some(i + 2)
    } else {
        None
    }
}

/// The end of the longest run of path components starting at `j`.  A
/// component is one or more `is_abs_body` bytes followed by at most one
/// slash; `can_slash` says whether a slash may come first, which is the
/// case right after a component's body.
pub open spec fn abs_body_end(s: Seq<u8>, j: int, can_slash: bool) -> int
    decreases s.len() - j,
    when 0 <= j <= s.len()
{
    if j < s.len() && is_abs_body(s[j]) {
        abs_body_end(s, j + 1, true)
    } else if j < s.len() && is_slash(s[j]) && can_slash {
        abs_body_end(s, j + 1, false)
    } else {
        j
    }
}

pub proof fn lemma_abs_body_end_bounds(s: Seq<u8>, j: int, can_slash: bool)
    requires
        0 <= j <= s.len(),
    ensures
        j <= abs_body_end(s, j, can_slash) <= s.len(),
    decreases s.len() - j,
{
    if j < s.len() && is_abs_body(s[j]) {
        lemma_abs_body_end_bounds(s, j + 1, true);
    } else if j < s.len() && is_slash(s[j]) && can_slash {
        lemma_abs_body_end_bounds(s, j + 1, false);
    }
}

/// The absolute-path match that starts at position `i`, if any, as the
/// pair of the path's first position and its end.  At the very start of
/// the argument the path may begin at once; elsewhere, and also at the
/// start when no path opens there, a single pre-delimiter byte must
/// stand at `i` and the path begins right after it.
pub open spec fn abs_match_at(s: Seq<u8>, i: int) -> Option<(int, int)> {
    if i == 0 && abs_prefix_end(s, 0) is Some {
        let p = abs_prefix_end(s, 0)->0;
        Some((0, abs_body_end(s, p, false)))
    } else if i < s.len() && is_pre_delim(s[i]) && abs_prefix_end(s, i + 1) is Some {
        let p = abs_prefix_end(s, i + 1)->0;
        Some((i + 1, abs_body_end(s, p, false)))
    } else {
        None
    }
}

pub proof fn lemma_abs_match_at_bounds(s: Seq<u8>, i: int)
    requires
        0 <= i < s.len(),
    ensures
        match abs_match_at(s, i) {
            Some((ps, pe)) => i <= ps <= s.len() && ps < pe <= s.len() && i < pe,
            None => true,
        },
{
    if i == 0 && abs_prefix_end(s, 0) is Some {
        let p = abs_prefix_end(s, 0)->0;
        lemma_abs_body_end_bounds(s, p, false);
    } else if i < s.len() && is_pre_delim(s[i]) && abs_prefix_end(s, i + 1) is Some {
        let p = abs_prefix_end(s, i + 1)->0;
        lemma_abs_body_end_bounds(s, p, false);
    }
}

/// The text that opens a deferred path conversion in the built command
/// line: the converted path is decided by the remote side at run time.
pub open spec fn wslpath_open() -> Seq<u8> {
    ascii_seq("$(wslpath '"@)
}

/// The text that closes a deferred path conversion.
pub open spec fn wslpath_close() -> Seq<u8> {
    ascii_seq("')"@)
}

/// The argument from position `i` on, with every absolute-path match
/// replaced by a deferred conversion of the matched path; the byte
/// before the path, when one belongs to the match, stays in place.
pub open spec fn abs_rewrite_from(s: Seq<u8>, i: int) -> Seq<u8>
    decreases s.len() - i,
    when 0 <= i <= s.len()
{
    if i >= s.len() {
        Seq::empty()
    } else {
        match abs_match_at(s, i) {
            Some((ps, pe)) => {
                proof {
                    lemma_abs_match_at_bounds(s, i);
                }
                s.subrange(i, ps) + wslpath_open() + s.subrange(ps, pe) + wslpath_close()
                    + abs_rewrite_from(s, pe)
            },
            None => seq![s[i]] + abs_rewrite_from(s, i + 1),
        }
    }
}

/// A whole argument with its absolute paths deferred to the remote side.
pub open spec fn abs_rewrite(s: Seq<u8>) -> Seq<u8> {
    abs_rewrite_from(s, 0)
}

fn abs_prefix_end_exec(s: &Vec<u8>, i: usize) -> (r: Option<usize>)
    requires
        i <= s@.len(),
    ensures
        match r {
            Some(p) => abs_prefix_end(s@, i as int) == Some(p as int),
            None => abs_prefix_end(s@, i as int) is None,
        },
{
    let n = s.len();
    if n - i >= 3 && byte_is_drive_letter(s[i]) && s[i + 1] == ':' as u8 && byte_is_slash(
        s[i + 2],
    ) {
        Some(i + 3)
    } else if n - i >= 2 && s[i] == '\\' as u8 && s[i + 1] == '\\' as u8 {
        Some(i + 2)
    } else if n - i >= 2 && s[i] == '/' as u8 && s[i + 1] == '/' as u8 {
        Some(i + 2)
    } else {
        None
    }
}

fn abs_body_end_exec(s: &Vec<u8>, j: usize, can_slash: bool) -> (e: usize)
    requires
        j <= s@.len(),
    ensures
        e as int == abs_body_end(s@, j as int, can_slash),
        j <= e <= s@.len(),
    decreases s@.len() - j,
{
    if j < s.len() {
        let c = s[j];
        if byte_is_abs_body(c) {
            abs_body_end_exec(s, j + 1, true)
        } else if byte_is_slash(c) && can_slash {
            abs_body_end_exec(s, j + 1, false)
        } else {
            j
        }
    } else {
        j
    }
}

fn abs_match_at_exec(s: &Vec<u8>, i: usize) -> (r: Option<(usize, usize)>)
    requires
        i < s@.len(),
    ensures
        match r {
            Some(m) => abs_match_at(s@, i as int) == Some((m.0 as int, m.1 as int)),
            None => abs_match_at(s@, i as int) is None,
        },
{
    let n = s.len();
    if i == 0 {
        if let Some(p) = abs_prefix_end_exec(s, 0) {
            let pe = abs_body_end_exec(s, p, false);
            return Some((0, pe));
        }
    }
    if byte_is_pre_delim(s[i]) {
        if let Some(p) = abs_prefix_end_exec(s, i + 1) {
            let pe = abs_body_end_exec(s, p, false);
            return Some((i + 1, pe));
        }
    }
    None
}

/// Rewrites every absolute Windows path in `s` into a deferred remote
/// conversion, leaving all other bytes in place.
pub fn abs_rewrite_exec(s: &Vec<u8>) -> (r: Vec<u8>)
    ensures
        r@ == abs_rewrite(s@),
{
    proof {
        reveal_strlit("$(wslpath '");
        reveal_strlit("')");
        assert("$(wslpath '".is_ascii());
        assert("')".is_ascii());
    }
    let n = s.len();
    let mut out: Vec<u8> = Vec::new();
    let mut i: usize = 0;
    while i < n
        invariant
            i <= n == s@.len(),
            abs_rewrite(s@) == out@ + abs_rewrite_from(s@, i as int),
        decreases n - i,
    {
        let ghost out0 = out@;
        proof {
            reveal_strlit("$(wslpath '");
            reveal_strlit("')");
            assert("$(wslpath '".is_ascii());
            assert("')".is_ascii());
        }
        match abs_match_at_exec(s, i) {
            Some((ps, pe)) => {
                proof {
                    lemma_abs_match_at_bounds(s@, i as int);
                }
                push_range(&mut out, s, i, ps);
                push_str_bytes(&mut out, "$(wslpath '");
                push_range(&mut out, s, ps, pe);
                push_str_bytes(&mut out, "')");
                proof {
                    assert(out@ + abs_rewrite_from(s@, pe as int) =~= out0 + abs_rewrite_from(
                        s@,
                        i as int,
                    ));
                }
                i = pe;
            },
            None => {
                out.push(s[i]);
                proof {
                    assert(out@ + abs_rewrite_from(s@, i + 1 as int) =~= out0 + abs_rewrite_from(
                        s@,
                        i as int,
                    ));
                }
                i = i + 1;
            },
        }
    }
    proof {
        assert(out@ =~= out@ + abs_rewrite_from(s@, n as int));
    }
    out
}

/// Whether the argument opens with one of the transport schemes
/// `ssh://`, `git://`, `http://`, `https://`, `ftp://`, `ftps://` or
/// `file://`.
pub open spec fn has_transport_prefix(s: Seq<u8>) -> bool {
    ||| starts_with(s, ascii_seq("ssh://"@))
    ||| starts_with(s, ascii_seq("git://"@))
    ||| starts_with(s, ascii_seq("http://"@))
    ||| starts_with(s, ascii_seq("https://"@))
    ||| starts_with(s, ascii_seq("ftp://"@))
    ||| starts_with(s, ascii_seq("ftps://"@))
    ||| starts_with(s, ascii_seq("file://"@))
}

/// Whether the argument opens with the `file://` scheme.
pub open spec fn has_file_prefix(s: Seq<u8>) -> bool {
    starts_with(s, ascii_seq("file://"@))
}

/// Executable check for `has_transport_prefix`.
pub fn transport_prefix_exec(s: &Vec<u8>) -> (r: bool)
    ensures
        r == has_transport_prefix(s@),
{
    proof {
        reveal_strlit("ssh://");
        reveal_strlit("git://");
        reveal_strlit("http://");
        reveal_strlit("https://");
        reveal_strlit("ftp://");
        reveal_strlit("ftps://");
        reveal_strlit("file://");
    }
    starts_with_str(s, "ssh://") || starts_with_str(s, "git://") || starts_with_str(s, "http://")
        || starts_with_str(s, "https://") || starts_with_str(s, "ftp://") || starts_with_str(
        s,
        "ftps://",
    ) || starts_with_str(s, "file://")
}

/// Executable check for `has_file_prefix`.
pub fn file_prefix_exec(s: &Vec<u8>) -> (r: bool)
    ensures
        r == has_file_prefix(s@),
{
    proof {
        reveal_strlit("file://");
    }
    starts_with_str(s, "file://")
}

/// A `file://` argument with the absolute path right after the prefix,
/// when one stands there, replaced by a deferred remote conversion; any
/// other argument is left unchanged.
pub open spec fn file_rewrite(s: Seq<u8>) -> Seq<u8> {
    if has_file_prefix(s) && abs_prefix_end(s, 7) is Some {
        let pe = abs_body_end(s, abs_prefix_end(s, 7)->0, false);
        s.subrange(0, 7) + wslpath_open() + s.subrange(7, pe) + wslpath_close() + s.subrange(
            pe,
            s.len() as int,
        )
    } else {
        s
    }
}

/// Executable form of `file_rewrite`.
pub fn file_rewrite_exec(s: &Vec<u8>) -> (r: Vec<u8>)
    ensures
        r@ == file_rewrite(s@),
{
    proof {
        reveal_strlit("file://");
        reveal_strlit("$(wslpath '");
        reveal_strlit("')");
        assert("$(wslpath '".is_ascii());
        assert("')".is_ascii());
    }
    if file_prefix_exec(s) {
        if let Some(p) = abs_prefix_end_exec(s, 7) {
            proof {
                lemma_abs_body_end_bounds(s@, p as int, false);
            }
            let pe = abs_body_end_exec(s, p, false);
            let mut out: Vec<u8> = Vec::new();
            push_range(&mut out, s, 0, 7);
            push_str_bytes(&mut out, "$(wslpath '");
            push_range(&mut out, s, 7, pe);
            push_str_bytes(&mut out, "')");
            push_range(&mut out, s, pe, s.len());
            return out;
        }
    }
    let mut out: Vec<u8> = Vec::new();
    push_range(&mut out, s, 0, s.len());
    proof {
        assert(out@ =~= s@);
    }
    out
}

} // verus!
