//! Recognition of relative Windows paths inside argument text.
//!
//! A relative-path candidate is the earliest token of the form: an
//! optional leading span free of backslashes that ends in whitespace, a
//! colon or an equal sign; then a head of bytes from `is_rel_head`, one
//! backslash, and a tail of bytes from `is_rel_tail`.  The leading span
//! is chosen as long as possible.  Whether a confirmed candidate is
//! rewritten is decided by the caller (see the argument translator);
//! the rewrite itself turns every backslash of the matched span into a
//! forward slash and keeps the surrounding text in place.

use vstd::prelude::*;

use crate::bytes::byte_is_pre_delim;
use crate::bytes::byte_is_rel_head;
use crate::bytes::byte_is_rel_tail;
use crate::bytes::is_pre_delim;
use crate::bytes::is_rel_head;
use crate::bytes::is_rel_tail;

verus! {

/// The end of the longest run of bytes satisfying `f` that starts at `j`.
pub open spec fn run_end(s: Seq<u8>, j: int, f: spec_fn(u8) -> bool) -> int
    decreases s.len() - j,
    when 0 <= j <= s.len()
{
    if j < s.len() && f(s[j]) {
        run_end(s, j + 1, f)
    } else {
        j
    }
}

pub proof fn lemma_run_end_bounds(s: Seq<u8>, j: int, f: spec_fn(u8) -> bool)
    requires
        0 <= j <= s.len(),
    ensures
        j <= run_end(s, j, f) <= s.len(),
    decreases s.len() - j,
{
    if j < s.len() && f(s[j]) {
        lemma_run_end_bounds(s, j + 1, f);
    }
}

/// A run covers exactly the bytes satisfying `f`: everything before its
/// end satisfies `f`, and the byte at its end, when there is one, does
/// not.
pub proof fn lemma_run_end_props(s: Seq<u8>, j: int, f: spec_fn(u8) -> bool)
    requires
        0 <= j <= s.len(),
    ensures
        j <= run_end(s, j, f) <= s.len(),
        forall|x: int| j <= x < run_end(s, j, f) ==> f(s[x]),
        run_end(s, j, f) < s.len() ==> !f(s[run_end(s, j, f)]),
    decreases s.len() - j,
{
    if j < s.len() && f(s[j]) {
        lemma_run_end_props(s, j + 1, f);
    }
}

/// Conversely, a span of bytes satisfying `f` that is delimited by the
/// end of the text or by a byte not satisfying `f` is exactly the run.
pub proof fn lemma_run_end_exact(s: Seq<u8>, j: int, m: int, f: spec_fn(u8) -> bool)
    requires
        0 <= j <= m <= s.len(),
        forall|x: int| j <= x < m ==> f(s[x]),
        m == s.len() || !f(s[m]),
    ensures
        run_end(s, j, f) == m,
    decreases s.len() - j,
{
    if j < s.len() && f(s[j]) {
        lemma_run_end_exact(s, j + 1, m, f);
    }
}

/// The end of the current line: the position of the next newline at or
/// after `j`, or the end of the text.
pub open spec fn line_end(s: Seq<u8>, j: int) -> int {
    run_end(s, j, |c: u8| c != '\n' as u8)
}

/// Whether a relative-path body (head, backslash, tail) begins at `p`.
pub open spec fn rel_body_matches(s: Seq<u8>, p: int) -> bool {
    let q = run_end(s, p, |c: u8| is_rel_head(c));
    q > p && q < s.len() && s[q] == '\\' as u8
}

/// The end of the relative-path body that begins at `p`.
pub open spec fn rel_path_end(s: Seq<u8>, p: int) -> int {
    rel_tail_end(s, run_end(s, p, |c: u8| is_rel_head(c)) + 1)
}

/// The end of the run of tail bytes that starts at `j`.
pub open spec fn rel_tail_end(s: Seq<u8>, j: int) -> int {
    run_end(s, j, |c: u8| is_rel_tail(c))
}

/// Where the optional leading span ends.  The span takes as many bytes
/// as it can: `k` counts down from the last position its backslash-free
/// text could reach, and the first `k` whose byte is a delimiter and is
/// followed by a path body wins; the span then covers `s[0 .. k + 1]`.
pub open spec fn rel_before_end(s: Seq<u8>, k: int) -> Option<int>
    decreases k,
    when k < s.len()
{
    if k < 1 {
        None
    } else if is_pre_delim(s[k]) && rel_body_matches(s, k + 1) {
        Some(k + 1)
    } else {
        rel_before_end(s, k - 1)
    }
}

pub proof fn lemma_rel_before_end_bounds(s: Seq<u8>, k: int)
    requires
        k < s.len(),
    ensures
        match rel_before_end(s, k) {
            Some(ps) => 1 <= ps <= s.len() && rel_body_matches(s, ps),
            None => true,
        },
    decreases k,
{
    if k < 1 {
    } else if is_pre_delim(s[k]) && rel_body_matches(s, k + 1) {
    } else {
        lemma_rel_before_end_bounds(s, k - 1);
    }
}

/// The relative-path candidate of an argument: the position right after
/// the leading span, when one applies, or the start of the argument, and
/// the end of the path body found there.
pub open spec fn rel_match(s: Seq<u8>) -> Option<(int, int)> {
    let r0 = run_end(s, 0, |c: u8| c != '\\' as u8);
    match rel_before_end(s, r0 - 1) {
        Some(ps) => Some((ps, rel_path_end(s, ps))),
        None => if rel_body_matches(s, 0) {
            Some((0, rel_path_end(s, 0)))
        } else {
            None
        },
    }
}

pub proof fn lemma_rel_match_bounds(s: Seq<u8>)
    ensures
        match rel_match(s) {
            Some((ps, pe)) => 0 <= ps < pe <= s.len() && rel_body_matches(s, ps),
            None => true,
        },
{
    let r0 = run_end(s, 0, |c: u8| c != '\\' as u8);
    lemma_run_end_bounds(s, 0, |c: u8| c != '\\' as u8);
    lemma_rel_before_end_bounds(s, r0 - 1);
    match rel_match(s) {
        Some((ps, pe)) => {
            assert(rel_body_matches(s, ps));
            let q = run_end(s, ps, |c: u8| is_rel_head(c));
            lemma_run_end_bounds(s, ps, |c: u8| is_rel_head(c));
            lemma_run_end_bounds(s, q + 1, |c: u8| is_rel_tail(c));
        },
        None => {},
    }
}

/// The caller-side inverse mapping: every forward slash turned back
/// into a backslash.
pub open spec fn fs_to_bs(s: Seq<u8>) -> Seq<u8> {
    Seq::new(
        s.len(),
        |i: int|
            if s[i] == '/' as u8 {
                '\\' as u8
            } else {
                s[i]
            },
    )
}

/// The matched span with every backslash turned into a forward slash.
pub open spec fn bs_to_fs(s: Seq<u8>) -> Seq<u8> {
    Seq::new(
        s.len(),
        |i: int|
            if s[i] == '\\' as u8 {
                '/' as u8
            } else {
                s[i]
            },
    )
}

/// An argument with its confirmed relative path rewritten into the
/// remote dialect.  The unmatched spans before and after the path pass
/// through verbatim.
pub open spec fn rel_rewrite(t: Seq<u8>) -> Seq<u8> {
    match rel_match(t) {
        Some((ps, pe)) => t.subrange(0, ps) + bs_to_fs(t.subrange(ps, pe)) + t.subrange(
            pe,
            t.len() as int,
        ),
        None => t,
    }
}

fn run_nb_exec(s: &Vec<u8>, j: usize) -> (e: usize)
    requires
        j <= s@.len(),
    ensures
        e as int == run_end(s@, j as int, |c: u8| c != '\\' as u8),
        j <= e <= s@.len(),
{
    let n = s.len();
    let mut k: usize = j;
    while k < n && s[k] != '\\' as u8
        invariant
            j <= k <= n == s@.len(),
            run_end(s@, j as int, |c: u8| c != '\\' as u8) == run_end(
                s@,
                k as int,
                |c: u8| c != '\\' as u8,
            ),
        decreases n - k,
    {
        k = k + 1;
    }
    proof {
        lemma_run_end_bounds(s@, k as int, |c: u8| c != '\\' as u8);
    }
    k
}

fn run_rel_head_exec(s: &Vec<u8>, j: usize) -> (e: usize)
    requires
        j <= s@.len(),
    ensures
        e as int == run_end(s@, j as int, |c: u8| is_rel_head(c)),
        j <= e <= s@.len(),
{
    let n = s.len();
    let mut k: usize = j;
    while k < n && byte_is_rel_head(s[k])
        invariant
            j <= k <= n == s@.len(),
            run_end(s@, j as int, |c: u8| is_rel_head(c)) == run_end(
                s@,
                k as int,
                |c: u8| is_rel_head(c),
            ),
        decreases n - k,
    {
        k = k + 1;
    }
    k
}

fn run_rel_tail_exec(s: &Vec<u8>, j: usize) -> (e: usize)
    requires
        j <= s@.len(),
    ensures
        e as int == run_end(s@, j as int, |c: u8| is_rel_tail(c)),
        j <= e <= s@.len(),
{
    let n = s.len();
    let mut k: usize = j;
    while k < n && byte_is_rel_tail(s[k])
        invariant
            j <= k <= n == s@.len(),
            run_end(s@, j as int, |c: u8| is_rel_tail(c)) == run_end(
                s@,
                k as int,
                |c: u8| is_rel_tail(c),
            ),
        decreases n - k,
    {
        k = k + 1;
    }
    k
}

/// The end of the current line, executable form.
pub fn line_end_exec(s: &Vec<u8>, j: usize) -> (e: usize)
    requires
        j <= s@.len(),
    ensures
        e as int == line_end(s@, j as int),
        j <= e <= s@.len(),
{
    let n = s.len();
    let mut k: usize = j;
    while k < n && s[k] != '\n' as u8
        invariant
            j <= k <= n == s@.len(),
            run_end(s@, j as int, |c: u8| c != '\n' as u8) == run_end(
                s@,
                k as int,
                |c: u8| c != '\n' as u8,
            ),
        decreases n - k,
    {
        k = k + 1;
    }
    k
}

fn rel_body_matches_exec(s: &Vec<u8>, p: usize) -> (r: bool)
    requires
        p <= s@.len(),
    ensures
        r == rel_body_matches(s@, p as int),
{
    let q = run_rel_head_exec(s, p);
    q > p && q < s.len() && s[q] == '\\' as u8
}

fn rel_path_end_exec(s: &Vec<u8>, p: usize) -> (e: usize)
    requires
        p <= s@.len(),
        rel_body_matches(s@, p as int),
    ensures
        e as int == rel_path_end(s@, p as int),
        p < e <= s@.len(),
{
    let n = s.len();
    let q = run_rel_head_exec(s, p);
    proof {
        assert(q < n);
    }
    run_rel_tail_exec(s, q + 1)
}

fn rel_before_end_exec(s: &Vec<u8>, k: usize) -> (r: Option<usize>)
    requires
        k < s@.len(),
    ensures
        match r {
            Some(ps) => rel_before_end(s@, k as int) == Some(ps as int),
            None => rel_before_end(s@, k as int) is None,
        },
    decreases k,
{
    let n = s.len();
    if k < 1 {
        None
    } else if byte_is_pre_delim(s[k]) && rel_body_matches_exec(s, k + 1) {
        Some(k + 1)
    } else {
        rel_before_end_exec(s, k - 1)
    }
}

/// Finds the relative-path candidate of an argument, executable form.
pub fn rel_match_exec(s: &Vec<u8>) -> (r: Option<(usize, usize)>)
    ensures
        match r {
            Some(m) => rel_match(s@) == Some((m.0 as int, m.1 as int)) && m.0 < m.1 <= s@.len(),
            None => rel_match(s@) is None,
        },
{
    proof {
        lemma_rel_match_bounds(s@);
    }
    let r0 = run_nb_exec(s, 0);
    let before = if r0 >= 1 {
        rel_before_end_exec(s, r0 - 1)
    } else {
        None
    };
    match before {
        Some(ps) => {
            proof {
                lemma_rel_before_end_bounds(s@, r0 - 1 as int);
            }
            let pe = rel_path_end_exec(s, ps);
            Some((ps, pe))
        },
        None => {
            if rel_body_matches_exec(s, 0) {
                let pe = rel_path_end_exec(s, 0);
                Some((0, pe))
            } else {
                None
            }
        },
    }
}

/// Applies the relative-path rewrite to an argument, executable form.
pub fn rel_rewrite_exec(t: &Vec<u8>) -> (r: Vec<u8>)
    ensures
        r@ == rel_rewrite(t@),
{
    match rel_match_exec(t) {
        Some((ps, pe)) => {
            let mut out: Vec<u8> = Vec::new();
            crate::bytes::push_range(&mut out, t, 0, ps);
            let mut k: usize = ps;
            while k < pe
                invariant
                    ps <= k <= pe <= t@.len(),
                    out@ == t@.subrange(0, ps as int) + bs_to_fs(
                        t@.subrange(ps as int, k as int),
                    ),
                decreases pe - k,
            {
                let c = t[k];
                let m = if c == '\\' as u8 {
                    '/' as u8
                } else {
                    c
                };
                out.push(m);
                proof {
                    assert(bs_to_fs(t@.subrange(ps as int, k + 1 as int)) =~= bs_to_fs(
                        t@.subrange(ps as int, k as int),
                    ) + seq![
                        if t@[k as int] == '\\' as u8 {
                            '/' as u8
                        } else {
                            t@[k as int]
                        },
                    ]);
                }
                k = k + 1;
            }
            crate::bytes::push_range(&mut out, t, pe, t.len());
            proof {
                assert(out@ =~= rel_rewrite(t@));
            }
            out
        },
        None => {
            let mut out: Vec<u8> = Vec::new();
            crate::bytes::push_range(&mut out, t, 0, t.len());
            proof {
                assert(out@ =~= t@);
            }
            out
        },
    }
}

} // verus!
