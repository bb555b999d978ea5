//! Rewriting of captured output back into the caller's dialect.
//!
//! Only a fixed allow-list of path-revealing subcommands has its output
//! rewritten.  In a rewritten line, an absolute WSL path starts at the
//! beginning of a line or after whitespace and begins with `/`; the rest
//! of the line after the path is included in the replacement so that a
//! single deferred conversion call can process the whole remainder at
//! once.  A trailing `(fetch)` or `(push)` annotation, as emitted by the
//! remote-listing subcommand, is moved back out of the conversion call
//! so the annotation is not mistaken for part of the path.  The caller
//! executes the built remote `echo` command, whose substitutions perform
//! the conversions, and prints what comes back.

use vstd::prelude::*;

use crate::bytes::ascii_seq;
use crate::bytes::byte_is_out_body;
use crate::bytes::byte_is_space;
use crate::bytes::eq_str;
use crate::bytes::is_out_body;
use crate::bytes::is_space;
use crate::bytes::match_str_at;
use crate::bytes::matches_at;
use crate::bytes::push_range;
use crate::bytes::push_str_bytes;
use crate::relpath::lemma_run_end_bounds;
use crate::relpath::run_end;

verus! {

/// The output-path match that starts at position `i`, if any, as the
/// pair of the path's first position and its end.  A path starts at a
/// line start, or right after a single whitespace byte that the match
/// keeps in place, and runs from its `/` to the last byte allowed in an
/// output path.
pub open spec fn out_match_at(s: Seq<u8>, i: int) -> Option<(int, int)> {
    if (i == 0 || s[i - 1] == '\n' as u8) && i < s.len() && s[i] == '/' as u8 {
        Some((i, run_end(s, i + 1, |c: u8| is_out_body(c))))
    } else if i < s.len() && is_space(s[i]) && i + 1 < s.len() && s[i + 1] == '/' as u8 {
        Some((i + 1, run_end(s, i + 2, |c: u8| is_out_body(c))))
    } else {
        None
    }
}

pub proof fn lemma_out_match_at_bounds(s: Seq<u8>, i: int)
    requires
        0 <= i < s.len(),
    ensures
        match out_match_at(s, i) {
            Some((ps, pe)) => i <= ps < pe <= s.len(),
            None => true,
        },
{
    if (i == 0 || s[i - 1] == '\n' as u8) && i < s.len() && s[i] == '/' as u8 {
        lemma_run_end_bounds(s, i + 1, |c: u8| is_out_body(c));
    } else if i < s.len() && is_space(s[i]) && i + 1 < s.len() && s[i + 1] == '/' as u8 {
        lemma_run_end_bounds(s, i + 2, |c: u8| is_out_body(c));
    }
}

/// The text that opens a deferred back-conversion in the remote echo
/// command; `-w` asks for a Windows-dialect result.
pub open spec fn wslpath_win_open() -> Seq<u8> {
    ascii_seq("$(wslpath -w '"@)
}

/// The line from position `i` on, with every output-path match replaced
/// by a deferred back-conversion of the path and of the line remainder
/// behind it.
pub open spec fn out_rewrite_from(s: Seq<u8>, i: int) -> Seq<u8>
    decreases s.len() - i,
    when 0 <= i <= s.len()
{
    if i >= s.len() {
        Seq::empty()
    } else {
        match out_match_at(s, i) {
            Some((ps, pe)) => {
                proof {
                    lemma_out_match_at_bounds(s, i);
                }
                s.subrange(i, ps) + wslpath_win_open() + s.subrange(ps, pe) + ascii_seq("')"@)
                    + out_rewrite_from(s, pe)
            },
            None => seq![s[i]] + out_rewrite_from(s, i + 1),
        }
    }
}

/// Captured output with its absolute WSL paths deferred.
pub open spec fn out_rewrite(s: Seq<u8>) -> Seq<u8> {
    out_rewrite_from(s, 0)
}

/// Whether any output-path match occurs in the captured output.
pub open spec fn has_out_match(s: Seq<u8>) -> bool {
    exists|i: int| 0 <= i < s.len() && out_match_at(s, i) is Some
}

/// Whether a moved-out `(fetch)` annotation stands at `i`: whitespace,
/// the annotation, and the quote that closes a conversion call.
pub open spec fn fix_fetch_at(s: Seq<u8>, i: int) -> bool {
    0 <= i < s.len() && is_space(s[i]) && matches_at(s, i + 1, ascii_seq("(fetch)')"@))
}

/// Whether a moved-out `(push)` annotation stands at `i`.
pub open spec fn fix_push_at(s: Seq<u8>, i: int) -> bool {
    0 <= i < s.len() && is_space(s[i]) && matches_at(s, i + 1, ascii_seq("(push)')"@))
}

/// The rewritten line from position `i` on, with every trailing remote
/// annotation moved out of its conversion call: the call is closed
/// before the annotation, which follows after one space.
pub open spec fn remote_fix_from(s: Seq<u8>, i: int) -> Seq<u8>
    decreases s.len() - i,
    when 0 <= i <= s.len()
{
    if i >= s.len() {
        Seq::empty()
    } else if fix_fetch_at(s, i) {
        proof {
            reveal_strlit("(fetch)')");
        }
        ascii_seq("') (fetch)"@) + remote_fix_from(s, i + 10)
    } else if fix_push_at(s, i) {
        proof {
            reveal_strlit("(push)')");
        }
        ascii_seq("') (push)"@) + remote_fix_from(s, i + 9)
    } else {
        seq![s[i]] + remote_fix_from(s, i + 1)
    }
}

/// The remote echo command whose substitutions convert the paths of one
/// captured output back into the caller's dialect.
pub open spec fn echo_cmd_spec(line: Seq<u8>) -> Seq<u8> {
    ascii_seq("echo -n \""@) + remote_fix_from(out_rewrite(line), 0) + seq!['"' as u8]
}

fn out_match_at_exec(s: &Vec<u8>, i: usize) -> (r: Option<(usize, usize)>)
    requires
        i < s@.len(),
    ensures
        match r {
            Some(m) => out_match_at(s@, i as int) == Some((m.0 as int, m.1 as int)) && i <= m.0
                < m.1 <= s@.len(),
            None => out_match_at(s@, i as int) is None,
        },
{
    proof {
        lemma_out_match_at_bounds(s@, i as int);
    }
    let n = s.len();
    if (i == 0 || s[i - 1] == '\n' as u8) && s[i] == '/' as u8 {
        let pe = out_run_exec(s, i + 1);
        Some((i, pe))
    } else if byte_is_space(s[i]) && i + 1 < n && s[i + 1] == '/' as u8 {
        let pe = out_run_exec(s, i + 2);
        Some((i + 1, pe))
    } else {
        None
    }
}

fn out_run_exec(s: &Vec<u8>, j: usize) -> (e: usize)
    requires
        j <= s@.len(),
    ensures
        e as int == run_end(s@, j as int, |c: u8| is_out_body(c)),
        j <= e <= s@.len(),
{
    let n = s.len();
    let mut k: usize = j;
    while k < n && byte_is_out_body(s[k])
        invariant
            j <= k <= n == s@.len(),
            run_end(s@, j as int, |c: u8| is_out_body(c)) == run_end(
                s@,
                k as int,
                |c: u8| is_out_body(c),
            ),
        decreases n - k,
    {
        k = k + 1;
    }
    k
}

fn out_found_exec(s: &Vec<u8>) -> (r: bool)
    ensures
        r == has_out_match(s@),
{
    let n = s.len();
    let mut i: usize = 0;
    while i < n
        invariant
            i <= n == s@.len(),
            forall|j: int| 0 <= j < i ==> #[trigger] out_match_at(s@, j) is None,
        decreases n - i,
    {
        if (i == 0 || s[i - 1] == '\n' as u8) && s[i] == '/' as u8 {
            proof {
                assert(out_match_at(s@, i as int) is Some);
            }
            return true;
        }
        if byte_is_space(s[i]) && i + 1 < n && s[i + 1] == '/' as u8 {
            proof {
                assert(out_match_at(s@, i as int) is Some);
            }
            return true;
        }
        i = i + 1;
    }
    false
}

fn out_rewrite_exec(s: &Vec<u8>) -> (r: Vec<u8>)
    ensures
        r@ == out_rewrite(s@),
{
    let n = s.len();
    let mut out: Vec<u8> = Vec::new();
    let mut i: usize = 0;
    while i < n
        invariant
            i <= n == s@.len(),
            out_rewrite(s@) == out@ + out_rewrite_from(s@, i as int),
        decreases n - i,
    {
        let ghost out0 = out@;
        proof {
            reveal_strlit("$(wslpath -w '");
            reveal_strlit("')");
            assert("$(wslpath -w '".is_ascii());
            assert("')".is_ascii());
        }
        match out_match_at_exec(s, i) {
            Some((ps, pe)) => {
                push_range(&mut out, s, i, ps);
                push_str_bytes(&mut out, "$(wslpath -w '");
                push_range(&mut out, s, ps, pe);
                push_str_bytes(&mut out, "')");
                proof {
                    assert(out@ + out_rewrite_from(s@, pe as int) =~= out0 + out_rewrite_from(
                        s@,
                        i as int,
                    ));
                }
                i = pe;
            },
            None => {
                out.push(s[i]);
                proof {
                    assert(out@ + out_rewrite_from(s@, i + 1 as int) =~= out0 + out_rewrite_from(
                        s@,
                        i as int,
                    ));
                }
                i = i + 1;
            },
        }
    }
    proof {
        assert(out@ =~= out@ + out_rewrite_from(s@, n as int));
    }
    out
}

fn remote_fix_exec(s: &Vec<u8>) -> (r: Vec<u8>)
    ensures
        r@ == remote_fix_from(s@, 0),
{
    let n = s.len();
    let mut out: Vec<u8> = Vec::new();
    let mut i: usize = 0;
    while i < n
        invariant
            i <= n == s@.len(),
            remote_fix_from(s@, 0) == out@ + remote_fix_from(s@, i as int),
        decreases n - i,
    {
        let ghost out0 = out@;
        proof {
            reveal_strlit("(fetch)')");
            reveal_strlit("(push)')");
            reveal_strlit("') (fetch)");
            reveal_strlit("') (push)");
            assert("(fetch)')".is_ascii());
            assert("(push)')".is_ascii());
            assert("') (fetch)".is_ascii());
            assert("') (push)".is_ascii());
        }
        if byte_is_space(s[i]) && match_str_at(s, i + 1, "(fetch)')") {
            push_str_bytes(&mut out, "') (fetch)");
            proof {
                assert(fix_fetch_at(s@, i as int));
                assert(out@ + remote_fix_from(s@, i + 10 as int) =~= out0 + remote_fix_from(
                    s@,
                    i as int,
                ));
            }
            i = i + 10;
        } else if byte_is_space(s[i]) && match_str_at(s, i + 1, "(push)')") {
            push_str_bytes(&mut out, "') (push)");
            proof {
                assert(fix_push_at(s@, i as int));
                assert(out@ + remote_fix_from(s@, i + 9 as int) =~= out0 + remote_fix_from(
                    s@,
                    i as int,
                ));
            }
            i = i + 9;
        } else {
            out.push(s[i]);
            proof {
                assert(!fix_fetch_at(s@, i as int) && !fix_push_at(s@, i as int));
                assert(out@ + remote_fix_from(s@, i + 1 as int) =~= out0 + remote_fix_from(
                    s@,
                    i as int,
                ));
            }
            i = i + 1;
        }
    }
    proof {
        assert(out@ =~= out@ + remote_fix_from(s@, n as int));
    }
    out
}

/// What becomes of one captured output: either it passes through
/// unchanged, or a remote command must be run and its result printed in
/// the output's stead.
pub enum OutputAction {
    Unchanged(Vec<u8>),
    Convert(Vec<u8>),
}

/// Rewrites captured output when it reveals absolute WSL paths: output
/// without a path token passes through byte for byte; otherwise the
/// built remote echo command performs the back-conversions.
pub fn translate_path_to_win(line: Vec<u8>) -> (r: OutputAction)
    ensures
        match r {
            OutputAction::Unchanged(b) => !has_out_match(line@) && b@ == line@,
            OutputAction::Convert(cmd) => has_out_match(line@) && cmd@ == echo_cmd_spec(line@),
        },
{
    if !out_found_exec(&line) {
        return OutputAction::Unchanged(line);
    }
    proof {
        reveal_strlit("echo -n \"");
        assert("echo -n \"".is_ascii());
    }
    let rewritten = out_rewrite_exec(&line);
    let fixed = remote_fix_exec(&rewritten);
    let mut cmd: Vec<u8> = Vec::new();
    push_str_bytes(&mut cmd, "echo -n \"");
    push_range(&mut cmd, &fixed, 0, fixed.len());
    cmd.push('"' as u8);
    proof {
        assert(cmd@ =~= echo_cmd_spec(line@));
    }
    OutputAction::Convert(cmd)
}

/// A subcommand whose output may reveal paths and is therefore
/// rewritten: revision resolution, remote listing and repository
/// initialization.
pub open spec fn is_translated_command(a: Seq<u8>) -> bool {
    ||| a == ascii_seq("rev-parse"@)
    ||| a == ascii_seq("remote"@)
    ||| a == ascii_seq("init"@)
}

/// Whether any argument names a subcommand on the output allow-list.
pub open spec fn any_translated_command(args: Seq<Seq<u8>>) -> bool {
    exists|i: int| 0 <= i < args.len() && is_translated_command(#[trigger] args[i])
}

/// Whether the invocation's output must be captured and rewritten.
pub fn should_translate_output(args: &Vec<Vec<u8>>) -> (r: bool)
    ensures
        r == any_translated_command(args.deep_view()),
{
    proof {
        reveal_strlit("rev-parse");
        reveal_strlit("remote");
        reveal_strlit("init");
    }
    let n = args.len();
    let mut i: usize = 0;
    while i < n
        invariant
            i <= n == args.deep_view().len(),
            forall|j: int| 0 <= j < i ==> !is_translated_command(#[trigger] args.deep_view()[j]),
        decreases n - i,
    {
        proof {
            reveal_strlit("rev-parse");
            reveal_strlit("remote");
            reveal_strlit("init");
        }
        let a = &args[i];
        if eq_str(a, "rev-parse") || eq_str(a, "remote") || eq_str(a, "init") {
            proof {
                assert(args.deep_view()[i as int] == args@[i as int]@);
            }
            return true;
        }
        proof {
            assert(args.deep_view()[i as int] == args@[i as int]@);
        }
        i = i + 1;
    }
    false
}

/// Applies the output rewrite only for the allow-listed subcommands:
/// for every other invocation the captured bytes pass through
/// unchanged, byte for byte.
pub fn rewrite_output(args: &Vec<Vec<u8>>, line: Vec<u8>) -> (r: OutputAction)
    ensures
        !any_translated_command(args.deep_view()) ==> r is Unchanged && r->Unchanged_0@ == line@,
        match r {
            OutputAction::Unchanged(b) => b@ == line@ && (!any_translated_command(args.deep_view())
                || !has_out_match(line@)),
            OutputAction::Convert(cmd) => any_translated_command(args.deep_view())
                && has_out_match(line@) && cmd@ == echo_cmd_spec(line@),
        },
{
    if should_translate_output(args) {
        translate_path_to_win(line)
    } else {
        OutputAction::Unchanged(line)
    }
}

} // verus!
