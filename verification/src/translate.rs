//! Translation of one argument into the remote dialect, and the state
//! threaded across the argument list.
//!
//! Absolute Windows paths become deferred remote conversions; a
//! relative-path candidate is rewritten only when the caller confirms
//! that it exists on the caller's filesystem, or when the
//! options-terminator token `--` has already been seen (everything after
//! it is conventionally a path), or when the argument is the body of a
//! `file://` URL.  The existence check is the caller's: the translator
//! takes its answer as a plain boolean, so that the library itself never
//! touches the filesystem.

use vstd::prelude::*;

use crate::bytes::ascii_seq;
use crate::bytes::eq_str;
use crate::classify::abs_rewrite;
use crate::classify::abs_rewrite_exec;
use crate::classify::file_prefix_exec;
use crate::classify::file_rewrite;
use crate::classify::file_rewrite_exec;
use crate::classify::has_file_prefix;
use crate::classify::has_transport_prefix;
use crate::classify::transport_prefix_exec;
use crate::policy::ShellMode;
use crate::quote::escape_characters;
use crate::quote::escape_seq;
use crate::quote::quote_argument;
use crate::quote::quote_seq;
use crate::relpath::rel_match;
use crate::relpath::rel_match_exec;
use crate::relpath::rel_rewrite;
use crate::relpath::rel_rewrite_exec;

verus! {

/// State threaded across the ordered argument list: whether the
/// options-terminator token has been seen.  Once set it is never reset
/// for the remainder of the invocation.
pub struct TranslationState {
    pub double_dash_found: bool,
}

/// A fresh state, before any argument has been seen.
pub fn initial_state() -> (s: TranslationState)
    ensures
        !s.double_dash_found,
{
    TranslationState { double_dash_found: false }
}

/// The argument after the absolute-path stage: transport URLs suppress
/// the rewrite, except that a `file://` argument keeps the rewrite of
/// the path right after its prefix.
pub open spec fn abs_stage(s: Seq<u8>) -> Seq<u8> {
    if !has_transport_prefix(s) {
        abs_rewrite(s)
    } else if has_file_prefix(s) {
        file_rewrite(s)
    } else {
        s
    }
}

/// Whether a confirmed relative-path candidate is rewritten: the
/// argument is a `file://` body, or the terminator has been seen, or
/// the candidate exists on the caller's filesystem.
pub open spec fn rel_confirmed(s: Seq<u8>, rel_exists: bool, double_dash_found: bool) -> bool {
    has_file_prefix(s) || double_dash_found || rel_exists
}

/// One argument translated into the remote dialect.
pub open spec fn translate_unix_spec(s: Seq<u8>, rel_exists: bool, double_dash_found: bool) -> Seq<
    u8,
> {
    let t = abs_stage(s);
    if rel_match(t) is Some && rel_confirmed(s, rel_exists, double_dash_found) {
        rel_rewrite(t)
    } else {
        t
    }
}

/// The relative-path candidate an argument would be rewritten around,
/// after the absolute-path stage.
pub open spec fn rel_candidate_spec(s: Seq<u8>) -> Option<Seq<u8>> {
    let t = abs_stage(s);
    match rel_match(t) {
        Some((ps, pe)) => Some(t.subrange(ps, pe)),
        None => None,
    }
}

fn abs_stage_exec(argument: &Vec<u8>) -> (t: Vec<u8>)
    ensures
        t@ == abs_stage(argument@),
{
    if !transport_prefix_exec(argument) {
        abs_rewrite_exec(argument)
    } else if file_prefix_exec(argument) {
        file_rewrite_exec(argument)
    } else {
        let mut t: Vec<u8> = Vec::new();
        crate::bytes::push_range(&mut t, argument, 0, argument.len());
        proof {
            assert(t@ =~= argument@);
        }
        t
    }
}

/// The relative-path candidate of an argument, for the caller's
/// existence check.
pub fn relative_path_candidate(argument: &Vec<u8>) -> (r: Option<Vec<u8>>)
    ensures
        match r {
            Some(v) => rel_candidate_spec(argument@) == Some(v@),
            None => rel_candidate_spec(argument@) is None,
        },
{
    let t = abs_stage_exec(argument);
    match rel_match_exec(&t) {
        Some((ps, pe)) => {
            let mut v: Vec<u8> = Vec::new();
            crate::bytes::push_range(&mut v, &t, ps, pe);
            proof {
                assert(v@ =~= t@.subrange(ps as int, pe as int));
            }
            Some(v)
        },
        None => None,
    }
}

/// Translates one argument into the remote dialect.  `rel_exists` is
/// the caller's answer to whether `relative_path_candidate` of this
/// argument names an existing path; it is ignored when no candidate is
/// found.
pub fn translate_path_to_unix(argument: Vec<u8>, rel_exists: bool, double_dash_found: bool) -> (r:
    Vec<u8>)
    ensures
        r@ == translate_unix_spec(argument@, rel_exists, double_dash_found),
{
    let has_file = file_prefix_exec(&argument);
    let t = abs_stage_exec(&argument);
    let confirmed = has_file || double_dash_found || rel_exists;
    match rel_match_exec(&t) {
        Some(_) => {
            if confirmed {
                rel_rewrite_exec(&t)
            } else {
                t
            }
        },
        None => t,
    }
}

/// What one formatted argument becomes when it is not the terminator:
/// translated, escaped, then quoted for the decided shell mode.
pub open spec fn format_spec(
    s: Seq<u8>,
    rel_exists: bool,
    mode: ShellMode,
    double_dash_found: bool,
) -> Seq<u8> {
    quote_seq(mode, escape_seq(translate_unix_spec(s, rel_exists, double_dash_found)))
}

/// Formats one argument for the joined command line and advances the
/// translation state.  The terminator token itself is returned
/// unchanged and only sets the state's flag; every other argument is
/// translated under the current state, escaped and quoted for the
/// decided shell mode.
pub fn format_argument(
    arg: Vec<u8>,
    rel_exists: bool,
    mode: ShellMode,
    state: &mut TranslationState,
) -> (r: Vec<u8>)
    ensures
        arg@ == ascii_seq("--"@) ==> final(state).double_dash_found && r@ == arg@,
        arg@ != ascii_seq("--"@) ==> *final(state) == *old(state) && r@ == format_spec(
            arg@,
            rel_exists,
            mode,
            old(state).double_dash_found,
        ),
        old(state).double_dash_found ==> final(state).double_dash_found,
{
    proof {
        reveal_strlit("--");
    }
    if eq_str(&arg, "--") {
        state.double_dash_found = true;
        arg
    } else {
        let translated = translate_path_to_unix(arg, rel_exists, state.double_dash_found);
        let escaped = escape_characters(translated);
        quote_argument(mode, escaped)
    }
}

} // verus!
