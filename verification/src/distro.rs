//! Resolution of the remote execution target from the working directory.
//!
//! A working directory reached through the `\\wsl$\` or
//! `\\wsl.localhost\` UNC prefix carries the distribution name as the
//! share component right after the prefix; any other directory falls
//! back to a configured default, or to the system default when none is
//! configured.

use vstd::prelude::*;

use crate::bytes::ascii_seq;
use crate::bytes::push_range;
use crate::bytes::starts_with;
use crate::bytes::starts_with_str;
use crate::relpath::run_end;

verus! {

/// How long the recognized UNC server prefix of the path is: the length
/// of `\\wsl$\` or of `\\wsl.localhost\`, or nothing for other paths.
pub open spec fn wsl_unc_prefix_len(path: Seq<u8>) -> Option<int> {
    if starts_with(path, ascii_seq("\\\\wsl$\\"@)) {
        Some(7)
    } else if starts_with(path, ascii_seq("\\\\wsl.localhost\\"@)) {
        Some(16)
    } else {
        None
    }
}

/// The distribution name carried by the path: the share component
/// between the UNC prefix and the next backslash.  For a path without
/// the prefix, the configured default stands in.
pub open spec fn dist_name_spec(path: Seq<u8>, default_dist: Option<Seq<u8>>) -> Option<Seq<u8>> {
    match wsl_unc_prefix_len(path) {
        Some(p) => Some(path.subrange(p, run_end(path, p, |c: u8| c != '\\' as u8))),
        None => default_dist,
    }
}

/// Extracts the distribution name from a UNC working directory, or
/// falls back to the configured default.  A path with the UNC prefix
/// must have a backslash after the share component; on one without it
/// the share cannot be split off, and the caller must not ask.
pub fn get_wsl_dist_name(path: &Vec<u8>, default_dist: Option<Vec<u8>>) -> (r: Option<Vec<u8>>)
    requires
        match wsl_unc_prefix_len(path@) {
            Some(p) => run_end(path@, p, |c: u8| c != '\\' as u8) < path@.len(),
            None => true,
        },
    ensures
        match r {
            Some(d) => dist_name_spec(
                path@,
                match default_dist {
                    Some(dd) => Some(dd@),
                    None => None,
                },
            ) == Some(d@),
            None => dist_name_spec(
                path@,
                match default_dist {
                    Some(dd) => Some(dd@),
                    None => None,
                },
            ) is None,
        },
{
    proof {
        reveal_strlit("\\\\wsl$\\");
        reveal_strlit("\\\\wsl.localhost\\");
        assert("\\\\wsl$\\".is_ascii());
        assert("\\\\wsl.localhost\\".is_ascii());
    }
    let p: usize = if starts_with_str(path, "\\\\wsl$\\") {
        7
    } else if starts_with_str(path, "\\\\wsl.localhost\\") {
        16
    } else {
        return default_dist;
    };
    let n = path.len();
    let mut k: usize = p;
    while k < n && path[k] != '\\' as u8
        invariant
            p <= k <= n == path@.len(),
            run_end(path@, p as int, |c: u8| c != '\\' as u8) == run_end(
                path@,
                k as int,
                |c: u8| c != '\\' as u8,
            ),
        decreases n - k,
    {
        k = k + 1;
    }
    let mut d: Vec<u8> = Vec::new();
    push_range(&mut d, path, p, k);
    proof {
        assert(d@ =~= path@.subrange(p as int, k as int));
    }
    Some(d)
}

} // verus!
