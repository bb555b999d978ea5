//! Computation of the effective working directory.
//!
//! The invocation's working directory starts at the caller's current
//! directory and is adjusted by `-C <path>` arguments and by a work-tree
//! override (the `--work-tree=` argument, or the corresponding
//! environment value handed in by the caller).  Joining follows the
//! Windows convention: a path with a drive or UNC prefix replaces the
//! base outright, a rooted path keeps only the base's drive, and any
//! other path is appended behind a backslash.

use vstd::prelude::*;

use crate::bytes::ascii_seq;
use crate::bytes::eq_str;
use crate::bytes::is_drive_letter;
use crate::bytes::is_slash;
use crate::bytes::push_range;
use crate::bytes::starts_with;
use crate::bytes::starts_with_str;
use crate::relpath::lemma_run_end_bounds;
use crate::relpath::run_end;

verus! {

/// Whether a path begins with a drive prefix such as `C:`.
pub open spec fn has_drive_prefix(p: Seq<u8>) -> bool {
    p.len() >= 2 && is_drive_letter(p[0]) && p[1] == ':' as u8
}

/// Whether a path begins with a doubled separator, as a UNC path does.
pub open spec fn has_unc_prefix(p: Seq<u8>) -> bool {
    p.len() >= 2 && is_slash(p[0]) && is_slash(p[1])
}

/// How far the base's Windows prefix reaches: two bytes for a drive
/// `X:`, the server and share components for a UNC `\\server\share`,
/// and nothing for a prefix-free path.
pub open spec fn win_prefix_len(base: Seq<u8>) -> int {
    if has_drive_prefix(base) {
        2
    } else if has_unc_prefix(base) {
        let server_end = run_end(base, 2, |c: u8| !is_slash(c));
        if server_end < base.len() {
            run_end(base, server_end + 1, |c: u8| !is_slash(c))
        } else {
            server_end
        }
    } else {
        0
    }
}

pub proof fn lemma_win_prefix_len_bounds(base: Seq<u8>)
    ensures
        0 <= win_prefix_len(base) <= base.len(),
{
    if has_drive_prefix(base) {
    } else if has_unc_prefix(base) {
        let server_end = run_end(base, 2, |c: u8| !is_slash(c));
        lemma_run_end_bounds(base, 2, |c: u8| !is_slash(c));
        if server_end < base.len() {
            lemma_run_end_bounds(base, server_end + 1, |c: u8| !is_slash(c));
        }
    }
}

/// One step of Windows path joining, as the platform's path type does
/// it: `p` replaces the base when it carries a drive or UNC prefix; a
/// rooted `p` keeps only the base's prefix; anything else is appended,
/// behind a backslash unless the base is empty, already ends in a
/// separator, or is a bare drive `X:` (whose joins stay
/// drive-relative).
pub open spec fn win_push(base: Seq<u8>, p: Seq<u8>) -> Seq<u8> {
    if has_drive_prefix(p) || has_unc_prefix(p) {
        p
    } else if p.len() >= 1 && is_slash(p[0]) {
        base.subrange(0, win_prefix_len(base)) + p
    } else if base.len() == 0 {
        p
    } else if is_slash(base.last()) || (has_drive_prefix(base) && base.len() == 2) {
        base + p
    } else {
        base + seq!['\\' as u8] + p
    }
}

fn win_prefix_len_exec(base: &Vec<u8>) -> (r: usize)
    ensures
        r as int == win_prefix_len(base@),
        r <= base@.len(),
{
    proof {
        lemma_win_prefix_len_bounds(base@);
    }
    let n = base.len();
    if n >= 2 && crate::bytes::byte_is_drive_letter(base[0]) && base[1] == ':' as u8 {
        return 2;
    }
    if n >= 2 && crate::bytes::byte_is_slash(base[0]) && crate::bytes::byte_is_slash(base[1]) {
        let mut k: usize = 2;
        while k < n && !crate::bytes::byte_is_slash(base[k])
            invariant
                2 <= k <= n == base@.len(),
                run_end(base@, 2, |c: u8| !is_slash(c)) == run_end(
                    base@,
                    k as int,
                    |c: u8| !is_slash(c),
                ),
            decreases n - k,
        {
            k = k + 1;
        }
        if k < n {
            let mut j: usize = k + 1;
            while j < n && !crate::bytes::byte_is_slash(base[j])
                invariant
                    k + 1 <= j <= n == base@.len(),
                    run_end(base@, k + 1 as int, |c: u8| !is_slash(c)) == run_end(
                        base@,
                        j as int,
                        |c: u8| !is_slash(c),
                    ),
                decreases n - j,
            {
                j = j + 1;
            }
            return j;
        }
        return k;
    }
    0
}

/// Executable form of `win_push`, appending onto `base`.
fn win_push_exec(base: &mut Vec<u8>, p: &Vec<u8>)
    ensures
        final(base)@ == win_push(old(base)@, p@),
{
    let pn = p.len();
    let drive = pn >= 2 && crate::bytes::byte_is_drive_letter(p[0]) && p[1] == ':' as u8;
    let unc = pn >= 2 && crate::bytes::byte_is_slash(p[0]) && crate::bytes::byte_is_slash(p[1]);
    if drive || unc {
        base.clear();
        push_range(base, p, 0, pn);
        proof {
            assert(base@ =~= p@);
        }
    } else if pn >= 1 && crate::bytes::byte_is_slash(p[0]) {
        let pl = win_prefix_len_exec(base);
        base.truncate(pl);
        push_range(base, p, 0, pn);
        proof {
            assert(base@ =~= old(base)@.subrange(0, win_prefix_len(old(base)@)) + p@);
        }
    } else {
        let bn = base.len();
        if bn > 0 {
            let last = base[bn - 1];
            let bare_drive = bn == 2 && crate::bytes::byte_is_drive_letter(base[0]) && base[1]
                == ':' as u8;
            if !crate::bytes::byte_is_slash(last) && !bare_drive {
                base.push('\\' as u8);
            }
        }
        push_range(base, p, 0, pn);
        proof {
            if old(base)@.len() == 0 {
                assert(base@ =~= p@);
            } else if is_slash(old(base)@.last()) || (has_drive_prefix(old(base)@) && old(
                base,
            )@.len() == 2) {
                assert(base@ =~= old(base)@ + p@);
            } else {
                assert(base@ =~= old(base)@ + seq!['\\' as u8] + p@);
            }
        }
    }
}

/// The directory and work-tree override after scanning the arguments
/// from position `i` in the given scanning state.  `skip_next` skips
/// the value of a `-c` option; `next_is_path` applies the value of a
/// `-C` option to the directory.  The scan stops at the first argument
/// that does not look like an option, which is the subcommand.
pub open spec fn workdir_scan(
    dir: Seq<u8>,
    work_tree: Seq<u8>,
    args: Seq<Seq<u8>>,
    i: int,
    skip_next: bool,
    next_is_path: bool,
) -> (Seq<u8>, Seq<u8>)
    decreases args.len() - i,
    when 0 <= i <= args.len()
{
    if i >= args.len() {
        (dir, work_tree)
    } else {
        let a = args[i];
        if skip_next {
            workdir_scan(dir, work_tree, args, i + 1, false, next_is_path)
        } else if next_is_path {
            workdir_scan(win_push(dir, a), work_tree, args, i + 1, false, false)
        } else if a == ascii_seq("-c"@) {
            workdir_scan(dir, work_tree, args, i + 1, true, false)
        } else if a == ascii_seq("-C"@) {
            workdir_scan(dir, work_tree, args, i + 1, false, true)
        } else if starts_with(a, ascii_seq("--work-tree="@)) {
            workdir_scan(dir, a.subrange(12, a.len() as int), args, i + 1, false, false)
        } else if !(a.len() >= 1 && a[0] == '-' as u8) {
            (dir, work_tree)
        } else {
            workdir_scan(dir, work_tree, args, i + 1, false, false)
        }
    }
}

/// The effective working directory: the scan's directory, with the
/// final work-tree override, when there is one, joined on at the end.
pub open spec fn working_directory_spec(
    current_dir: Seq<u8>,
    args: Seq<Seq<u8>>,
    git_work_tree: Option<Seq<u8>>,
) -> Seq<u8> {
    let wt0 = match git_work_tree {
        Some(w) => w,
        None => Seq::empty(),
    };
    let (dir, wt) = workdir_scan(current_dir, wt0, args, 0, false, false);
    if wt.len() > 0 {
        win_push(dir, wt)
    } else {
        dir
    }
}

/// Finds the effective working directory from the current directory,
/// the argument list and the work-tree environment value.
pub fn get_working_directory(
    current_dir: Vec<u8>,
    args: &Vec<Vec<u8>>,
    git_work_tree: Option<Vec<u8>>,
) -> (r: Vec<u8>)
    ensures
        r@ == working_directory_spec(
            current_dir@,
            args.deep_view(),
            match git_work_tree {
                Some(w) => Some(w@),
                None => None,
            },
        ),
{
    let ghost gargs = args.deep_view();
    let ghost wt0: Seq<u8> = match &git_work_tree {
        Some(w) => w@,
        None => Seq::empty(),
    };
    let mut dir = current_dir;
    let mut work_tree: Vec<u8> = match git_work_tree {
        Some(w) => w,
        None => Vec::new(),
    };
    proof {
        assert(work_tree@ =~= wt0);
    }
    let n = args.len();
    let mut i: usize = 0;
    let mut skip_next = false;
    let mut next_is_path = false;
    let mut stopped = false;
    while i < n && !stopped
        invariant
            i <= n == gargs.len(),
            gargs == args.deep_view(),
            workdir_scan(current_dir@, wt0, gargs, 0, false, false) == if stopped {
                (dir@, work_tree@)
            } else {
                workdir_scan(dir@, work_tree@, gargs, i as int, skip_next, next_is_path)
            },
        decreases n - i + (if stopped {
            0int
        } else {
            1int
        }),
    {
        proof {
            reveal_strlit("-c");
            reveal_strlit("-C");
            reveal_strlit("--work-tree=");
            assert("-c".is_ascii());
            assert("-C".is_ascii());
            assert("--work-tree=".is_ascii());
            assert(gargs[i as int] == args@[i as int]@);
        }
        let a = &args[i];
        if skip_next {
            skip_next = false;
        } else if next_is_path {
            next_is_path = false;
            win_push_exec(&mut dir, a);
        } else if eq_str(a, "-c") {
            skip_next = true;
        } else if eq_str(a, "-C") {
            next_is_path = true;
        } else if starts_with_str(a, "--work-tree=") {
            let mut wt: Vec<u8> = Vec::new();
            push_range(&mut wt, a, 12, a.len());
            proof {
                assert(ascii_seq("--work-tree="@).len() == 12);
                assert(wt@ =~= gargs[i as int].subrange(12, gargs[i as int].len() as int));
            }
            work_tree = wt;
        } else if !(a.len() >= 1 && a[0] == '-' as u8) {
            stopped = true;
        } else {
        }
        if !stopped {
            i = i + 1;
        }
    }
    if work_tree.len() > 0 {
        win_push_exec(&mut dir, &work_tree);
    }
    dir
}

} // verus!
