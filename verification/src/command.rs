//! Assembly of the remote invocation.
//!
//! The formatted arguments are joined with single spaces behind the
//! remote executable name into one command string; no escaping happens
//! here, by design, so that all quoting decisions stay with the quoter.
//! The launcher's argument vector selects the distribution, the remote
//! shell and its invocation mode, and carries the joined command.

use vstd::prelude::*;

use crate::bytes::ascii_seq;
use crate::bytes::push_range;
use crate::bytes::push_str_bytes;
use crate::bytes::str_bytes;

verus! {

/// The tail of the joined command line: a space before each argument
/// from position `i` on.
pub open spec fn joined_from(args: Seq<Seq<u8>>, i: int) -> Seq<u8>
    decreases args.len() - i,
    when 0 <= i <= args.len()
{
    if i >= args.len() {
        Seq::empty()
    } else {
        seq![' ' as u8] + args[i] + joined_from(args, i + 1)
    }
}

/// The whole remote command line: the executable name and the joined
/// formatted arguments.
pub open spec fn git_command_spec(args: Seq<Seq<u8>>) -> Seq<u8> {
    ascii_seq("git"@) + joined_from(args, 0)
}

/// Joins the formatted arguments into the remote command line.
pub fn build_git_command(args: &Vec<Vec<u8>>) -> (r: Vec<u8>)
    ensures
        r@ == git_command_spec(args.deep_view()),
{
    proof {
        reveal_strlit("git");
        assert("git".is_ascii());
    }
    let ghost gargs = args.deep_view();
    let mut out = str_bytes("git");
    let n = args.len();
    let mut i: usize = 0;
    while i < n
        invariant
            i <= n == gargs.len(),
            gargs == args.deep_view(),
            git_command_spec(gargs) == out@ + joined_from(gargs, i as int),
        decreases n - i,
    {
        let ghost out0 = out@;
        proof {
            assert(gargs[i as int] == args@[i as int]@);
        }
        out.push(' ' as u8);
        let a = &args[i];
        push_range(&mut out, a, 0, a.len());
        proof {
            assert(out@ + joined_from(gargs, i + 1 as int) =~= out0 + joined_from(
                gargs,
                i as int,
            ));
        }
        i = i + 1;
    }
    proof {
        assert(out@ =~= out@ + joined_from(gargs, n as int));
    }
    out
}

/// The launcher's argument vector: the distribution selection, when one
/// is named, then the remote shell, its invocation-mode flag and the
/// joined command string.
pub open spec fn wsl_args_spec(
    dist: Option<Seq<u8>>,
    interactive: bool,
    git_cmd: Seq<u8>,
) -> Seq<Seq<u8>> {
    let pre: Seq<Seq<u8>> = match dist {
        Some(d) => seq![ascii_seq("--distribution"@), d],
        None => Seq::empty(),
    };
    let mode: Seq<u8> = if interactive {
        ascii_seq("-ic"@)
    } else {
        ascii_seq("-c"@)
    };
    pre + seq![ascii_seq("-e"@), ascii_seq("/bin/bash"@), mode, git_cmd]
}

/// Builds the launcher's argument vector.
pub fn build_wsl_args(dist: &Option<Vec<u8>>, interactive: bool, git_cmd: Vec<u8>) -> (r: Vec<
    Vec<u8>,
>)
    ensures
        r.deep_view() == wsl_args_spec(
            match dist {
                Some(d) => Some(d@),
                None => None,
            },
            interactive,
            git_cmd@,
        ),
{
    proof {
        reveal_strlit("--distribution");
        reveal_strlit("-e");
        reveal_strlit("/bin/bash");
        reveal_strlit("-ic");
        reveal_strlit("-c");
        assert("--distribution".is_ascii());
        assert("-e".is_ascii());
        assert("/bin/bash".is_ascii());
        assert("-ic".is_ascii());
        assert("-c".is_ascii());
    }
    let mut r: Vec<Vec<u8>> = Vec::new();
    match dist {
        Some(d) => {
            r.push(str_bytes("--distribution"));
            let mut dv: Vec<u8> = Vec::new();
            push_range(&mut dv, d, 0, d.len());
            proof {
                assert(dv@ =~= d@);
            }
            r.push(dv);
        },
        None => {},
    }
    r.push(str_bytes("-e"));
    r.push(str_bytes("/bin/bash"));
    if interactive {
        r.push(str_bytes("-ic"));
    } else {
        r.push(str_bytes("-c"));
    }
    r.push(git_cmd);
    proof {
        assert(r.deep_view() =~~= wsl_args_spec(
            match dist {
                Some(d) => Some(d@),
                None => None,
            },
            interactive,
            git_cmd@,
        ));
    }
    r
}

} // verus!
