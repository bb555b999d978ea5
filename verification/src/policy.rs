//! The shell-invocation-mode policy.
//!
//! An interactive remote shell sources the user's shell customization,
//! which remote-accessing commands may need for credential helpers, but
//! it is slower and can hang; it is therefore restricted to a fixed
//! allow-list of subcommands unless an override variable forces it one
//! way or the other.  The environment values are read by the caller and
//! handed in as plain optional byte strings.

use vstd::prelude::*;

use crate::bytes::ascii_seq;
use crate::bytes::eq_str;
use crate::wslenv::wslenv_contains;
use crate::wslenv::wslenv_contains_exec;

verus! {

/// The shell-invocation mode, decided once per invocation and immutable
/// afterward.  The interactive shell sources the user's customization;
/// the quoter's policy differs slightly between the two modes.
#[derive(Clone, Copy, Debug, PartialEq, Eq, Structural)]
pub enum ShellMode {
    Interactive,
    NonInteractive,
}

/// A subcommand that can access remotes and may therefore need the
/// setup of an interactive shell.
pub open spec fn is_remote_command(a: Seq<u8>) -> bool {
    ||| a == ascii_seq("clone"@)
    ||| a == ascii_seq("fetch"@)
    ||| a == ascii_seq("pull"@)
    ||| a == ascii_seq("push"@)
    ||| a == ascii_seq("ls-remote"@)
}

/// Whether any argument names a remote-accessing subcommand.
pub open spec fn any_remote_command(args: Seq<Seq<u8>>) -> bool {
    exists|i: int| 0 <= i < args.len() && is_remote_command(#[trigger] args[i])
}

/// Whether the invoked command can access remotes: some argument is on
/// the remote-accessing allow-list.
pub fn git_command_needs_interactive_shell(args: &Vec<Vec<u8>>) -> (r: bool)
    ensures
        r == any_remote_command(args.deep_view()),
{
    proof {
        reveal_strlit("clone");
        reveal_strlit("fetch");
        reveal_strlit("pull");
        reveal_strlit("push");
        reveal_strlit("ls-remote");
    }
    let n = args.len();
    let mut i: usize = 0;
    while i < n
        invariant
            i <= n == args.deep_view().len(),
            forall|j: int| 0 <= j < i ==> !is_remote_command(#[trigger] args.deep_view()[j]),
        decreases n - i,
    {
        proof {
            reveal_strlit("clone");
            reveal_strlit("fetch");
            reveal_strlit("pull");
            reveal_strlit("push");
            reveal_strlit("ls-remote");
        }
        let a = &args[i];
        if eq_str(a, "clone") || eq_str(a, "fetch") || eq_str(a, "pull") || eq_str(a, "push")
            || eq_str(a, "ls-remote") {
            proof {
                assert(args.deep_view()[i as int] == args@[i as int]@);
            }
            return true;
        }
        proof {
            assert(args.deep_view()[i as int] == args@[i as int]@);
        }
        i = i + 1;
    }
    false
}

/// The decision for the shell-invocation mode, from the override
/// variable, the login-shell signals and the argument list.
pub open spec fn use_interactive_spec(
    interactive_flag: Option<Seq<u8>>,
    bash_env: Option<Seq<u8>>,
    wslenv: Option<Seq<u8>>,
    args: Seq<Seq<u8>>,
) -> bool {
    match interactive_flag {
        Some(f) => {
            if f == ascii_seq("false"@) || f == ascii_seq("0"@) {
                false
            } else if f == ascii_seq("smart"@) {
                any_remote_command(args)
            } else {
                true
            }
        },
        None => {
            if bash_env is Some && match wslenv {
                Some(w) => wslenv_contains(w, ascii_seq("BASH_ENV"@)),
                None => false,
            } {
                false
            } else {
                any_remote_command(args)
            }
        },
    }
}

/// Decides the shell-invocation mode.  The override variable wins: a
/// falsy value forces the non-interactive shell, the adaptive value
/// defers to the remote-access allow-list, and any other value forces
/// the interactive shell.  Without an override, a login-shell startup
/// file that is marked for propagation to the remote environment forces
/// the non-interactive shell; otherwise the allow-list decides.
pub fn use_interactive_shell(
    interactive_flag: &Option<Vec<u8>>,
    bash_env: &Option<Vec<u8>>,
    wslenv: &Option<Vec<u8>>,
    args: &Vec<Vec<u8>>,
) -> (r: bool)
    ensures
        r == use_interactive_spec(
            match interactive_flag {
                Some(f) => Some(f@),
                None => None,
            },
            match bash_env {
                Some(b) => Some(b@),
                None => None,
            },
            match wslenv {
                Some(w) => Some(w@),
                None => None,
            },
            args.deep_view(),
        ),
{
    proof {
        reveal_strlit("false");
        reveal_strlit("0");
        reveal_strlit("smart");
        reveal_strlit("BASH_ENV");
        assert("BASH_ENV".is_ascii());
    }
    match interactive_flag {
        Some(f) => {
            if eq_str(f, "false") || eq_str(f, "0") {
                false
            } else if eq_str(f, "smart") {
                git_command_needs_interactive_shell(args)
            } else {
                true
            }
        },
        None => {
            if bash_env.is_some() {
                match wslenv {
                    Some(w) => {
                        let key = crate::bytes::str_bytes("BASH_ENV");
                        if wslenv_contains_exec(w, &key) {
                            return false;
                        }
                    },
                    None => {},
                }
            }
            git_command_needs_interactive_shell(args)
        },
    }
}

} // verus!
