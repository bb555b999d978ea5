//! Escaping and quoting of translated arguments.
//!
//! Command lines are handed to the remote shell as one joined string, so
//! every argument is first escaped — newlines become a quoted-newline
//! escape that survives the joining, and the bytes `"`, `<`, `>` and `!`
//! are backslash-escaped so the remote shell's history and redirection
//! layers leave them alone — and then quoted.  An argument that already
//! carries a quote byte is assumed pre-quoted by the caller and is never
//! wrapped again; otherwise the argument is wrapped in double quotes
//! when it is empty or holds a byte the remote shell would split or
//! interpret.  The policy differs slightly in non-interactive mode: an
//! option-looking argument with an invalid byte but no space passes
//! through with a trailing separator space instead of being wrapped,
//! because the invocation layer already quotes such tokens elsewhere.

use vstd::prelude::*;

use crate::bytes::push_range;
use crate::policy::ShellMode;

verus! {

/// What a single byte becomes under escaping.
pub open spec fn escape_char(c: u8) -> Seq<u8> {
    if c == '\n' as u8 {
        seq!['$' as u8, '\'' as u8, '\n' as u8, '\'' as u8]
    } else if c == '"' as u8 {
        seq!['\\' as u8, '"' as u8]
    } else if c == '<' as u8 {
        seq!['\\' as u8, '<' as u8]
    } else if c == '>' as u8 {
        seq!['\\' as u8, '>' as u8]
    } else if c == '!' as u8 {
        seq!['\\' as u8, '!' as u8]
    } else {
        seq![c]
    }
}

/// A whole argument under escaping, byte by byte.
pub open spec fn escape_seq(s: Seq<u8>) -> Seq<u8>
    decreases s.len(),
{
    if s.len() == 0 {
        Seq::empty()
    } else {
        escape_seq(s.drop_last()) + escape_char(s.last())
    }
}

/// A byte that forces an argument to be wrapped in double quotes:
/// space, the parentheses and the pipe.
pub open spec fn is_invalid_char(c: u8) -> bool {
    c == ' ' as u8 || c == '(' as u8 || c == ')' as u8 || c == '|' as u8
}

/// Whether the argument already carries a quote byte.
pub open spec fn has_quote_byte(s: Seq<u8>) -> bool {
    exists|i: int| 0 <= i < s.len() && s[i] == '"' as u8
}

/// A whole argument under quoting.  An argument that already holds a
/// quote byte is assumed pre-quoted and stays as it is.  Otherwise an
/// empty argument is always rendered as an explicit empty-quoted token,
/// and one holding an invalid byte is wrapped in double quotes — except
/// that in non-interactive mode an option-looking argument with an
/// invalid byte but no space passes through with one trailing
/// separator space instead.
pub open spec fn quote_seq(mode: ShellMode, s: Seq<u8>) -> Seq<u8> {
    if has_quote_byte(s) {
        s
    } else if s.len() == 0 {
        seq!['"' as u8, '"' as u8]
    } else if exists|i: int| 0 <= i < s.len() && is_invalid_char(s[i]) {
        if mode == ShellMode::NonInteractive && s[0] == '-' as u8 && (forall|i: int|
            0 <= i < s.len() ==> s[i] != ' ' as u8) {
            s + seq![' ' as u8]
        } else {
            seq!['"' as u8] + s + seq!['"' as u8]
        }
    } else {
        s
    }
}

/// Escapes the bytes of one argument for the remote shell.
pub fn escape_characters(arg: Vec<u8>) -> (r: Vec<u8>)
    ensures
        r@ == escape_seq(arg@),
{
    let n = arg.len();
    let mut out: Vec<u8> = Vec::new();
    let mut i: usize = 0;
    while i < n
        invariant
            i <= n == arg@.len(),
            out@ == escape_seq(arg@.subrange(0, i as int)),
        decreases n - i,
    {
        let c = arg[i];
        if c == '\n' as u8 {
            out.push('$' as u8);
            out.push('\'' as u8);
            out.push('\n' as u8);
            out.push('\'' as u8);
        } else if c == '"' as u8 {
            out.push('\\' as u8);
            out.push('"' as u8);
        } else if c == '<' as u8 {
            out.push('\\' as u8);
            out.push('<' as u8);
        } else if c == '>' as u8 {
            out.push('\\' as u8);
            out.push('>' as u8);
        } else if c == '!' as u8 {
            out.push('\\' as u8);
            out.push('!' as u8);
        } else {
            out.push(c);
        }
        proof {
            assert(arg@.subrange(0, i + 1 as int).drop_last() =~= arg@.subrange(0, i as int));
            assert(arg@.subrange(0, i + 1 as int).last() == arg@[i as int]);
            assert(out@ =~= escape_seq(arg@.subrange(0, i as int)) + escape_char(arg@[i as int]));
        }
        i = i + 1;
    }
    proof {
        assert(arg@.subrange(0, n as int) =~= arg@);
    }
    out
}

/// Whether a byte forces quoting.
pub fn invalid_characters(c: u8) -> (r: bool)
    ensures
        r == is_invalid_char(c),
{
    c == ' ' as u8 || c == '(' as u8 || c == ')' as u8 || c == '|' as u8
}

/// Quotes one argument for the given shell mode, as `quote_seq` says:
/// a pre-quoted argument stays untouched, an empty one becomes the
/// explicit empty-quoted token, and one with an invalid byte is wrapped
/// — or, in non-interactive mode, passed through with a trailing
/// separator space when it looks like an option and holds no space.
pub fn quote_argument(mode: ShellMode, arg: Vec<u8>) -> (r: Vec<u8>)
    ensures
        r@ == quote_seq(mode, arg@),
{
    let n = arg.len();
    let mut has_quote = false;
    let mut has_invalid = false;
    let mut has_space = false;
    let mut i: usize = 0;
    while i < n
        invariant
            i <= n == arg@.len(),
            has_quote == exists|j: int| 0 <= j < i && arg@[j] == '"' as u8,
            has_invalid == exists|j: int| 0 <= j < i && is_invalid_char(#[trigger] arg@[j]),
            has_space == exists|j: int| 0 <= j < i && arg@[j] == ' ' as u8,
        decreases n - i,
    {
        let c = arg[i];
        if c == '"' as u8 {
            has_quote = true;
        }
        if invalid_characters(c) {
            has_invalid = true;
            proof {
                assert(is_invalid_char(arg@[i as int]));
            }
        }
        if c == ' ' as u8 {
            has_space = true;
        }
        i = i + 1;
    }
    if has_quote {
        return arg;
    }
    if n == 0 {
        let mut out: Vec<u8> = Vec::new();
        out.push('"' as u8);
        out.push('"' as u8);
        proof {
            assert(out@ =~= seq!['"' as u8, '"' as u8]);
        }
        return out;
    }
    if has_invalid {
        let noninteractive = match mode {
            ShellMode::NonInteractive => true,
            ShellMode::Interactive => false,
        };
        if noninteractive && arg[0] == '-' as u8 && !has_space {
            let ghost arg0 = arg@;
            let mut out = arg;
            out.push(' ' as u8);
            proof {
                assert(out@ =~= arg0 + seq![' ' as u8]);
            }
            return out;
        }
        let mut out: Vec<u8> = Vec::new();
        out.push('"' as u8);
        push_range(&mut out, &arg, 0, n);
        out.push('"' as u8);
        proof {
            assert(out@ =~= seq!['"' as u8] + arg@ + seq!['"' as u8]);
        }
        return out;
    }
    arg
}

/// An argument that already carries a quote byte is trusted to be
/// quoted by the caller and is never wrapped in additional quotes, in
/// either shell mode.
pub proof fn lemma_quoted_argument_not_rewrapped(mode: ShellMode, s: Seq<u8>)
    requires
        exists|i: int| 0 <= i < s.len() && s[i] == '"' as u8,
    ensures
        quote_seq(mode, s) == s,
{
}

} // verus!
