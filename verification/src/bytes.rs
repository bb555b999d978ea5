//! Byte classes and small byte-sequence helpers shared by the scanners.
//!
//! Arguments and captured output are handled as raw bytes.  All character
//! classes below are ASCII classes; bytes above 0x7f fall into none of
//! them, so multi-byte characters pass through every scanner untouched.

use vstd::prelude::*;
use vstd::string::StringSliceAdditionalSpecFns;

verus! {

/// The bytes of an ASCII string, one byte per character.
pub open spec fn ascii_seq(s: Seq<char>) -> Seq<u8> {
    Seq::new(s.len(), |i: int| s[i] as u8)
}

/// An ASCII string literal viewed as a byte sequence.
pub proof fn lemma_ascii_str_bytes(p: &str)
    requires
        p.is_ascii(),
    ensures
        p.spec_bytes() =~= ascii_seq(p@),
{
    broadcast use vstd::string::is_ascii_spec_bytes;

}

/// ASCII whitespace: space, tab, newline, vertical tab, form feed and
/// carriage return.
pub open spec fn is_space(c: u8) -> bool {
    c == ' ' as u8 || c == '\t' as u8 || c == '\n' as u8 || c == 0x0b || c == 0x0c || c == 0x0d
}

/// A byte that may immediately precede a path inside an argument:
/// whitespace, a colon or an equal sign.
pub open spec fn is_pre_delim(c: u8) -> bool {
    is_space(c) || c == ':' as u8 || c == '=' as u8
}

/// A path separator in the Windows dialect: backslash or forward slash.
pub open spec fn is_slash(c: u8) -> bool {
    c == '\\' as u8 || c == '/' as u8
}

/// An ASCII letter, as allowed for a drive.
pub open spec fn is_drive_letter(c: u8) -> bool {
    ('A' as u8 <= c && c <= 'Z' as u8) || ('a' as u8 <= c && c <= 'z' as u8)
}

/// A byte allowed inside a component of an absolute Windows path.
/// The excluded bytes cannot occur in a literal path component and act
/// as terminators, so that a path token never swallows unrelated text.
pub open spec fn is_abs_body(c: u8) -> bool {
    &&& c != '<' as u8
    &&& c != '>' as u8
    &&& c != ':' as u8
    &&& c != '|' as u8
    &&& c != '?' as u8
    &&& c != '\'' as u8
    &&& c != '"' as u8
    &&& c != '\\' as u8
    &&& c != '/' as u8
    &&& c != '\n' as u8
}

/// A byte allowed in the leading component of a relative path candidate,
/// before its first backslash.
pub open spec fn is_rel_head(c: u8) -> bool {
    &&& c != '<' as u8
    &&& c != '>' as u8
    &&& c != ':' as u8
    &&& c != '|' as u8
    &&& c != '?' as u8
    &&& c != '\'' as u8
    &&& c != '"' as u8
    &&& c != '\n' as u8
    &&& c != '\\' as u8
}

/// A byte allowed in the rest of a relative path candidate, after its
/// first backslash; backslashes are allowed here.
pub open spec fn is_rel_tail(c: u8) -> bool {
    &&& c != '<' as u8
    &&& c != '>' as u8
    &&& c != ':' as u8
    &&& c != '|' as u8
    &&& c != '?' as u8
    &&& c != '\'' as u8
    &&& c != '"' as u8
    &&& c != '\n' as u8
}

/// A byte allowed inside an absolute WSL path found in captured output.
pub open spec fn is_out_body(c: u8) -> bool {
    &&& c != '<' as u8
    &&& c != '>' as u8
    &&& c != ':' as u8
    &&& c != '|' as u8
    &&& c != '?' as u8
    &&& c != '\'' as u8
    &&& c != '*' as u8
    &&& c != '\n' as u8
}

/// One sequence begins with another.
pub open spec fn starts_with(s: Seq<u8>, p: Seq<u8>) -> bool {
    p.len() <= s.len() && s.subrange(0, p.len() as int) =~= p
}

/// Executable check for `is_space`.
pub fn byte_is_space(c: u8) -> (r: bool)
    ensures
        r == is_space(c),
{
    c == ' ' as u8 || c == '\t' as u8 || c == '\n' as u8 || c == 0x0b || c == 0x0c || c == 0x0d
}

/// Executable check for `is_pre_delim`.
pub fn byte_is_pre_delim(c: u8) -> (r: bool)
    ensures
        r == is_pre_delim(c),
{
    byte_is_space(c) || c == ':' as u8 || c == '=' as u8
}

/// Executable check for `is_slash`.
pub fn byte_is_slash(c: u8) -> (r: bool)
    ensures
        r == is_slash(c),
{
    c == '\\' as u8 || c == '/' as u8
}

/// Executable check for `is_drive_letter`.
pub fn byte_is_drive_letter(c: u8) -> (r: bool)
    ensures
        r == is_drive_letter(c),
{
    ('A' as u8 <= c && c <= 'Z' as u8) || ('a' as u8 <= c && c <= 'z' as u8)
}

/// Executable check for `is_abs_body`.
pub fn byte_is_abs_body(c: u8) -> (r: bool)
    ensures
        r == is_abs_body(c),
{
    c != '<' as u8 && c != '>' as u8 && c != ':' as u8 && c != '|' as u8 && c != '?' as u8
        && c != '\'' as u8 && c != '"' as u8 && c != '\\' as u8 && c != '/' as u8 && c != '\n' as u8
}

/// Executable check for `is_rel_head`.
pub fn byte_is_rel_head(c: u8) -> (r: bool)
    ensures
        r == is_rel_head(c),
{
    c != '<' as u8 && c != '>' as u8 && c != ':' as u8 && c != '|' as u8 && c != '?' as u8
        && c != '\'' as u8 && c != '"' as u8 && c != '\n' as u8 && c != '\\' as u8
}

/// Executable check for `is_rel_tail`.
pub fn byte_is_rel_tail(c: u8) -> (r: bool)
    ensures
        r == is_rel_tail(c),
{
    c != '<' as u8 && c != '>' as u8 && c != ':' as u8 && c != '|' as u8 && c != '?' as u8
        && c != '\'' as u8 && c != '"' as u8 && c != '\n' as u8
}

/// Executable check for `is_out_body`.
pub fn byte_is_out_body(c: u8) -> (r: bool)
    ensures
        r == is_out_body(c),
{
    c != '<' as u8 && c != '>' as u8 && c != ':' as u8 && c != '|' as u8 && c != '?' as u8
        && c != '\'' as u8 && c != '*' as u8 && c != '\n' as u8
}

/// Appends `s[from..to]` to `out`.
pub fn push_range(out: &mut Vec<u8>, s: &Vec<u8>, from: usize, to: usize)
    requires
        from <= to <= s@.len(),
    ensures
        final(out)@ == old(out)@ + s@.subrange(from as int, to as int),
{
    let mut k: usize = from;
    while k < to
        invariant
            from <= k <= to <= s@.len(),
            out@ == old(out)@ + s@.subrange(from as int, k as int),
        decreases to - k,
    {
        out.push(s[k]);
        proof {
            assert(s@.subrange(from as int, k + 1 as int) =~= s@.subrange(from as int, k as int)
                + seq![s@[k as int]]);
        }
        k = k + 1;
    }
    proof {
        assert(out@ =~= old(out)@ + s@.subrange(from as int, to as int));
    }
}

/// Appends the bytes of an ASCII string literal to `out`.
pub fn push_str_bytes(out: &mut Vec<u8>, p: &str)
    requires
        p.is_ascii(),
    ensures
        final(out)@ == old(out)@ + ascii_seq(p@),
{
    proof {
        lemma_ascii_str_bytes(p);
    }
    let bs = p.as_bytes();
    let n = bs.len();
    let mut k: usize = 0;
    while k < n
        invariant
            n == ascii_seq(p@).len(),
            bs@ =~= ascii_seq(p@),
            k <= n,
            out@ == old(out)@ + ascii_seq(p@).subrange(0, k as int),
        decreases n - k,
    {
        out.push(bs[k]);
        proof {
            assert(ascii_seq(p@).subrange(0, k + 1 as int) =~= ascii_seq(p@).subrange(0, k as int)
                + seq![ascii_seq(p@)[k as int]]);
        }
        k = k + 1;
    }
    proof {
        assert(out@ =~= old(out)@ + ascii_seq(p@));
    }
}

/// The bytes of an ASCII string literal, as a fresh vector.
pub fn str_bytes(p: &str) -> (v: Vec<u8>)
    requires
        p.is_ascii(),
    ensures
        v@ == ascii_seq(p@),
{
    let mut v: Vec<u8> = Vec::new();
    push_str_bytes(&mut v, p);
    proof {
        assert(v@ =~= ascii_seq(p@));
    }
    v
}

/// Whether `s` begins with the ASCII string `p`.
pub fn starts_with_str(s: &Vec<u8>, p: &str) -> (r: bool)
    requires
        p.is_ascii(),
    ensures
        r == starts_with(s@, ascii_seq(p@)),
{
    proof {
        lemma_ascii_str_bytes(p);
    }
    let bs = p.as_bytes();
    let n = bs.len();
    if n > s.len() {
        return false;
    }
    let mut k: usize = 0;
    while k < n
        invariant
            n == ascii_seq(p@).len() <= s@.len(),
            bs@ =~= ascii_seq(p@),
            k <= n,
            forall|j: int| 0 <= j < k ==> s@[j] == ascii_seq(p@)[j],
        decreases n - k,
    {
        if s[k] != bs[k] {
            return false;
        }
        k = k + 1;
    }
    proof {
        assert(s@.subrange(0, n as int) =~= ascii_seq(p@));
    }
    true
}

/// Whether `s` equals the ASCII string `p`, byte for byte.
pub fn eq_str(s: &Vec<u8>, p: &str) -> (r: bool)
    requires
        p.is_ascii(),
    ensures
        r == (s@ == ascii_seq(p@)),
{
    proof {
        lemma_ascii_str_bytes(p);
    }
    let n = p.as_bytes().len();
    if s.len() != n {
        proof {
            assert(s@.len() != ascii_seq(p@).len());
        }
        return false;
    }
    let r = starts_with_str(s, p);
    proof {
        if r {
            assert(s@ =~= s@.subrange(0, s@.len() as int));
        }
    }
    r
}

/// Whether `p` occurs in `s` at position `i`.
pub open spec fn matches_at(s: Seq<u8>, i: int, p: Seq<u8>) -> bool {
    i + p.len() <= s.len() && s.subrange(i, i + p.len()) =~= p
}

/// Whether the ASCII string `p` occurs in `s` at position `i`.
pub fn match_str_at(s: &Vec<u8>, i: usize, p: &str) -> (r: bool)
    requires
        p.is_ascii(),
        i <= s@.len(),
    ensures
        r == matches_at(s@, i as int, ascii_seq(p@)),
{
    proof {
        lemma_ascii_str_bytes(p);
    }
    let bs = p.as_bytes();
    let m = bs.len();
    let n = s.len();
    if n - i < m {
        return false;
    }
    let mut k: usize = 0;
    while k < m
        invariant
            m == ascii_seq(p@).len(),
            bs@ =~= ascii_seq(p@),
            i + m <= n == s@.len(),
            k <= m,
            forall|j: int| 0 <= j < k ==> s@[i + j] == ascii_seq(p@)[j],
        decreases m - k,
    {
        if s[i + k] != bs[k] {
            return false;
        }
        k = k + 1;
    }
    proof {
        assert(s@.subrange(i as int, i + m as int) =~= ascii_seq(p@));
    }
    true
}

/// Whether a subrange of `s` equals the view of `key`.
pub fn match_bytes_at(s: &Vec<u8>, i: usize, key: &Vec<u8>) -> (r: bool)
    requires
        i <= s@.len(),
    ensures
        r == matches_at(s@, i as int, key@),
{
    let m = key.len();
    let n = s.len();
    if n - i < m {
        return false;
    }
    let mut k: usize = 0;
    while k < m
        invariant
            m == key@.len(),
            i + m <= n == s@.len(),
            k <= m,
            forall|j: int| 0 <= j < k ==> s@[i + j] == key@[j],
        decreases m - k,
    {
        if s[i + k] != key[k] {
            return false;
        }
        k = k + 1;
    }
    proof {
        assert(s@.subrange(i as int, i + m as int) =~= key@);
    }
    true
}

/// Whether some byte of `s` equals `c`.
pub fn contains_byte(s: &Vec<u8>, c: u8) -> (r: bool)
    ensures
        r == exists|i: int| 0 <= i < s@.len() && s@[i] == c,
{
    let n = s.len();
    let mut k: usize = 0;
    while k < n
        invariant
            k <= n == s@.len(),
            forall|j: int| 0 <= j < k ==> s@[j] != c,
        decreases n - k,
    {
        if s[k] == c {
            return true;
        }
        k = k + 1;
    }
    false
}

} // verus!
