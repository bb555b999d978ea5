//! Maintenance of the `WSLENV` propagation list.
//!
//! A value is shared with the remote environment by setting an ordinary
//! environment variable and naming it in the colon-separated `WSLENV`
//! list; a name may carry flags after a slash, such as `/p` for path
//! translation.  The computation here decides what the new list is; the
//! caller performs the actual environment writes.

use vstd::prelude::*;

use crate::bytes::ascii_seq;
use crate::bytes::match_bytes_at;
use crate::bytes::matches_at;
use crate::bytes::push_range;
use crate::bytes::push_str_bytes;

verus! {

/// Whether the list `w` already names `entry`: the entry must stand at
/// the start of the list or right after a colon, and must be followed
/// by a flag slash, a colon or the end of the list.
pub open spec fn wslenv_contains(w: Seq<u8>, entry: Seq<u8>) -> bool {
    exists|i: int|
        0 <= i && #[trigger] matches_at(w, i, entry) && (i == 0 || w[i - 1] == ':' as u8) && (i
            + entry.len() == w.len() || w[i + entry.len()] == '/' as u8 || w[i + entry.len()]
            == ':' as u8)
}

/// Executable check for `wslenv_contains`.
pub fn wslenv_contains_exec(w: &Vec<u8>, entry: &Vec<u8>) -> (r: bool)
    ensures
        r == wslenv_contains(w@, entry@),
{
    let n = w.len();
    let m = entry.len();
    let mut i: usize = 0;
    while i < n
        invariant
            i <= n == w@.len(),
            m == entry@.len(),
            forall|j: int|
                0 <= j < i ==> !(#[trigger] matches_at(w@, j, entry@) && (j == 0 || w@[j - 1]
                    == ':' as u8) && (j + m == n || w@[j + m] == '/' as u8 || w@[j + m]
                    == ':' as u8)),
        decreases n - i,
    {
        if (i == 0 || w[i - 1] == ':' as u8) && match_bytes_at(w, i, entry) {
            if i + m == n || w[i + m] == '/' as u8 || w[i + m] == ':' as u8 {
                return true;
            }
        }
        i = i + 1;
    }
    // An empty entry at the very end of the list would also satisfy the
    // predicate with i == n; check that last anchor as well.
    if (n == 0 || w[n - 1] == ':' as u8) && m == 0 {
        proof {
            assert(matches_at(w@, n as int, entry@));
        }
        return true;
    }
    proof {
        assert forall|i: int| 0 <= i && #[trigger] matches_at(w@, i, entry@) implies !((i == 0
            || w@[i - 1] == ':' as u8) && (i + entry@.len() == w@.len() || w@[i + entry@.len()]
            == '/' as u8 || w@[i + entry@.len()] == ':' as u8)) by {
            if i < n {
            } else {
                assert(i + entry@.len() <= w@.len());
                assert(i == n && entry@.len() == 0);
            }
        }
    }
    false
}

/// The name under which a value is listed in `WSLENV`: the variable
/// name, with `/p` appended when the value is a path to translate.
pub open spec fn wslenv_entry(key: Seq<u8>, translate_path: bool) -> Seq<u8> {
    if translate_path {
        key + ascii_seq("/p"@)
    } else {
        key
    }
}

/// Executable form of `wslenv_entry`.
pub fn wslenv_entry_exec(key: &Vec<u8>, translate_path: bool) -> (r: Vec<u8>)
    ensures
        r@ == wslenv_entry(key@, translate_path),
{
    let mut r: Vec<u8> = Vec::new();
    push_range(&mut r, key, 0, key.len());
    proof {
        assert(r@ =~= key@);
    }
    if translate_path {
        proof {
            reveal_strlit("/p");
            assert("/p".is_ascii());
        }
        push_str_bytes(&mut r, "/p");
    }
    r
}

/// The new value of `WSLENV` after sharing `entry`: the entry itself
/// when the list is absent or empty, the list unchanged when it already
/// names the entry, and the list with `:entry` appended otherwise.
pub open spec fn updated_wslenv(wslenv: Option<Seq<u8>>, entry: Seq<u8>) -> Seq<u8> {
    match wslenv {
        Some(w) => {
            if w.len() == 0 {
                entry
            } else if !wslenv_contains(w, entry) {
                w + seq![':' as u8] + entry
            } else {
                w
            }
        },
        None => entry,
    }
}

/// Computes the new value of `WSLENV` after sharing `entry`.
pub fn wslenv_with_entry(wslenv: &Option<Vec<u8>>, entry: &Vec<u8>) -> (r: Vec<u8>)
    ensures
        r@ == updated_wslenv(
            match wslenv {
                Some(w) => Some(w@),
                None => None,
            },
            entry@,
        ),
{
    match wslenv {
        Some(w) => {
            if w.len() == 0 {
                let mut r: Vec<u8> = Vec::new();
                push_range(&mut r, entry, 0, entry.len());
                proof {
                    assert(r@ =~= entry@);
                }
                r
            } else if !wslenv_contains_exec(w, entry) {
                let mut r: Vec<u8> = Vec::new();
                push_range(&mut r, w, 0, w.len());
                r.push(':' as u8);
                push_range(&mut r, entry, 0, entry.len());
                proof {
                    assert(r@ =~= w@ + seq![':' as u8] + entry@);
                }
                r
            } else {
                let mut r: Vec<u8> = Vec::new();
                push_range(&mut r, w, 0, w.len());
                proof {
                    assert(r@ =~= w@);
                }
                r
            }
        },
        None => {
            let mut r: Vec<u8> = Vec::new();
            push_range(&mut r, entry, 0, entry.len());
            proof {
                assert(r@ =~= entry@);
            }
            r
        },
    }
}

} // verus!
