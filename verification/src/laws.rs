//! Properties that hold across the translation pipeline.

use vstd::prelude::*;

use crate::bytes::is_drive_letter;
use crate::bytes::is_pre_delim;
use crate::bytes::is_rel_head;
use crate::bytes::is_rel_tail;
use crate::bytes::is_slash;
use crate::bytes::starts_with;
use crate::classify::abs_match_at;
use crate::classify::abs_prefix_end;
use crate::classify::abs_rewrite;
use crate::classify::abs_rewrite_from;
use crate::classify::has_file_prefix;
use crate::classify::has_transport_prefix;
use crate::quote::escape_char;
use crate::quote::escape_seq;
use crate::quote::is_invalid_char;
use crate::quote::quote_seq;
use crate::relpath::bs_to_fs;
use crate::relpath::fs_to_bs;
use crate::relpath::lemma_rel_before_end_bounds;
use crate::relpath::lemma_run_end_exact;
use crate::relpath::lemma_run_end_props;
use crate::relpath::rel_before_end;
use crate::relpath::rel_body_matches;
use crate::relpath::rel_match;
use crate::relpath::rel_rewrite;
use crate::relpath::run_end;
use crate::translate::abs_stage;
use crate::translate::format_spec;
use crate::translate::translate_unix_spec;

verus! {

/// An argument that begins with `p` agrees with `p` byte for byte.
proof fn lemma_starts_with_index(s: Seq<u8>, p: Seq<u8>, k: int)
    requires
        starts_with(s, p),
        0 <= k < p.len(),
    ensures
        s[k] == p[k],
{
    assert(s.subrange(0, p.len() as int)[k] == s[k]);
}

/// No transport scheme can open an argument free of forward slashes.
proof fn lemma_no_slash_no_transport(s: Seq<u8>)
    requires
        forall|i: int| 0 <= i < s.len() ==> s[i] != '/' as u8,
    ensures
        !has_transport_prefix(s),
        !has_file_prefix(s),
{
    reveal_strlit("ssh://");
    reveal_strlit("git://");
    reveal_strlit("http://");
    reveal_strlit("https://");
    reveal_strlit("ftp://");
    reveal_strlit("ftps://");
    reveal_strlit("file://");
    if starts_with(s, crate::bytes::ascii_seq("ssh://"@)) {
        lemma_starts_with_index(s, crate::bytes::ascii_seq("ssh://"@), 4);
    }
    if starts_with(s, crate::bytes::ascii_seq("git://"@)) {
        lemma_starts_with_index(s, crate::bytes::ascii_seq("git://"@), 4);
    }
    if starts_with(s, crate::bytes::ascii_seq("http://"@)) {
        lemma_starts_with_index(s, crate::bytes::ascii_seq("http://"@), 5);
    }
    if starts_with(s, crate::bytes::ascii_seq("https://"@)) {
        lemma_starts_with_index(s, crate::bytes::ascii_seq("https://"@), 6);
    }
    if starts_with(s, crate::bytes::ascii_seq("ftp://"@)) {
        lemma_starts_with_index(s, crate::bytes::ascii_seq("ftp://"@), 4);
    }
    if starts_with(s, crate::bytes::ascii_seq("ftps://"@)) {
        lemma_starts_with_index(s, crate::bytes::ascii_seq("ftps://"@), 5);
    }
    if starts_with(s, crate::bytes::ascii_seq("file://"@)) {
        lemma_starts_with_index(s, crate::bytes::ascii_seq("file://"@), 5);
    }
}

/// Without an opening for an absolute path anywhere, the absolute-path
/// rewrite leaves every suffix of the argument in place.
proof fn lemma_abs_rewrite_identity(s: Seq<u8>, i: int)
    requires
        0 <= i <= s.len(),
        forall|j: int| 0 <= j < s.len() ==> #[trigger] abs_match_at(s, j) is None,
    ensures
        abs_rewrite_from(s, i) == s.subrange(i, s.len() as int),
    decreases s.len() - i,
{
    if i >= s.len() {
        assert(abs_rewrite_from(s, i) =~= s.subrange(i, s.len() as int));
    } else {
        lemma_abs_rewrite_identity(s, i + 1);
        assert(abs_rewrite_from(s, i) =~= s.subrange(i, s.len() as int));
    }
}

/// Without a delimiter-and-body combination anywhere, no leading span
/// is found.
proof fn lemma_rel_before_end_none(s: Seq<u8>, k: int)
    requires
        k < s.len(),
        forall|p: int| 0 <= p <= s.len() ==> !#[trigger] rel_body_matches(s, p),
    ensures
        rel_before_end(s, k) is None,
    decreases k,
{
    if k < 1 {
    } else {
        lemma_rel_before_end_none(s, k - 1);
    }
}

/// Escaping leaves an argument without escapable bytes in place.
proof fn lemma_escape_identity(s: Seq<u8>)
    requires
        forall|i: int|
            0 <= i < s.len() ==> s[i] != '\n' as u8 && s[i] != '"' as u8 && s[i] != '<' as u8
                && s[i] != '>' as u8 && s[i] != '!' as u8,
    ensures
        escape_seq(s) == s,
    decreases s.len(),
{
    if s.len() == 0 {
        assert(escape_seq(s) =~= s);
    } else {
        lemma_escape_identity(s.drop_last());
        assert(escape_char(s.last()) == seq![s.last()]);
        assert(escape_seq(s) =~= s);
    }
}

/// A byte that neither looks like part of a path nor requires quoting:
/// no separators, no newline, and none of the escaped or quoted bytes.
pub open spec fn is_plain_byte(c: u8) -> bool {
    &&& c != '\\' as u8
    &&& c != '/' as u8
    &&& c != '\n' as u8
    &&& c != '"' as u8
    &&& c != '<' as u8
    &&& c != '>' as u8
    &&& c != '!' as u8
    &&& !is_invalid_char(c)
}

/// Idempotence on plain arguments: an argument consisting only of plain
/// bytes passes through translation, escaping and quoting unchanged,
/// whatever the shell mode, the terminator state and the existence
/// answer.
pub proof fn lemma_plain_argument_unchanged(
    s: Seq<u8>,
    rel_exists: bool,
    mode: crate::policy::ShellMode,
    double_dash_found: bool,
)
    requires
        s.len() > 0,
        forall|i: int| 0 <= i < s.len() ==> is_plain_byte(#[trigger] s[i]),
    ensures
        format_spec(s, rel_exists, mode, double_dash_found) == s,
{
    lemma_no_slash_no_transport(s);
    assert forall|j: int| 0 <= j < s.len() implies #[trigger] abs_match_at(s, j) is None by {
        assert(abs_prefix_end(s, 0) is None);
        assert(abs_prefix_end(s, j + 1) is None);
    }
    lemma_abs_rewrite_identity(s, 0);
    assert(abs_rewrite(s) =~= s);
    assert(abs_stage(s) == s);
    assert forall|p: int| 0 <= p <= s.len() implies !#[trigger] rel_body_matches(s, p) by {
        lemma_run_end_props(s, p, |c: u8| is_rel_head(c));
    }
    let r0 = run_end(s, 0, |c: u8| c != '\\' as u8);
    lemma_run_end_props(s, 0, |c: u8| c != '\\' as u8);
    lemma_rel_before_end_none(s, r0 - 1);
    assert(rel_match(s) is None);
    assert(translate_unix_spec(s, rel_exists, double_dash_found) == s);
    lemma_escape_identity(s);
    assert(quote_seq(mode, s) == s);
}

/// A relative path argument in the caller's dialect whose whole tail is
/// one path body, so that translation maps every backslash.  After the
/// first backslash only path-body bytes occur; before it only head
/// bytes and colons; no forward slash anywhere.  The remaining
/// conjuncts exclude exactly the byte patterns that the matching rules
/// claim as absolute paths: an opening backslash, a colon right before
/// the first backslash (a drive prefix), a colon at the very start
/// (which no leading span can absorb), and a doubled backslash right
/// after a delimiter byte (a UNC prefix).
pub open spec fn is_caller_relative_path(s: Seq<u8>) -> bool {
    let r0 = run_end(s, 0, |c: u8| c != '\\' as u8);
    &&& s.len() > 0
    &&& s[0] != '\\' as u8
    &&& (exists|i: int| 0 <= i < s.len() && s[i] == '\\' as u8)
    &&& (forall|i: int| 0 <= i < s.len() ==> s[i] != '/' as u8)
    &&& (forall|i: int| r0 <= i < s.len() ==> is_rel_tail(#[trigger] s[i]))
    &&& (forall|i: int| 0 <= i < r0 ==> is_rel_head(#[trigger] s[i]) || s[i] == ':' as u8)
    &&& ((forall|i: int| 0 <= i < r0 ==> s[i] != ':' as u8) || (exists|k: int|
        1 <= k <= r0 - 2 && s[k] == ':' as u8 && (forall|i: int|
            k < i < r0 ==> s[i] != ':' as u8)))
    &&& (forall|i: int|
        0 <= i && i + 2 < s.len() ==> !(is_pre_delim(#[trigger] s[i]) && s[i + 1] == '\\' as u8
            && s[i + 2] == '\\' as u8))
}

/// When some position up to `k0` carries a delimiter followed by a
/// matching path body, the leading-span search succeeds.
proof fn lemma_rel_before_end_finds(s: Seq<u8>, k0: int)
    requires
        k0 < s.len(),
        exists|k: int|
            1 <= k <= k0 && is_pre_delim(#[trigger] s[k]) && rel_body_matches(s, k + 1),
    ensures
        rel_before_end(s, k0) is Some,
    decreases k0,
{
    let k = choose|k: int|
        1 <= k <= k0 && is_pre_delim(#[trigger] s[k]) && rel_body_matches(s, k + 1);
    if k0 < 1 {
    } else if is_pre_delim(s[k0]) && rel_body_matches(s, k0 + 1) {
    } else {
        assert(k < k0);
        lemma_rel_before_end_finds(s, k0 - 1);
    }
}

/// The leading span never reaches past the position the search starts
/// from.
proof fn lemma_rel_before_end_le(s: Seq<u8>, k0: int)
    requires
        k0 < s.len(),
    ensures
        match rel_before_end(s, k0) {
            Some(ps) => ps <= k0 + 1,
            None => true,
        },
    decreases k0,
{
    if k0 < 1 {
    } else if is_pre_delim(s[k0]) && rel_body_matches(s, k0 + 1) {
    } else {
        lemma_rel_before_end_le(s, k0 - 1);
    }
}

/// Round trip on confirmed relative paths: translation turns every
/// backslash into a forward slash and changes nothing else, and the
/// caller-side backslash mapping recovers the original argument.
pub proof fn lemma_relative_path_round_trip(s: Seq<u8>, rel_exists: bool, double_dash_found: bool)
    requires
        is_caller_relative_path(s),
        rel_exists || double_dash_found,
    ensures
        translate_unix_spec(s, rel_exists, double_dash_found) == bs_to_fs(s),
        fs_to_bs(bs_to_fs(s)) == s,
{
    let nb = |c: u8| c != '\\' as u8;
    let hd = |c: u8| is_rel_head(c);
    let r0 = run_end(s, 0, nb);
    lemma_run_end_props(s, 0, nb);
    assert(r0 < s.len()) by {
        if r0 == s.len() {
            let w = choose|i: int| 0 <= i < s.len() && s[i] == '\\' as u8;
            assert(nb(s[w]));
        }
    }
    assert(s[r0] == '\\' as u8);
    assert(r0 >= 1) by {
        if r0 == 0 {
            assert(s[0] == '\\' as u8);
        }
    }
    // No colon stands right before the first backslash, and none at or
    // after it.
    assert forall|x: int| r0 <= x < s.len() implies s[x] != ':' as u8 by {
        assert(is_rel_tail(s[x]));
    }
    assert(s[r0 - 1] != ':' as u8) by {
        if exists|k: int|
            1 <= k <= r0 - 2 && s[k] == ':' as u8 && (forall|i: int|
                k < i < r0 ==> s[i] != ':' as u8) {
            let k = choose|k: int|
                1 <= k <= r0 - 2 && s[k] == ':' as u8 && (forall|i: int|
                    k < i < r0 ==> s[i] != ':' as u8);
            assert(k < r0 - 1 < r0);
        } else {
            assert(forall|i: int| 0 <= i < r0 ==> s[i] != ':' as u8);
        }
    }
    // The absolute stage leaves the argument alone: no opening for an
    // absolute path occurs anywhere.
    lemma_no_slash_no_transport(s);
    assert forall|j: int| 0 <= j < s.len() implies #[trigger] abs_match_at(s, j) is None by {
        assert(abs_prefix_end(s, 0) is None) by {
            if s.len() >= 3 && is_drive_letter(s[0]) && s[1] == ':' as u8 && is_slash(s[2]) {
                assert(s[2] == '\\' as u8);
                assert(1 < r0);
                assert(r0 <= 2);
                assert(s[r0 - 1] == ':' as u8);
            }
        }
        if 0 < j && is_pre_delim(s[j]) {
            assert(abs_prefix_end(s, j + 1) is None) by {
                if j + 4 <= s.len() && is_drive_letter(s[j + 1]) && s[j + 2] == ':' as u8
                    && is_slash(s[j + 3]) {
                    assert(s[j + 3] == '\\' as u8);
                    assert(j + 2 < r0);
                    assert(r0 <= j + 3);
                    assert(s[r0 - 1] == ':' as u8);
                }
                if j + 3 <= s.len() && s[j + 1] == '\\' as u8 && s[j + 2] == '\\' as u8 {
                    assert(!(is_pre_delim(s[j]) && s[j + 1] == '\\' as u8 && s[j + 2]
                        == '\\' as u8));
                }
            }
        }
    }
    lemma_abs_rewrite_identity(s, 0);
    assert(abs_rewrite(s) =~= s);
    assert(abs_stage(s) == s);
    // The candidate starts at or before the first backslash: either a
    // leading span is found, or — when no colon blocks it — the body
    // runs from the very start.
    let before = rel_before_end(s, r0 - 1);
    let ps: int = if before is Some {
        before->0
    } else {
        0
    };
    if before is Some {
        lemma_rel_before_end_bounds(s, r0 - 1);
        lemma_rel_before_end_le(s, r0 - 1);
        assert(rel_body_matches(s, ps));
        assert(0 <= ps <= r0);
    } else {
        assert(forall|i: int| 0 <= i < r0 ==> s[i] != ':' as u8) by {
            if exists|k: int|
                1 <= k <= r0 - 2 && s[k] == ':' as u8 && (forall|i: int|
                    k < i < r0 ==> s[i] != ':' as u8) {
                let k = choose|k: int|
                    1 <= k <= r0 - 2 && s[k] == ':' as u8 && (forall|i: int|
                        k < i < r0 ==> s[i] != ':' as u8);
                assert forall|x: int| k + 1 <= x < r0 implies hd(s[x]) by {
                    assert(s[x] != ':' as u8);
                }
                lemma_run_end_exact(s, k + 1, r0, hd);
                assert(rel_body_matches(s, k + 1));
                lemma_rel_before_end_finds(s, r0 - 1);
                assert(false);
            }
        }
        assert forall|x: int| 0 <= x < r0 implies hd(s[x]) by {
            assert(s[x] != ':' as u8);
        }
        lemma_run_end_exact(s, 0, r0, hd);
        assert(rel_body_matches(s, 0));
    }
    // The head run from the candidate stops exactly at the first
    // backslash, and the tail run covers the rest of the argument.
    let q = run_end(s, ps, hd);
    lemma_run_end_props(s, ps, hd);
    assert(q == r0) by {
        assert(s[q] == '\\' as u8);
        assert(q >= r0) by {
            if q < r0 {
                assert(nb(s[q]));
            }
        }
        if q > r0 {
            assert(hd(s[r0]));
        }
    }
    lemma_run_end_exact(s, r0 + 1, s.len() as int, |c: u8| is_rel_tail(c));
    let pe = crate::relpath::rel_path_end(s, ps);
    assert(pe == s.len());
    assert(rel_match(s) == Some((ps, s.len() as int)));
    // Everything before the candidate is backslash-free, so the mapped
    // span carries every backslash of the argument.
    assert(rel_rewrite(s) =~= bs_to_fs(s)) by {
        assert(s.subrange(s.len() as int, s.len() as int) =~= Seq::<u8>::empty());
        assert forall|i: int| 0 <= i < ps implies s[i] != '\\' as u8 by {
            assert(nb(s[i]));
        }
        assert(s.subrange(0, ps) + bs_to_fs(s.subrange(ps, s.len() as int)) + s.subrange(
            s.len() as int,
            s.len() as int,
        ) =~= bs_to_fs(s));
    }
    assert(translate_unix_spec(s, rel_exists, double_dash_found) == rel_rewrite(s));
    assert(fs_to_bs(bs_to_fs(s)) =~= s);
}

/// Transport-URL exclusion: an argument opening with a transport scheme
/// other than `file://`, and free of backslashes, is returned byte for
/// byte unchanged, whatever the terminator state and the existence
/// answer.
pub proof fn lemma_transport_url_unchanged(s: Seq<u8>, rel_exists: bool, double_dash_found: bool)
    requires
        has_transport_prefix(s),
        !has_file_prefix(s),
        forall|i: int| 0 <= i < s.len() ==> s[i] != '\\' as u8,
    ensures
        translate_unix_spec(s, rel_exists, double_dash_found) == s,
{
    assert(abs_stage(s) == s);
    assert forall|p: int| 0 <= p <= s.len() implies !#[trigger] rel_body_matches(s, p) by {
        lemma_run_end_props(s, p, |c: u8| is_rel_head(c));
    }
    let r0 = run_end(s, 0, |c: u8| c != '\\' as u8);
    lemma_run_end_props(s, 0, |c: u8| c != '\\' as u8);
    lemma_rel_before_end_none(s, r0 - 1);
    assert(rel_match(s) is None);
}

} // verus!
