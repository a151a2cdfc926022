//! Redaction and clipping of free-text error messages before they leave the process.

use vstd::prelude::*;

use crate::text::{
    ascii_lower, char_is_whitespace, char_to_lower, chars_of, is_whitespace, lower_char,
    string_from_range,
};

verus! {

/// Longest message, in characters, that leaves the process.
pub const MAX_ERROR_MESSAGE_CHARS: usize = 512;

/// What replaces the value that follows a credential marker.
pub open spec fn redaction() -> Seq<char> {
    "[redacted]"@
}

/// Markers after which a message carries a credential (compared ASCII case-insensitively).
pub open spec fn credential_markers() -> Seq<Seq<char>> {
    seq![
        "password="@,
        "passwd="@,
        "secret="@,
        "token="@,
        "api_key="@,
        "apikey="@,
        "authorization="@,
    ]
}

/// Whether the non-empty marker `m` starts `t`, ignoring ASCII case in `t`.
pub open spec fn marker_starts(t: Seq<char>, m: Seq<char>) -> bool {
    0 < m.len() <= t.len() && ascii_lower(t.take(m.len() as int)) == m
}

/// The length of the first marker of `ms` that starts `t`, if any does.
pub open spec fn marker_len(ms: Seq<Seq<char>>, t: Seq<char>) -> Option<nat>
    decreases ms.len(),
{
    if ms.len() == 0 {
        None
    } else if marker_starts(t, ms[0]) {
        Some(ms[0].len())
    } else {
        marker_len(ms.drop_first(), t)
    }
}

/// A marker length found in `t` is positive and fits in `t`.
pub proof fn lemma_marker_len_bounds(ms: Seq<Seq<char>>, t: Seq<char>)
    ensures
        marker_len(ms, t) matches Some(n) ==> 0 < n <= t.len(),
    decreases ms.len(),
{
    if ms.len() > 0 && !marker_starts(t, ms[0]) {
        lemma_marker_len_bounds(ms.drop_first(), t);
    }
}

/// `t` with every credential value replaced. `skipping` says that the characters up to
/// the next whitespace belong to a credential value that has already been replaced.
pub open spec fn redact_from(t: Seq<char>, skipping: bool) -> Seq<char>
    decreases t.len(),
{
    if t.len() == 0 {
        seq![]
    } else if skipping && !is_whitespace(t[0]) {
        redact_from(t.drop_first(), true)
    } else {
        match marker_len(credential_markers(), t) {
            Some(n) => {
                proof {
                    lemma_marker_len_bounds(credential_markers(), t);
                }
                t.take(n as int) + redaction() + redact_from(t.skip(n as int), true)
            },
            None => seq![t[0]] + redact_from(t.drop_first(), false),
        }
    }
}

/// `t` with the value after each credential marker (up to the next whitespace)
/// replaced by `[redacted]`.
pub open spec fn redact(t: Seq<char>) -> Seq<char> {
    redact_from(t, false)
}

/// The form in which an error message leaves the process: redacted, then clipped
/// to `MAX_ERROR_MESSAGE_CHARS` characters.
pub open spec fn sanitized_message(t: Seq<char>) -> Seq<char> {
    let r = redact(t);
    if r.len() > MAX_ERROR_MESSAGE_CHARS {
        r.take(MAX_ERROR_MESSAGE_CHARS as int)
    } else {
        r
    }
}

/// The views of a list of character vectors.
pub open spec fn vec_views(ms: Seq<Vec<char>>) -> Seq<Seq<char>> {
    ms.map_values(|m: Vec<char>| m@)
}

/// The credential markers, as character vectors.
fn marker_table() -> (ms: Vec<Vec<char>>)
    ensures
        vec_views(ms@) == credential_markers(),
{
    let ms: Vec<Vec<char>> = vec![
        chars_of("password="),
        chars_of("passwd="),
        chars_of("secret="),
        chars_of("token="),
        chars_of("api_key="),
        chars_of("apikey="),
        chars_of("authorization="),
    ];
    assert(vec_views(ms@) =~= credential_markers());
    ms
}

/// Whether the marker `m` starts `t[i..]`, ignoring ASCII case in `t`.
fn marker_matches_at(t: &Vec<char>, i: usize, m: &Vec<char>) -> (r: bool)
    requires
        i <= t@.len(),
    ensures
        r == marker_starts(t@.skip(i as int), m@),
{
    let ghost s = t@.skip(i as int);
    if m.len() == 0 || m.len() > t.len() - i {
        return false;
    }
    let mut j: usize = 0;
    while j < m.len()
        invariant
            i + m@.len() <= t@.len(),
            t@.len() == t.len(),
            s == t@.skip(i as int),
            j <= m@.len(),
            forall|k: int| 0 <= k < j ==> lower_char(s[k]) == m@[k],
        decreases m@.len() - j,
    {
        if char_to_lower(t[i + j]) != m[j] {
            assert(ascii_lower(s.take(m@.len() as int))[j as int] != m@[j as int]);
            return false;
        }
        j = j + 1;
    }
    assert(ascii_lower(s.take(m@.len() as int)) =~= m@);
    true
}

/// The length of the first marker of `ms` that starts `t[i..]`.
fn first_marker_at(t: &Vec<char>, i: usize, ms: &Vec<Vec<char>>) -> (r: Option<usize>)
    requires
        i <= t@.len(),
    ensures
        match r {
            Some(n) => marker_len(vec_views(ms@), t@.skip(i as int)) == Some(n as nat),
            None => marker_len(vec_views(ms@), t@.skip(i as int)) is None,
        },
{
    let ghost s = t@.skip(i as int);
    let ghost all = vec_views(ms@);
    let mut k: usize = 0;
    assert(all.skip(0) =~= all);
    while k < ms.len()
        invariant
            i <= t@.len(),
            s == t@.skip(i as int),
            all == vec_views(ms@),
            k <= ms@.len(),
            marker_len(all, s) == marker_len(all.skip(k as int), s),
        decreases ms@.len() - k,
    {
        let m = &ms[k];
        assert(all.skip(k as int).drop_first() =~= all.skip(k + 1));
        assert(all.skip(k as int)[0] == m@);
        if marker_matches_at(t, i, m) {
            return Some(m.len());
        }
        k = k + 1;
    }
    None
}

/// One step of `redact_from` over a non-empty `t` that is not skipping a value.
proof fn lemma_redact_step(t: Seq<char>, skipping: bool)
    requires
        t.len() > 0,
    ensures
        skipping && !is_whitespace(t[0]) ==> redact_from(t, skipping) == redact_from(
            t.drop_first(),
            true,
        ),
        !(skipping && !is_whitespace(t[0])) ==> redact_from(t, skipping) == match marker_len(
            credential_markers(),
            t,
        ) {
            Some(n) => t.take(n as int) + redaction() + redact_from(t.skip(n as int), true),
            None => seq![t[0]] + redact_from(t.drop_first(), false),
        },
{
}

/// Removes credentials from an error message and clips it to
/// `MAX_ERROR_MESSAGE_CHARS` characters. Every value that follows a credential
/// marker (`password=`, `token=`, ... in any ASCII case), up to the next
/// whitespace, becomes `[redacted]`.
pub fn sanitize_error_message(text: &str) -> (r: String)
    ensures
        r@ == sanitized_message(text@),
        r@.len() <= MAX_ERROR_MESSAGE_CHARS,
{
    let t = chars_of(text);
    let ms = marker_table();
    let redacted = chars_of("[redacted]");
    let n = t.len();
    let mut out: Vec<char> = Vec::new();
    let mut i: usize = 0;
    let mut skipping = false;
    assert(t@.skip(0) =~= t@);
    while i < n
        invariant
            n == t@.len(),
            i <= n,
            vec_views(ms@) == credential_markers(),
            redacted@ == redaction(),
            redact(t@) == out@ + redact_from(t@.skip(i as int), skipping),
        decreases n - i,
    {
        let ghost s = t@.skip(i as int);
        proof {
            lemma_redact_step(s, skipping);
        }
        if skipping && !char_is_whitespace(t[i]) {
            assert(s.drop_first() =~= t@.skip(i + 1));
            i = i + 1;
        } else {
            match first_marker_at(&t, i, &ms) {
                Some(len) => {
                    proof {
                        lemma_marker_len_bounds(credential_markers(), s);
                    }
                    let ghost before = out@;
                    let mut j: usize = 0;
                    while j < len
                        invariant
                            i + len <= n == t@.len(),
                            j <= len,
                            out@ == before + t@.subrange(i as int, i + j),
                        decreases len - j,
                    {
                        out.push(t[i + j]);
                        assert(t@.subrange(i as int, i + j + 1) =~= t@.subrange(
                            i as int,
                            i + j,
                        ).push(t@[i + j]));
                        j = j + 1;
                    }
                    let ghost copied = out@;
                    let mut q: usize = 0;
                    while q < redacted.len()
                        invariant
                            q <= redacted@.len(),
                            out@ == copied + redacted@.take(q as int),
                        decreases redacted@.len() - q,
                    {
                        out.push(redacted[q]);
                        assert(redacted@.take(q + 1) =~= redacted@.take(q as int).push(
                            redacted@[q as int],
                        ));
                        q = q + 1;
                    }
                    assert(redacted@.take(redacted@.len() as int) =~= redacted@);
                    assert(s.take(len as int) =~= t@.subrange(i as int, i + len));
                    assert(s.skip(len as int) =~= t@.skip(i + len));
                    assert(out@ + redact_from(t@.skip(i + len), true) =~= before + (s.take(
                        len as int,
                    ) + redaction() + redact_from(s.skip(len as int), true)));
                    i = i + len;
                    skipping = true;
                },
                None => {
                    let ghost before = out@;
                    out.push(t[i]);
                    assert(s.drop_first() =~= t@.skip(i + 1));
                    assert(out@ + redact_from(t@.skip(i + 1), false) =~= before + (seq![s[0]]
                        + redact_from(s.drop_first(), false)));
                    i = i + 1;
                    skipping = false;
                },
            }
        }
    }
    assert(out@ =~= redact(t@));
    let cut = if out.len() > MAX_ERROR_MESSAGE_CHARS {
        MAX_ERROR_MESSAGE_CHARS
    } else {
        out.len()
    };
    assert(out@.subrange(0, out@.len() as int) =~= out@);
    string_from_range(&out, 0, cut)
}

/// Characters at which no marker starts are copied unchanged.
proof fn lemma_redact_prefix(t: Seq<char>, j: int)
    requires
        0 <= j <= t.len(),
        forall|i: int| 0 <= i < j ==> #[trigger] marker_len(credential_markers(), t.skip(i)) is None,
    ensures
        redact_from(t, false) == t.take(j) + redact_from(t.skip(j), false),
    decreases j,
{
    if j == 0 {
        assert(t.skip(0) =~= t);
        assert(t.take(0) =~= seq![]);
    } else {
        lemma_redact_prefix(t, j - 1);
        let s = t.skip(j - 1);
        assert(marker_len(credential_markers(), s) is None);
        assert(s.drop_first() =~= t.skip(j));
        assert(t.take(j) =~= t.take(j - 1) + seq![s[0]]);
    }
}

/// A credential value (non-whitespace characters) is skipped up to the next
/// whitespace, after which redaction goes on as usual.
proof fn lemma_redact_skip_value(s: Seq<char>, k: int)
    requires
        0 <= k <= s.len(),
        forall|i: int| 0 <= i < k ==> !is_whitespace(#[trigger] s[i]),
        k == s.len() || is_whitespace(s[k]),
    ensures
        redact_from(s, true) == redact_from(s.skip(k), false),
    decreases k,
{
    if k == 0 {
        assert(s.skip(0) =~= s);
    } else {
        assert(s.drop_first().skip(k - 1) =~= s.skip(k));
        assert forall|i: int| 0 <= i < k - 1 implies !is_whitespace(#[trigger] s.drop_first()[i]) by {
            assert(s.drop_first()[i] == s[i + 1]);
        }
        lemma_redact_skip_value(s.drop_first(), k - 1);
    }
}

/// A message in which no credential marker starts is left as it is by redaction,
/// and also by sanitizing when it is at most `MAX_ERROR_MESSAGE_CHARS` long.
pub proof fn lemma_marker_free_message_kept(t: Seq<char>)
    requires
        forall|i: int|
            0 <= i < t.len() ==> #[trigger] marker_len(credential_markers(), t.skip(i)) is None,
    ensures
        redact(t) == t,
        t.len() <= MAX_ERROR_MESSAGE_CHARS ==> sanitized_message(t) == t,
{
    lemma_redact_prefix(t, t.len() as int);
    assert(t.take(t.len() as int) =~= t);
    assert(t.skip(t.len() as int) =~= seq![]);
}

/// The value after a credential marker is replaced: when the first marker of `t`
/// starts at `j` and is `n` characters long, and `t[j + n..e]` is the run of
/// non-whitespace characters after it, redaction keeps `t[..j + n]`, writes
/// `[redacted]` in place of `t[j + n..e]`, and goes on with `t[e..]`.
pub proof fn lemma_credential_value_redacted(t: Seq<char>, j: int, n: nat, e: int)
    requires
        0 <= j,
        j + n <= e <= t.len(),
        forall|i: int| 0 <= i < j ==> #[trigger] marker_len(credential_markers(), t.skip(i)) is None,
        marker_len(credential_markers(), t.skip(j)) == Some(n),
        forall|i: int| j + n <= i < e ==> !is_whitespace(#[trigger] t[i]),
        e == t.len() || is_whitespace(t[e]),
    ensures
        redact(t) == t.take(j + n) + redaction() + redact(t.skip(e)),
{
    lemma_redact_prefix(t, j);
    let s = t.skip(j);
    lemma_marker_len_bounds(credential_markers(), s);
    assert(s.len() > 0);
    let after = s.skip(n as int);
    assert(after =~= t.skip(j + n));
    assert forall|i: int| 0 <= i < e - (j + n) implies !is_whitespace(#[trigger] after[i]) by {
        assert(after[i] == t[j + n + i]);
    }
    if e < t.len() {
        assert(after[e - (j + n)] == t[e]);
    }
    lemma_redact_skip_value(after, e - (j + n));
    assert(after.skip(e - (j + n)) =~= t.skip(e));
    assert(t.take(j + n) =~= t.take(j) + s.take(n as int));
}

} // verus!
