//! The marker-delimited "active mapping" block of the SSH configuration file.
//!
//! One block per host, framed by a start and an end comment line. Upserting
//! rewrites the block in place (or from its start to the end of the text when
//! the end marker is missing); removing deletes it only when both markers are
//! present.
use vstd::prelude::*;
use vstd::string::StrSliceExecFns;
use vstd::string::StringExecFns;
use crate::text::{
    chars_of, find_from, find_from_exec, is_first_from, lacks_char, lemma_find_from_is, matches_at,
    contains,
};

verus! {

/// The comment line that opens the active block for `host`.
pub open spec fn start_marker(host: Seq<char>) -> Seq<char> {
    "# ssh-manager ACTIVE START ["@ + host + "]\n"@
}

/// The comment line that closes the active block for `host`.
pub open spec fn end_marker(host: Seq<char>) -> Seq<char> {
    "# ssh-manager ACTIVE END ["@ + host + "]\n"@
}

/// The full active block for `host` around `body`.
pub open spec fn marker_block(host: Seq<char>, body: Seq<char>) -> Seq<char> {
    start_marker(host) + body + end_marker(host)
}

/// A non-empty text whose last character is not a newline.
pub open spec fn needs_newline(t: Seq<char>) -> bool {
    t.len() > 0 && t.last() != '\n'
}

/// `t`, with a newline appended when it is non-empty and unterminated.
pub open spec fn terminated(t: Seq<char>) -> Seq<char> {
    if needs_newline(t) {
        t.push('\n')
    } else {
        t
    }
}

/// The text after writing the active block for `host` with `body` into `t`.
pub open spec fn upsert_spec(t: Seq<char>, host: Seq<char>, body: Seq<char>) -> Seq<char> {
    let s = start_marker(host);
    let e = end_marker(host);
    let b = marker_block(host, body);
    match find_from(t, s, 0) {
        Some(i) => match find_from(t, e, i + s.len()) {
            Some(j) => t.subrange(0, i) + b + t.subrange(j + e.len(), t.len() as int),
            None => t.subrange(0, i) + b,
        },
        None => terminated(t) + b,
    }
}

/// The text after deleting the active block for `host` from `t`; unchanged
/// when the start marker is missing or has no end marker after it.
pub open spec fn remove_spec(t: Seq<char>, host: Seq<char>) -> Seq<char> {
    let s = start_marker(host);
    let e = end_marker(host);
    match find_from(t, s, 0) {
        Some(i) => match find_from(t, e, i + s.len()) {
            Some(j) => t.subrange(0, i) + t.subrange(j + e.len(), t.len() as int),
            None => t,
        },
        None => t,
    }
}

/// The host entry that routes `host` through the key at `key_path`.
pub open spec fn active_body(host: Seq<char>, key_path: Seq<char>) -> Seq<char> {
    "Host "@ + host + "\n    HostName "@ + host + "\n    User git\n    IdentityFile "@ + key_path
        + "\n    AddKeysToAgent yes\n    UseKeychain yes\n    IdentitiesOnly yes\n"@
}

/// The start marker line for `host`.
pub fn start_marker_text(host: &str) -> (r: String)
    ensures
        r@ == start_marker(host@),
{
    let mut r = String::from_str("# ssh-manager ACTIVE START [");
    r.append(host);
    r.append("]\n");
    r
}

/// The end marker line for `host`.
pub fn end_marker_text(host: &str) -> (r: String)
    ensures
        r@ == end_marker(host@),
{
    let mut r = String::from_str("# ssh-manager ACTIVE END [");
    r.append(host);
    r.append("]\n");
    r
}

/// The host entry that routes `host` through the key at `key_path`.
pub fn active_body_text(host: &str, key_path: &str) -> (r: String)
    ensures
        r@ == active_body(host@, key_path@),
{
    let mut r = String::from_str("Host ");
    r.append(host);
    r.append("\n    HostName ");
    r.append(host);
    r.append("\n    User git\n    IdentityFile ");
    r.append(key_path);
    r.append("\n    AddKeysToAgent yes\n    UseKeychain yes\n    IdentitiesOnly yes\n");
    r
}

/// Writes the active block for `host` with `body` into `text`: replaces the
/// existing block, repairs one whose end marker is missing, or appends one.
pub fn upsert_marker_block(text: &str, host: &str, body: &str) -> (r: String)
    ensures
        r@ == upsert_spec(text@, host@, body@),
{
    let s = start_marker_text(host);
    let e = end_marker_text(host);
    let mut block = s.clone();
    block.append(body);
    block.append(e.as_str());
    let t = chars_of(text);
    let sv = chars_of(s.as_str());
    let ev = chars_of(e.as_str());
    let n = t.len();
    match find_from_exec(&t, &sv, 0) {
        Some(i) => {
            let mut r = String::from_str(text.substring_char(0, i));
            r.append(block.as_str());
            match find_from_exec(&t, &ev, i + sv.len()) {
                Some(j) => {
                    r.append(text.substring_char(j + ev.len(), n));
                },
                None => {},
            }
            r
        },
        None => {
            let mut r = String::from_str(text);
            if n > 0 && t[n - 1] != '\n' {
                r.append("\n");
                proof { reveal_strlit("\n"); }
                assert(r@ =~= text@.push('\n'));
            }
            r.append(block.as_str());
            r
        },
    }
}

/// Deletes the active block for `host` from `text`. The text is returned
/// unchanged when there is no start marker, or no end marker after it.
pub fn remove_marker_block(text: &str, host: &str) -> (r: String)
    ensures
        r@ == remove_spec(text@, host@),
{
    let s = start_marker_text(host);
    let e = end_marker_text(host);
    let t = chars_of(text);
    let sv = chars_of(s.as_str());
    let ev = chars_of(e.as_str());
    let n = t.len();
    match find_from_exec(&t, &sv, 0) {
        Some(i) => match find_from_exec(&t, &ev, i + sv.len()) {
            Some(j) => {
                let mut r = String::from_str(text.substring_char(0, i));
                r.append(text.substring_char(j + ev.len(), n));
                r
            },
            None => String::from_str(text),
        },
        None => String::from_str(text),
    }
}

/// `t` does not end in a newline, and ends with the start marker for `host`
/// minus that marker's final newline: appending a newline completes it.
pub open spec fn ends_with_open_start(t: Seq<char>, host: Seq<char>) -> bool {
    let s = start_marker(host);
    &&& needs_newline(t)
    &&& t.len() + 1 >= s.len()
    &&& t.subrange(t.len() + 1 - s.len(), t.len() as int) == s.drop_last()
}

/// The span `[lo, hi)` of `t` that an upsert for `host` rewrites.
pub open spec fn rewritten_span(t: Seq<char>, host: Seq<char>) -> (int, int) {
    let s = start_marker(host);
    let e = end_marker(host);
    match find_from(t, s, 0) {
        Some(i) => match find_from(t, e, i + s.len()) {
            Some(j) => (i, j + e.len()),
            None => (i, t.len() as int),
        },
        None => (t.len() as int, t.len() as int),
    }
}

proof fn lemma_find_some(t: Seq<char>, p: Seq<char>, from: int)
    ensures
        find_from(t, p, from) matches Some(i) ==> is_first_from(t, p, from, i),
        find_from(t, p, from) is None ==> forall|j: int| from <= j ==> !matches_at(t, p, j),
{
    if find_from(t, p, from) is None {
        assert forall|j: int| from <= j implies !matches_at(t, p, j) by {
            if matches_at(t, p, j) {
                lemma_first_exists(t, p, from, j);
            }
        }
    }
}

proof fn lemma_first_exists(t: Seq<char>, p: Seq<char>, from: int, j: int)
    requires
        from <= j,
        matches_at(t, p, j),
    ensures
        exists|k: int| is_first_from(t, p, from, k),
    decreases j - from,
{
    if forall|m: int| from <= m < j ==> !matches_at(t, p, m) {
        assert(is_first_from(t, p, from, j));
    } else {
        let m = choose|m: int| from <= m < j && matches_at(t, p, m);
        lemma_first_exists(t, p, from, m);
    }
}

/// The first character of either marker is `#`, and no other character of a
/// start marker is, when `host` holds none.
proof fn lemma_marker_chars(host: Seq<char>)
    requires
        lacks_char(host, '#'),
    ensures
        start_marker(host)[0] == '#',
        end_marker(host)[0] == '#',
        forall|m: int| 0 < m < start_marker(host).len() ==> start_marker(host)[m] != '#',
        start_marker(host).len() > 0,
        end_marker(host).len() > 0,
{
    reveal_strlit("# ssh-manager ACTIVE START [");
    reveal_strlit("# ssh-manager ACTIVE END [");
    reveal_strlit("]\n");
    let s = start_marker(host);
    assert forall|m: int| 0 < m < s.len() implies s[m] != '#' by {
        let l = "# ssh-manager ACTIVE START ["@;
        if m < l.len() {
        } else if m < l.len() + host.len() {
            assert(s[m] == host[m - l.len()]);
        } else {
        }
    }
}

/// A prefix that agrees with `t` up to the end of its first start marker has
/// its first start marker at the same place.
proof fn lemma_first_kept(t: Seq<char>, r: Seq<char>, s: Seq<char>, i: int)
    requires
        is_first_from(t, s, 0, i),
        r.len() >= i + s.len(),
        r.subrange(0, i + s.len()) == t.subrange(0, i + s.len()),
    ensures
        find_from(r, s, 0) == Some(i),
{
    assert(matches_at(t, s, i));
    let n = i + s.len();
    assert forall|m: int| 0 <= m < n implies #[trigger] r[m] == t[m] by {
        assert(r.subrange(0, n)[m] == r[m]);
        assert(t.subrange(0, n)[m] == t[m]);
        assert(r.subrange(0, i + s.len())[m] == t.subrange(0, i + s.len())[m]);
    }
    assert forall|j: int| 0 <= j < i implies !matches_at(r, s, j) by {
        if matches_at(r, s, j) {
            assert(r.subrange(j, j + s.len()) =~= t.subrange(j, j + s.len()));
            assert(matches_at(t, s, j));
        }
    }
    assert(r.subrange(i, i + s.len()) =~= t.subrange(i, i + s.len()));
    lemma_find_from_is(r, s, 0, i);
}

/// In `r`, a body free of `#` followed by the end marker, placed at `k`, puts
/// the first end marker from `k` right after the body.
proof fn lemma_end_after_body(r: Seq<char>, host: Seq<char>, body: Seq<char>, k: int)
    requires
        lacks_char(host, '#'),
        lacks_char(body, '#'),
        0 <= k,
        k + body.len() + end_marker(host).len() <= r.len(),
        r.subrange(k, k + body.len() + end_marker(host).len()) == body + end_marker(host),
    ensures
        find_from(r, end_marker(host), k) == Some(k + body.len()),
{
    let e = end_marker(host);
    lemma_marker_chars(host);
    let w = r.subrange(k, k + body.len() + e.len());
    assert forall|j: int| k <= j < k + body.len() implies !matches_at(r, e, j) by {
        if matches_at(r, e, j) {
            assert(r.subrange(j, j + e.len())[0] == e[0]);
            assert(w[j - k] == (body + e)[j - k]);
        }
    }
    assert(r.subrange(k + body.len(), k + body.len() + e.len()) =~= e) by {
        assert forall|m: int| 0 <= m < e.len() implies r[k + body.len() + m] == e[m] by {
            assert(w[body.len() + m] == (body + e)[body.len() + m]);
        }
    }
    lemma_find_from_is(r, e, k, k + body.len());
}

/// When `t` holds no start marker for `host`, the upsert appends the block,
/// and in the result both markers of that block are the first ones found.
proof fn lemma_appended_found(t: Seq<char>, host: Seq<char>, body: Seq<char>)
    requires
        lacks_char(host, '#'),
        lacks_char(body, '#'),
        !ends_with_open_start(t, host),
        find_from(t, start_marker(host), 0) is None,
    ensures
        upsert_spec(t, host, body) == terminated(t) + marker_block(host, body),
        find_from(upsert_spec(t, host, body), start_marker(host), 0) == Some(
            terminated(t).len() as int,
        ),
        find_from(
            upsert_spec(t, host, body),
            end_marker(host),
            terminated(t).len() as int + start_marker(host).len(),
        ) == Some(terminated(t).len() as int + start_marker(host).len() + body.len()),
{
    let s = start_marker(host);
    let e = end_marker(host);
    let tt = terminated(t);
    let b = marker_block(host, body);
    let r = tt + b;
    lemma_marker_chars(host);
    lemma_find_some(t, s, 0);
    assert forall|j: int| 0 <= j < tt.len() implies !matches_at(r, s, j) by {
        if matches_at(r, s, j) {
            let w = r.subrange(j, j + s.len());
            if j + s.len() <= t.len() {
                assert forall|k: int| 0 <= k < t.len() implies #[trigger] r[k] == t[k] by {
                    assert(r[k] == tt[k]);
                }
                assert(t.subrange(j, j + s.len()) =~= w);
                assert(matches_at(t, s, j));
            } else if j + s.len() <= tt.len() {
                assert(needs_newline(t));
                assert(tt.len() == t.len() + 1);
                assert(j == t.len() + 1 - s.len());
                assert(t.subrange(t.len() + 1 - s.len(), t.len() as int) =~= s.drop_last()) by {
                    assert forall|m: int| 0 <= m < s.len() - 1 implies t[j + m] == s[m] by {
                        assert(w[m] == r[j + m]);
                        assert(r[j + m] == tt[j + m]);
                    }
                }
                assert(ends_with_open_start(t, host));
            } else {
                let m = tt.len() - j;
                assert(w[m] == r[tt.len() as int]);
                assert(r[tt.len() as int] == b[0]);
                assert(b[0] == s[0]);
            }
        }
    }
    assert(r.subrange(tt.len() as int, tt.len() as int + s.len()) =~= s);
    lemma_find_from_is(r, s, 0, tt.len() as int);
    assert(r.subrange(tt.len() as int + s.len(), tt.len() as int + s.len() + body.len() + e.len()) =~= body + e);
    lemma_end_after_body(r, host, body, tt.len() as int + s.len());
}

/// Writing the same active block twice leaves the text as writing it once.
///
/// Holds when neither the host nor the body contains `#`, and the text does
/// not end in an unterminated copy of the start marker (appending the newline
/// would complete that marker, and the second write would then find it).
pub proof fn lemma_upsert_idempotent(t: Seq<char>, host: Seq<char>, body: Seq<char>)
    requires
        lacks_char(host, '#'),
        lacks_char(body, '#'),
        !ends_with_open_start(t, host),
    ensures
        upsert_spec(upsert_spec(t, host, body), host, body) == upsert_spec(t, host, body),
{
    let s = start_marker(host);
    let e = end_marker(host);
    let b = marker_block(host, body);
    let r = upsert_spec(t, host, body);
    lemma_marker_chars(host);
    lemma_find_some(t, s, 0);
    match find_from(t, s, 0) {
        Some(i) => {
            let rest = match find_from(t, e, i + s.len()) {
                Some(j) => t.subrange(j + e.len(), t.len() as int),
                None => Seq::<char>::empty(),
            };
            assert(r =~= t.subrange(0, i) + b + rest);
            assert(r.subrange(0, i + s.len()) =~= t.subrange(0, i + s.len()));
            lemma_first_kept(t, r, s, i);
            assert(r.subrange(i + s.len(), i + s.len() + body.len() + e.len()) =~= body + e);
            lemma_end_after_body(r, host, body, i + s.len());
            assert(r.subrange(i + s.len() + body.len() + e.len(), r.len() as int) =~= rest);
            assert(upsert_spec(r, host, body) =~= r);
        },
        None => {
            lemma_appended_found(t, host, body);
            let tt = terminated(t);
            assert(r.subrange(0, tt.len() as int) =~= tt);
            assert(r.subrange(tt.len() as int + s.len() + body.len() + e.len(), r.len() as int)
                =~= Seq::<char>::empty());
            assert(upsert_spec(r, host, body) =~= r);
        },
    }
}

/// Removing the active block just written into a text that had none gives
/// back the text, with a final newline added where it lacked one.
///
/// Holds under the same conditions as idempotence of the upsert.
pub proof fn lemma_remove_after_upsert(t: Seq<char>, host: Seq<char>, body: Seq<char>)
    requires
        lacks_char(host, '#'),
        lacks_char(body, '#'),
        !ends_with_open_start(t, host),
        find_from(t, start_marker(host), 0) is None,
    ensures
        remove_spec(upsert_spec(t, host, body), host) == terminated(t),
{
    let s = start_marker(host);
    let e = end_marker(host);
    let r = upsert_spec(t, host, body);
    lemma_appended_found(t, host, body);
    let tt = terminated(t);
    assert(r.subrange(0, tt.len() as int) =~= tt);
    assert(r.subrange(tt.len() as int + s.len() + body.len() + e.len(), r.len() as int)
        =~= Seq::<char>::empty());
    assert(remove_spec(r, host) =~= tt);
}

/// Writing the active block of one host keeps a complete block of another
/// host, character for character, wherever that block lies outside the span
/// that the write rewrites.
pub proof fn lemma_upsert_keeps_other_block(
    t: Seq<char>,
    h1: Seq<char>,
    b1: Seq<char>,
    h2: Seq<char>,
    b2: Seq<char>,
    p: int,
)
    requires
        h1 != h2,
        matches_at(t, marker_block(h2, b2), p),
        rewritten_span(t, h1).1 <= p || p + marker_block(h2, b2).len() <= rewritten_span(t, h1).0,
    ensures
        contains(upsert_spec(t, h1, b1), marker_block(h2, b2)),
{
    let s = start_marker(h1);
    let e = end_marker(h1);
    let b = marker_block(h1, b1);
    let x = marker_block(h2, b2);
    let r = upsert_spec(t, h1, b1);
    lemma_find_some(t, s, 0);
    match find_from(t, s, 0) {
        Some(i) => {
            lemma_find_some(t, e, i + s.len());
            if p + x.len() <= i {
                assert(r.subrange(p, p + x.len()) =~= t.subrange(p, p + x.len()));
                assert(matches_at(r, x, p));
            } else {
                reveal_strlit("]\n");
                assert(find_from(t, e, i + s.len()) is Some);
                let j = find_from(t, e, i + s.len())->0;
                let q = p - (j + e.len()) + i + b.len();
                assert(r =~= t.subrange(0, i) + b + t.subrange(j + e.len(), t.len() as int));
                assert(r.subrange(q, q + x.len()) =~= t.subrange(p, p + x.len()));
                assert(matches_at(r, x, q));
            }
        },
        None => {
            assert(r.subrange(p, p + x.len()) =~= t.subrange(p, p + x.len()));
            assert(matches_at(r, x, p));
        },
    }
}

} // verus!
