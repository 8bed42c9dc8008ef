//! Named per-account sections of the SSH configuration file.
//!
//! A section is a header comment line `# <name> - ...`, the line
//! `Host <alias>`, and the indented lines that follow. A bare `Host <alias>`
//! stanza without its header counts as a section too, so hand-edited files are
//! still cleaned up; a blank line right before a section goes with it.
use vstd::prelude::*;
use vstd::string::StringExecFns;
use crate::text::{chars_of, contains, contains_exec, matches_at, matches_at_exec, string_of};

verus! {

/// The start of the header comment of the section for `name`.
pub open spec fn header_prefix(name: Seq<char>) -> Seq<char> {
    "# "@ + name + " - "@
}

/// The stanza line that opens the section for `alias`.
pub open spec fn host_line(alias: Seq<char>) -> Seq<char> {
    "Host "@ + alias + "\n"@
}

/// The index just past the line that starts at `i`: past its newline, or the
/// end of the text.
pub open spec fn line_end(t: Seq<char>, i: int) -> int
    decreases t.len() - i,
{
    if i >= t.len() {
        t.len() as int
    } else if t[i] == '\n' {
        i + 1
    } else {
        line_end(t, i + 1)
    }
}

/// The line at `i` is a continuation line: it starts with a space or a tab
/// and ends with a newline.
pub open spec fn is_continuation(t: Seq<char>, i: int) -> bool {
    &&& 0 <= i < t.len()
    &&& (t[i] == ' ' || t[i] == '\t')
    &&& t[line_end(t, i) - 1] == '\n'
}

/// The first line start at or after `i` that is not a continuation line.
pub open spec fn skip_continuations(t: Seq<char>, i: int) -> int
    decreases t.len() - i,
    via skip_continuations_decreases
{
    if is_continuation(t, i) {
        skip_continuations(t, line_end(t, i))
    } else {
        i
    }
}

#[via_fn]
proof fn skip_continuations_decreases(t: Seq<char>, i: int) {
    if is_continuation(t, i) {
        lemma_line_end(t, i);
    }
}

/// The line end lies past the line start and within the text.
pub proof fn lemma_line_end(t: Seq<char>, i: int)
    requires
        0 <= i < t.len(),
    ensures
        i < line_end(t, i) <= t.len(),
    decreases t.len() - i,
{
    if t[i] != '\n' {
        if i + 1 < t.len() {
            lemma_line_end(t, i + 1);
        } else {
            assert(line_end(t, i + 1) == t.len());
        }
    }
}

proof fn lemma_skip_continuations(t: Seq<char>, i: int)
    requires
        0 <= i <= t.len(),
    ensures
        i <= skip_continuations(t, i) <= t.len(),
    decreases t.len() - i,
{
    if is_continuation(t, i) {
        lemma_line_end(t, i);
        lemma_skip_continuations(t, line_end(t, i));
    }
}

/// Where the section that starts at line `i` ends, if one starts there: a
/// header line starting with `hdr` followed by the line `hl`, or the line `hl`
/// alone, then any continuation lines.
pub open spec fn section_end(t: Seq<char>, i: int, hdr: Seq<char>, hl: Seq<char>) -> Option<int> {
    if hl.len() > 0 && matches_at(t, hdr, i) && matches_at(t, hl, line_end(t, i)) {
        Some(skip_continuations(t, line_end(t, i) + hl.len()))
    } else if hl.len() > 0 && matches_at(t, hl, i) {
        Some(skip_continuations(t, i + hl.len()))
    } else {
        None
    }
}

proof fn lemma_section_end(t: Seq<char>, i: int, hdr: Seq<char>, hl: Seq<char>)
    requires
        0 <= i < t.len(),
    ensures
        section_end(t, i, hdr, hl) matches Some(e) ==> i < e <= t.len(),
{
    lemma_line_end(t, i);
    if hl.len() > 0 && matches_at(t, hdr, i) && matches_at(t, hl, line_end(t, i)) {
        lemma_skip_continuations(t, line_end(t, i) + hl.len());
    } else if hl.len() > 0 && matches_at(t, hl, i) {
        lemma_skip_continuations(t, i + hl.len());
    }
}

/// The text from line start `i` on, with every section for `hdr` and `hl`
/// removed, together with a blank line right before it.
pub open spec fn strip_sections(t: Seq<char>, i: int, hdr: Seq<char>, hl: Seq<char>) -> Seq<char>
    decreases t.len() - i,
    via strip_sections_decreases
{
    if i < 0 || i >= t.len() {
        Seq::empty()
    } else if t[i] == '\n' && section_end(t, i + 1, hdr, hl) is Some {
        strip_sections(t, section_end(t, i + 1, hdr, hl)->0, hdr, hl)
    } else if section_end(t, i, hdr, hl) is Some {
        strip_sections(t, section_end(t, i, hdr, hl)->0, hdr, hl)
    } else {
        t.subrange(i, line_end(t, i)) + strip_sections(t, line_end(t, i), hdr, hl)
    }
}

#[via_fn]
proof fn strip_sections_decreases(t: Seq<char>, i: int, hdr: Seq<char>, hl: Seq<char>) {
    if 0 <= i < t.len() {
        lemma_line_end(t, i);
        lemma_section_end(t, i, hdr, hl);
        if i + 1 < t.len() {
            lemma_section_end(t, i + 1, hdr, hl);
        }
    }
}

/// The index just past the line that starts at `i`.
fn line_end_exec(t: &Vec<char>, i: usize) -> (r: usize)
    requires
        i <= t.len(),
    ensures
        r == line_end(t@, i as int),
{
    let mut j: usize = i;
    while j < t.len() && t[j] != '\n'
        invariant
            i <= j <= t.len(),
            line_end(t@, i as int) == line_end(t@, j as int),
        decreases t.len() - j,
    {
        j = j + 1;
    }
    if j < t.len() {
        j + 1
    } else {
        j
    }
}

/// The first line start at or after `i` that is not a continuation line.
fn skip_continuations_exec(t: &Vec<char>, i: usize) -> (r: usize)
    requires
        i <= t.len(),
    ensures
        r == skip_continuations(t@, i as int),
{
    let mut k: usize = i;
    loop
        invariant
            i <= k <= t.len(),
            skip_continuations(t@, i as int) == skip_continuations(t@, k as int),
        decreases t.len() - k,
    {
        if k < t.len() && (t[k] == ' ' || t[k] == '\t') {
            let e = line_end_exec(t, k);
            proof { lemma_line_end(t@, k as int); }
            if t[e - 1] == '\n' {
                k = e;
            } else {
                return k;
            }
        } else {
            return k;
        }
    }
}

/// Where the section that starts at line `i` ends, if one starts there.
fn section_end_exec(t: &Vec<char>, i: usize, hdr: &Vec<char>, hl: &Vec<char>) -> (r: Option<usize>)
    requires
        i <= t.len(),
    ensures
        match r {
            Some(e) => section_end(t@, i as int, hdr@, hl@) == Some(e as int),
            None => section_end(t@, i as int, hdr@, hl@) is None,
        },
{
    if hl.len() == 0 {
        return None;
    }
    let le = line_end_exec(t, i);
    if i < t.len() {
        proof { lemma_line_end(t@, i as int); }
    }
    if matches_at_exec(t, hdr, i) && matches_at_exec(t, hl, le) {
        Some(skip_continuations_exec(t, le + hl.len()))
    } else if matches_at_exec(t, hl, i) {
        Some(skip_continuations_exec(t, i + hl.len()))
    } else {
        None
    }
}

/// The length of what is left after stripping never exceeds the rest of the text.
proof fn lemma_strip_len(t: Seq<char>, i: int, hdr: Seq<char>, hl: Seq<char>)
    requires
        0 <= i <= t.len(),
    ensures
        strip_sections(t, i, hdr, hl).len() <= t.len() - i,
    decreases t.len() - i,
{
    if i < t.len() {
        lemma_line_end(t, i);
        lemma_section_end(t, i, hdr, hl);
        if i + 1 < t.len() {
            lemma_section_end(t, i + 1, hdr, hl);
        }
        if t[i] == '\n' && section_end(t, i + 1, hdr, hl) is Some {
            lemma_strip_len(t, section_end(t, i + 1, hdr, hl)->0, hdr, hl);
        } else if section_end(t, i, hdr, hl) is Some {
            lemma_strip_len(t, section_end(t, i, hdr, hl)->0, hdr, hl);
        } else {
            lemma_strip_len(t, line_end(t, i), hdr, hl);
        }
    }
}

/// The text of `t` with every section for `hdr` and `hl` removed, and whether
/// any was found. Nothing found means the text comes back unchanged.
pub fn strip_sections_exec(t: &Vec<char>, hdr: &Vec<char>, hl: &Vec<char>) -> (r: (Vec<char>, bool))
    ensures
        r.0@ == strip_sections(t@, 0, hdr@, hl@),
        r.1 <==> r.0@.len() < t@.len(),
        !r.1 ==> r.0@ == t@,
{
    let n = t.len();
    let mut out: Vec<char> = Vec::new();
    let mut removed = false;
    let mut i: usize = 0;
    while i < n
        invariant
            n == t.len(),
            i <= n,
            out@ + strip_sections(t@, i as int, hdr@, hl@) == strip_sections(t@, 0, hdr@, hl@),
            removed ==> out@.len() < i,
            !removed ==> out@ == t@.take(i as int),
        decreases n - i,
    {
        proof {
            lemma_line_end(t@, i as int);
            lemma_section_end(t@, i as int, hdr@, hl@);
            if i + 1 < n {
                lemma_section_end(t@, i + 1, hdr@, hl@);
            }
        }
        let blank_then = if t[i] == '\n' && i + 1 < n {
            section_end_exec(t, i + 1, hdr, hl)
        } else {
            None
        };
        match blank_then {
            Some(e) => {
                i = e;
                removed = true;
            },
            None => {
                proof {
                    if t@[i as int] == '\n' && i + 1 >= n {
                        assert(section_end(t@, i + 1, hdr@, hl@) is None);
                    }
                }
                match section_end_exec(t, i, hdr, hl) {
                    Some(e) => {
                        i = e;
                        removed = true;
                    },
                    None => {
                        let le = line_end_exec(t, i);
                        let ghost before = out@;
                        let mut k: usize = i;
                        while k < le
                            invariant
                                i <= k <= le <= n,
                                n == t.len(),
                                out@ == before + t@.subrange(i as int, k as int),
                            decreases le - k,
                        {
                            out.push(t[k]);
                            k = k + 1;
                            assert(out@ =~= before + t@.subrange(i as int, k as int));
                        }
                        assert(out@ + strip_sections(t@, le as int, hdr@, hl@) =~= before
                            + strip_sections(t@, i as int, hdr@, hl@));
                        proof {
                            if !removed {
                                assert(out@ =~= t@.take(le as int));
                            }
                        }
                        i = le;
                    },
                }
            },
        }
    }
    assert(strip_sections(t@, i as int, hdr@, hl@) =~= Seq::<char>::empty());
    assert(out@ =~= out@ + strip_sections(t@, i as int, hdr@, hl@));
    proof {
        if !removed {
            assert(out@ =~= t@);
        }
    }
    (out, removed)
}

/// The start of the header comment of the section for `name`.
pub fn header_prefix_text(name: &str) -> (r: String)
    ensures
        r@ == header_prefix(name@),
{
    let mut r = String::from_str("# ");
    r.append(name);
    r.append(" - ");
    r
}

/// The stanza line that opens the section for `alias`.
pub fn host_line_text(alias: &str) -> (r: String)
    ensures
        r@ == host_line(alias@),
{
    let mut r = String::from_str("Host ");
    r.append(alias);
    r.append("\n");
    r
}

/// Whether `text` already holds a section header for `name`.
pub fn has_named_section(text: &str, name: &str) -> (r: bool)
    ensures
        r == contains(text@, header_prefix(name@)),
{
    let t = chars_of(text);
    let h = header_prefix_text(name);
    let hv = chars_of(h.as_str());
    contains_exec(&t, &hv)
}

/// Removes every section of `name` with host alias `alias` from `text`, and
/// says whether any was found; when none was, the text comes back unchanged.
pub fn remove_named_section(text: &str, name: &str, alias: &str) -> (r: (String, bool))
    ensures
        r.0@ == strip_sections(text@, 0, header_prefix(name@), host_line(alias@)),
        !r.1 ==> r.0@ == text@,
        r.1 ==> r.0@.len() < text@.len(),
{
    let t = chars_of(text);
    let h = header_prefix_text(name);
    let l = host_line_text(alias);
    let hv = chars_of(h.as_str());
    let lv = chars_of(l.as_str());
    let (out, removed) = strip_sections_exec(&t, &hv, &lv);
    (string_of(&out), removed)
}

} // verus!
