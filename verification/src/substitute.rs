//! Rewriting of a template body into a format string.
//!
//! The body is first stripped of its structural header block (everything
//! from the first `{` through the last `}` that is followed by a newline,
//! greedily). Then each `@name@` placeholder becomes a `{name}` format
//! placeholder and each `@@` escape becomes a single literal `@`.

use vstd::prelude::*;

use crate::text::{lemma_word_run_end, word_run_end, word_run_end_exec};

verus! {

// ---------------------------------------------------------------------------
// Header stripping
// ---------------------------------------------------------------------------
/// The position of the first `{` at or after `i`, or the length of `s` when
/// there is none.
pub open spec fn first_open_brace(s: Seq<char>, i: int) -> int
    decreases s.len() - i,
{
    if i < 0 || i >= s.len() {
        s.len() as int
    } else if s[i] == '{' {
        i
    } else {
        first_open_brace(s, i + 1)
    }
}

pub proof fn lemma_first_open_brace(s: Seq<char>, i: int)
    requires
        0 <= i <= s.len(),
    ensures
        i <= first_open_brace(s, i) <= s.len(),
        forall|m: int| i <= m < first_open_brace(s, i) ==> s[m] != '{',
        first_open_brace(s, i) < s.len() ==> s[first_open_brace(s, i)] == '{',
    decreases s.len() - i,
{
    if i < s.len() && s[i] != '{' {
        lemma_first_open_brace(s, i + 1);
    }
}

/// A close of the header block: a `}` directly followed by a newline.
pub open spec fn is_close(s: Seq<char>, q: int) -> bool {
    0 <= q && q + 1 < s.len() && s[q] == '}' && s[q + 1] == '\n'
}

/// The largest position before `i` that closes a header block, or `-1` when
/// there is none.
pub open spec fn last_close_before(s: Seq<char>, i: int) -> int
    decreases i,
{
    if i <= 0 {
        -1
    } else if is_close(s, i - 1) {
        i - 1
    } else {
        last_close_before(s, i - 1)
    }
}

pub proof fn lemma_last_close_before(s: Seq<char>, i: int)
    requires
        0 <= i <= s.len(),
    ensures
        -1 <= last_close_before(s, i) < i,
        last_close_before(s, i) >= 0 ==> is_close(s, last_close_before(s, i)),
        forall|q: int| last_close_before(s, i) < q < i ==> !is_close(s, q),
    decreases i,
{
    if i > 0 && !is_close(s, i - 1) {
        lemma_last_close_before(s, i - 1);
    }
}

/// The body of `s` with the structural header block removed: everything from
/// the first `{` through the last `}` followed by a newline is dropped, when
/// such a pair exists in that order; otherwise `s` is unchanged.
pub open spec fn stripped(s: Seq<char>) -> Seq<char> {
    let p = first_open_brace(s, 0);
    let q = last_close_before(s, s.len() as int);
    if p < s.len() && q >= p + 1 {
        s.subrange(0, p) + s.subrange(q + 2, s.len() as int)
    } else {
        s
    }
}

/// Removes the structural header block from `s`.
pub fn strip_header(s: &str) -> (r: String)
    ensures
        r@ == stripped(s@),
{
    let n = s.unicode_len();
    // Find the first `{`.
    let mut p: usize = 0;
    while p < n && s.get_char(p) != '{'
        invariant
            n == s@.len(),
            0 <= p <= n,
            first_open_brace(s@, 0) == first_open_brace(s@, p as int),
        decreases n - p,
    {
        p = p + 1;
    }
    proof {
        lemma_first_open_brace(s@, p as int);
    }
    // Find the last `}` followed by a newline.
    let mut i: usize = n;
    let mut q: usize = 0;
    let mut found: bool = false;
    while i > 0 && !found
        invariant
            n == s@.len(),
            0 <= i <= n,
            !found ==> last_close_before(s@, n as int) == last_close_before(s@, i as int),
            found ==> q as int == last_close_before(s@, n as int) && is_close(s@, q as int),
        decreases i + (if found { 0int } else { 1int }),
    {
        if i < n && s.get_char(i - 1) == '}' && s.get_char(i) == '\n' {
            found = true;
            q = i - 1;
        } else {
            i = i - 1;
        }
    }
    if p < n && found && q >= p + 1 {
        let mut out = s.substring_char(0, p).to_owned();
        out.append(s.substring_char(q + 2, n));
        proof {
            assert(out@ =~= stripped(s@));
        }
        out
    } else {
        proof {
            lemma_last_close_before(s@, n as int);
            if first_open_brace(s@, 0) < n as int && last_close_before(s@, n as int)
                >= first_open_brace(s@, 0) + 1 {
                // A close exists after the first brace, so the scan found it.
                assert(found);
            }
        }
        s.to_owned()
    }
}

// ---------------------------------------------------------------------------
// Placeholder substitution
// ---------------------------------------------------------------------------
/// A placeholder `@name@` stands at `(a, b)`: markers at `a` and `b`, and a
/// non-empty run of word characters between them, maximal from `a + 1`.
pub open spec fn placeholder_at(s: Seq<char>, a: int, b: int) -> bool {
    &&& 0 <= a
    &&& b == word_run_end(s, a + 1)
    &&& a + 1 < b < s.len()
    &&& s[a] == '@'
    &&& s[b] == '@'
}

/// The format string produced from `s` at or after position `i`: `@@`
/// becomes a single `@`, a placeholder `@name@` becomes `{name}`, and every
/// other character is copied unchanged.
pub open spec fn subst_from(s: Seq<char>, i: int) -> Seq<char>
    decreases s.len() - i,
    via subst_from_dec
{
    if i < 0 || i >= s.len() {
        Seq::empty()
    } else if s[i] == '@' {
        if i + 1 < s.len() && s[i + 1] == '@' {
            seq!['@'] + subst_from(s, i + 2)
        } else {
            let j = word_run_end(s, i + 1);
            if i + 1 < j && j < s.len() && s[j] == '@' {
                seq!['{'] + s.subrange(i + 1, j) + seq!['}'] + subst_from(s, j + 1)
            } else {
                seq!['@'] + subst_from(s, i + 1)
            }
        }
    } else {
        seq![s[i]] + subst_from(s, i + 1)
    }
}

#[via_fn]
proof fn subst_from_dec(s: Seq<char>, i: int) {
    if 0 <= i && i < s.len() && s[i] == '@' {
        lemma_word_run_end(s, i + 1);
    }
}

/// The format string produced from the whole of `s`.
pub open spec fn substituted(s: Seq<char>) -> Seq<char> {
    subst_from(s, 0)
}

/// Rewrites the placeholders of `body` into format placeholders: `@name@`
/// becomes `{name}` and `@@` becomes a literal `@`.
pub fn substitute(body: &str) -> (r: String)
    ensures
        r@ == substituted(body@),
{
    let n = body.unicode_len();
    let mut out = String::new();
    let mut i: usize = 0;
    while i < n
        invariant
            n == body@.len(),
            0 <= i <= n,
            substituted(body@) =~= out@ + subst_from(body@, i as int),
        decreases n - i,
    {
        let c = body.get_char(i);
        if c == '@' {
            if i + 1 < n && body.get_char(i + 1) == '@' {
                proof {
                    reveal_strlit("@");
                }
                out.append("@");
                i = i + 2;
            } else {
                let j = word_run_end_exec(body, n, i + 1);
                proof {
                    lemma_word_run_end(body@, i as int + 1);
                }
                if i + 1 < j && j < n && body.get_char(j) == '@' {
                    proof {
                        reveal_strlit("{");
                        reveal_strlit("}");
                    }
                    out.append("{");
                    out.append(body.substring_char(i + 1, j));
                    out.append("}");
                    i = j + 1;
                } else {
                    proof {
                        reveal_strlit("@");
                    }
                    out.append("@");
                    i = i + 1;
                }
            }
        } else {
            out.append(body.substring_char(i, i + 1));
            proof {
                assert(body@.subrange(i as int, i as int + 1) =~= seq![body@[i as int]]);
            }
            i = i + 1;
        }
    }
    proof {
        assert(subst_from(body@, n as int) =~= Seq::<char>::empty());
        assert(out@ + Seq::<char>::empty() =~= out@);
    }
    out
}

} // verus!
