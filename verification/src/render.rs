//! Interpretation of a format string against concrete field values, and the
//! round-trip law: substituting the placeholders of a body and then rendering
//! the result reproduces the body with each `@name@` replaced by the value
//! supplied for `name` and each `@@` replaced by a single `@`.

use vstd::prelude::*;

use crate::text::{is_word_char, lemma_word_run_end, word_run_end};
use crate::substitute::{placeholder_at, subst_from, substituted};

verus! {

/// The position of the first `}` at or after `i`, or the length of `f` when
/// there is none.
pub open spec fn first_close_brace(f: Seq<char>, i: int) -> int
    decreases f.len() - i,
{
    if i < 0 || i >= f.len() {
        f.len() as int
    } else if f[i] == '}' {
        i
    } else {
        first_close_brace(f, i + 1)
    }
}

pub proof fn lemma_first_close_brace(f: Seq<char>, i: int)
    requires
        0 <= i <= f.len(),
    ensures
        i <= first_close_brace(f, i) <= f.len(),
        forall|m: int| i <= m < first_close_brace(f, i) ==> f[m] != '}',
        first_close_brace(f, i) < f.len() ==> f[first_close_brace(f, i)] == '}',
    decreases f.len() - i,
{
    if i < f.len() && f[i] != '}' {
        lemma_first_close_brace(f, i + 1);
    }
}

/// The mapping from field names to values described by an ordered list of
/// pairs; a later pair for the same name wins, as a later `let` binding
/// shadows an earlier one in the generated render method.
pub open spec fn bindings(ps: Seq<(Seq<char>, Seq<char>)>) -> Map<Seq<char>, Seq<char>>
    decreases ps.len(),
{
    if ps.len() == 0 {
        Map::empty()
    } else {
        bindings(ps.drop_last()).insert(ps.last().0, ps.last().1)
    }
}

/// The last value bound to `n`, scanning the pairs from the end.
pub open spec fn last_binding(ps: Seq<(Seq<char>, Seq<char>)>, n: Seq<char>) -> Option<Seq<char>>
    decreases ps.len(),
{
    if ps.len() == 0 {
        None
    } else if ps.last().0 == n {
        Some(ps.last().1)
    } else {
        last_binding(ps.drop_last(), n)
    }
}

/// `bindings` and `last_binding` agree: a name is bound exactly when some
/// pair carries it, and to the value of the last such pair.
pub proof fn lemma_bindings_last(ps: Seq<(Seq<char>, Seq<char>)>, n: Seq<char>)
    ensures
        bindings(ps).dom().contains(n) <==> last_binding(ps, n) is Some,
        last_binding(ps, n) matches Some(v) ==> bindings(ps)[n] == v,
    decreases ps.len(),
{
    if ps.len() > 0 && ps.last().0 != n {
        lemma_bindings_last(ps.drop_last(), n);
    }
}

/// The text produced by rendering the format string `f` with the bound
/// values `m`: `{name}` becomes the value bound to `name` (or stays as it is
/// when `name` is unbound), a `{` with no later `}` makes the rest literal,
/// and every other character is copied unchanged.
pub open spec fn rendered(f: Seq<char>, m: Map<Seq<char>, Seq<char>>) -> Seq<char>
    decreases f.len(),
    via rendered_dec
{
    if f.len() == 0 {
        Seq::empty()
    } else if f[0] == '{' {
        let q = first_close_brace(f, 1);
        if q < f.len() {
            let name = f.subrange(1, q);
            if m.dom().contains(name) {
                m[name] + rendered(f.skip(q + 1), m)
            } else {
                seq!['{'] + name + seq!['}'] + rendered(f.skip(q + 1), m)
            }
        } else {
            f
        }
    } else {
        seq![f[0]] + rendered(f.skip(1), m)
    }
}

#[via_fn]
proof fn rendered_dec(f: Seq<char>, m: Map<Seq<char>, Seq<char>>) {
    if f.len() > 0 && f[0] == '{' {
        lemma_first_close_brace(f, 1);
    }
}

/// Two strings are equal exactly when their characters are.
pub fn str_eq(a: &str, b: &str) -> (r: bool)
    ensures
        r == (a@ == b@),
{
    let na = a.unicode_len();
    let nb = b.unicode_len();
    if na != nb {
        proof {
            assert(a@ != b@);
        }
        return false;
    }
    let mut i: usize = 0;
    while i < na
        invariant
            na == a@.len(),
            na == b@.len(),
            0 <= i <= na,
            forall|k: int| 0 <= k < i ==> a@[k] == b@[k],
        decreases na - i,
    {
        if a.get_char(i) != b.get_char(i) {
            return false;
        }
        i = i + 1;
    }
    proof {
        assert(a@ =~= b@);
    }
    true
}

/// Looks `name` up among the value pairs; the last pair carrying the name
/// wins.
fn lookup<'a>(values: &'a Vec<(String, String)>, name: &str) -> (r: Option<&'a String>)
    ensures
        r matches Some(v) ==> last_binding(values.deep_view(), name@) == Some(v@),
        r is None ==> last_binding(values.deep_view(), name@) is None,
{
    let mut i: usize = values.len();
    proof {
        assert(values.deep_view().take(values@.len() as int) =~= values.deep_view());
    }
    while i > 0
        invariant
            0 <= i <= values@.len(),
            values.deep_view().len() == values@.len(),
            last_binding(values.deep_view(), name@) == last_binding(
                values.deep_view().take(i as int),
                name@,
            ),
        decreases i,
    {
        proof {
            assert(values.deep_view().take(i as int).last() == values.deep_view()[i - 1]);
            assert(values.deep_view().take(i as int).drop_last() =~= values.deep_view().take(
                i as int - 1,
            ));
        }
        if str_eq(values[i - 1].0.as_str(), name) {
            return Some(&values[i - 1].1);
        }
        i = i - 1;
    }
    proof {
        assert(values.deep_view().take(0) =~= Seq::<(Seq<char>, Seq<char>)>::empty());
    }
    None
}

/// Renders the format string `f` with the given field values: each `{name}`
/// placeholder is replaced by the last value supplied for `name`.
pub fn render_format(f: &str, values: &Vec<(String, String)>) -> (r: String)
    ensures
        r@ == rendered(f@, bindings(values.deep_view())),
    decreases f@.len(),
{
    let n = f.unicode_len();
    if n == 0 {
        return String::new();
    }
    let c = f.get_char(0);
    if c == '{' {
        // Find the first `}` after the opening brace.
        let mut q: usize = 1;
        while q < n && f.get_char(q) != '}'
            invariant
                n == f@.len(),
                1 <= q <= n,
                first_close_brace(f@, 1) == first_close_brace(f@, q as int),
            decreases n - q,
        {
            q = q + 1;
        }
        proof {
            lemma_first_close_brace(f@, q as int);
        }
        if q < n {
            let name = f.substring_char(1, q);
            let rest = f.substring_char(q + 1, n);
            proof {
                assert(rest@ =~= f@.skip(q as int + 1));
                lemma_bindings_last(values.deep_view(), name@);
            }
            let tail = render_format(rest, values);
            match lookup(values, name) {
                Some(v) => {
                    let mut out = v.clone();
                    out.append(tail.as_str());
                    out
                },
                None => {
                    proof {
                        reveal_strlit("{");
                        reveal_strlit("}");
                    }
                    let mut out = String::new();
                    out.append("{");
                    out.append(name);
                    out.append("}");
                    out.append(tail.as_str());
                    proof {
                        assert(out@ =~= seq!['{'] + name@ + seq!['}'] + tail@);
                    }
                    out
                },
            }
        } else {
            f.to_owned()
        }
    } else {
        let head = f.substring_char(0, 1);
        let rest = f.substring_char(1, n);
        proof {
            assert(rest@ =~= f@.skip(1));
            assert(head@ =~= seq![f@[0]]);
        }
        let tail = render_format(rest, values);
        let mut out = head.to_owned();
        out.append(tail.as_str());
        out
    }
}

// ---------------------------------------------------------------------------
// The round-trip law
// ---------------------------------------------------------------------------
/// The body `s` from position `i` on, with each `@name@` replaced by the
/// value bound to `name` (left as it is when `name` is unbound) and each
/// `@@` replaced by a single `@`.
pub open spec fn apply_from(s: Seq<char>, i: int, m: Map<Seq<char>, Seq<char>>) -> Seq<char>
    decreases s.len() - i,
    via apply_from_dec
{
    if i < 0 || i >= s.len() {
        Seq::empty()
    } else if s[i] == '@' {
        if i + 1 < s.len() && s[i + 1] == '@' {
            seq!['@'] + apply_from(s, i + 2, m)
        } else {
            let j = word_run_end(s, i + 1);
            if i + 1 < j && j < s.len() && s[j] == '@' {
                (if m.dom().contains(s.subrange(i + 1, j)) {
                    m[s.subrange(i + 1, j)]
                } else {
                    seq!['@'] + s.subrange(i + 1, j) + seq!['@']
                }) + apply_from(s, j + 1, m)
            } else {
                seq!['@'] + apply_from(s, i + 1, m)
            }
        }
    } else {
        seq![s[i]] + apply_from(s, i + 1, m)
    }
}

#[via_fn]
proof fn apply_from_dec(s: Seq<char>, i: int, m: Map<Seq<char>, Seq<char>>) {
    if 0 <= i && i < s.len() && s[i] == '@' {
        lemma_word_run_end(s, i + 1);
    }
}

/// The whole body with its placeholders and escapes replaced.
pub open spec fn applied(s: Seq<char>, m: Map<Seq<char>, Seq<char>>) -> Seq<char> {
    apply_from(s, 0, m)
}

/// Rendering distributes over a leading literal character.
proof fn lemma_rendered_literal(c: char, t: Seq<char>, m: Map<Seq<char>, Seq<char>>)
    requires
        c != '{',
    ensures
        rendered(seq![c] + t, m) == seq![c] + rendered(t, m),
{
    let f = seq![c] + t;
    assert(f.skip(1) =~= t);
}

/// When every character of `[i, q)` is short of a close brace and `f[q]` is
/// one, the scan for the first close brace from `i` stops at `q`.
proof fn lemma_first_close_brace_at(f: Seq<char>, i: int, q: int)
    requires
        0 <= i <= q < f.len(),
        forall|k: int| i <= k < q ==> f[k] != '}',
        f[q] == '}',
    ensures
        first_close_brace(f, i) == q,
    decreases q - i,
{
    if i < q {
        lemma_first_close_brace_at(f, i + 1, q);
    }
}

/// Rendering distributes over a leading `{name}` placeholder whose name
/// holds no close brace.
proof fn lemma_rendered_placeholder(name: Seq<char>, t: Seq<char>, m: Map<Seq<char>, Seq<char>>)
    requires
        forall|k: int| 0 <= k < name.len() ==> name[k] != '}',
    ensures
        rendered(seq!['{'] + name + seq!['}'] + t, m) == (if m.dom().contains(name) {
            m[name]
        } else {
            seq!['{'] + name + seq!['}']
        }) + rendered(t, m),
{
    let f = seq!['{'] + name + seq!['}'] + t;
    assert(f[0] == '{');
    assert(f[1 + name.len() as int] == '}');
    lemma_first_close_brace_at(f, 1, 1 + name.len() as int);
    let q = first_close_brace(f, 1);
    assert(f.subrange(1, q) =~= name);
    assert(f.skip(q + 1) =~= t);
}

/// The induction behind the round-trip law, over suffixes of the body.
proof fn lemma_round_trip_from(s: Seq<char>, i: int, m: Map<Seq<char>, Seq<char>>)
    requires
        0 <= i,
        forall|k: int| 0 <= k < s.len() ==> s[k] != '{',
        forall|a: int, b: int| #[trigger] placeholder_at(s, a, b) ==> m.dom().contains(
            s.subrange(a + 1, b),
        ),
    ensures
        rendered(subst_from(s, i), m) == apply_from(s, i, m),
    decreases s.len() - i,
{
    if i >= s.len() {
        // Both sides are empty.
    } else if s[i] == '@' {
        if i + 1 < s.len() && s[i + 1] == '@' {
            lemma_round_trip_from(s, i + 2, m);
            lemma_rendered_literal('@', subst_from(s, i + 2), m);
        } else {
            lemma_word_run_end(s, i + 1);
            let j = word_run_end(s, i + 1);
            if i + 1 < j && j < s.len() && s[j] == '@' {
                assert(placeholder_at(s, i, j));
                let name = s.subrange(i + 1, j);
                assert(m.dom().contains(name));
                assert(forall|k: int| 0 <= k < name.len() ==> is_word_char(#[trigger] name[k]));
                lemma_round_trip_from(s, j + 1, m);
                lemma_rendered_placeholder(name, subst_from(s, j + 1), m);
            } else {
                lemma_round_trip_from(s, i + 1, m);
                lemma_rendered_literal('@', subst_from(s, i + 1), m);
            }
        }
    } else {
        lemma_round_trip_from(s, i + 1, m);
        lemma_rendered_literal(s[i], subst_from(s, i + 1), m);
    }
}

/// Round trip: substituting the placeholders of a body and then rendering
/// the resulting format string with bound values reproduces the body's
/// non-placeholder text unchanged, with each `@name@` replaced by the value
/// bound to `name` and each `@@` replaced by a single `@`. The body may not
/// hold a bare `{`, which the generated format string could not carry, and a
/// value must be bound for every placeholder name.
pub proof fn lemma_render_round_trip(body: Seq<char>, m: Map<Seq<char>, Seq<char>>)
    requires
        forall|k: int| 0 <= k < body.len() ==> body[k] != '{',
        forall|a: int, b: int| #[trigger] placeholder_at(body, a, b) ==> m.dom().contains(
            body.subrange(a + 1, b),
        ),
    ensures
        rendered(substituted(body), m) == applied(body, m),
{
    lemma_round_trip_from(body, 0, m);
}

} // verus!
