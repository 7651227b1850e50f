//! Extraction of the declarative header of a template document.
//!
//! A header field is declared as `name: type`, a run of word characters,
//! a colon, one space, and another run of word characters. Candidate
//! declarations are found anywhere in the document, in order; a candidate
//! whose type run is empty makes the header malformed.

use vstd::prelude::*;

use crate::text::{is_word_char, is_word_char_exec, lemma_word_run_end, word_run_end,
    word_run_end_exec};

verus! {

/// An ordered field list extracted from a document's header, together with
/// the name of the type that the document compiles to.
#[derive(Debug)]
pub struct HeaderData {
    pub struct_name: String,
    pub fields: Vec<(String, String)>,
}

/// Why a header could not be extracted.
#[derive(Debug, PartialEq, Eq, Structural, Clone, Copy)]
pub enum HeaderExtractionError {
    /// The document has no header at all. Never produced by `extract_header`
    /// (a missing header is a valid, empty header); kept for callers that
    /// want to treat an empty field list as an error.
    HeaderNotFound,
    /// A candidate field declaration has no usable name. `line` is the
    /// 1-based ordinal of the candidate among all candidates.
    MalformedFieldName { line: usize },
    /// A candidate field declaration has no type after the `name: ` part.
    /// `line` is the 1-based ordinal of the candidate among all candidates.
    MalformedFieldType { line: usize },
}

impl PartialEq for HeaderData {
    /// Two header extractions are equal when they name the same type and
    /// declare the same fields, in the same order.
    fn eq(&self, other: &Self) -> (r: bool) {
        if !(self.struct_name == other.struct_name) {
            return false;
        }
        if self.fields.len() != other.fields.len() {
            proof {
                assert(self.fields.deep_view().len() == self.fields@.len());
                assert(other.fields.deep_view().len() == other.fields@.len());
            }
            return false;
        }
        let mut i: usize = 0;
        while i < self.fields.len()
            invariant
                0 <= i <= self.fields@.len(),
                self.fields@.len() == other.fields@.len(),
                forall|k: int| 0 <= k < i ==> #[trigger] self.fields.deep_view()[k]
                    == other.fields.deep_view()[k],
            decreases self.fields@.len() - i,
        {
            if !(self.fields[i].0 == other.fields[i].0) {
                proof {
                    assert(self.fields.deep_view()[i as int].0 != other.fields.deep_view()[
                        i as int].0);
                }
                return false;
            }
            if !(self.fields[i].1 == other.fields[i].1) {
                proof {
                    assert(self.fields.deep_view()[i as int].1 != other.fields.deep_view()[
                        i as int].1);
                }
                return false;
            }
            i = i + 1;
        }
        proof {
            assert(self.fields.deep_view() =~~= other.fields.deep_view());
        }
        true
    }
}

impl vstd::std_specs::cmp::PartialEqSpecImpl for HeaderData {
    open spec fn obeys_eq_spec() -> bool {
        true
    }

    open spec fn eq_spec(&self, other: &Self) -> bool {
        self.struct_name@ == other.struct_name@ && self.fields.deep_view()
            == other.fields.deep_view()
    }
}

/// All candidate field declarations of `s` at or after position `i`, in
/// order. A candidate starts at a word character whose word run is followed
/// by a colon and a space; its name is that run and its type is the
/// (possibly empty) word run after the space. Candidates do not overlap:
/// scanning resumes after each candidate's type run, and a word run not
/// followed by `: ` is skipped whole.
pub open spec fn scan_candidates(s: Seq<char>, i: int) -> Seq<(Seq<char>, Seq<char>)>
    decreases s.len() - i,
    via scan_candidates_dec
{
    if i < 0 || i >= s.len() {
        Seq::empty()
    } else if !is_word_char(s[i]) {
        scan_candidates(s, i + 1)
    } else {
        let j = word_run_end(s, i);
        if j + 1 < s.len() && s[j] == ':' && s[j + 1] == ' ' {
            let k = word_run_end(s, j + 2);
            seq![(s.subrange(i, j), s.subrange(j + 2, k))] + scan_candidates(s, k)
        } else {
            scan_candidates(s, j)
        }
    }
}

#[via_fn]
proof fn scan_candidates_dec(s: Seq<char>, i: int) {
    if 0 <= i && i < s.len() && is_word_char(s[i]) {
        lemma_word_run_end(s, i);
        lemma_word_run_end(s, i + 1);
        let j = word_run_end(s, i);
        if j + 1 < s.len() && s[j] == ':' && s[j + 1] == ' ' {
            lemma_word_run_end(s, j + 2);
        }
    }
}

/// The index of the first candidate whose type run is empty, or the length
/// of the candidate list when every candidate is well formed.
pub open spec fn first_empty_type(cands: Seq<(Seq<char>, Seq<char>)>) -> int
    decreases cands.len(),
{
    if cands.len() == 0 {
        0
    } else if cands[0].1.len() == 0 {
        0
    } else {
        1 + first_empty_type(cands.skip(1))
    }
}

/// `first_empty_type` points into the list or one past it; everything before
/// it has a non-empty type, and where it points into the list the type there
/// is empty.
pub proof fn lemma_first_empty_type(cands: Seq<(Seq<char>, Seq<char>)>)
    ensures
        0 <= first_empty_type(cands) <= cands.len(),
        forall|k: int| 0 <= k < first_empty_type(cands) ==> cands[k].1.len() > 0,
        first_empty_type(cands) < cands.len() ==> cands[first_empty_type(cands)].1.len() == 0,
    decreases cands.len(),
{
    if cands.len() > 0 && cands[0].1.len() > 0 {
        lemma_first_empty_type(cands.skip(1));
        assert forall|k: int| 0 <= k < first_empty_type(cands) implies cands[k].1.len() > 0 by {
            if k > 0 {
                assert(cands[k] == cands.skip(1)[k - 1]);
            }
        }
    }
}

/// Appending to a list whose entries are all well formed moves
/// `first_empty_type` past the appended prefix.
pub proof fn lemma_first_empty_type_append(
    a: Seq<(Seq<char>, Seq<char>)>,
    b: Seq<(Seq<char>, Seq<char>)>,
)
    requires
        forall|k: int| 0 <= k < a.len() ==> a[k].1.len() > 0,
    ensures
        first_empty_type(a + b) == a.len() + first_empty_type(b),
    decreases a.len(),
{
    if a.len() == 0 {
        assert(a + b =~= b);
    } else {
        assert((a + b).skip(1) =~= a.skip(1) + b);
        lemma_first_empty_type_append(a.skip(1), b);
    }
}

/// The header of `doc` is well formed: no candidate field declaration has an
/// empty type run.
pub open spec fn header_well_formed(doc: Seq<char>) -> bool {
    first_empty_type(scan_candidates(doc, 0)) == scan_candidates(doc, 0).len()
}

/// Extracts the ordered field list declared by the header of `html`.
///
/// Every candidate `name: type` declaration found anywhere in the document
/// becomes one field, in the order found. A document without candidates has
/// a valid, empty header. A candidate whose type run is empty fails with
/// `MalformedFieldType` carrying the candidate's 1-based ordinal.
pub fn extract_header(html: &str, struct_name: &str) -> (r: Result<
    HeaderData,
    HeaderExtractionError,
>)
    ensures
        r matches Ok(hd) ==> {
            &&& header_well_formed(html@)
            &&& hd.struct_name@ == struct_name@
            &&& hd.fields.deep_view() == scan_candidates(html@, 0)
        },
        r matches Err(e) ==> {
            &&& !header_well_formed(html@)
            &&& e matches HeaderExtractionError::MalformedFieldType { line } && line
                == first_empty_type(scan_candidates(html@, 0)) + 1
        },
{
    let n = html.unicode_len();
    let mut fields: Vec<(String, String)> = Vec::new();
    let mut i: usize = 0;
    while i < n
        invariant
            n == html@.len(),
            0 <= i <= n,
            scan_candidates(html@, 0) =~= fields.deep_view() + scan_candidates(html@, i as int),
            forall|k: int| 0 <= k < fields.deep_view().len() ==> fields.deep_view()[k].1.len() > 0,
            fields@.len() * 4 <= i as int,
        decreases n - i,
    {
        let c = html.get_char(i);
        if !is_word_char_exec(c) {
            i = i + 1;
        } else {
            let j = word_run_end_exec(html, n, i);
            proof {
                lemma_word_run_end(html@, i as int);
            }
            if j < n && html.get_char(j) == ':' && j + 1 < n && html.get_char(j + 1) == ' ' {
                let k = word_run_end_exec(html, n, j + 2);
                proof {
                    lemma_word_run_end(html@, j as int + 2);
                }
                let ghost cand = (
                    html@.subrange(i as int, j as int),
                    html@.subrange(j as int + 2, k as int),
                );
                proof {
                    assert(scan_candidates(html@, i as int) == seq![cand] + scan_candidates(
                        html@,
                        k as int,
                    ));
                }
                if k == j + 2 {
                    // The type run is empty: the candidate is malformed.
                    proof {
                        assert(cand.1.len() == 0);
                        lemma_first_empty_type_append(
                            fields.deep_view(),
                            scan_candidates(html@, i as int),
                        );
                        lemma_first_empty_type(scan_candidates(html@, 0));
                    }
                    return Err(
                        HeaderExtractionError::MalformedFieldType { line: fields.len() + 1 },
                    );
                }
                let ghost prev_dv = fields.deep_view();
                let name = html.substring_char(i, j).to_owned();
                let ty = html.substring_char(j + 2, k).to_owned();
                fields.push((name, ty));
                proof {
                    assert(fields.deep_view() =~= prev_dv.push(cand));
                    assert(prev_dv + (seq![cand] + scan_candidates(html@, k as int))
                        =~= prev_dv.push(cand) + scan_candidates(html@, k as int));
                }
                i = k;
            } else {
                i = j;
            }
        }
    }
    proof {
        assert(scan_candidates(html@, n as int) =~= Seq::empty());
        lemma_first_empty_type_append(fields.deep_view(), Seq::empty());
        assert(fields.deep_view() + Seq::<(Seq<char>, Seq<char>)>::empty() =~= fields.deep_view());
    }
    Ok(HeaderData { struct_name: struct_name.to_owned(), fields })
}

/// A header-shaped substring starts at `i`: a word character whose word run
/// is followed directly by a colon and a space.
pub open spec fn candidate_starts_at(s: Seq<char>, i: int) -> bool {
    &&& 0 <= i < s.len()
    &&& is_word_char(s[i])
    &&& word_run_end(s, i) + 1 < s.len()
    &&& s[word_run_end(s, i)] == ':'
    &&& s[word_run_end(s, i) + 1] == ' '
}

proof fn lemma_scan_candidates_empty(s: Seq<char>, i: int)
    requires
        0 <= i,
        forall|m: int| !(#[trigger] candidate_starts_at(s, m)),
    ensures
        scan_candidates(s, i) == Seq::<(Seq<char>, Seq<char>)>::empty(),
    decreases s.len() - i,
{
    if i < s.len() {
        if is_word_char(s[i]) {
            lemma_word_run_end(s, i);
            lemma_word_run_end(s, i + 1);
            assert(!candidate_starts_at(s, i));
            lemma_scan_candidates_empty(s, word_run_end(s, i));
        } else {
            lemma_scan_candidates_empty(s, i + 1);
        }
    }
}

/// A document with no header-shaped substring anywhere has a valid header
/// that declares no fields.
pub proof fn lemma_no_candidates_empty_header(doc: Seq<char>)
    requires
        forall|m: int| !(#[trigger] candidate_starts_at(doc, m)),
    ensures
        scan_candidates(doc, 0) == Seq::<(Seq<char>, Seq<char>)>::empty(),
        header_well_formed(doc),
{
    lemma_scan_candidates_empty(doc, 0);
}

/// Header parsing is a function of the document alone: any two field lists
/// that satisfy `extract_header`'s contract for the same document are the
/// same list in the same order, so parsing the same input again returns the
/// same header.
pub proof fn lemma_header_parsing_deterministic(
    doc: Seq<char>,
    fields1: Seq<(Seq<char>, Seq<char>)>,
    fields2: Seq<(Seq<char>, Seq<char>)>,
)
    requires
        fields1 == scan_candidates(doc, 0),
        fields2 == scan_candidates(doc, 0),
    ensures
        fields1 == fields2,
{
}

} // verus!
