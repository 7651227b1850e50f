//! Compilation of one template document into a `GeneratedType`: the header
//! gives the field list, the body (stripped of the header block and
//! minified) gives the render format string.

use vstd::prelude::*;

use crate::header::{extract_header, first_empty_type, header_well_formed, scan_candidates,
    HeaderExtractionError};
use crate::render::{applied, lemma_render_round_trip, rendered};
use crate::substitute::{placeholder_at, strip_header, stripped, substitute, substituted};

verus! {

/// What the text of a document minifies to. Minification collapses
/// insignificant whitespace of an HTML-like body; its result depends on the
/// input text alone.
pub uninterp spec fn minified(s: Seq<char>) -> Seq<char>;

/// Relies on minify::html::minify: a pure function of the input text that
/// collapses insignificant whitespace. An empty input stays empty.
#[verifier::external_body]
pub(crate) fn minify_html(s: &str) -> (r: String)
    ensures
        r@ == minified(s@),
        s@.len() == 0 ==> r@.len() == 0,
{
    minify::html::minify(s)
}

/// The in-memory form of one compiled template: a type name, the declared
/// fields in order, and the format string of the render operation.
#[derive(Debug)]
pub struct GeneratedType {
    pub name: String,
    pub fields: Vec<(String, String)>,
    pub render_body: String,
}

/// Why a single file could not be converted.
#[derive(Debug, PartialEq, Eq, Structural, Clone, Copy)]
pub enum FileConversionError {
    /// The file's name yields no usable stem.
    FileNameInvalid,
}

/// Why a document or a directory could not be converted.
#[derive(Debug, PartialEq, Eq, Structural, Clone, Copy)]
pub enum ConversionError {
    /// A file's stem could not be derived.
    FileNameInvalid,
    /// The document's header is malformed.
    Header(HeaderExtractionError),
}

/// The format string of the render operation for document text `doc`: the
/// structural header block is stripped, the rest is minified, and the
/// placeholders of the result are rewritten.
pub open spec fn render_body_of(doc: Seq<char>) -> Seq<char> {
    substituted(minified(stripped(doc)))
}

/// Compiles one document into a `GeneratedType` named `struct_name`: the
/// fields are the header's candidate declarations in order, and the render
/// body is the stripped, minified body with its placeholders rewritten.
pub fn compile(document: &str, struct_name: &str) -> (r: Result<GeneratedType, ConversionError>)
    ensures
        r matches Ok(gt) ==> {
            &&& header_well_formed(document@)
            &&& gt.name@ == struct_name@
            &&& gt.fields.deep_view() == scan_candidates(document@, 0)
            &&& gt.render_body@ == render_body_of(document@)
        },
        r matches Err(e) ==> {
            &&& !header_well_formed(document@)
            &&& e matches ConversionError::Header(h)
            &&& h matches HeaderExtractionError::MalformedFieldType { line } && line
                == first_empty_type(scan_candidates(document@, 0)) + 1
        },
{
    let hd = match extract_header(document, struct_name) {
        Ok(hd) => hd,
        Err(e) => {
            return Err(ConversionError::Header(e));
        },
    };
    let body = strip_header(document);
    let min = minify_html(body.as_str());
    let render_body = substitute(min.as_str());
    Ok(GeneratedType { name: hd.struct_name, fields: hd.fields, render_body })
}

/// Round trip for one compiled document: rendering the compiled render body
/// with bound field values reproduces the document's body — stripped of its
/// header block and minified — byte for byte, with each `@name@` replaced by
/// the value bound to `name` and each `@@` replaced by a single `@`. The
/// body may not hold a bare `{` (which the generated format string could not
/// carry), and a value must be bound for every placeholder name.
pub proof fn lemma_compile_render_round_trip(doc: Seq<char>, m: Map<Seq<char>, Seq<char>>)
    requires
        forall|k: int|
            0 <= k < minified(stripped(doc)).len() ==> minified(stripped(doc))[k] != '{',
        forall|a: int, b: int| #[trigger]
            placeholder_at(minified(stripped(doc)), a, b) ==> m.dom().contains(
                minified(stripped(doc)).subrange(a + 1, b),
            ),
    ensures
        rendered(render_body_of(doc), m) == applied(minified(stripped(doc)), m),
{
    lemma_render_round_trip(minified(stripped(doc)), m);
}

// ---------------------------------------------------------------------------
// Type names from file names
// ---------------------------------------------------------------------------
/// What a character outside ASCII uppercases to. Unicode case mapping may
/// give several characters; the result depends on the character alone.
pub uninterp spec fn upper_of(c: char) -> Seq<char>;

/// An ASCII lower-case letter raised to its upper-case form; any other ASCII
/// character is left as it is.
pub open spec fn upper_char(c: char) -> char {
    if 'a' <= c && c <= 'z' {
        (((c as u32) - 32) as u8) as char
    } else {
        c
    }
}

/// The upper-case form of one character: exact for ASCII, named for the
/// rest.
pub open spec fn first_upper(c: char) -> Seq<char> {
    if (c as u32) < 128 {
        seq![upper_char(c)]
    } else {
        upper_of(c)
    }
}

/// Relies on char::to_uppercase: the Unicode upper-case mapping of the one
/// character, which depends on the character alone. An ASCII lower-case
/// letter maps to its single upper-case letter and every other ASCII
/// character to itself.
#[verifier::external_body]
fn char_to_uppercase(c: char) -> (r: String)
    ensures
        r@ == first_upper(c),
        (c as u32) >= 128 ==> r@ == upper_of(c),
{
    c.to_uppercase().collect()
}

/// `s` with its first character capitalized. The capitalized character may
/// span several characters (some letters uppercase to more than one).
pub open spec fn uppercased_first(s: Seq<char>) -> Seq<char> {
    if s.len() == 0 {
        s
    } else {
        first_upper(s[0]) + s.skip(1)
    }
}

/// Capitalizes the first letter.
pub fn uppercase_first_letter(s: &str) -> (r: String)
    ensures
        r@ == uppercased_first(s@),
{
    let n = s.unicode_len();
    if n == 0 {
        return String::new();
    }
    let mut out = char_to_uppercase(s.get_char(0));
    out.append(s.substring_char(1, n));
    proof {
        assert(out@ =~= uppercased_first(s@));
    }
    out
}

/// The position of the last `.` of `s`, or `-1` when there is none.
pub open spec fn last_dot_before(s: Seq<char>, i: int) -> int
    decreases i,
{
    if i <= 0 {
        -1
    } else if s[i - 1] == '.' {
        i - 1
    } else {
        last_dot_before(s, i - 1)
    }
}

/// The stem of a file name: everything before the last `.`, except that a
/// name whose only `.` is its first character, or which has none, is its own
/// stem.
pub open spec fn file_stem_of(name: Seq<char>) -> Seq<char> {
    let d = last_dot_before(name, name.len() as int);
    if d <= 0 {
        name
    } else {
        name.subrange(0, d)
    }
}

/// Derives the stem of a file name.
pub fn file_stem(name: &str) -> (r: String)
    ensures
        r@ == file_stem_of(name@),
{
    let n = name.unicode_len();
    let mut i: usize = n;
    while i > 0 && name.get_char(i - 1) != '.'
        invariant
            n == name@.len(),
            0 <= i <= n,
            last_dot_before(name@, n as int) == last_dot_before(name@, i as int),
        decreases i,
    {
        i = i - 1;
    }
    if i > 1 {
        name.substring_char(0, i - 1).to_owned()
    } else {
        name.to_owned()
    }
}

/// The type name a document compiled from file `name` gets: the file's stem
/// with its first character capitalized.
pub open spec fn type_name_of(name: Seq<char>) -> Seq<char> {
    uppercased_first(file_stem_of(name))
}

/// Derives the type name for the document held by file `name`. An empty file
/// name has no stem and is rejected.
pub fn derive_type_name(name: &str) -> (r: Result<String, ConversionError>)
    ensures
        r matches Ok(s) ==> s@ == type_name_of(name@) && name@.len() > 0,
        r is Err ==> name@.len() == 0 && r == Err::<String, ConversionError>(
            ConversionError::FileNameInvalid,
        ),
{
    if name.unicode_len() == 0 {
        return Err(ConversionError::FileNameInvalid);
    }
    let stem = file_stem(name);
    Ok(uppercase_first_letter(stem.as_str()))
}

} // verus!
