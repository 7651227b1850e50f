use rshtml::compile::{compile, uppercase_first_letter, file_stem, derive_type_name,
    ConversionError};
use rshtml::emit::{convert_html_to_rs, convert_entries};
use rshtml::header::{extract_header, HeaderData, HeaderExtractionError};
use rshtml::render::render_format;
use rshtml::substitute::{strip_header, substitute};
use rshtml::tree::{assemble, DirEntry, ScopeItem};

const SINGLE_FILE_DOCUMENT: &str =
    "{name: String\npage_name: String}\n<p>Hello, @name@ welcome @@@page_name@</p>";

#[test]
fn header_extract_header_single_file() {
    let html_in = SINGLE_FILE_DOCUMENT;

    let result = extract_header(html_in, "Basic").unwrap();

    let expected_result = HeaderData {
        struct_name: String::from("Basic"),
        fields: vec![
            ("name".into(), "String".into()),
            ("page_name".into(), "String".into()),
        ],
    };

    assert_eq!(expected_result, result);
}

#[test]
fn lib_extract_header_single_file() {
    let html_in = SINGLE_FILE_DOCUMENT;

    let result = extract_header(html_in, "Basic").unwrap();

    let expected_result = HeaderData {
        struct_name: String::from("Basic"),
        fields: vec![
            ("name".into(), "String".into()),
            ("page_name".into(), "String".into()),
        ],
    };

    assert_eq!(expected_result, result);
}

#[test]
fn single_file() {
    let html_in = SINGLE_FILE_DOCUMENT;
    let html_out = "pub struct Basic {\n    name: String,\n    page_name: String,\n}\n\nimpl Basic {\n    pub fn render(self) -> String {\n        let name = self.name;\n        let page_name = self.page_name;\n        format!(\"<p>Hello, {name} welcome @{page_name}</p>\")\n    }\n\n    pub fn new(name: String, page_name: String) -> Self {\n        Self { name, page_name }\n    }\n}";

    let result = convert_html_to_rs(html_in.into(), "Basic.html").unwrap();

    assert_eq!(result, html_out);
}

#[test]
fn basic_single_file_render() {
    let gt = compile(SINGLE_FILE_DOCUMENT, "Basic").unwrap();
    assert_eq!(gt.name, "Basic");
    assert_eq!(gt.fields.len(), 2);
    assert_eq!(gt.fields[0].0, "name");
    assert_eq!(gt.fields[0].1, "String");
    assert_eq!(gt.fields[1].0, "page_name");
    assert_eq!(gt.fields[1].1, "String");
    assert_eq!(gt.render_body, "<p>Hello, {name} welcome @{page_name}</p>");

    let values = vec![
        (String::from("name"), String::from("X")),
        (String::from("page_name"), String::from("Y")),
    ];
    let rendered = render_format(&gt.render_body, &values);
    assert_eq!(rendered, "<p>Hello, X welcome @Y</p>");
}

#[test]
fn compile_malformed_header_line_one() {
    let result = compile("title: \n<p>body</p>", "T");
    assert_eq!(
        result.unwrap_err(),
        ConversionError::Header(HeaderExtractionError::MalformedFieldType { line: 1 })
    );
}

#[test]
fn extract_header_malformed_second_line() {
    let result = extract_header("{a: B\nbad: }\n<p></p>", "T");
    assert_eq!(
        result.unwrap_err(),
        HeaderExtractionError::MalformedFieldType { line: 2 }
    );
}

#[test]
fn compile_no_header_zero_fields() {
    let gt = compile("<p>No fields here</p>", "Plain").unwrap();
    assert_eq!(gt.name, "Plain");
    assert!(gt.fields.is_empty());
    assert_eq!(gt.render_body, "<p>No fields here</p>");
}

#[test]
fn extract_header_empty_document() {
    let hd = extract_header("", "Empty").unwrap();
    assert_eq!(hd.struct_name, "Empty");
    assert!(hd.fields.is_empty());
}

#[test]
fn header_parse_is_idempotent() {
    let doc = "{a: B\nc: D}\nbody";
    let first = extract_header(doc, "T").unwrap();
    let second = extract_header(doc, "T").unwrap();
    assert_eq!(first, second);
}

#[test]
fn substitute_escape_and_placeholder() {
    assert_eq!(substitute("@name@"), "{name}");
    assert_eq!(substitute("@@"), "@");
    assert_eq!(substitute("a@@b"), "a@b");
    assert_eq!(substitute("@@@x@"), "@{x}");
    assert_eq!(substitute("lone @ stays"), "lone @ stays");
    assert_eq!(substitute("@not closed"), "@not closed");
    assert_eq!(substitute("@!@"), "@!@");
}

#[test]
fn strip_header_is_greedy() {
    // Everything from the first `{` through the last `}` followed by a
    // newline goes, even across unrelated braces.
    assert_eq!(strip_header("pre{a}\nmid}\npost"), "prepost");
    assert_eq!(strip_header("{h}\nbody"), "body");
}

#[test]
fn strip_header_absent_leaves_text() {
    assert_eq!(strip_header("no braces at all"), "no braces at all");
    // A `}` with no newline after it closes nothing.
    assert_eq!(strip_header("{open only}"), "{open only}");
}

#[test]
fn uppercase_first_letter_cases() {
    assert_eq!(uppercase_first_letter("hello"), "Hello");
    assert_eq!(uppercase_first_letter("Hello"), "Hello");
    assert_eq!(uppercase_first_letter(""), "");
    assert_eq!(uppercase_first_letter("_x"), "_x");
    assert_eq!(uppercase_first_letter("page1"), "Page1");
}

#[test]
fn file_stem_cases() {
    assert_eq!(file_stem("Basic.html"), "Basic");
    assert_eq!(file_stem("archive.tar.gz"), "archive.tar");
    assert_eq!(file_stem(".hidden"), ".hidden");
    assert_eq!(file_stem("noext"), "noext");
    assert_eq!(derive_type_name("about.html").unwrap(), "About");
}

#[test]
fn derive_type_name_rejects_empty() {
    assert_eq!(
        derive_type_name("").unwrap_err(),
        ConversionError::FileNameInvalid
    );
    assert_eq!(
        convert_html_to_rs("<p></p>".into(), "").unwrap_err(),
        ConversionError::FileNameInvalid
    );
}

#[test]
fn render_unbound_placeholder_stays() {
    let values = vec![(String::from("a"), String::from("1"))];
    assert_eq!(render_format("{a}-{missing}", &values), "1-{missing}");
}

#[test]
fn render_last_binding_wins() {
    let values = vec![
        (String::from("a"), String::from("first")),
        (String::from("a"), String::from("second")),
    ];
    assert_eq!(render_format("{a}", &values), "second");
}

#[test]
fn compile_minifies_body() {
    // The minification collaborator collapses doubled whitespace; a document
    // compiled through it must carry the collapsed body.
    let gt = compile("a  b", "T").unwrap();
    assert_eq!(gt.render_body, "a b");
}

#[test]
fn nested_directories_structure() {
    let entries = vec![
        DirEntry::File {
            name: String::from("about.html"),
            contents: String::from("<p>About</p>"),
        },
        DirEntry::Dir {
            name: String::from("subpages"),
            entries: vec![
                DirEntry::File {
                    name: String::from("page1.html"),
                    contents: String::from("<p>One</p>"),
                },
                DirEntry::File {
                    name: String::from("page2.html"),
                    contents: String::from("<p>Two</p>"),
                },
            ],
        },
    ];
    let root = assemble(&entries).unwrap();
    assert_eq!(root.items.len(), 2);
    match &root.items[0] {
        ScopeItem::Type(gt) => assert_eq!(gt.name, "About"),
        _ => panic!("expected the compiled About type first"),
    }
    match &root.items[1] {
        ScopeItem::Child(name, child) => {
            assert_eq!(name, "subpages");
            assert_eq!(child.items.len(), 2);
            match &child.items[0] {
                ScopeItem::Type(gt) => assert_eq!(gt.name, "Page1"),
                _ => panic!("expected the compiled Page1 type"),
            }
            match &child.items[1] {
                ScopeItem::Type(gt) => assert_eq!(gt.name, "Page2"),
                _ => panic!("expected the compiled Page2 type"),
            }
        },
        _ => panic!("expected the subpages child scope"),
    }
}

#[test]
fn convert_entries_emits_modules() {
    let entries = vec![
        DirEntry::File {
            name: String::from("about.html"),
            contents: String::from("<p>About</p>"),
        },
        DirEntry::Dir {
            name: String::from("subpages"),
            entries: vec![DirEntry::File {
                name: String::from("page1.html"),
                contents: String::from("<p>One</p>"),
            }],
        },
    ];
    let text = convert_entries(&entries).unwrap();
    assert!(text.contains("pub struct About"));
    assert!(text.contains("pub mod subpages"));
    assert!(text.contains("pub struct Page1"));
}

#[test]
fn convert_entries_propagates_error() {
    let entries = vec![DirEntry::File {
        name: String::from("bad.html"),
        contents: String::from("oops: \nrest"),
    }];
    assert_eq!(
        convert_entries(&entries).unwrap_err(),
        ConversionError::Header(HeaderExtractionError::MalformedFieldType { line: 1 })
    );
}

#[test]
fn uppercase_first_letter_unicode() {
    // Unicode case mapping: a single-character mapping and one that expands.
    assert_eq!(uppercase_first_letter("éclair"), "Éclair");
    assert_eq!(uppercase_first_letter("ße"), "SSe");
    assert_eq!(derive_type_name("über.html").unwrap(), "Über");
}
