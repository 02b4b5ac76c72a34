use sqlchisel::doc::Doc;
use sqlchisel::printer::{format_doc, PrintConfig};

#[test]
fn group_fits_on_single_line() {
    let doc = Doc::Group(vec![
        Doc::Text("SELECT".into()),
        Doc::Space,
        Doc::Text("a".into()),
        Doc::SoftLine,
        Doc::Text("b".into()),
    ]);
    let cfg = PrintConfig {
        line_length: 40,
        indent_width: 2,
    };
    let rendered = format_doc(&doc, &cfg);
    assert_eq!(rendered, "SELECT a b");
}

#[test]
fn group_breaks_when_too_long() {
    let doc = Doc::Group(vec![
        Doc::Text("SELECT".into()),
        Doc::Space,
        Doc::Text("a_long_identifier".into()),
        Doc::SoftLine,
        Doc::Text("b_long_identifier".into()),
    ]);
    let cfg = PrintConfig {
        line_length: 12,
        indent_width: 2,
    };
    let rendered = format_doc(&doc, &cfg);
    assert_eq!(rendered, "SELECT a_long_identifier\nb_long_identifier");
}

#[test]
fn indent_applies_to_nested_lines() {
    let doc = Doc::Group(vec![
        Doc::Text("SELECT".into()),
        Doc::Line,
        Doc::Indent(Box::new(Doc::Concat(vec![
            Doc::Text("a".into()),
            Doc::Line,
            Doc::Text("b".into()),
        ]))),
    ]);
    let cfg = PrintConfig {
        line_length: 20,
        indent_width: 2,
    };
    let rendered = format_doc(&doc, &cfg);
    assert_eq!(rendered, "SELECT\n  a\n  b");
}
