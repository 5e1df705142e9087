use ocaml_format::fmt_width::{width_of, FmtFnWrapper, WidthCounter};
use ocaml_format::{Doc, DocSync, FormattingOptions};

fn options(width: usize, max_indent: usize) -> FormattingOptions {
    FormattingOptions::new()
        .set_width(width)
        .set_max_indent(max_indent)
}

#[test]
fn default_options_match_ocaml() {
    assert_eq!(
        format!("{:?}", FormattingOptions::new()),
        "FormattingOptions { width: 78, max_indent: 68 }"
    );
    assert_eq!(
        format!("{:?}", FormattingOptions::default()),
        "FormattingOptions { width: 78, max_indent: 68 }"
    );
}

#[test]
fn set_width_zero_keeps_options() {
    let o = FormattingOptions::new().set_width(0);
    assert_eq!(format!("{:?}", o), "FormattingOptions { width: 78, max_indent: 68 }");
}

#[test]
fn set_width_wider_keeps_max_indent() {
    let o = FormattingOptions::new().set_width(100);
    assert_eq!(format!("{:?}", o), "FormattingOptions { width: 100, max_indent: 68 }");
}

#[test]
fn set_width_narrower_moves_max_indent() {
    // 68 + 60 - 78 = 50, more than 60 / 2 and 1
    let o = FormattingOptions::new().set_width(60);
    assert_eq!(format!("{:?}", o), "FormattingOptions { width: 60, max_indent: 50 }");
    // 68 + 10 - 78 = 0, so half of 10 wins
    let o = FormattingOptions::new().set_width(10);
    assert_eq!(format!("{:?}", o), "FormattingOptions { width: 10, max_indent: 5 }");
    // width 1: half is 0, so the floor of 1 wins
    let o = FormattingOptions::new().set_width(1);
    assert_eq!(format!("{:?}", o), "FormattingOptions { width: 1, max_indent: 1 }");
}

#[test]
fn set_max_indent_sets_only_it() {
    let o = FormattingOptions::new().set_max_indent(3);
    assert_eq!(format!("{:?}", o), "FormattingOptions { width: 78, max_indent: 3 }");
}

#[test]
fn widths_are_display_widths() {
    assert_eq!(width_of(""), 0);
    assert_eq!(width_of("abc"), 3);
    assert_eq!(width_of("λx."), 3);
    assert_eq!(width_of("漢字"), 4);
}

#[test]
fn width_counter_accumulates() {
    let mut c = WidthCounter::new();
    assert_eq!(c.get(), 0);
    assert!(c.write_str("ab").is_ok());
    assert!(c.write_str("漢").is_ok());
    assert_eq!(c.get(), 4);
}

#[test]
fn fmt_fn_wrapper_renders_its_closure() {
    let w = FmtFnWrapper::new(|| String::from("(λ"));
    assert_eq!(w.to_string(), "(λ");
}

#[test]
fn empty_document_prints_nothing() {
    let doc = Doc::new();
    assert_eq!(doc.display(&FormattingOptions::new()).to_string(), "");
    let doc: Doc = Default::default();
    assert_eq!(doc.display(&FormattingOptions::new()).checked_to_string(), Some(String::new()));
}

#[test]
fn checked_atom_appends() {
    let mut doc = Doc::new();
    assert!(doc.checked_atom("ab"));
    assert!(doc.checked_atom_fn(|| String::from("cd")));
    assert_eq!(doc.display(&FormattingOptions::new()).to_string(), "abcd");
}

#[test]
fn extend_then_append_keeps_segments() {
    // The document keeps the segment of the last break of the appended
    // document open: "dd" joins the segment of the second break.
    let mut a = Doc::new();
    a.atom("aa").space();
    let mut b = Doc::new();
    b.atom("bb").space().atom("cc");
    a.extend(b).atom("dd");
    assert_eq!(a.display(&options(6, 6)).to_string(), "aa bb\nccdd");
}

#[test]
fn sync_doc_extends_doc() {
    let mut s: DocSync = DocSync::new();
    s.atom("x").cut().atom("y");
    let mut doc = Doc::new();
    doc.atom("[").extend(s).atom("]");
    assert_eq!(doc.display(&FormattingOptions::new()).to_string(), "[xy]");
}

#[test]
fn cut_and_space_are_breaks() {
    let mut doc = Doc::new();
    doc.vbox(0, |doc| {
        doc.atom("a").cut().atom("b").space().atom("c");
    });
    assert_eq!(doc.display(&FormattingOptions::new()).to_string(), "a\nb\nc");
}
