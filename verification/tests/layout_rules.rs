use ocaml_format::{Doc, FormattingOptions};

fn options(width: usize, max_indent: usize) -> FormattingOptions {
    FormattingOptions::new()
        .set_width(width)
        .set_max_indent(max_indent)
}

#[test]
fn fitting_document_prints_on_one_line() {
    let mut doc = Doc::new();
    doc.hvbox(2, |doc| {
        doc.atom("let").space().hovbox(1, |doc| {
            doc.atom("x").space().atom("=").space().atom("1");
        });
    }).space().sbox(0, |doc| {
        doc.atom("in").cut().atom("x");
    });
    let opts = options(20, 20);
    let shown = doc.display(&opts);
    assert_eq!(shown.to_string(), "let x = 1 inx");
    assert_eq!(shown.checked_to_string(), Some(String::from("let x = 1 inx")));
}

#[test]
fn box_past_max_indent_starts_new_line() {
    // The document fits in the width, but the box starts past the
    // indentation limit, so it starts on a new line.
    let mut doc = Doc::new();
    doc.atom("aaa").hbox(|doc| {
        doc.atom("b");
    });
    assert_eq!(doc.display(&options(10, 2)).to_string(), "aaa\nb");
}

#[test]
fn hbox_never_breaks() {
    let mut doc = Doc::new();
    doc.hbox(|doc| {
        doc.atom("aaaa").space().atom("bbbb").space().atom("cccc");
    });
    assert_eq!(doc.display(&options(5, 5)).to_string(), "aaaa bbbb cccc");
}

#[test]
fn packing_box_breaks_when_segment_does_not_fit() {
    let mut doc = Doc::new();
    doc.hovbox(0, |doc| {
        doc.atom("aaaa").space().atom("bb").space().atom("cccc");
    });
    assert_eq!(doc.display(&options(9, 9)).to_string(), "aaaa bb\ncccc");
}

#[test]
fn wide_characters_count_twice() {
    let mut doc = Doc::new();
    doc.hovbox(0, |doc| {
        doc.atom("漢字漢字").space().atom("x");
    });
    assert_eq!(doc.display(&options(9, 9)).to_string(), "漢字漢字\nx");
    let mut doc = Doc::new();
    doc.hovbox(0, |doc| {
        doc.atom("abcdefgh").space().atom("x").atom("y");
    });
    assert_eq!(doc.display(&options(10, 10)).to_string(), "abcdefgh\nxy");
    assert_eq!(doc.display(&options(11, 11)).to_string(), "abcdefgh xy");
}

#[test]
fn newline_indent_is_clamped_to_max_indent() {
    let mut doc = Doc::new();
    doc.vbox(8, |doc| {
        doc.atom("a").cut().atom("b");
    });
    assert_eq!(doc.display(&options(20, 3)).to_string(), "a\n   b");
}

#[test]
fn structural_box_breaks_when_moving_left() {
    let build = |doc: &mut Doc| {
        doc.atom("aaaaaaaaaa")
            .format_break(1, 4)
            .atom("bbb")
            .format_break(1, 0)
            .atom("c");
    };
    // The first break starts a line at indent 4; the second would stay, but
    // in a structural box a break that moves left of the previous line start
    // starts a new line.
    let mut doc = Doc::new();
    doc.sbox(0, build);
    assert_eq!(doc.display(&options(12, 12)).to_string(), "aaaaaaaaaa\n    bbb\nc");
    let mut doc = Doc::new();
    doc.hovbox(0, build);
    assert_eq!(doc.display(&options(12, 12)).to_string(), "aaaaaaaaaa\n    bbb c");
}
