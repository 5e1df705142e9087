use ocaml_format::{Doc, FormattingOptions};

fn options(width: usize, max_indent: usize) -> FormattingOptions {
    FormattingOptions::new()
        .set_width(width)
        .set_max_indent(max_indent)
}

#[test]
fn test_hbox() {
    let mut doc: Doc = Doc::new();
    doc.hbox(|doc| {
        doc.atom_fn(|| String::from("--"))
            .format_break(1, 0)
            .atom_fn(|| String::from("--"))
            .format_break(1, 0)
            .atom_fn(|| String::from("--"));
    });
    assert_eq!(doc.display(&options(5, 5)).to_string(), "-- -- --");
}

#[test]
fn test_vbox() {
    let mut doc: Doc = Doc::new();
    doc.vbox(1, |doc| {
        doc.atom_fn(|| String::from("--"))
            .format_break(1, 0)
            .atom_fn(|| String::from("--"))
            .format_break(1, 0)
            .atom_fn(|| String::from("--"));
    });
    assert_eq!(
        doc.display(&options(5, 5)).to_string(),
        "\
--
 --
 --",
    );
}

#[test]
fn test_hvbox_h() {
    let mut doc: Doc = Doc::new();
    doc.hvbox(1, |doc| {
        doc.atom("--").space().atom("--").space().atom("--");
    });
    assert_eq!(doc.display(&options(10, 10)).to_string(), "-- -- --");
}

#[test]
fn test_hvbox_v() {
    let mut doc: Doc = Doc::new();
    doc.hvbox(1, |doc| {
        doc.atom("---").space().atom("---").space().atom("---");
    });
    assert_eq!(
        doc.display(&options(10, 10)).to_string(),
        "\
---
 ---
 ---",
    );
}

#[test]
fn test_hovbox_0() {
    let mut doc: Doc = Doc::new();
    doc.hovbox(2, |doc| {
        doc.atom("---").space().atom("---").space().atom("---");
    });
    assert_eq!(
        doc.display(&options(10, 10)).to_string(),
        "\
--- ---
  ---",
    );
}

#[test]
fn test_hovbox_1() {
    let mut doc: Doc = Doc::new();
    doc.hovbox(2, |doc| {
        doc.atom("---").space().atom("---").space().atom("---");
    });
    assert_eq!(
        doc.display(&options(6, 6)).to_string(),
        "\
---
  ---
  ---",
    );
}

#[test]
fn test_box_indent() {
    let mut doc: Doc = Doc::new();
    doc.atom("---[").hovbox(2, |doc| {
        doc.atom("--")
            .space()
            .atom("--")
            .space()
            .atom("--")
            .space()
            .atom("--");
    });
    assert_eq!(
        doc.display(&options(11, 11)).to_string(),
        "\
---[-- --
      -- --",
    );
}

#[test]
fn test_break_indent() {
    let mut doc: Doc = Doc::new();
    doc.atom("---").hovbox(1, |doc| {
        doc.atom("[--")
            .format_break(1, 2)
            .atom("--")
            .format_break(1, 2)
            .atom("--")
            .format_break(1, 2)
            .atom("--");
    });
    assert_eq!(
        doc.display(&options(10, 10)).to_string(),
        "\
---[-- --
      --
      --",
    );
}

#[test]
fn test_sbox() {
    let mut doc: Doc = Doc::new();
    doc.sbox(0, |doc| {
        doc.atom("(---")
            .format_break(0, 1)
            .sbox(0, |doc| {
                doc.atom("(----")
                    .format_break(0, 1)
                    .sbox(0, |doc| {
                        doc.atom("(---").cut().atom(")");
                    })
                    .cut()
                    .atom(")");
            })
            .cut()
            .atom(")");
    });
    assert_eq!(
        doc.display(&options(10, 10)).to_string(),
        "\
(---
 (----
  (---)
 )
)",
    );
}

#[test]
fn test_max_indent() {
    let mut doc: Doc = Doc::new();
    doc.vbox(2, |doc| {
        doc.atom("v").cut().vbox(2, |doc| {
            doc.atom("v").cut().sbox(1, |doc| {
                doc.atom("s1").sbox(0, |doc| {
                    doc.atom("s0").format_break(10, 2).atom("bla");
                });
            });
        });
    });
    assert_eq!(
        doc.display(&options(10, 5)).to_string(),
        "\
v
  v
    s1
     s0
     bla",
    );
}
