# ocaml_format

A pretty-printer in the style of OCaml's `Format` module, written in Verus.

A `Doc` is built from atoms, break hints (`format_break`, `space`, `cut`) and
nested boxes (`hbox`, `vbox`, `hvbox`, `hovbox`, `sbox`), then laid out with
`Doc::display(&options).to_string()` within the width and indentation limits
of a `FormattingOptions`.

Layout:

- `src/model.rs`: documents as mathematical values (`Piece`), their widths and
  segment structure.
- `src/doc.rs`: the document builder; every method keeps the cached widths in
  agreement with the items.
- `src/layout.rs`: the layout rules as spec functions, and the printer proved
  to follow them.
- `src/laws.rs`: properties of layout that hold of every document.
- `src/options.rs`, `src/fmt_width.rs`: the limits, and text widths from the
  `unicode-width` crate.
- `app/`: `std::fmt` adapters (a `Display` view of a laid-out document, width
  of `Display` values).
