//! A pretty-printer in the style of the OCaml `Format` module.
//!
//! A [`Doc`] is built from atoms (indivisible text), break hints and nested
//! boxes; [`Doc::display`] lays it out within the line width and indentation
//! limits of a [`FormattingOptions`].
//!
//! The whole document is built first and laid out at once. The width of text
//! is its display width as the `unicode-width` crate measures it.


pub mod box_laws;
pub mod doc;
pub mod fmt_width;
pub mod laws;
pub mod layout;
pub mod model;
pub mod options;

pub use doc::{Doc, DocSend, DocSendSync, DocSync};
pub use layout::DocDisplay;
pub use options::FormattingOptions;

