//! The limits that layout works within.
use vstd::prelude::*;

verus! {

/// The line width limit and the indentation limit of a layout.
#[derive(Clone, Debug)]
pub struct FormattingOptions {
    pub(crate) width: usize,
    pub(crate) max_indent: usize,
}

/// The larger of two integers.
pub open spec fn larger(a: int, b: int) -> int {
    if a >= b {
        a
    } else {
        b
    }
}

/// The indentation limit after the width limit changes from `old_width` to
/// `width`, when the old limit `max_indent` exceeds the new width: the old
/// limit moves by as much as the width does, but stays at least half the new
/// width and at least 1.
pub open spec fn shrunk_max_indent(max_indent: int, old_width: int, width: int) -> int {
    larger(larger(larger(max_indent + width - old_width, 0), width / 2), 1)
}

impl FormattingOptions {
    /// The line width limit.
    pub closed spec fn spec_width(&self) -> nat {
        self.width as nat
    }

    /// The indentation limit: no line starts further right than this.
    pub closed spec fn spec_max_indent(&self) -> nat {
        self.max_indent as nat
    }

    pub(crate) proof fn lemma_limits(&self)
        ensures
            self.width as nat == self.spec_width(),
            self.max_indent as nat == self.spec_max_indent(),
    {
    }

    /// Creates a `FormattingOptions` with defaults that align with the OCaml
    /// implementation.
    ///
    /// `width` is `78`, `max_indent` is `68`.
    pub fn new() -> (options: Self)
        ensures
            options.spec_width() == 78,
            options.spec_max_indent() == 68,
    {
        Self::default()
    }

    /// Reflects the `margin` in the OCaml implementation.
    ///
    /// Sets line width limit. A width of 0 leaves the options as they are.
    /// When the indentation limit exceeds the new width, it is moved by as
    /// much as the width moves, but kept at least at half the new width and
    /// at least at 1.
    pub fn set_width(self, width: usize) -> (options: Self)
        requires
            width != 0 && self.spec_max_indent() > width ==> self.spec_max_indent() + width
                <= usize::MAX,
        ensures
            width == 0 ==> options.spec_width() == self.spec_width()
                && options.spec_max_indent() == self.spec_max_indent(),
            width != 0 ==> options.spec_width() == width,
            width != 0 && self.spec_max_indent() > width ==> options.spec_max_indent()
                == shrunk_max_indent(
                self.spec_max_indent() as int,
                self.spec_width() as int,
                width as int,
            ),
            width != 0 && self.spec_max_indent() <= width ==> options.spec_max_indent()
                == self.spec_max_indent(),
    {
        let mut options = self;
        if width == 0 {
            return options;
        }
        if options.max_indent > width {
            let sum = options.max_indent + width;
            let moved = if sum > options.width {
                sum - options.width
            } else {
                0
            };
            let half = width / 2;
            let mut limit = if moved >= half {
                moved
            } else {
                half
            };
            if limit < 1 {
                limit = 1;
            }
            options.max_indent = limit;
        }
        options.width = width;
        options
    }

    /// Reflects the `max_indent` in the OCaml implementation.
    pub fn set_max_indent(self, max_indent: usize) -> (options: Self)
        ensures
            options.spec_width() == self.spec_width(),
            options.spec_max_indent() == max_indent,
    {
        let mut options = self;
        options.max_indent = max_indent;
        options
    }
}

/// Aligns with the defaults of the OCaml implementation.
///
/// `width` is `78`, `max_indent` is `68`.
impl Default for FormattingOptions {
    fn default() -> (options: Self)
        ensures
            options.spec_width() == 78,
            options.spec_max_indent() == 68,
    {
        Self { width: 78, max_indent: 68 }
    }
}

} // verus!
