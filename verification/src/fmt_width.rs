//! Display widths of text, as the `unicode-width` crate measures them.
use unicode_width::UnicodeWidthStr;
use vstd::prelude::*;

verus! {

/// The display width, in columns, that `unicode_width::UnicodeWidthStr::width`
/// gives a string with these characters.
pub uninterp spec fn display_width(s: Seq<char>) -> usize;

/// Calls `UnicodeWidthStr::width` of the `unicode-width` crate on `s`.
///
/// The contract claims only that the result is a function of the characters
/// of `s`: the crate folds a per-character width table over them.
#[verifier::external_body]
fn str_width(s: &str) -> (w: usize)
    ensures
        w == display_width(s@),
{
    s.width()
}

/// The display width of `s`.
pub fn width_of(s: &str) -> (w: usize)
    ensures
        w == display_width(s@),
{
    let mut counter = WidthCounter::new();
    let written = counter.write_str(s);
    proof {
        assert(written is Ok);
    }
    counter.get()
}

/// The error of a width count that no longer fits in a `usize`.
#[derive(Clone, Copy, Debug, PartialEq, Eq, Structural)]
pub struct WidthOverflow;

/// A sink that counts the display width of the text written to it.
pub struct WidthCounter(usize);

impl View for WidthCounter {
    type V = nat;

    /// The width counted so far.
    closed spec fn view(&self) -> nat {
        self.0 as nat
    }
}

impl WidthCounter {
    /// A counter that has counted nothing.
    pub fn new() -> (counter: Self)
        ensures
            counter@ == 0,
    {
        WidthCounter(0)
    }

    /// The width counted so far.
    pub fn get(&self) -> (width: usize)
        ensures
            width == self@,
    {
        self.0
    }

    /// Counts the display width of `s`.
    ///
    /// Fails, leaving the count as it was, when the new count would not fit in
    /// a `usize`.
    pub fn write_str(&mut self, s: &str) -> (r: Result<(), WidthOverflow>)
        ensures
            r is Ok <==> old(self)@ + display_width(s@) <= usize::MAX,
            r is Ok ==> final(self)@ == old(self)@ + display_width(s@),
            r is Err ==> final(self)@ == old(self)@,
    {
        let w = str_width(s);
        if w <= usize::MAX - self.0 {
            self.0 = self.0 + w;
            Ok(())
        } else {
            Err(WidthOverflow)
        }
    }
}

/// Adapts a closure that renders text into a value that can be rendered.
pub struct FmtFnWrapper<T>(T);

impl<T> View for FmtFnWrapper<T> {
    type V = T;

    /// The wrapped closure.
    closed spec fn view(&self) -> T {
        self.0
    }
}

impl<T> FmtFnWrapper<T> {
    /// Wraps `fmt_fn`.
    pub fn new(fmt_fn: T) -> (wrapper: Self)
        ensures
            wrapper@ == fmt_fn,
    {
        FmtFnWrapper(fmt_fn)
    }
}

impl<T: Fn() -> String> FmtFnWrapper<T> {
    /// Renders the wrapped closure's text.
    pub fn to_string(&self) -> (text: String)
        requires
            call_requires(self@, ()),
        ensures
            call_ensures(self@, (), text),
    {
        (self.0)()
    }
}

} // verus!
