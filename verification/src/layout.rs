//! Layout: how a document is printed within the limits of a
//! `FormattingOptions`.
use vstd::prelude::*;

verus! {

use crate::doc::{Atom, Doc, DocItem, FormatBreak, is_break_with_segment, item_piece, item_wf};
use crate::model::{
    FormatBoxKind, Piece, lemma_segments_direct, lemma_segments_shape, segment_width, segments,
    spaces, total_width,
};
use crate::options::FormattingOptions;

/// The state of the printer between two pieces.
pub struct Layout {
    /// The column the next character goes to.
    pub caret: int,
    /// Whether nothing but indentation has been printed on the current line.
    pub just_newline: bool,
    /// The indentation of the current line, when it was started by a break.
    pub prev_indent: int,
    /// Whether every column reached so far fits in a `usize`.
    pub in_range: bool,
    /// The text printed so far.
    pub out: Seq<char>,
}

/// What the printer knows of the box whose items it prints.
pub struct BoxFrame {
    pub kind: FormatBoxKind,
    /// The column of the box's own indentation.
    pub curr_indent: int,
    /// Whether the whole box fits on the line it started on.
    pub fits: bool,
}

/// The printer state before anything is printed.
pub open spec fn start_layout() -> Layout {
    Layout { caret: 0, just_newline: true, prev_indent: 0, in_range: true, out: seq![] }
}

/// Prints `n` spaces on the current line.
pub open spec fn put_spaces(st: Layout, n: nat) -> Layout {
    Layout {
        caret: st.caret + n,
        just_newline: st.just_newline,
        prev_indent: st.prev_indent,
        in_range: st.in_range && st.caret + n <= usize::MAX,
        out: st.out + spaces(n),
    }
}

/// Prints text of the given width on the current line.
pub open spec fn put_text(st: Layout, text: Seq<char>, width: nat) -> Layout {
    Layout {
        caret: st.caret + width,
        just_newline: false,
        prev_indent: st.prev_indent,
        in_range: st.in_range && st.caret + width <= usize::MAX,
        out: st.out + text,
    }
}

/// The indentation of a new line asked for at column `indent`: never more
/// than the limit.
pub open spec fn clamp_indent(indent: int, max_indent: nat) -> int {
    if indent < max_indent {
        indent
    } else {
        max_indent as int
    }
}

/// Starts a new line indented to `indent`, or to the limit if that is less.
pub open spec fn put_newline(st: Layout, indent: int, max_indent: nat) -> Layout {
    let i = clamp_indent(indent, max_indent);
    Layout {
        caret: i,
        just_newline: true,
        prev_indent: i,
        in_range: st.in_range,
        out: st.out + seq!['\n'] + spaces(i as nat),
    }
}

/// The frame of a box with these items, entered in state `st`.
pub open spec fn frame_of(
    kind: FormatBoxKind,
    indent: nat,
    body: Seq<Piece>,
    st: Layout,
    options: FormattingOptions,
) -> BoxFrame {
    BoxFrame {
        kind,
        curr_indent: st.caret + indent,
        fits: st.caret + total_width(body) <= options.spec_width(),
    }
}

/// Prints a break of a box: its spaces, or a new line indented relative to
/// the box. `seg` is the width of the segment the break opens.
pub open spec fn break_layout(
    st: Layout,
    frame: BoxFrame,
    spaces: nat,
    indent: nat,
    seg: nat,
    options: FormattingOptions,
) -> Layout {
    let stay = put_spaces(st, spaces);
    let wrap = put_newline(st, frame.curr_indent + indent, options.spec_max_indent());
    match frame.kind {
        FormatBoxKind::H => stay,
        FormatBoxKind::V => wrap,
        FormatBoxKind::Hv => if frame.fits {
            stay
        } else {
            wrap
        },
        FormatBoxKind::HovP => if st.caret + seg <= options.spec_width() {
            stay
        } else {
            wrap
        },
        FormatBoxKind::HovS => if frame.fits || st.just_newline {
            stay
        } else if st.caret + seg > options.spec_width() || frame.curr_indent + indent
            < st.prev_indent {
            wrap
        } else {
            stay
        },
    }
}

/// Where a nested box starts: on a new line at the enclosing box's
/// indentation when the current column is past both the indentation limit
/// and that indentation, on the current line otherwise.
pub open spec fn enter_box(st: Layout, frame: BoxFrame, options: FormattingOptions) -> Layout {
    if st.caret > options.spec_max_indent() && st.caret > frame.curr_indent {
        put_newline(st, frame.curr_indent, options.spec_max_indent())
    } else {
        st
    }
}

/// Prints the first `n` items of a box.
pub open spec fn lay_prefix(
    items: Seq<Piece>,
    n: int,
    frame: BoxFrame,
    st: Layout,
    options: FormattingOptions,
) -> Layout
    decreases items, n,
{
    if n <= 0 || n > items.len() {
        st
    } else {
        lay_piece(
            lay_prefix(items, n - 1, frame, st, options),
            items[n - 1],
            segment_width(items, n - 1),
            frame,
            options,
        )
    }
}

/// Prints one item of a box; `seg` is the segment width of a break.
pub open spec fn lay_piece(
    st: Layout,
    p: Piece,
    seg: nat,
    frame: BoxFrame,
    options: FormattingOptions,
) -> Layout
    decreases p, 0int,
{
    match p {
        Piece::Text { text, width } => put_text(st, text, width),
        Piece::Break { spaces, indent } => break_layout(st, frame, spaces, indent, seg, options),
        Piece::Block { kind, indent, body } => {
            let entered = enter_box(st, frame, options);
            lay_prefix(
                body,
                body.len() as int,
                frame_of(kind, indent, body, entered, options),
                entered,
                options,
            )
        },
    }
}

/// Prints a box with these items, entered in state `st`.
pub open spec fn lay_box(
    kind: FormatBoxKind,
    indent: nat,
    body: Seq<Piece>,
    st: Layout,
    options: FormattingOptions,
) -> Layout {
    lay_prefix(body, body.len() as int, frame_of(kind, indent, body, st, options), st, options)
}

/// The layout of a whole document: its items printed as a packing box with
/// no indentation, from the start of an empty output.
pub open spec fn layout(doc: Seq<Piece>, options: FormattingOptions) -> Layout {
    lay_box(FormatBoxKind::HovP, 0, doc, start_layout(), options)
}

/// Once a column has left the range of `usize`, it stays left: a piece does
/// not bring the printer back into range.
pub proof fn lemma_lay_piece_in_range(
    st: Layout,
    p: Piece,
    seg: nat,
    frame: BoxFrame,
    options: FormattingOptions,
)
    ensures
        lay_piece(st, p, seg, frame, options).in_range ==> st.in_range,
    decreases p, 0int,
{
    match p {
        Piece::Block { kind, indent, body } => {
            let entered = enter_box(st, frame, options);
            lemma_lay_prefix_in_range(
                body,
                body.len() as int,
                body.len() as int,
                frame_of(kind, indent, body, entered, options),
                entered,
                options,
            );
        },
        _ => {},
    }
}

/// Printing more items of a box keeps the printer out of range once it has
/// left it.
pub proof fn lemma_lay_prefix_in_range(
    items: Seq<Piece>,
    m: int,
    n: int,
    frame: BoxFrame,
    st: Layout,
    options: FormattingOptions,
)
    requires
        0 <= m <= n <= items.len(),
    ensures
        lay_prefix(items, n, frame, st, options).in_range ==> lay_prefix(
            items,
            m,
            frame,
            st,
            options,
        ).in_range,
        lay_prefix(items, n, frame, st, options).in_range ==> st.in_range,
    decreases items, n,
{
    if n > 0 {
        lemma_lay_piece_in_range(
            lay_prefix(items, n - 1, frame, st, options),
            items[n - 1],
            segment_width(items, n - 1),
            frame,
            options,
        );
        if m < n {
            lemma_lay_prefix_in_range(items, m, n - 1, frame, st, options);
        } else {
            lemma_lay_prefix_in_range(items, 0, n - 1, frame, st, options);
        }
    }
}


/// The error of a layout whose column no longer fits in a `usize`.
#[derive(Clone, Copy, Debug, PartialEq, Eq, Structural)]
pub struct LayoutOverflow;

/// Appends `n` spaces to `out`.
fn push_spaces(out: &mut String, n: usize)
    ensures
        final(out)@ == old(out)@ + spaces(n as nat),
{
    let mut i: usize = 0;
    proof {
        reveal_strlit(" ");
        assert(out@ =~= old(out)@ + spaces(0));
    }
    while i < n
        invariant
            0 <= i <= n,
            out@ == old(out)@ + spaces(i as nat),
            " "@ == seq![' '],
        decreases n - i,
    {
        out.append(" ");
        i = i + 1;
        assert(out@ =~= old(out)@ + spaces(i as nat));
    }
}

/// The printer: its options, the text printed so far, and its position.
struct Engine<'a> {
    options: &'a FormattingOptions,
    out: String,
    caret_pos: usize,
    just_newline: bool,
    prev_indent: usize,
}

impl<'a> Engine<'a> {
    spec fn state(&self) -> Layout {
        Layout {
            caret: self.caret_pos as int,
            just_newline: self.just_newline,
            prev_indent: self.prev_indent as int,
            in_range: true,
            out: self.out@,
        }
    }

    /// Prints the items of `doc` as a box of the given kind and indentation.
    fn fmt(&mut self, format_box_kind: FormatBoxKind, format_box_indent: usize, doc: &Doc) -> (r:
        Result<(), LayoutOverflow>)
        requires
            doc.wf(),
        ensures
            final(self).options == old(self).options,
            r is Ok <==> lay_box(
                format_box_kind,
                format_box_indent as nat,
                doc@,
                old(self).state(),
                *old(self).options,
            ).in_range,
            r is Ok ==> final(self).state() == lay_box(
                format_box_kind,
                format_box_indent as nat,
                doc@,
                old(self).state(),
                *old(self).options,
            ),
        decreases doc@,
    {
        let ghost options = *self.options;
        let ghost st0 = self.state();
        let ghost frame = frame_of(format_box_kind, format_box_indent as nat, doc@, st0, options);
        proof {
            doc.lemma_wf_unfold();
            lemma_segments_shape(doc@);
            self.options.lemma_limits();
        }
        let curr_indent = self.caret_pos.saturating_add(format_box_indent);
        let flat = doc.flat_width;
        let fits = flat <= self.options.width && self.caret_pos <= self.options.width - flat;
        let n = doc.items.len();
        assert(lay_box(format_box_kind, format_box_indent as nat, doc@, st0, options)
            == lay_prefix(doc@, n as int, frame, st0, options));
        let mut i: usize = 0;
        while i < n
            invariant
                0 <= i <= n,
                n == doc.items@.len(),
                n == doc@.len(),
                doc.wf(),
                doc.segments_cached(),
                forall|j: int| 0 <= j < n ==> #[trigger] doc@[j] == item_piece(doc.items@[j]),
                forall|j: int| 0 <= j < n ==> item_wf(#[trigger] doc.items@[j]),
                segments(doc@).segs.len() == n,
                self.options == old(self).options,
                *self.options == options,
                old(self).state() == st0,
                self.state() == lay_prefix(doc@, i as int, frame, st0, options),
                curr_indent == (if frame.curr_indent > usize::MAX {
                    usize::MAX as int
                } else {
                    frame.curr_indent
                }),
                fits == frame.fits,
                frame == frame_of(format_box_kind, format_box_indent as nat, doc@, st0, options),
            decreases n - i,
        {
            proof {
                self.options.lemma_limits();
            }
            let ghost st = self.state();
            let ghost seg = segment_width(doc@, i as int);
            let ghost next = lay_piece(st, doc@[i as int], seg, frame, options);
            assert(lay_prefix(doc@, i + 1, frame, st0, options) == next);
            assert(doc@[i as int] == item_piece(doc.items@[i as int]));
            proof {
                doc.lemma_view();
                lemma_segments_direct(doc@);
                assert(is_break_with_segment(doc.items@[i as int], segments(doc@).segs[i as int]));
            }
            match &doc.items[i] {
                DocItem::FormatBox(b) => {
                    let ghost entered = enter_box(st, frame, options);
                    if self.caret_pos > self.options.max_indent && self.caret_pos > curr_indent {
                        self.fmt_newline(curr_indent);
                        assert(clamp_indent(curr_indent as int, options.spec_max_indent())
                            == clamp_indent(frame.curr_indent, options.spec_max_indent()));
                    }
                    assert(self.state() == entered);
                    proof {
                        b.doc.lemma_view();
                        assert(doc@[i as int] == item_piece(doc.items@[i as int]));
                        assert(decreases_to!(doc@ => doc@[i as int]));
                    }
                    let r = self.fmt(b.kind, b.indent, &b.doc);
                    if r.is_err() {
                        proof {
                            lemma_lay_prefix_in_range(doc@, i + 1, n as int, frame, st0, options);
                        }
                        return r;
                    }
                },
                DocItem::Atom(a) => {
                    let r = self.fmt_atom(a);
                    if r.is_err() {
                        proof {
                            lemma_lay_prefix_in_range(doc@, i + 1, n as int, frame, st0, options);
                        }
                        return r;
                    }
                },
                DocItem::FormatBreak(format_break) => {
                    let r = self.fmt_format_break(
                        format_box_kind,
                        curr_indent,
                        fits,
                        format_break,
                        Ghost(frame),
                    );
                    if r.is_err() {
                        proof {
                            lemma_lay_prefix_in_range(doc@, i + 1, n as int, frame, st0, options);
                        }
                        return r;
                    }
                },
            }
            i = i + 1;
        }
        Ok(())
    }

    /// Prints a break of a box, as its kind decides.
    fn fmt_format_break(
        &mut self,
        format_box_kind: FormatBoxKind,
        curr_indent: usize,
        fits: bool,
        format_break: &FormatBreak,
        Ghost(frame): Ghost<BoxFrame>,
    ) -> (r: Result<(), LayoutOverflow>)
        requires
            frame.kind == format_box_kind,
            frame.fits == fits,
            frame.curr_indent >= 0,
            curr_indent == (if frame.curr_indent > usize::MAX {
                usize::MAX as int
            } else {
                frame.curr_indent
            }),
        ensures
            final(self).options == old(self).options,
            ({
                let post = break_layout(
                    old(self).state(),
                    frame,
                    format_break.spaces as nat,
                    format_break.indent as nat,
                    format_break.segment_flat_width as nat,
                    *old(self).options,
                );
                &&& r is Ok <==> post.in_range
                &&& r is Ok ==> final(self).state() == post
            }),
    {
        let ghost options = *self.options;
        proof {
            self.options.lemma_limits();
        }
        let width = self.options.width;
        let seg = format_break.segment_flat_width;
        let seg_fits = seg <= width && self.caret_pos <= width - seg;
        let break_indent = curr_indent.saturating_add(format_break.indent);
        let stay = match format_box_kind {
            FormatBoxKind::H => true,
            FormatBoxKind::V => false,
            FormatBoxKind::Hv => fits,
            FormatBoxKind::HovP => seg_fits,
            FormatBoxKind::HovS => {
                if fits || self.just_newline {
                    true
                } else {
                    seg_fits && break_indent >= self.prev_indent
                }
            },
        };
        if stay {
            self.fmt_spaces(format_break.spaces)
        } else {
            self.fmt_newline(break_indent);
            assert(clamp_indent(break_indent as int, options.spec_max_indent()) == clamp_indent(
                frame.curr_indent + format_break.indent,
                options.spec_max_indent(),
            ));
            Ok(())
        }
    }

    /// Prints an atom.
    fn fmt_atom(&mut self, atom: &Atom) -> (r: Result<(), LayoutOverflow>)
        ensures
            final(self).options == old(self).options,
            r is Ok <==> put_text(old(self).state(), atom.text@, atom.width as nat).in_range,
            r is Ok ==> final(self).state() == put_text(
                old(self).state(),
                atom.text@,
                atom.width as nat,
            ),
    {
        if atom.width > usize::MAX - self.caret_pos {
            return Err(LayoutOverflow);
        }
        self.caret_pos = self.caret_pos + atom.width;
        self.just_newline = false;
        self.out.append(atom.text.as_str());
        Ok(())
    }

    /// Prints `n` spaces.
    fn fmt_spaces(&mut self, n: usize) -> (r: Result<(), LayoutOverflow>)
        ensures
            final(self).options == old(self).options,
            r is Ok <==> put_spaces(old(self).state(), n as nat).in_range,
            r is Ok ==> final(self).state() == put_spaces(old(self).state(), n as nat),
    {
        if n > usize::MAX - self.caret_pos {
            return Err(LayoutOverflow);
        }
        self.caret_pos = self.caret_pos + n;
        push_spaces(&mut self.out, n);
        Ok(())
    }

    /// Starts a new line, indented to `indent` or to the limit if that is
    /// less.
    fn fmt_newline(&mut self, indent: usize)
        ensures
            final(self).options == old(self).options,
            final(self).state() == put_newline(
                old(self).state(),
                indent as int,
                old(self).options.spec_max_indent(),
            ),
    {
        proof {
            self.options.lemma_limits();
        }
        let indent = if indent < self.options.max_indent {
            indent
        } else {
            self.options.max_indent
        };
        self.caret_pos = indent;
        self.just_newline = true;
        self.prev_indent = indent;
        proof {
            reveal_strlit("\n");
        }
        let ghost before = self.out@;
        self.out.append("\n");
        assert(self.out@ == before + seq!['\n']);
        push_spaces(&mut self.out, indent);
    }
}


/// A document together with the options to lay it out with: what
/// [`Doc::display`] returns.
#[derive(Clone, Copy)]
pub struct DocDisplay<'a> {
    doc: &'a Doc,
    options: &'a FormattingOptions,
}

impl<'a> DocDisplay<'a> {
    /// The document to lay out.
    pub closed spec fn shown(&self) -> Doc {
        *self.doc
    }

    /// The options to lay it out with.
    pub closed spec fn options(&self) -> FormattingOptions {
        *self.options
    }

    /// Lays out the document, or returns `None` when a column of the layout
    /// would not fit in a `usize`.
    pub fn checked_to_string(&self) -> (text: Option<String>)
        requires
            self.shown().wf(),
        ensures
            match text {
                Some(t) => layout(self.shown()@, self.options()).in_range && t@ == layout(
                    self.shown()@,
                    self.options(),
                ).out,
                None => !layout(self.shown()@, self.options()).in_range,
            },
    {
        // The document is laid out as a packing box with no indentation.
        let mut engine = Engine {
            options: self.options,
            out: String::new(),
            caret_pos: 0,
            just_newline: true,
            prev_indent: 0,
        };
        proof {
            assert(engine.state() == start_layout());
        }
        match engine.fmt(FormatBoxKind::HovP, 0, self.doc) {
            Ok(()) => Some(engine.out),
            Err(_) => None,
        }
    }

    /// Lays out the document.
    pub fn to_string(&self) -> (text: String)
        requires
            self.shown().wf(),
            layout(self.shown()@, self.options()).in_range,
        ensures
            text@ == layout(self.shown()@, self.options()).out,
    {
        match self.checked_to_string() {
            Some(text) => text,
            None => String::new(),
        }
    }
}

impl Doc {
    /// Returns a value that lays out the document with the given options.
    pub fn display<'a>(&'a self, options: &'a FormattingOptions) -> (shown: DocDisplay<'a>)
        ensures
            shown.shown() == *self,
            shown.options() == *options,
    {
        DocDisplay { doc: self, options }
    }
}

} // verus!
