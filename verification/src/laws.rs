//! Properties of layout that hold of every document.
use vstd::prelude::*;

verus! {

use crate::layout::{
    BoxFrame, Layout, enter_box, frame_of, lay_piece, lay_prefix, layout, put_spaces, start_layout,
};
use crate::model::{
    FormatBoxKind, Piece, flat_text, lemma_next_break_bounds, lemma_total_width_add,
    next_break, piece_flat_text, piece_width, piece_without_vbox, segment_width, total_width,
    without_vbox,
};
use crate::options::{FormattingOptions, larger};

proof fn lemma_take_step(items: Seq<Piece>, n: int)
    requires
        0 < n <= items.len(),
    ensures
        total_width(items.take(n)) == total_width(items.take(n - 1)) + piece_width(items[n - 1]),
        flat_text(items.take(n)) == flat_text(items.take(n - 1)) + piece_flat_text(items[n - 1]),
{
    assert(items.take(n).drop_last() =~= items.take(n - 1));
}

proof fn lemma_take_within(items: Seq<Piece>, n: int)
    requires
        0 <= n <= items.len(),
    ensures
        total_width(items.take(n)) + total_width(items.skip(n)) == total_width(items),
{
    assert(items.take(n) + items.skip(n) =~= items);
    lemma_total_width_add(items.take(n), items.skip(n));
}

proof fn lemma_without_vbox_index(items: Seq<Piece>, i: int)
    requires
        without_vbox(items),
        0 <= i < items.len(),
    ensures
        piece_without_vbox(items[i]),
    decreases items.len(),
{
    if i < items.len() - 1 {
        lemma_without_vbox_index(items.drop_last(), i);
    }
}

/// What precedes a break, and the segment it opens, fit within the width of
/// the whole sequence.
proof fn lemma_segment_within(items: Seq<Piece>, i: int)
    requires
        0 <= i < items.len(),
        items[i] is Break,
    ensures
        total_width(items.take(i)) + segment_width(items, i) <= total_width(items),
{
    lemma_next_break_bounds(items, i + 1);
    let nb = next_break(items, i + 1);
    let a = items.take(i);
    let b = seq![items[i]];
    let c = items.subrange(i + 1, nb);
    let d = items.subrange(nb, items.len() as int);
    assert(items =~= a + b + c + d);
    lemma_total_width_add(a + b + c, d);
    lemma_total_width_add(a + b, c);
    lemma_total_width_add(a, b);
    assert(b.drop_last() =~= Seq::<Piece>::empty());
    assert(b.len() == 1 && b.last() == items[i]);
    assert(total_width(b.drop_last()) == 0);
    assert(total_width(b) == piece_width(items[i]));
}

/// How far right the printer can be: at its column, or at the indentation
/// limit, where a new line may take it.
spec fn reach(st: Layout, options: FormattingOptions) -> int {
    larger(st.caret, options.spec_max_indent() as int)
}

proof fn lemma_piece_reach(
    st: Layout,
    p: Piece,
    seg: nat,
    frame: BoxFrame,
    options: FormattingOptions,
)
    requires
        st.caret >= 0,
        frame.curr_indent >= 0,
    ensures
        ({
            let r = lay_piece(st, p, seg, frame, options);
            &&& 0 <= r.caret <= reach(st, options) + piece_width(p)
            &&& st.in_range && reach(st, options) + piece_width(p) <= usize::MAX ==> r.in_range
        }),
    decreases p, 0int,
{
    match p {
        Piece::Block { kind, indent, body } => {
            let entered = enter_box(st, frame, options);
            lemma_prefix_reach(
                body,
                body.len() as int,
                frame_of(kind, indent, body, entered, options),
                entered,
                options,
            );
            assert(body.take(body.len() as int) =~= body);
        },
        _ => {},
    }
}

proof fn lemma_prefix_reach(
    items: Seq<Piece>,
    n: int,
    frame: BoxFrame,
    st: Layout,
    options: FormattingOptions,
)
    requires
        0 <= n <= items.len(),
        st.caret >= 0,
        frame.curr_indent >= 0,
    ensures
        ({
            let r = lay_prefix(items, n, frame, st, options);
            &&& 0 <= r.caret <= reach(st, options) + total_width(items.take(n))
            &&& st.in_range && reach(st, options) + total_width(items.take(n)) <= usize::MAX
                ==> r.in_range
        }),
    decreases items, n,
{
    if n > 0 {
        let s = lay_prefix(items, n - 1, frame, st, options);
        lemma_prefix_reach(items, n - 1, frame, st, options);
        lemma_take_step(items, n);
        lemma_piece_reach(s, items[n - 1], segment_width(items, n - 1), frame, options);
    } else {
        assert(items.take(0) =~= Seq::<Piece>::empty());
    }
}

/// Layout never fails on a document whose width, added to the indentation
/// limit, fits in a `usize`: no column of its layout goes out of range.
pub proof fn law_layout_in_range(doc: Seq<Piece>, options: FormattingOptions)
    requires
        options.spec_max_indent() + total_width(doc) <= usize::MAX,
    ensures
        layout(doc, options).in_range,
{
    let st = start_layout();
    let frame = frame_of(FormatBoxKind::HovP, 0, doc, st, options);
    lemma_prefix_reach(doc, doc.len() as int, frame, st, options);
    assert(doc.take(doc.len() as int) =~= doc);
}

proof fn lemma_flat_piece(
    st: Layout,
    p: Piece,
    seg: nat,
    frame: BoxFrame,
    options: FormattingOptions,
)
    requires
        !(p is Break),
        piece_without_vbox(p),
        st.caret >= 0,
        st.caret + piece_width(p) <= options.spec_width(),
        st.caret + piece_width(p) <= options.spec_max_indent(),
    ensures
        ({
            let r = lay_piece(st, p, seg, frame, options);
            &&& r.caret == st.caret + piece_width(p)
            &&& r.out == st.out + piece_flat_text(p)
            &&& r.prev_indent == st.prev_indent
            &&& r.in_range == st.in_range
        }),
    decreases p, 0int,
{
    options.lemma_limits();
    match p {
        Piece::Block { kind, indent, body } => {
            assert(enter_box(st, frame, options) == st);
            lemma_flat_prefix(
                body,
                body.len() as int,
                frame_of(kind, indent, body, st, options),
                st,
                options,
            );
            assert(body.take(body.len() as int) =~= body);
        },
        _ => {},
    }
}

proof fn lemma_flat_prefix(
    items: Seq<Piece>,
    n: int,
    frame: BoxFrame,
    st: Layout,
    options: FormattingOptions,
)
    requires
        0 <= n <= items.len(),
        without_vbox(items),
        frame.kind != FormatBoxKind::V,
        frame.kind == FormatBoxKind::Hv || frame.kind == FormatBoxKind::HovS ==> frame.fits,
        st.caret >= 0,
        st.caret + total_width(items) <= options.spec_width(),
        st.caret + total_width(items) <= options.spec_max_indent(),
    ensures
        ({
            let r = lay_prefix(items, n, frame, st, options);
            &&& r.caret == st.caret + total_width(items.take(n))
            &&& r.out == st.out + flat_text(items.take(n))
            &&& r.prev_indent == st.prev_indent
            &&& r.in_range == st.in_range
        }),
    decreases items, n,
{
    options.lemma_limits();
    if n > 0 {
        let s = lay_prefix(items, n - 1, frame, st, options);
        let p = items[n - 1];
        lemma_flat_prefix(items, n - 1, frame, st, options);
        lemma_take_step(items, n);
        lemma_take_within(items, n);
        lemma_without_vbox_index(items, n - 1);
        assert(s.out + piece_flat_text(p) =~= st.out + flat_text(items.take(n)));
        if p is Break {
            lemma_segment_within(items, n - 1);
            let seg = segment_width(items, n - 1);
            if let Piece::Break { spaces: sp, .. } = p {
                assert(lay_piece(s, p, seg, frame, options) == put_spaces(s, sp));
            }
        } else {
            lemma_flat_piece(s, p, segment_width(items, n - 1), frame, options);
        }
    } else {
        assert(items.take(0) =~= Seq::<Piece>::empty());
        assert(st.out + flat_text(items.take(0)) =~= st.out);
    }
}

/// A document that fits on one line, and holds no vertical box, is printed
/// on one line: every break prints its spaces.
///
/// This needs the document's width to stay within the indentation limit as
/// well: a box that starts past the limit starts on a new line.
pub proof fn law_fitting_document_prints_flat(doc: Seq<Piece>, options: FormattingOptions)
    requires
        without_vbox(doc),
        total_width(doc) <= options.spec_width(),
        total_width(doc) <= options.spec_max_indent(),
    ensures
        layout(doc, options).out == flat_text(doc),
        layout(doc, options).in_range,
{
    let st = start_layout();
    let frame = frame_of(FormatBoxKind::HovP, 0, doc, st, options);
    lemma_flat_prefix(doc, doc.len() as int, frame, st, options);
    assert(doc.take(doc.len() as int) =~= doc);
    assert(st.out + flat_text(doc) =~= flat_text(doc));
}

} // verus!
