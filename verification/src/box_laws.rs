//! How each kind of box treats its breaks, stated over the printed text.
use vstd::prelude::*;

verus! {

use crate::layout::{
    BoxFrame, Layout, break_layout, enter_box, frame_of, lay_box, lay_piece, lay_prefix, layout, put_text, start_layout,
};
use crate::model::{
    FormatBoxKind, Piece, lemma_next_break_bounds, lemma_next_break_push,
    lemma_total_width_push, next_break, segment_width, spaces, total_width,
};
use crate::options::FormattingOptions;
use vstd::math::min;

/// The text a break prints when it stays on the line, or when it starts a
/// new line indented to `indent`.
pub open spec fn break_text(stays: bool, spaces_n: nat, indent: int) -> Seq<char> {
    if stays {
        spaces(spaces_n)
    } else {
        seq!['\n'] + spaces(indent as nat)
    }
}

proof fn lemma_three_widths(a: Seq<char>, wa: nat, n: nat, bi: nat, b: Seq<char>, wb: nat)
    ensures
        ({
            let body = seq![
                Piece::Text { text: a, width: wa },
                Piece::Break { spaces: n, indent: bi },
                Piece::Text { text: b, width: wb },
            ];
            &&& total_width(body) == wa + n + wb
            &&& segment_width(body, 1) == n + wb
        }),
{
    let p0 = Piece::Text { text: a, width: wa };
    let p1 = Piece::Break { spaces: n, indent: bi };
    let p2 = Piece::Text { text: b, width: wb };
    let body = seq![p0, p1, p2];
    let e = Seq::<Piece>::empty();
    assert(e.push(p0) =~= seq![p0]);
    assert(seq![p0].push(p1) =~= seq![p0, p1]);
    assert(seq![p0, p1].push(p2) =~= body);
    lemma_total_width_push(e, p0);
    lemma_total_width_push(seq![p0], p1);
    lemma_total_width_push(seq![p0, p1], p2);
    assert(next_break(body, 3) == 3);
    assert(next_break(body, 2) == 3);
    assert(body.subrange(2, 3) =~= e.push(p2));
    lemma_total_width_push(e, p2);
}

/// A box of an atom, a break and an atom, entered in state `st`.
proof fn lemma_three_box(
    kind: FormatBoxKind,
    k: nat,
    a: Seq<char>,
    wa: nat,
    n: nat,
    bi: nat,
    b: Seq<char>,
    wb: nat,
    st: Layout,
    options: FormattingOptions,
)
    ensures
        ({
            let body = seq![
                Piece::Text { text: a, width: wa },
                Piece::Break { spaces: n, indent: bi },
                Piece::Text { text: b, width: wb },
            ];
            let frame = frame_of(kind, k, body, st, options);
            let after_a = put_text(st, a, wa);
            let after_break = lay_piece(after_a, body[1], n + wb, frame, options);
            lay_box(kind, k, body, st, options) == put_text(after_break, b, wb)
        }),
{
    let body = seq![
        Piece::Text { text: a, width: wa },
        Piece::Break { spaces: n, indent: bi },
        Piece::Text { text: b, width: wb },
    ];
    lemma_three_widths(a, wa, n, bi, b, wb);
    let frame = frame_of(kind, k, body, st, options);
    assert(body.len() == 3);
    assert(body[0] == Piece::Text { text: a, width: wa });
    assert(body[1] == Piece::Break { spaces: n, indent: bi });
    assert(body[2] == Piece::Text { text: b, width: wb });
    assert(lay_prefix(body, 0, frame, st, options) == st);
    assert(lay_prefix(body, 1, frame, st, options) == lay_piece(
        lay_prefix(body, 0, frame, st, options),
        body[0],
        segment_width(body, 0),
        frame,
        options,
    ));
    assert(lay_piece(st, body[0], segment_width(body, 0), frame, options) == put_text(st, a, wa));
    assert(lay_prefix(body, 1, frame, st, options) == put_text(st, a, wa));
    let after_break = lay_piece(put_text(st, a, wa), body[1], n + wb, frame, options);
    assert(lay_prefix(body, 2, frame, st, options) == after_break);
    assert(lay_prefix(body, 3, frame, st, options) == lay_piece(
        after_break,
        body[2],
        segment_width(body, 2),
        frame,
        options,
    ));
    assert(lay_box(kind, k, body, st, options) == lay_prefix(body, 3, frame, st, options));
}

/// The layout of a document that is one box of an atom, a break and an atom.
proof fn lemma_single_box(
    kind: FormatBoxKind,
    k: nat,
    a: Seq<char>,
    wa: nat,
    n: nat,
    bi: nat,
    b: Seq<char>,
    wb: nat,
    options: FormattingOptions,
)
    ensures
        ({
            let body = seq![
                Piece::Text { text: a, width: wa },
                Piece::Break { spaces: n, indent: bi },
                Piece::Text { text: b, width: wb },
            ];
            let doc = seq![Piece::Block { kind, indent: k, body }];
            layout(doc, options) == lay_box(kind, k, body, start_layout(), options)
        }),
{
    let body = seq![
        Piece::Text { text: a, width: wa },
        Piece::Break { spaces: n, indent: bi },
        Piece::Text { text: b, width: wb },
    ];
    let doc = seq![Piece::Block { kind, indent: k, body }];
    let st = start_layout();
    let frame = frame_of(FormatBoxKind::HovP, 0, doc, st, options);
    assert(doc.len() == 1);
    assert(doc[0] == Piece::Block { kind, indent: k, body });
    assert(lay_prefix(doc, 0, frame, st, options) == st);
    assert(body.len() == 3);
    assert(layout(doc, options) == lay_piece(st, doc[0], segment_width(doc, 0), frame, options));
}

/// In a vertical box every break starts a new line, indented to the box's
/// column plus its indentation plus the break's own offset (at most the
/// indentation limit), whatever the width.
pub proof fn law_vbox_breaks_every_line(
    a: Seq<char>,
    wa: nat,
    n: nat,
    bi: nat,
    b: Seq<char>,
    wb: nat,
    k: nat,
    options: FormattingOptions,
)
    ensures
        layout(
            seq![
                Piece::Block {
                    kind: FormatBoxKind::V,
                    indent: k,
                    body: seq![
                        Piece::Text { text: a, width: wa },
                        Piece::Break { spaces: n, indent: bi },
                        Piece::Text { text: b, width: wb },
                    ],
                },
            ],
            options,
        ).out == a + seq!['\n'] + spaces(min(k + bi as int, options.spec_max_indent() as int) as nat) + b,
{
    lemma_single_box(FormatBoxKind::V, k, a, wa, n, bi, b, wb, options);
    lemma_three_box(FormatBoxKind::V, k, a, wa, n, bi, b, wb, start_layout(), options);
    assert(seq![] + a =~= a);
}

/// In a packing box a break stays on the line exactly when the segment it
/// opens fits in the line width; otherwise it starts a new line at the box's
/// indentation plus its offset (at most the indentation limit). The
/// indentation limit plays no part in the choice.
pub proof fn law_hovbox_breaks_only_past_width(
    a: Seq<char>,
    wa: nat,
    n: nat,
    bi: nat,
    b: Seq<char>,
    wb: nat,
    k: nat,
    options: FormattingOptions,
)
    ensures
        layout(
            seq![
                Piece::Block {
                    kind: FormatBoxKind::HovP,
                    indent: k,
                    body: seq![
                        Piece::Text { text: a, width: wa },
                        Piece::Break { spaces: n, indent: bi },
                        Piece::Text { text: b, width: wb },
                    ],
                },
            ],
            options,
        ).out == a + break_text(
            wa + n + wb <= options.spec_width(),
            n,
            min(k + bi as int, options.spec_max_indent() as int),
        ) + b,
{
    lemma_single_box(FormatBoxKind::HovP, k, a, wa, n, bi, b, wb, options);
    lemma_three_box(FormatBoxKind::HovP, k, a, wa, n, bi, b, wb, start_layout(), options);
    assert(seq![] + a =~= a);
}


/// In a horizontal box no break starts a new line, whatever the width.
pub proof fn law_hbox_never_breaks(
    a: Seq<char>,
    wa: nat,
    n: nat,
    bi: nat,
    b: Seq<char>,
    wb: nat,
    options: FormattingOptions,
)
    ensures
        layout(
            seq![
                Piece::Block {
                    kind: FormatBoxKind::H,
                    indent: 0,
                    body: seq![
                        Piece::Text { text: a, width: wa },
                        Piece::Break { spaces: n, indent: bi },
                        Piece::Text { text: b, width: wb },
                    ],
                },
            ],
            options,
        ).out == a + spaces(n) + b,
{
    lemma_single_box(FormatBoxKind::H, 0, a, wa, n, bi, b, wb, options);
    lemma_three_box(FormatBoxKind::H, 0, a, wa, n, bi, b, wb, start_layout(), options);
    assert(seq![] + a =~= a);
}

/// A horizontal/vertical box decides from the column where it starts: after
/// an atom of width `wx`, its break stays on the line exactly when that
/// column plus the box's whole width fits in the line width; otherwise the
/// break starts a new line at the box's column plus its indentation plus the
/// break's offset (at most the indentation limit). A box that starts past
/// the indentation limit first moves to a new line at column 0.
pub proof fn law_hvbox_fits_from_its_column(
    x: Seq<char>,
    wx: nat,
    a: Seq<char>,
    wa: nat,
    n: nat,
    bi: nat,
    b: Seq<char>,
    wb: nat,
    k: nat,
    options: FormattingOptions,
)
    ensures
        ({
            let max_indent = options.spec_max_indent();
            let column: int = if wx > max_indent {
                0
            } else {
                wx as int
            };
            let head = if wx > max_indent {
                x + seq!['\n']
            } else {
                x
            };
            layout(
                seq![
                    Piece::Text { text: x, width: wx },
                    Piece::Block {
                        kind: FormatBoxKind::Hv,
                        indent: k,
                        body: seq![
                            Piece::Text { text: a, width: wa },
                            Piece::Break { spaces: n, indent: bi },
                            Piece::Text { text: b, width: wb },
                        ],
                    },
                ],
                options,
            ).out == head + a + break_text(
                column + wa + n + wb <= options.spec_width(),
                n,
                min(column + k + bi, max_indent as int),
            ) + b
        }),
{
    let body = seq![
        Piece::Text { text: a, width: wa },
        Piece::Break { spaces: n, indent: bi },
        Piece::Text { text: b, width: wb },
    ];
    let doc = seq![
        Piece::Text { text: x, width: wx },
        Piece::Block { kind: FormatBoxKind::Hv, indent: k, body },
    ];
    lemma_three_widths(a, wa, n, bi, b, wb);
    let st = start_layout();
    let frame = frame_of(FormatBoxKind::HovP, 0, doc, st, options);
    assert(doc.len() == 2);
    assert(doc[0] == Piece::Text { text: x, width: wx });
    assert(doc[1] == Piece::Block { kind: FormatBoxKind::Hv, indent: k, body });
    assert(lay_prefix(doc, 0, frame, st, options) == st);
    let s1 = put_text(st, x, wx);
    assert(lay_prefix(doc, 1, frame, st, options) == lay_piece(
        st,
        doc[0],
        segment_width(doc, 0),
        frame,
        options,
    ));
    assert(lay_prefix(doc, 1, frame, st, options) == s1);
    assert(layout(doc, options) == lay_piece(s1, doc[1], segment_width(doc, 1), frame, options));
    let entered = enter_box(s1, frame, options);
    lemma_three_box(FormatBoxKind::Hv, k, a, wa, n, bi, b, wb, entered, options);
    assert(seq![] + x =~= x);
    assert(spaces(0) =~= Seq::<char>::empty());
    assert(x + seq!['\n'] + spaces(0) =~= x + seq!['\n']);
}

proof fn lemma_five_widths(
    a: Seq<char>,
    wa: nat,
    n1: nat,
    b1: nat,
    b: Seq<char>,
    wb: nat,
    n2: nat,
    b2: nat,
    c: Seq<char>,
    wc: nat,
)
    ensures
        ({
            let body = seq![
                Piece::Text { text: a, width: wa },
                Piece::Break { spaces: n1, indent: b1 },
                Piece::Text { text: b, width: wb },
                Piece::Break { spaces: n2, indent: b2 },
                Piece::Text { text: c, width: wc },
            ];
            &&& total_width(body) == wa + n1 + wb + n2 + wc
            &&& segment_width(body, 1) == n1 + wb
            &&& segment_width(body, 3) == n2 + wc
        }),
{
    let p0 = Piece::Text { text: a, width: wa };
    let p1 = Piece::Break { spaces: n1, indent: b1 };
    let p2 = Piece::Text { text: b, width: wb };
    let p3 = Piece::Break { spaces: n2, indent: b2 };
    let p4 = Piece::Text { text: c, width: wc };
    let body = seq![p0, p1, p2, p3, p4];
    let e = Seq::<Piece>::empty();
    assert(e.push(p0) =~= seq![p0]);
    assert(seq![p0].push(p1) =~= seq![p0, p1]);
    assert(seq![p0, p1].push(p2) =~= seq![p0, p1, p2]);
    assert(seq![p0, p1, p2].push(p3) =~= seq![p0, p1, p2, p3]);
    assert(seq![p0, p1, p2, p3].push(p4) =~= body);
    lemma_total_width_push(e, p0);
    lemma_total_width_push(seq![p0], p1);
    lemma_total_width_push(seq![p0, p1], p2);
    lemma_total_width_push(seq![p0, p1, p2], p3);
    lemma_total_width_push(seq![p0, p1, p2, p3], p4);
    assert(body[3] == p3);
    assert(next_break(body, 5) == 5);
    assert(next_break(body, 4) == 5);
    assert(next_break(body, 3) == 3);
    assert(next_break(body, 2) == 3);
    assert(body.subrange(2, 3) =~= e.push(p2));
    assert(body.subrange(4, 5) =~= e.push(p4));
    lemma_total_width_push(e, p2);
    lemma_total_width_push(e, p4);
}

/// A structural box that does not fit on its line: after text on the line,
/// a break stays on the line when its segment fits and it would not move
/// left of the indentation of the line before; otherwise it starts a new
/// line at the box's indentation plus its offset (at most the indentation
/// limit). A break that would start its line at the same indentation as the
/// line before stays. A box that fits prints all breaks as spaces.
pub proof fn law_sbox_breaks(
    a: Seq<char>,
    wa: nat,
    n1: nat,
    b1: nat,
    b: Seq<char>,
    wb: nat,
    n2: nat,
    b2: nat,
    c: Seq<char>,
    wc: nat,
    k: nat,
    options: FormattingOptions,
)
    ensures
        ({
            let width = options.spec_width();
            let max_indent = options.spec_max_indent() as int;
            let fits = wa + n1 + wb + n2 + wc <= width;
            let i1 = min(k + b1 as int, max_indent);
            let i2 = min(k + b2 as int, max_indent);
            let stay1 = fits || wa + n1 + wb <= width;
            let column2: int = if stay1 {
                wa + n1 + wb as int
            } else {
                i1 + wb
            };
            let previous: int = if stay1 {
                0
            } else {
                i1
            };
            let stay2 = fits || (column2 + n2 + wc <= width && k + b2 >= previous);
            layout(
                seq![
                    Piece::Block {
                        kind: FormatBoxKind::HovS,
                        indent: k,
                        body: seq![
                            Piece::Text { text: a, width: wa },
                            Piece::Break { spaces: n1, indent: b1 },
                            Piece::Text { text: b, width: wb },
                            Piece::Break { spaces: n2, indent: b2 },
                            Piece::Text { text: c, width: wc },
                        ],
                    },
                ],
                options,
            ).out == a + break_text(stay1, n1, i1) + b + break_text(stay2, n2, i2) + c
        }),
{
    let body = seq![
        Piece::Text { text: a, width: wa },
        Piece::Break { spaces: n1, indent: b1 },
        Piece::Text { text: b, width: wb },
        Piece::Break { spaces: n2, indent: b2 },
        Piece::Text { text: c, width: wc },
    ];
    let doc = seq![Piece::Block { kind: FormatBoxKind::HovS, indent: k, body }];
    lemma_five_widths(a, wa, n1, b1, b, wb, n2, b2, c, wc);
    let st = start_layout();
    let root = frame_of(FormatBoxKind::HovP, 0, doc, st, options);
    assert(doc.len() == 1);
    assert(doc[0] == Piece::Block { kind: FormatBoxKind::HovS, indent: k, body });
    assert(lay_prefix(doc, 0, root, st, options) == st);
    assert(layout(doc, options) == lay_piece(st, doc[0], segment_width(doc, 0), root, options));
    let frame = frame_of(FormatBoxKind::HovS, k, body, st, options);
    assert(body.len() == 5);
    assert(body[0] == Piece::Text { text: a, width: wa });
    assert(body[1] == Piece::Break { spaces: n1, indent: b1 });
    assert(body[2] == Piece::Text { text: b, width: wb });
    assert(body[3] == Piece::Break { spaces: n2, indent: b2 });
    assert(body[4] == Piece::Text { text: c, width: wc });
    assert(lay_prefix(body, 0, frame, st, options) == st);
    let s1 = lay_piece(st, body[0], segment_width(body, 0), frame, options);
    assert(lay_prefix(body, 1, frame, st, options) == s1);
    let s2 = lay_piece(s1, body[1], segment_width(body, 1), frame, options);
    assert(lay_prefix(body, 2, frame, st, options) == s2);
    let s3 = lay_piece(s2, body[2], segment_width(body, 2), frame, options);
    assert(lay_prefix(body, 3, frame, st, options) == s3);
    let s4 = lay_piece(s3, body[3], segment_width(body, 3), frame, options);
    assert(lay_prefix(body, 4, frame, st, options) == s4);
    let s5 = lay_piece(s4, body[4], segment_width(body, 4), frame, options);
    assert(lay_prefix(body, 5, frame, st, options) == s5);
    assert(layout(doc, options) == s5);
    assert(s1 == put_text(st, a, wa));
    assert(seq![] + a =~= a);
}


/// Printing the first `m` items depends only on those items, on the segments
/// of their breaks, and on the parts of the frame that their kind reads.
proof fn lemma_prefix_agree(
    items1: Seq<Piece>,
    items2: Seq<Piece>,
    m: int,
    f1: BoxFrame,
    f2: BoxFrame,
    st: Layout,
    options: FormattingOptions,
)
    requires
        0 <= m <= items1.len(),
        m <= items2.len(),
        forall|j: int| 0 <= j < m ==> items1[j] == items2[j],
        forall|j: int|
            0 <= j < m && (#[trigger] items1[j]) is Break ==> segment_width(items1, j)
                == segment_width(items2, j),
        f1.kind == f2.kind,
        f1.curr_indent == f2.curr_indent,
        f1.kind == FormatBoxKind::Hv || f1.kind == FormatBoxKind::HovS ==> f1.fits == f2.fits,
    ensures
        lay_prefix(items1, m, f1, st, options) == lay_prefix(items2, m, f2, st, options),
    decreases m,
{
    if m > 0 {
        lemma_prefix_agree(items1, items2, m - 1, f1, f2, st, options);
        let s = lay_prefix(items1, m - 1, f1, st, options);
        let p = items1[m - 1];
        assert(items2[m - 1] == p);
        let seg1 = segment_width(items1, m - 1);
        let seg2 = segment_width(items2, m - 1);
        match p {
            Piece::Break { spaces: n, indent: bi } => {
                assert(seg1 == seg2);
                assert(break_layout(s, f1, n, bi, seg1, options) == break_layout(
                    s,
                    f2,
                    n,
                    bi,
                    seg2,
                    options,
                ));
            },
            Piece::Block { .. } => {
                assert(enter_box(s, f1, options) == enter_box(s, f2, options));
            },
            _ => {},
        }
        assert(lay_piece(s, p, seg1, f1, options) == lay_piece(s, p, seg2, f2, options));
    }
}

/// At the top level a document is a packing box at column 0: a break
/// appended with an atom after any document stays on the line exactly when
/// the column where that document ends, plus the break's spaces and the
/// atom's width, fits in the line width; otherwise it starts a new line
/// indented by its offset (at most the indentation limit). The indentation
/// of earlier lines plays no part.
pub proof fn law_top_level_is_packing_box(
    d: Seq<Piece>,
    n: nat,
    bi: nat,
    t: Seq<char>,
    w: nat,
    options: FormattingOptions,
)
    ensures
        ({
            let before = layout(d, options);
            layout(
                d + seq![Piece::Break { spaces: n, indent: bi }, Piece::Text { text: t, width: w }],
                options,
            ).out == before.out + break_text(
                before.caret + n + w <= options.spec_width(),
                n,
                min(bi as int, options.spec_max_indent() as int),
            ) + t
        }),
{
    let br = Piece::Break { spaces: n, indent: bi };
    let tx = Piece::Text { text: t, width: w };
    let doc = d + seq![br, tx];
    let st = start_layout();
    let fd = frame_of(FormatBoxKind::HovP, 0, d, st, options);
    let fdoc = frame_of(FormatBoxKind::HovP, 0, doc, st, options);
    let len = d.len() as int;
    assert(doc.len() == len + 2);
    assert(doc[len] == br);
    assert(doc[len + 1] == tx);
    assert(doc =~= d.push(br).push(tx));
    assert forall|j: int| 0 <= j < len implies doc[j] == d[j] by {}
    assert forall|j: int|
        0 <= j < len && (#[trigger] d[j]) is Break implies segment_width(d, j) == segment_width(
        doc,
        j,
    ) by {
        lemma_next_break_bounds(d, j + 1);
        lemma_next_break_push(d, br, j + 1);
        lemma_next_break_push(d.push(br), tx, j + 1);
        let nb = next_break(d, j + 1);
        assert(next_break(doc, j + 1) == nb);
        assert(doc.subrange(j + 1, nb) =~= d.subrange(j + 1, nb));
        assert(doc[j] == d[j]);
    }
    lemma_prefix_agree(d, doc, len, fd, fdoc, st, options);
    let before = lay_prefix(doc, len, fdoc, st, options);
    assert(before == layout(d, options));
    // the segment of the appended break is its spaces and the atom
    assert(next_break(doc, len + 2) == len + 2);
    assert(next_break(doc, len + 1) == len + 2);
    assert(doc.subrange(len + 1, len + 2) =~= Seq::<Piece>::empty().push(tx));
    lemma_total_width_push(Seq::<Piece>::empty(), tx);
    assert(segment_width(doc, len) == n + w);
    let after_break = lay_piece(before, br, n + w, fdoc, options);
    assert(lay_prefix(doc, len + 1, fdoc, st, options) == after_break);
    assert(lay_prefix(doc, len + 2, fdoc, st, options) == lay_piece(
        after_break,
        tx,
        segment_width(doc, len + 1),
        fdoc,
        options,
    ));
    assert(layout(doc, options) == lay_prefix(doc, len + 2, fdoc, st, options));
}


/// What a break does inside any box, by the box's kind. It either prints its
/// spaces on the line (the column moves by them, nothing else changes), or
/// starts a new line indented to the box's column plus the break's offset,
/// at most the indentation limit. A horizontal box keeps every break on the
/// line and a vertical box breaks at every one; a horizontal/vertical box
/// keeps them all exactly when it fits; a packing box keeps a break exactly
/// when the segment it opens fits in the width; a structural box that does
/// not fit keeps a break when nothing but indentation is on the line yet, or
/// when its segment fits and it would not start left of the line before.
pub proof fn law_break_in_box(
    items: Seq<Piece>,
    i: int,
    frame: BoxFrame,
    st: Layout,
    options: FormattingOptions,
)
    requires
        0 <= i < items.len(),
        items[i] is Break,
    ensures
        ({
            let before = lay_prefix(items, i, frame, st, options);
            let after = lay_prefix(items, i + 1, frame, st, options);
            let n = items[i]->Break_spaces;
            let bi = items[i]->Break_indent;
            let seg = n + total_width(items.subrange(i + 1, next_break(items, i + 1)));
            let width = options.spec_width();
            let indent = min(frame.curr_indent + bi, options.spec_max_indent() as int);
            let stays = after.out == before.out + spaces(n) && after.caret == before.caret + n
                && after.prev_indent == before.prev_indent && after.just_newline
                == before.just_newline;
            let wraps = after.out == before.out + seq!['\n'] + spaces(indent as nat)
                && after.caret == indent && after.prev_indent == indent && after.just_newline;
            &&& frame.kind == FormatBoxKind::H ==> stays
            &&& frame.kind == FormatBoxKind::V ==> wraps
            &&& frame.kind == FormatBoxKind::Hv ==> if frame.fits {
                stays
            } else {
                wraps
            }
            &&& frame.kind == FormatBoxKind::HovP ==> if before.caret + seg <= width {
                stays
            } else {
                wraps
            }
            &&& frame.kind == FormatBoxKind::HovS ==> if frame.fits || before.just_newline || (
            before.caret + seg <= width && frame.curr_indent + bi >= before.prev_indent) {
                stays
            } else {
                wraps
            }
        }),
{
    let before = lay_prefix(items, i, frame, st, options);
    assert(lay_prefix(items, i + 1, frame, st, options) == lay_piece(
        before,
        items[i],
        segment_width(items, i),
        frame,
        options,
    ));
}

/// How any box is entered. When the column is past both the indentation
/// limit and the enclosing box's column, the box first starts a new line at
/// the enclosing box's column (at most the limit). The box's own column is
/// then the column it starts at plus its indentation, and it fits when the
/// column it starts at plus its width on one line is within the line width.
pub proof fn law_box_entry(
    items: Seq<Piece>,
    i: int,
    frame: BoxFrame,
    st: Layout,
    options: FormattingOptions,
)
    requires
        0 <= i < items.len(),
        items[i] is Block,
    ensures
        ({
            let before = lay_prefix(items, i, frame, st, options);
            let kind = items[i]->kind;
            let k = items[i]->Block_indent;
            let body = items[i]->body;
            let max_indent = options.spec_max_indent() as int;
            let home = min(frame.curr_indent, max_indent);
            let start = if before.caret > max_indent && before.caret > frame.curr_indent {
                Layout {
                    caret: home,
                    just_newline: true,
                    prev_indent: home,
                    in_range: before.in_range,
                    out: before.out + seq!['\n'] + spaces(home as nat),
                }
            } else {
                before
            };
            lay_prefix(items, i + 1, frame, st, options) == lay_prefix(
                body,
                body.len() as int,
                BoxFrame {
                    kind,
                    curr_indent: start.caret + k,
                    fits: start.caret + total_width(body) <= options.spec_width(),
                },
                start,
                options,
            )
        }),
{
    let before = lay_prefix(items, i, frame, st, options);
    assert(lay_prefix(items, i + 1, frame, st, options) == lay_piece(
        before,
        items[i],
        segment_width(items, i),
        frame,
        options,
    ));
}

/// The whole document is laid out as a packing box at column 0 with no
/// indentation, from an empty output with nothing on the first line.
pub proof fn law_document_is_packing_box(doc: Seq<Piece>, options: FormattingOptions)
    ensures
        layout(doc, options) == lay_prefix(
            doc,
            doc.len() as int,
            BoxFrame {
                kind: FormatBoxKind::HovP,
                curr_indent: 0,
                fits: total_width(doc) <= options.spec_width(),
            },
            Layout { caret: 0, just_newline: true, prev_indent: 0, in_range: true, out: seq![] },
            options,
        ),
{
}

} // verus!
