//! The mathematical model of a document: a sequence of pieces, and the widths
//! that the layout engine reads from it.
use vstd::prelude::*;

verus! {

/// How the breaks of a box behave when the box is laid out.
#[derive(Clone, Copy, Debug, PartialEq, Eq, Structural)]
pub enum FormatBoxKind {
    /// Horizontal box: every break prints its spaces.
    H,
    /// Vertical box: every break starts a new line.
    V,
    /// Horizontal/vertical box: all breaks print spaces if the whole box fits
    /// on the current line, otherwise every break starts a new line.
    Hv,
    /// Packing box: each break starts a new line only when the following
    /// segment does not fit.
    HovP,
    /// Structural box: like the packing box, but it also breaks a line when
    /// this moves the text to the left of the previous line start.
    HovS,
}

/// One element of a document, as a mathematical value.
pub enum Piece {
    /// A nested box with its own items.
    Block { kind: FormatBoxKind, indent: nat, body: Seq<Piece> },
    /// Indivisible text with its display width.
    Text { text: Seq<char>, width: nat },
    /// A break hint: `spaces` when it stays on the line, `indent` (relative to
    /// the enclosing box) when it starts a new line.
    Break { spaces: nat, indent: nat },
}

/// The width that a piece occupies when printed on a single line.
pub open spec fn piece_width(p: Piece) -> nat
    decreases p,
{
    match p {
        Piece::Block { body, .. } => total_width(body),
        Piece::Text { width, .. } => width,
        Piece::Break { spaces, .. } => spaces,
    }
}

/// The width of a sequence of pieces printed on a single line.
pub open spec fn total_width(items: Seq<Piece>) -> nat
    decreases items,
{
    if items.len() == 0 {
        0
    } else {
        total_width(items.drop_last()) + piece_width(items.last())
    }
}

/// The segment bookkeeping of a sequence of pieces, at its top level.
///
/// `head` is the width of what precedes the first break, `last` the index of
/// the last break, and `segs[i]`, for a break at index `i`, its spaces plus
/// the width of the pieces that follow it up to the next break.
pub struct Segments {
    pub head: nat,
    pub last: Option<nat>,
    pub segs: Seq<nat>,
}

/// The segment bookkeeping of `items`, as the builder accumulates it piece by
/// piece.
pub open spec fn segments(items: Seq<Piece>) -> Segments
    decreases items.len(),
{
    if items.len() == 0 {
        Segments { head: 0, last: None, segs: seq![] }
    } else {
        let r = segments(items.drop_last());
        let x = items.last();
        match x {
            Piece::Break { spaces, .. } => Segments {
                head: r.head,
                last: Some((items.len() - 1) as nat),
                segs: r.segs.push(spaces),
            },
            _ => match r.last {
                None => Segments { head: r.head + piece_width(x), last: None, segs: r.segs.push(0) },
                Some(k) => Segments {
                    head: r.head,
                    last: Some(k),
                    segs: r.segs.update(k as int, r.segs[k as int] + piece_width(x)).push(0),
                },
            },
        }
    }
}

/// The index of the first break at or after `from`, or the length of `items`.
pub open spec fn next_break(items: Seq<Piece>, from: int) -> int
    decreases items.len() - from,
{
    if from >= items.len() {
        items.len() as int
    } else if items[from] is Break {
        from
    } else {
        next_break(items, from + 1)
    }
}

/// The spaces of a break.
pub open spec fn break_spaces(p: Piece) -> nat {
    match p {
        Piece::Break { spaces, .. } => spaces,
        _ => 0,
    }
}

/// The width of the segment that the break at index `i` opens: its spaces
/// and the pieces that follow it up to the next break.
pub open spec fn segment_width(items: Seq<Piece>, i: int) -> nat {
    break_spaces(items[i]) + total_width(items.subrange(i + 1, next_break(items, i + 1)))
}

/// The width of what precedes the first break.
pub open spec fn head_width(items: Seq<Piece>) -> nat {
    total_width(items.subrange(0, next_break(items, 0)))
}

pub proof fn lemma_total_width_push(items: Seq<Piece>, x: Piece)
    ensures
        total_width(items.push(x)) == total_width(items) + piece_width(x),
{
    assert(items.push(x).drop_last() =~= items);
}

pub proof fn lemma_total_width_add(a: Seq<Piece>, b: Seq<Piece>)
    ensures
        total_width(a + b) == total_width(a) + total_width(b),
    decreases b.len(),
{
    if b.len() == 0 {
        assert(a + b =~= a);
    } else {
        assert((a + b).drop_last() =~= a + b.drop_last());
        assert((a + b).last() == b.last());
        lemma_total_width_add(a, b.drop_last());
    }
}

pub proof fn lemma_segments_push(items: Seq<Piece>, x: Piece)
    ensures
        segments(items.push(x)) == ({
            let r = segments(items);
            match x {
                Piece::Break { spaces, .. } => Segments {
                    head: r.head,
                    last: Some(items.len()),
                    segs: r.segs.push(spaces),
                },
                _ => match r.last {
                    None => Segments {
                        head: r.head + piece_width(x),
                        last: None,
                        segs: r.segs.push(0),
                    },
                    Some(k) => Segments {
                        head: r.head,
                        last: Some(k),
                        segs: r.segs.update(k as int, r.segs[k as int] + piece_width(x)).push(0),
                    },
                },
            }
        }),
{
    assert(items.push(x).drop_last() =~= items);
}

/// The basic facts of the segment bookkeeping: one entry per piece, the last
/// break is a break with none after it, and no segment is wider than the
/// whole sequence.
pub proof fn lemma_segments_shape(items: Seq<Piece>)
    ensures
        segments(items).segs.len() == items.len(),
        segments(items).head <= total_width(items),
        forall|k: int|
            0 <= k < items.len() ==> #[trigger] segments(items).segs[k] <= total_width(items),
        match segments(items).last {
            None => forall|j: int| 0 <= j < items.len() ==> !(#[trigger] items[j] is Break),
            Some(k) => k < items.len() && items[k as int] is Break && forall|j: int|
                k < j < items.len() ==> !(#[trigger] items[j] is Break),
        },
    decreases items.len(),
{
    if items.len() > 0 {
        let s = items.drop_last();
        let x = items.last();
        lemma_segments_shape(s);
        assert(items =~= s.push(x));
        lemma_segments_push(s, x);
        lemma_total_width_push(s, x);
        assert forall|j: int| 0 <= j < s.len() implies items[j] == s[j] by {}
    }
}

/// The segment bookkeeping of a concatenation, from that of its parts: the
/// head of `b` joins the segment that is open at the end of `a`.
pub proof fn lemma_segments_add(a: Seq<Piece>, b: Seq<Piece>)
    ensures
        segments(a + b) == ({
            let sa = segments(a);
            let sb = segments(b);
            Segments {
                head: if sa.last is None {
                    sa.head + sb.head
                } else {
                    sa.head
                },
                last: match sb.last {
                    Some(j) => Some(a.len() + j),
                    None => sa.last,
                },
                segs: match sa.last {
                    None => sa.segs,
                    Some(k) => sa.segs.update(k as int, sa.segs[k as int] + sb.head),
                } + sb.segs,
            }
        }),
    decreases b.len(),
{
    lemma_segments_shape(a);
    if b.len() == 0 {
        assert(a + b =~= a);
        let sa = segments(a);
        match sa.last {
            None => {
                assert(sa.segs + seq![] =~= sa.segs);
            },
            Some(k) => {
                assert(sa.segs.update(k as int, sa.segs[k as int] + 0) + Seq::<nat>::empty()
                    =~= sa.segs);
            },
        }
    } else {
        let bp = b.drop_last();
        let x = b.last();
        assert(b =~= bp.push(x));
        assert(a + b =~= (a + bp).push(x));
        lemma_segments_add(a, bp);
        lemma_segments_push(a + bp, x);
        lemma_segments_push(bp, x);
        lemma_segments_shape(bp);
        lemma_segments_shape(a + bp);
        let sa = segments(a);
        let sbp = segments(bp);
        let sb = segments(b);
        let c = segments(a + bp);
        let upd_a = match sa.last {
            None => sa.segs,
            Some(k) => sa.segs.update(k as int, sa.segs[k as int] + sb.head),
        };
        match x {
            Piece::Break { spaces, .. } => {
                assert(segments(a + b).segs =~= upd_a + sb.segs);
            },
            _ => {
                match c.last {
                    None => {
                        assert(segments(a + b).segs =~= upd_a + sb.segs);
                    },
                    Some(m) => {
                        match sbp.last {
                            Some(j) => {
                                assert(segments(a + b).segs =~= upd_a + sb.segs);
                            },
                            None => {
                                assert(segments(a + b).segs =~= upd_a + sb.segs);
                            },
                        }
                    },
                }
            },
        }
    }
}


pub proof fn lemma_next_break_bounds(items: Seq<Piece>, from: int)
    requires
        0 <= from <= items.len(),
    ensures
        from <= next_break(items, from) <= items.len(),
        next_break(items, from) < items.len() ==> items[next_break(items, from)] is Break,
        forall|j: int| from <= j < next_break(items, from) ==> !(#[trigger] items[j] is Break),
    decreases items.len() - from,
{
    if from < items.len() && !(items[from] is Break) {
        lemma_next_break_bounds(items, from + 1);
    }
}

pub proof fn lemma_next_break_push(items: Seq<Piece>, x: Piece, from: int)
    requires
        0 <= from <= items.len(),
    ensures
        next_break(items.push(x), from) == if next_break(items, from) < items.len() {
            next_break(items, from)
        } else if x is Break {
            items.len() as int
        } else {
            items.len() + 1 as int
        },
    decreases items.len() - from,
{
    let s = items.push(x);
    if from < items.len() {
        assert(s[from] == items[from]);
        if !(items[from] is Break) {
            lemma_next_break_push(items, x, from + 1);
        }
    } else {
        assert(s[from] == x);
        if !(x is Break) {
            assert(next_break(s, from + 1) == s.len());
        }
    }
}

/// The bookkeeping that the builder accumulates piece by piece is the
/// segment structure of the items: the head is the width before the first
/// break, each break's segment is its spaces plus the width up to the next
/// break, and the last break is the last one.
pub proof fn lemma_segments_direct(items: Seq<Piece>)
    ensures
        segments(items).head == head_width(items),
        forall|i: int|
            0 <= i < items.len() && (#[trigger] items[i]) is Break ==> segments(items).segs[i]
                == segment_width(items, i),
        match segments(items).last {
            Some(k) => k < items.len() && items[k as int] is Break && next_break(items, k + 1 as int)
                == items.len(),
            None => next_break(items, 0) == items.len(),
        },
    decreases items.len(),
{
    if items.len() == 0 {
        assert(items.subrange(0, 0) =~= Seq::<Piece>::empty());
    } else {
        let s = items.drop_last();
        let x = items.last();
        assert(items =~= s.push(x));
        lemma_segments_direct(s);
        lemma_segments_push(s, x);
        lemma_segments_shape(s);
        lemma_next_break_bounds(s, 0);
        lemma_next_break_push(s, x, 0);
        let r = segments(s);
        // head
        let nb0 = next_break(s, 0);
        if nb0 < s.len() {
            assert(items.subrange(0, nb0) =~= s.subrange(0, nb0));
        } else {
            if x is Break {
                assert(items.subrange(0, s.len() as int) =~= s.subrange(0, nb0));
            } else {
                assert(items.subrange(0, items.len() as int) =~= s.subrange(0, nb0).push(x));
                lemma_total_width_push(s.subrange(0, nb0), x);
            }
        }
        // last
        match segments(items).last {
            Some(k) => {
                if x is Break {
                    assert(next_break(items, k + 1 as int) == items.len());
                } else {
                    lemma_next_break_push(s, x, k + 1 as int);
                }
            },
            None => {},
        }
        // segments
        assert forall|i: int|
            0 <= i < items.len() && (#[trigger] items[i]) is Break implies segments(items).segs[i]
            == segment_width(items, i) by {
            if i == s.len() {
                assert(next_break(items, i + 1) == items.len());
                assert(items.subrange(i + 1, i + 1) =~= Seq::<Piece>::empty());
            } else {
                assert(items[i] == s[i]);
                lemma_next_break_bounds(s, i + 1);
                lemma_next_break_push(s, x, i + 1);
                let nb = next_break(s, i + 1);
                if nb < s.len() {
                    assert(items.subrange(i + 1, nb) =~= s.subrange(i + 1, nb));
                } else if x is Break {
                    assert(items.subrange(i + 1, nb) =~= s.subrange(i + 1, nb));
                } else {
                    assert(items.subrange(i + 1, nb + 1) =~= s.subrange(i + 1, nb).push(x));
                    lemma_total_width_push(s.subrange(i + 1, nb), x);
                    match r.last {
                        Some(k) => {
                            if k != i {
                                // a break after `i` would contradict `nb == s.len()`
                                assert(k > i ==> next_break(s, i + 1) <= k);
                                assert(false);
                            }
                        },
                        None => {},
                    }
                }
            }
        }
    }
}


/// `n` spaces.
pub open spec fn spaces(n: nat) -> Seq<char> {
    Seq::new(n, |_i: int| ' ')
}

/// A piece printed on a single line: breaks as their spaces.
pub open spec fn piece_flat_text(p: Piece) -> Seq<char>
    decreases p,
{
    match p {
        Piece::Block { body, .. } => flat_text(body),
        Piece::Text { text, .. } => text,
        Piece::Break { spaces: n, .. } => spaces(n),
    }
}

/// Pieces printed on a single line: breaks as their spaces.
pub open spec fn flat_text(items: Seq<Piece>) -> Seq<char>
    decreases items,
{
    if items.len() == 0 {
        seq![]
    } else {
        flat_text(items.drop_last()) + piece_flat_text(items.last())
    }
}

/// The piece holds no vertical box, at any depth.
pub open spec fn piece_without_vbox(p: Piece) -> bool
    decreases p,
{
    match p {
        Piece::Block { kind, body, .. } => kind != FormatBoxKind::V && without_vbox(body),
        _ => true,
    }
}

/// The pieces hold no vertical box, at any depth.
pub open spec fn without_vbox(items: Seq<Piece>) -> bool
    decreases items,
{
    if items.len() == 0 {
        true
    } else {
        without_vbox(items.drop_last()) && piece_without_vbox(items.last())
    }
}

} // verus!
