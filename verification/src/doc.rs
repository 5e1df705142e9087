//! Documents and the builder methods that append to them.
use vstd::prelude::*;

verus! {

use crate::fmt_width::{FmtFnWrapper, display_width, width_of};
use crate::model::{
    FormatBoxKind, Piece, lemma_segments_add, lemma_segments_push, lemma_segments_shape,
    lemma_total_width_add, lemma_total_width_push, piece_width, segments, total_width,
};

/// A sequence of formatting directives and content, representing a formatted
/// document or a fragment of it.
///
/// Besides its items, a document keeps the widths that layout needs: its width
/// on one line, the width before its first break, and (in each break) the
/// width of the segment that the break opens. These are kept up to date as
/// items are appended; `wf` states that they agree with the items.
pub struct Doc {
    pub(crate) items: Vec<DocItem>,
    pub(crate) flat_width: usize,
    pub(crate) head_segment_flat_width: usize,
    pub(crate) last_format_break_index: Option<usize>,
}

/// [`Doc`] that can be sent between threads.
///
/// Atoms hold their rendered text, so every `Doc` can be sent and shared
/// between threads; the name is the same type as `Doc`.
pub type DocSend = Doc;

/// [`Doc`] that can be shared between threads (the same type as `Doc`).
pub type DocSync = Doc;

/// [`Doc`] that can be sent and shared between threads (the same type as
/// `Doc`).
pub type DocSendSync = Doc;

pub(crate) enum DocItem {
    FormatBox(FormatBox),
    Atom(Atom),
    FormatBreak(FormatBreak),
}

pub(crate) struct FormatBox {
    pub(crate) kind: FormatBoxKind,
    pub(crate) indent: usize,
    pub(crate) doc: Doc,
}

pub(crate) struct Atom {
    pub(crate) text: String,
    pub(crate) width: usize,
}

#[derive(Clone, Copy)]
pub(crate) struct FormatBreak {
    pub(crate) spaces: usize,
    pub(crate) indent: usize,
    pub(crate) segment_flat_width: usize,
}

/// The piece that an item stands for.
pub(crate) open spec fn item_piece(item: DocItem) -> Piece
    decreases item,
{
    match item {
        DocItem::FormatBox(b) => Piece::Block {
            kind: b.kind,
            indent: b.indent as nat,
            body: items_pieces(b.doc.items@),
        },
        DocItem::Atom(a) => Piece::Text { text: a.text@, width: a.width as nat },
        DocItem::FormatBreak(b) => Piece::Break { spaces: b.spaces as nat, indent: b.indent as nat },
    }
}

/// The pieces that a sequence of items stands for.
pub(crate) open spec fn items_pieces(items: Seq<DocItem>) -> Seq<Piece>
    decreases items,
{
    if items.len() == 0 {
        seq![]
    } else {
        items_pieces(items.drop_last()).push(item_piece(items.last()))
    }
}

pub(crate) proof fn lemma_items_pieces(items: Seq<DocItem>)
    ensures
        items_pieces(items).len() == items.len(),
        forall|i: int|
            0 <= i < items.len() ==> #[trigger] items_pieces(items)[i] == item_piece(items[i]),
    decreases items.len(),
{
    if items.len() > 0 {
        lemma_items_pieces(items.drop_last());
    }
}

pub(crate) proof fn lemma_items_pieces_push(items: Seq<DocItem>, x: DocItem)
    ensures
        items_pieces(items.push(x)) == items_pieces(items).push(item_piece(x)),
{
    assert(items.push(x).drop_last() =~= items);
}

pub(crate) proof fn lemma_items_pieces_add(a: Seq<DocItem>, b: Seq<DocItem>)
    ensures
        items_pieces(a + b) == items_pieces(a) + items_pieces(b),
{
    lemma_items_pieces(a);
    lemma_items_pieces(b);
    lemma_items_pieces(a + b);
    assert(items_pieces(a + b) =~= items_pieces(a) + items_pieces(b));
}

impl View for Doc {
    type V = Seq<Piece>;

    /// The pieces of the document, in order.
    closed spec fn view(&self) -> Seq<Piece> {
        items_pieces(self.items@)
    }
}

pub(crate) open spec fn opt_nat(o: Option<usize>) -> Option<nat> {
    match o {
        Some(k) => Some(k as nat),
        None => None,
    }
}

pub(crate) open spec fn is_break_with_segment(item: DocItem, w: nat) -> bool {
    match item {
        DocItem::FormatBreak(b) => b.segment_flat_width == w,
        _ => true,
    }
}

pub(crate) open spec fn item_wf(item: DocItem) -> bool
    decreases item,
{
    match item {
        DocItem::FormatBox(b) => b.doc.wf(),
        _ => true,
    }
}

impl Doc {
    /// The cached segment widths agree with the items, at the top level.
    pub(crate) open spec fn segments_cached(&self) -> bool {
        let s = segments(items_pieces(self.items@));
        &&& self.head_segment_flat_width == s.head
        &&& opt_nat(self.last_format_break_index) == s.last
        &&& forall|i: int|
            0 <= i < self.items@.len() ==> is_break_with_segment(
                #[trigger] self.items@[i],
                s.segs[i],
            )
    }

    /// Well-formedness: every cached width agrees with the items, in this
    /// document and in every nested one.
    pub closed spec fn wf(&self) -> bool
        decreases self,
    {
        &&& forall|i: int| 0 <= i < self.items@.len() ==> item_wf(#[trigger] self.items@[i])
        &&& self.flat_width == total_width(items_pieces(self.items@))
        &&& self.segments_cached()
    }

    pub(crate) proof fn lemma_view(&self)
        ensures
            self@ == items_pieces(self.items@),
    {
    }

    pub(crate) proof fn lemma_wf_unfold(&self)
        requires
            self.wf(),
        ensures
            forall|i: int| 0 <= i < self.items@.len() ==> item_wf(#[trigger] self.items@[i]),
            self.flat_width == total_width(self@),
            self.segments_cached(),
            self@.len() == self.items@.len(),
            forall|i: int| 0 <= i < self.items@.len() ==> #[trigger] self@[i] == item_piece(self.items@[i]),
    {
        lemma_items_pieces(self.items@);
    }

    /// Creates an empty `Doc`.
    pub fn new() -> (doc: Self)
        ensures
            doc.wf(),
            doc@ == Seq::<Piece>::empty(),
    {
        let doc = Doc {
            items: Vec::new(),
            flat_width: 0,
            head_segment_flat_width: 0,
            last_format_break_index: None,
        };
        proof {
            assert(doc@ =~= Seq::<Piece>::empty());
        }
        doc
    }

    /// Adds `delta` to the width of the current segment: the one opened by
    /// the last break, or the head when there is no break yet.
    fn add_segment_flat_width(&mut self, delta: usize)
        requires
            old(self).segments_cached(),
            total_width(items_pieces(old(self).items@)) + delta <= usize::MAX,
        ensures
            final(self).flat_width == old(self).flat_width,
            final(self).last_format_break_index == old(self).last_format_break_index,
            final(self).items@.len() == old(self).items@.len(),
            items_pieces(final(self).items@) == items_pieces(old(self).items@),
            forall|i: int|
                0 <= i < old(self).items@.len() && !(old(self).items@[i] is FormatBreak)
                    ==> #[trigger] final(self).items@[i] == old(self).items@[i],
            forall|i: int|
                0 <= i < old(self).items@.len() ==> (#[trigger] final(self).items@[i] is FormatBreak
                    <==> old(self).items@[i] is FormatBreak),
            ({
                let s = segments(items_pieces(old(self).items@));
                match s.last {
                    None => {
                        &&& final(self).head_segment_flat_width == old(self).head_segment_flat_width
                            + delta
                        &&& final(self).items@ == old(self).items@
                    },
                    Some(k) => {
                        &&& final(self).head_segment_flat_width
                            == old(self).head_segment_flat_width
                        &&& forall|i: int|
                            0 <= i < old(self).items@.len() ==> is_break_with_segment(
                                #[trigger] final(self).items@[i],
                                s.segs.update(k as int, s.segs[k as int] + delta as nat)[i],
                            )
                    },
                }
            }),
    {
        let ghost pieces = items_pieces(self.items@);
        proof {
            lemma_segments_shape(pieces);
            lemma_items_pieces(self.items@);
        }
        match self.last_format_break_index {
            None => {
                self.head_segment_flat_width = self.head_segment_flat_width + delta;
            },
            Some(index) => {
                let ghost k = index as int;
                assert(is_break_with_segment(self.items@[k], segments(pieces).segs[k]));
                assert(item_piece(self.items@[k]) is Break);
                let updated = match &self.items[index] {
                    DocItem::FormatBreak(b) => FormatBreak {
                        spaces: b.spaces,
                        indent: b.indent,
                        segment_flat_width: b.segment_flat_width + delta,
                    },
                    _ => {
                        proof {
                            assert(false);
                        }
                        return ;
                    },
                };
                let ghost old_items = self.items@;
                self.items.set(index, DocItem::FormatBreak(updated));
                proof {
                    lemma_items_pieces(self.items@);
                    assert(items_pieces(self.items@) =~= items_pieces(old_items));
                }
            },
        }
    }
}


/// What a closure given to `atom_fn` may render, and that it fits beside
/// `base`.
pub open spec fn renders_fitting_atom<F: Fn() -> String>(base: Seq<Piece>, fmt_fn: F) -> bool {
    &&& call_requires(fmt_fn, ())
    &&& forall|s: String| #[trigger]
        call_ensures(fmt_fn, (), s) ==> total_width(base) + display_width(s@) <= usize::MAX
}

/// The piece of an atom with this text.
pub open spec fn text_piece(text: Seq<char>) -> Piece {
    Piece::Text { text, width: display_width(text) as nat }
}

/// Builder pattern methods.
impl Doc {
    /// Appends an item that opens no segment: its width joins the current
    /// segment.
    fn push_unbroken(&mut self, item: DocItem, width: usize)
        requires
            old(self).wf(),
            !(item is FormatBreak),
            item_wf(item),
            piece_width(item_piece(item)) == width,
            total_width(old(self)@) + width <= usize::MAX,
        ensures
            final(self).wf(),
            final(self)@ == old(self)@.push(item_piece(item)),
    {
        proof {
            self.lemma_wf_unfold();
            lemma_segments_shape(self@);
        }
        let ghost old_items = self.items@;
        let ghost old_pieces = self@;
        self.flat_width = self.flat_width + width;
        self.add_segment_flat_width(width);
        let ghost mid_items = self.items@;
        self.items.push(item);
        proof {
            lemma_items_pieces_push(mid_items, item);
            lemma_total_width_push(old_pieces, item_piece(item));
            lemma_segments_push(old_pieces, item_piece(item));
            assert(self@ == old_pieces.push(item_piece(item)));
            assert forall|i: int| 0 <= i < self.items@.len() implies item_wf(
                #[trigger] self.items@[i],
            ) by {
                if i < old_items.len() && !(old_items[i] is FormatBreak) {
                    assert(self.items@[i] == old_items[i]);
                }
            }
            assert forall|i: int| 0 <= i < self.items@.len() implies is_break_with_segment(
                #[trigger] self.items@[i],
                segments(self@).segs[i],
            ) by {
                if i < old_items.len() {
                    assert(self.items@[i] == mid_items[i]);
                }
            }
        }
    }

    /// Appends an atom.
    fn atom_inner(&mut self, atom: Atom) -> (r: &mut Self)
        requires
            old(self).wf(),
            total_width(old(self)@) + atom.width <= usize::MAX,
        ensures
            (*r).wf(),
            (*r)@ == old(self)@.push(Piece::Text { text: atom.text@, width: atom.width as nat }),
            *final(self) == *final(r),
    {
        let width = atom.width;
        self.push_unbroken(DocItem::Atom(atom), width);
        self
    }

    /// Appends a box of the given kind, whose items `build_doc` adds to a new
    /// document.
    fn format_box<F: FnOnce(&mut Doc)>(
        &mut self,
        kind: FormatBoxKind,
        indent: usize,
        build_doc: F,
    ) -> (r: &mut Self)
        requires
            old(self).wf(),
            forall|d: &mut Doc|
                (*d).wf() && (*d)@ == Seq::<Piece>::empty() ==> #[trigger] call_requires(
                    build_doc,
                    (d,),
                ),
            forall|d: &mut Doc|
                (*d).wf() && (*d)@ == Seq::<Piece>::empty() && #[trigger] call_ensures(
                    build_doc,
                    (d,),
                    (),
                ) ==> final(d).wf() && total_width(old(self)@) + total_width(final(d)@)
                    <= usize::MAX,
        ensures
            (*r).wf(),
            exists|d: &mut Doc|
                (*d).wf() && (*d)@ == Seq::<Piece>::empty() && #[trigger] call_ensures(
                    build_doc,
                    (d,),
                    (),
                ) && (*r)@ == old(self)@.push(Piece::Block { kind, indent: indent as nat, body: final(d)@ }),
            *final(self) == *final(r),
    {
        let mut doc = Doc::new();
        build_doc(&mut doc);
        proof {
            doc.lemma_wf_unfold();
        }
        let width = doc.flat_width;
        let ghost body = doc@;
        self.push_unbroken(DocItem::FormatBox(FormatBox { kind, indent, doc }), width);
        self
    }

    /// Appends a horizontal box (h box, `hbox`) to the document.
    pub fn hbox<F: FnOnce(&mut Doc)>(&mut self, build_doc: F) -> (r: &mut Self)
        requires
            old(self).wf(),
            forall|d: &mut Doc|
                (*d).wf() && (*d)@ == Seq::<Piece>::empty() ==> #[trigger] call_requires(
                    build_doc,
                    (d,),
                ),
            forall|d: &mut Doc|
                (*d).wf() && (*d)@ == Seq::<Piece>::empty() && #[trigger] call_ensures(
                    build_doc,
                    (d,),
                    (),
                ) ==> final(d).wf() && total_width(old(self)@) + total_width(final(d)@)
                    <= usize::MAX,
        ensures
            (*r).wf(),
            exists|d: &mut Doc|
                (*d).wf() && (*d)@ == Seq::<Piece>::empty() && #[trigger] call_ensures(
                    build_doc,
                    (d,),
                    (),
                ) && (*r)@ == old(self)@.push(Piece::Block { kind: FormatBoxKind::H, indent: 0, body: final(d)@ }),
            *final(self) == *final(r),
    {
        self.format_box(FormatBoxKind::H, 0, build_doc)
    }

    /// Appends a vertical box (v box, `vbox`) to the document.
    pub fn vbox<F: FnOnce(&mut Doc)>(&mut self, indent: usize, build_doc: F) -> (r: &mut Self)
        requires
            old(self).wf(),
            forall|d: &mut Doc|
                (*d).wf() && (*d)@ == Seq::<Piece>::empty() ==> #[trigger] call_requires(
                    build_doc,
                    (d,),
                ),
            forall|d: &mut Doc|
                (*d).wf() && (*d)@ == Seq::<Piece>::empty() && #[trigger] call_ensures(
                    build_doc,
                    (d,),
                    (),
                ) ==> final(d).wf() && total_width(old(self)@) + total_width(final(d)@)
                    <= usize::MAX,
        ensures
            (*r).wf(),
            exists|d: &mut Doc|
                (*d).wf() && (*d)@ == Seq::<Piece>::empty() && #[trigger] call_ensures(
                    build_doc,
                    (d,),
                    (),
                ) && (*r)@ == old(self)@.push(Piece::Block { kind: FormatBoxKind::V, indent: indent as nat, body: final(d)@ }),
            *final(self) == *final(r),
    {
        self.format_box(FormatBoxKind::V, indent, build_doc)
    }

    /// Appends a horizontal/vertical box (hv box, `hvbox`) to the document.
    pub fn hvbox<F: FnOnce(&mut Doc)>(&mut self, indent: usize, build_doc: F) -> (r: &mut Self)
        requires
            old(self).wf(),
            forall|d: &mut Doc|
                (*d).wf() && (*d)@ == Seq::<Piece>::empty() ==> #[trigger] call_requires(
                    build_doc,
                    (d,),
                ),
            forall|d: &mut Doc|
                (*d).wf() && (*d)@ == Seq::<Piece>::empty() && #[trigger] call_ensures(
                    build_doc,
                    (d,),
                    (),
                ) ==> final(d).wf() && total_width(old(self)@) + total_width(final(d)@)
                    <= usize::MAX,
        ensures
            (*r).wf(),
            exists|d: &mut Doc|
                (*d).wf() && (*d)@ == Seq::<Piece>::empty() && #[trigger] call_ensures(
                    build_doc,
                    (d,),
                    (),
                ) && (*r)@ == old(self)@.push(Piece::Block { kind: FormatBoxKind::Hv, indent: indent as nat, body: final(d)@ }),
            *final(self) == *final(r),
    {
        self.format_box(FormatBoxKind::Hv, indent, build_doc)
    }

    /// Appends a horizontal-or-vertical packing box (hov packing box,
    /// `hovbox`) to the document.
    pub fn hovbox<F: FnOnce(&mut Doc)>(&mut self, indent: usize, build_doc: F) -> (r: &mut Self)
        requires
            old(self).wf(),
            forall|d: &mut Doc|
                (*d).wf() && (*d)@ == Seq::<Piece>::empty() ==> #[trigger] call_requires(
                    build_doc,
                    (d,),
                ),
            forall|d: &mut Doc|
                (*d).wf() && (*d)@ == Seq::<Piece>::empty() && #[trigger] call_ensures(
                    build_doc,
                    (d,),
                    (),
                ) ==> final(d).wf() && total_width(old(self)@) + total_width(final(d)@)
                    <= usize::MAX,
        ensures
            (*r).wf(),
            exists|d: &mut Doc|
                (*d).wf() && (*d)@ == Seq::<Piece>::empty() && #[trigger] call_ensures(
                    build_doc,
                    (d,),
                    (),
                ) && (*r)@ == old(self)@.push(Piece::Block { kind: FormatBoxKind::HovP, indent: indent as nat, body: final(d)@ }),
            *final(self) == *final(r),
    {
        self.format_box(FormatBoxKind::HovP, indent, build_doc)
    }

    /// Appends a horizontal-or-vertical structural box (hov structural box,
    /// `box`) to the document.
    pub fn sbox<F: FnOnce(&mut Doc)>(&mut self, indent: usize, build_doc: F) -> (r: &mut Self)
        requires
            old(self).wf(),
            forall|d: &mut Doc|
                (*d).wf() && (*d)@ == Seq::<Piece>::empty() ==> #[trigger] call_requires(
                    build_doc,
                    (d,),
                ),
            forall|d: &mut Doc|
                (*d).wf() && (*d)@ == Seq::<Piece>::empty() && #[trigger] call_ensures(
                    build_doc,
                    (d,),
                    (),
                ) ==> final(d).wf() && total_width(old(self)@) + total_width(final(d)@)
                    <= usize::MAX,
        ensures
            (*r).wf(),
            exists|d: &mut Doc|
                (*d).wf() && (*d)@ == Seq::<Piece>::empty() && #[trigger] call_ensures(
                    build_doc,
                    (d,),
                    (),
                ) && (*r)@ == old(self)@.push(Piece::Block { kind: FormatBoxKind::HovS, indent: indent as nat, body: final(d)@ }),
            *final(self) == *final(r),
    {
        self.format_box(FormatBoxKind::HovS, indent, build_doc)
    }

    /// Appends a break hint to the document.
    pub fn format_break(&mut self, spaces: usize, indent: usize) -> (r: &mut Self)
        requires
            old(self).wf(),
            total_width(old(self)@) + spaces <= usize::MAX,
        ensures
            (*r).wf(),
            (*r)@ == old(self)@.push(Piece::Break { spaces: spaces as nat, indent: indent as nat }),
            *final(self) == *final(r),
    {
        proof {
            self.lemma_wf_unfold();
            lemma_segments_shape(self@);
        }
        let ghost old_items = self.items@;
        let ghost old_pieces = self@;
        let item = DocItem::FormatBreak(
            FormatBreak { spaces, indent, segment_flat_width: spaces },
        );
        self.flat_width = self.flat_width + spaces;
        self.last_format_break_index = Some(self.items.len());
        self.items.push(item);
        proof {
            lemma_items_pieces_push(old_items, item);
            lemma_total_width_push(old_pieces, item_piece(item));
            lemma_segments_push(old_pieces, item_piece(item));
            assert forall|i: int| 0 <= i < self.items@.len() implies item_wf(
                #[trigger] self.items@[i],
            ) by {
                if i < old_items.len() {
                    assert(self.items@[i] == old_items[i]);
                }
            }
            assert forall|i: int| 0 <= i < self.items@.len() implies is_break_with_segment(
                #[trigger] self.items@[i],
                segments(self@).segs[i],
            ) by {
                if i < old_items.len() {
                    assert(self.items@[i] == old_items[i]);
                }
            }
        }
        self
    }

    /// Appends a breaking space to the document.
    ///
    /// Convenience method for `format_break(1, 0)`.
    pub fn space(&mut self) -> (r: &mut Self)
        requires
            old(self).wf(),
            total_width(old(self)@) + 1 <= usize::MAX,
        ensures
            (*r).wf(),
            (*r)@ == old(self)@.push(Piece::Break { spaces: 1, indent: 0 }),
            *final(self) == *final(r),
    {
        self.format_break(1, 0)
    }

    /// Appends a newline hint to the document.
    ///
    /// Convenience method for `format_break(0, 0)`.
    pub fn cut(&mut self) -> (r: &mut Self)
        requires
            old(self).wf(),
        ensures
            (*r).wf(),
            (*r)@ == old(self)@.push(Piece::Break { spaces: 0, indent: 0 }),
            *final(self) == *final(r),
    {
        self.format_break(0, 0)
    }

    /// Extends the document with the items of another `Doc`.
    pub fn extend(&mut self, doc: Doc) -> (r: &mut Self)
        requires
            old(self).wf(),
            doc.wf(),
            total_width(old(self)@) + total_width(doc@) <= usize::MAX,
        ensures
            (*r).wf(),
            (*r)@ == old(self)@ + doc@,
            *final(self) == *final(r),
    {
        let mut doc = doc;
        proof {
            self.lemma_wf_unfold();
            doc.lemma_wf_unfold();
            lemma_segments_shape(self@);
            lemma_segments_shape(doc@);
            lemma_segments_add(self@, doc@);
            lemma_total_width_add(self@, doc@);
        }
        let ghost old_items = self.items@;
        let ghost old_pieces = self@;
        let ghost doc_items = doc.items@;
        let ghost doc_pieces = doc@;
        self.flat_width = self.flat_width + doc.flat_width;
        self.add_segment_flat_width(doc.head_segment_flat_width);
        let ghost mid_items = self.items@;
        let old_len = self.items.len();
        self.items.append(&mut doc.items);
        let new_len = self.items.len();
        match doc.last_format_break_index {
            Some(k) => {
                self.last_format_break_index = Some(old_len + k);
            },
            None => {},
        }
        proof {
            lemma_items_pieces_add(mid_items, doc_items);
            lemma_items_pieces(self.items@);
            lemma_items_pieces(doc_items);
            assert(self@ == old_pieces + doc_pieces);
            assert forall|i: int| 0 <= i < self.items@.len() implies item_wf(
                #[trigger] self.items@[i],
            ) by {
                if i < old_len {
                    if !(old_items[i] is FormatBreak) {
                        assert(self.items@[i] == old_items[i]);
                    }
                } else {
                    assert(self.items@[i] == doc_items[i - old_len]);
                }
            }
            assert forall|i: int| 0 <= i < self.items@.len() implies is_break_with_segment(
                #[trigger] self.items@[i],
                segments(self@).segs[i],
            ) by {
                if i < old_len {
                    assert(self.items@[i] == mid_items[i]);
                } else {
                    assert(self.items@[i] == doc_items[i - old_len]);
                }
            }
        }
        self
    }

    /// Appends indivisible content to the document.
    ///
    /// The content should not contain newlines.
    pub fn atom(&mut self, d: &str) -> (r: &mut Self)
        requires
            old(self).wf(),
            total_width(old(self)@) + display_width(d@) <= usize::MAX,
        ensures
            (*r).wf(),
            (*r)@ == old(self)@.push(text_piece(d@)),
            *final(self) == *final(r),
    {
        let width = width_of(d);
        self.atom_inner(Atom { text: d.to_owned(), width })
    }

    /// Appends indivisible content to the document, through a closure that
    /// renders it.
    ///
    /// The content should not contain newlines. The closure is called once.
    pub fn atom_fn<F: Fn() -> String>(&mut self, fmt_fn: F) -> (r: &mut Self)
        requires
            old(self).wf(),
            renders_fitting_atom(old(self)@, fmt_fn),
        ensures
            (*r).wf(),
            exists|text: String|
                call_ensures(fmt_fn, (), text) && (*r)@ == old(self)@.push(text_piece(text@)),
            *final(self) == *final(r),
    {
        let text = FmtFnWrapper::new(fmt_fn).to_string();
        let width = width_of(text.as_str());
        let ghost rendered = text;
        let r = self.atom_inner(Atom { text, width });
        assert((*r)@ == old(self)@.push(text_piece(rendered@)));
        r
    }

    /// Appends indivisible content to the document, when its width still
    /// fits in a `usize` beside the document's; otherwise leaves the document
    /// as it is. Returns whether it appended.
    pub fn checked_atom(&mut self, d: &str) -> (appended: bool)
        requires
            old(self).wf(),
        ensures
            final(self).wf(),
            appended <==> total_width(old(self)@) + display_width(d@) <= usize::MAX,
            appended ==> final(self)@ == old(self)@.push(text_piece(d@)),
            !appended ==> final(self)@ == old(self)@,
    {
        proof {
            self.lemma_wf_unfold();
        }
        let width = width_of(d);
        if width <= usize::MAX - self.flat_width {
            self.atom(d);
            true
        } else {
            false
        }
    }

    /// Appends the text that `fmt_fn` renders, when its width still fits in a
    /// `usize` beside the document's; otherwise leaves the document as it is.
    /// Returns whether it appended. The closure is called once.
    pub fn checked_atom_fn<F: Fn() -> String>(&mut self, fmt_fn: F) -> (appended: bool)
        requires
            old(self).wf(),
            call_requires(fmt_fn, ()),
        ensures
            final(self).wf(),
            exists|text: String|
                #[trigger] call_ensures(fmt_fn, (), text) && (if total_width(old(self)@)
                    + display_width(text@) <= usize::MAX {
                    appended && final(self)@ == old(self)@.push(text_piece(text@))
                } else {
                    !appended && final(self)@ == old(self)@
                }),
    {
        proof {
            self.lemma_wf_unfold();
        }
        let text = fmt_fn();
        let width = width_of(text.as_str());
        if width <= usize::MAX - self.flat_width {
            let rendered = move || -> (s: String)
                ensures
                    s@ == text@,
                { text.clone() };
            self.atom_fn(rendered);
            true
        } else {
            false
        }
    }
}

/// Creates an empty `Doc`.
impl Default for Doc {
    fn default() -> (doc: Self)
        ensures
            doc.wf(),
            doc@ == Seq::<Piece>::empty(),
    {
        Doc::new()
    }
}

} // verus!
