//! The position cache: where each live block starts in the document, and
//! the mapping between positions and character identifiers built on it.
//!
//! Positions count grapheme clusters. A span is one live block in document
//! order with its start position and length. Starts are capped at
//! `usize::MAX`, the largest position that can be asked for.

use super::block::{BlockView, FugueBlock};
use super::node::{IdView, NodeId};
use super::segment::grapheme_count;
use super::store::block_views;
use super::tree::{block_first_clock, document_order, first_clock, get_document_order, owner_of};
use vstd::prelude::*;

verus! {

/// One live block in document order, as plain values.
pub struct SpanView {
    pub id: IdView,
    pub start: nat,
    pub len: nat,
}

/// One live block in document order: its identifier, the position of its
/// first grapheme, and how many graphemes it holds.
#[derive(Debug)]
pub struct CachedSpan {
    pub id: NodeId,
    pub start: usize,
    pub len: usize,
}

impl View for CachedSpan {
    type V = SpanView;

    open spec fn view(&self) -> SpanView {
        SpanView { id: self.id@, start: self.start as nat, len: self.len as nat }
    }
}

/// The spans of a cache as plain values.
pub open spec fn span_views(spans: Seq<CachedSpan>) -> Seq<SpanView> {
    Seq::new(spans.len(), |k: int| spans[k]@)
}

/// A position capped at the largest one a caller can name.
pub open spec fn capped(x: nat) -> nat {
    if x > usize::MAX {
        usize::MAX as nat
    } else {
        x
    }
}

/// The position at which the `k`-th block of `order` starts: the graphemes
/// of the blocks before it, capped.
pub open spec fn span_start(s: Seq<BlockView>, order: Seq<usize>, k: nat) -> nat
    decreases k,
{
    if k == 0 {
        0
    } else {
        capped(span_start(s, order, (k - 1) as nat) + grapheme_count(s[order[k - 1] as int].text))
    }
}

/// The spans of the blocks `order` of store `s`.
pub open spec fn spans_of(s: Seq<BlockView>, order: Seq<usize>) -> Seq<SpanView> {
    Seq::new(
        order.len(),
        |k: int|
            SpanView {
                id: s[order[k] as int].id,
                start: span_start(s, order, k as nat),
                len: grapheme_count(s[order[k] as int].text),
            },
    )
}

/// The spans of a store: its live blocks in document order.
pub open spec fn doc_spans(s: Seq<BlockView>) -> Seq<SpanView> {
    spans_of(s, document_order(s))
}

/// The position just past a span, capped.
pub open spec fn span_end(span: SpanView) -> nat {
    capped(span.start + span.len)
}

/// Each span starts where the one before it ends, the first at zero.
pub open spec fn chained(spans: Seq<SpanView>) -> bool {
    &&& spans.len() > 0 ==> spans[0].start == 0
    &&& forall|k: int| 0 < k < spans.len() ==> (#[trigger] spans[k]).start == span_end(spans[k - 1])
}

/// The index, from `i` on, of the first span that ends after position `p`;
/// the number of spans if there is none.
pub open spec fn locate_from(spans: Seq<SpanView>, p: nat, i: int) -> int
    decreases spans.len() - i,
{
    if i < 0 || i >= spans.len() {
        spans.len() as int
    } else if p < span_end(spans[i]) {
        i
    } else {
        locate_from(spans, p, i + 1)
    }
}

/// The index of the span that holds position `p`: the first that ends
/// after it. The number of spans if `p` is at or past the end.
pub open spec fn locate(spans: Seq<SpanView>, p: nat) -> int {
    locate_from(spans, p, 0)
}

/// The identifier of the character at offset `o` of a span.
pub open spec fn char_id(span: SpanView, o: int) -> IdView {
    IdView {
        client: span.id.client,
        clock: (first_clock(span.id.clock, span.len) + o) as u64,
        offset: 0,
    }
}

/// The identifier of the last character of a span.
pub open spec fn last_char_id(span: SpanView) -> IdView {
    IdView { client: span.id.client, clock: span.id.clock, offset: 0 }
}

/// The two origins of an insert at position `p`: the characters just
/// before and just after the insertion point, where there are any.
pub open spec fn origins_at(spans: Seq<SpanView>, p: nat) -> (Option<IdView>, Option<IdView>) {
    let k = locate(spans, p);
    if spans.len() == 0 {
        (None, None)
    } else if k >= spans.len() {
        (Some(last_char_id(spans.last())), None)
    } else if p <= spans[k].start {
        (
            if k > 0 {
                Some(last_char_id(spans[k - 1]))
            } else {
                None
            },
            Some(char_id(spans[k], 0)),
        )
    } else {
        (Some(char_id(spans[k], p - spans[k].start - 1)), Some(char_id(spans[k], p - spans[k].start)))
    }
}

/// The identifier of the character at position `p`, if the spans reach
/// that far.
pub open spec fn id_at(spans: Seq<SpanView>, p: nat) -> Option<IdView> {
    let k = locate(spans, p);
    if k < spans.len() {
        Some(char_id(spans[k], p - spans[k].start))
    } else {
        None
    }
}

/// The index, from `i` on, of the first span with identifier `id`.
pub open spec fn span_with_id_from(spans: Seq<SpanView>, id: IdView, i: int) -> Option<int>
    decreases spans.len() - i,
{
    if i < 0 || i >= spans.len() {
        None
    } else if spans[i].id == id {
        Some(i)
    } else {
        span_with_id_from(spans, id, i + 1)
    }
}

/// The position of character `c` in the document: the start of the live
/// block that owns it plus its offset in that block. `None` if no block
/// owns it, if the block is a tombstone or out of the document order, or
/// if the position is past `usize::MAX`.
pub open spec fn position_of(s: Seq<BlockView>, c: IdView) -> Option<usize> {
    match owner_of(s, c) {
        None => None,
        Some(i) => if i >= s.len() || s[i as int].deleted {
            None
        } else {
            match span_with_id_from(doc_spans(s), s[i as int].id, 0) {
                None => None,
                Some(k) => {
                    let at = doc_spans(s)[k].start + (c.clock - first_clock(
                        s[i as int].id.clock,
                        grapheme_count(s[i as int].text),
                    ));
                    if at <= usize::MAX {
                        Some(at as usize)
                    } else {
                        None
                    }
                },
            }
        },
    }
}

/// The spans of a store are chained.
pub proof fn lemma_spans_chained(s: Seq<BlockView>, order: Seq<usize>)
    ensures
        chained(spans_of(s, order)),
{
    let spans = spans_of(s, order);
    assert forall|k: int| 0 < k < spans.len() implies (#[trigger] spans[k]).start == span_end(
        spans[k - 1],
    ) by {
        assert(span_start(s, order, k as nat) == capped(
            span_start(s, order, (k - 1) as nat) + grapheme_count(s[order[k - 1] as int].text),
        ));
    }
}

/// In chained spans the ends never go down.
pub proof fn lemma_ends_monotone(spans: Seq<SpanView>, i: int, j: int)
    requires
        chained(spans),
        0 <= i <= j < spans.len(),
    ensures
        span_end(spans[i]) <= span_end(spans[j]),
    decreases j - i,
{
    if i < j {
        lemma_ends_monotone(spans, i, j - 1);
        assert(spans[j].start == span_end(spans[j - 1]));
    }
}

/// What `locate_from` returns, said without recursion.
pub proof fn lemma_locate_from(spans: Seq<SpanView>, p: nat, i: int)
    requires
        0 <= i <= spans.len(),
    ensures
        i <= locate_from(spans, p, i) <= spans.len(),
        forall|j: int| i <= j < locate_from(spans, p, i) ==> span_end(#[trigger] spans[j]) <= p,
        locate_from(spans, p, i) < spans.len() ==> p < span_end(spans[locate_from(spans, p, i)]),
    decreases spans.len() - i,
{
    if i < spans.len() && p >= span_end(spans[i]) {
        lemma_locate_from(spans, p, i + 1);
    }
}

/// A span that ends after `p` while all before it end at or before `p` is
/// the one that `locate` names.
pub proof fn lemma_locate_unique(spans: Seq<SpanView>, p: nat, k: int)
    requires
        0 <= k <= spans.len(),
        forall|j: int| 0 <= j < k ==> span_end(#[trigger] spans[j]) <= p,
        k < spans.len() ==> p < span_end(spans[k]),
    ensures
        locate(spans, p) == k,
{
    lemma_locate_from(spans, p, 0);
    let l = locate(spans, p);
    if l < k {
        assert(span_end(spans[l]) <= p);
    } else if l > k {
        assert(span_end(spans[k]) <= p);
    }
}

/// The span that holds `p` starts at or before `p`.
pub proof fn lemma_located_start(spans: Seq<SpanView>, p: nat)
    requires
        chained(spans),
        locate(spans, p) < spans.len(),
    ensures
        spans[locate(spans, p)].start <= p < span_end(spans[locate(spans, p)]),
        spans[locate(spans, p)].len >= 1,
        p - spans[locate(spans, p)].start < spans[locate(spans, p)].len,
{
    lemma_locate_from(spans, p, 0);
    let k = locate(spans, p);
    if k > 0 {
        assert(spans[k].start == span_end(spans[k - 1]));
        assert(span_end(spans[k - 1]) <= p);
    }
}

/// Finds the span that holds position `p` by binary search over the ends.
pub fn locate_span(spans: &Vec<CachedSpan>, p: usize) -> (k: usize)
    requires
        chained(span_views(spans@)),
    ensures
        k == locate(span_views(spans@), p as nat),
        k <= spans@.len(),
{
    let ghost sv = span_views(spans@);
    let mut lo: usize = 0;
    let mut hi: usize = spans.len();
    while lo < hi
        invariant
            sv == span_views(spans@),
            chained(sv),
            lo <= hi <= spans@.len(),
            forall|j: int| 0 <= j < lo ==> span_end(#[trigger] sv[j]) <= p,
            hi < sv.len() ==> p < span_end(sv[hi as int]),
        decreases hi - lo,
    {
        let mid: usize = lo + (hi - lo) / 2;
        let end = span_end_of(&spans[mid]);
        assert(end == span_end(sv[mid as int]));
        if p < end {
            hi = mid;
        } else {
            proof {
                assert forall|j: int| 0 <= j < mid + 1 implies span_end(#[trigger] sv[j]) <= p by {
                    lemma_ends_monotone(sv, j, mid as int);
                }
            }
            lo = mid + 1;
        }
    }
    proof {
        lemma_locate_unique(sv, p as nat, lo as int);
    }
    lo
}

/// The position just past a span, capped at `usize::MAX`.
pub fn span_end_of(span: &CachedSpan) -> (end: usize)
    ensures
        end == span_end(span@),
{
    if span.len > usize::MAX - span.start {
        usize::MAX
    } else {
        span.start + span.len
    }
}

/// The identifier of the character at offset `o` of a span.
pub fn span_char_id(span: &CachedSpan, o: usize) -> (id: NodeId)
    requires
        o < span.len,
    ensures
        id@ == char_id(span@, o as int),
{
    let first = block_first_clock(span.id.clock, span.len);
    NodeId::new(span.id.client_id.clone(), first + o as u64, 0)
}

/// The identifier of the last character of a span.
pub fn span_last_char_id(span: &CachedSpan) -> (id: NodeId)
    ensures
        id@ == last_char_id(span@),
{
    NodeId::new(span.id.client_id.clone(), span.id.clock, 0)
}

/// The index of the first span with identifier `id`.
pub fn find_span_with_id(spans: &Vec<CachedSpan>, id: &NodeId) -> (found: Option<usize>)
    ensures
        match found {
            Some(k) => k < spans@.len() && span_with_id_from(span_views(spans@), id@, 0) == Some(k as int),
            None => span_with_id_from(span_views(spans@), id@, 0) is None,
        },
{
    let ghost sv = span_views(spans@);
    let mut k: usize = 0;
    while k < spans.len()
        invariant
            k <= spans@.len(),
            sv == span_views(spans@),
            span_with_id_from(sv, id@, 0) == span_with_id_from(sv, id@, k as int),
        decreases spans@.len() - k,
    {
        assert(spans@[k as int]@ == sv[k as int]);
        if spans[k].id.same(id) {
            return Some(k);
        }
        k = k + 1;
    }
    None
}

/// Builds the spans of a store: walks the document order and adds up the
/// grapheme lengths of the live blocks.
pub fn build_spans(blocks: &Vec<FugueBlock>) -> (spans: Vec<CachedSpan>)
    ensures
        span_views(spans@) == doc_spans(block_views(blocks@)),
{
    let ghost s = block_views(blocks@);
    let order = get_document_order(blocks);
    let mut spans: Vec<CachedSpan> = Vec::new();
    let mut current_pos: usize = 0;
    let mut k: usize = 0;
    while k < order.len()
        invariant
            k <= order@.len(),
            s == block_views(blocks@),
            order@ == document_order(s),
            forall|j: int| 0 <= j < order@.len() ==> (#[trigger] order@[j]) < blocks@.len(),
            spans@.len() == k,
            current_pos == span_start(s, order@, k as nat),
            forall|j: int| 0 <= j < k ==> (#[trigger] spans@[j])@ == spans_of(s, order@)[j],
        decreases order@.len() - k,
    {
        let block = &blocks[order[k]];
        let len = block.len();
        spans.push(CachedSpan { id: block.id.clone(), start: current_pos, len });
        current_pos = if len > usize::MAX - current_pos {
            usize::MAX
        } else {
            current_pos + len
        };
        k = k + 1;
    }
    assert(span_views(spans@) =~= doc_spans(s));
    spans
}

} // verus!
