//! Rewriting one text by a set of edits.
//!
//! Edits come in any order. Each is resolved to a span of offsets, the spans are
//! ordered by where they start and then by where they end, and the text is put
//! together again from what stands between them and what takes their place.
use vstd::prelude::*;

use crate::edit;
use crate::edit::position;
use crate::edit::position::resolve_offset;
use crate::edit::{Position, PositionEncoding, TextEdit, TextEditView};
use crate::text::{chars_of, string_from};

verus! {

// ---------------------------------------------------------------------------
// The model
// ---------------------------------------------------------------------------

/// An edit whose range is resolved to offsets.
pub struct Span {
    pub start: nat,
    pub end: nat,
    pub new_text: Seq<char>,
}

/// The spans of a list of edits, or the first position that has no line. Of one
/// edit the start is looked at before the end.
pub open spec fn spans_of(
    s: Seq<char>,
    edits: Seq<TextEditView>,
    encoding: PositionEncoding,
) -> Result<Seq<Span>, Position>
    decreases edits.len(),
{
    if edits.len() == 0 {
        Ok(seq![])
    } else {
        let range = edits.last().range;
        match spans_of(s, edits.drop_last(), encoding) {
            Err(pos) => Err(pos),
            Ok(spans) => match (
                position::offset_of(s, range.start, encoding),
                position::offset_of(s, range.end, encoding),
            ) {
                (None, _) => Err(range.start),
                (Some(_), None) => Err(range.end),
                (Some(start), Some(end)) => Ok(
                    spans.push(Span { start, end, new_text: edits.last().new_text }),
                ),
            },
        }
    }
}

/// Whether a span comes no later than another: by where they start, then by where
/// they end. So an insertion comes before what replaces the text behind it.
pub open spec fn no_later(a: Span, b: Span) -> bool {
    a.start < b.start || (a.start == b.start && a.end <= b.end)
}

/// `x` put into an ordered list, behind all spans that come no later.
pub open spec fn inserted(ordered: Seq<Span>, x: Span) -> Seq<Span>
    decreases ordered.len(),
{
    if ordered.len() == 0 || no_later(ordered.last(), x) {
        ordered.push(x)
    } else {
        inserted(ordered.drop_last(), x).push(ordered.last())
    }
}

/// The spans in order; spans with the same ends keep their order.
pub open spec fn by_place(spans: Seq<Span>) -> Seq<Span>
    decreases spans.len(),
{
    if spans.len() == 0 {
        seq![]
    } else {
        inserted(by_place(spans.drop_last()), spans.last())
    }
}

/// Whether a span reaches into the one that follows it.
pub open spec fn overlapping(ordered: Seq<Span>) -> bool {
    exists|i: int|
        0 <= i && i + 1 < ordered.len() && (#[trigger] ordered[i]).end > ordered[i + 1].start
}

/// Whether a span ends before it starts.
pub open spec fn inverted(spans: Seq<Span>) -> bool {
    exists|i: int| 0 <= i < spans.len() && (#[trigger] spans[i]).start > spans[i].end
}

/// The text from `from` on, with each span replaced.
pub open spec fn assembled(s: Seq<char>, ordered: Seq<Span>, from: int) -> Seq<char>
    decreases ordered.len(),
{
    if ordered.len() == 0 {
        s.subrange(from, s.len() as int)
    } else {
        s.subrange(from, ordered[0].start as int) + ordered[0].new_text + assembled(
            s,
            ordered.skip(1),
            ordered[0].end as int,
        )
    }
}

/// Why a text cannot be rewritten.
#[derive(Debug, Clone, Copy, PartialEq, Eq, Structural)]
pub enum RewriteError {
    /// The text has no line for this position.
    OutOfRange(Position),
    /// Two edits overlap.
    Overlapping,
    /// An edit ends before it starts.
    Inverted,
}

/// A text rewritten by a list of edits.
pub open spec fn rewritten(
    s: Seq<char>,
    edits: Seq<TextEditView>,
    encoding: PositionEncoding,
) -> Result<Seq<char>, RewriteError> {
    match spans_of(s, edits, encoding) {
        Err(pos) => Err(RewriteError::OutOfRange(pos)),
        Ok(spans) => if overlapping(by_place(spans)) {
            Err(RewriteError::Overlapping)
        } else if inverted(spans) {
            Err(RewriteError::Inverted)
        } else {
            Ok(assembled(s, by_place(spans), 0))
        },
    }
}

// ---------------------------------------------------------------------------
// Execution
// ---------------------------------------------------------------------------

/// A resolved edit: its span, and the place of the edit in its list.
#[derive(Debug, Clone, Copy, PartialEq, Eq, Structural)]
struct Resolved {
    start: usize,
    end: usize,
    index: usize,
}

/// The span of a resolved edit.
spec fn span(r: Resolved, edits: Seq<TextEditView>) -> Span {
    Span {
        start: r.start as nat,
        end: r.end as nat,
        new_text: edits[r.index as int].new_text,
    }
}

/// The spans of resolved edits.
spec fn spans(v: Seq<Resolved>, edits: Seq<TextEditView>) -> Seq<Span> {
    v.map_values(|r: Resolved| span(r, edits))
}

/// Whether the resolved edits point into a text and a list of edits.
spec fn in_bounds(v: Seq<Resolved>, edits: int, len: int) -> bool {
    forall|i: int|
        0 <= i < v.len() ==> (#[trigger] v[i]).index < edits && v[i].start <= len && v[i].end <= len
}

/// Puts `x` into an ordered list.
fn insert_resolved(v: &mut Vec<Resolved>, x: Resolved, Ghost(edits): Ghost<Seq<TextEditView>>)
    ensures
        spans(final(v)@, edits) == inserted(spans(old(v)@, edits), span(x, edits)),
        forall|n: int, len: int|
            in_bounds(old(v)@, n, len) && x.index < n && x.start <= len && x.end <= len
                ==> #[trigger] in_bounds(final(v)@, n, len),
{
    let ghost all = spans(v@, edits);
    let ghost new = span(x, edits);
    let mut at: usize = v.len();
    assert(all.take(at as int) =~= all);
    assert(all.skip(at as int) =~= seq![]);
    assert(inserted(all, new) =~= inserted(all.take(at as int), new) + all.skip(at as int));
    while at > 0 && (v[at - 1].start > x.start || (v[at - 1].start == x.start && v[at - 1].end
        > x.end))
        invariant
            at <= v@.len(),
            v@ == old(v)@,
            all == spans(v@, edits),
            new == span(x, edits),
            inserted(all, new) == inserted(all.take(at as int), new) + all.skip(at as int),
        decreases at,
    {
        proof {
            let front = all.take(at as int);
            assert(front.last() == span(v@[at - 1], edits));
            assert(front.drop_last() =~= all.take(at - 1));
            assert(inserted(front, new) == inserted(all.take(at - 1), new).push(front.last()));
            assert(inserted(front, new) + all.skip(at as int) =~= inserted(all.take(at - 1), new)
                + all.skip(at - 1));
        }
        at -= 1;
    }
    v.insert(at, x);
    proof {
        let front = all.take(at as int);
        if front.len() > 0 {
            assert(front.last() == span(old(v)@[at - 1], edits));
        }
        assert(inserted(front, new) == front.push(new));
        assert(spans(v@, edits) =~= front.push(new) + all.skip(at as int));
    }
}

/// Resolves every edit and orders the spans.
fn resolve_edits(
    chars: &Vec<char>,
    edits: &Vec<TextEdit>,
    encoding: PositionEncoding,
) -> (r: Result<Vec<Resolved>, Position>)
    ensures
        match r {
            Ok(v) => spans_of(chars@, edit::edit_views(edits@), encoding) is Ok && spans(
                v@,
                edit::edit_views(edits@),
            ) == by_place(spans_of(chars@, edit::edit_views(edits@), encoding).unwrap())
                && in_bounds(v@, edits@.len() as int, chars@.len() as int),
            Err(pos) => spans_of(chars@, edit::edit_views(edits@), encoding) == Err::<
                Seq<Span>,
                Position,
            >(pos),
        },
{
    let ghost all = edit::edit_views(edits@);
    let mut out: Vec<Resolved> = Vec::new();
    let mut i: usize = 0;
    assert(spans(out@, all) =~= by_place(seq![]));
    assert(all.take(0) =~= seq![]);
    while i < edits.len()
        invariant
            i <= edits@.len(),
            all == edit::edit_views(edits@),
            spans_of(chars@, all.take(i as int), encoding) is Ok,
            spans(out@, all) == by_place(spans_of(chars@, all.take(i as int), encoding).unwrap()),
            in_bounds(out@, edits@.len() as int, chars@.len() as int),
        decreases edits@.len() - i,
    {
        let range = edits[i].range;
        let ghost done = all.take(i + 1);
        proof {
            assert(done.drop_last() =~= all.take(i as int));
            assert(done.last() == edits@[i as int]@);
            assert(all.take(all.len() as int) =~= all);
        }
        let start = match resolve_offset(chars, range.start, encoding) {
            Some(start) => start,
            None => {
                proof {
                    lemma_failure_stays(chars@, all, encoding, i + 1);
                }
                return Err(range.start);
            },
        };
        let end = match resolve_offset(chars, range.end, encoding) {
            Some(end) => end,
            None => {
                proof {
                    lemma_failure_stays(chars@, all, encoding, i + 1);
                }
                return Err(range.end);
            },
        };
        let x = Resolved { start, end, index: i };
        let ghost before = spans_of(chars@, all.take(i as int), encoding).unwrap();
        insert_resolved(&mut out, x, Ghost(all));
        proof {
            let after = spans_of(chars@, done, encoding).unwrap();
            assert(after == before.push(span(x, all)));
            assert(after.drop_last() =~= before);
        }
        i += 1;
    }
    assert(all.take(i as int) =~= all);
    Ok(out)
}

/// What fails for the first `n` edits fails for all of them in the same way.
proof fn lemma_failure_stays(
    s: Seq<char>,
    edits: Seq<TextEditView>,
    encoding: PositionEncoding,
    n: int,
)
    requires
        0 <= n <= edits.len(),
        spans_of(s, edits.take(n), encoding) is Err,
    ensures
        spans_of(s, edits, encoding) == spans_of(s, edits.take(n), encoding),
    decreases edits.len(),
{
    if n == edits.len() {
        assert(edits.take(n) =~= edits);
    } else {
        assert(edits.drop_last().take(n) =~= edits.take(n));
        lemma_failure_stays(s, edits.drop_last(), encoding, n);
    }
}

/// Whether neighbours in an ordered list overlap.
fn any_overlap(v: &Vec<Resolved>, Ghost(edits): Ghost<Seq<TextEditView>>) -> (r: bool)
    ensures
        r == overlapping(spans(v@, edits)),
{
    let ghost all = spans(v@, edits);
    let mut i: usize = 0;
    while i < v.len() && v.len() - i > 1
        invariant
            i <= v@.len(),
            all == spans(v@, edits),
            forall|j: int| 0 <= j < i && j + 1 < all.len() ==> (#[trigger] all[j]).end <= all[j
                + 1].start,
        decreases v@.len() - i,
    {
        assert(all[i as int] == span(v@[i as int], edits));
        assert(all[i + 1] == span(v@[i + 1], edits));
        if v[i].end > v[i + 1].start {
            return true;
        }
        i += 1;
    }
    false
}

/// Whether a span ends before it starts.
fn any_inverted(v: &Vec<Resolved>, Ghost(edits): Ghost<Seq<TextEditView>>) -> (r: bool)
    ensures
        r == inverted(spans(v@, edits)),
{
    let ghost all = spans(v@, edits);
    let mut i: usize = 0;
    while i < v.len()
        invariant
            i <= v@.len(),
            all == spans(v@, edits),
            forall|j: int| 0 <= j < i ==> (#[trigger] all[j]).start <= all[j].end,
        decreases v@.len() - i,
    {
        assert(all[i as int] == span(v@[i as int], edits));
        if v[i].start > v[i].end {
            return true;
        }
        i += 1;
    }
    false
}

/// `source` rewritten by `edits`.
pub fn rewrite_text(
    source: &str,
    edits: &Vec<TextEdit>,
    encoding: PositionEncoding,
) -> (r: Result<String, RewriteError>)
    ensures
        match r {
            Ok(updated) => rewritten(source@, edit::edit_views(edits@), encoding) == Ok::<
                Seq<char>,
                RewriteError,
            >(updated@),
            Err(e) => rewritten(source@, edit::edit_views(edits@), encoding) == Err::<
                Seq<char>,
                RewriteError,
            >(e),
        },
{
    let chars = chars_of(source);
    let ghost all = edit::edit_views(edits@);
    let v = match resolve_edits(&chars, edits, encoding) {
        Ok(v) => v,
        Err(pos) => {
            return Err(RewriteError::OutOfRange(pos));
        },
    };
    if any_overlap(&v, Ghost(all)) {
        return Err(RewriteError::Overlapping);
    }
    let ghost ordered = spans(v@, all);
    proof {
        lemma_inverted_by_place(spans_of(source@, all, encoding).unwrap());
    }
    if any_inverted(&v, Ghost(all)) {
        return Err(RewriteError::Inverted);
    }
    let mut out: Vec<char> = Vec::new();
    let mut from: usize = 0;
    let mut i: usize = 0;
    assert(ordered.skip(0) =~= ordered);
    while i < v.len()
        invariant
            i <= v@.len(),
            chars@ == source@,
            all == edit::edit_views(edits@),
            ordered == spans(v@, all),
            in_bounds(v@, edits@.len() as int, chars@.len() as int),
            !overlapping(ordered),
            !inverted(ordered),
            from <= chars@.len(),
            i == 0 ==> from == 0,
            i > 0 ==> from == ordered[i - 1].end,
            out@ + assembled(chars@, ordered.skip(i as int), from as int) == assembled(
                chars@,
                ordered,
                0,
            ),
        decreases v@.len() - i,
    {
        let x = v[i];
        let ghost rest = ordered.skip(i as int);
        assert(rest[0] == span(x, all));
        assert(ordered[i as int] == span(x, all));
        assert(x.start <= x.end);
        assert(from <= x.start);
        let ghost kept = out@;
        let mut k: usize = from;
        while k < x.start
            invariant
                from <= k <= x.start <= chars@.len(),
                out@ == kept + chars@.subrange(from as int, k as int),
            decreases x.start - k,
        {
            out.push(chars[k]);
            k += 1;
            assert(chars@.subrange(from as int, k as int) =~= chars@.subrange(
                from as int,
                k - 1,
            ).push(chars@[k - 1]));
        }
        let new_text = chars_of(edits[x.index].new_text.as_str());
        assert(all[x.index as int] == edits@[x.index as int]@);
        let ghost before = out@;
        let mut m: usize = 0;
        while m < new_text.len()
            invariant
                m <= new_text@.len(),
                out@ == before + new_text@.take(m as int),
            decreases new_text@.len() - m,
        {
            out.push(new_text[m]);
            m += 1;
            assert(new_text@.take(m as int) =~= new_text@.take(m - 1).push(new_text@[m - 1]));
        }
        proof {
            assert(new_text@.take(m as int) =~= new_text@);
            assert(rest.skip(1) =~= ordered.skip(i + 1));
            assert(kept + assembled(chars@, rest, from as int) =~= out@ + assembled(
                chars@,
                ordered.skip(i + 1),
                x.end as int,
            ));
        }
        from = x.end;
        i += 1;
    }
    let ghost kept = out@;
    assert(ordered.skip(i as int) =~= seq![]);
    let mut k: usize = from;
    while k < chars.len()
        invariant
            from <= k <= chars@.len(),
            out@ == kept + chars@.subrange(from as int, k as int),
        decreases chars@.len() - k,
    {
        out.push(chars[k]);
        k += 1;
        assert(chars@.subrange(from as int, k as int) =~= chars@.subrange(from as int, k - 1).push(
            chars@[k - 1],
        ));
    }
    Ok(string_from(&out))
}

// ---------------------------------------------------------------------------
// Laws
// ---------------------------------------------------------------------------

/// Whether a list is in order.
pub open spec fn ordered_by_place(v: Seq<Span>) -> bool {
    forall|i: int, j: int| 0 <= i <= j < v.len() ==> #[trigger] no_later(v[i], v[j])
}

/// Whether a span replaces nothing.
pub open spec fn is_insertion(x: Span) -> bool {
    x.start == x.end
}

/// Whether insertions at one place insert the same text. So it is where there is
/// no more than one at each place.
pub open spec fn insertions_agree(v: Seq<Span>) -> bool {
    forall|i: int, j: int|
        0 <= i < v.len() && 0 <= j < v.len() && is_insertion(#[trigger] v[i]) && is_insertion(
            #[trigger] v[j],
        ) && v[i].start == v[j].start ==> v[i].new_text == v[j].new_text
}

proof fn lemma_inserted(ordered: Seq<Span>, x: Span)
    requires
        ordered_by_place(ordered),
    ensures
        ordered_by_place(inserted(ordered, x)),
        inserted(ordered, x).len() == ordered.len() + 1,
        forall|e: Span|
            #![trigger inserted(ordered, x).contains(e)]
            #![trigger ordered.contains(e)]
            inserted(ordered, x).contains(e) <==> e == x || ordered.contains(e),
    decreases ordered.len(),
{
    let out = inserted(ordered, x);
    if ordered.len() == 0 || no_later(ordered.last(), x) {
        assert(out.last() == x);
        assert forall|i: int, j: int| 0 <= i <= j < out.len() implies #[trigger] no_later(
            out[i],
            out[j],
        ) by {
            if i < ordered.len() && j == out.len() - 1 {
                assert(no_later(ordered[i], ordered[ordered.len() - 1]));
            } else if j < ordered.len() {
                assert(no_later(ordered[i], ordered[j]));
            }
        }
        assert forall|e: Span|
            #![trigger out.contains(e)]
            #![trigger ordered.contains(e)]
            out.contains(e) <==> e == x || ordered.contains(e) by {
            if ordered.contains(e) {
                let i = choose|i: int| 0 <= i < ordered.len() && ordered[i] == e;
                assert(out[i] == e);
            }
            if out.contains(e) && e != x {
                let i = choose|i: int| 0 <= i < out.len() && out[i] == e;
                assert(ordered[i] == e);
            }
        }
    } else {
        let front = ordered.drop_last();
        let mid = inserted(front, x);
        assert(ordered_by_place(front)) by {
            assert forall|i: int, j: int| 0 <= i <= j < front.len() implies #[trigger] no_later(
                front[i],
                front[j],
            ) by {
                assert(no_later(ordered[i], ordered[j]));
            }
        }
        lemma_inserted(front, x);
        assert forall|i: int, j: int| 0 <= i <= j < out.len() implies #[trigger] no_later(
            out[i],
            out[j],
        ) by {
            if j == out.len() - 1 && i < j {
                assert(mid.contains(mid[i]));
                if mid[i] != x {
                    let k = choose|k: int| 0 <= k < front.len() && front[k] == mid[i];
                    assert(no_later(ordered[k], ordered[ordered.len() - 1]));
                }
            } else if j < mid.len() {
                assert(no_later(mid[i], mid[j]));
            }
        }
        assert forall|e: Span|
            #![trigger out.contains(e)]
            #![trigger ordered.contains(e)]
            out.contains(e) <==> e == x || ordered.contains(e) by {
            if ordered.contains(e) {
                let i = choose|i: int| 0 <= i < ordered.len() && ordered[i] == e;
                if i < front.len() {
                    assert(front[i] == e);
                    assert(mid.contains(e));
                    let k = choose|k: int| 0 <= k < mid.len() && mid[k] == e;
                    assert(out[k] == e);
                } else {
                    assert(out[out.len() - 1] == e);
                }
            }
            if e == x {
                assert(mid.contains(x));
                let k = choose|k: int| 0 <= k < mid.len() && mid[k] == e;
                assert(out[k] == e);
            }
            if out.contains(e) {
                let i = choose|i: int| 0 <= i < out.len() && out[i] == e;
                if i < mid.len() {
                    assert(mid.contains(e));
                    if e != x {
                        let k = choose|k: int| 0 <= k < front.len() && front[k] == e;
                        assert(ordered[k] == e);
                    }
                } else {
                    assert(ordered[ordered.len() - 1] == e);
                }
            }
        }
    }
}

/// Ordering the spans keeps every one of them, adds none, and puts them in order.
pub proof fn ordering_keeps_spans(v: Seq<Span>)
    ensures
        ordered_by_place(by_place(v)),
        by_place(v).len() == v.len(),
        forall|e: Span|
            #![trigger by_place(v).contains(e)]
            #![trigger v.contains(e)]
            by_place(v).contains(e) <==> v.contains(e),
    decreases v.len(),
{
    if v.len() > 0 {
        let front = v.drop_last();
        ordering_keeps_spans(front);
        lemma_inserted(by_place(front), v.last());
        assert forall|e: Span|
            #![trigger by_place(v).contains(e)]
            #![trigger v.contains(e)]
            by_place(v).contains(e) <==> v.contains(e) by {
            if v.contains(e) {
                let i = choose|i: int| 0 <= i < v.len() && v[i] == e;
                if i < front.len() {
                    assert(front[i] == e);
                }
            }
            if front.contains(e) {
                let i = choose|i: int| 0 <= i < front.len() && front[i] == e;
                assert(v[i] == e);
            }
            if e == v.last() {
                assert(v[v.len() - 1] == e);
            }
        }
    }
}

/// Whether a span ends before it starts does not depend on the order.
proof fn lemma_inverted_by_place(v: Seq<Span>)
    ensures
        inverted(by_place(v)) == inverted(v),
{
    ordering_keeps_spans(v);
    let w = by_place(v);
    if inverted(v) {
        let i = choose|i: int| 0 <= i < v.len() && (#[trigger] v[i]).start > v[i].end;
        assert(v.contains(v[i]));
        let k = choose|k: int| 0 <= k < w.len() && w[k] == v[i];
        assert(w[k].start > w[k].end);
    }
    if inverted(w) {
        let i = choose|i: int| 0 <= i < w.len() && (#[trigger] w[i]).start > w[i].end;
        assert(w.contains(w[i]));
        let k = choose|k: int| 0 <= k < v.len() && v[k] == w[i];
        assert(v[k].start > v[k].end);
    }
}

proof fn lemma_inserted_multiset(ordered: Seq<Span>, x: Span)
    ensures
        inserted(ordered, x).to_multiset() == ordered.to_multiset().insert(x),
    decreases ordered.len(),
{
    broadcast use vstd::seq_lib::group_to_multiset_ensures;

    if ordered.len() == 0 || no_later(ordered.last(), x) {
    } else {
        let front = ordered.drop_last();
        lemma_inserted_multiset(front, x);
        assert(ordered =~= front.push(ordered.last()));
        assert(inserted(ordered, x).to_multiset() =~= ordered.to_multiset().insert(x));
    }
}

/// Ordering keeps how often each span occurs.
proof fn lemma_by_place_multiset(v: Seq<Span>)
    ensures
        by_place(v).to_multiset() == v.to_multiset(),
    decreases v.len(),
{
    broadcast use vstd::seq_lib::group_to_multiset_ensures;

    if v.len() > 0 {
        let front = v.drop_last();
        lemma_by_place_multiset(front);
        lemma_inserted_multiset(by_place(front), v.last());
        assert(v =~= front.push(v.last()));
    }
}

/// Lists that hold the same elements equally often hold the same elements.
proof fn lemma_same_members<A>(a: Seq<A>, b: Seq<A>)
    requires
        a.to_multiset() == b.to_multiset(),
    ensures
        a.len() == b.len(),
        forall|e: A|
            #![trigger a.contains(e)]
            #![trigger b.contains(e)]
            a.contains(e) == b.contains(e),
{
    vstd::seq_lib::to_multiset_len(a);
    vstd::seq_lib::to_multiset_len(b);
    assert forall|e: A|
        #![trigger a.contains(e)]
        #![trigger b.contains(e)]
        a.contains(e) == b.contains(e) by {
        vstd::seq_lib::to_multiset_contains(a, e);
        vstd::seq_lib::to_multiset_contains(b, e);
    }
}

/// Lists that hold the same elements equally often still do when each element is
/// mapped.
proof fn lemma_mapped_multiset<A, B>(a: Seq<A>, b: Seq<A>, f: spec_fn(A) -> B)
    requires
        a.to_multiset() == b.to_multiset(),
    ensures
        a.map_values(f).to_multiset() == b.map_values(f).to_multiset(),
    decreases a.len(),
{
    broadcast use vstd::seq_lib::group_to_multiset_ensures;

    assert(a.len() == a.to_multiset().len());
    assert(b.len() == b.to_multiset().len());
    if a.len() == 0 {
        assert(a.map_values(f) =~= b.map_values(f));
    } else {
        let x = a.last();
        let front = a.drop_last();
        assert(a =~= front.push(x));
        assert(a.contains(x));
        assert(a.to_multiset().count(x) > 0);
        assert(b.contains(x));
        let j = choose|j: int| 0 <= j < b.len() && b[j] == x;
        let rest = b.remove(j);
        assert(rest.to_multiset() =~= front.to_multiset());
        lemma_mapped_multiset(front, rest, f);
        let mb = b.map_values(f);
        assert(a.map_values(f) =~= front.map_values(f).push(f(x)));
        assert(rest.map_values(f) =~= mb.remove(j));
        assert(mb[j] == f(x));
        assert(mb.contains(mb[j]));
        assert(mb.to_multiset().count(f(x)) > 0);
        assert(mb.remove(j).to_multiset() == mb.to_multiset().remove(f(x)));
        assert(mb.remove(j).to_multiset().insert(f(x)) =~= mb.to_multiset());
    }
}

/// Where a span starts and ends.
spec fn place(x: Span) -> (nat, nat) {
    (x.start, x.end)
}

/// The places of spans.
spec fn places(v: Seq<Span>) -> Seq<(nat, nat)> {
    v.map_values(|x: Span| place(x))
}

/// Lists that hold the same spans equally often have the same places in order.
proof fn lemma_places_agree(a: Seq<Span>, b: Seq<Span>)
    requires
        a.to_multiset() == b.to_multiset(),
    ensures
        places(by_place(a)) == places(by_place(b)),
{
    ordering_keeps_spans(a);
    ordering_keeps_spans(b);
    lemma_by_place_multiset(a);
    lemma_by_place_multiset(b);
    lemma_ordered_places(by_place(a), by_place(b));
}

/// Ordered lists that hold the same spans equally often have the same places.
proof fn lemma_ordered_places(oa: Seq<Span>, ob: Seq<Span>)
    requires
        ordered_by_place(oa),
        ordered_by_place(ob),
        oa.to_multiset() == ob.to_multiset(),
    ensures
        places(oa) == places(ob),
{
    let leq = |p: (nat, nat), q: (nat, nat)| p.0 < q.0 || (p.0 == q.0 && p.1 <= q.1);
    lemma_mapped_multiset(oa, ob, |x: Span| place(x));
    assert(vstd::relations::sorted_by(places(oa), leq)) by {
        assert forall|i: int, j: int| 0 <= i < j < oa.len() implies #[trigger] leq(
            places(oa)[i],
            places(oa)[j],
        ) by {
            assert(no_later(oa[i], oa[j]));
        }
    }
    assert(vstd::relations::sorted_by(places(ob), leq)) by {
        assert forall|i: int, j: int| 0 <= i < j < ob.len() implies #[trigger] leq(
            places(ob)[i],
            places(ob)[j],
        ) by {
            assert(no_later(ob[i], ob[j]));
        }
    }
    assert(vstd::relations::total_ordering(leq));
    vstd::seq_lib::lemma_sorted_unique(places(oa), places(ob), leq);
}

/// Whether ordered spans overlap shows in their places.
proof fn lemma_overlap_of_places(a: Seq<Span>, b: Seq<Span>)
    requires
        places(a) == places(b),
    ensures
        overlapping(a) == overlapping(b),
        inverted(a) == inverted(b),
{
    assert(places(a).len() == a.len() && places(b).len() == b.len());
    assert forall|i: int| 0 <= i < a.len() implies (#[trigger] a[i]).start == b[i].start
        && a[i].end == b[i].end by {
        assert(places(a)[i] == place(a[i]));
        assert(places(b)[i] == place(b[i]));
    }
    if overlapping(a) {
        let i = choose|i: int|
            0 <= i && i + 1 < a.len() && (#[trigger] a[i]).end > a[i + 1].start;
        assert(a[i + 1].start == b[i + 1].start);
        assert(b[i].end > b[i + 1].start);
    }
    if overlapping(b) {
        let i = choose|i: int|
            0 <= i && i + 1 < b.len() && (#[trigger] b[i]).end > b[i + 1].start;
        assert(a[i].end == b[i].end);
        assert(a[i + 1].start == b[i + 1].start);
    }
    if inverted(a) {
        let i = choose|i: int| 0 <= i < a.len() && (#[trigger] a[i]).start > a[i].end;
        assert(b[i].start > b[i].end);
    }
    if inverted(b) {
        let i = choose|i: int| 0 <= i < b.len() && (#[trigger] b[i]).start > b[i].end;
        assert(a[i].start > a[i].end);
    }
}

/// Ordered lists that hold the same spans are equal, where the spans neither
/// overlap nor end before they start, and insertions at one place agree.
proof fn lemma_ordered_lists_agree(a: Seq<Span>, b: Seq<Span>)
    requires
        ordered_by_place(a),
        places(a) == places(b),
        a.to_multiset() == b.to_multiset(),
        !overlapping(a),
        !inverted(a),
        insertions_agree(b),
    ensures
        a == b,
{
    broadcast use vstd::seq_lib::group_to_multiset_ensures;

    assert(places(a).len() == a.len() && places(b).len() == b.len());
    assert forall|i: int| 0 <= i < a.len() implies #[trigger] a[i] == b[i] by {
        assert(a.contains(a[i]));
        assert(a.to_multiset().count(a[i]) > 0);
        assert(b.contains(a[i]));
        let j = choose|j: int| 0 <= j < b.len() && b[j] == a[i];
        assert(places(a)[i] == place(a[i]) && places(b)[i] == place(b[i]));
        assert(places(a)[j] == place(a[j]) && places(b)[j] == place(b[j]));
        if i != j {
            let low = if i < j {
                i
            } else {
                j
            };
            let high = if i < j {
                j
            } else {
                i
            };
            assert(a[low].end <= a[low + 1].start);
            assert(no_later(a[low + 1], a[high]));
            assert(a[low].start <= a[low].end);
            assert(is_insertion(b[i]) && is_insertion(b[j]));
        }
    }
    assert(a =~= b);
}

/// The span of one edit.
spec fn span_of(s: Seq<char>, e: TextEditView, encoding: PositionEncoding) -> Span {
    Span {
        start: position::offset_of(s, e.range.start, encoding).unwrap(),
        end: position::offset_of(s, e.range.end, encoding).unwrap(),
        new_text: e.new_text,
    }
}

/// Whether both ends of an edit have a line.
spec fn resolves(s: Seq<char>, e: TextEditView, encoding: PositionEncoding) -> bool {
    position::offset_of(s, e.range.start, encoding) is Some && position::offset_of(
        s,
        e.range.end,
        encoding,
    ) is Some
}

proof fn lemma_spans_of(s: Seq<char>, edits: Seq<TextEditView>, encoding: PositionEncoding)
    ensures
        spans_of(s, edits, encoding) is Ok <==> (forall|i: int|
            0 <= i < edits.len() ==> resolves(s, #[trigger] edits[i], encoding)),
        spans_of(s, edits, encoding) matches Ok(v) ==> v.len() == edits.len() && (forall|i: int|
            0 <= i < edits.len() ==> #[trigger] v[i] == span_of(s, edits[i], encoding)),
    decreases edits.len(),
{
    if edits.len() > 0 {
        let front = edits.drop_last();
        lemma_spans_of(s, front, encoding);
        if spans_of(s, edits, encoding) is Ok {
            assert forall|i: int| 0 <= i < edits.len() implies resolves(
                s,
                #[trigger] edits[i],
                encoding,
            ) by {
                if i < front.len() {
                    assert(resolves(s, front[i], encoding));
                }
            }
        } else if spans_of(s, front, encoding) is Err {
            let i = choose|i: int| 0 <= i < front.len() && !resolves(s, front[i], encoding);
            assert(!resolves(s, edits[i], encoding));
        } else {
            assert(!resolves(s, edits[edits.len() - 1], encoding));
        }
    }
}

/// The order in which the edits to a file are listed does not matter: listed
/// otherwise they are refused as well, and where their positions have a line, for
/// the same reason; and they make the same text, unless different texts are to be
/// inserted at one place.
pub proof fn order_of_edits_does_not_matter(
    s: Seq<char>,
    a: Seq<TextEditView>,
    b: Seq<TextEditView>,
    encoding: PositionEncoding,
)
    requires
        a.to_multiset() == b.to_multiset(),
    ensures
        spans_of(s, a, encoding) is Ok == spans_of(s, b, encoding) is Ok,
        rewritten(s, a, encoding) is Ok == rewritten(s, b, encoding) is Ok,
        spans_of(s, a, encoding) is Ok && rewritten(s, a, encoding) is Err ==> rewritten(
            s,
            a,
            encoding,
        ) == rewritten(s, b, encoding),
        (spans_of(s, a, encoding) matches Ok(v) && insertions_agree(v)) ==> rewritten(
            s,
            a,
            encoding,
        ) == rewritten(s, b, encoding),
{
    lemma_spans_of(s, a, encoding);
    lemma_spans_of(s, b, encoding);
    lemma_same_members(a, b);
    assert(spans_of(s, a, encoding) is Ok == spans_of(s, b, encoding) is Ok) by {
        if spans_of(s, a, encoding) is Ok {
            assert forall|i: int| 0 <= i < b.len() implies resolves(s, #[trigger] b[i], encoding) by {
                assert(b.contains(b[i]));
                let k = choose|k: int| 0 <= k < a.len() && a[k] == b[i];
                assert(resolves(s, a[k], encoding));
            }
        }
        if spans_of(s, b, encoding) is Ok {
            assert forall|i: int| 0 <= i < a.len() implies resolves(s, #[trigger] a[i], encoding) by {
                assert(a.contains(a[i]));
                let k = choose|k: int| 0 <= k < b.len() && b[k] == a[i];
                assert(resolves(s, b[k], encoding));
            }
        }
    }
    if spans_of(s, a, encoding) is Ok {
        let va = spans_of(s, a, encoding).unwrap();
        let vb = spans_of(s, b, encoding).unwrap();
        let f = |e: TextEditView| span_of(s, e, encoding);
        lemma_mapped_multiset(a, b, f);
        assert(va =~= a.map_values(f));
        assert(vb =~= b.map_values(f));
        lemma_places_agree(va, vb);
        lemma_overlap_of_places(by_place(va), by_place(vb));
        lemma_inverted_by_place(va);
        lemma_inverted_by_place(vb);
        lemma_by_place_multiset(va);
        lemma_by_place_multiset(vb);
        if insertions_agree(va) && !overlapping(by_place(va)) && !inverted(va) {
            let ob = by_place(vb);
            ordering_keeps_spans(va);
            lemma_same_members(va, ob);
            assert(insertions_agree(ob)) by {
                assert forall|i: int, j: int|
                    0 <= i < ob.len() && 0 <= j < ob.len() && is_insertion(#[trigger] ob[i])
                        && is_insertion(#[trigger] ob[j]) && ob[i].start
                        == ob[j].start implies ob[i].new_text == ob[j].new_text by {
                    assert(ob.contains(ob[i]) && ob.contains(ob[j]));
                    let k = choose|k: int| 0 <= k < va.len() && va[k] == ob[i];
                    let m = choose|m: int| 0 <= m < va.len() && va[m] == ob[j];
                    assert(va[k].new_text == va[m].new_text);
                }
            }
            lemma_ordered_lists_agree(by_place(va), ob);
        }
    }
}

/// An insertion and a replacement that starts at the same place can both be made:
/// the inserted text comes first.
pub proof fn insertion_comes_before_replacement(s: Seq<char>, x: Span, y: Span)
    requires
        is_insertion(x),
        x.start == y.start,
        y.start < y.end <= s.len(),
    ensures
        by_place(seq![y, x]) == seq![x, y],
        by_place(seq![x, y]) == seq![x, y],
        !overlapping(seq![x, y]),
        assembled(s, seq![x, y], 0) == s.take(x.start as int) + x.new_text + y.new_text + s.skip(
            y.end as int,
        ),
{
    reveal_with_fuel(by_place, 3);
    reveal_with_fuel(inserted, 3);
    reveal_with_fuel(assembled, 3);
    let v = seq![y, x];
    let w = seq![x, y];
    assert(v.drop_last() =~= seq![y]);
    assert(w.drop_last() =~= seq![x]);
    assert(seq![y].drop_last() =~= Seq::<Span>::empty());
    assert(seq![x].drop_last() =~= Seq::<Span>::empty());
    assert(by_place(seq![y]) =~= seq![y]);
    assert(by_place(seq![x]) =~= seq![x]);
    assert(by_place(w) =~= w);
    assert(by_place(v) =~= w);
    assert(w.skip(1) =~= seq![y]);
    assert(seq![y].skip(1) =~= Seq::<Span>::empty());
    assert(assembled(s, w, 0) =~= s.take(x.start as int) + x.new_text + y.new_text + s.skip(
        y.end as int,
    ));
}

/// Without edits a text stays as it is.
pub proof fn no_edits_keep_text(s: Seq<char>, encoding: PositionEncoding)
    ensures
        rewritten(s, seq![], encoding) == Ok::<Seq<char>, RewriteError>(s),
{
    assert(s.subrange(0, s.len() as int) =~= s);
}

/// One edit replaces the text that its range covers and keeps the rest.
pub proof fn one_edit_replaces_its_range(
    s: Seq<char>,
    e: TextEditView,
    encoding: PositionEncoding,
)
    requires
        position::covered_text(s, e.range, encoding) is Some,
    ensures
        rewritten(s, seq![e], encoding) == Ok::<Seq<char>, RewriteError>(
            s.take(position::offset_of(s, e.range.start, encoding).unwrap() as int) + e.new_text
                + s.skip(position::offset_of(s, e.range.end, encoding).unwrap() as int),
        ),
{
    reveal_with_fuel(spans_of, 2);
    reveal_with_fuel(by_place, 2);
    reveal_with_fuel(assembled, 2);
    let edits = seq![e];
    assert(edits.drop_last() =~= Seq::<TextEditView>::empty());
    let x = span_of(s, e, encoding);
    let v = seq![x];
    assert(spans_of(s, edits, encoding) == Ok::<Seq<Span>, Position>(Seq::<Span>::empty().push(x)));
    assert(Seq::<Span>::empty().push(x) =~= v);
    assert(v.drop_last() =~= Seq::<Span>::empty());
    assert(by_place(v) =~= v);
    assert(v.skip(1) =~= Seq::<Span>::empty());
    position::offset_stays_on_its_line(s, e.range.start, encoding);
    position::offset_stays_on_its_line(s, e.range.end, encoding);
    assert(assembled(s, v, 0) =~= s.take(x.start as int) + e.new_text + s.skip(x.end as int));
}

/// Edits that change nothing: replacing a range by the text that it covers
/// leaves the whole text as it is.
pub proof fn replacing_text_by_itself_keeps_it(
    s: Seq<char>,
    e: TextEditView,
    encoding: PositionEncoding,
)
    requires
        position::covered_text(s, e.range, encoding) == Some(e.new_text),
    ensures
        rewritten(s, seq![e], encoding) == Ok::<Seq<char>, RewriteError>(s),
{
    one_edit_replaces_its_range(s, e, encoding);
    position::offset_stays_on_its_line(s, e.range.start, encoding);
    position::offset_stays_on_its_line(s, e.range.end, encoding);
    let a = position::offset_of(s, e.range.start, encoding).unwrap() as int;
    let b = position::offset_of(s, e.range.end, encoding).unwrap() as int;
    assert(s.take(a) + s.subrange(a, b) + s.skip(b) =~= s);
}

/// What stands before the first edit and behind the last one is kept.
pub proof fn text_around_edits_is_kept(s: Seq<char>, ordered: Seq<Span>, from: int)
    requires
        ordered.len() > 0,
        !overlapping(ordered),
        !inverted(ordered),
        0 <= from <= ordered[0].start,
        forall|i: int| 0 <= i < ordered.len() ==> (#[trigger] ordered[i]).end <= s.len(),
    ensures
        assembled(s, ordered, from).len() >= (ordered[0].start - from) + (s.len()
            - ordered.last().end),
        assembled(s, ordered, from).take(ordered[0].start - from) == s.subrange(
            from,
            ordered[0].start as int,
        ),
        assembled(s, ordered, from).skip(
            assembled(s, ordered, from).len() - (s.len() - ordered.last().end),
        ) == s.skip(ordered.last().end as int),
    decreases ordered.len(),
{
    let x = ordered[0];
    assert(x.start <= x.end <= s.len());
    let rest = ordered.skip(1);
    let tail = assembled(s, rest, x.end as int);
    let all = assembled(s, ordered, from);
    let front = s.subrange(from, x.start as int) + x.new_text;
    assert(all == front + tail);
    assert(all.take(x.start - from) =~= s.subrange(from, x.start as int));
    if rest.len() == 0 {
        assert(ordered.last() == x);
        assert(all.skip(all.len() - (s.len() - x.end)) =~= s.skip(x.end as int));
    } else {
        assert(rest.last() == ordered.last());
        assert forall|i: int| 0 <= i < rest.len() implies (#[trigger] rest[i]).end <= s.len() by {
            assert(rest[i] == ordered[i + 1]);
        }
        assert(!overlapping(rest)) by {
            if overlapping(rest) {
                let i = choose|i: int|
                    0 <= i && i + 1 < rest.len() && (#[trigger] rest[i]).end > rest[i + 1].start;
                assert(ordered[i + 1].end > ordered[i + 1 + 1].start);
            }
        }
        assert(!inverted(rest)) by {
            if inverted(rest) {
                let i = choose|i: int|
                    0 <= i < rest.len() && (#[trigger] rest[i]).start > rest[i].end;
                assert(ordered[i + 1].start > ordered[i + 1].end);
            }
        }
        assert(x.end <= rest[0].start) by {
            assert(ordered[0].end <= ordered[1].start);
        }
        text_around_edits_is_kept(s, rest, x.end as int);
        let keep = s.len() - ordered.last().end;
        assert(all.skip(all.len() - keep) =~= tail.skip(tail.len() - keep));
    }
}

/// By how much a span makes a text longer.
pub open spec fn growth(x: Span) -> int {
    x.new_text.len() - (x.end - x.start)
}

/// By how much the first `k` spans of a list make a text longer.
pub open spec fn growth_before(ordered: Seq<Span>, k: int) -> int
    decreases k,
{
    if k <= 0 {
        0
    } else {
        growth_before(ordered, k - 1) + growth(ordered[k - 1])
    }
}

/// Where the text behind span `k` ends: where the next one starts, or the text ends.
pub open spec fn next_start(s: Seq<char>, ordered: Seq<Span>, k: int) -> int {
    if k + 1 < ordered.len() {
        ordered[k + 1].start as int
    } else {
        s.len() as int
    }
}

/// Whether the new text of span `k` stands in `out`, the text from `from` on, where
/// the span started, moved by what the spans before it have added or taken away.
pub open spec fn stands_in(out: Seq<char>, ordered: Seq<Span>, from: int, k: int) -> bool {
    let at = ordered[k].start + growth_before(ordered, k) - from;
    0 <= at && at + ordered[k].new_text.len() <= out.len() && out.subrange(
        at,
        at + ordered[k].new_text.len(),
    ) == ordered[k].new_text
}

/// Whether what stood in `s` behind span `k`, up to the next one, stands in `out`, the
/// text from `from` on, moved by what the spans so far have added or taken away.
pub open spec fn is_kept_behind(
    s: Seq<char>,
    out: Seq<char>,
    ordered: Seq<Span>,
    from: int,
    k: int,
) -> bool {
    let by = growth_before(ordered, k + 1) - from;
    let next = next_start(s, ordered, k);
    0 <= ordered[k].end + by && ordered[k].end <= next && next + by <= out.len() && out.subrange(
        ordered[k].end + by,
        next + by,
    ) == s.subrange(ordered[k].end as int, next)
}

/// Whether `out` is the text from `from` on with every span replaced by its new
/// text, and all that stood between the spans kept.
pub open spec fn replaces_every_span(
    s: Seq<char>,
    ordered: Seq<Span>,
    from: int,
    out: Seq<char>,
) -> bool {
    &&& out.len() == s.len() - from + growth_before(ordered, ordered.len() as int)
    &&& ordered.len() == 0 ==> out == s.skip(from)
    &&& ordered.len() > 0 ==> out.take(ordered[0].start - from) == s.subrange(
        from,
        ordered[0].start as int,
    )
    &&& forall|k: int| 0 <= k < ordered.len() ==> #[trigger] stands_in(out, ordered, from, k)
    &&& forall|k: int|
        0 <= k < ordered.len() ==> #[trigger] is_kept_behind(s, out, ordered, from, k)
}

proof fn lemma_growth_behind_first(ordered: Seq<Span>, k: int)
    requires
        0 <= k < ordered.len(),
    ensures
        growth_before(ordered, k + 1) == growth(ordered[0]) + growth_before(ordered.skip(1), k),
    decreases k,
{
    if k > 0 {
        lemma_growth_behind_first(ordered, k - 1);
        assert(ordered.skip(1)[k - 1] == ordered[k]);
    } else {
        assert(growth_before(ordered, 0) == 0);
    }
}

proof fn lemma_assembled_replaces(s: Seq<char>, ordered: Seq<Span>, from: int)
    requires
        !overlapping(ordered),
        !inverted(ordered),
        0 <= from <= s.len(),
        ordered.len() > 0 ==> from <= ordered[0].start,
        forall|i: int| 0 <= i < ordered.len() ==> (#[trigger] ordered[i]).end <= s.len(),
    ensures
        replaces_every_span(s, ordered, from, assembled(s, ordered, from)),
    decreases ordered.len(),
{
    let out = assembled(s, ordered, from);
    if ordered.len() == 0 {
        assert(out =~= s.skip(from));
    } else {
        let x = ordered[0];
        let rest = ordered.skip(1);
        assert(x.start <= x.end <= s.len());
        assert forall|i: int| 0 <= i < rest.len() implies (#[trigger] rest[i]).end <= s.len() by {
            assert(rest[i] == ordered[i + 1]);
        }
        assert(!overlapping(rest)) by {
            if overlapping(rest) {
                let i = choose|i: int|
                    0 <= i && i + 1 < rest.len() && (#[trigger] rest[i]).end > rest[i + 1].start;
                assert(ordered[i + 1].end > ordered[i + 1 + 1].start);
            }
        }
        assert(!inverted(rest)) by {
            if inverted(rest) {
                let i = choose|i: int|
                    0 <= i < rest.len() && (#[trigger] rest[i]).start > rest[i].end;
                assert(ordered[i + 1].start > ordered[i + 1].end);
            }
        }
        if rest.len() > 0 {
            assert(ordered[0].end <= ordered[1].start);
        }
        let to = x.end as int;
        lemma_assembled_replaces(s, rest, to);
        let tail = assembled(s, rest, to);
        let front = s.subrange(from, x.start as int) + x.new_text;
        assert(out == front + tail);
        lemma_growth_behind_first(ordered, ordered.len() - 1);
        assert(out.take(x.start - from) =~= s.subrange(from, x.start as int));
        assert forall|k: int| 0 <= k < ordered.len() implies #[trigger] stands_in(
            out,
            ordered,
            from,
            k,
        ) by {
            if k > 0 {
                assert(stands_in(tail, rest, to, k - 1));
            }
            lemma_stands_in(s, ordered, from, tail, k);
        }
        assert forall|k: int| 0 <= k < ordered.len() implies #[trigger] is_kept_behind(
            s,
            out,
            ordered,
            from,
            k,
        ) by {
            if k > 0 {
                assert(is_kept_behind(s, tail, rest, to, k - 1));
            }
            lemma_is_kept_behind(s, ordered, from, tail, k);
        }
    }
}

proof fn lemma_stands_in(s: Seq<char>, ordered: Seq<Span>, from: int, tail: Seq<char>, k: int)
    requires
        0 <= k < ordered.len(),
        0 <= from <= ordered[0].start <= ordered[0].end <= s.len(),
        k > 0 ==> stands_in(tail, ordered.skip(1), ordered[0].end as int, k - 1),
    ensures
        stands_in(
            s.subrange(from, ordered[0].start as int) + ordered[0].new_text + tail,
            ordered,
            from,
            k,
        ),
{
    let x = ordered[0];
    let front = s.subrange(from, x.start as int) + x.new_text;
    let out = front + tail;
    let at = ordered[k].start + growth_before(ordered, k) - from;
    if k == 0 {
        assert(out.subrange(at, at + x.new_text.len()) =~= x.new_text);
    } else {
        let rest = ordered.skip(1);
        lemma_growth_behind_first(ordered, k - 1);
        let y = rest[k - 1];
        assert(y == ordered[k]);
        let inner = y.start + growth_before(rest, k - 1) - x.end;
        assert(at == front.len() + inner);
        assert(out.subrange(at, at + y.new_text.len()) =~= tail.subrange(
            inner,
            inner + y.new_text.len(),
        ));
    }
}

proof fn lemma_is_kept_behind(
    s: Seq<char>,
    ordered: Seq<Span>,
    from: int,
    tail: Seq<char>,
    k: int,
)
    requires
        0 <= k < ordered.len(),
        0 <= from <= ordered[0].start <= ordered[0].end <= s.len(),
        replaces_every_span(s, ordered.skip(1), ordered[0].end as int, tail),
        ordered.len() > 1 ==> ordered[0].end <= ordered[1].start <= s.len(),
    ensures
        is_kept_behind(
            s,
            s.subrange(from, ordered[0].start as int) + ordered[0].new_text + tail,
            ordered,
            from,
            k,
        ),
{
    let x = ordered[0];
    let to = x.end as int;
    let front = s.subrange(from, x.start as int) + x.new_text;
    let out = front + tail;
    let rest = ordered.skip(1);
    let by = growth_before(ordered, k + 1) - from;
    let next = next_start(s, ordered, k);
    lemma_growth_behind_first(ordered, k);
    if k == 0 {
        assert(growth_before(rest, 0) == 0);
        assert(x.end + by == front.len());
        if rest.len() > 0 {
            assert(rest[0] == ordered[1]);
            assert(stands_in(tail, rest, to, 0));
            assert(tail.take(next - to) == s.subrange(to, next));
            assert(out.subrange(x.end + by, next + by) =~= tail.take(next - to));
        } else {
            assert(growth_before(rest, rest.len() as int) == 0);
            assert(tail == s.skip(to));
            assert(out.subrange(x.end + by, next + by) =~= s.subrange(to, next));
        }
    } else {
        let y = rest[k - 1];
        assert(y == ordered[k]);
        assert(is_kept_behind(s, tail, rest, to, k - 1));
        let inner = growth_before(rest, k) - to;
        assert(next_start(s, rest, k - 1) == next);
        assert(y.end + by == front.len() + y.end + inner);
        assert(out.subrange(y.end + by, next + by) =~= tail.subrange(
            y.end + inner,
            next + inner,
        ));
    }
}

/// Whether spans are those of edits, one for one: each from the offset of the start
/// of its edit's range to the offset of its end, with the new text of the edit.
pub open spec fn spans_are_of(
    s: Seq<char>,
    edits: Seq<TextEditView>,
    encoding: PositionEncoding,
    spans: Seq<Span>,
) -> bool {
    &&& spans.len() == edits.len()
    &&& forall|i: int|
        0 <= i < edits.len() ==> position::offset_of(s, edits[i].range.start, encoding) == Some(
            (#[trigger] spans[i]).start,
        ) && position::offset_of(s, edits[i].range.end, encoding) == Some(spans[i].end)
            && spans[i].new_text == edits[i].new_text
}

/// Every edit is made, however many there are: the text that comes out is the text
/// that went in, with the new text of each edit where its range was and all else
/// where it was, moved by what the edits before it have added or taken away.
pub proof fn every_edit_is_made(
    s: Seq<char>,
    edits: Seq<TextEditView>,
    encoding: PositionEncoding,
)
    requires
        rewritten(s, edits, encoding) is Ok,
    ensures
        exists|spans: Seq<Span>, ordered: Seq<Span>|
            #![trigger spans_are_of(s, edits, encoding, spans), ordered_by_place(ordered)]
            spans_are_of(s, edits, encoding, spans) && ordered_by_place(ordered)
                && ordered.to_multiset() == spans.to_multiset() && replaces_every_span(
                s,
                ordered,
                0,
                rewritten(s, edits, encoding)->Ok_0,
            ),
{
    let v = spans_of(s, edits, encoding).unwrap();
    let ordered = by_place(v);
    lemma_spans_of(s, edits, encoding);
    lemma_by_place_multiset(v);
    ordering_keeps_spans(v);
    lemma_inverted_by_place(v);
    assert forall|i: int| 0 <= i < edits.len() implies position::offset_of(
        s,
        edits[i].range.start,
        encoding,
    ) == Some((#[trigger] v[i]).start) && position::offset_of(s, edits[i].range.end, encoding)
        == Some(v[i].end) && v[i].new_text == edits[i].new_text by {
        assert(resolves(s, edits[i], encoding));
    }
    assert(spans_are_of(s, edits, encoding, v));
    assert forall|i: int| 0 <= i < ordered.len() implies (#[trigger] ordered[i]).end
        <= s.len() by {
        assert(ordered.contains(ordered[i]));
        let j = choose|j: int| 0 <= j < v.len() && v[j] == ordered[i];
        assert(position::offset_of(s, edits[j].range.end, encoding) == Some(v[j].end));
        position::offset_stays_on_its_line(s, edits[j].range.end, encoding);
    }
    lemma_assembled_replaces(s, ordered, 0);
}

/// A text in which spans have been replaced one at a time, from the last to the
/// first: what stands before a span, its new text, and what stands behind it.
pub open spec fn spliced(s: Seq<char>, ordered: Seq<Span>) -> Seq<char>
    decreases ordered.len(),
{
    if ordered.len() == 0 {
        s
    } else {
        let x = ordered.last();
        spliced(
            s.take(x.start as int) + x.new_text + s.skip(x.end as int),
            ordered.drop_last(),
        )
    }
}

proof fn lemma_assembled_is_spliced(s: Seq<char>, ordered: Seq<Span>)
    requires
        !overlapping(ordered),
        !inverted(ordered),
        forall|i: int| 0 <= i < ordered.len() ==> (#[trigger] ordered[i]).end <= s.len(),
    ensures
        assembled(s, ordered, 0) == spliced(s, ordered),
    decreases ordered.len(),
{
    if ordered.len() == 0 {
        assert(s.subrange(0, s.len() as int) =~= s);
    } else {
        let x = ordered.last();
        let front = ordered.drop_last();
        let once = s.take(x.start as int) + x.new_text + s.skip(x.end as int);
        assert(x == ordered[ordered.len() - 1]);
        assert(x.start <= x.end <= s.len());
        assert(!overlapping(front)) by {
            if overlapping(front) {
                let i = choose|i: int|
                    0 <= i && i + 1 < front.len() && (#[trigger] front[i]).end
                        > front[i + 1].start;
                assert(ordered[i].end > ordered[i + 1].start);
            }
        }
        assert(!inverted(front)) by {
            if inverted(front) {
                let i = choose|i: int|
                    0 <= i < front.len() && (#[trigger] front[i]).start > front[i].end;
                assert(ordered[i].start > ordered[i].end);
            }
        }
        assert forall|i: int| 0 <= i < front.len() implies (#[trigger] front[i]).end
            <= x.start by {
            lemma_ends_before(ordered, i, ordered.len() - 1);
            assert(front[i] == ordered[i]);
        }
        lemma_last_span_first(s, once, ordered, 0);
        lemma_assembled_is_spliced(once, front);
    }
}

/// Spans that do not overlap follow each other.
proof fn lemma_ends_before(ordered: Seq<Span>, i: int, j: int)
    requires
        !overlapping(ordered),
        !inverted(ordered),
        0 <= i < j < ordered.len(),
    ensures
        ordered[i].end <= ordered[j].start,
    decreases j - i,
{
    assert(ordered[i].end <= ordered[i + 1].start);
    if i + 1 < j {
        lemma_ends_before(ordered, i + 1, j);
        assert(ordered[i + 1].start <= ordered[i + 1].end);
    }
}

/// Replacing the last span first changes nothing for the others.
proof fn lemma_last_span_first(s: Seq<char>, once: Seq<char>, ordered: Seq<Span>, from: int)
    requires
        ordered.len() > 0,
        !overlapping(ordered),
        !inverted(ordered),
        0 <= from <= ordered[0].start,
        ordered.last().end <= s.len(),
        once == s.take(ordered.last().start as int) + ordered.last().new_text + s.skip(
            ordered.last().end as int,
        ),
    ensures
        assembled(s, ordered, from) == assembled(once, ordered.drop_last(), from),
    decreases ordered.len(),
{
    let x = ordered[0];
    let last = ordered.last();
    let rest = ordered.skip(1);
    assert(last == ordered[ordered.len() - 1]);
    assert(last.start <= last.end);
    if ordered.len() == 1 {
        reveal_with_fuel(assembled, 2);
        assert(ordered.drop_last() =~= Seq::<Span>::empty());
        assert(rest =~= Seq::<Span>::empty());
        assert(assembled(s, ordered, from) =~= once.subrange(from, once.len() as int));
    } else {
        assert(!overlapping(rest)) by {
            if overlapping(rest) {
                let i = choose|i: int|
                    0 <= i && i + 1 < rest.len() && (#[trigger] rest[i]).end > rest[i + 1].start;
                assert(ordered[i + 1].end > ordered[i + 1 + 1].start);
            }
        }
        assert(!inverted(rest)) by {
            if inverted(rest) {
                let i = choose|i: int|
                    0 <= i < rest.len() && (#[trigger] rest[i]).start > rest[i].end;
                assert(ordered[i + 1].start > ordered[i + 1].end);
            }
        }
        assert(rest.last() == last);
        assert(x.end <= rest[0].start) by {
            assert(ordered[0].end <= ordered[1].start);
        }
        assert(x.start <= x.end);
        lemma_ends_before(ordered, 0, ordered.len() - 1);
        lemma_last_span_first(s, once, rest, x.end as int);
        let front = ordered.drop_last();
        assert(front[0] == x);
        assert(front.skip(1) =~= rest.drop_last());
        assert(once.subrange(from, x.start as int) =~= s.subrange(from, x.start as int));
    }
}

/// Rewriting is splicing: the edits are made one after the other from the last to the
/// first, so that none moves another.
pub proof fn edits_are_spliced_from_the_back(
    s: Seq<char>,
    edits: Seq<TextEditView>,
    encoding: PositionEncoding,
)
    requires
        rewritten(s, edits, encoding) is Ok,
    ensures
        exists|spans: Seq<Span>, ordered: Seq<Span>|
            #![trigger spans_are_of(s, edits, encoding, spans), ordered_by_place(ordered)]
            spans_are_of(s, edits, encoding, spans) && ordered_by_place(ordered)
                && ordered.to_multiset() == spans.to_multiset() && rewritten(s, edits, encoding)
                == Ok::<Seq<char>, RewriteError>(spliced(s, ordered)),
{
    let v = spans_of(s, edits, encoding).unwrap();
    let ordered = by_place(v);
    lemma_spans_of(s, edits, encoding);
    lemma_by_place_multiset(v);
    ordering_keeps_spans(v);
    lemma_inverted_by_place(v);
    assert forall|i: int| 0 <= i < edits.len() implies position::offset_of(
        s,
        edits[i].range.start,
        encoding,
    ) == Some((#[trigger] v[i]).start) && position::offset_of(s, edits[i].range.end, encoding)
        == Some(v[i].end) && v[i].new_text == edits[i].new_text by {
        assert(resolves(s, edits[i], encoding));
    }
    assert(spans_are_of(s, edits, encoding, v));
    assert forall|i: int| 0 <= i < ordered.len() implies (#[trigger] ordered[i]).end
        <= s.len() by {
        assert(ordered.contains(ordered[i]));
        let j = choose|j: int| 0 <= j < v.len() && v[j] == ordered[i];
        assert(position::offset_of(s, edits[j].range.end, encoding) == Some(v[j].end));
        position::offset_stays_on_its_line(s, edits[j].range.end, encoding);
    }
    lemma_assembled_is_spliced(s, ordered);
}

/// Whether two spans reach into each other.
pub open spec fn collide(a: Span, b: Span) -> bool {
    a.start < b.end && b.start < a.end
}

/// Edits that end no sooner than they start are refused exactly where two of them
/// reach into each other. Edits that only touch are not.
pub proof fn colliding_edits_are_refused(
    s: Seq<char>,
    edits: Seq<TextEditView>,
    encoding: PositionEncoding,
    spans: Seq<Span>,
)
    requires
        spans_are_of(s, edits, encoding, spans),
        forall|i: int| 0 <= i < spans.len() ==> (#[trigger] spans[i]).start <= spans[i].end,
    ensures
        rewritten(s, edits, encoding) is Ok || rewritten(s, edits, encoding) == Err::<
            Seq<char>,
            RewriteError,
        >(RewriteError::Overlapping),
        rewritten(s, edits, encoding) is Err <==> exists|ordered: Seq<Span>, i: int, j: int|
            #![trigger ordered_by_place(ordered), collide(ordered[i], ordered[j])]
            ordered_by_place(ordered) && ordered.to_multiset() == spans.to_multiset() && 0 <= i < j
                < ordered.len() && collide(ordered[i], ordered[j]),
{
    let v = spans_of(s, edits, encoding).unwrap();
    lemma_spans_of(s, edits, encoding);
    assert(spans_of(s, edits, encoding) is Ok) by {
        if spans_of(s, edits, encoding) is Err {
            let i = choose|i: int| 0 <= i < edits.len() && !resolves(s, edits[i], encoding);
            assert(position::offset_of(s, edits[i].range.start, encoding) == Some(
                spans[i].start,
            ));
        }
    }
    assert(v =~= spans) by {
        assert forall|i: int| 0 <= i < edits.len() implies v[i] == spans[i] by {
            assert(resolves(s, edits[i], encoding));
            assert(position::offset_of(s, edits[i].range.start, encoding) == Some(
                spans[i].start,
            ));
        }
    }
    let ordered = by_place(v);
    lemma_by_place_multiset(v);
    ordering_keeps_spans(v);
    lemma_inverted_by_place(v);
    assert(!inverted(v));
    assert(!inverted(ordered));
    if overlapping(ordered) {
        let i = choose|i: int|
            0 <= i && i + 1 < ordered.len() && (#[trigger] ordered[i]).end > ordered[i + 1].start;
        assert(no_later(ordered[i], ordered[i + 1]));
        assert(ordered[i + 1].start <= ordered[i + 1].end);
        assert(collide(ordered[i], ordered[i + 1]));
    } else {
        assert forall|other: Seq<Span>, i: int, j: int|
            #![trigger ordered_by_place(other), collide(other[i], other[j])]
            ordered_by_place(other) && other.to_multiset() == spans.to_multiset() && 0 <= i < j
                < other.len() implies !collide(other[i], other[j]) by {
            lemma_ordered_places(other, ordered);
            lemma_same_members(other, ordered);
            assert(places(other)[i] == place(other[i]) && places(other)[j] == place(other[j]));
            assert(places(ordered)[i] == place(ordered[i]) && places(ordered)[j] == place(
                ordered[j],
            ));
            lemma_ends_before(ordered, i, j);
        }
    }
}

/// Spans with the same ends keep the order in which their edits are listed.
pub proof fn edits_at_one_place_keep_their_order(v: Seq<Span>, start: nat, end: nat)
    ensures
        by_place(v).filter(|x: Span| x.start == start && x.end == end) == v.filter(
            |x: Span| x.start == start && x.end == end,
        ),
    decreases v.len(),
{
    let p = |x: Span| x.start == start && x.end == end;
    reveal(Seq::filter);
    if v.len() > 0 {
        let front = v.drop_last();
        edits_at_one_place_keep_their_order(front, start, end);
        ordering_keeps_spans(front);
        lemma_inserted_filter(by_place(front), v.last(), p, start, end);
    } else {
        assert(by_place(v) =~= v);
    }
}

proof fn lemma_inserted_filter(
    ordered: Seq<Span>,
    x: Span,
    p: spec_fn(Span) -> bool,
    start: nat,
    end: nat,
)
    requires
        ordered_by_place(ordered),
        p == (|x: Span| x.start == start && x.end == end),
    ensures
        inserted(ordered, x).filter(p) == if p(x) {
            ordered.filter(p).push(x)
        } else {
            ordered.filter(p)
        },
    decreases ordered.len(),
{
    reveal(Seq::filter);
    if ordered.len() == 0 || no_later(ordered.last(), x) {
        assert(ordered.push(x).drop_last() =~= ordered);
    } else {
        let front = ordered.drop_last();
        let last = ordered.last();
        assert(ordered_by_place(front)) by {
            assert forall|i: int, j: int| 0 <= i <= j < front.len() implies #[trigger] no_later(
                front[i],
                front[j],
            ) by {
                assert(no_later(ordered[i], ordered[j]));
            }
        }
        lemma_inserted_filter(front, x, p, start, end);
        let mid = inserted(front, x);
        assert(mid.push(last).drop_last() =~= mid);
        if p(x) {
            assert(!p(last));
        }
    }
}

} // verus!
