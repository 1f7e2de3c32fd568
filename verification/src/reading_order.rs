//! Reading order: a stable, deterministic top-to-bottom, left-to-right
//! ordering of text boxes.
//!
//! Boxes are bucketed into rows 30 pixels tall — a heuristic tolerance
//! for boxes on the same visual line despite small vertical jitter, a
//! tunable rather than a law of nature. Rows are ordered ascending;
//! within a row, boxes are ordered by their left edge; boxes with equal
//! row and left edge keep their original relative order.

use vstd::prelude::*;
use crate::geometry::TextBoxData;
use crate::geometry::TextBoxView;
use crate::geometry::views_of;

verus! {

/// Height of a reading-order row bucket, in subpixel units (30 pixels).
pub const ROW_BUCKET: i64 = 30_000;

/// The row bucket a box falls in.
pub open spec fn row_of(b: TextBoxView) -> int {
    b.y / (ROW_BUCKET as int)
}

/// The reading order on boxes: earlier row first; within a row, smaller
/// left edge first. Reflexive and total.
pub open spec fn key_le(a: TextBoxView, b: TextBoxView) -> bool {
    row_of(a) < row_of(b) || (row_of(a) == row_of(b) && a.x <= b.x)
}

/// Whether a sequence is ordered for reading.
pub open spec fn sorted_by_key(s: Seq<TextBoxView>) -> bool {
    forall|i: int, j: int| 0 <= i < j < s.len() ==> key_le(#[trigger] s[i], #[trigger] s[j])
}

/// `b` placed after every leading element that does not come after it:
/// the stable insertion underlying the sort.
pub open spec fn insert_sorted(s: Seq<TextBoxView>, b: TextBoxView) -> Seq<TextBoxView>
    decreases s.len(),
{
    if s.len() == 0 {
        seq![b]
    } else if !key_le(s.first(), b) {
        seq![b] + s
    } else {
        seq![s.first()] + insert_sorted(s.drop_first(), b)
    }
}

/// The reading-order sort: each box inserted, in encounter order, after
/// everything that does not come after it.
pub open spec fn sort_views(s: Seq<TextBoxView>) -> Seq<TextBoxView>
    decreases s.len(),
{
    if s.len() == 0 {
        Seq::empty()
    } else {
        insert_sorted(sort_views(s.drop_last()), s.last())
    }
}

/// The boxes of `s` whose key is exactly `(r, x)`, in their order in
/// `s`.
pub open spec fn filter_key(s: Seq<TextBoxView>, r: int, x: int) -> Seq<TextBoxView> {
    s.filter(|b: TextBoxView| row_of(b) == r && b.x == x)
}

/// Inserting keeps a sequence ordered.
proof fn lemma_insert_sorted_ordered(s: Seq<TextBoxView>, b: TextBoxView)
    requires
        sorted_by_key(s),
    ensures
        sorted_by_key(insert_sorted(s, b)),
        insert_sorted(s, b).len() == s.len() + 1,
    decreases s.len(),
{
    let out = insert_sorted(s, b);
    if s.len() == 0 {
    } else if !key_le(s.first(), b) {
        assert forall|i: int, j: int| 0 <= i < j < out.len() implies key_le(
            #[trigger] out[i],
            #[trigger] out[j],
        ) by {
            if i == 0 {
                assert(key_le(b, s.first()));
                assert(out[j] == s[j - 1]);
                if j > 1 {
                    assert(key_le(s[0], s[j - 1]));
                }
            } else {
                assert(out[i] == s[i - 1] && out[j] == s[j - 1]);
            }
        }
    } else {
        let rest = s.drop_first();
        assert(sorted_by_key(rest)) by {
            assert(forall|i: int| 0 <= i < rest.len() ==> rest[i] == s[i + 1]);
        }
        lemma_insert_sorted_ordered(rest, b);
        let sub = insert_sorted(rest, b);
        assert forall|i: int, j: int| 0 <= i < j < out.len() implies key_le(
            #[trigger] out[i],
            #[trigger] out[j],
        ) by {
            if i == 0 {
                assert(out[0] == s.first());
                assert(out[j] == sub[j - 1]);
                // out[j] is either b or an element of the tail of s;
                // the head comes before both.
                lemma_insert_sorted_splits(rest, b, j - 1);
                if sub[j - 1] == b {
                    assert(key_le(s.first(), b));
                } else {
                    let t = choose|t: int| 0 <= t < rest.len() && sub[j - 1] == rest[t];
                    assert(key_le(s[0], s[t + 1]));
                }
            } else {
                assert(out[i] == sub[i - 1] && out[j] == sub[j - 1]);
            }
        }
    }
}

/// Every element of an insertion result is the inserted box or an
/// element of the original sequence.
proof fn lemma_insert_sorted_splits(s: Seq<TextBoxView>, b: TextBoxView, i: int)
    requires
        0 <= i < insert_sorted(s, b).len(),
    ensures
        insert_sorted(s, b)[i] == b || exists|t: int|
            0 <= t < s.len() && insert_sorted(s, b)[i] == s[t],
    decreases s.len(),
{
    let out = insert_sorted(s, b);
    if s.len() == 0 {
    } else if !key_le(s.first(), b) {
        if i > 0 {
            assert(out[i] == s[i - 1]);
        }
    } else {
        if i == 0 {
            assert(out[0] == s[0]);
        } else {
            lemma_insert_sorted_splits(s.drop_first(), b, i - 1);
            let sub = insert_sorted(s.drop_first(), b);
            assert(out[i] == sub[i - 1]);
            if sub[i - 1] != b {
                let t = choose|t: int|
                    0 <= t < s.drop_first().len() && sub[i - 1] == s.drop_first()[t];
                assert(out[i] == s[t + 1]);
            }
        }
    }
}

/// A filter over boxes that all have strictly later keys is empty.
proof fn lemma_filter_key_empty(s: Seq<TextBoxView>, r: int, x: int)
    requires
        forall|i: int| 0 <= i < s.len() ==> !(row_of(#[trigger] s[i]) == r && s[i].x == x),
    ensures
        filter_key(s, r, x) == Seq::<TextBoxView>::empty(),
    decreases s.len(),
{
    reveal(Seq::filter);
    if s.len() > 0 {
        assert(forall|i: int| 0 <= i < s.len() - 1 ==> s.drop_last()[i] == s[i]);
        lemma_filter_key_empty(s.drop_last(), r, x);
    }
}

/// Stable insertion leaves every key class exactly as appending would:
/// the inserted box lands after all boxes of its own class.
proof fn lemma_insert_sorted_filter(s: Seq<TextBoxView>, b: TextBoxView, r: int, x: int)
    requires
        sorted_by_key(s),
    ensures
        filter_key(insert_sorted(s, b), r, x) == filter_key(s.push(b), r, x),
    decreases s.len(),
{
    broadcast use Seq::lemma_filter_push;
    broadcast use Seq::filter_distributes_over_add;

    let pred = |c: TextBoxView| row_of(c) == r && c.x == x;
    if s.len() == 0 {
        assert(insert_sorted(s, b) =~= s.push(b));
    } else if !key_le(s.first(), b) {
        assert(insert_sorted(s, b) == seq![b] + s);
        assert(seq![b] =~= Seq::<TextBoxView>::empty().push(b));
        assert(seq![b].filter(pred) == Seq::<TextBoxView>::empty().filter(pred).push(b) || seq![
            b,
        ].filter(pred) == Seq::<TextBoxView>::empty().filter(pred));
        assert(Seq::<TextBoxView>::empty().filter(pred) =~= Seq::<TextBoxView>::empty()) by {
            reveal(Seq::filter);
        }
        if pred(b) {
            // every element of s comes strictly after b, so none is in
            // b's key class and both sides are just [b]
            assert forall|i: int|
                0 <= i < s.len() implies !(row_of(#[trigger] s[i]) == r && s[i].x == x) by {
                assert(key_le(s[0], s[i]) || i == 0);
                assert(!key_le(s[i], b));
            }
            lemma_filter_key_empty(s, r, x);
            assert((seq![b] + s).filter(pred) =~= seq![b].filter(pred) + s.filter(pred));
            assert(s.push(b).filter(pred) =~= s.filter(pred).push(b));
            assert((seq![b] + s).filter(pred) =~= s.push(b).filter(pred));
        } else {
            assert((seq![b] + s).filter(pred) =~= seq![b].filter(pred) + s.filter(pred));
            assert(seq![b].filter(pred) =~= Seq::<TextBoxView>::empty());
            assert(s.push(b).filter(pred) =~= s.filter(pred));
            assert((seq![b] + s).filter(pred) =~= s.push(b).filter(pred));
        }
    } else {
        let rest = s.drop_first();
        assert(sorted_by_key(rest)) by {
            assert(forall|i: int| 0 <= i < rest.len() ==> rest[i] == s[i + 1]);
        }
        lemma_insert_sorted_filter(rest, b, r, x);
        let head = seq![s.first()];
        assert(insert_sorted(s, b) == head + insert_sorted(rest, b));
        assert((head + insert_sorted(rest, b)).filter(pred) =~= head.filter(pred) + insert_sorted(
            rest,
            b,
        ).filter(pred));
        assert(s.push(b) =~= head + rest.push(b));
        assert((head + rest.push(b)).filter(pred) =~= head.filter(pred) + rest.push(b).filter(
            pred,
        ));
        assert(filter_key(insert_sorted(s, b), r, x) =~= filter_key(s.push(b), r, x));
    }
}

/// Law: the reading-order sort is ordered, keeps every box, and is
/// stable — for any key `(r, x)`, the boxes of that key appear in the
/// result exactly as they appeared in the input.
pub proof fn lemma_reading_order_stable(s: Seq<TextBoxView>, r: int, x: int)
    ensures
        sorted_by_key(sort_views(s)),
        sort_views(s).len() == s.len(),
        filter_key(sort_views(s), r, x) == filter_key(s, r, x),
    decreases s.len(),
{
    broadcast use Seq::lemma_filter_push;

    if s.len() == 0 {
        reveal(Seq::filter);
        assert(filter_key(sort_views(s), r, x) =~= filter_key(s, r, x));
    } else {
        let prefix = s.drop_last();
        lemma_reading_order_stable(prefix, r, x);
        lemma_insert_sorted_ordered(sort_views(prefix), s.last());
        lemma_insert_sorted_filter(sort_views(prefix), s.last(), r, x);
        let pred = |c: TextBoxView| row_of(c) == r && c.x == x;
        assert(filter_key(sort_views(prefix).push(s.last()), r, x) =~= if pred(s.last()) {
            filter_key(sort_views(prefix), r, x).push(s.last())
        } else {
            filter_key(sort_views(prefix), r, x)
        });
        assert(prefix.push(s.last()) =~= s);
        assert(filter_key(s, r, x) =~= if pred(s.last()) {
            filter_key(prefix, r, x).push(s.last())
        } else {
            filter_key(prefix, r, x)
        });
    }
}

/// Where an insertion lands: after `j` leading elements that do not
/// come after `b`, before everything else.
proof fn lemma_insert_sorted_position(s: Seq<TextBoxView>, b: TextBoxView, j: int)
    requires
        0 <= j <= s.len(),
        forall|t: int| 0 <= t < j ==> key_le(#[trigger] s[t], b),
        j < s.len() ==> !key_le(s[j], b),
    ensures
        insert_sorted(s, b) == s.take(j) + seq![b] + s.skip(j),
    decreases s.len(),
{
    if s.len() == 0 {
        assert(insert_sorted(s, b) =~= s.take(0) + seq![b] + s.skip(0));
    } else if j == 0 {
        assert(!key_le(s.first(), b));
        assert(insert_sorted(s, b) =~= s.take(0) + seq![b] + s.skip(0));
    } else {
        let rest = s.drop_first();
        assert(key_le(s.first(), b));
        assert(forall|t: int| 0 <= t < j - 1 ==> rest[t] == s[t + 1]);
        assert(j - 1 < rest.len() ==> rest[j - 1] == s[j]);
        lemma_insert_sorted_position(rest, b, j - 1);
        assert(insert_sorted(s, b) == seq![s.first()] + insert_sorted(rest, b));
        assert(seq![s.first()] + (rest.take(j - 1) + seq![b] + rest.skip(j - 1)) =~= s.take(j)
            + seq![b] + s.skip(j));
    }
}

/// Sorts boxes into reading order, exactly as `sort_views` describes:
/// by row bucket, then by left edge, stable on ties.
pub fn sort_reading_order(boxes: Vec<TextBoxData>) -> (r: Vec<TextBoxData>)
    requires
        forall|i: int| 0 <= i < boxes@.len() ==> (#[trigger] boxes@[i]).y >= 0,
    ensures
        views_of(r@) == sort_views(views_of(boxes@)),
        r@.len() == boxes@.len(),
{
    let ghost orig = boxes@;
    let mut rem = boxes;
    let mut out: Vec<TextBoxData> = Vec::new();
    let ghost mut done: int = 0;
    proof {
        assert(orig.skip(0) =~= orig);
        assert(views_of(out@) =~= Seq::<TextBoxView>::empty());
        assert(views_of(orig.take(0)) =~= Seq::<TextBoxView>::empty());
    }
    while rem.len() > 0
        invariant
            0 <= done <= orig.len(),
            rem@ == orig.skip(done),
            views_of(out@) == sort_views(views_of(orig.take(done))),
            out@.len() == done,
            forall|i: int| 0 <= i < orig.len() ==> (#[trigger] orig[i]).y >= 0,
        decreases rem@.len(),
    {
        let b = rem.remove(0);
        proof {
            assert(b == orig[done]);
            assert(rem@ =~= orig.skip(done + 1));
            lemma_views_y(out@, orig, done);
            assert(b.y >= 0);
        }
        let mut j: usize = 0;
        while j < out.len() && key_le_exec(&out[j], &b)
            invariant
                0 <= j <= out@.len(),
                forall|t: int| 0 <= t < j ==> key_le((#[trigger] out@[t])@, b@),
                forall|t: int| 0 <= t < out@.len() ==> (#[trigger] out@[t]).y >= 0,
                b.y >= 0,
            decreases out@.len() - j,
        {
            j = j + 1;
        }
        let ghost before = out@;
        out.insert(j, b);
        proof {
            assert(views_of(out@) == insert_sorted(views_of(before), b@)) by {
                assert forall|t: int| 0 <= t < j implies key_le(
                    #[trigger] views_of(before)[t],
                    b@,
                ) by {
                    assert(views_of(before)[t] == before[t]@);
                }
                if (j as int) < before.len() {
                    assert(views_of(before)[j as int] == before[j as int]@);
                    assert(!key_le(views_of(before)[j as int], b@));
                }
                lemma_insert_sorted_position(views_of(before), b@, j as int);
                assert(views_of(out@) =~= views_of(before).take(j as int) + seq![b@] + views_of(
                    before,
                ).skip(j as int));
            }
            assert(views_of(orig.take(done + 1)) =~= views_of(orig.take(done)).push(b@));
            assert(sort_views(views_of(orig.take(done + 1))) == insert_sorted(
                sort_views(views_of(orig.take(done))),
                b@,
            )) by {
                assert(views_of(orig.take(done + 1)).drop_last() =~= views_of(orig.take(done)));
                assert(views_of(orig.take(done + 1)).last() == b@);
            }
        }
        proof {
            done = done + 1;
        }
    }
    proof {
        assert(orig.take(done) =~= orig);
    }
    out
}

/// Every sorted prefix keeps nonnegative `y`, because sorting only
/// rearranges boxes of the input.
proof fn lemma_views_y(out: Seq<TextBoxData>, orig: Seq<TextBoxData>, done: int)
    requires
        0 <= done <= orig.len(),
        views_of(out) == sort_views(views_of(orig.take(done))),
        out.len() == done,
        forall|i: int| 0 <= i < orig.len() ==> (#[trigger] orig[i]).y >= 0,
    ensures
        forall|i: int| 0 <= i < out.len() ==> (#[trigger] out[i]).y >= 0,
{
    assert forall|i: int| 0 <= i < out.len() implies (#[trigger] out[i]).y >= 0 by {
        assert(views_of(out)[i] == out[i]@);
        lemma_sort_views_membership(views_of(orig.take(done)), i);
        let srt = sort_views(views_of(orig.take(done)));
        if exists|t: int| 0 <= t < views_of(orig.take(done)).len() && srt[i] == views_of(
            orig.take(done),
        )[t] {
            let t = choose|t: int|
                0 <= t < views_of(orig.take(done)).len() && srt[i] == views_of(orig.take(done))[t];
            assert(views_of(orig.take(done))[t] == orig.take(done)[t]@);
            assert(orig.take(done)[t] == orig[t]);
        }
    }
}

/// Every element of a sorted sequence is an element of the input.
pub proof fn lemma_sort_views_membership(s: Seq<TextBoxView>, i: int)
    requires
        0 <= i < sort_views(s).len(),
    ensures
        exists|t: int| 0 <= t < s.len() && sort_views(s)[i] == s[t],
    decreases s.len(),
{
    let srt = sort_views(s);
    if s.len() == 0 {
    } else {
        let prefix = s.drop_last();
        lemma_insert_sorted_splits(sort_views(prefix), s.last(), i);
        if srt[i] == s.last() {
            assert(srt[i] == s[s.len() - 1]);
        } else {
            let u = choose|u: int|
                0 <= u < sort_views(prefix).len() && srt[i] == sort_views(prefix)[u];
            lemma_sort_views_membership(prefix, u);
            let t = choose|t: int| 0 <= t < prefix.len() && sort_views(prefix)[u] == prefix[t];
            assert(srt[i] == s[t]);
        }
    }
}

/// The reading order on boxes, decided in executable code.
fn key_le_exec(a: &TextBoxData, b: &TextBoxData) -> (r: bool)
    requires
        a.y >= 0,
        b.y >= 0,
    ensures
        r == key_le(a@, b@),
{
    let ra = (a.y as u64) / (ROW_BUCKET as u64);
    let rb = (b.y as u64) / (ROW_BUCKET as u64);
    if ra < rb {
        true
    } else if ra == rb {
        a.x <= b.x
    } else {
        false
    }
}

} // verus!
