//! The merge/dedup engine: normalizes a collection of availability
//! windows into one sorted sequence in which touching or overlapping
//! neighbours have been merged, keeping the earlier window's title and
//! color.

use vstd::prelude::*;

use crate::Event;
use crate::EventV;

verus! {

/// Orders two windows by `(start, end)`, lexicographically and
/// non-strictly.
pub open spec fn le_ev(a: EventV, b: EventV) -> bool {
    a.start < b.start || (a.start == b.start && a.end <= b.end)
}

/// `s` ascends by `(start, end)`.
pub open spec fn sorted_le(s: Seq<EventV>) -> bool {
    forall|i: int, j: int| 0 <= i < j < s.len() ==> le_ev(#[trigger] s[i], #[trigger] s[j])
}

/// The result of inserting `e` into `s` just after every element that
/// orders before or equal to it: insertion from the right, so that an
/// element already present wins ties against the newcomer.
pub open spec fn insert_sorted(s: Seq<EventV>, e: EventV) -> Seq<EventV>
    decreases s.len(),
{
    if s.len() == 0 {
        seq![e]
    } else if le_ev(s.last(), e) {
        s.push(e)
    } else {
        insert_sorted(s.drop_last(), e).push(s.last())
    }
}

/// Stable sort by `(start, end)`: elements with equal keys keep their
/// original relative order.
pub open spec fn sort_by_key(s: Seq<EventV>) -> Seq<EventV>
    decreases s.len(),
{
    if s.len() == 0 {
        Seq::empty()
    } else {
        insert_sorted(sort_by_key(s.drop_last()), s.last())
    }
}

/// One step of the merge scan. If the incoming window `e` starts at or
/// before the end of the last accumulated window, the two merge: the end
/// grows to the larger of the two ends, while start, title and color of
/// the earlier window survive. Otherwise `e` is appended as it is.
pub open spec fn merge_step(acc: Seq<EventV>, e: EventV) -> Seq<EventV> {
    if acc.len() > 0 && acc.last().end >= e.start {
        acc.drop_last().push(
            EventV {
                title: acc.last().title,
                start: acc.last().start,
                end: if acc.last().end >= e.end {
                    acc.last().end
                } else {
                    e.end
                },
                color: acc.last().color,
            },
        )
    } else {
        acc.push(e)
    }
}

/// Left-to-right merge scan over a window sequence.
pub open spec fn merge_scan(s: Seq<EventV>) -> Seq<EventV>
    decreases s.len(),
{
    if s.len() == 0 {
        Seq::empty()
    } else {
        merge_step(merge_scan(s.drop_last()), s.last())
    }
}

/// What the merge engine computes: sort by `(start, end)`, then merge
/// touching or overlapping neighbours left to right.
pub open spec fn dedup_spec(s: Seq<EventV>) -> Seq<EventV> {
    merge_scan(sort_by_key(s))
}

/// A maximally merged sequence: starts ascend, and no window touches or
/// overlaps its successor.
pub open spec fn merged_form(s: Seq<EventV>) -> bool {
    forall|i: int|
        0 <= i < s.len() - 1 ==> ((#[trigger] s[i]).start <= s[i + 1].start && s[i].end < s[i
            + 1].start)
}

proof fn lemma_insert_sorted_elems(s: Seq<EventV>, e: EventV)
    ensures
        insert_sorted(s, e).len() == s.len() + 1,
        forall|k: int|
            0 <= k < insert_sorted(s, e).len() ==> (#[trigger] insert_sorted(s, e)[k] == e
                || s.contains(insert_sorted(s, e)[k])),
    decreases s.len(),
{
    if s.len() > 0 && !le_ev(s.last(), e) {
        lemma_insert_sorted_elems(s.drop_last(), e);
        assert forall|k: int| 0 <= k < insert_sorted(s, e).len() implies (#[trigger] insert_sorted(
            s,
            e,
        )[k] == e || s.contains(insert_sorted(s, e)[k])) by {
            if k < insert_sorted(s, e).len() - 1 {
                if insert_sorted(s.drop_last(), e)[k] != e {
                    let j = choose|j: int|
                        0 <= j < s.drop_last().len() && s.drop_last()[j] == insert_sorted(
                            s.drop_last(),
                            e,
                        )[k];
                    assert(s[j] == insert_sorted(s, e)[k]);
                }
            } else {
                assert(s[s.len() - 1] == insert_sorted(s, e)[k]);
            }
        }
    }
}

proof fn lemma_insert_preserves_sorted(s: Seq<EventV>, e: EventV)
    requires
        sorted_le(s),
    ensures
        sorted_le(insert_sorted(s, e)),
    decreases s.len(),
{
    if s.len() == 0 {
    } else if le_ev(s.last(), e) {
        assert forall|i: int, j: int|
            0 <= i < j < insert_sorted(s, e).len() implies le_ev(
            #[trigger] insert_sorted(s, e)[i],
            #[trigger] insert_sorted(s, e)[j],
        ) by {
            if j == s.len() {
                assert(insert_sorted(s, e)[i] == s[i]);
                if i < s.len() - 1 {
                    assert(le_ev(s[i], s[s.len() - 1]));
                }
            }
        }
    } else {
        let inner = insert_sorted(s.drop_last(), e);
        lemma_insert_preserves_sorted(s.drop_last(), e);
        lemma_insert_sorted_elems(s.drop_last(), e);
        assert forall|i: int, j: int|
            0 <= i < j < insert_sorted(s, e).len() implies le_ev(
            #[trigger] insert_sorted(s, e)[i],
            #[trigger] insert_sorted(s, e)[j],
        ) by {
            if j == insert_sorted(s, e).len() - 1 {
                assert(insert_sorted(s, e)[i] == inner[i]);
                if inner[i] == e {
                } else {
                    let m = choose|m: int|
                        0 <= m < s.drop_last().len() && s.drop_last()[m] == inner[i];
                    assert(le_ev(s[m], s[s.len() - 1]));
                }
            } else {
                assert(insert_sorted(s, e)[i] == inner[i]);
                assert(insert_sorted(s, e)[j] == inner[j]);
            }
        }
    }
}

/// Sorting yields a sequence that ascends by `(start, end)`.
pub proof fn lemma_sort_sorted(s: Seq<EventV>)
    ensures
        sorted_le(sort_by_key(s)),
    decreases s.len(),
{
    if s.len() > 0 {
        lemma_sort_sorted(s.drop_last());
        lemma_insert_preserves_sorted(sort_by_key(s.drop_last()), s.last());
    }
}

/// Sorting a sequence that already ascends by `(start, end)` returns it
/// unchanged.
pub proof fn lemma_sort_fixed(s: Seq<EventV>)
    requires
        sorted_le(s),
    ensures
        sort_by_key(s) == s,
    decreases s.len(),
{
    if s.len() == 0 {
        assert(sort_by_key(s) =~= s);
    } else {
        assert(sorted_le(s.drop_last()));
        lemma_sort_fixed(s.drop_last());
        if s.len() == 1 {
            assert(sort_by_key(s) =~= s);
        } else {
            assert(le_ev(s[s.len() - 2], s[s.len() - 1]));
            assert(s.drop_last().last() == s[s.len() - 2]);
            assert(sort_by_key(s) =~= s);
        }
    }
}

proof fn lemma_merge_scan_props(s: Seq<EventV>)
    requires
        sorted_le(s),
    ensures
        merged_form(merge_scan(s)),
        sorted_le(merge_scan(s)),
        s.len() == 0 ==> merge_scan(s).len() == 0,
        s.len() > 0 ==> 1 <= merge_scan(s).len() && le_ev(merge_scan(s).last(), s.last()),
    decreases s.len(),
{
    if s.len() > 0 {
        let e = s.last();
        let acc = merge_scan(s.drop_last());
        assert(sorted_le(s.drop_last()));
        lemma_merge_scan_props(s.drop_last());
        let r = merge_step(acc, e);
        if s.len() == 1 {
            assert(r =~= seq![e]);
        } else {
            let d = s.drop_last().last();
            assert(d == s[s.len() - 2]);
            assert(le_ev(d, e));
            assert(le_ev(acc.last(), e));
            if acc.last().end >= e.start {
                let u = r.last();
                assert(u.start == acc.last().start);
                assert(forall|i: int| 0 <= i < r.len() - 1 ==> r[i] == acc[i]);
                assert forall|i: int|
                    0 <= i < r.len() - 1 implies ((#[trigger] r[i]).start <= r[i + 1].start && r[i].end
                    < r[i + 1].start) by {
                    if i < r.len() - 2 {
                        assert(acc[i].start <= acc[i + 1].start && acc[i].end < acc[i + 1].start);
                    } else {
                        assert(acc[i].start <= acc[i + 1].start && acc[i].end < acc[i + 1].start);
                        assert(r[i + 1].start == acc[i + 1].start);
                    }
                }
                assert forall|i: int, j: int|
                    0 <= i < j < r.len() implies le_ev(#[trigger] r[i], #[trigger] r[j]) by {
                    if j == r.len() - 1 {
                        assert(le_ev(acc[i], acc[acc.len() - 1]));
                    }
                }
                assert(le_ev(r.last(), e));
            } else {
                assert(r == acc.push(e));
                assert forall|i: int, j: int|
                    0 <= i < j < r.len() implies le_ev(#[trigger] r[i], #[trigger] r[j]) by {
                    if j == r.len() - 1 {
                        if i < r.len() - 2 {
                            assert(le_ev(acc[i], acc[acc.len() - 1]));
                        }
                    }
                }
                assert forall|i: int|
                    0 <= i < r.len() - 1 implies ((#[trigger] r[i]).start <= r[i + 1].start && r[i].end
                    < r[i + 1].start) by {
                    if i < r.len() - 2 {
                        assert(acc[i].start <= acc[i + 1].start && acc[i].end < acc[i + 1].start);
                    }
                }
            }
        }
    }
}

proof fn lemma_merge_scan_fixed(s: Seq<EventV>)
    requires
        merged_form(s),
    ensures
        merge_scan(s) == s,
    decreases s.len(),
{
    if s.len() == 0 {
        assert(merge_scan(s) =~= s);
    } else {
        assert(merged_form(s.drop_last()));
        lemma_merge_scan_fixed(s.drop_last());
        if s.len() == 1 {
            assert(merge_scan(s) =~= s);
        } else {
            assert(s[s.len() - 2].end < s[s.len() - 1].start);
            assert(s.drop_last().last() == s[s.len() - 2]);
            assert(merge_scan(s) =~= s);
        }
    }
}

/// The merge engine yields a sorted, maximally merged timeline: starts
/// ascend by `(start, end)`, and no window in the output touches or
/// overlaps its successor.
pub proof fn lemma_dedup_sorted_maximal(s: Seq<EventV>)
    ensures
        merged_form(dedup_spec(s)),
        sorted_le(dedup_spec(s)),
{
    lemma_sort_sorted(s);
    lemma_merge_scan_props(sort_by_key(s));
}

/// The merge engine is idempotent: running it on its own output returns
/// that output unchanged.
pub proof fn lemma_dedup_idempotent(s: Seq<EventV>)
    ensures
        dedup_spec(dedup_spec(s)) == dedup_spec(s),
{
    lemma_dedup_sorted_maximal(s);
    lemma_sort_fixed(dedup_spec(s));
    lemma_merge_scan_fixed(dedup_spec(s));
}

/// Sorting first changes nothing, and neither does running the engine
/// twice: the engine on a pre-sorted input agrees with the engine on
/// its own output.
pub proof fn lemma_dedup_sort_eq_dedup_twice(s: Seq<EventV>)
    ensures
        dedup_spec(sort_by_key(s)) == dedup_spec(dedup_spec(s)),
{
    lemma_sort_sorted(s);
    lemma_sort_fixed(sort_by_key(s));
    lemma_dedup_idempotent(s);
}

proof fn lemma_span_increases(s: Seq<EventV>, i: int, j: int)
    requires
        forall|k: int| 0 <= k < s.len() ==> (#[trigger] s[k]).valid(),
        merged_form(s),
        0 <= i <= j < s.len(),
    ensures
        s[i].start <= s[j].start,
        i < j ==> s[i].end < s[j].start,
    decreases j - i,
{
    if i < j {
        lemma_span_increases(s, i, j - 1);
        assert(s[j - 1].start <= s[j - 1 + 1].start && s[j - 1].end < s[j - 1 + 1].start);
    }
}

/// A sequence of non-empty windows that already ascends and has no
/// touching or overlapping neighbours passes through the merge engine
/// unchanged, in its original order.
pub proof fn lemma_dedup_preserves_merged(s: Seq<EventV>)
    requires
        forall|k: int| 0 <= k < s.len() ==> (#[trigger] s[k]).valid(),
        merged_form(s),
    ensures
        dedup_spec(s) == s,
{
    assert forall|i: int, j: int| 0 <= i < j < s.len() implies le_ev(#[trigger] s[i], #[trigger] s[j]) by {
        lemma_span_increases(s, i, j);
        assert(s[i].start < s[i].end);
    }
    lemma_sort_fixed(s);
    lemma_merge_scan_fixed(s);
}

proof fn lemma_insert_sorted_at(s: Seq<EventV>, e: EventV, pos: int)
    requires
        sorted_le(s),
        0 <= pos <= s.len(),
        forall|k: int| pos <= k < s.len() ==> !le_ev(#[trigger] s[k], e),
        pos > 0 ==> le_ev(s[pos - 1], e),
    ensures
        insert_sorted(s, e) == s.insert(pos, e),
    decreases s.len(),
{
    if s.len() == 0 {
        assert(insert_sorted(s, e) =~= s.insert(pos, e));
    } else if pos == s.len() {
        assert(le_ev(s.last(), e));
        assert(insert_sorted(s, e) =~= s.insert(pos, e));
    } else {
        assert(!le_ev(s[s.len() - 1], e));
        assert(sorted_le(s.drop_last()));
        lemma_insert_sorted_at(s.drop_last(), e, pos);
        assert(insert_sorted(s, e) =~= s.insert(pos, e));
    }
}

/// Strict `(start, end)` order on concrete events; the exact negation of
/// `le_ev(b@, a@)`.
fn lt_key(a: &Event, b: &Event) -> (r: bool)
    ensures
        r == !le_ev(b@, a@),
{
    a.start < b.start || (a.start == b.start && a.end < b.end)
}

fn sort_events(events: &mut Vec<Event>)
    ensures
        final(events).deep_view() == sort_by_key(old(events).deep_view()),
{
    let ghost input = old(events).deep_view();
    let mut sorted: Vec<Event> = Vec::new();
    let ghost mut k: int = 0;
    while events.len() > 0
        invariant
            0 <= k <= input.len(),
            events@.len() == input.len() - k,
            events.deep_view() == input.skip(k),
            sorted.deep_view() == sort_by_key(input.take(k)),
            sorted_le(sorted.deep_view()),
        decreases events.len(),
    {
        let ghost prev_dv = events.deep_view();
        let ghost prev_sv = events@;
        let e = events.remove(0);
        proof {
            assert(prev_dv[0] == prev_sv[0].deep_view());
            assert(e.deep_view() == input.skip(k)[0]);
            assert(e.deep_view() == input[k]);
            assert forall|i: int| 0 <= i < events@.len() implies events.deep_view()[i] == input.skip(
                k + 1,
            )[i] by {
                assert(events@[i] == prev_sv[i + 1]);
                assert(events.deep_view()[i] == events@[i].deep_view());
                assert(prev_dv[i + 1] == prev_sv[i + 1].deep_view());
            }
            assert(events.deep_view() =~= input.skip(k + 1));
        }
        let mut pos = sorted.len();
        while pos > 0 && lt_key(&e, &sorted[pos - 1])
            invariant
                0 <= pos <= sorted.len(),
                forall|m: int|
                    pos <= m < sorted.deep_view().len() ==> !le_ev(
                        #[trigger] sorted.deep_view()[m],
                        e.deep_view(),
                    ),
            decreases pos,
        {
            pos = pos - 1;
        }
        proof {
            lemma_insert_sorted_at(sorted.deep_view(), e.deep_view(), pos as int);
            lemma_insert_preserves_sorted(sorted.deep_view(), e.deep_view());
            assert(input.take(k + 1).drop_last() =~= input.take(k));
            assert(input.take(k + 1).last() == input[k]);
        }
        let ghost prev_sorted_dv = sorted.deep_view();
        let ghost prev_sorted_sv = sorted@;
        sorted.insert(pos, e);
        proof {
            assert forall|i: int| 0 <= i < sorted@.len() implies sorted.deep_view()[i]
                == prev_sorted_dv.insert(pos as int, e.deep_view())[i] by {
                assert(sorted.deep_view()[i] == sorted@[i].deep_view());
                assert(sorted@ == prev_sorted_sv.insert(pos as int, e));
                if i < pos {
                    assert(sorted@[i] == prev_sorted_sv[i]);
                    assert(prev_sorted_dv[i] == prev_sorted_sv[i].deep_view());
                } else if i > pos {
                    assert(sorted@[i] == prev_sorted_sv[i - 1]);
                    assert(prev_sorted_dv[i - 1] == prev_sorted_sv[i - 1].deep_view());
                }
            }
            assert(sorted.deep_view() =~= prev_sorted_dv.insert(pos as int, e.deep_view()));
            assert(sorted.deep_view() == sort_by_key(input.take(k + 1)));
            k = k + 1;
        }
    }
    proof {
        assert(input.take(k) =~= input);
    }
    *events = sorted;
}

/// Normalizes a set of availability windows into the final timeline:
/// sorts ascending by `(start, end)`, then merges every touching or
/// overlapping pair of neighbours into one window that keeps the earlier
/// window's title and color and the larger of the two ends.
pub fn dedup_events(events: &mut Vec<Event>)
    ensures
        final(events).deep_view() == dedup_spec(old(events).deep_view()),
        merged_form(final(events).deep_view()),
        sorted_le(final(events).deep_view()),
{
    proof {
        lemma_dedup_sorted_maximal(old(events).deep_view());
    }
    sort_events(events);
    let ghost sorted_full = events.deep_view();
    let mut merged: Vec<Event> = Vec::new();
    let ghost mut k: int = 0;
    while events.len() > 0
        invariant
            0 <= k <= sorted_full.len(),
            events@.len() == sorted_full.len() - k,
            events.deep_view() == sorted_full.skip(k),
            merged.deep_view() == merge_scan(sorted_full.take(k)),
        decreases events.len(),
    {
        let ghost prev_dv = events.deep_view();
        let ghost prev_sv = events@;
        let e = events.remove(0);
        proof {
            assert(prev_dv[0] == prev_sv[0].deep_view());
            assert(e.deep_view() == sorted_full.skip(k)[0]);
            assert(e.deep_view() == sorted_full[k]);
            assert forall|i: int| 0 <= i < events@.len() implies events.deep_view()[i]
                == sorted_full.skip(k + 1)[i] by {
                assert(events@[i] == prev_sv[i + 1]);
                assert(events.deep_view()[i] == events@[i].deep_view());
                assert(prev_dv[i + 1] == prev_sv[i + 1].deep_view());
            }
            assert(events.deep_view() =~= sorted_full.skip(k + 1));
            assert(sorted_full.take(k + 1).drop_last() =~= sorted_full.take(k));
            assert(sorted_full.take(k + 1).last() == sorted_full[k]);
        }
        let ghost acc = merged.deep_view();
        let ghost acc_sv = merged@;
        let el = merged.len();
        if el > 0 && merged[el - 1].end >= e.start {
            proof {
                assert(acc[el - 1] == acc_sv[el - 1].deep_view());
                assert(acc.last().end >= e.deep_view().start);
            }
            let mut last = merged.pop().unwrap();
            if e.end > last.end {
                last.end = e.end;
            }
            merged.push(last);
            proof {
                assert(last.deep_view() == merge_step(acc, sorted_full[k]).last());
                assert forall|i: int| 0 <= i < merged@.len() implies merged.deep_view()[i]
                    == merge_step(acc, sorted_full[k])[i] by {
                    assert(merged.deep_view()[i] == merged@[i].deep_view());
                    if i < merged@.len() - 1 {
                        assert(merged@[i] == acc_sv[i]);
                        assert(acc[i] == acc_sv[i].deep_view());
                    }
                }
                assert(merged.deep_view() =~= merge_step(acc, sorted_full[k]));
            }
        } else {
            proof {
                if el > 0 {
                    assert(acc[el - 1] == acc_sv[el - 1].deep_view());
                }
            }
            merged.push(e);
            proof {
                assert forall|i: int| 0 <= i < merged@.len() implies merged.deep_view()[i]
                    == merge_step(acc, sorted_full[k])[i] by {
                    assert(merged.deep_view()[i] == merged@[i].deep_view());
                    if i < merged@.len() - 1 {
                        assert(merged@[i] == acc_sv[i]);
                        assert(acc[i] == acc_sv[i].deep_view());
                    }
                }
                assert(merged.deep_view() =~= merge_step(acc, sorted_full[k]));
            }
        }
        proof {
            assert(merged.deep_view() == merge_scan(sorted_full.take(k + 1)));
            k = k + 1;
        }
    }
    proof {
        assert(sorted_full.take(k) =~= sorted_full);
    }
    *events = merged;
}

} // verus!
