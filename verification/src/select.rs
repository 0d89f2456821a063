//! The selection pipeline: sort the event list by start instant (stable),
//! drop events fully in the past while keeping in-progress ones, and truncate
//! to the display budget.

use vstd::prelude::*;
use crate::event::{Event, EventView};
use crate::time::{datetime_sec, time_sec, DateTime};

verus! {

/// The sort key of an event: its start instant.
pub open spec fn start_key(e: EventView) -> int {
    time_sec(e.start)
}

/// `e` inserted behind every element of `s` whose key is at most its own;
/// equal keys keep their original relative order.
pub open spec fn insert_by_start(s: Seq<EventView>, e: EventView) -> Seq<EventView>
    decreases s.len(),
{
    if s.len() == 0 {
        seq![e]
    } else if start_key(s.last()) <= start_key(e) {
        s.push(e)
    } else {
        insert_by_start(s.drop_last(), e).push(s.last())
    }
}

/// Stable insertion sort by start instant.
pub open spec fn sort_by_start(s: Seq<EventView>) -> Seq<EventView>
    decreases s.len(),
{
    if s.len() == 0 {
        Seq::empty()
    } else {
        insert_by_start(sort_by_start(s.drop_last()), s.last())
    }
}

/// Ascending by start instant.
pub open spec fn sorted_by_start(s: Seq<EventView>) -> bool {
    forall|i: int, j: int| 0 <= i < j < s.len() ==> start_key(s[i]) <= start_key(s[j])
}

/// Insertion adds exactly the inserted element to the sequence's contents.
proof fn lemma_insert_by_start_multiset(s: Seq<EventView>, e: EventView)
    ensures
        insert_by_start(s, e).to_multiset() == s.to_multiset().insert(e),
    decreases s.len(),
{
    broadcast use vstd::seq_lib::group_to_multiset_ensures;
    broadcast use vstd::multiset::group_multiset_axioms;

    if s.len() == 0 {
        assert(seq![e] =~= s.push(e));
    } else if start_key(s.last()) <= start_key(e) {
    } else {
        let dl = s.drop_last();
        lemma_insert_by_start_multiset(dl, e);
        let t = insert_by_start(dl, e);
        assert(s =~= dl.push(s.last()));
        assert(t.push(s.last()).to_multiset() =~= dl.to_multiset().insert(e).insert(s.last()));
        assert(dl.to_multiset().insert(e).insert(s.last()) =~= dl.to_multiset().insert(
            s.last(),
        ).insert(e));
    }
}

/// Insertion into an ordered sequence keeps it ordered.
proof fn lemma_insert_by_start_sorted(s: Seq<EventView>, e: EventView)
    requires
        sorted_by_start(s),
    ensures
        sorted_by_start(insert_by_start(s, e)),
    decreases s.len(),
{
    broadcast use vstd::seq_lib::group_to_multiset_ensures;
    broadcast use vstd::multiset::group_multiset_axioms;

    if s.len() == 0 {
    } else if start_key(s.last()) <= start_key(e) {
        let r = s.push(e);
        assert forall|i: int, j: int| 0 <= i < j < r.len() implies start_key(r[i]) <= start_key(
            r[j],
        ) by {
            if j == r.len() - 1 {
                assert(r[j] == e);
                if i < s.len() - 1 {
                    assert(start_key(s[i]) <= start_key(s[s.len() - 1]));
                }
            }
        }
    } else {
        let dl = s.drop_last();
        assert(sorted_by_start(dl)) by {
            assert(forall|i: int, j: int|
                0 <= i < j < dl.len() ==> start_key(dl[i]) <= start_key(dl[j]));
        }
        lemma_insert_by_start_sorted(dl, e);
        lemma_insert_by_start_multiset(dl, e);
        let t = insert_by_start(dl, e);
        assert forall|k: int| 0 <= k < t.len() implies start_key(t[k]) <= start_key(
            s.last(),
        ) by {
            assert(t.contains(t[k]));
            assert(t.to_multiset().count(t[k]) > 0);
            if t[k] == e {
            } else {
                assert(dl.to_multiset().count(t[k]) > 0);
                assert(dl.contains(t[k]));
                let j = choose|j: int| 0 <= j < dl.len() && dl[j] == t[k];
                assert(start_key(s[j]) <= start_key(s[s.len() - 1]));
            }
        }
        let r = t.push(s.last());
        assert forall|i: int, j: int| 0 <= i < j < r.len() implies start_key(r[i]) <= start_key(
            r[j],
        ) by {
            if j == r.len() - 1 {
                assert(start_key(t[i]) <= start_key(s.last()));
            }
        }
    }
}

/// The elements of `s` whose start instant is `k`, in order.
pub open spec fn with_key(s: Seq<EventView>, k: int) -> Seq<EventView>
    decreases s.len(),
{
    if s.len() == 0 {
        s
    } else {
        let rest = with_key(s.drop_last(), k);
        if start_key(s.last()) == k {
            rest.push(s.last())
        } else {
            rest
        }
    }
}

/// Insertion appends the new element behind the elements that share its key
/// and leaves every other key's run untouched.
proof fn lemma_insert_by_start_with_key(s: Seq<EventView>, e: EventView, k: int)
    ensures
        with_key(insert_by_start(s, e), k) == (if start_key(e) == k {
            with_key(s, k).push(e)
        } else {
            with_key(s, k)
        }),
    decreases s.len(),
{
    if s.len() == 0 {
        assert(seq![e].drop_last() =~= s);
    } else if start_key(s.last()) <= start_key(e) {
        assert(s.push(e).drop_last() =~= s);
    } else {
        let dl = s.drop_last();
        lemma_insert_by_start_with_key(dl, e, k);
        let t = insert_by_start(dl, e);
        assert(t.push(s.last()).drop_last() =~= t);
    }
}

/// The sort is stable: for every start instant, the events sharing it come
/// out in exactly the order they went in.
pub proof fn lemma_sort_by_start_stable(s: Seq<EventView>, k: int)
    ensures
        with_key(sort_by_start(s), k) == with_key(s, k),
    decreases s.len(),
{
    if s.len() > 0 {
        lemma_sort_by_start_stable(s.drop_last(), k);
        lemma_insert_by_start_with_key(sort_by_start(s.drop_last()), s.last(), k);
    }
}

/// What sorting means: the sorted list is ascending by start instant and
/// holds exactly the events that went in.
pub proof fn lemma_sort_by_start_is_a_sort(s: Seq<EventView>)
    ensures
        sorted_by_start(sort_by_start(s)),
        sort_by_start(s).to_multiset() == s.to_multiset(),
    decreases s.len(),
{
    broadcast use vstd::seq_lib::group_to_multiset_ensures;
    broadcast use vstd::multiset::group_multiset_axioms;

    if s.len() > 0 {
        let dl = s.drop_last();
        lemma_sort_by_start_is_a_sort(dl);
        lemma_insert_by_start_sorted(sort_by_start(dl), s.last());
        lemma_insert_by_start_multiset(sort_by_start(dl), s.last());
        assert(s =~= dl.push(s.last()));
    }
}

/// An event survives the "now" filter: it has not started yet, or it is
/// still running.
pub open spec fn keep_event(e: EventView, now: DateTime) -> bool {
    time_sec(e.start) >= time_sec(now) || (e.end matches Some(end) && time_sec(end) > time_sec(
        now,
    ))
}

/// The elements of `s` that survive the "now" filter, in order.
pub open spec fn keep_future(s: Seq<EventView>, now: DateTime) -> Seq<EventView>
    decreases s.len(),
{
    if s.len() == 0 {
        s
    } else {
        let rest = keep_future(s.drop_last(), now);
        if keep_event(s.last(), now) {
            rest.push(s.last())
        } else {
            rest
        }
    }
}

/// The first `limit` elements, or all of them if there are fewer.
pub open spec fn take_at_most(s: Seq<EventView>, limit: int) -> Seq<EventView> {
    if limit < s.len() {
        s.take(limit)
    } else {
        s
    }
}

/// What [`filter_future`] returns: sort, then filter (only when "now" is
/// known), then truncate.
pub open spec fn spec_filter_future(
    s: Seq<EventView>,
    now: Option<DateTime>,
    limit: int,
) -> Seq<EventView> {
    let sorted = sort_by_start(s);
    let kept = match now {
        Some(n) => keep_future(sorted, n),
        None => sorted,
    };
    take_at_most(kept, limit)
}

/// Inserting an element whose key is at least every key of a suffix places it
/// exactly before that suffix.
proof fn lemma_insert_by_start_at(s: Seq<EventView>, e: EventView, j: int)
    requires
        0 <= j <= s.len(),
        forall|k: int| j <= k < s.len() ==> start_key(#[trigger] s[k]) > start_key(e),
        j > 0 ==> start_key(s[j - 1]) <= start_key(e),
    ensures
        insert_by_start(s, e) == s.take(j).push(e) + s.skip(j),
    decreases s.len(),
{
    if s.len() == 0 {
        assert(insert_by_start(s, e) =~= s.take(j).push(e) + s.skip(j));
    } else if j == s.len() {
        assert(start_key(s.last()) <= start_key(e));
        assert(insert_by_start(s, e) == s.push(e));
        assert(s.push(e) =~= s.take(j).push(e) + s.skip(j));
    } else {
        assert(start_key(s[s.len() - 1]) > start_key(e));
        lemma_insert_by_start_at(s.drop_last(), e, j);
        assert(s.drop_last().take(j) =~= s.take(j));
        assert(insert_by_start(s, e) == (s.take(j).push(e) + s.drop_last().skip(j)).push(s.last()));
        assert((s.take(j).push(e) + s.drop_last().skip(j)).push(s.last()) =~= s.take(j).push(e)
            + s.skip(j));
    }
}

/// Inserts `e` into the sorted vector `out`, behind every element whose key
/// is at most its own.
fn insert_sorted(out: &mut Vec<Event>, e: Event)
    ensures
        final(out).deep_view() == insert_by_start(old(out).deep_view(), e@),
{
    let key: i64 = datetime_sec(e.start);
    let mut j: usize = out.len();
    while j > 0 && datetime_sec(out[j - 1].start) > key
        invariant
            0 <= j <= out.len(),
            key == start_key(e@),
            forall|k: int|
                j <= k < out.len() ==> start_key(#[trigger] out.deep_view()[k]) > start_key(e@),
        decreases j,
    {
        j = j - 1;
    }
    proof {
        lemma_insert_by_start_at(out.deep_view(), e@, j as int);
    }
    out.insert(j, e);
    proof {
        assert(out.deep_view() =~= old(out).deep_view().take(j as int).push(e@) + old(
            out,
        ).deep_view().skip(j as int));
    }
}

/// Sorts ascending by start instant; the sort is stable, so events with equal
/// starts keep their relative order.
fn sort_events(events: Vec<Event>) -> (r: Vec<Event>)
    ensures
        r.deep_view() == sort_by_start(events.deep_view()),
{
    let ghost orig: Seq<EventView> = events.deep_view();
    let mut input = events;
    let mut out: Vec<Event> = Vec::new();
    while input.len() > 0
        invariant
            input.deep_view() =~= orig.skip(orig.len() - input.deep_view().len()),
            input.deep_view().len() <= orig.len(),
            out.deep_view() == sort_by_start(orig.take(orig.len() - input.deep_view().len())),
        decreases input.len(),
    {
        let ghost k: int = orig.len() - input.deep_view().len();
        let ghost pre: Seq<Event> = input@;
        let ghost prev: Seq<EventView> = input.deep_view();
        let e: Event = input.remove(0);
        proof {
            assert(e == pre[0]);
            assert(prev[0] == pre[0].deep_view());
            assert(e@ == orig[k]);
            assert(input@ == pre.remove(0));
            assert forall|i: int| 0 <= i < input.deep_view().len() implies input.deep_view()[i]
                == orig.skip(k + 1)[i] by {
                assert(input.deep_view()[i] == input@[i].deep_view());
                assert(pre.remove(0)[i] == pre[i + 1]);
                assert(prev[i + 1] == pre[i + 1].deep_view());
            }
            assert(input.deep_view() =~= orig.skip(k + 1));
            assert(orig.take(k + 1).drop_last() =~= orig.take(k));
            assert(orig.take(k + 1).last() == orig[k]);
        }
        insert_sorted(&mut out, e);
        proof {
            assert(out.deep_view() == insert_by_start(sort_by_start(orig.take(k)), orig[k]));
            assert(sort_by_start(orig.take(k + 1)) == insert_by_start(
                sort_by_start(orig.take(k + 1).drop_last()),
                orig.take(k + 1).last(),
            ));
        }
    }
    proof {
        assert(orig.take(orig.len() as int) =~= orig);
    }
    out
}

/// Keeps the events that survive the "now" filter, in order.
fn retain_future(events: Vec<Event>, now: DateTime) -> (r: Vec<Event>)
    ensures
        r.deep_view() == keep_future(events.deep_view(), now),
{
    let ghost orig: Seq<EventView> = events.deep_view();
    let mut input = events;
    let mut out: Vec<Event> = Vec::new();
    while input.len() > 0
        invariant
            input.deep_view() =~= orig.skip(orig.len() - input.deep_view().len()),
            input.deep_view().len() <= orig.len(),
            out.deep_view() == keep_future(orig.take(orig.len() - input.deep_view().len()), now),
        decreases input.len(),
    {
        let ghost k: int = orig.len() - input.deep_view().len();
        let ghost pre: Seq<Event> = input@;
        let ghost prev: Seq<EventView> = input.deep_view();
        let e: Event = input.remove(0);
        proof {
            assert(e == pre[0]);
            assert(prev[0] == pre[0].deep_view());
            assert(e@ == orig[k]);
            assert(input@ == pre.remove(0));
            assert forall|i: int| 0 <= i < input.deep_view().len() implies input.deep_view()[i]
                == orig.skip(k + 1)[i] by {
                assert(input.deep_view()[i] == input@[i].deep_view());
                assert(pre.remove(0)[i] == pre[i + 1]);
                assert(prev[i + 1] == pre[i + 1].deep_view());
            }
            assert(input.deep_view() =~= orig.skip(k + 1));
            assert(orig.take(k + 1).drop_last() =~= orig.take(k));
            assert(orig.take(k + 1).last() == orig[k]);
        }
        let sn: i64 = datetime_sec(now);
        let ss: i64 = datetime_sec(e.start);
        let keep: bool = if ss >= sn {
            true
        } else {
            match e.end {
                Some(end) => datetime_sec(end) > sn,
                None => false,
            }
        };
        if keep {
            out.push(e);
        }
        proof {
            assert(keep == keep_event(orig[k], now));
            if keep {
                assert(out.deep_view() =~= keep_future(orig.take(k), now).push(orig[k]));
            }
        }
    }
    proof {
        assert(orig.take(orig.len() as int) =~= orig);
    }
    out
}

/// Removes past events (keeps in-progress ones), sorts by start time, and
/// truncates to `limit`; with no "now" supplied nothing is filtered out.
pub fn filter_future(events: Vec<Event>, current_time: Option<DateTime>, limit: usize) -> (r: Vec<
    Event,
>)
    ensures
        r.deep_view() == spec_filter_future(events.deep_view(), current_time, limit as int),
{
    let sorted: Vec<Event> = sort_events(events);
    let mut kept: Vec<Event> = match current_time {
        Some(n) => retain_future(sorted, n),
        None => sorted,
    };
    let ghost before: Seq<EventView> = kept.deep_view();
    kept.truncate(limit);
    proof {
        assert(kept.deep_view() =~= take_at_most(before, limit as int));
    }
    kept
}

} // verus!
