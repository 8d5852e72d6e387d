//! Edges in the order of their timestamps: a stable sort, stated as the
//! sequence it yields.

use crate::types::Edge;
use vstd::prelude::*;
use vstd::seq_lib::to_multiset_insert;

verus! {

/// Whether no edge stands before an earlier one.
pub open spec fn in_time_order(edges: Seq<Edge>) -> bool {
    forall|i: int, j: int|
        0 <= i <= j < edges.len() ==> (#[trigger] edges[i]).timestamp.micros <= (
        #[trigger] edges[j]).timestamp.micros
}

/// Where an edge of the given time goes among edges in time order: behind the
/// last edge that is not later than it.
pub open spec fn insertion_point(edges: Seq<Edge>, micros: int) -> int
    decreases edges.len(),
{
    if edges.len() == 0 {
        0
    } else if edges.last().timestamp.micros <= micros {
        edges.len() as int
    } else {
        insertion_point(edges.drop_last(), micros)
    }
}

/// The edges in the order of their timestamps. Edges of one timestamp keep
/// the order they came in.
pub open spec fn sorted_by_time(edges: Seq<Edge>) -> Seq<Edge>
    decreases edges.len(),
{
    if edges.len() == 0 {
        Seq::empty()
    } else {
        let before = sorted_by_time(edges.drop_last());
        before.insert(insertion_point(before, edges.last().timestamp.micros as int), edges.last())
    }
}

/// The edges of one timestamp, in the order they stand in.
pub open spec fn edges_at(edges: Seq<Edge>, micros: int) -> Seq<Edge> {
    edges.filter(|edge: Edge| edge.timestamp.micros == micros)
}

/// The insertion point splits the edges: whatever stands at or behind it is
/// later than the given time, and the edge just before it is not.
pub proof fn lemma_insertion_point(edges: Seq<Edge>, micros: int)
    ensures
        0 <= insertion_point(edges, micros) <= edges.len(),
        forall|k: int|
            insertion_point(edges, micros) <= k < edges.len() ==> (
            #[trigger] edges[k]).timestamp.micros > micros,
        insertion_point(edges, micros) > 0 ==> edges[insertion_point(edges, micros)
            - 1].timestamp.micros <= micros,
    decreases edges.len(),
{
    if edges.len() > 0 && edges.last().timestamp.micros > micros {
        let before = edges.drop_last();
        lemma_insertion_point(before, micros);
        assert forall|k: int| insertion_point(edges, micros) <= k < edges.len() implies (
        #[trigger] edges[k]).timestamp.micros > micros by {
            if k < before.len() {
                assert(before[k] == edges[k]);
            }
        }
    }
}

/// Sorting keeps every edge, as often as it occurs, and leaves the edges in
/// time order.
pub proof fn lemma_sorted_by_time(edges: Seq<Edge>)
    ensures
        sorted_by_time(edges).len() == edges.len(),
        sorted_by_time(edges).to_multiset() == edges.to_multiset(),
        in_time_order(sorted_by_time(edges)),
    decreases edges.len(),
{
    broadcast use vstd::seq_lib::group_to_multiset_ensures;

    if edges.len() > 0 {
        let rest = edges.drop_last();
        let last = edges.last();
        let before = sorted_by_time(rest);
        let micros = last.timestamp.micros as int;
        let place = insertion_point(before, micros);
        let sorted = sorted_by_time(edges);
        lemma_sorted_by_time(rest);
        lemma_insertion_point(before, micros);
        to_multiset_insert(before, place, last);
        assert(edges =~= rest.push(last));
    }
}

/// Every edge of the sorted sequence is one of the edges that were sorted.
pub proof fn lemma_sorted_from_edges(edges: Seq<Edge>, k: int)
    requires
        0 <= k < sorted_by_time(edges).len(),
    ensures
        edges.contains(sorted_by_time(edges)[k]),
{
    broadcast use vstd::seq_lib::group_to_multiset_ensures;

    lemma_sorted_by_time(edges);
    let sorted = sorted_by_time(edges);
    assert(sorted.to_multiset().count(sorted[k]) > 0);
}

/// Edges that are in time order already stay as they are.
pub proof fn lemma_sorted_is_fixed(edges: Seq<Edge>)
    requires
        in_time_order(edges),
    ensures
        sorted_by_time(edges) == edges,
    decreases edges.len(),
{
    if edges.len() > 0 {
        let rest = edges.drop_last();
        assert(in_time_order(rest));
        lemma_sorted_is_fixed(rest);
        if rest.len() > 0 {
            assert(edges[rest.len() - 1].timestamp.micros <= edges[edges.len()
                - 1].timestamp.micros);
        }
    }
}

/// The sort is stable: among the edges of any one timestamp the order is the
/// one they came in.
pub proof fn lemma_sort_is_stable(edges: Seq<Edge>, micros: int)
    ensures
        edges_at(sorted_by_time(edges), micros) == edges_at(edges, micros),
    decreases edges.len(),
{
    reveal(Seq::filter);
    if edges.len() > 0 {
        let rest = edges.drop_last();
        let last = edges.last();
        let before = sorted_by_time(rest);
        let at = last.timestamp.micros as int;
        let place = insertion_point(before, at);
        let same = |edge: Edge| edge.timestamp.micros == micros;
        lemma_sort_is_stable(rest, micros);
        lemma_insertion_point(before, at);
        let head = before.take(place);
        let tail = before.skip(place);
        assert(before =~= head + tail);
        Seq::filter_distributes_over_add(head, tail, same);
        Seq::filter_distributes_over_add(head.push(last), tail, same);
        assert(head.push(last).drop_last() =~= head);
        if last.timestamp.micros == micros {
            lemma_filter_none(tail, same);
            assert(head.push(last).filter(same) + tail.filter(same) =~= head.filter(same).push(
                last,
            ));
        }
    }
}

/// Edges in time order are determined by what they hold of each timestamp:
/// two such sequences that agree on every timestamp are the same.
proof fn lemma_time_order_determined(one: Seq<Edge>, other: Seq<Edge>)
    requires
        in_time_order(one),
        in_time_order(other),
        forall|micros: int| #[trigger] edges_at(one, micros) == edges_at(other, micros),
    ensures
        one == other,
    decreases one.len(),
{
    reveal(Seq::filter);
    if one.len() == 0 {
        if other.len() > 0 {
            let at = other.last().timestamp.micros as int;
            assert(edges_at(one, at).len() == 0);
        }
    } else {
        let last = one.last();
        let at = last.timestamp.micros as int;
        assert(edges_at(one, at) == edges_at(one.drop_last(), at).push(last));
        if other.len() == 0 {
            assert(edges_at(other, at).len() == 0);
        }
        let end = other.last();
        let end_at = end.timestamp.micros as int;
        assert(end_at <= at) by {
            let same = |edge: Edge| edge.timestamp.micros == end_at;
            assert(edges_at(one, end_at).last() == end);
            one.lemma_filter_contains_rev(same, end);
        }
        assert(at <= end_at) by {
            let same = |edge: Edge| edge.timestamp.micros == at;
            assert(edges_at(other, at).last() == last);
            other.lemma_filter_contains_rev(same, last);
        }
        let rest = one.drop_last();
        let other_rest = other.drop_last();
        assert forall|micros: int| #[trigger]
            edges_at(rest, micros) == edges_at(other_rest, micros) by {
            assert(edges_at(one, micros) == edges_at(other, micros));
            if micros == at {
                assert(edges_at(other_rest, at).push(end).drop_last() =~= edges_at(
                    other_rest,
                    at,
                ));
            }
        }
        assert(in_time_order(rest));
        assert(in_time_order(other_rest));
        lemma_time_order_determined(rest, other_rest);
        assert(one =~= rest.push(last));
    }
}

/// There is one stable sort only: edges in time order that hold of every
/// timestamp the edges that came in, in the order they came in, are the
/// sorted edges.
pub proof fn lemma_stable_sort_unique(edges: Seq<Edge>, sorted: Seq<Edge>)
    requires
        in_time_order(sorted),
        forall|micros: int| #[trigger] edges_at(sorted, micros) == edges_at(edges, micros),
    ensures
        sorted == sorted_by_time(edges),
{
    lemma_sorted_by_time(edges);
    assert forall|micros: int| #[trigger]
        edges_at(sorted, micros) == edges_at(sorted_by_time(edges), micros) by {
        lemma_sort_is_stable(edges, micros);
    }
    lemma_time_order_determined(sorted, sorted_by_time(edges));
}

/// A filter that no element passes leaves nothing.
proof fn lemma_filter_none(edges: Seq<Edge>, keep: spec_fn(Edge) -> bool)
    requires
        forall|k: int| 0 <= k < edges.len() ==> !keep(#[trigger] edges[k]),
    ensures
        edges.filter(keep) == Seq::<Edge>::empty(),
    decreases edges.len(),
{
    reveal(Seq::filter);
    if edges.len() > 0 {
        lemma_filter_none(edges.drop_last(), keep);
    }
}

/// The items in the opposite order.
pub fn reversed<T>(items: Vec<T>) -> (turned: Vec<T>)
    ensures
        turned@ == items@.reverse(),
{
    let ghost all = items@;
    let mut items = items;
    let mut turned: Vec<T> = Vec::new();
    while items.len() > 0
        invariant
            items@.len() + turned@.len() == all.len(),
            items@ == all.take(items@.len() as int),
            forall|k: int| 0 <= k < turned@.len() ==> turned@[k] == all[all.len() - 1 - k],
        decreases items.len(),
    {
        let item = items.pop().unwrap();
        turned.push(item);
    }
    turned
}

/// Sorts edges by their timestamps, earliest first. Edges of one timestamp
/// keep the order they came in.
pub fn sort_by_timestamp(edges: Vec<Edge>) -> (sorted: Vec<Edge>)
    ensures
        sorted@ == sorted_by_time(edges@),
{
    let ghost all = edges@;
    let mut pending = reversed(edges);
    let mut sorted: Vec<Edge> = Vec::new();
    let ghost mut done: int = 0;
    while pending.len() > 0
        invariant
            0 <= done,
            pending@.len() + done == all.len(),
            forall|k: int| 0 <= k < pending@.len() ==> pending@[k] == all[all.len() - 1 - k],
            sorted@ == sorted_by_time(all.take(done)),
        decreases pending.len(),
    {
        let edge = pending.pop().unwrap();
        let mut place: usize = sorted.len();
        proof {
            lemma_sorted_by_time(all.take(done));
            assert(sorted@.take(place as int) =~= sorted@);
        }
        while place > 0 && sorted[place - 1].timestamp.micros > edge.timestamp.micros
            invariant
                place <= sorted.len(),
                insertion_point(sorted@, edge.timestamp.micros as int) == insertion_point(
                    sorted@.take(place as int),
                    edge.timestamp.micros as int,
                ),
            decreases place,
        {
            assert(sorted@.take(place as int).drop_last() =~= sorted@.take(place - 1));
            place -= 1;
        }
        sorted.insert(place, edge);
        proof {
            assert(all.take(done + 1).drop_last() =~= all.take(done));
            done = done + 1;
        }
    }
    assert(all.take(done) =~= all);
    sorted
}

} // verus!
