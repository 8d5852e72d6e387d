//! The paginator: from the message edges of a channel, the newest before a
//! cutoff, a requested number at least, and never part of an hour only.

use crate::order::{
    in_time_order, lemma_sorted_by_time, lemma_sorted_from_edges, lemma_sorted_is_fixed, reversed,
    sort_by_timestamp, sorted_by_time,
};
use crate::time::time_bucket;
use crate::types::{Edge, Timestamp};
use vstd::prelude::*;

verus! {

/// The edges that are earlier than the cutoff, in the order they stand in.
pub open spec fn before_cutoff(edges: Seq<Edge>, cutoff: Timestamp) -> Seq<Edge> {
    edges.filter(|edge: Edge| edge.timestamp.micros < cutoff.micros)
}

/// The time bucket of an edge: the hour of the UTC day of its timestamp.
pub open spec fn bucket_of(edge: Edge) -> Option<u32> {
    time_bucket(edge.timestamp.micros as int)
}

/// Where the older edges end and the newest `target_count` begin.
pub open spec fn split_point(len: nat, target_count: nat) -> int {
    if len > target_count {
        len - target_count
    } else {
        0
    }
}

/// Where the run of edges of one bucket begins that ends just before `end`:
/// going back from `end`, the place behind the first edge of another bucket,
/// or the very beginning where there is none.
pub open spec fn run_start(edges: Seq<Edge>, end: int, bucket: Option<u32>) -> int
    decreases end,
{
    if end <= 0 {
        0
    } else if bucket_of(edges[end - 1]) != bucket {
        end
    } else {
        run_start(edges, end - 1, bucket)
    }
}

/// Where the page begins among the sorted, filtered edges: at the split, moved
/// back over the older edges that share the bucket of the edge at the split.
pub open spec fn page_start(sorted: Seq<Edge>, target_count: nat) -> int {
    let split = split_point(sorted.len(), target_count);
    if split >= sorted.len() {
        sorted.len() as int
    } else {
        run_start(sorted, split, bucket_of(sorted[split]))
    }
}

/// The page: of the edges before the cutoff, in time order, the newest
/// `target_count` and with them the older edges of the hour in which the
/// oldest of these lies.
pub open spec fn page(edges: Seq<Edge>, cutoff: Timestamp, target_count: nat) -> Seq<Edge> {
    let sorted = sorted_by_time(before_cutoff(edges, cutoff));
    sorted.skip(page_start(sorted, target_count))
}

/// The run that `run_start` finds is whole: all of it shares the bucket, and
/// it stops only at an edge of another bucket or at the beginning.
pub proof fn lemma_run_start(edges: Seq<Edge>, end: int, bucket: Option<u32>)
    requires
        0 <= end <= edges.len(),
    ensures
        0 <= run_start(edges, end, bucket) <= end,
        forall|k: int|
            run_start(edges, end, bucket) <= k < end ==> bucket_of(#[trigger] edges[k]) == bucket,
        run_start(edges, end, bucket) > 0 ==> bucket_of(edges[run_start(edges, end, bucket) - 1])
            != bucket,
    decreases end,
{
    if end > 0 && bucket_of(edges[end - 1]) == bucket {
        lemma_run_start(edges, end - 1, bucket);
    }
}

/// No edge of a page is at or after the cutoff, every edge of a page is one
/// of the edges that were handed in, and a page is in time order.
pub proof fn lemma_page_before_cutoff(edges: Seq<Edge>, cutoff: Timestamp, target_count: nat)
    ensures
        forall|k: int|
            0 <= k < page(edges, cutoff, target_count).len() ==> (#[trigger] page(
                edges,
                cutoff,
                target_count,
            )[k]).timestamp.micros < cutoff.micros,
        forall|k: int|
            0 <= k < page(edges, cutoff, target_count).len() ==> edges.contains(
                #[trigger] page(edges, cutoff, target_count)[k],
            ),
        in_time_order(page(edges, cutoff, target_count)),
{
    let kept = before_cutoff(edges, cutoff);
    let sorted = sorted_by_time(kept);
    let start = page_start(sorted, target_count);
    let shown = page(edges, cutoff, target_count);
    let early = |edge: Edge| edge.timestamp.micros < cutoff.micros;
    lemma_sorted_by_time(kept);
    lemma_page_start(sorted, target_count);
    assert forall|k: int| 0 <= k < shown.len() implies (#[trigger] shown[k]).timestamp.micros
        < cutoff.micros && edges.contains(shown[k]) by {
        assert(shown[k] == sorted[start + k]);
        lemma_sorted_from_edges(kept, start + k);
        let at = choose|at: int| 0 <= at < kept.len() && kept[at] == sorted[start + k];
        edges.lemma_filter_pred(early, at);
        edges.lemma_filter_contains_rev(early, kept[at]);
    }
    assert forall|i: int, j: int| 0 <= i <= j < shown.len() implies (
    #[trigger] shown[i]).timestamp.micros <= (#[trigger] shown[j]).timestamp.micros by {
        assert(shown[i] == sorted[start + i]);
        assert(shown[j] == sorted[start + j]);
    }
}

/// A page begins at the split or before it, and at the very end where no
/// edge is asked for.
pub proof fn lemma_page_start(sorted: Seq<Edge>, target_count: nat)
    ensures
        0 <= page_start(sorted, target_count) <= split_point(sorted.len(), target_count)
            <= sorted.len(),
        target_count == 0 ==> page_start(sorted, target_count) == sorted.len(),
{
    let split = split_point(sorted.len(), target_count);
    if split < sorted.len() {
        lemma_run_start(sorted, split, bucket_of(sorted[split]));
    }
}

/// A page holds the requested number of edges, or all there are before the
/// cutoff where these are fewer. It holds more only by older edges of the
/// bucket of the oldest requested edge, and then all of them back to the
/// nearest edge of another bucket; where the edge before the split is of
/// another bucket, or there is none, the page holds no more.
pub proof fn lemma_page_length(edges: Seq<Edge>, cutoff: Timestamp, target_count: nat)
    ensures
        ({
            let sorted = sorted_by_time(before_cutoff(edges, cutoff));
            let split = split_point(sorted.len(), target_count);
            let start = page_start(sorted, target_count);
            let wanted = if target_count <= sorted.len() {
                target_count
            } else {
                sorted.len()
            };
            &&& sorted.len() == before_cutoff(edges, cutoff).len()
            &&& 0 <= start <= split <= sorted.len()
            &&& page(edges, cutoff, target_count).len() == wanted + (split - start)
            &&& page(edges, cutoff, target_count).len() >= wanted
            &&& forall|k: int|
                start <= k < split ==> bucket_of(#[trigger] sorted[k]) == bucket_of(sorted[split])
            &&& 0 < start < sorted.len() ==> bucket_of(sorted[start - 1]) != bucket_of(
                sorted[split],
            )
            &&& (split == 0 || split == sorted.len() || bucket_of(sorted[split - 1]) != bucket_of(
                sorted[split],
            )) ==> page(edges, cutoff, target_count).len() == wanted
        }),
{
    let kept = before_cutoff(edges, cutoff);
    let sorted = sorted_by_time(kept);
    let split = split_point(sorted.len(), target_count);
    lemma_sorted_by_time(kept);
    lemma_page_start(sorted, target_count);
    if split < sorted.len() {
        lemma_run_start(sorted, split, bucket_of(sorted[split]));
    }
}

/// A page of no edges is asked for, or no edge is earlier than the cutoff:
/// either way the page is empty.
pub proof fn lemma_page_empty(edges: Seq<Edge>, cutoff: Timestamp, target_count: nat)
    requires
        target_count == 0 || forall|k: int|
            0 <= k < edges.len() ==> (#[trigger] edges[k]).timestamp.micros >= cutoff.micros,
    ensures
        page(edges, cutoff, target_count) == Seq::<Edge>::empty(),
{
    let kept = before_cutoff(edges, cutoff);
    let sorted = sorted_by_time(kept);
    let early = |edge: Edge| edge.timestamp.micros < cutoff.micros;
    lemma_sorted_by_time(kept);
    lemma_page_start(sorted, target_count);
    if target_count != 0 {
        if kept.len() > 0 {
            edges.lemma_filter_pred(early, 0);
            edges.lemma_filter_contains_rev(early, kept[0]);
            let at = choose|at: int| 0 <= at < edges.len() && edges[at] == kept[0];
            assert(edges[at].timestamp.micros >= cutoff.micros);
        }
    }
    assert(page(edges, cutoff, target_count) =~= Seq::<Edge>::empty());
}

/// Of edges in time order, those before the cutoff are the first so many,
/// and none of the others is before it.
pub proof fn lemma_before_cutoff_is_prefix(edges: Seq<Edge>, cutoff: Timestamp)
    requires
        in_time_order(edges),
    ensures
        before_cutoff(edges, cutoff).len() <= edges.len(),
        before_cutoff(edges, cutoff) == edges.take(before_cutoff(edges, cutoff).len() as int),
        forall|k: int|
            before_cutoff(edges, cutoff).len() <= k < edges.len() ==> (
            #[trigger] edges[k]).timestamp.micros >= cutoff.micros,
    decreases edges.len(),
{
    reveal(Seq::filter);
    if edges.len() > 0 {
        let rest = edges.drop_last();
        let last = edges.last();
        let kept = before_cutoff(rest, cutoff);
        assert forall|i: int, j: int| 0 <= i <= j < rest.len() implies (
        #[trigger] rest[i]).timestamp.micros <= (#[trigger] rest[j]).timestamp.micros by {
            assert(rest[i] == edges[i] && rest[j] == edges[j]);
        }
        lemma_before_cutoff_is_prefix(rest, cutoff);
        if last.timestamp.micros < cutoff.micros {
            if kept.len() < rest.len() {
                let k = kept.len() as int;
                assert(rest[k] == edges[k]);
                assert(edges[k].timestamp.micros <= edges[edges.len() - 1].timestamp.micros);
            }
            assert(kept =~= rest);
            assert(rest.push(last) =~= edges.take(edges.len() as int));
        } else {
            assert(kept =~= edges.take(kept.len() as int));
            assert forall|k: int| kept.len() <= k < edges.len() implies (
            #[trigger] edges[k]).timestamp.micros >= cutoff.micros by {
                if k < rest.len() {
                    assert(rest[k] == edges[k]);
                }
            }
        }
    } else {
        assert(before_cutoff(edges, cutoff) =~= edges.take(0));
    }
}

/// Of edges in time order, a page is a run of neighbours: it begins where
/// the page starts and ends where the cutoff falls.
pub proof fn lemma_page_is_contiguous(edges: Seq<Edge>, cutoff: Timestamp, target_count: nat)
    requires
        in_time_order(edges),
    ensures
        ({
            let end = before_cutoff(edges, cutoff).len() as int;
            let start = page_start(edges.take(end), target_count);
            &&& 0 <= start <= end <= edges.len()
            &&& page(edges, cutoff, target_count) == edges.subrange(start, end)
        }),
{
    let kept = before_cutoff(edges, cutoff);
    let end = kept.len() as int;
    lemma_before_cutoff_is_prefix(edges, cutoff);
    assert forall|i: int, j: int| 0 <= i <= j < kept.len() implies (
    #[trigger] kept[i]).timestamp.micros <= (#[trigger] kept[j]).timestamp.micros by {
        assert(kept[i] == edges[i] && kept[j] == edges[j]);
    }
    lemma_sorted_is_fixed(kept);
    lemma_page_start(kept, target_count);
    let start = page_start(kept, target_count);
    assert(kept.skip(start) =~= edges.subrange(start, end));
}

/// The edges that are earlier than the cutoff, in the order they came in.
pub fn keep_before(edges: Vec<Edge>, cutoff: Timestamp) -> (kept: Vec<Edge>)
    ensures
        kept@ == before_cutoff(edges@, cutoff),
{
    let ghost all = edges@;
    let mut pending = reversed(edges);
    let mut kept: Vec<Edge> = Vec::new();
    let ghost mut done: int = 0;
    proof {
        reveal(Seq::filter);
    }
    while pending.len() > 0
        invariant
            0 <= done,
            pending@.len() + done == all.len(),
            forall|k: int| 0 <= k < pending@.len() ==> pending@[k] == all[all.len() - 1 - k],
            kept@ == before_cutoff(all.take(done), cutoff),
        decreases pending.len(),
    {
        let edge = pending.pop().unwrap();
        proof {
            reveal(Seq::filter);
            assert(all.take(done + 1).drop_last() =~= all.take(done));
        }
        if edge.timestamp.micros < cutoff.micros {
            kept.push(edge);
        }
        proof {
            done = done + 1;
        }
    }
    assert(all.take(done) =~= all);
    kept
}

/// Selects the page to show: of the edges that are earlier than `cutoff`, in
/// time order, the newest `target_count`, and with them every older edge of
/// the hour of the oldest of these, back to the nearest edge of another hour.
pub fn paginate(edges: Vec<Edge>, cutoff: Timestamp, target_count: usize) -> (shown: Vec<Edge>)
    ensures
        shown@ == page(edges@, cutoff, target_count as nat),
        forall|k: int|
            0 <= k < shown.len() ==> (#[trigger] shown@[k]).timestamp.micros < cutoff.micros,
        in_time_order(shown@),
        shown.len() >= target_count || shown.len() >= before_cutoff(edges@, cutoff).len(),
        target_count == 0 || before_cutoff(edges@, cutoff).len() == 0 ==> shown.len() == 0,
{
    proof {
        lemma_page_before_cutoff(edges@, cutoff, target_count as nat);
        lemma_page_length(edges@, cutoff, target_count as nat);
    }
    let mut sorted = sort_by_timestamp(keep_before(edges, cutoff));
    let ghost all = sorted@;
    let len: usize = sorted.len();
    let split: usize = if len > target_count {
        len - target_count
    } else {
        0
    };
    if split >= len {
        let shown: Vec<Edge> = Vec::new();
        return shown;
    }
    let bucket: Option<u32> = sorted[split].timestamp.bucket();
    let mut start: usize = split;
    while start > 0 && same_bucket(sorted[start - 1].timestamp.bucket(), bucket)
        invariant
            start <= split < len,
            len == all.len(),
            sorted@ == all,
            bucket == bucket_of(all[split as int]),
            run_start(all, split as int, bucket) == run_start(all, start as int, bucket),
        decreases start,
    {
        start -= 1;
    }
    let shown: Vec<Edge> = sorted.split_off(start);
    shown
}

/// Whether two buckets are the same.
fn same_bucket(left: Option<u32>, right: Option<u32>) -> (same: bool)
    ensures
        same == (left == right),
{
    match (left, right) {
        (Some(one), Some(other)) => one == other,
        (None, None) => true,
        _ => false,
    }
}

} // verus!
