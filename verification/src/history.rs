//! Runs of requests to one arena.
//!
//! Every grant is one successful exchange on the cursor, and those happen one
//! after another however many callers there are. So what any number of
//! callers get from an arena is what a single caller gets who makes the same
//! requests in the order of their exchanges. This file states what holds of
//! every such run.

use vstd::prelude::*;
use crate::arena::{lemma_placement_bounds, lemma_placements_disjoint, placement};

verus! {

/// A request: its size in bytes, then its alignment.
pub type Request = (int, int);

/// Every request of the run has a size that is not negative and a positive
/// alignment.
pub open spec fn well_formed(requests: Seq<Request>) -> bool {
    forall|i: int| 0 <= i < requests.len() ==> (#[trigger] requests[i]).0 >= 0 && requests[i].1 > 0
}

/// Where the cursor stands after a run of requests, from 0: each grant moves
/// it to the grant's end, each refusal leaves it.
pub open spec fn cursor_after(base: int, capacity: int, requests: Seq<Request>) -> int
    decreases requests.len(),
{
    if requests.len() == 0 {
        0
    } else {
        let before = cursor_after(base, capacity, requests.drop_last());
        match placement(base, capacity, before, requests.last().0, requests.last().1) {
            Some(p) => p.1,
            None => before,
        }
    }
}

/// The address granted to the request at index `i` of a run, or `None` where
/// it is refused.
pub open spec fn grant(base: int, capacity: int, requests: Seq<Request>, i: int) -> Option<int> {
    match placement(
        base,
        capacity,
        cursor_after(base, capacity, requests.take(i)),
        requests[i].0,
        requests[i].1,
    ) {
        Some(p) => Some(p.0),
        None => None,
    }
}

/// The bytes asked for by the requests of a run that are granted.
pub open spec fn granted_bytes(base: int, capacity: int, requests: Seq<Request>) -> int
    decreases requests.len(),
{
    if requests.len() == 0 {
        0
    } else {
        let before = granted_bytes(base, capacity, requests.drop_last());
        if grant(base, capacity, requests, requests.len() - 1) is Some {
            before + requests.last().0
        } else {
            before
        }
    }
}

/// The bytes asked for by all requests of a run.
pub open spec fn requested_bytes(requests: Seq<Request>) -> int
    decreases requests.len(),
{
    if requests.len() == 0 {
        0
    } else {
        requested_bytes(requests.drop_last()) + requests.last().0
    }
}

/// The cursor after one more request is what the placement of that request
/// makes of the cursor before it.
pub proof fn lemma_cursor_step(base: int, capacity: int, requests: Seq<Request>, i: int)
    requires
        0 <= i < requests.len(),
    ensures
        cursor_after(base, capacity, requests.take(i + 1)) == (match placement(
            base,
            capacity,
            cursor_after(base, capacity, requests.take(i)),
            requests[i].0,
            requests[i].1,
        ) {
            Some(p) => p.1,
            None => cursor_after(base, capacity, requests.take(i)),
        }),
{
    let prefix = requests.take(i + 1);
    assert(prefix.drop_last() =~= requests.take(i));
    assert(prefix.last() == requests[i]);
}

/// The cursor never moves backwards and never passes the end of the region.
pub proof fn lemma_cursor_monotone(
    base: int,
    capacity: int,
    requests: Seq<Request>,
    i: int,
    j: int,
)
    requires
        well_formed(requests),
        0 <= capacity,
        0 <= i <= j <= requests.len(),
    ensures
        0 <= cursor_after(base, capacity, requests.take(i)) <= cursor_after(
            base,
            capacity,
            requests.take(j),
        ) <= capacity,
    decreases j,
{
    if j == 0 {
        assert(requests.take(0).len() == 0);
    } else {
        lemma_cursor_monotone(base, capacity, requests, if i < j { i } else { j - 1 }, j - 1);
        lemma_cursor_step(base, capacity, requests, j - 1);
        let before = cursor_after(base, capacity, requests.take(j - 1));
        let request = requests[j - 1];
        if placement(base, capacity, before, request.0, request.1) is Some {
            lemma_placement_bounds(base, capacity, before, request.0, request.1);
        }
    }
}

/// Every grant is aligned as asked and lies inside the region.
pub proof fn lemma_grant_in_region(base: int, capacity: int, requests: Seq<Request>, i: int)
    requires
        well_formed(requests),
        0 <= capacity,
        0 <= i < requests.len(),
        grant(base, capacity, requests, i) is Some,
    ensures
        grant(base, capacity, requests, i).unwrap() % requests[i].1 == 0,
        base <= grant(base, capacity, requests, i).unwrap(),
        grant(base, capacity, requests, i).unwrap() + requests[i].0 <= base + capacity,
{
    lemma_cursor_monotone(base, capacity, requests, i, i);
    lemma_placement_bounds(
        base,
        capacity,
        cursor_after(base, capacity, requests.take(i)),
        requests[i].0,
        requests[i].1,
    );
}

/// No two grants of a run overlap: the earlier one ends at or before the
/// address of the later one.
pub proof fn lemma_grants_disjoint(
    base: int,
    capacity: int,
    requests: Seq<Request>,
    i: int,
    j: int,
)
    requires
        well_formed(requests),
        0 <= capacity,
        0 <= i < j < requests.len(),
        grant(base, capacity, requests, i) is Some,
        grant(base, capacity, requests, j) is Some,
    ensures
        grant(base, capacity, requests, i).unwrap() + requests[i].0 <= grant(
            base,
            capacity,
            requests,
            j,
        ).unwrap(),
{
    lemma_cursor_step(base, capacity, requests, i);
    lemma_cursor_monotone(base, capacity, requests, i + 1, j);
    lemma_placements_disjoint(
        base,
        capacity,
        requests[i].1,
        requests[i].0,
        cursor_after(base, capacity, requests.take(i)),
        requests[j].1,
        requests[j].0,
        cursor_after(base, capacity, requests.take(j)),
    );
}

/// The bytes granted in a run never exceed where the cursor stands, and so
/// never the capacity.
pub proof fn lemma_granted_bytes_bounded(base: int, capacity: int, requests: Seq<Request>)
    requires
        well_formed(requests),
        0 <= capacity,
    ensures
        0 <= granted_bytes(base, capacity, requests) <= cursor_after(base, capacity, requests)
            <= capacity,
    decreases requests.len(),
{
    let n = requests.len() as int;
    assert(requests.take(n) =~= requests);
    lemma_cursor_monotone(base, capacity, requests, n, n);
    if n > 0 {
        let front = requests.drop_last();
        assert(requests.take(n - 1) =~= front);
        lemma_granted_bytes_bounded(base, capacity, front);
        let before = cursor_after(base, capacity, front);
        if placement(base, capacity, before, requests.last().0, requests.last().1) is Some {
            lemma_placement_bounds(base, capacity, before, requests.last().0, requests.last().1);
        }
    }
}

/// Where every request of a run is granted, the bytes granted are the bytes
/// asked for.
pub proof fn lemma_all_granted_bytes(base: int, capacity: int, requests: Seq<Request>)
    requires
        forall|i: int| 0 <= i < requests.len() ==> #[trigger] grant(base, capacity, requests, i) is Some,
    ensures
        granted_bytes(base, capacity, requests) == requested_bytes(requests),
    decreases requests.len(),
{
    if requests.len() > 0 {
        let front = requests.drop_last();
        assert forall|i: int| 0 <= i < front.len() implies #[trigger] grant(
            base,
            capacity,
            front,
            i,
        ) is Some by {
            assert(front.take(i) =~= requests.take(i));
            assert(grant(base, capacity, requests, i) is Some);
        }
        lemma_all_granted_bytes(base, capacity, front);
    }
}

/// A run that asks for more bytes than the region holds has a request that
/// is refused.
pub proof fn lemma_overdraw_is_refused(base: int, capacity: int, requests: Seq<Request>)
    requires
        well_formed(requests),
        0 <= capacity,
        requested_bytes(requests) > capacity,
    ensures
        exists|i: int| 0 <= i < requests.len() && #[trigger] grant(base, capacity, requests, i) is None,
{
    if forall|i: int| 0 <= i < requests.len() ==> #[trigger] grant(base, capacity, requests, i) is Some {
        lemma_all_granted_bytes(base, capacity, requests);
        lemma_granted_bytes_bounded(base, capacity, requests);
    }
}

} // verus!
