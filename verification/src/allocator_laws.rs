//! What holds of the allocator over whole runs of requests.

use vstd::prelude::*;
use crate::PAGE_SIZE;
use crate::allocator::{Region, pool_wf, fits, serving_index, granted, remaining, free_pages, initial_pool, lemma_serving_index, lemma_remaining};

verus! {

/// The free list after the requests of `requests` were served in turn.
pub open spec fn pool_after(pool: Seq<Region>, requests: Seq<int>) -> Seq<Region>
    decreases requests.len(),
{
    if requests.len() == 0 {
        pool
    } else {
        remaining(pool_after(pool, requests.drop_last()), requests.last())
    }
}

/// The region that request number `k` of the run is given.
pub open spec fn grant_at(pool: Seq<Region>, requests: Seq<int>, k: int) -> Region {
    granted(pool_after(pool, requests.take(k)), requests[k])
}

/// Every request of the run fits when its turn comes.
pub open spec fn all_served(pool: Seq<Region>, requests: Seq<int>) -> bool {
    forall|k: int|
        0 <= k < requests.len() ==> fits(pool_after(pool, requests.take(k)), #[trigger] requests[k])
}

/// The sum of the requests.
pub open spec fn total(requests: Seq<int>) -> int
    decreases requests.len(),
{
    if requests.len() == 0 {
        0
    } else {
        total(requests.drop_last()) + requests.last()
    }
}

proof fn lemma_take_step(requests: Seq<int>, k: int)
    requires
        0 < k <= requests.len(),
    ensures
        requests.take(k).drop_last() == requests.take(k - 1),
        requests.take(k).last() == requests[k - 1],
        pool_after_unfolds(requests, k),
{
    assert(requests.take(k).drop_last() =~= requests.take(k - 1));
}

spec fn pool_after_unfolds(requests: Seq<int>, k: int) -> bool {
    forall|pool: Seq<Region>| #[trigger]
        pool_after(pool, requests.take(k)) == remaining(
            pool_after(pool, requests.take(k - 1)),
            requests[k - 1],
        )
}

/// No area is larger than the whole free list.
pub proof fn lemma_area_at_most_free_pages(pool: Seq<Region>, i: int)
    requires
        pool_wf(pool),
        0 <= i < pool.len(),
    ensures
        pool[i].num_pages <= free_pages(pool),
        0 <= free_pages(pool),
    decreases pool.len(),
{
    let rest = pool.drop_last();
    assert(pool.last().is_free_area());
    assert forall|k: int| 0 <= k < rest.len() implies (#[trigger] rest[k]).is_free_area() by {
        assert(rest[k] == pool[k]);
    }
    assert forall|k: int, l: int| 0 <= k < l < rest.len() implies (#[trigger] rest[k]).disjoint(
        #[trigger] rest[l],
    ) by {
        assert(rest[k] == pool[k] && rest[l] == pool[l]);
    }
    if rest.len() > 0 {
        lemma_area_at_most_free_pages(rest, 0);
    }
    if i < rest.len() {
        lemma_area_at_most_free_pages(rest, i);
        assert(rest[i] == pool[i]);
    }
}

/// A request for more pages than the whole free list holds does not fit.
pub proof fn lemma_beyond_capacity_does_not_fit(pool: Seq<Region>, n: int)
    requires
        pool_wf(pool),
        n > free_pages(pool),
    ensures
        !fits(pool, n),
{
    if fits(pool, n) {
        let i = choose|i: int| 0 <= i < pool.len() && (#[trigger] pool[i]).num_pages >= n;
        lemma_area_at_most_free_pages(pool, i);
    }
}

/// The free pages of a list are those of its lower part and those of its
/// upper part together.
pub proof fn lemma_free_pages_split(pool: Seq<Region>, k: int)
    requires
        0 <= k <= pool.len(),
    ensures
        free_pages(pool) == free_pages(pool.take(k)) + free_pages(pool.skip(k)),
    decreases pool.len() - k,
{
    if k == pool.len() {
        assert(pool.take(k) =~= pool);
        assert(pool.skip(k).len() == 0);
    } else {
        let rest = pool.drop_last();
        lemma_free_pages_split(rest, k);
        assert(rest.take(k) =~= pool.take(k));
        assert(pool.skip(k).drop_last() =~= rest.skip(k));
        assert(pool.skip(k).last() == pool.last());
    }
}

/// Serving a request takes its pages, and the areas that lay above the
/// serving one, out of the free list. Where the top area serves, which is so
/// whenever the list holds a single area, the free pages are those of before
/// less the request.
pub proof fn lemma_free_pages_after_request(pool: Seq<Region>, n: int)
    requires
        pool_wf(pool),
        fits(pool, n),
        0 <= n,
    ensures
        free_pages(remaining(pool, n)) == free_pages(pool) - n - free_pages(
            pool.skip(serving_index(pool, n) + 1),
        ),
        serving_index(pool, n) == pool.len() - 1 ==> free_pages(remaining(pool, n)) == free_pages(
            pool,
        ) - n,
        pool.len() == 1 ==> serving_index(pool, n) == 0,
{
    lemma_serving_index(pool, n);
    let i = serving_index(pool, n);
    let rest = remaining(pool, n);
    lemma_free_pages_split(pool, i + 1);
    let lower = pool.take(i + 1);
    assert(lower.drop_last() =~= pool.take(i));
    assert(lower.last() == pool[i]);
    if pool[i].num_pages > n {
        assert(rest.drop_last() =~= pool.take(i));
    }
    if i == pool.len() - 1 {
        assert(pool.skip(i + 1).len() == 0);
    }
}

/// The free list stays valid throughout a run of requests that are all
/// served.
pub proof fn lemma_pool_after_wf(pool: Seq<Region>, requests: Seq<int>, k: int)
    requires
        pool_wf(pool),
        all_served(pool, requests),
        forall|m: int| 0 <= m < requests.len() ==> 0 <= #[trigger] requests[m],
        0 <= k <= requests.len(),
    ensures
        pool_wf(pool_after(pool, requests.take(k))),
    decreases k,
{
    if k > 0 {
        lemma_pool_after_wf(pool, requests, k - 1);
        lemma_take_step(requests, k);
        assert(fits(pool_after(pool, requests.take(k - 1)), requests[k - 1]));
        lemma_remaining(pool_after(pool, requests.take(k - 1)), requests[k - 1]);
    }
}

proof fn lemma_grant_clear_of_later_pool(pool: Seq<Region>, requests: Seq<int>, i: int, k: int)
    requires
        pool_wf(pool),
        all_served(pool, requests),
        forall|m: int| 0 <= m < requests.len() ==> 0 <= #[trigger] requests[m],
        0 <= i < k <= requests.len(),
    ensures
        forall|m: int|
            0 <= m < pool_after(pool, requests.take(k)).len() ==> grant_at(pool, requests, i).disjoint(
                #[trigger] pool_after(pool, requests.take(k))[m],
            ),
    decreases k,
{
    let before = pool_after(pool, requests.take(k - 1));
    let after = pool_after(pool, requests.take(k));
    let grant = grant_at(pool, requests, i);
    lemma_take_step(requests, k);
    lemma_pool_after_wf(pool, requests, k - 1);
    assert(fits(before, requests[k - 1]));
    lemma_remaining(before, requests[k - 1]);
    if k > i + 1 {
        lemma_grant_clear_of_later_pool(pool, requests, i, k - 1);
        assert forall|m: int| 0 <= m < after.len() implies grant.disjoint(#[trigger] after[m]) by {
            let j = choose|j: int| 0 <= j < before.len() && after[m].within(#[trigger] before[j]);
            assert(grant.disjoint(before[j]));
            lemma_pool_after_wf(pool, requests, k);
            assert(after[m].is_free_area());
        }
    }
}

/// In a run of requests that are all served, no two of the regions handed
/// out share a byte.
pub proof fn lemma_grants_disjoint(pool: Seq<Region>, requests: Seq<int>, i: int, j: int)
    requires
        pool_wf(pool),
        all_served(pool, requests),
        forall|m: int| 0 <= m < requests.len() ==> 0 <= #[trigger] requests[m],
        0 <= i < j < requests.len(),
    ensures
        grant_at(pool, requests, i).disjoint(grant_at(pool, requests, j)),
{
    let before = pool_after(pool, requests.take(j));
    lemma_grant_clear_of_later_pool(pool, requests, i, j);
    lemma_pool_after_wf(pool, requests, j);
    assert(fits(before, requests[j]));
    lemma_remaining(before, requests[j]);
    lemma_serving_index(before, requests[j]);
    let s = serving_index(before, requests[j]);
    assert(grant_at(pool, requests, i).disjoint(before[s]));
    assert(before[s].is_free_area());
}

/// The sum of the first requests of a run is at most the sum of all, where
/// no request is negative.
pub proof fn lemma_total_of_prefix(requests: Seq<int>, k: int)
    requires
        forall|m: int| 0 <= m < requests.len() ==> 0 <= #[trigger] requests[m],
        0 <= k <= requests.len(),
    ensures
        0 <= total(requests.take(k)) <= total(requests),
    decreases requests.len(),
{
    if requests.len() == 0 {
        assert(requests.take(k) =~= requests);
    } else if k == requests.len() {
        assert(requests.take(k) =~= requests);
        lemma_total_of_prefix(requests.drop_last(), k - 1);
        assert(requests.drop_last().take(k - 1) =~= requests.drop_last());
    } else {
        lemma_total_of_prefix(requests.drop_last(), k);
        assert(requests.drop_last().take(k) =~= requests.take(k));
        lemma_total_of_prefix(requests.drop_last(), requests.len() - 1);
        assert(requests.drop_last().take(requests.len() - 1) =~= requests.drop_last());
    }
}

/// The free pages of a list of at most one area.
pub proof fn lemma_free_pages_of_short_pool(pool: Seq<Region>)
    requires
        pool.len() <= 1,
    ensures
        pool.len() == 0 ==> free_pages(pool) == 0,
        pool.len() == 1 ==> free_pages(pool) == pool[0].num_pages,
{
    if pool.len() == 1 {
        assert(pool.drop_last().len() == 0);
        assert(free_pages(pool.drop_last()) == 0);
    }
}

proof fn lemma_fresh_pool_step(start: int, size: int, requests: Seq<int>, k: int)
    requires
        pool_wf(initial_pool(start, size)),
        0 <= size,
        forall|m: int| 0 <= m < requests.len() ==> 0 < #[trigger] requests[m],
        total(requests) <= size / (PAGE_SIZE as int),
        0 <= k <= requests.len(),
    ensures
        pool_wf(pool_after(initial_pool(start, size), requests.take(k))),
        pool_after(initial_pool(start, size), requests.take(k)).len() <= 1,
        free_pages(pool_after(initial_pool(start, size), requests.take(k))) == size / (
        PAGE_SIZE as int) - total(requests.take(k)),
        k < requests.len() ==> fits(
            pool_after(initial_pool(start, size), requests.take(k)),
            requests[k],
        ),
    decreases k,
{
    let fresh = initial_pool(start, size);
    let pool = pool_after(fresh, requests.take(k));
    if k == 0 {
        assert(requests.take(0) =~= Seq::<int>::empty());
        assert(pool == fresh);
        lemma_free_pages_of_short_pool(fresh);
    } else {
        lemma_fresh_pool_step(start, size, requests, k - 1);
        lemma_take_step(requests, k);
        let before = pool_after(fresh, requests.take(k - 1));
        lemma_remaining(before, requests[k - 1]);
        lemma_free_pages_after_request(before, requests[k - 1]);
        lemma_serving_index(before, requests[k - 1]);
    }
    if k < requests.len() {
        lemma_total_of_prefix(requests, k + 1);
        lemma_take_step(requests, k + 1);
        assert(total(requests.take(k + 1)) == total(requests.take(k)) + requests[k]);
        lemma_free_pages_of_short_pool(pool);
        assert(pool[0].num_pages >= requests[k]);
    }
}

/// Requests of one page or more, made of a fresh pool, whose sum is at most
/// the pages of the pool are all served, with regions of which no two share a
/// byte.
pub proof fn lemma_fresh_pool_grants_disjoint(start: int, size: int, requests: Seq<int>)
    requires
        0 <= start,
        0 <= size,
        start % (PAGE_SIZE as int) == 0,
        start + size <= usize::MAX,
        forall|m: int| 0 <= m < requests.len() ==> 0 < #[trigger] requests[m],
        total(requests) <= size / (PAGE_SIZE as int),
    ensures
        pool_wf(initial_pool(start, size)),
        all_served(initial_pool(start, size), requests),
        forall|i: int, j: int|
            0 <= i < j < requests.len() ==> grant_at(initial_pool(start, size), requests, i).disjoint(
                grant_at(initial_pool(start, size), requests, j),
            ),
{
    let fresh = initial_pool(start, size);
    assert(pool_wf(fresh));
    assert forall|k: int| 0 <= k < requests.len() implies fits(
        pool_after(fresh, requests.take(k)),
        #[trigger] requests[k],
    ) by {
        lemma_fresh_pool_step(start, size, requests, k);
    }
    assert forall|i: int, j: int| 0 <= i < j < requests.len() implies grant_at(
        fresh,
        requests,
        i,
    ).disjoint(grant_at(fresh, requests, j)) by {
        lemma_grants_disjoint(fresh, requests, i, j);
    }
}

} // verus!
