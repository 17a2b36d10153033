//! A stack-discipline free-list allocator over a page-granular address range.
//!
//! The allocator keeps its free areas on a stack. A request is served by the
//! area nearest the top that is large enough; the areas above it are given
//! up, the pages are cut from the low end of the serving area, and what is
//! left of it goes back on top. Areas are never merged.

use vstd::prelude::*;
use crate::PAGE_SIZE;
use crate::error::Error;
use crate::message::Page;

verus! {

/// A run of whole pages, seen as mathematical integers: `num_pages` pages
/// starting at byte address `addr`.
pub struct Region {
    pub addr: int,
    pub num_pages: int,
}

impl Region {
    /// The first byte address past the region.
    pub open spec fn end(self) -> int {
        self.addr + self.num_pages * PAGE_SIZE
    }

    /// One region ends where or before the other begins, so that no byte
    /// belongs to both.
    pub open spec fn disjoint(self, other: Region) -> bool {
        self.end() <= other.addr || other.end() <= self.addr
    }

    /// Every byte of `self` is a byte of `other`.
    pub open spec fn within(self, other: Region) -> bool {
        other.addr <= self.addr && self.end() <= other.end()
    }

    /// A free area as the allocator may hold it: at least one page, starting
    /// on a page boundary, and ending inside the address space.
    pub open spec fn is_free_area(self) -> bool {
        &&& 0 <= self.addr
        &&& self.addr % (PAGE_SIZE as int) == 0
        &&& self.num_pages > 0
        &&& self.end() <= usize::MAX
    }
}

/// The free list, bottom of the stack first, is valid: every entry is a free
/// area and no two entries share a byte.
pub open spec fn pool_wf(pool: Seq<Region>) -> bool {
    &&& forall|i: int| 0 <= i < pool.len() ==> (#[trigger] pool[i]).is_free_area()
    &&& forall|i: int, j: int|
        0 <= i < j < pool.len() ==> (#[trigger] pool[i]).disjoint(#[trigger] pool[j])
}

/// Some free area holds at least `n` pages.
pub open spec fn fits(pool: Seq<Region>, n: int) -> bool {
    exists|i: int| 0 <= i < pool.len() && (#[trigger] pool[i]).num_pages >= n
}

/// The position of the area that serves a request of `n` pages: the one
/// nearest the top of the stack with at least `n` pages, or -1 if there is
/// none.
pub open spec fn serving_index(pool: Seq<Region>, n: int) -> int
    decreases pool.len(),
{
    if pool.len() == 0 {
        -1
    } else if pool.last().num_pages >= n {
        pool.len() - 1
    } else {
        serving_index(pool.drop_last(), n)
    }
}

/// The region that a request of `n` pages is given: the low end of the
/// serving area.
pub open spec fn granted(pool: Seq<Region>, n: int) -> Region {
    Region { addr: pool[serving_index(pool, n)].addr, num_pages: n }
}

/// The free list after a request of `n` pages was served: the areas below the
/// serving one, and on top of them what is left of the serving one, if
/// anything is.
pub open spec fn remaining(pool: Seq<Region>, n: int) -> Seq<Region> {
    let i = serving_index(pool, n);
    let below = pool.take(i);
    if pool[i].num_pages > n {
        below.push(Region { addr: pool[i].addr + n * PAGE_SIZE, num_pages: pool[i].num_pages - n })
    } else {
        below
    }
}

/// The number of free pages in the whole list.
pub open spec fn free_pages(pool: Seq<Region>) -> int
    decreases pool.len(),
{
    if pool.len() == 0 {
        0
    } else {
        free_pages(pool.drop_last()) + pool.last().num_pages
    }
}

/// The free list of a fresh pool of `size` bytes at `start`: one area of all
/// its whole pages, or nothing where the pool is smaller than a page.
pub open spec fn initial_pool(start: int, size: int) -> Seq<Region> {
    if size / (PAGE_SIZE as int) > 0 {
        seq![Region { addr: start, num_pages: size / (PAGE_SIZE as int) }]
    } else {
        Seq::empty()
    }
}

/// The serving index is a position in the list exactly when the request
/// fits; it then names an area that is large enough, and every area above it
/// is too small.
pub proof fn lemma_serving_index(pool: Seq<Region>, n: int)
    ensures
        fits(pool, n) <==> serving_index(pool, n) >= 0,
        -1 <= serving_index(pool, n) < pool.len(),
        serving_index(pool, n) >= 0 ==> pool[serving_index(pool, n)].num_pages >= n,
        forall|j: int| serving_index(pool, n) < j < pool.len() ==> (#[trigger] pool[j]).num_pages < n,
    decreases pool.len(),
{
    if pool.len() == 0 {
    } else if pool.last().num_pages >= n {
        assert(pool[pool.len() - 1].num_pages >= n);
    } else {
        let rest = pool.drop_last();
        lemma_serving_index(rest, n);
        assert forall|j: int| serving_index(pool, n) < j < pool.len() implies (#[trigger] pool[j]).num_pages < n by {
            if j < rest.len() {
                assert(rest[j] == pool[j]);
            }
        }
        if fits(pool, n) {
            let i = choose|i: int| 0 <= i < pool.len() && (#[trigger] pool[i]).num_pages >= n;
            assert(rest[i] == pool[i]);
        }
        if serving_index(pool, n) >= 0 {
            let i = serving_index(pool, n);
            assert(rest[i] == pool[i]);
        }
    }
}

/// The serving index is the only position whose area is large enough while
/// every area above it is too small.
pub proof fn lemma_serving_index_is(pool: Seq<Region>, n: int, i: int)
    requires
        0 <= i < pool.len(),
        pool[i].num_pages >= n,
        forall|j: int| i < j < pool.len() ==> (#[trigger] pool[j]).num_pages < n,
    ensures
        serving_index(pool, n) == i,
{
    lemma_serving_index(pool, n);
    let k = serving_index(pool, n);
    if k < i {
        assert(pool[i].num_pages < n);
    } else if k > i {
        assert(pool[k].num_pages < n);
    }
}

/// Serving a request that fits keeps the free list valid. The granted
/// region lies inside an area that was free, shares no byte with any area
/// that stays free, and every area that stays free lies inside one that was
/// free before.
pub proof fn lemma_remaining(pool: Seq<Region>, n: int)
    requires
        pool_wf(pool),
        fits(pool, n),
        0 <= n,
    ensures
        pool_wf(remaining(pool, n)),
        granted(pool, n).within(pool[serving_index(pool, n)]),
        granted(pool, n).addr % (PAGE_SIZE as int) == 0,
        forall|k: int|
            0 <= k < remaining(pool, n).len() ==> granted(pool, n).disjoint(
                #[trigger] remaining(pool, n)[k],
            ),
        forall|k: int|
            0 <= k < remaining(pool, n).len() ==> exists|i: int|
                0 <= i < pool.len() && (#[trigger] remaining(pool, n)[k]).within(#[trigger] pool[i]),
{
    lemma_serving_index(pool, n);
    let i = serving_index(pool, n);
    let rest = remaining(pool, n);
    let area = pool[i];
    assert(area.is_free_area());
    assert forall|k: int| 0 <= k < rest.len() implies (#[trigger] rest[k]).within(pool[k])
        && (k < i ==> rest[k] == pool[k]) && rest[k].is_free_area() && granted(pool, n).disjoint(
        rest[k],
    ) by {
        if k < i {
            assert(rest[k] == pool[k]);
            assert(pool[k].is_free_area());
            assert(pool[k].disjoint(pool[i]));
        } else {
            assert(k == i);
        }
    }
    assert forall|k: int, l: int| 0 <= k < l < rest.len() implies (#[trigger] rest[k]).disjoint(
        #[trigger] rest[l],
    ) by {
        assert(rest[l].within(pool[l]));
        assert(rest[k] == pool[k]);
        assert(pool[k].disjoint(pool[l]));
    }
    assert forall|k: int| 0 <= k < rest.len() implies exists|j: int|
        0 <= j < pool.len() && (#[trigger] rest[k]).within(#[trigger] pool[j]) by {
        assert(rest[k].within(pool[k]));
    }
}

/// A region that was cut from the pool. Its owner has the pages to itself
/// until it hands them on as a message payload.
pub struct AllocatedPage {
    pub addr: usize,
    pub num_pages: usize,
}

impl View for AllocatedPage {
    type V = Region;

    open spec fn view(&self) -> Region {
        Region { addr: self.addr as int, num_pages: self.num_pages as int }
    }
}

impl AllocatedPage {
    /// The address of the first byte of the region, for writing to it.
    pub fn as_mut_ptr(&mut self) -> (addr: usize)
        ensures
            addr == old(self).addr,
            *final(self) == *old(self),
    {
        self.addr
    }

    /// The descriptor by which the region is handed to another process.
    pub fn as_page_payload(&self) -> (page: Page)
        ensures
            page.addr == self.addr,
            page.num_pages == self.num_pages,
    {
        Page::new(self.addr, self.num_pages)
    }
}

/// One entry of the free list.
pub struct FreeArea {
    addr: usize,
    num_pages: usize,
}

impl View for FreeArea {
    type V = Region;

    closed spec fn view(&self) -> Region {
        Region { addr: self.addr as int, num_pages: self.num_pages as int }
    }
}

/// The allocator: a stack of free areas, the most recently pushed one last.
pub struct PageAllocator {
    free_area: Vec<FreeArea>,
}

impl View for PageAllocator {
    type V = Seq<Region>;

    closed spec fn view(&self) -> Seq<Region> {
        self.free_area@.map_values(|a: FreeArea| a@)
    }
}

impl PageAllocator {
    /// The invariant of the allocator: its free list is valid.
    pub open spec fn wf(&self) -> bool {
        pool_wf(self@)
    }

    /// An allocator for the pool of `free_area_size` bytes that starts at
    /// `free_area_start`. A last part of the pool that is shorter than a page
    /// is not used.
    pub fn new(free_area_start: usize, free_area_size: usize) -> (allocator: PageAllocator)
        requires
            free_area_start % PAGE_SIZE == 0,
            free_area_start + free_area_size <= usize::MAX,
        ensures
            allocator.wf(),
            allocator@ == initial_pool(free_area_start as int, free_area_size as int),
    {
        let num_pages: usize = free_area_size / PAGE_SIZE;
        let mut free_area: Vec<FreeArea> = Vec::new();
        if num_pages > 0 {
            free_area.push(FreeArea { addr: free_area_start, num_pages });
        }
        let allocator = PageAllocator { free_area };
        proof {
            assert(allocator@ =~= initial_pool(free_area_start as int, free_area_size as int));
        }
        allocator
    }

    /// Whether a request of `num_pages` pages can be served.
    pub fn can_allocate(&self, num_pages: usize) -> (yes: bool)
        ensures
            yes == fits(self@, num_pages as int),
    {
        let mut i: usize = self.free_area.len();
        while i > 0
            invariant
                i <= self.free_area.len(),
                forall|j: int| i <= j < self@.len() ==> (#[trigger] self@[j]).num_pages < num_pages,
            decreases i,
        {
            i -= 1;
            if num_pages <= self.free_area[i].num_pages {
                proof {
                    assert(self@[i as int].num_pages >= num_pages);
                }
                return true;
            }
        }
        false
    }

    /// Cuts `num_pages` pages from the pool if the request fits. Where no free
    /// area is large enough the pool is exhausted for this request: nothing is
    /// allocated and the free list stays as it was.
    pub fn try_allocate(&mut self, num_pages: usize) -> (outcome: Result<AllocatedPage, Error>)
        requires
            old(self).wf(),
        ensures
            final(self).wf(),
            fits(old(self)@, num_pages as int) ==> outcome.is_ok() && outcome.unwrap()@ == granted(
                old(self)@,
                num_pages as int,
            ) && final(self)@ == remaining(old(self)@, num_pages as int),
            !fits(old(self)@, num_pages as int) ==> outcome == Err::<AllocatedPage, Error>(
                Error::OutOfMemory,
            ) && final(self)@ == old(self)@,
    {
        if self.can_allocate(num_pages) {
            Ok(self.allocate(num_pages))
        } else {
            Err(Error::OutOfMemory)
        }
    }

    /// Cuts `num_pages` pages from the pool. The request must fit.
    pub fn allocate(&mut self, num_pages: usize) -> (page: AllocatedPage)
        requires
            old(self).wf(),
            fits(old(self)@, num_pages as int),
        ensures
            final(self).wf(),
            page@ == granted(old(self)@, num_pages as int),
            page.addr % PAGE_SIZE == 0,
            final(self)@ == remaining(old(self)@, num_pages as int),
    {
        proof {
            lemma_serving_index(self@, num_pages as int);
            lemma_remaining(self@, num_pages as int);
        }
        let mut free_area = self.free_area.pop().unwrap();
        proof {
            assert(self@ =~= old(self)@.drop_last());
            assert(free_area@ == old(self)@.last());
        }
        while free_area.num_pages < num_pages
            invariant
                self@.len() < old(self)@.len(),
                self@ == old(self)@.take(self@.len() as int),
                free_area@ == old(self)@[self@.len() as int],
                0 <= serving_index(old(self)@, num_pages as int) <= self@.len(),
                old(self)@[serving_index(old(self)@, num_pages as int)].num_pages >= num_pages,
                forall|j: int|
                    self@.len() < j < old(self)@.len() ==> (#[trigger] old(self)@[j]).num_pages
                        < num_pages,
            decreases self@.len(),
        {
            let ghost before = self@;
            free_area = self.free_area.pop().unwrap();
            proof {
                assert(self@ =~= before.drop_last());
                assert(free_area@ == before.last());
                assert(self@ =~= old(self)@.take(self@.len() as int));
            }
        }
        proof {
            lemma_serving_index_is(old(self)@, num_pages as int, self@.len() as int);
        }
        let remaining_pages: usize = free_area.num_pages - num_pages;
        if remaining_pages > 0 {
            self.free_area.push(
                FreeArea { addr: free_area.addr + PAGE_SIZE * num_pages, num_pages: remaining_pages },
            );
        }
        proof {
            assert(self@ =~= remaining(old(self)@, num_pages as int));
        }
        AllocatedPage { addr: free_area.addr, num_pages }
    }
}

/// Cuts `num_pages` pages from the pool of `allocator` and gives the address
/// of the first. The exclusive borrow stands for the rule that only one call
/// at a time may be inside the allocator.
pub fn valloc(allocator: &mut PageAllocator, num_pages: usize) -> (addr: usize)
    requires
        old(allocator).wf(),
        fits(old(allocator)@, num_pages as int),
    ensures
        final(allocator).wf(),
        addr == granted(old(allocator)@, num_pages as int).addr,
        final(allocator)@ == remaining(old(allocator)@, num_pages as int),
{
    allocator.allocate(num_pages).addr
}

} // verus!
