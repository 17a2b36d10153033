use resea_netdev::allocator::{valloc, AllocatedPage, PageAllocator};
use resea_netdev::error::Error;
use resea_netdev::message::Page;
use resea_netdev::PAGE_SIZE;

fn overlap(a: &AllocatedPage, b: &AllocatedPage) -> bool {
    let a_end = a.addr + a.num_pages * PAGE_SIZE;
    let b_end = b.addr + b.num_pages * PAGE_SIZE;
    a.addr < b_end && b.addr < a_end
}

#[test]
fn page_size_is_four_kib() {
    assert_eq!(PAGE_SIZE, 4096);
}

#[test]
fn first_allocation_starts_at_the_pool() {
    let mut allocator = PageAllocator::new(0x10000, 8 * PAGE_SIZE);
    let page = allocator.allocate(3);
    assert_eq!(page.addr, 0x10000);
    assert_eq!(page.num_pages, 3);
}

#[test]
fn allocations_follow_each_other_upwards() {
    let mut allocator = PageAllocator::new(0x10000, 8 * PAGE_SIZE);
    let first = allocator.allocate(3);
    let second = allocator.allocate(2);
    let third = allocator.allocate(1);
    assert_eq!(first.addr, 0x10000);
    assert_eq!(second.addr, 0x10000 + 3 * PAGE_SIZE);
    assert_eq!(third.addr, 0x10000 + 5 * PAGE_SIZE);
    assert_eq!(second.num_pages, 2);
    assert_eq!(third.num_pages, 1);
}

#[test]
fn allocations_within_capacity_are_pairwise_disjoint() {
    let mut allocator = PageAllocator::new(0x40_0000, 16 * PAGE_SIZE);
    let sizes: [usize; 5] = [1, 4, 2, 6, 3];
    let mut pages: Vec<AllocatedPage> = Vec::new();
    for n in sizes {
        assert!(allocator.can_allocate(n));
        pages.push(allocator.allocate(n));
    }
    for i in 0..pages.len() {
        assert!(pages[i].addr >= 0x40_0000);
        assert!(pages[i].addr + pages[i].num_pages * PAGE_SIZE <= 0x40_0000 + 16 * PAGE_SIZE);
        assert_eq!(pages[i].addr % PAGE_SIZE, 0);
        for j in (i + 1)..pages.len() {
            assert!(!overlap(&pages[i], &pages[j]));
        }
    }
    assert!(!allocator.can_allocate(1));
}

#[test]
fn request_beyond_capacity_fails_and_changes_nothing() {
    let mut allocator = PageAllocator::new(0x8000, 4 * PAGE_SIZE);
    let first = allocator.allocate(1);
    assert_eq!(first.addr, 0x8000);
    match allocator.try_allocate(4) {
        Err(error) => assert_eq!(error, Error::OutOfMemory),
        Ok(_) => panic!("four pages cannot come out of three"),
    }
    assert!(allocator.can_allocate(3));
    assert!(!allocator.can_allocate(4));
    let rest = allocator.allocate(3);
    assert_eq!(rest.addr, 0x8000 + PAGE_SIZE);
    assert_eq!(rest.num_pages, 3);
}

#[test]
fn capacity_shrinks_by_the_pages_allocated() {
    let mut allocator = PageAllocator::new(0, 10 * PAGE_SIZE);
    assert!(allocator.can_allocate(10));
    assert!(!allocator.can_allocate(11));
    allocator.allocate(3);
    assert!(allocator.can_allocate(7));
    assert!(!allocator.can_allocate(8));
    allocator.allocate(7);
    assert!(!allocator.can_allocate(1));
}

#[test]
fn exhausted_pool_refuses_every_request() {
    let mut allocator = PageAllocator::new(0x1000, 2 * PAGE_SIZE);
    let all = allocator.allocate(2);
    assert_eq!(all.addr, 0x1000);
    assert!(!allocator.can_allocate(0));
    assert!(!allocator.can_allocate(1));
    assert!(matches!(allocator.try_allocate(1), Err(Error::OutOfMemory)));
    assert!(matches!(allocator.try_allocate(0), Err(Error::OutOfMemory)));
}

#[test]
fn try_allocate_serves_what_fits() {
    let mut allocator = PageAllocator::new(0x2000, 3 * PAGE_SIZE);
    match allocator.try_allocate(2) {
        Ok(page) => {
            assert_eq!(page.addr, 0x2000);
            assert_eq!(page.num_pages, 2);
        }
        Err(_) => panic!("two pages fit into three"),
    }
    match allocator.try_allocate(1) {
        Ok(page) => {
            assert_eq!(page.addr, 0x2000 + 2 * PAGE_SIZE);
            assert_eq!(page.num_pages, 1);
        }
        Err(_) => panic!("one page was left"),
    }
}

#[test]
fn partial_last_page_is_not_used() {
    let mut allocator = PageAllocator::new(0x1000, 2 * PAGE_SIZE + 2048);
    assert!(allocator.can_allocate(2));
    assert!(!allocator.can_allocate(3));
    let page = allocator.allocate(2);
    assert_eq!(page.addr, 0x1000);
    assert!(!allocator.can_allocate(1));
}

#[test]
fn pool_smaller_than_a_page_is_empty() {
    let mut allocator = PageAllocator::new(0x1000, PAGE_SIZE - 1);
    assert!(!allocator.can_allocate(1));
    assert!(!allocator.can_allocate(0));
    assert!(matches!(allocator.try_allocate(1), Err(Error::OutOfMemory)));
}

#[test]
fn empty_request_takes_nothing() {
    let mut allocator = PageAllocator::new(0x3000, 2 * PAGE_SIZE);
    let none = allocator.allocate(0);
    assert_eq!(none.addr, 0x3000);
    assert_eq!(none.num_pages, 0);
    assert!(allocator.can_allocate(2));
    let both = allocator.allocate(2);
    assert_eq!(both.addr, 0x3000);
}

#[test]
fn valloc_gives_the_address_of_the_allocation() {
    let mut allocator = PageAllocator::new(0x7000_0000, 4 * PAGE_SIZE);
    assert_eq!(valloc(&mut allocator, 1), 0x7000_0000);
    assert_eq!(valloc(&mut allocator, 2), 0x7000_0000 + PAGE_SIZE);
    assert_eq!(valloc(&mut allocator, 1), 0x7000_0000 + 3 * PAGE_SIZE);
    assert!(!allocator.can_allocate(1));
}

#[test]
fn allocated_page_gives_its_address() {
    let mut page = AllocatedPage { addr: 0x5000, num_pages: 2 };
    assert_eq!(page.as_mut_ptr(), 0x5000);
    assert_eq!(page.addr, 0x5000);
    assert_eq!(page.num_pages, 2);
}

#[test]
fn allocated_page_becomes_a_payload() {
    let page = AllocatedPage { addr: 0x9000, num_pages: 3 };
    let payload = page.as_page_payload();
    assert_eq!(payload, Page::new(0x9000, 3));
    assert_eq!(payload.addr, 0x9000);
    assert_eq!(payload.num_pages, 3);
}

#[test]
fn only_exhaustion_and_violations_are_fatal() {
    assert!(Error::OutOfMemory.is_fatal());
    assert!(Error::ContractViolation.is_fatal());
    assert!(!Error::InvalidArg.is_fatal());
    assert!(!Error::NeedsRetry.is_fatal());
    assert!(!Error::Other.is_fatal());
}
