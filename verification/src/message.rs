//! Values that travel between processes as message payloads.

use vstd::prelude::*;

verus! {

/// The descriptor of a page-aligned region that is handed to another process
/// as a message payload. Whoever receives it gains the region; the sender
/// must not touch the memory afterwards.
#[derive(Debug, Clone, Copy, PartialEq, Eq, Structural)]
pub struct Page {
    pub addr: usize,
    pub num_pages: usize,
}

impl Page {
    /// Describes the `num_pages` pages that start at `addr`.
    pub fn new(addr: usize, num_pages: usize) -> (page: Page)
        ensures
            page.addr == addr,
            page.num_pages == num_pages,
    {
        Page { addr, num_pages }
    }
}

} // verus!
