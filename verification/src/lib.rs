//! Page-granular address-range allocation and the receive-path protocol of a
//! network-device service that is driven purely by message passing.

use vstd::prelude::*;

pub mod allocator;
pub mod allocator_laws;
pub mod channel;
pub mod error;
pub mod message;
pub mod server;
pub mod server_laws;

verus! {

/// Size in bytes of one page, the granule of every region handled here.
pub const PAGE_SIZE: usize = 4096;

} // verus!
