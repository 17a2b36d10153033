//! Handles of communication endpoints.

use vstd::prelude::*;

verus! {

/// One end of a rendezvous between two processes, named by its number in the
/// owning process. The handle is moved, never copied: who holds it has the
/// endpoint to itself.
#[derive(Debug, PartialEq, Eq)]
pub struct Channel {
    cid: i32,
}

impl View for Channel {
    type V = int;

    closed spec fn view(&self) -> int {
        self.cid as int
    }
}

impl Channel {
    /// The handle of the endpoint numbered `cid`.
    pub fn from_cid(cid: i32) -> (ch: Channel)
        ensures
            ch@ == cid,
    {
        Channel { cid }
    }

    /// The number of the endpoint.
    pub fn cid(&self) -> (cid: i32)
        ensures
            cid == self@,
    {
        self.cid
    }
}

} // verus!
