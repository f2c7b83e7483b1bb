//! Marker for the request-id source that tags every inbound request; the
//! id itself is drawn at the transport edge.
use vstd::prelude::*;

verus! {

/// Generator of per-request ids.
#[derive(Clone, Copy, Debug, PartialEq, Eq, Structural)]
pub struct UuidRequestId {}

impl UuidRequestId {
    pub fn new() -> (r: UuidRequestId)
        ensures
            r == (UuidRequestId {  }),
    {
        UuidRequestId {  }
    }
}

} // verus!
