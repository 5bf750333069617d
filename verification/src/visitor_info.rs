use vstd::prelude::*;

verus! {

/// A registered visitor: the connection it came in on and the room it watches.
#[derive(Debug, Clone, Copy, PartialEq, Eq, Structural)]
pub struct VisitorInfo {
    /// The id of the connection that registered the visitor.
    pub connection: u32,
    pub room_num: u32,
}

impl VisitorInfo {
    pub fn new(connection: u32, room_num: u32) -> (visitor: VisitorInfo)
        ensures
            visitor == (VisitorInfo { connection, room_num }),
    {
        VisitorInfo { connection, room_num }
    }
}

} // verus!
