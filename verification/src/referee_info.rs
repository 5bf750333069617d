use vstd::prelude::*;

verus! {

/// A registered referee and the room it referees.
#[derive(Debug, Clone, Copy, PartialEq, Eq, Structural)]
pub struct RefereeInfo {
    room_num: u32,
}

impl RefereeInfo {
    /// The room that the referee referees.
    pub closed spec fn spec_room_num(self) -> u32 {
        self.room_num
    }

    pub fn new(room_num: u32) -> (referee: RefereeInfo)
        ensures
            referee.spec_room_num() == room_num,
    {
        RefereeInfo { room_num }
    }

    /// The room that the referee referees.
    pub fn room_num(&self) -> (r: u32)
        ensures
            r == self.spec_room_num(),
    {
        self.room_num
    }
}

} // verus!
