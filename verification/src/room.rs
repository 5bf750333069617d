use vstd::prelude::*;
use std::cmp::Ordering;
use vstd::std_specs::cmp::PartialEqSpecImpl;
use vstd::std_specs::cmp::PartialOrdSpecImpl;
use vstd::std_specs::cmp::PartialEqSpec;
use vstd::std_specs::cmp::PartialOrdSpec;

verus! {

/// A room: its number and the boards that have joined it, in joining order.
pub struct Room {
    pub room_num: u32,
    pub board_nums: Vec<usize>,
}

/// What a room is to the specifications: its number and its boards.
pub struct RoomView {
    pub room_num: u32,
    pub board_nums: Seq<usize>,
}

impl View for Room {
    type V = RoomView;

    open spec fn view(&self) -> RoomView {
        RoomView { room_num: self.room_num, board_nums: self.board_nums@ }
    }
}

/// The order of rooms, by room number alone.
pub open spec fn room_order(a: u32, b: u32) -> Ordering {
    if a < b {
        Ordering::Less
    } else if a == b {
        Ordering::Equal
    } else {
        Ordering::Greater
    }
}

impl Room {
    /// A room with the given number and no boards.
    pub fn new(room_num: u32) -> (room: Room)
        ensures
            room@ == (RoomView { room_num, board_nums: Seq::empty() }),
    {
        Room { room_num, board_nums: Vec::new() }
    }

    /// Compares two rooms by their numbers; the boards play no part.
    pub fn cmp(&self, other: &Room) -> (r: Ordering)
        ensures
            r == room_order(self.room_num, other.room_num),
    {
        if self.room_num < other.room_num {
            Ordering::Less
        } else if self.room_num == other.room_num {
            Ordering::Equal
        } else {
            Ordering::Greater
        }
    }
}

/// Rooms are equal exactly where their order puts them level.
pub proof fn law_room_equality_is_order(a: Room, b: Room)
    ensures
        PartialEqSpec::eq_spec(&a, &b) <==> PartialOrdSpec::partial_cmp_spec(&a, &b) == Some(
            Ordering::Equal,
        ),
        PartialOrdSpec::partial_cmp_spec(&a, &b) == Some(room_order(a.room_num, b.room_num)),
        room_order(a.room_num, b.room_num) == Ordering::Less <==> room_order(b.room_num, a.room_num)
            == Ordering::Greater,
        room_order(a.room_num, b.room_num) == Ordering::Less <==> a.room_num < b.room_num,
        room_order(a.room_num, b.room_num) == Ordering::Equal <==> a.room_num == b.room_num,
        room_order(a.room_num, b.room_num) == Ordering::Greater <==> a.room_num > b.room_num,
{
}

impl PartialEq for Room {
    fn eq(&self, other: &Room) -> (r: bool) {
        self.room_num == other.room_num
    }

    fn ne(&self, other: &Room) -> (r: bool) {
        !self.eq(other)
    }
}

impl PartialEqSpecImpl for Room {
    open spec fn obeys_eq_spec() -> bool {
        true
    }

    open spec fn eq_spec(&self, other: &Room) -> bool {
        self.room_num == other.room_num
    }
}

impl Eq for Room {
}

impl PartialOrd for Room {
    fn partial_cmp(&self, other: &Room) -> (r: Option<Ordering>) {
        Some(self.cmp(other))
    }
}

impl PartialOrdSpecImpl for Room {
    open spec fn obeys_partial_cmp_spec() -> bool {
        true
    }

    open spec fn partial_cmp_spec(&self, other: &Room) -> Option<Ordering> {
        Some(room_order(self.room_num, other.room_num))
    }
}

} // verus!
