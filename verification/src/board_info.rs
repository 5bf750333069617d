use vstd::prelude::*;

verus! {

/// A registered board: the network it reports, the connection it came in
/// on, and the room that its app has put it into.
pub struct BoardInfo {
    pub wifi: String,
    pub ip: String,
    /// The id of the connection that registered the board.
    pub connection: u32,
    pub op_room_num: Option<u32>,
    pub op_board_name: Option<String>,
}

impl BoardInfo {
    /// A board that is in no room and has no name yet.
    pub open spec fn spec_new(wifi: String, ip: String, connection: u32) -> BoardInfo {
        BoardInfo { wifi, ip, connection, op_room_num: None, op_board_name: None }
    }

    /// A board that is in no room and has no name yet.
    pub fn new(wifi: String, ip: String, connection: u32) -> (board: BoardInfo)
        ensures
            board == BoardInfo::spec_new(wifi, ip, connection),
    {
        BoardInfo { wifi, ip, connection, op_room_num: None, op_board_name: None }
    }

    /// The same board, now placed in `room_num`.
    pub open spec fn in_room(self, room_num: u32) -> BoardInfo {
        BoardInfo { op_room_num: Some(room_num), ..self }
    }
}

impl Clone for BoardInfo {
    fn clone(&self) -> (r: BoardInfo)
        ensures
            r == *self,
    {
        let op_board_name = match &self.op_board_name {
            Some(name) => Some(name.clone()),
            None => None,
        };
        BoardInfo {
            wifi: self.wifi.clone(),
            ip: self.ip.clone(),
            connection: self.connection,
            op_room_num: self.op_room_num,
            op_board_name,
        }
    }
}

} // verus!
