//! The server's shared state and the requests that read and change it.
use vstd::prelude::*;
use slab::Slab;
use crate::board_info::BoardInfo;
use crate::character::Character;
use crate::command_args::{
    law_parse_render, render_message, render_message_text, spec_parse_message, MessageArgsView,
};
use crate::referee_info::RefereeInfo;
use crate::room::{Room, RoomView};
use crate::server::{ThreadView, WsThreadInfo};
use crate::tables::{
    board_entries, board_keys, get_board, insert_board, insert_referee, insert_visitor,
    is_key_order, key_order, law_key_order_lists_keys, lemma_key_order_is, new_board_table, new_referee_table,
    new_visitor_table, referee_entries, remove_board, replace_board, visitor_at,
    visitor_entries, visitor_keys,
};
use crate::text::{
    decimal, decimal_string, is_digit, lemma_decimal_digits, push_char, push_str, views,
};
use crate::visitor_info::VisitorInfo;

verus! {

broadcast use vstd::string::group_string_axioms;

/// The state that all connections share: the rooms, in the order they were
/// opened, and the tables of boards, visitors and referees.
pub struct ServerData {
    rooms: Vec<Room>,
    boards: Slab<BoardInfo>,
    visitors: Slab<VisitorInfo>,
    referees: Slab<RefereeInfo>,
}

/// The contents of the shared state.
pub struct ServerState {
    pub rooms: Seq<RoomView>,
    pub boards: Map<usize, BoardInfo>,
    pub visitors: Map<usize, VisitorInfo>,
    pub referees: Map<usize, RefereeInfo>,
}

impl View for ServerData {
    type V = ServerState;

    closed spec fn view(&self) -> ServerState {
        ServerState {
            rooms: self.rooms@.map_values(|r: Room| r@),
            boards: board_entries(self.boards),
            visitors: visitor_entries(self.visitors),
            referees: referee_entries(self.referees),
        }
    }
}

impl ServerData {
    /// Every value of the server's state is well formed.
    #[verifier::type_invariant]
    closed spec fn inv(self) -> bool {
        well_formed(self@)
    }

    /// Whether a board is registered under `key`.
    pub fn has_board(&self, key: usize) -> (b: bool)
        ensures
            b == self@.boards.dom().contains(key),
    {
        get_board(&self.boards, key).is_some()
    }
}

/// No two rooms share a number.
pub open spec fn distinct_room_numbers(rooms: Seq<RoomView>) -> bool {
    forall|i: int, j: int|
        0 <= i < j < rooms.len() ==> (#[trigger] rooms[i]).room_num != (#[trigger] rooms[j]).room_num
}

/// What every state of the server keeps: no two rooms share a number, a
/// board with a name is in a room, and each table holds finitely many
/// entries.
pub open spec fn well_formed(s: ServerState) -> bool {
    &&& distinct_room_numbers(s.rooms)
    &&& forall|k: usize|
        #![trigger s.boards[k]]
        s.boards.dom().contains(k) && s.boards[k].op_board_name is Some
            ==> s.boards[k].op_room_num is Some
    &&& s.boards.dom().finite()
    &&& s.visitors.dom().finite()
    &&& s.referees.dom().finite()
}

/// The state the server starts in: room 1, and nothing registered.
pub open spec fn initial_state() -> ServerState {
    ServerState {
        rooms: seq![RoomView { room_num: 1, board_nums: Seq::empty() }],
        boards: Map::empty(),
        visitors: Map::empty(),
        referees: Map::empty(),
    }
}

/// The server starts with a single room, numbered 1 and holding no board,
/// and with no board, visitor or referee registered.
pub proof fn law_initial_state()
    ensures
        initial_state().rooms.len() == 1,
        initial_state().rooms[0].room_num == 1,
        initial_state().rooms[0].board_nums.len() == 0,
        initial_state().boards.dom().len() == 0,
        initial_state().visitors.dom().len() == 0,
        initial_state().referees.dom().len() == 0,
        well_formed(initial_state()),
{
    assert(initial_state().boards.dom() =~= Set::<usize>::empty());
    assert(initial_state().visitors.dom() =~= Set::<usize>::empty());
    assert(initial_state().referees.dom() =~= Set::<usize>::empty());
}

// ---------------------------------------------------------------------------
// Joining a room
// ---------------------------------------------------------------------------

/// Some room is numbered `room_num`.
pub open spec fn has_room(rooms: Seq<RoomView>, room_num: u32) -> bool {
    exists|i: int| 0 <= i < rooms.len() && (#[trigger] rooms[i]).room_num == room_num
}

/// Room `r` is numbered `room_num` and does not hold `board` yet.
pub open spec fn is_open_room(r: RoomView, room_num: u32, board: usize) -> bool {
    r.room_num == room_num && !r.board_nums.contains(board)
}

/// `i` is the first room numbered `room_num` that does not hold `board` yet.
pub open spec fn is_first_open_room(rooms: Seq<RoomView>, room_num: u32, board: usize, i: int) -> bool {
    &&& 0 <= i < rooms.len()
    &&& is_open_room(rooms[i], room_num, board)
    &&& forall|j: int| 0 <= j < i ==> !is_open_room(#[trigger] rooms[j], room_num, board)
}

/// A room numbered `room_num` that holds `board` alone.
pub open spec fn room_with(room_num: u32, board: usize) -> RoomView {
    RoomView { room_num, board_nums: seq![board] }
}

/// The rooms after `board` has joined room `room_num`: the board is added
/// to the first room of that number that does not hold it yet; where every
/// room of that number holds it already, nothing changes; where there is no
/// room of that number, a room of that number holding the board alone is
/// appended.
pub open spec fn rooms_after_join(rooms: Seq<RoomView>, room_num: u32, board: usize) -> Seq<RoomView> {
    if exists|i: int| is_first_open_room(rooms, room_num, board, i) {
        let i = choose|i: int| is_first_open_room(rooms, room_num, board, i);
        rooms.update(i, RoomView { room_num, board_nums: rooms[i].board_nums.push(board) })
    } else if has_room(rooms, room_num) {
        rooms
    } else {
        rooms.push(room_with(room_num, board))
    }
}

/// Where some room of that number lacks the board, there is a first such room.
proof fn lemma_first_open_room_exists(rooms: Seq<RoomView>, room_num: u32, board: usize, j: int)
    requires
        0 <= j < rooms.len(),
        is_open_room(rooms[j], room_num, board),
    ensures
        exists|f: int| is_first_open_room(rooms, room_num, board, f),
    decreases j,
{
    if forall|g: int| 0 <= g < j ==> !is_open_room(#[trigger] rooms[g], room_num, board) {
        assert(is_first_open_room(rooms, room_num, board, j));
    } else {
        let g = choose|g: int| 0 <= g < j && is_open_room(#[trigger] rooms[g], room_num, board);
        lemma_first_open_room_exists(rooms, room_num, board, g);
    }
}

/// The state after an app has registered `board` into room `room_num`: the
/// board joins the room and, where it is registered, is marked as being in
/// that room.
pub open spec fn app_registered(s: ServerState, room_num: u32, board: usize) -> ServerState {
    ServerState {
        rooms: rooms_after_join(s.rooms, room_num, board),
        boards: if s.boards.dom().contains(board) {
            s.boards.insert(board, s.boards[board].in_room(room_num))
        } else {
            s.boards
        },
        ..s
    }
}

/// After a board joins a room, some room of that number holds it.
pub proof fn law_joined_room_holds_board(rooms: Seq<RoomView>, room_num: u32, board: usize)
    ensures
        exists|i: int|
            0 <= i < rooms_after_join(rooms, room_num, board).len() && (#[trigger] rooms_after_join(
                rooms,
                room_num,
                board,
            )[i]).room_num == room_num && rooms_after_join(rooms, room_num, board)[i].board_nums.contains(
                board,
            ),
{
    let after = rooms_after_join(rooms, room_num, board);
    if exists|i: int| is_first_open_room(rooms, room_num, board, i) {
        let i = choose|i: int| is_first_open_room(rooms, room_num, board, i);
        let b = rooms[i].board_nums.push(board);
        assert(b[b.len() - 1] == board);
        assert(after[i].board_nums.contains(board));
    } else if has_room(rooms, room_num) {
        let i = choose|i: int| 0 <= i < rooms.len() && (#[trigger] rooms[i]).room_num == room_num;
        if !rooms[i].board_nums.contains(board) {
            lemma_first_open_room_exists(rooms, room_num, board, i);
        }
        assert(after[i].board_nums.contains(board));
    } else {
        assert(after[rooms.len() as int] == room_with(room_num, board));
        assert(room_with(room_num, board).board_nums[0] == board);
        assert(after[rooms.len() as int].board_nums.contains(board));
    }
}

/// Joining a room takes no room away: every room keeps its number and its
/// boards, in place.
pub proof fn law_join_keeps_rooms(rooms: Seq<RoomView>, room_num: u32, board: usize)
    ensures
        rooms.len() <= rooms_after_join(rooms, room_num, board).len(),
        forall|i: int|
            0 <= i < rooms.len() ==> (#[trigger] rooms_after_join(rooms, room_num, board)[i]).room_num
                == rooms[i].room_num && rooms[i].board_nums.is_prefix_of(
                rooms_after_join(rooms, room_num, board)[i].board_nums,
            ),
{
    let after = rooms_after_join(rooms, room_num, board);
    if exists|i: int| is_first_open_room(rooms, room_num, board, i) {
        let k = choose|i: int| is_first_open_room(rooms, room_num, board, i);
        assert forall|i: int| 0 <= i < rooms.len() implies (#[trigger] after[i]).room_num
            == rooms[i].room_num && rooms[i].board_nums.is_prefix_of(after[i].board_nums) by {
            if i == k {
                assert(rooms[i].board_nums.is_prefix_of(rooms[i].board_nums.push(board)));
            } else {
                assert(rooms[i].board_nums.is_prefix_of(rooms[i].board_nums));
            }
        }
    } else {
        assert forall|i: int| 0 <= i < rooms.len() implies (#[trigger] after[i]).room_num
            == rooms[i].room_num && rooms[i].board_nums.is_prefix_of(after[i].board_nums) by {
            assert(rooms[i].board_nums.is_prefix_of(rooms[i].board_nums));
        }
    }
}

/// Where room numbers are distinct, they stay distinct after a join, and
/// afterwards exactly one room has the joined number and it holds the
/// board. No room of that number lacks the board any longer.
pub proof fn law_join_keeps_numbers_distinct(rooms: Seq<RoomView>, room_num: u32, board: usize)
    requires
        distinct_room_numbers(rooms),
    ensures
        distinct_room_numbers(rooms_after_join(rooms, room_num, board)),
        exists|i: int|
            0 <= i < rooms_after_join(rooms, room_num, board).len() && (#[trigger] rooms_after_join(
                rooms,
                room_num,
                board,
            )[i]).room_num == room_num && rooms_after_join(rooms, room_num, board)[i].board_nums.contains(
                board,
            ) && forall|j: int|
                0 <= j < rooms_after_join(rooms, room_num, board).len() && j != i
                    ==> rooms_after_join(rooms, room_num, board)[j].room_num != room_num,
        forall|j: int|
            0 <= j < rooms_after_join(rooms, room_num, board).len() ==> !is_open_room(
                #[trigger] rooms_after_join(rooms, room_num, board)[j],
                room_num,
                board,
            ),
{
    let after = rooms_after_join(rooms, room_num, board);
    law_joined_room_holds_board(rooms, room_num, board);
    law_join_keeps_rooms(rooms, room_num, board);
    let i = choose|i: int|
        0 <= i < after.len() && (#[trigger] after[i]).room_num == room_num
            && after[i].board_nums.contains(board);
    if exists|k: int| is_first_open_room(rooms, room_num, board, k) {
        assert(after.len() == rooms.len());
    } else if has_room(rooms, room_num) {
        assert(after == rooms);
    } else {
        assert(after =~= rooms.push(room_with(room_num, board)));
        assert forall|j: int| 0 <= j < rooms.len() implies rooms[j].room_num != room_num by {
            if rooms[j].room_num == room_num {
                assert(has_room(rooms, room_num));
            }
        }
    }
    assert forall|a: int, b: int| 0 <= a < b < after.len() implies (#[trigger] after[a]).room_num
        != (#[trigger] after[b]).room_num by {
        if b < rooms.len() {
            assert(after[a].room_num == rooms[a].room_num);
            assert(after[b].room_num == rooms[b].room_num);
        } else {
            assert(after[a].room_num == rooms[a].room_num);
            assert(rooms[a].room_num != room_num);
        }
    }
    assert forall|j: int| 0 <= j < after.len() && j != i implies after[j].room_num != room_num by {
        if after[j].room_num == room_num {
            if j < i {
                assert(after[j].room_num != after[i].room_num);
            } else {
                assert(after[i].room_num != after[j].room_num);
            }
        }
    }
    assert forall|j: int| 0 <= j < after.len() implies !is_open_room(
        #[trigger] after[j],
        room_num,
        board,
    ) by {
        if j != i {
            assert(after[j].room_num != room_num);
        }
    }
}

/// Joining the same room with the same board a second time changes nothing,
/// where room numbers are distinct.
pub proof fn law_join_twice(rooms: Seq<RoomView>, room_num: u32, board: usize)
    requires
        distinct_room_numbers(rooms),
    ensures
        rooms_after_join(rooms_after_join(rooms, room_num, board), room_num, board)
            == rooms_after_join(rooms, room_num, board),
{
    let after = rooms_after_join(rooms, room_num, board);
    law_join_keeps_numbers_distinct(rooms, room_num, board);
    assert(!exists|k: int| is_first_open_room(after, room_num, board, k));
    let i = choose|i: int|
        0 <= i < after.len() && (#[trigger] after[i]).room_num == room_num
            && after[i].board_nums.contains(board) && forall|j: int|
            0 <= j < after.len() && j != i ==> after[j].room_num != room_num;
    assert(has_room(after, room_num));
}

/// An app registering the same board into the same room a second time
/// changes nothing.
pub proof fn law_register_app_twice(s: ServerState, room_num: u32, board: usize)
    requires
        well_formed(s),
    ensures
        app_registered(app_registered(s, room_num, board), room_num, board) == app_registered(
            s,
            room_num,
            board,
        ),
{
    law_join_twice(s.rooms, room_num, board);
    let t = app_registered(s, room_num, board);
    if s.boards.dom().contains(board) {
        assert(t.boards[board].in_room(room_num) == t.boards[board]);
        assert(t.boards.insert(board, t.boards[board].in_room(room_num)) =~= t.boards);
    }
}

// ---------------------------------------------------------------------------
// Registration and closing
// ---------------------------------------------------------------------------

/// The state after a board has been stored under `key`.
pub open spec fn board_registered(s: ServerState, key: usize, board: BoardInfo) -> ServerState {
    ServerState { boards: s.boards.insert(key, board), ..s }
}

/// The state after a visitor has been stored under `key`.
pub open spec fn visitor_registered(s: ServerState, key: usize, visitor: VisitorInfo) -> ServerState {
    ServerState { visitors: s.visitors.insert(key, visitor), ..s }
}

/// The state after a referee has been stored under `key`.
pub open spec fn referee_registered(s: ServerState, key: usize, referee: RefereeInfo) -> ServerState {
    ServerState { referees: s.referees.insert(key, referee), ..s }
}

/// The state after a connection in the role `c` has closed: a board leaves
/// the board table; nothing else changes.
pub open spec fn closed(s: ServerState, c: Character) -> ServerState {
    match c {
        Character::Board { board_id } => ServerState { boards: s.boards.remove(board_id), ..s },
        _ => s,
    }
}

/// Closing the connection of a board that has just registered gives back the
/// state from before the registration.
pub proof fn law_close_undoes_board_registration(s: ServerState, key: usize, board: BoardInfo)
    requires
        !s.boards.dom().contains(key),
    ensures
        closed(board_registered(s, key, board), Character::Board { board_id: key }) == s,
{
    assert(s.boards.insert(key, board).remove(key) =~= s.boards);
}

/// Closing a connection that is already closed changes nothing.
pub proof fn law_close_twice(s: ServerState)
    ensures
        closed(s, Character::Exited) == s,
{
}

// ---------------------------------------------------------------------------
// Messages
// ---------------------------------------------------------------------------

/// The room numbers, in room order.
pub open spec fn room_numbers(rooms: Seq<RoomView>) -> Seq<Seq<char>> {
    rooms.map_values(|r: RoomView| decimal(r.room_num as nat))
}

/// How a board appears in the list of boards: `(key,wifi,ip)`.
pub open spec fn board_entry(key: usize, b: BoardInfo) -> Seq<char> {
    seq!['('] + decimal(key as nat) + seq![','] + b.wifi@ + seq![','] + b.ip@ + seq![')']
}

/// The entries of the boards under `keys`, in that order.
pub open spec fn board_entries_of(keys: Seq<usize>, boards: Map<usize, BoardInfo>) -> Seq<Seq<char>> {
    keys.map_values(|k: usize| board_entry(k, boards[k]))
}

/// Whether board `b` has a name and is in room `room_num`.
pub open spec fn named_in_room(b: BoardInfo, room_num: u32) -> bool {
    b.op_board_name is Some && b.op_room_num == Some(room_num)
}

/// How a named board appears in the list of a room's boards: `(key,name)`.
pub open spec fn named_board_entry(key: usize, b: BoardInfo) -> Seq<char> {
    seq!['('] + decimal(key as nat) + seq![','] + b.op_board_name.unwrap()@ + seq![')']
}

/// The entries of the named boards of room `room_num` among `keys`, in that
/// order.
pub open spec fn room_board_entries(keys: Seq<usize>, boards: Map<usize, BoardInfo>, room_num: u32) -> Seq<Seq<char>>
    decreases keys.len(),
{
    if keys.len() == 0 {
        Seq::empty()
    } else {
        let rest = room_board_entries(keys.drop_last(), boards, room_num);
        let k = keys.last();
        if named_in_room(boards[k], room_num) {
            rest.push(named_board_entry(k, boards[k]))
        } else {
            rest
        }
    }
}

/// The connections of the visitors under `keys`, from the first on, for as
/// long as each is in room `room`; the first visitor in another room ends
/// the list.
pub open spec fn leading_visitors(keys: Seq<usize>, visitors: Map<usize, VisitorInfo>, room: Option<u32>) -> Seq<u32>
    decreases keys.len(),
{
    if keys.len() == 0 || Some(visitors[keys[0]].room_num) != room {
        Seq::empty()
    } else {
        seq![visitors[keys[0]].connection] + leading_visitors(keys.drop_first(), visitors, room)
    }
}

/// The answer to a request for the rooms: their numbers, in room order.
pub open spec fn list_rooms_message(s: ServerState) -> Seq<char> {
    render_message("response_list_rooms"@, room_numbers(s.rooms))
}

/// The answer to a request for the boards: every board, by increasing key.
pub open spec fn list_boards_message(s: ServerState) -> Seq<char> {
    render_message("response_list_boards"@, board_entries_of(key_order(s.boards.dom()), s.boards))
}

/// The answer to a request for the boards of a room: its named boards, by
/// increasing key.
pub open spec fn list_boards_in_room_message(s: ServerState, room_num: u32) -> Seq<char> {
    render_message(
        "response_list_boards"@,
        room_board_entries(key_order(s.boards.dom()), s.boards, room_num),
    )
}

/// The order to place board `board_id` at `(x, y)`.
pub open spec fn set_board_coords_message(board_id: usize, x: Seq<char>, y: Seq<char>) -> Seq<char> {
    render_message("request_set_board_coords"@, seq![decimal(board_id as nat), x, y])
}

/// The list of rooms that the server sends reads back, with the same
/// parser, as the room numbers, as long as there is a room.
pub proof fn law_room_list_reads_back(s: ServerState)
    requires
        s.rooms.len() >= 1,
    ensures
        spec_parse_message(list_rooms_message(s)) == Some(
            MessageArgsView {
                command: "response_list_rooms"@,
                args: room_numbers(s.rooms),
                dialogue_id: None,
            },
        ),
        room_numbers(s.rooms).len() == s.rooms.len(),
        forall|i: int|
            0 <= i < s.rooms.len() ==> #[trigger] room_numbers(s.rooms)[i] == decimal(
                s.rooms[i].room_num as nat,
            ),
{
    reveal_strlit("response_list_rooms");
    let c = "response_list_rooms"@;
    assert(!c.contains(':')) by {
        if c.contains(':') {
            let i = choose|i: int| 0 <= i < c.len() && c[i] == ':';
            assert(c[i] != ':');
        }
    }
    let args = room_numbers(s.rooms);
    assert forall|i: int| 0 <= i < args.len() implies !(#[trigger] args[i]).contains(':')
        && !args[i].contains(',') by {
        let n = s.rooms[i].room_num as nat;
        lemma_decimal_digits(n);
        let d = decimal(n);
        if d.contains(':') {
            let j = choose|j: int| 0 <= j < d.len() && d[j] == ':';
            assert(is_digit(d[j]));
        }
        if d.contains(',') {
            let j = choose|j: int| 0 <= j < d.len() && d[j] == ',';
            assert(is_digit(d[j]));
        }
    }
    law_parse_render(c, args);
}

/// Every connection that is told of a board's new place belongs to a visitor
/// in the board's room.
pub proof fn law_coords_stay_in_room(keys: Seq<usize>, visitors: Map<usize, VisitorInfo>, room: Option<u32>, i: int)
    requires
        0 <= i < leading_visitors(keys, visitors, room).len(),
    ensures
        exists|j: int|
            0 <= j < keys.len() && visitors[#[trigger] keys[j]].connection == leading_visitors(
                keys,
                visitors,
                room,
            )[i] && Some(visitors[keys[j]].room_num) == room,
    decreases keys.len(),
{
    let rest = keys.drop_first();
    if i == 0 {
        assert(visitors[keys[0]].connection == leading_visitors(keys, visitors, room)[0]);
    } else {
        law_coords_stay_in_room(rest, visitors, room, i - 1);
        let j = choose|j: int|
            0 <= j < rest.len() && visitors[#[trigger] rest[j]].connection == leading_visitors(
                rest,
                visitors,
                room,
            )[i - 1] && Some(visitors[rest[j]].room_num) == room;
        assert(keys[j + 1] == rest[j]);
    }
}

/// What registering an app does to the board table: a registered board is
/// now in the given room and keeps its network, address, connection and
/// name; every other board is untouched, and no board is added or removed.
/// The other tables do not change.
pub proof fn law_register_app_places_board(s: ServerState, room_num: u32, board: usize)
    ensures
        app_registered(s, room_num, board).boards.dom() == s.boards.dom(),
        s.boards.dom().contains(board) ==> {
            let b = app_registered(s, room_num, board).boards[board];
            &&& b.op_room_num == Some(room_num)
            &&& b.wifi == s.boards[board].wifi
            &&& b.ip == s.boards[board].ip
            &&& b.connection == s.boards[board].connection
            &&& b.op_board_name == s.boards[board].op_board_name
        },
        forall|k: usize|
            k != board && #[trigger] s.boards.dom().contains(k) ==> app_registered(
                s,
                room_num,
                board,
            ).boards[k] == s.boards[k],
        app_registered(s, room_num, board).visitors == s.visitors,
        app_registered(s, room_num, board).referees == s.referees,
{
    if s.boards.dom().contains(board) {
        assert(s.boards.insert(board, s.boards[board].in_room(room_num)).dom() =~= s.boards.dom());
    }
}

/// What closing a connection does: a board's connection takes its board,
/// and only its board, out of the board table; closing any other
/// connection (an app's too) leaves the shared state as it was.
pub proof fn law_close_changes_only_boards(s: ServerState, c: Character)
    ensures
        !(c is Board) ==> closed(s, c) == s,
        c matches Character::Board { board_id } ==> {
            &&& closed(s, c).boards.dom() == s.boards.dom().remove(board_id)
            &&& forall|k: usize|
                k != board_id && #[trigger] s.boards.dom().contains(k) ==> closed(s, c).boards[k]
                    == s.boards[k]
            &&& closed(s, c).rooms == s.rooms
            &&& closed(s, c).visitors == s.visitors
            &&& closed(s, c).referees == s.referees
        },
{
}

/// What registering stores: the new entry under its key, every other entry
/// as it was, and the other parts of the state untouched.
pub proof fn law_registrations_store_one_entry(
    s: ServerState,
    key: usize,
    board: BoardInfo,
    visitor: VisitorInfo,
    referee: RefereeInfo,
)
    ensures
        board_registered(s, key, board).boards[key] == board,
        board_registered(s, key, board).boards.dom() == s.boards.dom().insert(key),
        forall|k: usize|
            k != key && #[trigger] s.boards.dom().contains(k) ==> board_registered(
                s,
                key,
                board,
            ).boards[k] == s.boards[k],
        board_registered(s, key, board).rooms == s.rooms,
        board_registered(s, key, board).visitors == s.visitors,
        board_registered(s, key, board).referees == s.referees,
        visitor_registered(s, key, visitor).visitors[key] == visitor,
        visitor_registered(s, key, visitor).visitors.dom() == s.visitors.dom().insert(key),
        forall|k: usize|
            k != key && #[trigger] s.visitors.dom().contains(k) ==> visitor_registered(
                s,
                key,
                visitor,
            ).visitors[k] == s.visitors[k],
        visitor_registered(s, key, visitor).rooms == s.rooms,
        visitor_registered(s, key, visitor).boards == s.boards,
        visitor_registered(s, key, visitor).referees == s.referees,
        referee_registered(s, key, referee).referees[key] == referee,
        referee_registered(s, key, referee).referees.dom() == s.referees.dom().insert(key),
        forall|k: usize|
            k != key && #[trigger] s.referees.dom().contains(k) ==> referee_registered(
                s,
                key,
                referee,
            ).referees[k] == s.referees[k],
        referee_registered(s, key, referee).rooms == s.rooms,
        referee_registered(s, key, referee).boards == s.boards,
        referee_registered(s, key, referee).visitors == s.visitors,
{
}

/// A freshly registered board carries the network and address it was
/// registered with, in that order, and the registering connection; it is in
/// no room and has no name.
pub proof fn law_new_board_fields(wifi: String, ip: String, connection: u32)
    ensures
        BoardInfo::spec_new(wifi, ip, connection).wifi == wifi,
        BoardInfo::spec_new(wifi, ip, connection).ip == ip,
        BoardInfo::spec_new(wifi, ip, connection).connection == connection,
        BoardInfo::spec_new(wifi, ip, connection).op_room_num is None,
        BoardInfo::spec_new(wifi, ip, connection).op_board_name is None,
{
}

/// The board list names every registered board, once, by increasing key,
/// as `(key,network,address)`, whatever room the board is in.
pub proof fn law_board_list_names_every_board(s: ServerState)
    requires
        s.boards.dom().finite(),
    ensures
        exists|keys: Seq<usize>|
            {
                &&& is_key_order(keys, s.boards.dom())
                &&& list_boards_message(s) == render_message(
                    "response_list_boards"@,
                    keys.map_values(
                        |k: usize|
                            seq!['('] + decimal(k as nat) + seq![','] + s.boards[k].wifi@ + seq![
                                ',',
                            ] + s.boards[k].ip@ + seq![')'],
                    ),
                )
            },
{
    law_key_order_lists_keys(s.boards.dom());
    let keys = key_order(s.boards.dom());
    assert(board_entries_of(keys, s.boards) =~= keys.map_values(
        |k: usize|
            seq!['('] + decimal(k as nat) + seq![','] + s.boards[k].wifi@ + seq![','] + s.boards[k].ip@
                + seq![')'],
    ));
}

/// The entries for a room are the named boards of that room among the keys,
/// in order.
proof fn lemma_room_entries_filter(keys: Seq<usize>, boards: Map<usize, BoardInfo>, room_num: u32)
    ensures
        room_board_entries(keys, boards, room_num) == keys.filter(
            |k: usize| named_in_room(boards[k], room_num),
        ).map_values(|k: usize| named_board_entry(k, boards[k])),
    decreases keys.len(),
{
    reveal(Seq::filter);
    let p = |k: usize| named_in_room(boards[k], room_num);
    let f = |k: usize| named_board_entry(k, boards[k]);
    if keys.len() == 0 {
        assert(keys.filter(p).map_values(f) =~= Seq::<Seq<char>>::empty());
    } else {
        lemma_room_entries_filter(keys.drop_last(), boards, room_num);
        if p(keys.last()) {
            assert(keys.filter(p) == keys.drop_last().filter(p).push(keys.last()));
            assert(keys.filter(p).map_values(f) =~= keys.drop_last().filter(p).map_values(f).push(
                f(keys.last()),
            ));
        } else {
            assert(keys.filter(p) == keys.drop_last().filter(p));
        }
    }
}

/// The list of a room's boards names, by increasing key, exactly the
/// registered boards that have a name and are in that room, as
/// `(key,name)`.
pub proof fn law_room_board_list(s: ServerState, room_num: u32)
    requires
        s.boards.dom().finite(),
    ensures
        exists|keys: Seq<usize>|
            {
                &&& is_key_order(keys, s.boards.dom())
                &&& list_boards_in_room_message(s, room_num) == render_message(
                    "response_list_boards"@,
                    keys.filter(
                        |k: usize|
                            s.boards[k].op_board_name is Some && s.boards[k].op_room_num == Some(
                                room_num,
                            ),
                    ).map_values(
                        |k: usize|
                            seq!['('] + decimal(k as nat) + seq![','] + s.boards[k].op_board_name.unwrap()@
                                + seq![')'],
                    ),
                )
            },
{
    law_key_order_lists_keys(s.boards.dom());
    let keys = key_order(s.boards.dom());
    lemma_room_entries_filter(keys, s.boards, room_num);
    let p1 = |k: usize| named_in_room(s.boards[k], room_num);
    let p2 = |k: usize| s.boards[k].op_board_name is Some && s.boards[k].op_room_num == Some(room_num);
    assert(p1 =~= p2);
    let f1 = |k: usize| named_board_entry(k, s.boards[k]);
    let f2 = |k: usize|
        seq!['('] + decimal(k as nat) + seq![','] + s.boards[k].op_board_name.unwrap()@ + seq![')'];
    assert(keys.filter(p2).map_values(f1) =~= keys.filter(p2).map_values(f2));
}

/// Who is told of a board's new place: the visitors under the first keys,
/// in key order, as long as each is in the board's room; the first visitor
/// in another room ends the list.
pub proof fn law_coords_reach_leading_visitors(keys: Seq<usize>, visitors: Map<usize, VisitorInfo>, room: Option<u32>)
    ensures
        leading_visitors(keys, visitors, room).len() <= keys.len(),
        forall|i: int|
            0 <= i < leading_visitors(keys, visitors, room).len() ==> (#[trigger] leading_visitors(
                keys,
                visitors,
                room,
            )[i]) == visitors[keys[i]].connection && Some(visitors[keys[i]].room_num) == room,
        leading_visitors(keys, visitors, room).len() < keys.len() ==> Some(
            visitors[keys[leading_visitors(keys, visitors, room).len() as int]].room_num,
        ) != room,
    decreases keys.len(),
{
    if keys.len() > 0 && Some(visitors[keys[0]].room_num) == room {
        let rest = keys.drop_first();
        law_coords_reach_leading_visitors(rest, visitors, room);
        let l = leading_visitors(keys, visitors, room);
        let lr = leading_visitors(rest, visitors, room);
        assert forall|i: int| 0 <= i < l.len() implies (#[trigger] l[i]) == visitors[keys[i]].connection
            && Some(visitors[keys[i]].room_num) == room by {
            if i > 0 {
                assert(l[i] == lr[i - 1]);
                assert(keys[i] == rest[i - 1]);
            }
        }
        if l.len() < keys.len() {
            assert(keys[l.len() as int] == rest[lr.len() as int]);
        }
    }
}

/// The order to place a board reads back as its key and the coordinates,
/// where the coordinates hold no `:` and no `,`.
pub proof fn law_coords_message_reads_back(board_id: usize, x: Seq<char>, y: Seq<char>)
    requires
        !x.contains(':') && !x.contains(','),
        !y.contains(':') && !y.contains(','),
    ensures
        spec_parse_message(set_board_coords_message(board_id, x, y)) == Some(
            MessageArgsView {
                command: "request_set_board_coords"@,
                args: seq![decimal(board_id as nat), x, y],
                dialogue_id: None,
            },
        ),
{
    reveal_strlit("request_set_board_coords");
    let c = "request_set_board_coords"@;
    assert(!c.contains(':')) by {
        if c.contains(':') {
            let i = choose|i: int| 0 <= i < c.len() && c[i] == ':';
            assert(c[i] != ':');
        }
    }
    let args = seq![decimal(board_id as nat), x, y];
    lemma_decimal_digits(board_id as nat);
    let d = decimal(board_id as nat);
    assert(!d.contains(':') && !d.contains(',')) by {
        if d.contains(':') {
            let j = choose|j: int| 0 <= j < d.len() && d[j] == ':';
            assert(is_digit(d[j]));
        }
        if d.contains(',') {
            let j = choose|j: int| 0 <= j < d.len() && d[j] == ',';
            assert(is_digit(d[j]));
        }
    }
    assert forall|i: int| 0 <= i < args.len() implies !(#[trigger] args[i]).contains(':')
        && !args[i].contains(',') by {}
    law_parse_render(c, args);
}

/// The visitors that are told of a board's new place.
pub struct BoardCoordsBroadcast {
    /// The order to place the board.
    pub message: String,
    /// The connections of the visitors to send it to, in visitor key order.
    pub connections: Vec<u32>,
}

/// Whether a visitor list is all in room `room`, with the ones that follow
/// not counted.
proof fn lemma_leading_visitors_stop(keys: Seq<usize>, visitors: Map<usize, VisitorInfo>, room: Option<u32>, i: int)
    requires
        0 <= i <= keys.len(),
        forall|j: int| 0 <= j < i ==> Some(visitors[#[trigger] keys[j]].room_num) == room,
        i < keys.len() ==> Some(visitors[keys[i]].room_num) != room,
    ensures
        leading_visitors(keys, visitors, room) == keys.take(i).map_values(
            |k: usize| visitors[k].connection,
        ),
    decreases i,
{
    if i == 0 {
        assert(keys.take(0).map_values(|k: usize| visitors[k].connection) =~= Seq::<u32>::empty());
    } else {
        let rest = keys.drop_first();
        assert forall|j: int| 0 <= j < i - 1 implies Some(visitors[#[trigger] rest[j]].room_num)
            == room by {
            assert(rest[j] == keys[j + 1]);
        }
        if i < keys.len() {
            assert(rest[i - 1] == keys[i]);
        }
        lemma_leading_visitors_stop(rest, visitors, room, i - 1);
        assert(Some(visitors[keys[0]].room_num) == room);
        assert(keys.take(i).map_values(|k: usize| visitors[k].connection) =~= seq![
            visitors[keys[0]].connection,
        ] + rest.take(i - 1).map_values(|k: usize| visitors[k].connection));
    }
}

// ---------------------------------------------------------------------------
// Executable operations
// ---------------------------------------------------------------------------

/// Whether `v` holds `x`.
fn holds(v: &Vec<usize>, x: usize) -> (b: bool)
    ensures
        b == v@.contains(x),
{
    let mut i: usize = 0;
    while i < v.len()
        invariant
            i <= v.len(),
            forall|j: int| 0 <= j < i ==> v@[j] != x,
        decreases v.len() - i,
    {
        if v[i] == x {
            return true;
        }
        i = i + 1;
    }
    false
}

/// Whether room `r` is numbered `room_num` and does not hold `board` yet.
fn room_is_open(r: &Room, room_num: u32, board: usize) -> (b: bool)
    ensures
        b == is_open_room(r@, room_num, board),
{
    r.room_num == room_num && !holds(&r.board_nums, board)
}

impl ServerData {
    /// The state the server starts in: room 1, and nothing registered.
    pub fn new() -> (data: ServerData)
        ensures
            data@ == initial_state(),
            well_formed(data@),
    {
        let mut rooms: Vec<Room> = Vec::new();
        rooms.push(Room::new(1));
        let data = ServerData {
            rooms,
            boards: new_board_table(),
            visitors: new_visitor_table(),
            referees: new_referee_table(),
        };
        assert(data@.rooms =~= initial_state().rooms);
        data
    }
}

/// An app registers: its connection becomes the app of `board_idx`, the
/// board joins room `room_num`, and the board, where it is registered, is
/// marked as being in that room.
pub fn register_app(data: &mut ServerData, thread: &mut WsThreadInfo, room_num: u32, board_idx: usize)
    ensures
        final(data)@ == app_registered(old(data)@, room_num, board_idx),
        well_formed(final(data)@),
        final(thread)@ == (ThreadView {
            character: Character::App { board_id: board_idx },
            connect_id: old(thread)@.connect_id,
        }),
        exists|i: int|
            0 <= i < final(data)@.rooms.len() && (#[trigger] final(data)@.rooms[i]).room_num
                == room_num && final(data)@.rooms[i].board_nums.contains(board_idx),
{
    proof {
        use_type_invariant(&*data);
    }
    thread.set_character(Character::App { board_id: board_idx });
    let ghost old_rooms = data@.rooms;
    let mut rooms: Vec<Room> = Vec::new();
    std::mem::swap(&mut rooms, &mut data.rooms);
    let n = rooms.len();
    let mut i: usize = 0;
    let mut seen = false;
    while i < n && !room_is_open(&rooms[i], room_num, board_idx)
        invariant
            i <= n == rooms.len(),
            rooms@.map_values(|r: Room| r@) == old_rooms,
            forall|j: int| 0 <= j < i ==> !is_open_room(#[trigger] old_rooms[j], room_num, board_idx),
            seen <==> exists|j: int| 0 <= j < i && (#[trigger] old_rooms[j]).room_num == room_num,
        decreases n - i,
    {
        if rooms[i].room_num == room_num {
            seen = true;
            assert(old_rooms[i as int].room_num == room_num);
        }
        i = i + 1;
    }
    if i < n {
        assert(is_first_open_room(old_rooms, room_num, board_idx, i as int));
        let ghost k = choose|k: int| is_first_open_room(old_rooms, room_num, board_idx, k);
        assert(k == i) by {
            if k < i {
                assert(!is_open_room(old_rooms[k], room_num, board_idx));
            } else if k > i {
                assert(!is_open_room(old_rooms[i as int], room_num, board_idx));
            }
        }
        rooms[i].board_nums.push(board_idx);
        assert(rooms@.map_values(|r: Room| r@) =~= old_rooms.update(
            i as int,
            RoomView { room_num, board_nums: old_rooms[i as int].board_nums.push(board_idx) },
        ));
    } else {
        assert(!exists|k: int| is_first_open_room(old_rooms, room_num, board_idx, k));
        if !seen {
            assert(!has_room(old_rooms, room_num));
            let mut room = Room::new(room_num);
            room.board_nums.push(board_idx);
            rooms.push(room);
            assert(rooms@.map_values(|r: Room| r@) =~= old_rooms.push(room_with(room_num, board_idx)));
        } else {
            let ghost j = choose|j: int| 0 <= j < i && (#[trigger] old_rooms[j]).room_num == room_num;
            assert(has_room(old_rooms, room_num));
        }
    }
    std::mem::swap(&mut rooms, &mut data.rooms);
    let mut boards = new_board_table();
    std::mem::swap(&mut boards, &mut data.boards);
    match get_board(&boards, board_idx) {
        Some(board) => {
            let mut updated = board.clone();
            updated.op_room_num = Some(room_num);
            replace_board(&mut boards, board_idx, updated);
            assert(updated == old(data)@.boards[board_idx].in_room(room_num));
        },
        None => {},
    }
    proof {
        law_joined_room_holds_board(old_rooms, room_num, board_idx);
        law_join_keeps_numbers_distinct(old_rooms, room_num, board_idx);
    }
    std::mem::swap(&mut boards, &mut data.boards);
    assert(data@.rooms == rooms_after_join(old_rooms, room_num, board_idx));
    assert(data@ == app_registered(old(data)@, room_num, board_idx));
}

/// A board registers: it is stored, with its network and connection, under a
/// free key, and the connection becomes that board.
pub fn register_board(data: &mut ServerData, thread: &mut WsThreadInfo, wifi: String, ip: String)
    ensures
        well_formed(final(data)@),
        exists|key: usize|
            {
                &&& !old(data)@.boards.dom().contains(key)
                &&& final(data)@ == board_registered(
                    old(data)@,
                    key,
                    BoardInfo::spec_new(wifi, ip, old(thread)@.connect_id),
                )
                &&& final(thread)@ == (ThreadView {
                    character: Character::Board { board_id: key },
                    connect_id: old(thread)@.connect_id,
                })
            },
{
    proof {
        use_type_invariant(&*data);
    }
    let board = BoardInfo::new(wifi, ip, thread.connect_id());
    let mut boards = new_board_table();
    std::mem::swap(&mut boards, &mut data.boards);
    let key = insert_board(&mut boards, board);
    std::mem::swap(&mut boards, &mut data.boards);
    thread.set_character(Character::Board { board_id: key });
    assert(data@ == board_registered(old(data)@, key, board));
}

/// A referee registers for room `room_num`: it is stored under a free key,
/// and the connection becomes that referee.
pub fn register_referee(data: &mut ServerData, thread: &mut WsThreadInfo, room_num: u32)
    ensures
        well_formed(final(data)@),
        exists|key: usize, referee: RefereeInfo|
            {
                &&& !old(data)@.referees.dom().contains(key)
                &&& referee.spec_room_num() == room_num
                &&& final(data)@ == referee_registered(old(data)@, key, referee)
                &&& final(thread)@ == (ThreadView {
                    character: Character::Referee { referee_id: key },
                    connect_id: old(thread)@.connect_id,
                })
            },
{
    proof {
        use_type_invariant(&*data);
    }
    let referee = RefereeInfo::new(room_num);
    let mut referees = new_referee_table();
    std::mem::swap(&mut referees, &mut data.referees);
    let key = insert_referee(&mut referees, referee);
    std::mem::swap(&mut referees, &mut data.referees);
    thread.set_character(Character::Referee { referee_id: key });
    assert(data@ == referee_registered(old(data)@, key, referee));
}

/// A visitor registers for room `room_num`: it is stored, with its
/// connection, under a free key, and the connection becomes that visitor.
pub fn register_visitor(data: &mut ServerData, thread: &mut WsThreadInfo, room_num: u32)
    ensures
        well_formed(final(data)@),
        exists|key: usize|
            {
                &&& !old(data)@.visitors.dom().contains(key)
                &&& final(data)@ == visitor_registered(
                    old(data)@,
                    key,
                    VisitorInfo { connection: old(thread)@.connect_id, room_num },
                )
                &&& final(thread)@ == (ThreadView {
                    character: Character::Visitor { visitor_id: key },
                    connect_id: old(thread)@.connect_id,
                })
            },
{
    proof {
        use_type_invariant(&*data);
    }
    let visitor = VisitorInfo::new(thread.connect_id(), room_num);
    let mut visitors = new_visitor_table();
    std::mem::swap(&mut visitors, &mut data.visitors);
    let key = insert_visitor(&mut visitors, visitor);
    std::mem::swap(&mut visitors, &mut data.visitors);
    thread.set_character(Character::Visitor { visitor_id: key });
    assert(data@ == visitor_registered(old(data)@, key, visitor));
}

/// A connection closes: a board leaves the board table, and the connection
/// is marked as closed. The board of a board connection must be registered.
pub fn close_sock(data: &mut ServerData, thread: &mut WsThreadInfo)
    requires
        old(thread)@.character matches Character::Board { board_id } ==> old(
            data,
        )@.boards.dom().contains(board_id),
    ensures
        well_formed(final(data)@),
        final(data)@ == closed(old(data)@, old(thread)@.character),
        final(thread)@ == (ThreadView {
            character: Character::Exited,
            connect_id: old(thread)@.connect_id,
        }),
{
    proof {
        use_type_invariant(&*data);
    }
    match thread.character() {
        Character::Board { board_id } => {
            let mut boards = new_board_table();
            std::mem::swap(&mut boards, &mut data.boards);
            let _removed = remove_board(&mut boards, board_id);
            std::mem::swap(&mut boards, &mut data.boards);
        },
        _ => {},
    }
    thread.set_character(Character::Exited);
    assert(data@ == closed(old(data)@, old(thread)@.character));
}

/// The answer to a request for the rooms.
pub fn request_list_rooms(data: &ServerData) -> (m: String)
    ensures
        m@ == list_rooms_message(data@),
{
    let mut pieces: Vec<String> = Vec::new();
    let mut i: usize = 0;
    while i < data.rooms.len()
        invariant
            i <= data.rooms.len(),
            views(pieces@) == room_numbers(data@.rooms).take(i as int),
        decreases data.rooms.len() - i,
    {
        assert(data@.rooms[i as int] == data.rooms@[i as int]@);
        let ghost before = views(pieces@);
        let piece = decimal_string(data.rooms[i].room_num as u64);
        pieces.push(piece);
        assert(views(pieces@) =~= before.push(piece@));
        assert(room_numbers(data@.rooms).take(i + 1) =~= room_numbers(data@.rooms).take(
            i as int,
        ).push(decimal(data@.rooms[i as int].room_num as nat)));
        i = i + 1;
        assert(views(pieces@) =~= room_numbers(data@.rooms).take(i as int));
    }
    assert(room_numbers(data@.rooms).take(i as int) =~= room_numbers(data@.rooms));
    render_message_text("response_list_rooms", &pieces)
}

/// `(key,wifi,ip)` for a board.
fn board_entry_text(key: usize, b: &BoardInfo) -> (s: String)
    ensures
        s@ == board_entry(key, *b),
{
    let mut s = String::new();
    push_char(&mut s, '(');
    push_str(&mut s, decimal_string(key as u64).as_str());
    push_char(&mut s, ',');
    push_str(&mut s, b.wifi.as_str());
    push_char(&mut s, ',');
    push_str(&mut s, b.ip.as_str());
    push_char(&mut s, ')');
    assert(s@ =~= board_entry(key, *b));
    s
}

/// `(key,name)` for a named board.
fn named_board_entry_text(key: usize, b: &BoardInfo) -> (s: String)
    requires
        b.op_board_name is Some,
    ensures
        s@ == named_board_entry(key, *b),
{
    let mut s = String::new();
    push_char(&mut s, '(');
    push_str(&mut s, decimal_string(key as u64).as_str());
    push_char(&mut s, ',');
    match &b.op_board_name {
        Some(name) => push_str(&mut s, name.as_str()),
        None => {},
    }
    push_char(&mut s, ')');
    assert(s@ =~= named_board_entry(key, *b));
    s
}

/// The answer to a request for the boards.
pub fn request_list_boards(data: &ServerData) -> (m: String)
    ensures
        m@ == list_boards_message(data@),
{
    let keys = board_keys(&data.boards);
    proof {
        lemma_key_order_is(keys@, data@.boards.dom());
    }
    let mut pieces: Vec<String> = Vec::new();
    let mut i: usize = 0;
    while i < keys.len()
        invariant
            i <= keys.len(),
            is_key_order(keys@, data@.boards.dom()),
            views(pieces@) == board_entries_of(keys@, data@.boards).take(i as int),
        decreases keys.len() - i,
    {
        let k = keys[i];
        assert(keys@.contains(k));
        match get_board(&data.boards, k) {
            Some(b) => {
                let ghost before = views(pieces@);
                let piece = board_entry_text(k, b);
                pieces.push(piece);
                assert(views(pieces@) =~= before.push(piece@));
                assert(board_entries_of(keys@, data@.boards).take(i + 1) =~= board_entries_of(
                    keys@,
                    data@.boards,
                ).take(i as int).push(board_entry(k, data@.boards[k])));
                assert(board_entries_of(keys@, data@.boards)[i as int] == board_entry(
                    k,
                    data@.boards[k],
                ));
            },
            None => {},
        }
        i = i + 1;
        assert(views(pieces@) =~= board_entries_of(keys@, data@.boards).take(i as int));
    }
    assert(board_entries_of(keys@, data@.boards).take(i as int) =~= board_entries_of(
        keys@,
        data@.boards,
    ));
    render_message_text("response_list_boards", &pieces)
}

/// The answer to a request for the model type.
pub fn request_get_model_type() -> (m: String)
    ensures
        m@ == render_message("response_get_model_type"@, seq![decimal(1)]),
{
    let mut pieces: Vec<String> = Vec::new();
    pieces.push(decimal_string(1));
    assert(views(pieces@) =~= seq![decimal(1)]);
    render_message_text("response_get_model_type", &pieces)
}

/// The answer to a request for the boards of room `room_num`. Every named
/// board must be in a room, as in every well-formed state.
pub fn request_list_boards_in_room(data: &ServerData, room_num: u32) -> (m: String)
    requires
        well_formed(data@),
    ensures
        m@ == list_boards_in_room_message(data@, room_num),
{
    let keys = board_keys(&data.boards);
    proof {
        lemma_key_order_is(keys@, data@.boards.dom());
    }
    let mut pieces: Vec<String> = Vec::new();
    let mut i: usize = 0;
    assert(keys@.take(0) =~= Seq::<usize>::empty());
    while i < keys.len()
        invariant
            i <= keys.len(),
            is_key_order(keys@, data@.boards.dom()),
            views(pieces@) == room_board_entries(keys@.take(i as int), data@.boards, room_num),
        decreases keys.len() - i,
    {
        let k = keys[i];
        assert(keys@.contains(k));
        assert(keys@.take(i + 1).drop_last() =~= keys@.take(i as int));
        assert(keys@.take(i + 1).last() == k);
        match get_board(&data.boards, k) {
            Some(b) => {
                let in_room = match (&b.op_board_name, b.op_room_num) {
                    (Some(_), Some(r)) => r == room_num,
                    _ => false,
                };
                if in_room {
                    pieces.push(named_board_entry_text(k, b));
                    assert(views(pieces@) =~= room_board_entries(
                        keys@.take(i + 1),
                        data@.boards,
                        room_num,
                    ));
                }
            },
            None => {},
        }
        i = i + 1;
    }
    assert(keys@.take(i as int) =~= keys@);
    render_message_text("response_list_boards", &pieces)
}

/// A referee places board `board_id` at `(x, y)`, given as text. Where the
/// board is registered, the order is sent to the visitors, by increasing
/// visitor key, for as long as each is in the board's room; the first
/// visitor in another room ends the round. `None` where no such board is
/// registered.
pub fn request_set_board_coords(data: &ServerData, board_id: usize, x: &str, y: &str) -> (r: Option<BoardCoordsBroadcast>)
    ensures
        match r {
            None => !data@.boards.dom().contains(board_id),
            Some(out) => {
                &&& data@.boards.dom().contains(board_id)
                &&& out.message@ == set_board_coords_message(board_id, x@, y@)
                &&& out.connections@ == leading_visitors(
                    key_order(data@.visitors.dom()),
                    data@.visitors,
                    data@.boards[board_id].op_room_num,
                )
            },
        },
{
    let room = match get_board(&data.boards, board_id) {
        Some(b) => b.op_room_num,
        None => {
            return None;
        },
    };
    let mut pieces: Vec<String> = Vec::new();
    pieces.push(decimal_string(board_id as u64));
    pieces.push(x.to_owned());
    pieces.push(y.to_owned());
    assert(views(pieces@) =~= seq![decimal(board_id as nat), x@, y@]);
    let message = render_message_text("request_set_board_coords", &pieces);
    let keys = visitor_keys(&data.visitors);
    proof {
        lemma_key_order_is(keys@, data@.visitors.dom());
    }
    let mut connections: Vec<u32> = Vec::new();
    let mut i: usize = 0;
    let mut going = true;
    while going && i < keys.len()
        invariant
            i <= keys.len(),
            is_key_order(keys@, data@.visitors.dom()),
            forall|j: int| 0 <= j < i ==> Some(data@.visitors[#[trigger] keys@[j]].room_num) == room,
            !going ==> i < keys.len() && Some(data@.visitors[keys@[i as int]].room_num) != room,
            connections@ == keys@.take(i as int).map_values(
                |k: usize| data@.visitors[k].connection,
            ),
        decreases keys.len() - i + if going { 1int } else { 0int },
    {
        let k = keys[i];
        assert(keys@.contains(k));
        let visitor = visitor_at(&data.visitors, k);
        if Some(visitor.room_num) == room {
            connections.push(visitor.connection);
            assert(keys@.take(i + 1).map_values(|k: usize| data@.visitors[k].connection)
                =~= connections@);
            i = i + 1;
        } else {
            going = false;
        }
    }
    proof {
        lemma_leading_visitors_stop(keys@, data@.visitors, room, i as int);
    }
    Some(BoardCoordsBroadcast { message, connections })
}

} // verus!
