use board_server::character::Character;
use board_server::command_args::MessageArgs;
use board_server::referee_info::RefereeInfo;
use board_server::request::{
    close_sock, register_app, register_board, register_referee, register_visitor,
    request_get_model_type, request_list_boards, request_list_boards_in_room,
    request_list_rooms, request_set_board_coords, ServerData,
};
use board_server::room::Room;
use board_server::server::WsThreadInfo;
use board_server::board_info::BoardInfo;
use board_server::visitor_info::VisitorInfo;

#[test]
fn fresh_server_has_room_one() {
    let data = ServerData::new();
    assert_eq!(request_list_rooms(&data), "response_list_rooms:(1)");
    assert_eq!(request_list_boards(&data), "response_list_boards:()");
    assert_eq!(request_get_model_type(), "response_get_model_type:(1)");
}

#[test]
fn new_connection_is_not_registered() {
    let t = WsThreadInfo::new(9);
    assert_eq!(t.character(), Character::NotSure);
    assert_eq!(t.connect_id(), 9);
    assert!(!t.has_exited());
}

#[test]
fn records_start_empty() {
    let b = BoardInfo::new("w".to_string(), "1.2.3.4".to_string(), 3);
    assert_eq!(b.op_room_num, None);
    assert_eq!(b.op_board_name, None);
    assert_eq!(b.connection, 3);
    let v = VisitorInfo::new(4, 2);
    assert_eq!((v.connection, v.room_num), (4, 2));
    assert_eq!(RefereeInfo::new(6).room_num(), 6);
    let r = Room::new(5);
    assert_eq!(r.room_num, 5);
    assert!(r.board_nums.is_empty());
}

#[test]
fn rooms_compare_by_number() {
    let mut a = Room::new(1);
    a.board_nums.push(3);
    let b = Room::new(1);
    let c = Room::new(2);
    assert!(a == b);
    assert!(a != c);
    assert!(a < c);
    assert_eq!(c.partial_cmp(&a), Some(std::cmp::Ordering::Greater));
    assert_eq!(a.cmp(&b), std::cmp::Ordering::Equal);
}

#[test]
fn board_registration_is_listed() {
    let mut data = ServerData::new();
    let mut t = WsThreadInfo::new(1);
    register_board(&mut data, &mut t, "net".to_string(), "10.0.0.2".to_string());
    assert_eq!(t.character(), Character::Board { board_id: 0 });
    let mut t2 = WsThreadInfo::new(2);
    register_board(&mut data, &mut t2, "net2".to_string(), "10.0.0.3".to_string());
    assert_eq!(t2.character(), Character::Board { board_id: 1 });
    assert_eq!(
        request_list_boards(&data),
        "response_list_boards:((0,net,10.0.0.2),(1,net2,10.0.0.3))"
    );
    assert!(data.has_board(1));
    assert!(!data.has_board(2));
}

#[test]
fn closing_a_board_undoes_its_registration() {
    let mut data = ServerData::new();
    let mut keep = WsThreadInfo::new(1);
    register_board(&mut data, &mut keep, "a".to_string(), "1".to_string());
    let before = request_list_boards(&data);
    let mut t = WsThreadInfo::new(2);
    register_board(&mut data, &mut t, "b".to_string(), "2".to_string());
    assert_ne!(request_list_boards(&data), before);
    close_sock(&mut data, &mut t);
    assert_eq!(request_list_boards(&data), before);
    assert!(t.has_exited());
    // Closing again changes nothing.
    close_sock(&mut data, &mut t);
    assert_eq!(request_list_boards(&data), before);
    assert_eq!(t.character(), Character::Exited);
}

#[test]
fn freed_board_key_is_reused() {
    let mut data = ServerData::new();
    let mut a = WsThreadInfo::new(1);
    let mut b = WsThreadInfo::new(2);
    register_board(&mut data, &mut a, "a".to_string(), "1".to_string());
    register_board(&mut data, &mut b, "b".to_string(), "2".to_string());
    close_sock(&mut data, &mut a);
    let mut c = WsThreadInfo::new(3);
    register_board(&mut data, &mut c, "c".to_string(), "3".to_string());
    assert_eq!(c.character(), Character::Board { board_id: 0 });
    assert_eq!(request_list_boards(&data), "response_list_boards:((0,c,3),(1,b,2))");
}

#[test]
fn app_joins_the_existing_room() {
    let mut data = ServerData::new();
    let mut app = WsThreadInfo::new(1);
    register_app(&mut data, &mut app, 1, 0);
    assert_eq!(app.character(), Character::App { board_id: 0 });
    assert_eq!(request_list_rooms(&data), "response_list_rooms:(1)");
    // Joining again with the same board changes nothing.
    register_app(&mut data, &mut app, 1, 0);
    assert_eq!(request_list_rooms(&data), "response_list_rooms:(1)");
    // Another board joins the same room.
    register_app(&mut data, &mut app, 1, 5);
    register_app(&mut data, &mut app, 1, 5);
    assert_eq!(request_list_rooms(&data), "response_list_rooms:(1)");
    // A room number not seen yet opens exactly one room.
    register_app(&mut data, &mut app, 7, 0);
    register_app(&mut data, &mut app, 7, 0);
    assert_eq!(request_list_rooms(&data), "response_list_rooms:(1,7)");
}

#[test]
fn app_into_unknown_room_opens_it() {
    let mut data = ServerData::new();
    let mut app = WsThreadInfo::new(1);
    let mut board = WsThreadInfo::new(2);
    register_board(&mut data, &mut board, "w".to_string(), "i".to_string());
    register_app(&mut data, &mut app, 3, 0);
    assert_eq!(request_list_rooms(&data), "response_list_rooms:(1,3)");
    // Boards carry no names, so no room lists any.
    assert_eq!(request_list_boards_in_room(&data, 3), "response_list_boards:()");
}

#[test]
fn coordinates_go_to_leading_visitors_of_the_room() {
    let mut data = ServerData::new();
    let mut board = WsThreadInfo::new(10);
    register_board(&mut data, &mut board, "w".to_string(), "i".to_string());
    let mut app = WsThreadInfo::new(11);
    register_app(&mut data, &mut app, 2, 0);
    let mut v1 = WsThreadInfo::new(20);
    register_visitor(&mut data, &mut v1, 2);
    assert_eq!(v1.character(), Character::Visitor { visitor_id: 0 });
    let mut v2 = WsThreadInfo::new(21);
    register_visitor(&mut data, &mut v2, 2);
    let mut v3 = WsThreadInfo::new(22);
    register_visitor(&mut data, &mut v3, 9);
    let mut v4 = WsThreadInfo::new(23);
    register_visitor(&mut data, &mut v4, 2);
    let out = request_set_board_coords(&data, 0, "1.5", "2").unwrap();
    assert_eq!(out.message, "request_set_board_coords:(0,1.5,2)");
    assert_eq!(out.connections, vec![20, 21]);
    assert!(request_set_board_coords(&data, 4, "1", "2").is_none());
}

#[test]
fn coordinates_of_a_board_in_no_room_reach_nobody() {
    let mut data = ServerData::new();
    let mut board = WsThreadInfo::new(1);
    register_board(&mut data, &mut board, "w".to_string(), "i".to_string());
    let mut v = WsThreadInfo::new(2);
    register_visitor(&mut data, &mut v, 1);
    let out = request_set_board_coords(&data, 0, "0", "0").unwrap();
    assert!(out.connections.is_empty());
}

#[test]
fn referee_registration() {
    let mut data = ServerData::new();
    let mut r = WsThreadInfo::new(1);
    register_referee(&mut data, &mut r, 4);
    assert_eq!(r.character(), Character::Referee { referee_id: 0 });
    let mut r2 = WsThreadInfo::new(2);
    register_referee(&mut data, &mut r2, 4);
    assert_eq!(r2.character(), Character::Referee { referee_id: 1 });
}

#[test]
fn room_list_reads_back() {
    let mut data = ServerData::new();
    let mut app = WsThreadInfo::new(1);
    register_app(&mut data, &mut app, 12, 0);
    let m = MessageArgs::parse_message(request_list_rooms(&data)).unwrap();
    assert_eq!(m.command, "response_list_rooms");
    assert_eq!(m.args, vec!["1".to_string(), "12".to_string()]);
}
