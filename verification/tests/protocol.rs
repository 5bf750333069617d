use board_server::command_args::MessageArgs;
use board_server::dispatch::{
    match_command, on_frame, read_timeout_millis, Command, Decision, FrameAction, FrameKind, Phase,
};

fn parse(s: &str) -> Option<MessageArgs> {
    MessageArgs::parse_message(s.to_string())
}

fn parts(s: &str) -> Option<(String, Vec<String>, Option<u64>)> {
    parse(s).map(|m| (m.command, m.args, m.dialogue_id))
}

fn strings(v: &[&str]) -> Vec<String> {
    v.iter().map(|s| s.to_string()).collect()
}

#[test]
fn parse_message_splits_command_and_args() {
    assert_eq!(parts("a:(1,2)"), Some(("a".to_string(), strings(&["1", "2"]), None)));
    assert_eq!(
        parts("register_app:(bob,1,0)"),
        Some(("register_app".to_string(), strings(&["bob", "1", "0"]), None))
    );
}

#[test]
fn parse_message_trims_white_space() {
    assert_eq!(
        parts("  \tlog:(hello world) \n"),
        Some(("log".to_string(), strings(&["hello world"]), None))
    );
    assert_eq!(
        parts("\u{3000}log:(x)\u{a0}\u{2028}"),
        Some(("log".to_string(), strings(&["x"]), None))
    );
}

#[test]
fn parse_message_keeps_empty_args() {
    assert_eq!(parts("request_list_rooms:()"), Some(("request_list_rooms".to_string(), strings(&[""]), None)));
    assert_eq!(parts("a:(1,,2)"), Some(("a".to_string(), strings(&["1", "", "2"]), None)));
    assert_eq!(parts("a:( 1 , 2 )"), Some(("a".to_string(), strings(&[" 1 ", " 2 "]), None)));
}

#[test]
fn parse_message_rejects_malformed() {
    assert!(parse("a(1)").is_none());
    assert!(parse("a:1").is_none());
    assert!(parse("a:(1").is_none());
    assert!(parse("a:1)").is_none());
    assert!(parse(":(1)").is_none());
    assert!(parse("a:(1):").is_none());
    assert!(parse("a:b:(1)").is_none());
    assert!(parse("a:(x)[3]").is_none());
    assert!(parse("").is_none());
    assert!(parse("   ").is_none());
    assert!(parse("a:(").is_none());
    assert!(parse("a:)").is_none());
}

fn decide(phase: Phase, s: &str) -> Decision {
    match_command(phase, &parse(s))
}

#[test]
fn lobby_registers_app() {
    match decide(Phase::Lobby, "register_app:(bob,3,7)") {
        Decision::Run(Command::RegisterApp { user_name, room_num, board_id }) => {
            assert_eq!(user_name, "bob");
            assert_eq!(room_num, 3);
            assert_eq!(board_id, 7);
        }
        _ => panic!("expected a registration"),
    }
}

#[test]
fn lobby_conversion_and_missing_arguments() {
    assert!(matches!(decide(Phase::Lobby, "register_app:(bob,x,7)"), Decision::ConversionFailed));
    assert!(matches!(decide(Phase::Lobby, "register_app:(bob,3,-7)"), Decision::ConversionFailed));
    assert!(matches!(decide(Phase::Lobby, "register_app:(bob,4294967296,7)"), Decision::ConversionFailed));
    assert!(matches!(decide(Phase::Lobby, "register_app:(bob)"), Decision::MissingArgument));
    assert!(matches!(decide(Phase::Lobby, "register_board:(wifi)"), Decision::MissingArgument));
    assert!(matches!(decide(Phase::Lobby, "register_referee:(+12)"), Decision::Run(Command::RegisterReferee { room_num: 12 })));
    assert!(matches!(decide(Phase::Lobby, "register_visitor:(4294967295)"), Decision::Run(Command::RegisterVisitor { room_num: 4294967295 })));
    assert!(matches!(decide(Phase::Lobby, "register_visitor:()"), Decision::ConversionFailed));
}

#[test]
fn extra_arguments_are_ignored() {
    assert!(matches!(decide(Phase::Lobby, "request_list_rooms:(1,2,3)"), Decision::Run(Command::RequestListRooms)));
    assert!(matches!(decide(Phase::Lobby, "register_referee:(5,junk)"), Decision::Run(Command::RegisterReferee { room_num: 5 })));
}

#[test]
fn each_loop_has_its_commands() {
    assert!(matches!(decide(Phase::Lobby, "check:()"), Decision::NotRecognized));
    assert!(matches!(decide(Phase::App, "check:()"), Decision::Run(Command::Check)));
    assert!(matches!(decide(Phase::App, "register_board:(a,b)"), Decision::NotRecognized));
    assert!(matches!(decide(Phase::Board, "log:(x)"), Decision::NotRecognized));
    assert!(matches!(decide(Phase::Visitor, "log:(x)"), Decision::Run(Command::Log { .. })));
    assert!(matches!(decide(Phase::Visitor, "request_list_rooms:()"), Decision::NotRecognized));
    assert!(matches!(decide(Phase::Referee, "request_list_boards_in_room:(2)"), Decision::Run(Command::RequestListBoardsInRoom { room_num: 2 })));
    assert!(matches!(decide(Phase::Referee, "request_get_model_type:()"), Decision::NotRecognized));
    assert!(matches!(decide(Phase::Lobby, "request_get_model_type:()"), Decision::Run(Command::RequestGetModelType)));
    assert!(matches!(decide(Phase::Lobby, "nonsense"), Decision::NotRecognized));
}

#[test]
fn referee_sets_coordinates() {
    match decide(Phase::Referee, "request_set_board_coords:(2,1.5,-3)") {
        Decision::Run(Command::RequestSetBoardCoords { board_id, x, y }) => {
            assert_eq!(board_id, 2);
            assert_eq!(x, "1.5");
            assert_eq!(y, "-3");
        }
        _ => panic!("expected coordinates"),
    }
    assert!(matches!(decide(Phase::Referee, "request_set_board_coords:(b,1,2)"), Decision::ConversionFailed));
    assert!(matches!(decide(Phase::Referee, "request_set_board_coords:(1,2)"), Decision::MissingArgument));
}

#[test]
fn registrations_lead_into_their_loops() {
    let next = |s: &str| match decide(Phase::Lobby, s) {
        Decision::Run(c) => c.next_phase(),
        _ => panic!("expected a command"),
    };
    assert_eq!(next("register_app:(a,1,2)"), Some(Phase::App));
    assert_eq!(next("register_board:(a,b)"), Some(Phase::Board));
    assert_eq!(next("register_referee:(1)"), Some(Phase::Referee));
    assert_eq!(next("register_visitor:(1)"), Some(Phase::Visitor));
    assert_eq!(next("log:(x)"), None);
}

#[test]
fn frames_per_loop() {
    assert_eq!(on_frame(Phase::Lobby, FrameKind::Text), FrameAction::Process);
    assert_eq!(on_frame(Phase::Lobby, FrameKind::Other), FrameAction::Ignore);
    assert_eq!(on_frame(Phase::App, FrameKind::Other), FrameAction::Fault);
    assert_eq!(on_frame(Phase::Board, FrameKind::Text), FrameAction::Ignore);
    assert_eq!(on_frame(Phase::Visitor, FrameKind::Close), FrameAction::Close);
    assert_eq!(read_timeout_millis(Phase::Lobby), 4000);
    assert_eq!(read_timeout_millis(Phase::App), 2000);
    assert_eq!(read_timeout_millis(Phase::Board), 3000);
    assert_eq!(read_timeout_millis(Phase::Referee), 4000);
}
