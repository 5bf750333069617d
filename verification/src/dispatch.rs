//! What a connection does with each frame it reads: the phases it goes
//! through and the commands it accepts in each.
use vstd::prelude::*;
use crate::command_args::{MessageArgs, MessageArgsView};
use crate::text::{chars_of, parse_unsigned, parse_unsigned_chars, text_is, views};

verus! {

/// The loop a connection is in: the lobby until it registers, then the loop
/// of the role it registered as.
#[derive(Debug, Clone, Copy, PartialEq, Eq, Structural)]
pub enum Phase {
    Lobby,
    App,
    Board,
    Referee,
    Visitor,
}

/// The kind of frame a read produced. A read that times out, fails or finds
/// the stream ended counts as `Close`.
#[derive(Debug, Clone, Copy, PartialEq, Eq, Structural)]
pub enum FrameKind {
    Text,
    Close,
    Other,
}

/// What to do with a frame.
#[derive(Debug, Clone, Copy, PartialEq, Eq, Structural)]
pub enum FrameAction {
    /// Parse the text and act on its command.
    Process,
    /// Close the connection and leave the loop.
    Close,
    /// Read on.
    Ignore,
    /// A frame that this loop cannot take: the connection's task panics.
    Fault,
}

/// What each loop does with each kind of frame: a close always closes; a
/// board's text is not read; an app's loop takes nothing but text and close.
pub open spec fn frame_action(phase: Phase, kind: FrameKind) -> FrameAction {
    match kind {
        FrameKind::Close => FrameAction::Close,
        FrameKind::Text => if phase == Phase::Board {
            FrameAction::Ignore
        } else {
            FrameAction::Process
        },
        FrameKind::Other => if phase == Phase::App {
            FrameAction::Fault
        } else {
            FrameAction::Ignore
        },
    }
}

/// What to do with a frame of the given kind in the given loop.
pub fn on_frame(phase: Phase, kind: FrameKind) -> (a: FrameAction)
    ensures
        a == frame_action(phase, kind),
{
    match kind {
        FrameKind::Close => FrameAction::Close,
        FrameKind::Text => match phase {
            Phase::Board => FrameAction::Ignore,
            _ => FrameAction::Process,
        },
        FrameKind::Other => match phase {
            Phase::App => FrameAction::Fault,
            _ => FrameAction::Ignore,
        },
    }
}

/// How long, in milliseconds, each loop waits for a frame before it counts
/// the connection as closed.
pub open spec fn spec_read_timeout_millis(phase: Phase) -> u64 {
    match phase {
        Phase::App => 2000,
        Phase::Board => 3000,
        _ => 4000,
    }
}

/// How long, in milliseconds, the loop waits for a frame.
pub fn read_timeout_millis(phase: Phase) -> (ms: u64)
    ensures
        ms == spec_read_timeout_millis(phase),
{
    match phase {
        Phase::App => 2000,
        Phase::Board => 3000,
        _ => 4000,
    }
}

/// A command with its arguments converted.
pub enum Command {
    RegisterApp { user_name: String, room_num: u32, board_id: usize },
    RegisterBoard { wifi: String, ip: String },
    RegisterReferee { room_num: u32 },
    RegisterVisitor { room_num: u32 },
    Log { text: String },
    RequestListRooms,
    RequestListBoards,
    RequestGetModelType,
    Check,
    RequestListBoardsInRoom { room_num: u32 },
    /// The coordinates are left as text: they are floating-point numbers.
    RequestSetBoardCoords { board_id: usize, x: String, y: String },
}

/// The contents of a converted command.
pub enum CommandView {
    RegisterApp { user_name: Seq<char>, room_num: u32, board_id: usize },
    RegisterBoard { wifi: Seq<char>, ip: Seq<char> },
    RegisterReferee { room_num: u32 },
    RegisterVisitor { room_num: u32 },
    Log { text: Seq<char> },
    RequestListRooms,
    RequestListBoards,
    RequestGetModelType,
    Check,
    RequestListBoardsInRoom { room_num: u32 },
    RequestSetBoardCoords { board_id: usize, x: Seq<char>, y: Seq<char> },
}

impl View for Command {
    type V = CommandView;

    open spec fn view(&self) -> CommandView {
        match self {
            Command::RegisterApp { user_name, room_num, board_id } => CommandView::RegisterApp {
                user_name: user_name@,
                room_num: *room_num,
                board_id: *board_id,
            },
            Command::RegisterBoard { wifi, ip } => CommandView::RegisterBoard {
                wifi: wifi@,
                ip: ip@,
            },
            Command::RegisterReferee { room_num } => CommandView::RegisterReferee {
                room_num: *room_num,
            },
            Command::RegisterVisitor { room_num } => CommandView::RegisterVisitor {
                room_num: *room_num,
            },
            Command::Log { text } => CommandView::Log { text: text@ },
            Command::RequestListRooms => CommandView::RequestListRooms,
            Command::RequestListBoards => CommandView::RequestListBoards,
            Command::RequestGetModelType => CommandView::RequestGetModelType,
            Command::Check => CommandView::Check,
            Command::RequestListBoardsInRoom { room_num } => CommandView::RequestListBoardsInRoom {
                room_num: *room_num,
            },
            Command::RequestSetBoardCoords { board_id, x, y } => CommandView::RequestSetBoardCoords {
                board_id: *board_id,
                x: x@,
                y: y@,
            },
        }
    }
}

impl Command {
    /// The loop that a command leads into, where it is a registration.
    pub open spec fn spec_next_phase(self) -> Option<Phase> {
        match self {
            Command::RegisterApp { .. } => Some(Phase::App),
            Command::RegisterBoard { .. } => Some(Phase::Board),
            Command::RegisterReferee { .. } => Some(Phase::Referee),
            Command::RegisterVisitor { .. } => Some(Phase::Visitor),
            _ => None,
        }
    }

    /// The loop that the command leads into, where it is a registration.
    pub fn next_phase(&self) -> (p: Option<Phase>)
        ensures
            p == self.spec_next_phase(),
    {
        match self {
            Command::RegisterApp { .. } => Some(Phase::App),
            Command::RegisterBoard { .. } => Some(Phase::Board),
            Command::RegisterReferee { .. } => Some(Phase::Referee),
            Command::RegisterVisitor { .. } => Some(Phase::Visitor),
            _ => None,
        }
    }
}

/// What becomes of a message.
pub enum Decision {
    /// Run the command.
    Run(Command),
    /// The command is known here, but an argument does not convert.
    ConversionFailed,
    /// No such command in this loop, or no message at all.
    NotRecognized,
    /// Fewer arguments than the command takes: the connection's task panics.
    MissingArgument,
}

/// The contents of a decision.
pub enum DecisionView {
    Run(CommandView),
    ConversionFailed,
    NotRecognized,
    MissingArgument,
}

impl View for Decision {
    type V = DecisionView;

    open spec fn view(&self) -> DecisionView {
        match self {
            Decision::Run(c) => DecisionView::Run(c@),
            Decision::ConversionFailed => DecisionView::ConversionFailed,
            Decision::NotRecognized => DecisionView::NotRecognized,
            Decision::MissingArgument => DecisionView::MissingArgument,
        }
    }
}

/// The commands that each loop accepts.
pub open spec fn accepts(phase: Phase, name: Seq<char>) -> bool {
    match phase {
        Phase::Lobby => {
            ||| name == "register_app"@
            ||| name == "register_board"@
            ||| name == "register_referee"@
            ||| name == "register_visitor"@
            ||| name == "log"@
            ||| name == "request_list_rooms"@
            ||| name == "request_list_boards"@
            ||| name == "request_get_model_type"@
        },
        Phase::App => {
            ||| name == "request_list_rooms"@
            ||| name == "request_list_boards"@
            ||| name == "log"@
            ||| name == "check"@
        },
        Phase::Board => false,
        Phase::Referee => {
            ||| name == "request_list_rooms"@
            ||| name == "request_list_boards"@
            ||| name == "request_list_boards_in_room"@
            ||| name == "request_set_board_coords"@
            ||| name == "log"@
        },
        Phase::Visitor => name == "log"@,
    }
}

/// A room number read from text.
pub open spec fn parse_u32(s: Seq<char>) -> Option<u32> {
    match parse_unsigned(s, u32::MAX as nat) {
        Some(n) => Some(n as u32),
        None => None,
    }
}

/// A key read from text.
pub open spec fn parse_usize(s: Seq<char>) -> Option<usize> {
    match parse_unsigned(s, usize::MAX as nat) {
        Some(n) => Some(n as usize),
        None => None,
    }
}

/// What a known command with the given arguments becomes. A command takes
/// its arguments from the front of the list and ignores any beyond them;
/// text arguments always convert.
pub open spec fn convert(name: Seq<char>, a: Seq<Seq<char>>) -> DecisionView {
    if name == "register_app"@ {
        if a.len() < 3 {
            DecisionView::MissingArgument
        } else {
            match (parse_u32(a[1]), parse_usize(a[2])) {
                (Some(room_num), Some(board_id)) => DecisionView::Run(
                    CommandView::RegisterApp { user_name: a[0], room_num, board_id },
                ),
                _ => DecisionView::ConversionFailed,
            }
        }
    } else if name == "register_board"@ {
        if a.len() < 2 {
            DecisionView::MissingArgument
        } else {
            DecisionView::Run(CommandView::RegisterBoard { wifi: a[0], ip: a[1] })
        }
    } else if name == "register_referee"@ || name == "register_visitor"@
        || name == "request_list_boards_in_room"@ {
        if a.len() < 1 {
            DecisionView::MissingArgument
        } else {
            match parse_u32(a[0]) {
                Some(room_num) => DecisionView::Run(
                    if name == "register_referee"@ {
                        CommandView::RegisterReferee { room_num }
                    } else if name == "register_visitor"@ {
                        CommandView::RegisterVisitor { room_num }
                    } else {
                        CommandView::RequestListBoardsInRoom { room_num }
                    },
                ),
                None => DecisionView::ConversionFailed,
            }
        }
    } else if name == "log"@ {
        if a.len() < 1 {
            DecisionView::MissingArgument
        } else {
            DecisionView::Run(CommandView::Log { text: a[0] })
        }
    } else if name == "request_list_rooms"@ {
        DecisionView::Run(CommandView::RequestListRooms)
    } else if name == "request_list_boards"@ {
        DecisionView::Run(CommandView::RequestListBoards)
    } else if name == "request_get_model_type"@ {
        DecisionView::Run(CommandView::RequestGetModelType)
    } else if name == "check"@ {
        DecisionView::Run(CommandView::Check)
    } else if name == "request_set_board_coords"@ {
        if a.len() < 3 {
            DecisionView::MissingArgument
        } else {
            match parse_usize(a[0]) {
                Some(board_id) => DecisionView::Run(
                    CommandView::RequestSetBoardCoords { board_id, x: a[1], y: a[2] },
                ),
                None => DecisionView::ConversionFailed,
            }
        }
    } else {
        DecisionView::NotRecognized
    }
}

/// What a loop makes of a message it has read.
pub open spec fn decide(phase: Phase, msg: Option<MessageArgsView>) -> DecisionView {
    match msg {
        None => DecisionView::NotRecognized,
        Some(m) => if accepts(phase, m.command) {
            convert(m.command, m.args)
        } else {
            DecisionView::NotRecognized
        },
    }
}

/// Whether a command is a registration.
pub open spec fn is_registration(c: CommandView) -> bool {
    ||| c is RegisterApp
    ||| c is RegisterBoard
    ||| c is RegisterReferee
    ||| c is RegisterVisitor
}

/// Only the lobby runs registrations: a connection that has taken a role
/// cannot take another one.
pub proof fn law_only_lobby_registers(phase: Phase, m: MessageArgsView)
    requires
        phase != Phase::Lobby,
    ensures
        !(decide(phase, Some(m)) matches DecisionView::Run(c) && is_registration(c)),
{
    reveal_strlit("register_app");
    reveal_strlit("register_board");
    reveal_strlit("register_referee");
    reveal_strlit("register_visitor");
    reveal_strlit("log");
    reveal_strlit("check");
    reveal_strlit("request_list_rooms");
    reveal_strlit("request_list_boards");
    reveal_strlit("request_list_boards_in_room");
    reveal_strlit("request_set_board_coords");
    let n = m.command;
    if accepts(phase, n) {
        assert(n.len() == 3 || n.len() == 5 || n.len() == 18 || n.len() == 19 || n.len() == 24
            || n.len() == 27);
        assert("register_app"@.len() == 12);
        assert("register_board"@.len() == 14);
        assert("register_referee"@.len() == 16);
        assert("register_visitor"@.len() == 16);
    }
}

/// The command names differ from one another.
proof fn lemma_command_names_differ()
    ensures
        "register_app"@.len() == 12,
        "register_board"@.len() == 14,
        "register_referee"@.len() == 16,
        "register_visitor"@.len() == 16,
        "register_referee"@ != "register_visitor"@,
        "log"@.len() == 3,
        "check"@.len() == 5,
        "request_list_rooms"@.len() == 18,
        "request_list_boards"@.len() == 19,
        "request_get_model_type"@.len() == 22,
        "request_set_board_coords"@.len() == 24,
        "request_list_boards_in_room"@.len() == 27,
{
    reveal_strlit("register_app");
    reveal_strlit("register_board");
    reveal_strlit("register_referee");
    reveal_strlit("register_visitor");
    reveal_strlit("log");
    reveal_strlit("check");
    reveal_strlit("request_list_rooms");
    reveal_strlit("request_list_boards");
    reveal_strlit("request_get_model_type");
    reveal_strlit("request_list_boards_in_room");
    reveal_strlit("request_set_board_coords");
    assert("register_referee"@[9] != "register_visitor"@[9]);
}

/// The lobby registers a board with the first argument as its network and
/// the second as its address; with fewer than two arguments it runs nothing.
pub proof fn law_register_board_arguments(m: MessageArgsView)
    requires
        m.command == "register_board"@,
    ensures
        m.args.len() >= 2 ==> decide(Phase::Lobby, Some(m)) == DecisionView::Run(
            CommandView::RegisterBoard { wifi: m.args[0], ip: m.args[1] },
        ),
        m.args.len() < 2 ==> decide(Phase::Lobby, Some(m)) == DecisionView::MissingArgument,
{
    lemma_command_names_differ();
}

/// The lobby registers an app with the first argument as the user's name,
/// the second read as the room number and the third read as the board's
/// key; where either number does not read, nothing runs.
pub proof fn law_register_app_arguments(m: MessageArgsView)
    requires
        m.command == "register_app"@,
    ensures
        m.args.len() < 3 ==> decide(Phase::Lobby, Some(m)) == DecisionView::MissingArgument,
        m.args.len() >= 3 ==> match (parse_u32(m.args[1]), parse_usize(m.args[2])) {
            (Some(r), Some(b)) => decide(Phase::Lobby, Some(m)) == DecisionView::Run(
                CommandView::RegisterApp { user_name: m.args[0], room_num: r, board_id: b },
            ),
            _ => decide(Phase::Lobby, Some(m)) == DecisionView::ConversionFailed,
        },
{
    lemma_command_names_differ();
}

/// A referee or visitor registers for the room its first argument reads as;
/// a referee asks for the boards of the room its first argument reads as.
pub proof fn law_room_number_arguments(m: MessageArgsView)
    requires
        m.args.len() >= 1,
    ensures
        m.command == "register_referee"@ ==> decide(Phase::Lobby, Some(m)) == match parse_u32(
            m.args[0],
        ) {
            Some(r) => DecisionView::Run(CommandView::RegisterReferee { room_num: r }),
            None => DecisionView::ConversionFailed,
        },
        m.command == "register_visitor"@ ==> decide(Phase::Lobby, Some(m)) == match parse_u32(
            m.args[0],
        ) {
            Some(r) => DecisionView::Run(CommandView::RegisterVisitor { room_num: r }),
            None => DecisionView::ConversionFailed,
        },
        m.command == "request_list_boards_in_room"@ ==> decide(Phase::Referee, Some(m)) == match parse_u32(
            m.args[0],
        ) {
            Some(r) => DecisionView::Run(CommandView::RequestListBoardsInRoom { room_num: r }),
            None => DecisionView::ConversionFailed,
        },
{
    lemma_command_names_differ();
}

/// A referee places the board whose key the first argument reads as, at the
/// coordinates given by the second and third arguments, as written.
pub proof fn law_set_board_coords_arguments(m: MessageArgsView)
    requires
        m.command == "request_set_board_coords"@,
        m.args.len() >= 3,
    ensures
        decide(Phase::Referee, Some(m)) == match parse_usize(m.args[0]) {
            Some(b) => DecisionView::Run(
                CommandView::RequestSetBoardCoords { board_id: b, x: m.args[1], y: m.args[2] },
            ),
            None => DecisionView::ConversionFailed,
        },
{
    lemma_command_names_differ();
}

/// A log message carries its first argument as its text, in every loop but
/// the board's.
pub proof fn law_log_arguments(phase: Phase, m: MessageArgsView)
    requires
        m.command == "log"@,
        m.args.len() >= 1,
        phase != Phase::Board,
    ensures
        decide(phase, Some(m)) == DecisionView::Run(CommandView::Log { text: m.args[0] }),
{
    lemma_command_names_differ();
}

/// The requests without arguments run whatever arguments come with them, in
/// the loops that take them.
pub proof fn law_requests_without_arguments(m: MessageArgsView)
    ensures
        m.command == "request_list_rooms"@ ==> decide(Phase::Lobby, Some(m)) == DecisionView::Run(
            CommandView::RequestListRooms,
        ) && decide(Phase::App, Some(m)) == DecisionView::Run(CommandView::RequestListRooms)
            && decide(Phase::Referee, Some(m)) == DecisionView::Run(CommandView::RequestListRooms),
        m.command == "request_list_boards"@ ==> decide(Phase::Lobby, Some(m)) == DecisionView::Run(
            CommandView::RequestListBoards,
        ) && decide(Phase::App, Some(m)) == DecisionView::Run(CommandView::RequestListBoards)
            && decide(Phase::Referee, Some(m)) == DecisionView::Run(CommandView::RequestListBoards),
        m.command == "request_get_model_type"@ ==> decide(Phase::Lobby, Some(m))
            == DecisionView::Run(CommandView::RequestGetModelType),
        m.command == "check"@ ==> decide(Phase::App, Some(m)) == DecisionView::Run(
            CommandView::Check,
        ),
{
    lemma_command_names_differ();
}

/// A board's loop runs nothing; a visitor's loop runs nothing but logs; no
/// message at all is never recognised.
pub proof fn law_loops_that_run_little(phase: Phase, m: MessageArgsView)
    ensures
        decide(Phase::Board, Some(m)) == DecisionView::NotRecognized,
        m.command != "log"@ ==> decide(Phase::Visitor, Some(m)) == DecisionView::NotRecognized,
        decide(phase, None) == DecisionView::NotRecognized,
{
}

/// Every loop but the board's reads the text frames it gets; every loop
/// closes on a close; only the app's loop faults on another kind of frame,
/// the others read on.
pub proof fn law_frames(phase: Phase)
    ensures
        phase != Phase::Board ==> frame_action(phase, FrameKind::Text) == FrameAction::Process,
        frame_action(Phase::Board, FrameKind::Text) == FrameAction::Ignore,
        frame_action(phase, FrameKind::Close) == FrameAction::Close,
        phase == Phase::App ==> frame_action(phase, FrameKind::Other) == FrameAction::Fault,
        phase != Phase::App ==> frame_action(phase, FrameKind::Other) == FrameAction::Ignore,
{
}

/// The app's loop waits two seconds for a frame, the board's three, and
/// every other loop four.
pub proof fn law_read_timeouts(phase: Phase)
    ensures
        spec_read_timeout_millis(Phase::App) == 2000,
        spec_read_timeout_millis(Phase::Board) == 3000,
        phase != Phase::App && phase != Phase::Board ==> spec_read_timeout_millis(phase) == 4000,
{
}

/// Each registration leads into the loop of the role it registers; no other
/// command leaves the loop it runs in.
pub proof fn law_registrations_lead_to_their_loops(c: Command)
    ensures
        c is RegisterApp <==> c.spec_next_phase() == Some(Phase::App),
        c is RegisterBoard <==> c.spec_next_phase() == Some(Phase::Board),
        c is RegisterReferee <==> c.spec_next_phase() == Some(Phase::Referee),
        c is RegisterVisitor <==> c.spec_next_phase() == Some(Phase::Visitor),
        c.spec_next_phase() != Some(Phase::Lobby),
        is_registration(c@) <==> c.spec_next_phase() is Some,
{
}

/// A room number read from an argument.
fn arg_u32(s: &String) -> (r: Option<u32>)
    ensures
        r == parse_u32(s@),
{
    let v = chars_of(s.as_str());
    assert(v@.subrange(0, v.len() as int) =~= s@);
    match parse_unsigned_chars(&v, 0, v.len(), u32::MAX as u64) {
        Some(n) => Some(n as u32),
        None => None,
    }
}

/// A key read from an argument.
fn arg_usize(s: &String) -> (r: Option<usize>)
    ensures
        r == parse_usize(s@),
{
    let v = chars_of(s.as_str());
    assert(v@.subrange(0, v.len() as int) =~= s@);
    match parse_unsigned_chars(&v, 0, v.len(), usize::MAX as u64) {
        Some(n) => Some(n as usize),
        None => None,
    }
}

/// Whether the loop accepts the command.
fn accepted(phase: Phase, name: &String) -> (b: bool)
    ensures
        b == accepts(phase, name@),
{
    match phase {
        Phase::Lobby => text_is(name, "register_app") || text_is(name, "register_board")
            || text_is(name, "register_referee") || text_is(name, "register_visitor") || text_is(
            name,
            "log",
        ) || text_is(name, "request_list_rooms") || text_is(name, "request_list_boards")
            || text_is(name, "request_get_model_type"),
        Phase::App => text_is(name, "request_list_rooms") || text_is(name, "request_list_boards")
            || text_is(name, "log") || text_is(name, "check"),
        Phase::Board => false,
        Phase::Referee => text_is(name, "request_list_rooms") || text_is(
            name,
            "request_list_boards",
        ) || text_is(name, "request_list_boards_in_room") || text_is(
            name,
            "request_set_board_coords",
        ) || text_is(name, "log"),
        Phase::Visitor => text_is(name, "log"),
    }
}

/// Converts the arguments of a command that the loop accepts.
fn convert_args(name: &String, a: &Vec<String>) -> (d: Decision)
    ensures
        d@ == convert(name@, views(a@)),
{
    let ghost av = views(a@);
    if text_is(name, "register_app") {
        if a.len() < 3 {
            Decision::MissingArgument
        } else {
            assert(av[1] == a@[1]@ && av[2] == a@[2]@ && av[0] == a@[0]@);
            match (arg_u32(&a[1]), arg_usize(&a[2])) {
                (Some(room_num), Some(board_id)) => Decision::Run(
                    Command::RegisterApp { user_name: a[0].clone(), room_num, board_id },
                ),
                _ => Decision::ConversionFailed,
            }
        }
    } else if text_is(name, "register_board") {
        if a.len() < 2 {
            Decision::MissingArgument
        } else {
            assert(av[1] == a@[1]@ && av[0] == a@[0]@);
            Decision::Run(Command::RegisterBoard { wifi: a[0].clone(), ip: a[1].clone() })
        }
    } else if text_is(name, "register_referee") || text_is(name, "register_visitor") || text_is(
        name,
        "request_list_boards_in_room",
    ) {
        if a.len() < 1 {
            Decision::MissingArgument
        } else {
            assert(av[0] == a@[0]@);
            match arg_u32(&a[0]) {
                Some(room_num) => Decision::Run(
                    if text_is(name, "register_referee") {
                        Command::RegisterReferee { room_num }
                    } else if text_is(name, "register_visitor") {
                        Command::RegisterVisitor { room_num }
                    } else {
                        Command::RequestListBoardsInRoom { room_num }
                    },
                ),
                None => Decision::ConversionFailed,
            }
        }
    } else if text_is(name, "log") {
        if a.len() < 1 {
            Decision::MissingArgument
        } else {
            assert(av[0] == a@[0]@);
            Decision::Run(Command::Log { text: a[0].clone() })
        }
    } else if text_is(name, "request_list_rooms") {
        Decision::Run(Command::RequestListRooms)
    } else if text_is(name, "request_list_boards") {
        Decision::Run(Command::RequestListBoards)
    } else if text_is(name, "request_get_model_type") {
        Decision::Run(Command::RequestGetModelType)
    } else if text_is(name, "check") {
        Decision::Run(Command::Check)
    } else if text_is(name, "request_set_board_coords") {
        if a.len() < 3 {
            Decision::MissingArgument
        } else {
            assert(av[1] == a@[1]@ && av[2] == a@[2]@ && av[0] == a@[0]@);
            match arg_usize(&a[0]) {
                Some(board_id) => Decision::Run(
                    Command::RequestSetBoardCoords {
                        board_id,
                        x: a[1].clone(),
                        y: a[2].clone(),
                    },
                ),
                None => Decision::ConversionFailed,
            }
        }
    } else {
        Decision::NotRecognized
    }
}

/// What the loop of `phase` makes of a parsed message: the command to run
/// with its converted arguments, or why there is none.
pub fn match_command(phase: Phase, msg: &Option<MessageArgs>) -> (d: Decision)
    ensures
        d@ == decide(
            phase,
            match msg {
                Some(m) => Some(m@),
                None => None,
            },
        ),
{
    match msg {
        None => Decision::NotRecognized,
        Some(m) => if accepted(phase, &m.command) {
            convert_args(&m.command, &m.args)
        } else {
            Decision::NotRecognized
        },
    }
}

} // verus!
