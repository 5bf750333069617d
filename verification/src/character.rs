use vstd::prelude::*;

verus! {

/// The role that a connection has taken on after registering.
#[derive(Debug, Clone, Copy, PartialEq, Eq, Structural)]
pub enum Character {
    /// A board, with its key in the server's board table.
    Board { board_id: usize },
    /// The controlling app of a board.
    App { board_id: usize },
    /// A referee, with its key in the referee table.
    Referee { referee_id: usize },
    /// A visitor, with its key in the visitor table.
    Visitor { visitor_id: usize },
    /// Connected, but not registered yet.
    NotSure,
    /// The connection has been closed.
    Exited,
}

} // verus!
