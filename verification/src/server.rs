//! Per-connection state and the server's timing constants.
use vstd::prelude::*;
use crate::character::Character;

verus! {

/// Seconds that a connection may stay silent before it is closed.
pub const ONLINE_TIMEOUT_SECS: u64 = 4;

/// Seconds between two online checks sent to a registered client.
pub const REQUEST_ONLINE_CHECK_INTERVAL: u64 = 2;

/// What the server knows of one connection: its id and the role it has taken.
pub struct WsThreadInfo {
    character: Character,
    connect_id: u32,
}

/// The contents of a connection's state.
pub struct ThreadView {
    pub character: Character,
    pub connect_id: u32,
}

impl View for WsThreadInfo {
    type V = ThreadView;

    closed spec fn view(&self) -> ThreadView {
        ThreadView { character: self.character, connect_id: self.connect_id }
    }
}

impl WsThreadInfo {
    /// A fresh connection, not registered yet.
    pub fn new(connect_id: u32) -> (info: WsThreadInfo)
        ensures
            info@ == (ThreadView { character: Character::NotSure, connect_id }),
    {
        WsThreadInfo { character: Character::NotSure, connect_id }
    }

    /// The role the connection has taken.
    pub fn character(&self) -> (c: Character)
        ensures
            c == self@.character,
    {
        self.character
    }

    /// The id of the connection.
    pub fn connect_id(&self) -> (id: u32)
        ensures
            id == self@.connect_id,
    {
        self.connect_id
    }

    /// Whether the connection has been closed: the online check stops then.
    pub fn has_exited(&self) -> (b: bool)
        ensures
            b == (self@.character == Character::Exited),
    {
        match self.character {
            Character::Exited => true,
            _ => false,
        }
    }

    /// Gives the connection a new role.
    pub(crate) fn set_character(&mut self, character: Character)
        ensures
            final(self)@ == (ThreadView { character, connect_id: old(self)@.connect_id }),
    {
        self.character = character;
    }
}

} // verus!
