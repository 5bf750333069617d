//! Room, board and connection bookkeeping for a WebSocket game server,
//! together with the text protocol that its clients speak.
pub mod character;
pub mod room;
pub mod text;
pub mod board_info;
pub mod visitor_info;
pub mod referee_info;
pub mod tables;
pub mod command_args;
pub mod server;
pub mod request;
pub mod dispatch;

pub use request::ServerData;
pub use server::WsThreadInfo;
