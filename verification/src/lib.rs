//! A multi-room message relay: the room and connection registries, the
//! per-client message router and the per-connection session state machine.

pub mod config;
pub mod connection;
pub mod handler;
pub mod hub;
pub mod identity;
pub mod outside;
pub mod registry;
pub mod room;
pub mod session;
pub mod tables;
pub mod types;

pub use connection::ConnectionManager;
pub use handler::{MessageHandler, Outcome};
pub use hub::Hub;
pub use room::RoomManager;
pub use session::{Session, SessionAction, SessionEvent, SessionState};
pub use types::{
    ClientMessage, JoinError, Outbound, Player, RelayError, Room, RoomType, ServerMessage,
    UserProfile,
};
