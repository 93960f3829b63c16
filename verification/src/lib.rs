//! A relay for real-time messaging: the binary wire format of the messages
//! that peers exchange, the registry of live connections, the dispatcher that
//! turns a received frame into registry operations, and the lifecycle of one
//! connection.

pub mod bindings;
pub mod client;
pub mod dispatch;
pub mod events;
pub mod message;
pub mod registry;
pub mod session;
pub mod text;
pub mod utils;
pub mod wire;
