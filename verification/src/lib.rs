//! Room-based multiplayer session core: validated identities, token
//! authentication, room membership and the fan-out of room events.

pub mod bridge;
pub mod channel;
pub mod error;
pub mod laws;
pub mod message;
pub mod model;
pub mod registry;
pub mod room;
pub mod server;
pub mod table;
pub mod token;
pub mod validation;
