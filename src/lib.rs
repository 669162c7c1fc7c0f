//! Room-based signaling relay: room membership, history replay and the
//! routing rules that decide which member receives which message.

pub mod wire;
pub mod room;
pub mod router;
pub mod registry;
pub mod identity;
