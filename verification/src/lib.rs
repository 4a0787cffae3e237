//! Server-side core of the Bancho protocol tunneled over HTTP: the binary
//! packet codec, the session token layer, the player registry with its
//! per-player outbound queues, and the per-request packet dispatch loop.
pub mod builders;
pub mod config;
pub mod login;
pub mod modes;
pub mod player;
pub mod privileges;
pub mod router;
pub mod rw;
pub mod session;
