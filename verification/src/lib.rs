//! Control core of a background assistant daemon.
//!
//! The library turns raw modifier-key transitions into a small set of
//! operating modes and defines the wire protocol that carries mode-change
//! notifications to local clients.  Everything here is pure logic with
//! verified contracts; socket I/O, clocks and signal handling live in the
//! surrounding application.

pub mod codec;
pub mod events;
pub mod frame;
pub mod hotkey;
pub mod keys;
pub mod machine;
pub mod protocol;
pub mod server;
pub mod wire;
