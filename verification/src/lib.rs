//! A verified core for a Minecraft Java Edition (protocol 763) load-generation
//! client: byte buffers with VarInt/primitive codecs, optionally compressed
//! packet framing, the Login/Play protocol handlers that drive a simulated
//! player, and the admission and action-cadence rules of the bot manager.
//! Socket handling, polling and randomness live outside this crate.

pub mod varint;
pub mod buffer;
pub mod compress;
pub mod codec;
pub mod packets;
pub mod bot;
pub mod manager;

pub use bot::Bot;
pub use buffer::Buf;
pub use manager::BotManager;
