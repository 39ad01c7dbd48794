//! Per-connection packet framing for a Minecraft-compatible server.

pub mod bytebuf;
pub mod cipher;
pub mod codec;
pub mod compression;
pub mod connection;
pub mod error;
pub mod frame;
pub mod laws;
pub mod mailbox;
pub mod packet;
pub mod varint;
