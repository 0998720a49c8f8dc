//! # Hypernovae
//! A framework for building custom Minecraft: Java Edition servers.
//!
//! The library holds the wire formats (VarInt, strings, packets), the
//! packet decoder that splits a byte stream into serverbound packets, and
//! the decisions the protocol handshake makes at each step. Network I/O
//! lives outside the library and drives it.

/// Things related to the game
pub mod game;

/// The server's configuration
pub mod config;

/// Handles the networking protocol
pub mod net;

/// Error utilities
pub mod error;

/// Identifiers, datapacks and text components
pub mod data;
