/// Wire encodings shared by all packets
pub mod data;

/// Serverbound and clientbound packets
pub mod packet;

/// The protocol's states and handshake decisions
pub mod proto;
