//! A BitTorrent client's logic, without its sockets and files.
//!
//! The crate encodes and decodes the peer-wire formats, tracks the state of a
//! peer session, cuts a piece into blocks, reassembles the blocks a peer
//! sends back, and hands a piece on only when its SHA-1 digest is the one
//! that the torrent records. Around that core it derives the hashes of a
//! torrent, composes the announce to a tracker and reads the peers in its
//! answer, and writes bencoded values out as text.
//!
//! Nothing here touches a socket or a file: every function takes the bytes
//! that arrived and returns the bytes to send.

pub mod bencode;
pub mod blocks;
pub mod buffer;
pub mod chunks;
pub mod connection;
pub mod download;
pub mod error;
pub mod hash;
pub mod message;
pub mod parser;
pub mod piece;
pub mod request;
pub mod text;
pub mod torrent;
pub mod wire;
