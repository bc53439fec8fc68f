//! The failures a peer session can end in.

use vstd::prelude::*;

verus! {

/// Why an operation on a peer session failed.
///
/// None of these is retried inside the crate: each is handed to the caller,
/// who decides whether to try another peer.
#[derive(Debug, Clone, PartialEq, Eq)]
#[allow(inconsistent_fields)]
pub enum PeerError {
    /// The transport could not connect, read or write.
    ConnectionError,
    /// The stream ended before a complete message had arrived.
    ConnectionClosed,
    /// Sixty-eight bytes that are not a handshake.
    MalformedHandshake,
    /// The peer's handshake is malformed or names another torrent.
    HandshakeFailed,
    /// A message arrived that is not the one the session was waiting for.
    /// `actual` is `None` for a keep-alive, which carries no id.
    UnexpectedMessage { expected: u8, actual: Option<u8> },
    /// A message whose payload does not have the shape its id calls for.
    MalformedMessage,
    /// The reassembled piece does not hash to the digest the torrent records.
    PieceHashMismatch { index: u32, expected: Vec<u8>, actual: Vec<u8> },
    /// The tracker returned no peer to download from.
    NoPeersAvailable,
}

} // verus!
