//! A peer session without its socket: the state of the session, the bytes to
//! send next, and what the bytes that arrived mean.

use crate::error::PeerError;
use crate::hash::sha1;
use crate::message::{
    decode_message, encode_message, frame_bytes, frame_id, frame_payload, is_frame, is_truncated,
};
use crate::piece::{all_usable, fetch_piece, fetched};
use crate::torrent::Torrent;
use crate::wire::{
    answers, be_bytes, check_handshake, encode_handshake, handshake_bytes, handshake_peer_id,
    put_u32, HandshakeResponse, INTERESTED, PIECE, REQUEST,
};
use vstd::prelude::*;
use vstd::string::StringSliceAdditionalSpecFns;

verus! {

/// Where a session stands.
#[derive(Debug, Clone, Copy, PartialEq, Eq, Structural)]
pub enum SessionState {
    /// The stream is open and nothing was sent.
    Connected,
    /// The handshake was sent and the peer's is awaited.
    Handshaking,
    /// The peer serves the torrent; no request is outstanding.
    Ready,
    /// A block was requested and its `Piece` message is awaited.
    Requesting,
    /// The session ended in a failure and is of no more use.
    Closed,
}

/// The state a session in `state` is in after it waited for a message with
/// id `id` and the message came.
pub open spec fn after_wait(state: SessionState, id: u8) -> SessionState {
    if state == SessionState::Requesting && id == PIECE {
        SessionState::Ready
    } else {
        state
    }
}

/// The state a session is in after it sent a message with id `id`.
pub open spec fn after_send(id: u8) -> SessionState {
    if id == REQUEST {
        SessionState::Requesting
    } else {
        SessionState::Ready
    }
}

/// One session with one peer.
pub struct Connection {
    peer: String,
    state: SessionState,
    info_hash: Vec<u8>,
}

impl Connection {
    pub const UNCHOKE: u8 = 1;

    pub const INTERESTED: u8 = 2;

    pub const BITFIELD: u8 = 5;

    pub const REQUEST: u8 = 6;

    pub const PIECE: u8 = 7;

    /// The address of the peer.
    pub closed spec fn peer_address(&self) -> Seq<char> {
        self.peer@
    }

    /// Where the session stands.
    pub closed spec fn session_state(&self) -> SessionState {
        self.state
    }

    /// The info hash that the session announced in its handshake.
    pub closed spec fn announced_hash(&self) -> Seq<u8> {
        self.info_hash@
    }

    /// A session over a stream that was just opened to `peer`.
    pub fn new(peer: String) -> (connection: Connection)
        ensures
            connection.peer_address() == peer@,
            connection.session_state() == SessionState::Connected,
    {
        Connection { peer, state: SessionState::Connected, info_hash: Vec::new() }
    }

    /// The address of the peer.
    pub fn peer(&self) -> (peer: &String)
        ensures
            peer@ == self.peer_address(),
    {
        &self.peer
    }

    /// Where the session stands.
    pub fn state(&self) -> (state: SessionState)
        ensures
            state == self.session_state(),
    {
        self.state
    }

    /// Begins the handshake: returns the 68 bytes to send, and remembers the
    /// info hash that the peer's answer has to carry.
    pub fn handshake(&mut self, info_hash: Vec<u8>, peer_id: &str) -> (out: Vec<u8>)
        requires
            old(self).session_state() == SessionState::Connected,
            info_hash@.len() == 20,
            peer_id.spec_bytes().len() == 20,
        ensures
            out@ == handshake_bytes(info_hash@, peer_id.spec_bytes()),
            final(self).session_state() == SessionState::Handshaking,
            final(self).announced_hash() == info_hash@,
            final(self).peer_address() == old(self).peer_address(),
    {
        let out = encode_handshake(info_hash.as_slice(), peer_id.as_bytes());
        self.info_hash = info_hash;
        self.state = SessionState::Handshaking;
        out
    }

    /// Ends the handshake with the 68 bytes that the peer answered.
    ///
    /// The session is ready when the answer is a handshake that carries the
    /// info hash announced. It is closed when the answer is malformed or
    /// carries another info hash: the peer serves a different torrent.
    pub fn receive_handshake(&mut self, response: &[u8]) -> (r: Result<
        HandshakeResponse,
        PeerError,
    >)
        requires
            old(self).session_state() == SessionState::Handshaking,
        ensures
            r is Ok <==> answers(response@, old(self).announced_hash()),
            r matches Ok(h) ==> h.info_hash@ == old(self).announced_hash() && h.peer_id@
                == handshake_peer_id(response@),
            r matches Err(e) ==> e == PeerError::HandshakeFailed,
            final(self).session_state() == (if r is Ok {
                SessionState::Ready
            } else {
                SessionState::Closed
            }),
            final(self).announced_hash() == old(self).announced_hash(),
            final(self).peer_address() == old(self).peer_address(),
    {
        let r = check_handshake(response, self.info_hash.as_slice());
        self.state = match r {
            Ok(_) => SessionState::Ready,
            Err(_) => SessionState::Closed,
        };
        r
    }

    /// Frames a message: returns the bytes to send for a message with the
    /// given id and payload. A `Request` leaves the session requesting.
    pub fn send_message(&mut self, id: u8, payload: Vec<u8>) -> (out: Vec<u8>)
        requires
            old(self).session_state() == SessionState::Ready,
            payload@.len() < u32::MAX,
        ensures
            out@ == frame_bytes(id, payload@),
            final(self).session_state() == after_send(id),
            final(self).announced_hash() == old(self).announced_hash(),
            final(self).peer_address() == old(self).peer_address(),
    {
        let out = encode_message(id, payload.as_slice());
        self.state = if id == REQUEST {
            SessionState::Requesting
        } else {
            SessionState::Ready
        };
        out
    }

    /// Returns the bytes to send to tell the peer that its blocks are wanted.
    pub fn send_interested(&mut self) -> (out: Vec<u8>)
        requires
            old(self).session_state() == SessionState::Ready,
        ensures
            out@ == frame_bytes(INTERESTED, Seq::empty()),
            final(self).session_state() == SessionState::Ready,
            final(self).announced_hash() == old(self).announced_hash(),
            final(self).peer_address() == old(self).peer_address(),
    {
        self.send_message(INTERESTED, Vec::new())
    }

    /// Returns the bytes to send to request `length` bytes at offset `begin`
    /// of piece `index`. The session is requesting until the matching
    /// `Piece` message has arrived.
    pub fn send_request(&mut self, index: u32, begin: u32, length: u32) -> (out: Vec<u8>)
        requires
            old(self).session_state() == SessionState::Ready,
        ensures
            out@ == frame_bytes(REQUEST, be_bytes(index) + be_bytes(begin) + be_bytes(length)),
            final(self).session_state() == SessionState::Requesting,
            final(self).announced_hash() == old(self).announced_hash(),
            final(self).peer_address() == old(self).peer_address(),
    {
        let mut payload: Vec<u8> = Vec::new();
        put_u32(&mut payload, index);
        put_u32(&mut payload, begin);
        put_u32(&mut payload, length);
        self.send_message(REQUEST, payload)
    }

    /// Takes the one frame that arrived while a message with id `id` was
    /// awaited, and returns its payload.
    ///
    /// Any other message is a violation of the protocol and closes the
    /// session, a keep-alive included: nothing is passed over in silence. So
    /// does a frame that stops before it is complete.
    pub fn wait(&mut self, id: u8, frame: &[u8]) -> (r: Result<Vec<u8>, PeerError>)
        requires
            old(self).session_state() == SessionState::Ready || old(self).session_state()
                == SessionState::Requesting,
        ensures
            r is Ok <==> is_frame(frame@) && frame_id(frame@) == Some(id),
            r matches Ok(payload) ==> payload@ == frame_payload(frame@),
            r matches Err(e) ==> e == (if is_truncated(frame@) {
                PeerError::ConnectionClosed
            } else if !is_frame(frame@) {
                PeerError::MalformedMessage
            } else {
                PeerError::UnexpectedMessage { expected: id, actual: frame_id(frame@) }
            }),
            final(self).session_state() == (if r is Ok {
                after_wait(old(self).session_state(), id)
            } else {
                SessionState::Closed
            }),
            final(self).announced_hash() == old(self).announced_hash(),
            final(self).peer_address() == old(self).peer_address(),
    {
        match decode_message(frame) {
            Ok((actual, payload)) => {
                let expected = match actual {
                    Some(arrived) => arrived == id,
                    None => false,
                };
                if expected {
                    if id == PIECE {
                        match self.state {
                            SessionState::Requesting => {
                                self.state = SessionState::Ready;
                            },
                            _ => {},
                        }
                    }
                    Ok(payload)
                } else {
                    self.state = SessionState::Closed;
                    Err(PeerError::UnexpectedMessage { expected: id, actual })
                }
            },
            Err(e) => {
                self.state = SessionState::Closed;
                Err(e)
            },
        }
    }

    /// Ends the session: the stream is about to be closed, and nothing more
    /// is to be sent or awaited.
    pub fn close(&mut self)
        ensures
            final(self).session_state() == SessionState::Closed,
            final(self).announced_hash() == old(self).announced_hash(),
            final(self).peer_address() == old(self).peer_address(),
    {
        self.state = SessionState::Closed;
    }

    /// Reassembles and verifies piece `piece_index` from the payloads of the
    /// `Piece` messages that answered its block requests, in the order in
    /// which they arrived.
    ///
    /// Returns the bytes of the piece exactly when they hash to the digest
    /// that the torrent records for it.
    pub fn download_piece(
        &mut self,
        meta: &Torrent,
        piece_index: u32,
        responses: &Vec<Vec<u8>>,
    ) -> (r: Result<Vec<u8>, PeerError>)
        requires
            old(self).session_state() == SessionState::Ready,
            meta.info.wf(),
            piece_index < meta.info.count(),
        ensures
            r is Ok <==> all_usable(
                meta.info.piece_len(piece_index as int),
                piece_index,
                responses.deep_view(),
            ) && sha1(fetched(meta.info, piece_index, responses.deep_view()))
                == meta.info.piece_hash(piece_index as int),
            r matches Ok(bytes) ==> bytes@ == fetched(
                meta.info,
                piece_index,
                responses.deep_view(),
            ),
            r matches Err(e) ==> (if all_usable(
                meta.info.piece_len(piece_index as int),
                piece_index,
                responses.deep_view(),
            ) {
                e matches PeerError::PieceHashMismatch { index, expected, actual } && index
                    == piece_index && expected@ == meta.info.piece_hash(piece_index as int)
                    && actual@ == sha1(fetched(meta.info, piece_index, responses.deep_view()))
            } else {
                e == PeerError::MalformedMessage
            }),
            final(self).session_state() == SessionState::Ready,
            final(self).announced_hash() == old(self).announced_hash(),
            final(self).peer_address() == old(self).peer_address(),
    {
        fetch_piece(&meta.info, piece_index, responses)
    }
}

} // verus!
