//! Length-prefixed messages: the frame around every message, and the typed
//! messages of the peer-wire protocol.

use crate::error::PeerError;
use crate::wire::{
    be_bytes, be_value, get_u32, lemma_be_bytes_of_value, lemma_be_value_of_bytes, put_u32, BITFIELD,
    CANCEL, CHOKE, HAVE, INTERESTED, NOT_INTERESTED, PIECE, REQUEST, UNCHOKE,
};
use vstd::prelude::*;

verus! {

/// The frame of a message: a four-byte length that counts the id and the
/// payload, the id, and the payload.
pub open spec fn frame_bytes(id: u8, payload: Seq<u8>) -> Seq<u8> {
    be_bytes((payload.len() + 1) as u32) + seq![id] + payload
}

/// The frame of a keep-alive: a length of zero and nothing after it.
pub open spec fn keep_alive_bytes() -> Seq<u8> {
    be_bytes(0)
}

/// The length that the first four bytes of a frame announce.
pub open spec fn frame_len(bytes: Seq<u8>) -> int {
    be_value(bytes.subrange(0, 4))
}

/// Whether `bytes` is one whole frame: the four-byte length, and then as
/// many bytes as it announces, not one more and not one fewer.
pub open spec fn is_frame(bytes: Seq<u8>) -> bool {
    bytes.len() >= 4 && bytes.len() == 4 + frame_len(bytes)
}

/// Whether `bytes` stops before the frame it begins is complete.
pub open spec fn is_truncated(bytes: Seq<u8>) -> bool {
    bytes.len() < 4 || bytes.len() < 4 + frame_len(bytes)
}

/// The id of a frame, or `None` for a keep-alive.
pub open spec fn frame_id(bytes: Seq<u8>) -> Option<u8> {
    if frame_len(bytes) == 0 {
        None
    } else {
        Some(bytes[4])
    }
}

/// The payload of a frame; empty for a keep-alive.
pub open spec fn frame_payload(bytes: Seq<u8>) -> Seq<u8> {
    if frame_len(bytes) == 0 {
        Seq::empty()
    } else {
        bytes.subrange(5, bytes.len() as int)
    }
}

/// A frame built from an id and a payload is a frame, and holds both.
pub proof fn lemma_frame_parts(id: u8, payload: Seq<u8>)
    requires
        payload.len() < u32::MAX,
    ensures
        is_frame(frame_bytes(id, payload)),
        frame_len(frame_bytes(id, payload)) == payload.len() + 1,
        frame_id(frame_bytes(id, payload)) == Some(id),
        frame_payload(frame_bytes(id, payload)) == payload,
{
    let n = (payload.len() + 1) as u32;
    let bytes = frame_bytes(id, payload);
    lemma_be_value_of_bytes(n);
    assert(bytes.subrange(0, 4) =~= be_bytes(n));
    assert(bytes.subrange(5, bytes.len() as int) =~= payload);
}

/// A frame with an id is rebuilt from its id and its payload.
pub proof fn lemma_frame_rebuilt(bytes: Seq<u8>)
    requires
        is_frame(bytes),
        frame_len(bytes) > 0,
    ensures
        frame_bytes(bytes[4], frame_payload(bytes)) == bytes,
        frame_payload(bytes).len() == frame_len(bytes) - 1,
{
    lemma_be_bytes_of_value(bytes.subrange(0, 4));
    assert(frame_bytes(bytes[4], frame_payload(bytes)) =~= bytes);
}

/// A frame of length zero is the keep-alive.
pub proof fn lemma_keep_alive(bytes: Seq<u8>)
    ensures
        is_frame(keep_alive_bytes()),
        frame_len(keep_alive_bytes()) == 0,
        is_frame(bytes) && frame_len(bytes) == 0 ==> bytes == keep_alive_bytes(),
{
    lemma_be_value_of_bytes(0);
    assert(keep_alive_bytes().subrange(0, 4) =~= be_bytes(0));
    if is_frame(bytes) && frame_len(bytes) == 0 {
        lemma_be_bytes_of_value(bytes.subrange(0, 4));
        assert(bytes =~= bytes.subrange(0, 4));
    }
}

/// The frame that holds an id and a payload, or the keep-alive where there
/// is no id.
pub open spec fn framed(id: Option<u8>, payload: Seq<u8>) -> Seq<u8> {
    match id {
        Some(id) => frame_bytes(id, payload),
        None => keep_alive_bytes(),
    }
}

/// Taking a frame apart and framing what came out gives the same bytes: for
/// every id, for an empty payload, and for the keep-alive.
pub proof fn lemma_frame_encode_decode(bytes: Seq<u8>)
    requires
        is_frame(bytes),
    ensures
        framed(frame_id(bytes), frame_payload(bytes)) == bytes,
{
    if frame_len(bytes) == 0 {
        lemma_keep_alive(bytes);
    } else {
        lemma_frame_rebuilt(bytes);
    }
}

/// Framing an id and a payload and taking the frame apart gives both back;
/// and the keep-alive is taken apart into no id and no payload.
pub proof fn lemma_frame_decode_encode(id: Option<u8>, payload: Seq<u8>)
    requires
        payload.len() < u32::MAX,
        id is None ==> payload.len() == 0,
    ensures
        is_frame(framed(id, payload)),
        frame_id(framed(id, payload)) == id,
        frame_payload(framed(id, payload)) == payload,
{
    match id {
        Some(id) => {
            lemma_frame_parts(id, payload);
        },
        None => {
            lemma_keep_alive(keep_alive_bytes());
            assert(payload =~= Seq::<u8>::empty());
        },
    }
}

/// Builds the frame of a message with the given id and payload.
pub fn encode_message(id: u8, payload: &[u8]) -> (out: Vec<u8>)
    requires
        payload@.len() < u32::MAX,
    ensures
        out@ == frame_bytes(id, payload@),
{
    let mut out: Vec<u8> = Vec::new();
    put_u32(&mut out, (payload.len() + 1) as u32);
    out.push(id);
    out.extend_from_slice(payload);
    assert(out@ =~= frame_bytes(id, payload@));
    out
}

/// Builds the frame of a keep-alive.
pub fn encode_keep_alive() -> (out: Vec<u8>)
    ensures
        out@ == keep_alive_bytes(),
{
    let mut out: Vec<u8> = Vec::new();
    put_u32(&mut out, 0);
    assert(out@ =~= keep_alive_bytes());
    out
}

/// Takes one frame apart into its id and its payload.
///
/// `bytes` has to be the whole frame and nothing else. A byte string that
/// stops early is reported as a closed connection, one that runs on past the
/// announced length as malformed.
pub fn decode_message(bytes: &[u8]) -> (r: Result<(Option<u8>, Vec<u8>), PeerError>)
    ensures
        r is Ok <==> is_frame(bytes@),
        r matches Ok(parts) ==> parts.0 == frame_id(bytes@) && parts.1@ == frame_payload(bytes@),
        r matches Err(e) ==> e == (if is_truncated(bytes@) {
            PeerError::ConnectionClosed
        } else {
            PeerError::MalformedMessage
        }),
{
    if bytes.len() < 4 {
        return Err(PeerError::ConnectionClosed);
    }
    let announced = get_u32(bytes, 0);
    let rest = bytes.len() - 4;
    if rest < announced as usize {
        return Err(PeerError::ConnectionClosed);
    }
    if rest > announced as usize {
        return Err(PeerError::MalformedMessage);
    }
    if announced == 0 {
        return Ok((None, Vec::new()));
    }
    let payload = vstd::slice::slice_to_vec(vstd::slice::slice_subrange(bytes, 5, bytes.len()));
    Ok((Some(bytes[4]), payload))
}

/// A message of the peer-wire protocol, as a mathematical value.
pub enum Message {
    KeepAlive,
    Choke,
    Unchoke,
    Interested,
    NotInterested,
    Have { index: u32 },
    Bitfield { bits: Seq<u8> },
    Request { index: u32, begin: u32, length: u32 },
    Piece { index: u32, begin: u32, block: Seq<u8> },
    Cancel { index: u32, begin: u32, length: u32 },
}

/// A message of the peer-wire protocol.
#[derive(Debug, Clone, PartialEq, Eq)]
pub enum WireMessage {
    KeepAlive,
    Choke,
    Unchoke,
    Interested,
    NotInterested,
    Have { index: u32 },
    Bitfield { bits: Vec<u8> },
    Request { index: u32, begin: u32, length: u32 },
    Piece { index: u32, begin: u32, block: Vec<u8> },
    Cancel { index: u32, begin: u32, length: u32 },
}

impl View for WireMessage {
    type V = Message;

    open spec fn view(&self) -> Message {
        match *self {
            WireMessage::KeepAlive => Message::KeepAlive,
            WireMessage::Choke => Message::Choke,
            WireMessage::Unchoke => Message::Unchoke,
            WireMessage::Interested => Message::Interested,
            WireMessage::NotInterested => Message::NotInterested,
            WireMessage::Have { index } => Message::Have { index },
            WireMessage::Bitfield { bits } => Message::Bitfield { bits: bits@ },
            WireMessage::Request { index, begin, length } => Message::Request {
                index,
                begin,
                length,
            },
            WireMessage::Piece { index, begin, block } => Message::Piece {
                index,
                begin,
                block: block@,
            },
            WireMessage::Cancel { index, begin, length } => Message::Cancel {
                index,
                begin,
                length,
            },
        }
    }
}

/// The id that a message travels under; a keep-alive has none.
pub open spec fn message_id(m: Message) -> Option<u8> {
    match m {
        Message::KeepAlive => None,
        Message::Choke => Some(CHOKE),
        Message::Unchoke => Some(UNCHOKE),
        Message::Interested => Some(INTERESTED),
        Message::NotInterested => Some(NOT_INTERESTED),
        Message::Have { .. } => Some(HAVE),
        Message::Bitfield { .. } => Some(BITFIELD),
        Message::Request { .. } => Some(REQUEST),
        Message::Piece { .. } => Some(PIECE),
        Message::Cancel { .. } => Some(CANCEL),
    }
}

/// The payload of a message: its integers big-endian, then its bytes.
pub open spec fn message_payload(m: Message) -> Seq<u8> {
    match m {
        Message::Have { index } => be_bytes(index),
        Message::Bitfield { bits } => bits,
        Message::Request { index, begin, length } => be_bytes(index) + be_bytes(begin) + be_bytes(
            length,
        ),
        Message::Piece { index, begin, block } => be_bytes(index) + be_bytes(begin) + block,
        Message::Cancel { index, begin, length } => be_bytes(index) + be_bytes(begin) + be_bytes(
            length,
        ),
        _ => Seq::empty(),
    }
}

/// A message on the wire.
pub open spec fn message_bytes(m: Message) -> Seq<u8> {
    match message_id(m) {
        None => keep_alive_bytes(),
        Some(id) => frame_bytes(id, message_payload(m)),
    }
}

/// Whether the length of a message fits the four-byte prefix.
pub open spec fn encodable(m: Message) -> bool {
    message_payload(m).len() < u32::MAX
}

/// The message that an id and a payload stand for, if the payload has the
/// shape that the id calls for.
pub open spec fn parse_payload(id: u8, payload: Seq<u8>) -> Option<Message> {
    if id == CHOKE && payload.len() == 0 {
        Some(Message::Choke)
    } else if id == UNCHOKE && payload.len() == 0 {
        Some(Message::Unchoke)
    } else if id == INTERESTED && payload.len() == 0 {
        Some(Message::Interested)
    } else if id == NOT_INTERESTED && payload.len() == 0 {
        Some(Message::NotInterested)
    } else if id == HAVE && payload.len() == 4 {
        Some(Message::Have { index: be_value(payload) as u32 })
    } else if id == BITFIELD {
        Some(Message::Bitfield { bits: payload })
    } else if id == REQUEST && payload.len() == 12 {
        Some(
            Message::Request {
                index: be_value(payload.subrange(0, 4)) as u32,
                begin: be_value(payload.subrange(4, 8)) as u32,
                length: be_value(payload.subrange(8, 12)) as u32,
            },
        )
    } else if id == PIECE && payload.len() >= 8 {
        Some(
            Message::Piece {
                index: be_value(payload.subrange(0, 4)) as u32,
                begin: be_value(payload.subrange(4, 8)) as u32,
                block: payload.subrange(8, payload.len() as int),
            },
        )
    } else if id == CANCEL && payload.len() == 12 {
        Some(
            Message::Cancel {
                index: be_value(payload.subrange(0, 4)) as u32,
                begin: be_value(payload.subrange(4, 8)) as u32,
                length: be_value(payload.subrange(8, 12)) as u32,
            },
        )
    } else {
        None
    }
}

/// The message that a byte string spells, if it is one whole frame whose
/// payload fits its id.
pub open spec fn parse_message(bytes: Seq<u8>) -> Option<Message> {
    if !is_frame(bytes) {
        None
    } else {
        match frame_id(bytes) {
            None => Some(Message::KeepAlive),
            Some(id) => parse_payload(id, frame_payload(bytes)),
        }
    }
}

/// A payload read as a message is the payload of that message, under the
/// same id.
pub proof fn lemma_payload_rebuilt(id: u8, payload: Seq<u8>)
    requires
        parse_payload(id, payload) is Some,
    ensures
        message_id(parse_payload(id, payload)->0) == Some(id),
        message_payload(parse_payload(id, payload)->0) == payload,
{
    let m = parse_payload(id, payload)->0;
    if id == HAVE {
        lemma_be_bytes_of_value(payload);
    } else if id == REQUEST || id == CANCEL {
        lemma_be_bytes_of_value(payload.subrange(0, 4));
        lemma_be_bytes_of_value(payload.subrange(4, 8));
        lemma_be_bytes_of_value(payload.subrange(8, 12));
        assert(message_payload(m) =~= payload);
    } else if id == PIECE {
        lemma_be_bytes_of_value(payload.subrange(0, 4));
        lemma_be_bytes_of_value(payload.subrange(4, 8));
        assert(message_payload(m) =~= payload);
    } else {
        assert(message_payload(m) =~= payload);
    }
}

/// The payload of a message is read back as that message.
pub proof fn lemma_payload_parsed(m: Message)
    requires
        message_id(m) is Some,
    ensures
        parse_payload(message_id(m)->0, message_payload(m)) == Some(m),
{
    let payload = message_payload(m);
    match m {
        Message::Have { index } => {
            lemma_be_value_of_bytes(index);
        },
        Message::Request { index, begin, length } => {
            lemma_be_value_of_bytes(index);
            lemma_be_value_of_bytes(begin);
            lemma_be_value_of_bytes(length);
            assert(payload.subrange(0, 4) =~= be_bytes(index));
            assert(payload.subrange(4, 8) =~= be_bytes(begin));
            assert(payload.subrange(8, 12) =~= be_bytes(length));
        },
        Message::Cancel { index, begin, length } => {
            lemma_be_value_of_bytes(index);
            lemma_be_value_of_bytes(begin);
            lemma_be_value_of_bytes(length);
            assert(payload.subrange(0, 4) =~= be_bytes(index));
            assert(payload.subrange(4, 8) =~= be_bytes(begin));
            assert(payload.subrange(8, 12) =~= be_bytes(length));
        },
        Message::Piece { index, begin, block } => {
            lemma_be_value_of_bytes(index);
            lemma_be_value_of_bytes(begin);
            assert(payload.subrange(0, 4) =~= be_bytes(index));
            assert(payload.subrange(4, 8) =~= be_bytes(begin));
            assert(payload.subrange(8, payload.len() as int) =~= block);
        },
        _ => {},
    }
}

/// Decoding a byte string and encoding the message that came out gives the
/// same bytes: for every id, for an empty payload and for the keep-alive.
pub proof fn lemma_message_encode_decode(bytes: Seq<u8>)
    requires
        parse_message(bytes) is Some,
    ensures
        message_bytes(parse_message(bytes)->0) == bytes,
        encodable(parse_message(bytes)->0),
{
    match frame_id(bytes) {
        None => {
            lemma_keep_alive(bytes);
        },
        Some(id) => {
            lemma_frame_rebuilt(bytes);
            lemma_payload_rebuilt(id, frame_payload(bytes));
        },
    }
}

/// Encoding a message and decoding the bytes gives the message back.
pub proof fn lemma_message_decode_encode(m: Message)
    requires
        encodable(m),
    ensures
        parse_message(message_bytes(m)) == Some(m),
{
    match message_id(m) {
        None => {
            lemma_keep_alive(message_bytes(m));
        },
        Some(id) => {
            lemma_frame_parts(id, message_payload(m));
            lemma_payload_parsed(m);
        },
    }
}

impl WireMessage {
    /// Writes the message as it travels on the wire.
    pub fn encode(&self) -> (out: Vec<u8>)
        requires
            encodable(self@),
        ensures
            out@ == message_bytes(self@),
    {
        match self {
            WireMessage::KeepAlive => encode_keep_alive(),
            WireMessage::Choke => encode_message(CHOKE, &[]),
            WireMessage::Unchoke => encode_message(UNCHOKE, &[]),
            WireMessage::Interested => encode_message(INTERESTED, &[]),
            WireMessage::NotInterested => encode_message(NOT_INTERESTED, &[]),
            WireMessage::Have { index } => {
                let mut payload: Vec<u8> = Vec::new();
                put_u32(&mut payload, *index);
                encode_message(HAVE, payload.as_slice())
            },
            WireMessage::Bitfield { bits } => encode_message(BITFIELD, bits.as_slice()),
            WireMessage::Request { index, begin, length } => {
                let payload = triple_payload(*index, *begin, *length);
                encode_message(REQUEST, payload.as_slice())
            },
            WireMessage::Piece { index, begin, block } => {
                let mut payload: Vec<u8> = Vec::new();
                put_u32(&mut payload, *index);
                put_u32(&mut payload, *begin);
                payload.extend_from_slice(block.as_slice());
                encode_message(PIECE, payload.as_slice())
            },
            WireMessage::Cancel { index, begin, length } => {
                let payload = triple_payload(*index, *begin, *length);
                encode_message(CANCEL, payload.as_slice())
            },
        }
    }

    /// Reads one message from the bytes of one whole frame.
    ///
    /// Succeeds exactly when `bytes` is a frame whose payload has the shape
    /// that its id calls for. A byte string that stops before the frame is
    /// complete is reported as a closed connection; every other failure,
    /// an unknown id among them, as a malformed message.
    pub fn decode(bytes: &[u8]) -> (r: Result<WireMessage, PeerError>)
        ensures
            r matches Ok(m) ==> parse_message(bytes@) == Some(m@),
            r is Err ==> parse_message(bytes@) is None,
            r matches Err(e) ==> e == (if is_truncated(bytes@) {
                PeerError::ConnectionClosed
            } else {
                PeerError::MalformedMessage
            }),
    {
        let (id, payload) = match decode_message(bytes) {
            Ok(parts) => parts,
            Err(e) => {
                return Err(e);
            },
        };
        let id = match id {
            None => {
                return Ok(WireMessage::KeepAlive);
            },
            Some(id) => id,
        };
        let n = payload.len();
        if id == CHOKE && n == 0 {
            Ok(WireMessage::Choke)
        } else if id == UNCHOKE && n == 0 {
            Ok(WireMessage::Unchoke)
        } else if id == INTERESTED && n == 0 {
            Ok(WireMessage::Interested)
        } else if id == NOT_INTERESTED && n == 0 {
            Ok(WireMessage::NotInterested)
        } else if id == HAVE && n == 4 {
            let index = get_u32(payload.as_slice(), 0);
            assert(payload@.subrange(0, 4) =~= payload@);
            Ok(WireMessage::Have { index })
        } else if id == BITFIELD {
            Ok(WireMessage::Bitfield { bits: payload })
        } else if id == REQUEST && n == 12 {
            let index = get_u32(payload.as_slice(), 0);
            let begin = get_u32(payload.as_slice(), 4);
            let length = get_u32(payload.as_slice(), 8);
            Ok(WireMessage::Request { index, begin, length })
        } else if id == PIECE && n >= 8 {
            let index = get_u32(payload.as_slice(), 0);
            let begin = get_u32(payload.as_slice(), 4);
            let block = vstd::slice::slice_to_vec(
                vstd::slice::slice_subrange(payload.as_slice(), 8, n),
            );
            Ok(WireMessage::Piece { index, begin, block })
        } else if id == CANCEL && n == 12 {
            let index = get_u32(payload.as_slice(), 0);
            let begin = get_u32(payload.as_slice(), 4);
            let length = get_u32(payload.as_slice(), 8);
            Ok(WireMessage::Cancel { index, begin, length })
        } else {
            Err(PeerError::MalformedMessage)
        }
    }
}

/// The payload shared by `Request` and `Cancel`: three big-endian integers.
fn triple_payload(index: u32, begin: u32, length: u32) -> (payload: Vec<u8>)
    ensures
        payload@ == be_bytes(index) + be_bytes(begin) + be_bytes(length),
        payload@.len() == 12,
{
    let mut payload: Vec<u8> = Vec::new();
    put_u32(&mut payload, index);
    put_u32(&mut payload, begin);
    put_u32(&mut payload, length);
    payload
}

} // verus!
