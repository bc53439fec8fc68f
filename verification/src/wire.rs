//! The fixed formats of the peer-wire protocol: big-endian integers, the ids
//! of the messages, and the 68-byte handshake.

use crate::error::PeerError;
use vstd::prelude::*;
use vstd::string::StringSliceAdditionalSpecFns;

verus! {

/// Length of a handshake on the wire.
pub const HANDSHAKE_LEN: usize = 68;

/// Length of a SHA-1 digest, and of a peer id.
pub const HASH_LEN: usize = 20;

/// The id of the message by which a peer refuses to serve requests.
pub const CHOKE: u8 = 0;

/// The id of the message by which a peer agrees to serve requests.
pub const UNCHOKE: u8 = 1;

/// The id of the message that tells a peer its blocks are wanted.
pub const INTERESTED: u8 = 2;

/// The id of the message that tells a peer its blocks are not wanted.
pub const NOT_INTERESTED: u8 = 3;

/// The id of the message that announces a piece the sender has.
pub const HAVE: u8 = 4;

/// The id of the message that lists the pieces the sender has.
pub const BITFIELD: u8 = 5;

/// The id of the message that asks for a block.
pub const REQUEST: u8 = 6;

/// The id of the message that carries a block.
pub const PIECE: u8 = 7;

/// The id of the message that withdraws a request.
pub const CANCEL: u8 = 8;

/// The four bytes of `n`, most significant first.
pub open spec fn be_bytes(n: u32) -> Seq<u8> {
    seq![
        (n / 0x100_0000) as u8,
        (n / 0x1_0000 % 0x100) as u8,
        (n / 0x100 % 0x100) as u8,
        (n % 0x100) as u8,
    ]
}

/// The number that four bytes spell, most significant first.
pub open spec fn be_value(b: Seq<u8>) -> int
    recommends
        b.len() == 4,
{
    b[0] * 0x100_0000 + b[1] * 0x1_0000 + b[2] * 0x100 + b[3]
}

/// Reading back the bytes of a number gives the number.
pub proof fn lemma_be_value_of_bytes(n: u32)
    ensures
        be_bytes(n).len() == 4,
        be_value(be_bytes(n)) == n,
{
    let b0 = n / 0x100_0000;
    let b1 = n / 0x1_0000 % 0x100;
    let b2 = n / 0x100 % 0x100;
    let b3 = n % 0x100;
    assert(b0 < 0x100 && b1 < 0x100 && b2 < 0x100 && b3 < 0x100 && b0 * 0x100_0000 + b1 * 0x1_0000
        + b2 * 0x100 + b3 == n) by (bit_vector)
        requires
            b0 == n / 0x100_0000,
            b1 == n / 0x1_0000 % 0x100,
            b2 == n / 0x100 % 0x100,
            b3 == n % 0x100,
    ;
}

/// Writing the number that four bytes spell gives the same four bytes.
pub proof fn lemma_be_bytes_of_value(b: Seq<u8>)
    requires
        b.len() == 4,
    ensures
        0 <= be_value(b) <= u32::MAX,
        be_bytes(be_value(b) as u32) == b,
{
    let b0 = b[0];
    let b1 = b[1];
    let b2 = b[2];
    let b3 = b[3];
    let n = (b0 * 0x100_0000 + b1 * 0x1_0000 + b2 * 0x100 + b3) as u32;
    assert(b0 * 0x100_0000 + b1 * 0x1_0000 + b2 * 0x100 + b3 <= 0xffff_ffff);
    assert(n / 0x100_0000 == b0 && n / 0x1_0000 % 0x100 == b1 && n / 0x100 % 0x100 == b2 && n
        % 0x100 == b3) by (bit_vector)
        requires
            n == b0 * 0x100_0000 + b1 * 0x1_0000 + b2 * 0x100 + b3,
    ;
    assert(be_bytes(be_value(b) as u32) =~= b);
}

/// Appends the big-endian bytes of `n` to `out`.
pub fn put_u32(out: &mut Vec<u8>, n: u32)
    ensures
        final(out)@ == old(out)@ + be_bytes(n),
{
    out.push((n / 0x100_0000) as u8);
    out.push((n / 0x1_0000 % 0x100) as u8);
    out.push((n / 0x100 % 0x100) as u8);
    out.push((n % 0x100) as u8);
    assert(out@ =~= old(out)@ + be_bytes(n));
}

/// Reads the big-endian number held in `bytes[at..at + 4]`.
pub fn get_u32(bytes: &[u8], at: usize) -> (n: u32)
    requires
        at + 4 <= bytes@.len(),
    ensures
        n == be_value(bytes@.subrange(at as int, at + 4)),
{
    let b0: u32 = bytes[at] as u32;
    let b1: u32 = bytes[at + 1] as u32;
    let b2: u32 = bytes[at + 2] as u32;
    let b3: u32 = bytes[at + 3] as u32;
    b0 * 0x100_0000 + b1 * 0x1_0000 + b2 * 0x100 + b3
}

/// Whether two byte strings hold the same bytes.
pub fn same_bytes(a: &[u8], b: &[u8]) -> (same: bool)
    ensures
        same == (a@ == b@),
{
    if a.len() != b.len() {
        return false;
    }
    let mut i: usize = 0;
    while i < a.len()
        invariant
            a@.len() == b@.len(),
            i <= a@.len(),
            a@.subrange(0, i as int) == b@.subrange(0, i as int),
        decreases a@.len() - i,
    {
        if a[i] != b[i] {
            return false;
        }
        i += 1;
        assert(a@.subrange(0, i as int) =~= a@.subrange(0, i - 1).push(a@[i - 1]));
        assert(b@.subrange(0, i as int) =~= b@.subrange(0, i - 1).push(b@[i - 1]));
    }
    assert(a@ =~= a@.subrange(0, i as int));
    assert(b@ =~= b@.subrange(0, i as int));
    true
}

/// The bytes of the protocol string that opens every handshake.
pub open spec fn protocol_name() -> Seq<u8> {
    "BitTorrent protocol".spec_bytes()
}

/// The protocol string is the nineteen bytes of `BitTorrent protocol` in
/// ASCII.
pub proof fn lemma_protocol_name()
    ensures
        protocol_name().len() == 19,
        protocol_name() == seq![
            0x42u8,
            0x69,
            0x74,
            0x54,
            0x6f,
            0x72,
            0x72,
            0x65,
            0x6e,
            0x74,
            0x20,
            0x70,
            0x72,
            0x6f,
            0x74,
            0x6f,
            0x63,
            0x6f,
            0x6c,
        ],
{
    reveal_strlit("BitTorrent protocol");
    vstd::string::is_ascii_spec_bytes("BitTorrent protocol");
    assert(protocol_name() =~= seq![
        0x42u8,
        0x69,
        0x74,
        0x54,
        0x6f,
        0x72,
        0x72,
        0x65,
        0x6e,
        0x74,
        0x20,
        0x70,
        0x72,
        0x6f,
        0x74,
        0x6f,
        0x63,
        0x6f,
        0x6c,
    ]);
}

/// The eight reserved bytes of a handshake, all zero.
pub open spec fn reserved_bytes() -> Seq<u8> {
    Seq::new(8, |i: int| 0u8)
}

/// The handshake that announces `info_hash` and `peer_id`.
pub open spec fn handshake_bytes(info_hash: Seq<u8>, peer_id: Seq<u8>) -> Seq<u8> {
    seq![19u8] + protocol_name() + reserved_bytes() + info_hash + peer_id
}

/// Whether `bytes` is a handshake: 68 bytes whose fixed fields hold what the
/// protocol prescribes.
pub open spec fn is_handshake(bytes: Seq<u8>) -> bool {
    &&& bytes.len() == 68
    &&& bytes[0] == 19
    &&& bytes.subrange(1, 20) == protocol_name()
    &&& bytes.subrange(20, 28) == reserved_bytes()
}

/// The info hash a handshake carries.
pub open spec fn handshake_info_hash(bytes: Seq<u8>) -> Seq<u8> {
    bytes.subrange(28, 48)
}

/// The peer id a handshake carries.
pub open spec fn handshake_peer_id(bytes: Seq<u8>) -> Seq<u8> {
    bytes.subrange(48, 68)
}

/// Decoding a handshake and encoding what came out gives the same 68 bytes.
pub proof fn lemma_handshake_encode_decode(bytes: Seq<u8>)
    requires
        is_handshake(bytes),
    ensures
        handshake_bytes(handshake_info_hash(bytes), handshake_peer_id(bytes)) == bytes,
{
    lemma_protocol_name();
    let again = handshake_bytes(handshake_info_hash(bytes), handshake_peer_id(bytes));
    assert(again.len() == 68);
    assert forall|i: int| 0 <= i < 68 implies again[i] == bytes[i] by {
        if 1 <= i < 20 {
            assert(bytes.subrange(1, 20)[i - 1] == bytes[i]);
        } else if 20 <= i < 28 {
            assert(bytes.subrange(20, 28)[i - 20] == bytes[i]);
        }
    }
    assert(again =~= bytes);
}

/// Encoding a handshake and decoding it gives back the two fields.
pub proof fn lemma_handshake_decode_encode(info_hash: Seq<u8>, peer_id: Seq<u8>)
    requires
        info_hash.len() == 20,
        peer_id.len() == 20,
    ensures
        is_handshake(handshake_bytes(info_hash, peer_id)),
        handshake_info_hash(handshake_bytes(info_hash, peer_id)) == info_hash,
        handshake_peer_id(handshake_bytes(info_hash, peer_id)) == peer_id,
{
    lemma_protocol_name();
    let bytes = handshake_bytes(info_hash, peer_id);
    assert(bytes.subrange(1, 20) =~= protocol_name());
    assert(bytes.subrange(20, 28) =~= reserved_bytes());
    assert(bytes.subrange(28, 48) =~= info_hash);
    assert(bytes.subrange(48, 68) =~= peer_id);
}

/// What a peer announces in its handshake.
#[derive(Debug, Clone, PartialEq, Eq)]
pub struct HandshakeResponse {
    pub info_hash: Vec<u8>,
    pub peer_id: Vec<u8>,
}

/// Builds the handshake that announces `info_hash` and `peer_id`.
pub fn encode_handshake(info_hash: &[u8], peer_id: &[u8]) -> (out: Vec<u8>)
    requires
        info_hash@.len() == 20,
        peer_id@.len() == 20,
    ensures
        out@ == handshake_bytes(info_hash@, peer_id@),
        out@.len() == 68,
        is_handshake(out@),
{
    let mut out: Vec<u8> = Vec::new();
    out.push(19);
    out.extend_from_slice("BitTorrent protocol".as_bytes());
    let mut i: usize = 0;
    while i < 8
        invariant
            i <= 8,
            out@ == seq![19u8] + protocol_name() + Seq::new(i as nat, |k: int| 0u8),
        decreases 8 - i,
    {
        out.push(0);
        i += 1;
        assert(Seq::new(i as nat, |k: int| 0u8) =~= Seq::new((i - 1) as nat, |k: int| 0u8).push(
            0u8,
        ));
    }
    out.extend_from_slice(info_hash);
    out.extend_from_slice(peer_id);
    proof {
        lemma_handshake_decode_encode(info_hash@, peer_id@);
        lemma_protocol_name();
    }
    out
}

/// Reads a handshake.
///
/// Succeeds exactly on the byte strings that are handshakes, and then returns
/// the info hash and the peer id that the bytes carry.
pub fn decode_handshake(bytes: &[u8]) -> (r: Result<HandshakeResponse, PeerError>)
    ensures
        r is Ok <==> is_handshake(bytes@),
        r matches Ok(h) ==> h.info_hash@ == handshake_info_hash(bytes@) && h.peer_id@
            == handshake_peer_id(bytes@),
        r matches Err(e) ==> e == PeerError::MalformedHandshake,
{
    if bytes.len() != HANDSHAKE_LEN {
        return Err(PeerError::MalformedHandshake);
    }
    if bytes[0] != 19 {
        return Err(PeerError::MalformedHandshake);
    }
    if !same_bytes(vstd::slice::slice_subrange(bytes, 1, 20), "BitTorrent protocol".as_bytes()) {
        return Err(PeerError::MalformedHandshake);
    }
    let mut i: usize = 20;
    while i < 28
        invariant
            20 <= i <= 28,
            bytes@.len() == 68,
            forall|k: int| 20 <= k < i ==> bytes@[k] == 0,
        decreases 28 - i,
    {
        if bytes[i] != 0 {
            assert(bytes@.subrange(20, 28)[i - 20] != reserved_bytes()[i - 20]);
            return Err(PeerError::MalformedHandshake);
        }
        i += 1;
    }
    assert(bytes@.subrange(20, 28) =~= reserved_bytes());
    let info_hash = vstd::slice::slice_to_vec(vstd::slice::slice_subrange(bytes, 28, 48));
    let peer_id = vstd::slice::slice_to_vec(vstd::slice::slice_subrange(bytes, 48, 68));
    Ok(HandshakeResponse { info_hash, peer_id })
}

/// Whether `bytes` is the handshake of a peer that serves the torrent with
/// info hash `info_hash`.
pub open spec fn answers(bytes: Seq<u8>, info_hash: Seq<u8>) -> bool {
    is_handshake(bytes) && handshake_info_hash(bytes) == info_hash
}

/// Reads the handshake a peer answered with, and holds it to the info hash
/// that was asked for.
///
/// A response that is not a handshake fails, and so does a handshake that
/// carries another info hash, however well-formed the rest of it is.
pub fn check_handshake(response: &[u8], info_hash: &[u8]) -> (r: Result<
    HandshakeResponse,
    PeerError,
>)
    ensures
        r is Ok <==> answers(response@, info_hash@),
        r matches Ok(h) ==> h.info_hash@ == info_hash@ && h.peer_id@ == handshake_peer_id(
            response@,
        ),
        r matches Err(e) ==> e == PeerError::HandshakeFailed,
{
    match decode_handshake(response) {
        Ok(h) => {
            if same_bytes(h.info_hash.as_slice(), info_hash) {
                Ok(h)
            } else {
                Err(PeerError::HandshakeFailed)
            }
        },
        Err(_) => Err(PeerError::HandshakeFailed),
    }
}

} // verus!
