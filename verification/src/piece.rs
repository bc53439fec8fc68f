//! Fetching one piece: reassembling it from the replies of a peer, and the
//! hash gate that the reassembled piece has to pass.

use crate::chunks::{
    chunk_begin, chunk_count, chunk_length, lemma_chunk_inside, lemma_chunks_partition,
};
use crate::buffer::{
    apart, covers, lemma_placed_all_at, lemma_placed_all_len, non_overlapping, placed,
    placed_all, within, zeros, PieceBuffer,
};
use crate::error::PeerError;
use crate::hash::{sha1, sha1_digest};
use crate::torrent::TorrentInfo;
use crate::wire::{be_bytes, be_value, get_u32, lemma_be_value_of_bytes, same_bytes};
use vstd::prelude::*;

verus! {

/// The hash gate, given the digest of the data.
///
/// Returns the data when `actual` equals `expected`, and otherwise the
/// mismatch, with the piece's index and both digests.
pub fn check_digest(index: u32, data: Vec<u8>, expected: &[u8], actual: Vec<u8>) -> (r: Result<
    Vec<u8>,
    PeerError,
>)
    ensures
        r is Ok <==> actual@ == expected@,
        r matches Ok(bytes) ==> bytes == data,
        r matches Err(e) ==> (e matches PeerError::PieceHashMismatch {
            index: at,
            expected: wanted,
            actual: got,
        } && at == index && wanted@ == expected@ && got == actual),
{
    if same_bytes(actual.as_slice(), expected) {
        Ok(data)
    } else {
        Err(
            PeerError::PieceHashMismatch {
                index,
                expected: vstd::slice::slice_to_vec(expected),
                actual,
            },
        )
    }
}

/// The hash gate: hands the data on only when it hashes to `expected`.
///
/// Data whose SHA-1 digest differs from `expected` in any bit is never
/// returned: the result is then the mismatch, with both digests.
pub fn verify_piece(index: u32, data: Vec<u8>, expected: &[u8]) -> (r: Result<Vec<u8>, PeerError>)
    ensures
        r is Ok <==> sha1(data@) == expected@,
        r matches Ok(bytes) ==> bytes == data,
        r matches Err(e) ==> (e matches PeerError::PieceHashMismatch {
            index: at,
            expected: wanted,
            actual: got,
        } && at == index && wanted@ == expected@ && got@ == sha1(data@)),
{
    let actual = sha1_digest(data.as_slice());
    check_digest(index, data, expected, actual)
}

/// The piece index that the payload of a `Piece` message names.
pub open spec fn response_index(payload: Seq<u8>) -> int {
    be_value(payload.subrange(0, 4))
}

/// The offset that the payload of a `Piece` message names.
pub open spec fn response_begin(payload: Seq<u8>) -> int {
    be_value(payload.subrange(4, 8))
}

/// The block that the payload of a `Piece` message carries.
pub open spec fn response_block(payload: Seq<u8>) -> Seq<u8> {
    payload.subrange(8, payload.len() as int)
}

/// Whether a payload can be taken as a reply while piece `piece_index`, of
/// `len` bytes, is fetched: it holds an index and an offset, and where the
/// index is that of the piece, its block lies inside the piece.
pub open spec fn response_usable(len: int, piece_index: u32, payload: Seq<u8>) -> bool {
    payload.len() >= 8 && (response_index(payload) == piece_index ==> response_begin(payload)
        + response_block(payload).len() <= len)
}

/// The buffer after one reply: its block is placed at its offset where it
/// names the piece, and the buffer stays as it is where it names another.
pub open spec fn placed_response(buf: Seq<u8>, piece_index: u32, payload: Seq<u8>) -> Seq<u8> {
    if response_index(payload) == piece_index {
        placed(buf, response_begin(payload), response_block(payload))
    } else {
        buf
    }
}

/// The buffer after every reply of `responses`, taken in turn.
pub open spec fn assembled(buf: Seq<u8>, piece_index: u32, responses: Seq<Seq<u8>>) -> Seq<u8>
    decreases responses.len(),
{
    if responses.len() == 0 {
        buf
    } else {
        placed_response(
            assembled(buf, piece_index, responses.drop_last()),
            piece_index,
            responses.last(),
        )
    }
}

/// Whether every reply can be taken while piece `piece_index`, of `len`
/// bytes, is fetched.
pub open spec fn all_usable(len: int, piece_index: u32, responses: Seq<Seq<u8>>) -> bool {
    forall|i: int|
        0 <= i < responses.len() ==> response_usable(len, piece_index, #[trigger] responses[i])
}

/// Reassembles a piece of `len` bytes from the payloads of the `Piece`
/// messages that a peer sent.
///
/// Every block is written at the offset that its payload names, wherever in
/// the sequence it arrived. A payload that names another piece is passed
/// over, and its block stays unfilled. A payload too short to hold an index
/// and an offset, or whose block runs past the end of the piece, fails the
/// whole piece.
pub fn assemble(len: usize, piece_index: u32, responses: &Vec<Vec<u8>>) -> (r: Result<
    Vec<u8>,
    PeerError,
>)
    ensures
        r is Ok <==> all_usable(len as int, piece_index, responses.deep_view()),
        r matches Ok(bytes) ==> bytes@ == assembled(
            zeros(len as int),
            piece_index,
            responses.deep_view(),
        ),
        r matches Err(e) ==> e == PeerError::MalformedMessage,
{
    let ghost all = responses.deep_view();
    let mut buffer = PieceBuffer::new(len);
    let mut i: usize = 0;
    while i < responses.len()
        invariant
            i <= responses@.len(),
            all == responses.deep_view(),
            buffer@.len() == len,
            forall|k: int| 0 <= k < i ==> response_usable(len as int, piece_index, #[trigger] all[k]),
            buffer@ == assembled(zeros(len as int), piece_index, all.subrange(0, i as int)),
        decreases responses@.len() - i,
    {
        let payload = responses[i].as_slice();
        assert(all[i as int] == payload@);
        if payload.len() < 8 {
            return Err(PeerError::MalformedMessage);
        }
        let index = get_u32(payload, 0);
        let begin = get_u32(payload, 4);
        proof {
            let next = all.subrange(0, i + 1);
            assert(next.drop_last() =~= all.subrange(0, i as int));
            assert(next.last() == payload@);
        }
        if index == piece_index {
            let block = vstd::slice::slice_subrange(payload, 8, payload.len());
            if !buffer.place(begin as usize, block) {
                return Err(PeerError::MalformedMessage);
            }
        }
        i += 1;
    }
    assert(all.subrange(0, i as int) =~= all);
    Ok(buffer.into_bytes())
}

/// The bytes of piece `piece_index` as the replies leave them, before they
/// are held to the piece's digest.
pub open spec fn fetched(info: TorrentInfo, piece_index: u32, responses: Seq<Seq<u8>>) -> Seq<u8> {
    assembled(zeros(info.piece_len(piece_index as int)), piece_index, responses)
}

/// Reassembles piece `piece_index` from the payloads of the `Piece` messages
/// that answered its block requests, and holds it to its digest.
///
/// Returns the bytes of the piece exactly when every payload is usable and
/// the reassembled bytes hash to the digest that the torrent records for the
/// piece. A truncated or corrupted piece is never returned.
pub fn fetch_piece(info: &TorrentInfo, piece_index: u32, responses: &Vec<Vec<u8>>) -> (r: Result<
    Vec<u8>,
    PeerError,
>)
    requires
        info.wf(),
        piece_index < info.count(),
    ensures
        r is Ok <==> all_usable(
            info.piece_len(piece_index as int),
            piece_index,
            responses.deep_view(),
        ) && sha1(fetched(*info, piece_index, responses.deep_view())) == info.piece_hash(
            piece_index as int,
        ),
        r matches Ok(bytes) ==> bytes@ == fetched(*info, piece_index, responses.deep_view()),
        r matches Err(e) ==> (if all_usable(
            info.piece_len(piece_index as int),
            piece_index,
            responses.deep_view(),
        ) {
            e matches PeerError::PieceHashMismatch { index, expected, actual } && index
                == piece_index && expected@ == info.piece_hash(piece_index as int) && actual@
                == sha1(fetched(*info, piece_index, responses.deep_view()))
        } else {
            e == PeerError::MalformedMessage
        }),
{
    let len = info.piece_length_at(piece_index as usize);
    match assemble(len, piece_index, responses) {
        Ok(data) => verify_piece(piece_index, data, info.piece_hash_at(piece_index as usize)),
        Err(e) => Err(e),
    }
}

/// The blocks that replies carry, each with the offset it names.
pub open spec fn reply_blocks(responses: Seq<Seq<u8>>) -> Seq<(int, Seq<u8>)> {
    Seq::new(
        responses.len(),
        |i: int| (response_begin(responses[i]), response_block(responses[i])),
    )
}

/// Where every reply names the piece, reassembly is the placing of the
/// blocks that the replies carry.
pub proof fn lemma_assembled_is_placed(buf: Seq<u8>, piece_index: u32, responses: Seq<Seq<u8>>)
    requires
        forall|i: int|
            0 <= i < responses.len() ==> response_index(#[trigger] responses[i]) == piece_index,
    ensures
        assembled(buf, piece_index, responses) == placed_all(buf, reply_blocks(responses)),
    decreases responses.len(),
{
    if responses.len() > 0 {
        let rest = responses.drop_last();
        assert forall|i: int| 0 <= i < rest.len() implies response_index(#[trigger] rest[i])
            == piece_index by {
            assert(rest[i] == responses[i]);
        }
        lemma_assembled_is_placed(buf, piece_index, rest);
        assert(reply_blocks(responses).drop_last() =~= reply_blocks(rest));
        assert(response_index(responses[responses.len() - 1]) == piece_index);
    }
}

/// The payload of the `Piece` message that answers the request for block
/// `i` of a piece whose bytes are `data`.
pub open spec fn block_reply(piece_index: u32, data: Seq<u8>, block_size: int, i: int) -> Seq<u8> {
    be_bytes(piece_index) + be_bytes(chunk_begin(i, block_size) as u32)
        + data.subrange(
        chunk_begin(i, block_size),
        chunk_begin(i, block_size) + chunk_length(data.len() as int, block_size, i),
    )
}

/// The blocks of a piece whose bytes are `data`, each with its offset.
pub open spec fn data_blocks(data: Seq<u8>, block_size: int) -> Seq<(int, Seq<u8>)> {
    Seq::new(
        chunk_count(data.len() as int, block_size) as nat,
        |k: int|
            (
                chunk_begin(k, block_size),
                data.subrange(
                    chunk_begin(k, block_size),
                    chunk_begin(k, block_size) + chunk_length(data.len() as int, block_size, k),
                ),
            ),
    )
}

/// The blocks of a piece write no byte in common and lie inside the piece.
proof fn lemma_data_blocks(data: Seq<u8>, block_size: int)
    requires
        block_size > 0,
    ensures
        non_overlapping(data_blocks(data, block_size)),
        within(data.len() as int, data_blocks(data, block_size)),
{
    let len = data.len() as int;
    let family = data_blocks(data, block_size);
    lemma_chunks_partition(len, block_size);
    assert forall|k: int| 0 <= k < family.len() implies 0 <= (#[trigger] family[k]).0
        && family[k].0 + family[k].1.len() <= len by {
        lemma_chunk_inside(len, block_size, k);
    }
    assert forall|i: int, j: int|
        0 <= i < family.len() && 0 <= j < family.len() && i != j implies apart(
        #[trigger] family[i],
        #[trigger] family[j],
    ) by {
        lemma_chunk_inside(len, block_size, i);
        lemma_chunk_inside(len, block_size, j);
        if i < j {
            assert(chunk_begin(i, block_size) + chunk_length(len, block_size, i) <= chunk_begin(
                j,
                block_size,
            ));
        } else {
            assert(chunk_begin(j, block_size) + chunk_length(len, block_size, j) <= chunk_begin(
                i,
                block_size,
            ));
        }
    }
}

/// The reply to the request for block `k` names the piece and carries
/// block `k` at its offset.
proof fn lemma_block_reply(piece_index: u32, data: Seq<u8>, block_size: int, k: int)
    requires
        block_size > 0,
        data.len() <= u32::MAX,
        0 <= k < chunk_count(data.len() as int, block_size),
    ensures
        block_reply(piece_index, data, block_size, k).len() >= 8,
        response_index(block_reply(piece_index, data, block_size, k)) == piece_index,
        (
            response_begin(block_reply(piece_index, data, block_size, k)),
            response_block(block_reply(piece_index, data, block_size, k)),
        ) == data_blocks(data, block_size)[k],
        response_usable(
            data.len() as int,
            piece_index,
            block_reply(piece_index, data, block_size, k),
        ),
{
    let len = data.len() as int;
    let reply = block_reply(piece_index, data, block_size, k);
    let begin = chunk_begin(k, block_size);
    let block = data_blocks(data, block_size)[k].1;
    lemma_chunk_inside(len, block_size, k);
    lemma_be_value_of_bytes(piece_index);
    lemma_be_value_of_bytes(begin as u32);
    assert(reply.subrange(0, 4) =~= be_bytes(piece_index));
    assert(reply.subrange(4, 8) =~= be_bytes(begin as u32));
    assert(reply.subrange(8, reply.len() as int) =~= block);
}

/// The byte at offset `j` of a piece whose every block was answered.
proof fn lemma_fetched_byte(
    piece_index: u32,
    data: Seq<u8>,
    block_size: int,
    responses: Seq<Seq<u8>>,
    j: int,
)
    requires
        block_size > 0,
        data.len() <= u32::MAX,
        0 <= j < data.len(),
        non_overlapping(data_blocks(data, block_size)),
        within(data.len() as int, data_blocks(data, block_size)),
        forall|i: int|
            0 <= i < responses.len() ==> data_blocks(data, block_size).contains(
                #[trigger] reply_blocks(responses)[i],
            ),
        forall|k: int|
            0 <= k < chunk_count(data.len() as int, block_size) ==> responses.contains(
                #[trigger] block_reply(piece_index, data, block_size, k),
            ),
    ensures
        placed_all(zeros(data.len() as int), reply_blocks(responses))[j] == data[j],
{
    let len = data.len() as int;
    let buf = zeros(len);
    let family = data_blocks(data, block_size);
    let drawn = reply_blocks(responses);
    lemma_chunks_partition(len, block_size);
    let k = j / block_size;
    assert(0 <= k < chunk_count(len, block_size));
    lemma_chunk_inside(len, block_size, k);
    assert(covers(family[k], j));
    lemma_block_reply(piece_index, data, block_size, k);
    assert(responses.contains(block_reply(piece_index, data, block_size, k)));
    let i = choose|i: int|
        0 <= i < responses.len() && responses[i] == block_reply(piece_index, data, block_size, k);
    assert(drawn[i] == family[k]);
    assert(covers(drawn[i], j));
    lemma_placed_all_at(buf, family, drawn, j);
    let chosen = choose|c: int| 0 <= c < family.len() && covers(#[trigger] family[c], j);
    if chosen != k {
        assert(apart(family[chosen], family[k]));
    }
    assert(family[k].1[j - family[k].0] == data[j]);
}

/// A peer that answers every block request of a piece with the bytes asked
/// for makes the reassembled piece equal to the piece: whatever the order in
/// which the replies arrive, and even where a reply arrives twice.
pub proof fn lemma_fetch_complete(
    piece_index: u32,
    data: Seq<u8>,
    block_size: int,
    responses: Seq<Seq<u8>>,
)
    requires
        block_size > 0,
        data.len() <= u32::MAX,
        forall|i: int|
            0 <= i < responses.len() ==> exists|k: int|
                0 <= k < chunk_count(data.len() as int, block_size) && #[trigger] responses[i]
                    == block_reply(piece_index, data, block_size, k),
        forall|k: int|
            0 <= k < chunk_count(data.len() as int, block_size) ==> responses.contains(
                #[trigger] block_reply(piece_index, data, block_size, k),
            ),
    ensures
        all_usable(data.len() as int, piece_index, responses),
        assembled(zeros(data.len() as int), piece_index, responses) == data,
{
    let len = data.len() as int;
    let count = chunk_count(len, block_size);
    let buf = zeros(len);
    let family = data_blocks(data, block_size);
    let drawn = reply_blocks(responses);
    lemma_data_blocks(data, block_size);
    assert forall|i: int| 0 <= i < responses.len() implies response_usable(
        len,
        piece_index,
        #[trigger] responses[i],
    ) && response_index(responses[i]) == piece_index by {
        let k = choose|k: int|
            0 <= k < count && responses[i] == block_reply(piece_index, data, block_size, k);
        lemma_block_reply(piece_index, data, block_size, k);
    }
    assert forall|i: int| 0 <= i < drawn.len() implies family.contains(#[trigger] drawn[i]) by {
        let k = choose|k: int|
            0 <= k < count && responses[i] == block_reply(piece_index, data, block_size, k);
        lemma_block_reply(piece_index, data, block_size, k);
        assert(drawn[i] == family[k]);
    }
    lemma_assembled_is_placed(buf, piece_index, responses);
    lemma_placed_all_len(buf, drawn);
    assert forall|j: int| 0 <= j < len implies placed_all(buf, drawn)[j] == data[j] by {
        lemma_fetched_byte(piece_index, data, block_size, responses, j);
    }
    assert(placed_all(buf, drawn) =~= data);
}

} // verus!
