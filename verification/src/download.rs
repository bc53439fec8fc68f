//! Downloading a whole torrent: which peer to ask for a piece, and where the
//! piece goes in the output.

use crate::error::PeerError;
use crate::buffer::placed;
use crate::chunks::{chunk_begin, lemma_chunk_inside, lemma_chunks_partition};
use crate::torrent::TorrentInfo;
use vstd::prelude::*;

verus! {

/// Picks the peer to fetch piece `piece_index` from: the peers take turns,
/// in the order in which the tracker listed them, and a single peer serves
/// every piece. Without a peer there is nothing to connect to.
pub fn select_peer(peers: &Vec<String>, piece_index: usize) -> (r: Result<&String, PeerError>)
    ensures
        r is Ok <==> peers@.len() > 0,
        r matches Ok(peer) ==> *peer == peers@[piece_index as int % peers@.len() as int],
        r matches Err(e) ==> e == PeerError::NoPeersAvailable,
{
    if peers.len() == 0 {
        Err(PeerError::NoPeersAvailable)
    } else {
        Ok(&peers[piece_index % peers.len()])
    }
}

/// The offset in the content at which piece `piece_index` begins.
pub open spec fn piece_offset(info: TorrentInfo, piece_index: int) -> int {
    chunk_begin(piece_index, info.piece_length as int)
}

/// The pieces lie end to end in the content: each begins where the one
/// before it ends, and the last ends where the content ends. So a piece of
/// the length it should have always fits the output at its offset.
pub proof fn lemma_pieces_fill_content(info: TorrentInfo, piece_index: int)
    requires
        info.piece_length > 0,
        0 <= piece_index < info.count(),
    ensures
        0 <= piece_offset(info, piece_index),
        0 < info.piece_len(piece_index) <= info.piece_length,
        piece_offset(info, piece_index) + info.piece_len(piece_index) == (if piece_index
            == info.count() - 1 {
            info.length as int
        } else {
            piece_offset(info, piece_index + 1)
        }),
        piece_offset(info, piece_index) + info.piece_len(piece_index) <= info.length,
{
    lemma_chunks_partition(info.length as int, info.piece_length as int);
    lemma_chunk_inside(info.length as int, info.piece_length as int, piece_index);
}

/// Writes a verified piece into the output at the offset of the piece, and
/// says whether it did: a piece that does not lie inside the output is not
/// written, not even in part.
pub fn store_piece(output: &mut Vec<u8>, info: &TorrentInfo, piece_index: usize, data: &[u8]) -> (
    fits: bool
)
    ensures
        fits == (piece_offset(*info, piece_index as int) + data@.len() <= old(output)@.len()),
        final(output)@ == placed(old(output)@, piece_offset(*info, piece_index as int), data@),
{
    let ghost before = output@;
    let ghost offset = piece_offset(*info, piece_index as int);
    assert(offset >= 0) by (nonlinear_arith)
        requires
            offset == piece_index * info.piece_length,
    ;
    let total = output.len();
    let begin = match piece_index.checked_mul(info.piece_length) {
        Some(begin) => begin,
        None => {
            assert(offset > usize::MAX);
            return false;
        },
    };
    if data.len() > total || begin > total - data.len() {
        return false;
    }
    let mut i: usize = 0;
    while i < data.len()
        invariant
            i <= data@.len(),
            begin == offset,
            begin + data@.len() <= before.len() <= usize::MAX,
            output@.len() == before.len(),
            output@ == placed(before, offset, data@.subrange(0, i as int)),
        decreases data@.len() - i,
    {
        output.set(begin + i, data[i]);
        i += 1;
        assert(output@ =~= placed(before, offset, data@.subrange(0, i as int)));
    }
    assert(data@.subrange(0, i as int) =~= data@);
    true
}

} // verus!
