//! The blocks of a piece: the units in which a piece is asked for.

use crate::chunks::{
    chunk_begin, chunk_count, chunk_length, lemma_chunk_inside, lemma_chunks_partition,
    lemma_whole_chunks,
};
use vstd::prelude::*;

verus! {

/// The size of a block: 16 KiB.
pub const BLOCK_SIZE: u32 = 16384;

/// One block to ask a peer for.
#[derive(Debug, Clone, Copy, PartialEq, Eq, Structural)]
pub struct BlockRequest {
    pub piece_index: u32,
    pub begin_offset: u32,
    pub length: u32,
}

/// Lists the blocks of a piece of `len` bytes, in ascending order of offset.
pub fn block_requests(piece_index: u32, len: u32, block_size: u32) -> (blocks: Vec<BlockRequest>)
    requires
        block_size > 0,
    ensures
        blocks@.len() == chunk_count(len as int, block_size as int),
        forall|i: int|
            0 <= i < blocks@.len() ==> {
                &&& (#[trigger] blocks@[i]).piece_index == piece_index
                &&& blocks@[i].begin_offset == chunk_begin(i, block_size as int)
                &&& blocks@[i].length == chunk_length(len as int, block_size as int, i)
                &&& blocks@[i].begin_offset + blocks@[i].length <= len
            },
{
    proof {
        lemma_whole_chunks(len as int, block_size as int);
        lemma_chunks_partition(len as int, block_size as int);
    }
    let count: u32 = len / block_size + if len % block_size != 0 {
        1u32
    } else {
        0u32
    };
    let mut blocks: Vec<BlockRequest> = Vec::new();
    let mut i: u32 = 0;
    let mut begin: u32 = 0;
    while i < count
        invariant
            block_size > 0,
            count == chunk_count(len as int, block_size as int),
            i <= count,
            begin == if i < count {
                chunk_begin(i as int, block_size as int)
            } else {
                len as int
            },
            blocks@.len() == i,
            forall|k: int|
                0 <= k < i ==> {
                    &&& (#[trigger] blocks@[k]).piece_index == piece_index
                    &&& blocks@[k].begin_offset == chunk_begin(k, block_size as int)
                    &&& blocks@[k].length == chunk_length(len as int, block_size as int, k)
                    &&& blocks@[k].begin_offset + blocks@[k].length <= len
                },
        decreases count - i,
    {
        proof {
            lemma_chunks_partition(len as int, block_size as int);
            lemma_chunk_inside(len as int, block_size as int, i as int);
        }
        let length: u32 = if i == count - 1 {
            len - begin
        } else {
            block_size
        };
        blocks.push(BlockRequest { piece_index, begin_offset: begin, length });
        begin = begin + length;
        i += 1;
    }
    blocks
}

} // verus!
