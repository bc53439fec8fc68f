//! The description of a torrent: what the metadata file says of the content,
//! and the hashes derived from it.

use crate::bencode::{bencode_bytes, bencode_int, bencoded_bytes, bencoded_int};
use crate::chunks::{chunk_count, chunk_length, lemma_chunk_inside, lemma_whole_chunks};
use crate::hash::{sha1, sha1_digest};
use crate::text::{hex, percent_hex, to_hex, to_percent_hex};
use crate::wire::HASH_LEN;
use vstd::prelude::*;
use vstd::string::StringSliceAdditionalSpecFns;

verus! {

/// The `info` dictionary of a torrent.
#[derive(Debug, Clone, PartialEq, Eq)]
pub struct TorrentInfo {
    pub name: String,
    pub piece_length: usize,
    pub length: usize,
    /// The SHA-1 digests of the pieces, twenty bytes each, one after another.
    pub pieces: Vec<u8>,
}

/// A torrent: the tracker to announce to, and the content.
#[derive(Debug, Clone, PartialEq, Eq)]
pub struct Torrent {
    pub announce: String,
    pub info: TorrentInfo,
}

/// The bencoded `info` dictionary: its four keys in sorted order, each
/// followed by its value.
pub open spec fn info_bytes(name: Seq<char>, piece_length: nat, length: nat, pieces: Seq<u8>) -> Seq<
    u8,
> {
    seq![100u8] + bencoded_bytes("length".spec_bytes()) + bencoded_int(length) + bencoded_bytes(
        "name".spec_bytes(),
    ) + bencoded_bytes(vstd::utf8::encode_utf8(name)) + bencoded_bytes(
        "piece length".spec_bytes(),
    ) + bencoded_int(piece_length) + bencoded_bytes("pieces".spec_bytes()) + bencoded_bytes(pieces)
        + seq![101u8]
}

impl TorrentInfo {
    /// The bencoded `info` dictionary of this torrent.
    pub open spec fn encoding(&self) -> Seq<u8> {
        info_bytes(self.name@, self.piece_length as nat, self.length as nat, self.pieces@)
    }

    /// The info hash: the SHA-1 digest of the bencoded `info` dictionary.
    pub open spec fn info_hash(&self) -> Seq<u8> {
        sha1(self.encoding())
    }

    /// The number of pieces the content falls into.
    pub open spec fn count(&self) -> int {
        chunk_count(self.length as int, self.piece_length as int)
    }

    /// Whether the description is consistent and fits the wire: pieces are
    /// not empty, an offset inside a piece fits the four bytes it travels
    /// in, and there is one digest for each piece.
    pub open spec fn wf(&self) -> bool {
        &&& 0 < self.piece_length <= u32::MAX
        &&& self.pieces@.len() == 20 * self.count()
    }

    /// The length of piece `index`: `piece_length`, but for the last piece,
    /// which holds what is left of the content.
    pub open spec fn piece_len(&self, index: int) -> int {
        chunk_length(self.length as int, self.piece_length as int, index)
    }

    /// The digest that piece `index` has to hash to.
    pub open spec fn piece_hash(&self, index: int) -> Seq<u8> {
        self.pieces@.subrange(20 * index, 20 * index + 20)
    }

    /// Bencodes the `info` dictionary.
    pub fn bytes(&self) -> (out: Vec<u8>)
        ensures
            out@ == self.encoding(),
    {
        let mut out: Vec<u8> = Vec::new();
        out.push(100u8);
        let mut part = bencode_bytes("length".as_bytes());
        out.append(&mut part);
        let mut part = bencode_int(self.length as u64);
        out.append(&mut part);
        let mut part = bencode_bytes("name".as_bytes());
        out.append(&mut part);
        let mut part = bencode_bytes(self.name.as_str().as_bytes());
        out.append(&mut part);
        let mut part = bencode_bytes("piece length".as_bytes());
        out.append(&mut part);
        let mut part = bencode_int(self.piece_length as u64);
        out.append(&mut part);
        let mut part = bencode_bytes("pieces".as_bytes());
        out.append(&mut part);
        let mut part = bencode_bytes(self.pieces.as_slice());
        out.append(&mut part);
        out.push(101u8);
        assert(out@ =~= self.encoding());
        out
    }

    /// Computes the info hash.
    pub fn hash(&self) -> (digest: Vec<u8>)
        ensures
            digest@ == self.info_hash(),
            digest@.len() == 20,
    {
        let encoded = self.bytes();
        sha1_digest(encoded.as_slice())
    }

    /// The info hash in lower-case hexadecimal.
    pub fn hex_hash(&self) -> (text: String)
        ensures
            text@ == hex(self.info_hash()),
    {
        let digest = self.hash();
        to_hex(digest.as_slice())
    }

    /// The info hash percent-encoded, as a tracker's query string takes it.
    pub fn url_encoded_hash(&self) -> (text: String)
        ensures
            text@ == percent_hex(self.info_hash()),
    {
        let digest = self.hash();
        to_percent_hex(digest.as_slice())
    }

    /// The digests of the pieces in lower-case hexadecimal, one string for
    /// each twenty bytes; bytes left over at the end make a shorter string.
    pub fn pieces(&self) -> (list: Vec<String>)
        ensures
            list@.len() == chunk_count(self.pieces@.len() as int, 20),
            forall|i: int|
                0 <= i < list@.len() ==> (#[trigger] list@[i])@ == hex(
                    self.pieces@.subrange(
                        20 * i,
                        if 20 * i + 20 <= self.pieces@.len() {
                            20 * i + 20
                        } else {
                            self.pieces@.len() as int
                        },
                    ),
                ),
    {
        let mut list: Vec<String> = Vec::new();
        let total = self.pieces.len();
        let mut start: usize = 0;
        while start < total
            invariant
                total == self.pieces@.len(),
                start <= total,
                start % 20 == 0 || start == total,
                list@.len() == chunk_count(start as int, 20),
                forall|i: int|
                    0 <= i < list@.len() ==> (#[trigger] list@[i])@ == hex(
                        self.pieces@.subrange(
                            20 * i,
                            if 20 * i + 20 <= self.pieces@.len() {
                                20 * i + 20
                            } else {
                                self.pieces@.len() as int
                            },
                        ),
                    ),
            decreases total - start,
        {
            let end = if total - start >= HASH_LEN {
                start + HASH_LEN
            } else {
                total
            };
            let chunk = vstd::slice::slice_subrange(self.pieces.as_slice(), start, end);
            list.push(to_hex(chunk));
            start = end;
        }
        list
    }

    /// Counts the pieces.
    pub fn piece_count(&self) -> (count: usize)
        requires
            self.piece_length > 0,
        ensures
            count == self.count(),
    {
        proof {
            lemma_whole_chunks(self.length as int, self.piece_length as int);
        }
        if self.length % self.piece_length != 0 {
            self.length / self.piece_length + 1
        } else {
            self.length / self.piece_length
        }
    }

    /// Checks that the description is consistent and fits the wire.
    pub fn is_valid(&self) -> (valid: bool)
        ensures
            valid == self.wf(),
    {
        if self.piece_length == 0 || self.piece_length > u32::MAX as usize {
            return false;
        }
        let count = self.piece_count();
        self.pieces.len() % HASH_LEN == 0 && self.pieces.len() / HASH_LEN == count
    }

    /// The length of piece `index`.
    pub fn piece_length_at(&self, index: usize) -> (len: usize)
        requires
            self.wf(),
            index < self.count(),
        ensures
            len == self.piece_len(index as int),
            0 < len <= self.piece_length,
    {
        proof {
            lemma_chunk_inside(self.length as int, self.piece_length as int, index as int);
        }
        let count = self.piece_count();
        if index == count - 1 {
            self.length - index * self.piece_length
        } else {
            self.piece_length
        }
    }

    /// The digest that piece `index` has to hash to.
    pub fn piece_hash_at(&self, index: usize) -> (digest: &[u8])
        requires
            self.wf(),
            index < self.count(),
        ensures
            digest@ == self.piece_hash(index as int),
            digest@.len() == 20,
    {
        let total = self.pieces.len();
        assert(20 * index + 20 <= 20 * self.count());
        assert(20 * self.count() == total);
        vstd::slice::slice_subrange(self.pieces.as_slice(), 20 * index, 20 * index + 20)
    }
}

} // verus!
