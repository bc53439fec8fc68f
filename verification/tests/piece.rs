use bittorrent_peer::error::PeerError;
use bittorrent_peer::blocks::{block_requests, BlockRequest, BLOCK_SIZE};
use bittorrent_peer::buffer::PieceBuffer;
use bittorrent_peer::piece::{assemble, check_digest, fetch_piece, verify_piece};
use bittorrent_peer::torrent::TorrentInfo;

fn first_piece() -> Vec<u8> {
    (0..32768u32).map(|i| ((i * 7 + 3) % 256) as u8).collect()
}

fn second_piece() -> Vec<u8> {
    (0..7232u32).map(|i| ((i * 13 + 1) % 256) as u8).collect()
}

const FIRST_DIGEST: [u8; 20] = [
    232, 15, 6, 116, 131, 218, 50, 206, 137, 142, 72, 191, 145, 216, 155, 189, 108, 206, 104, 209,
];

const SECOND_DIGEST: [u8; 20] = [
    230, 69, 152, 180, 186, 8, 19, 168, 103, 194, 177, 97, 91, 58, 111, 60, 206, 150, 135, 113,
];

fn reply(index: u32, begin: u32, block: &[u8]) -> Vec<u8> {
    let mut payload = Vec::new();
    payload.extend_from_slice(&index.to_be_bytes());
    payload.extend_from_slice(&begin.to_be_bytes());
    payload.extend_from_slice(block);
    payload
}

fn one_piece_torrent() -> TorrentInfo {
    TorrentInfo {
        name: "one".to_string(),
        piece_length: 32768,
        length: 32768,
        pieces: FIRST_DIGEST.to_vec(),
    }
}

fn two_piece_torrent() -> TorrentInfo {
    let mut pieces = FIRST_DIGEST.to_vec();
    pieces.extend_from_slice(&SECOND_DIGEST);
    TorrentInfo { name: "two".to_string(), piece_length: 32768, length: 40000, pieces }
}

#[test]
fn block_size_is_16_kib() {
    assert_eq!(BLOCK_SIZE, 16 * 1024);
}

#[test]
fn two_full_blocks() {
    assert_eq!(
        block_requests(0, 32768, BLOCK_SIZE),
        vec![
            BlockRequest { piece_index: 0, begin_offset: 0, length: 16384 },
            BlockRequest { piece_index: 0, begin_offset: 16384, length: 16384 },
        ]
    );
}

#[test]
fn short_piece_is_a_single_short_block() {
    assert_eq!(
        block_requests(1, 7232, BLOCK_SIZE),
        vec![BlockRequest { piece_index: 1, begin_offset: 0, length: 7232 }]
    );
}

#[test]
fn last_block_holds_the_remainder() {
    let blocks = block_requests(4, 40000, BLOCK_SIZE);
    assert_eq!(
        blocks,
        vec![
            BlockRequest { piece_index: 4, begin_offset: 0, length: 16384 },
            BlockRequest { piece_index: 4, begin_offset: 16384, length: 16384 },
            BlockRequest { piece_index: 4, begin_offset: 32768, length: 7232 },
        ]
    );
}

#[test]
fn empty_piece_has_no_block() {
    assert_eq!(block_requests(0, 0, BLOCK_SIZE), vec![]);
}

#[test]
fn one_byte_and_one_byte_more_than_a_block() {
    assert_eq!(
        block_requests(0, 1, BLOCK_SIZE),
        vec![BlockRequest { piece_index: 0, begin_offset: 0, length: 1 }]
    );
    assert_eq!(
        block_requests(0, 16385, BLOCK_SIZE),
        vec![
            BlockRequest { piece_index: 0, begin_offset: 0, length: 16384 },
            BlockRequest { piece_index: 0, begin_offset: 16384, length: 1 },
        ]
    );
}

#[test]
fn blocks_lie_end_to_end_for_many_lengths() {
    for block_size in [1u32, 2, 3, 7, 16384] {
        for len in 0..200u32 {
            let blocks = block_requests(9, len, block_size);
            let mut next = 0u32;
            for (i, block) in blocks.iter().enumerate() {
                assert_eq!(block.piece_index, 9);
                assert_eq!(block.begin_offset, next);
                assert!(block.length > 0);
                if i + 1 < blocks.len() {
                    assert_eq!(block.length, block_size);
                } else if len % block_size != 0 {
                    assert_eq!(block.length, len - (len / block_size) * block_size);
                } else {
                    assert_eq!(block.length, block_size);
                }
                next += block.length;
            }
            assert_eq!(next, len);
        }
    }
}

#[test]
fn the_largest_piece_does_not_overflow() {
    let blocks = block_requests(0, u32::MAX, 1 << 30);
    assert_eq!(blocks.len(), 4);
    assert_eq!(blocks[3].begin_offset, 3 << 30);
    assert_eq!(blocks[3].length, (1 << 30) - 1);
}

#[test]
fn buffer_starts_zeroed() {
    let buffer = PieceBuffer::new(5);
    assert_eq!(buffer.len(), 5);
    assert_eq!(buffer.into_bytes(), vec![0, 0, 0, 0, 0]);
}

#[test]
fn block_is_written_at_its_offset() {
    let mut buffer = PieceBuffer::new(6);
    assert!(buffer.place(2, &[7, 8, 9]));
    assert_eq!(buffer.into_bytes(), vec![0, 0, 7, 8, 9, 0]);
}

#[test]
fn block_that_does_not_fit_is_not_written() {
    let mut buffer = PieceBuffer::new(4);
    assert!(!buffer.place(2, &[1, 2, 3]));
    assert!(!buffer.place(5, &[]));
    assert!(!buffer.place(usize::MAX, &[1, 2]));
    assert!(buffer.place(4, &[]));
    assert_eq!(buffer.into_bytes(), vec![0, 0, 0, 0]);
}

#[test]
fn placing_in_any_order_gives_the_same_buffer() {
    let blocks: [(usize, &[u8]); 3] = [(0, &[1, 2]), (2, &[3, 4, 5]), (5, &[6])];
    let orders = [[0, 1, 2], [0, 2, 1], [1, 0, 2], [1, 2, 0], [2, 0, 1], [2, 1, 0]];
    for order in orders {
        let mut buffer = PieceBuffer::new(6);
        for at in order {
            assert!(buffer.place(blocks[at].0, blocks[at].1));
        }
        assert_eq!(buffer.into_bytes(), vec![1, 2, 3, 4, 5, 6]);
    }
}

#[test]
fn placing_a_block_twice_changes_nothing() {
    let mut buffer = PieceBuffer::new(4);
    assert!(buffer.place(1, &[5, 6]));
    assert!(buffer.place(1, &[5, 6]));
    assert_eq!(buffer.into_bytes(), vec![0, 5, 6, 0]);
}

#[test]
fn digest_of_abc() {
    let expected = [
        0xa9, 0x99, 0x3e, 0x36, 0x47, 0x06, 0x81, 0x6a, 0xba, 0x3e, 0x25, 0x71, 0x78, 0x50, 0xc2,
        0x6c, 0x9c, 0xd0, 0xd8, 0x9d,
    ];
    assert_eq!(verify_piece(0, b"abc".to_vec(), &expected), Ok(b"abc".to_vec()));
}

#[test]
fn one_flipped_bit_in_the_digest_fails_the_piece() {
    let mut expected = [
        0xa9, 0x99, 0x3e, 0x36, 0x47, 0x06, 0x81, 0x6a, 0xba, 0x3e, 0x25, 0x71, 0x78, 0x50, 0xc2,
        0x6c, 0x9c, 0xd0, 0xd8, 0x9d,
    ];
    let actual = expected.to_vec();
    expected[19] ^= 1;
    assert_eq!(
        verify_piece(3, b"abc".to_vec(), &expected),
        Err(PeerError::PieceHashMismatch { index: 3, expected: expected.to_vec(), actual })
    );
}

#[test]
fn one_flipped_bit_in_the_data_fails_the_piece() {
    let mut data = first_piece();
    data[1000] ^= 0x10;
    let r = verify_piece(0, data, &FIRST_DIGEST);
    assert!(matches!(r, Err(PeerError::PieceHashMismatch { index: 0, .. })));
}

#[test]
fn digest_given_from_outside_decides() {
    assert_eq!(check_digest(1, vec![1, 2], &[9, 9], vec![9, 9]), Ok(vec![1, 2]));
    assert_eq!(
        check_digest(1, vec![1, 2], &[9, 9], vec![9, 8]),
        Err(PeerError::PieceHashMismatch { index: 1, expected: vec![9, 9], actual: vec![9, 8] })
    );
    assert_eq!(
        check_digest(1, vec![1, 2], &[9, 9], vec![9]),
        Err(PeerError::PieceHashMismatch { index: 1, expected: vec![9, 9], actual: vec![9] })
    );
}

#[test]
fn one_piece_of_two_blocks_is_fetched_whole() {
    let data = first_piece();
    let info = one_piece_torrent();
    let responses = vec![reply(0, 0, &data[..16384]), reply(0, 16384, &data[16384..])];
    let fetched = fetch_piece(&info, 0, &responses).unwrap();
    assert_eq!(fetched.len(), 32768);
    assert_eq!(fetched, data);
}

#[test]
fn last_piece_is_shorter_and_has_its_own_digest() {
    let info = two_piece_torrent();
    assert_eq!(info.piece_count(), 2);
    assert_eq!(info.piece_length_at(0), 32768);
    assert_eq!(info.piece_length_at(1), 7232);
    assert_eq!(
        block_requests(1, info.piece_length_at(1) as u32, BLOCK_SIZE),
        vec![BlockRequest { piece_index: 1, begin_offset: 0, length: 7232 }]
    );
    let data = second_piece();
    let responses = vec![reply(1, 0, &data)];
    assert_eq!(fetch_piece(&info, 1, &responses), Ok(data.clone()));
    let r = fetch_piece(&info, 0, &vec![reply(0, 0, &data)]);
    assert!(matches!(r, Err(PeerError::PieceHashMismatch { index: 0, .. })));
}

#[test]
fn blocks_are_placed_by_offset_whatever_the_order_of_arrival() {
    let data = first_piece();
    let info = one_piece_torrent();
    let responses = vec![reply(0, 16384, &data[16384..]), reply(0, 0, &data[..16384])];
    assert_eq!(fetch_piece(&info, 0, &responses), Ok(data));
}

#[test]
fn reply_for_another_piece_leaves_its_block_unfilled() {
    let data = first_piece();
    let info = one_piece_torrent();
    let responses = vec![reply(0, 0, &data[..16384]), reply(5, 16384, &data[16384..])];
    let mut unfilled = data[..16384].to_vec();
    unfilled.resize(32768, 0);
    assert_eq!(assemble(32768, 0, &responses), Ok(unfilled));
    let r = fetch_piece(&info, 0, &responses);
    match r {
        Err(PeerError::PieceHashMismatch { index, expected, actual }) => {
            assert_eq!(index, 0);
            assert_eq!(expected, FIRST_DIGEST.to_vec());
            assert_eq!(actual.len(), 20);
            assert_ne!(actual, expected);
        }
        other => panic!("the piece was not refused: {:?}", other),
    }
}

#[test]
fn truncated_piece_is_refused() {
    let data = first_piece();
    let info = one_piece_torrent();
    let responses = vec![reply(0, 0, &data[..16384])];
    let r = fetch_piece(&info, 0, &responses);
    assert!(matches!(r, Err(PeerError::PieceHashMismatch { index: 0, .. })));
    let r = fetch_piece(&info, 0, &vec![]);
    assert!(matches!(r, Err(PeerError::PieceHashMismatch { index: 0, .. })));
}

#[test]
fn reply_too_short_for_its_header_is_malformed() {
    assert_eq!(assemble(16, 0, &vec![vec![0, 0, 0, 0, 0, 0, 0]]), Err(PeerError::MalformedMessage));
    let info = one_piece_torrent();
    assert_eq!(fetch_piece(&info, 0, &vec![vec![]]), Err(PeerError::MalformedMessage));
}

#[test]
fn block_past_the_end_of_the_piece_is_malformed() {
    assert_eq!(assemble(4, 0, &vec![reply(0, 2, &[1, 2, 3])]), Err(PeerError::MalformedMessage));
    assert_eq!(assemble(4, 0, &vec![reply(0, 2, &[1, 2])]), Ok(vec![0, 0, 1, 2]));
    assert_eq!(assemble(4, 0, &vec![reply(1, 2, &[1, 2, 3])]), Ok(vec![0, 0, 0, 0]));
}

#[test]
fn later_reply_overwrites_an_earlier_one() {
    let responses = vec![reply(2, 0, &[1, 1, 1]), reply(2, 1, &[7, 7])];
    assert_eq!(assemble(3, 2, &responses), Ok(vec![1, 7, 7]));
}
