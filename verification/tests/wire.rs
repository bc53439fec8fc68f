use bittorrent_peer::error::PeerError;
use bittorrent_peer::wire::{decode_handshake, encode_handshake, get_u32, put_u32};

#[test]
fn handshake_is_68_bytes_in_the_fixed_layout() {
    let info_hash = [0xabu8; 20];
    let peer_id = *b"00112233445566778899";
    let bytes = encode_handshake(&info_hash, &peer_id);
    assert_eq!(bytes.len(), 68);
    assert_eq!(bytes[0], 19);
    assert_eq!(&bytes[1..20], b"BitTorrent protocol");
    assert_eq!(&bytes[20..28], &[0u8; 8]);
    assert_eq!(&bytes[28..48], &info_hash);
    assert_eq!(&bytes[48..68], &peer_id);
}

#[test]
fn handshake_round_trip() {
    let info_hash: Vec<u8> = (1..=20).collect();
    let peer_id: Vec<u8> = (101..=120).collect();
    let bytes = encode_handshake(&info_hash, &peer_id);
    let decoded = decode_handshake(&bytes).unwrap();
    assert_eq!(decoded.info_hash, info_hash);
    assert_eq!(decoded.peer_id, peer_id);
    assert_eq!(encode_handshake(&decoded.info_hash, &decoded.peer_id), bytes);
}

#[test]
fn handshake_with_wrong_literal_is_malformed() {
    let mut bytes = encode_handshake(&[1u8; 20], &[2u8; 20]);
    bytes[5] = b'X';
    assert_eq!(decode_handshake(&bytes), Err(PeerError::MalformedHandshake));
}

#[test]
fn big_endian_integers() {
    let mut out = Vec::new();
    put_u32(&mut out, 0x0102_0304);
    assert_eq!(out, vec![1, 2, 3, 4]);
    assert_eq!(get_u32(&out, 0), 0x0102_0304);
}
