use bittorrent_peer::error::PeerError;
use bittorrent_peer::message::{
    decode_message, encode_keep_alive, encode_message, WireMessage,
};

fn every_kind() -> Vec<WireMessage> {
    vec![
        WireMessage::KeepAlive,
        WireMessage::Choke,
        WireMessage::Unchoke,
        WireMessage::Interested,
        WireMessage::NotInterested,
        WireMessage::Have { index: 7 },
        WireMessage::Bitfield { bits: vec![0xff, 0x80] },
        WireMessage::Bitfield { bits: vec![] },
        WireMessage::Request { index: 1, begin: 16384, length: 16384 },
        WireMessage::Piece { index: 1, begin: 16384, block: vec![9, 8, 7] },
        WireMessage::Piece { index: 0, begin: 0, block: vec![] },
        WireMessage::Cancel { index: 2, begin: 0, length: 5 },
    ]
}

#[test]
fn interested_carries_length_one() {
    assert_eq!(encode_message(2, &[]), vec![0, 0, 0, 1, 2]);
    assert_eq!(WireMessage::Interested.encode(), vec![0, 0, 0, 1, 2]);
}

#[test]
fn length_prefix_counts_id_and_payload() {
    assert_eq!(encode_message(5, &[0xaa, 0xbb]), vec![0, 0, 0, 3, 5, 0xaa, 0xbb]);
    let payload = vec![1u8; 300];
    let frame = encode_message(7, &payload);
    assert_eq!(&frame[..5], &[0, 0, 1, 45, 7]);
    assert_eq!(frame.len(), 305);
}

#[test]
fn request_is_three_big_endian_integers() {
    let bytes = WireMessage::Request { index: 1, begin: 16384, length: 7232 }.encode();
    assert_eq!(bytes, vec![0, 0, 0, 13, 6, 0, 0, 0, 1, 0, 0, 0x40, 0, 0, 0, 0x1c, 0x40]);
}

#[test]
fn keep_alive_is_four_zero_bytes() {
    assert_eq!(encode_keep_alive(), vec![0, 0, 0, 0]);
    assert_eq!(WireMessage::KeepAlive.encode(), vec![0, 0, 0, 0]);
}

#[test]
fn keep_alive_is_not_read_as_choke() {
    assert_eq!(decode_message(&[0, 0, 0, 0]), Ok((None, vec![])));
    assert_eq!(WireMessage::decode(&[0, 0, 0, 0]), Ok(WireMessage::KeepAlive));
    assert_eq!(decode_message(&[0, 0, 0, 1, 0]), Ok((Some(0), vec![])));
    assert_eq!(WireMessage::decode(&[0, 0, 0, 1, 0]), Ok(WireMessage::Choke));
}

#[test]
fn every_message_round_trips() {
    for message in every_kind() {
        let bytes = message.encode();
        assert_eq!(WireMessage::decode(&bytes), Ok(message.clone()));
        assert_eq!(WireMessage::decode(&bytes).unwrap().encode(), bytes);
    }
}

#[test]
fn every_id_round_trips_through_the_frame() {
    for id in 0..=255u8 {
        for payload in [vec![], vec![id], vec![1, 2, 3, 4, 5, 6, 7, 8, 9]] {
            let bytes = encode_message(id, &payload);
            let (got_id, got_payload) = decode_message(&bytes).unwrap();
            assert_eq!(got_id, Some(id));
            assert_eq!(got_payload, payload);
            assert_eq!(encode_message(got_id.unwrap(), &got_payload), bytes);
        }
    }
}

#[test]
fn truncated_frame_is_a_closed_connection() {
    assert_eq!(decode_message(&[]), Err(PeerError::ConnectionClosed));
    assert_eq!(decode_message(&[0, 0, 0]), Err(PeerError::ConnectionClosed));
    assert_eq!(decode_message(&[0, 0, 0, 3, 5, 1]), Err(PeerError::ConnectionClosed));
    assert_eq!(WireMessage::decode(&[0, 0, 0, 5, 4, 0, 0]), Err(PeerError::ConnectionClosed));
}

#[test]
fn frame_with_bytes_after_its_end_is_malformed() {
    assert_eq!(decode_message(&[0, 0, 0, 1, 2, 9]), Err(PeerError::MalformedMessage));
    assert_eq!(decode_message(&[0, 0, 0, 0, 0]), Err(PeerError::MalformedMessage));
}

#[test]
fn payload_that_does_not_fit_its_id_is_malformed() {
    assert_eq!(WireMessage::decode(&[0, 0, 0, 2, 1, 0]), Err(PeerError::MalformedMessage));
    assert_eq!(WireMessage::decode(&[0, 0, 0, 4, 4, 0, 0, 0]), Err(PeerError::MalformedMessage));
    assert_eq!(
        WireMessage::decode(&[0, 0, 0, 8, 7, 0, 0, 0, 0, 0, 0, 0]),
        Err(PeerError::MalformedMessage)
    );
    assert_eq!(WireMessage::decode(&[0, 0, 0, 1, 9]), Err(PeerError::MalformedMessage));
}

#[test]
fn piece_message_is_read_field_by_field() {
    let bytes = [0, 0, 0, 12, 7, 0, 0, 0, 3, 0, 0, 0x40, 0, 0xde, 0xad, 0xbe];
    assert_eq!(
        WireMessage::decode(&bytes),
        Ok(WireMessage::Piece { index: 3, begin: 16384, block: vec![0xde, 0xad, 0xbe] })
    );
}
