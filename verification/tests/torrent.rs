use bittorrent_peer::torrent::TorrentInfo;

fn sample() -> TorrentInfo {
    TorrentInfo {
        name: "sample.txt".to_string(),
        piece_length: 32768,
        length: 40000,
        pieces: (0..40u8).collect(),
    }
}

#[test]
fn info_dictionary_is_bencoded_with_sorted_keys() {
    let mut expected = b"d6:lengthi40000e4:name10:sample.txt12:piece lengthi32768e6:pieces40:".to_vec();
    expected.extend(0..40u8);
    expected.push(b'e');
    assert_eq!(sample().bytes(), expected);
}

#[test]
fn info_dictionary_is_what_the_serializer_writes_for_a_dictionary() {
    let info = sample();
    let mut dict = std::collections::HashMap::new();
    dict.insert(b"name".to_vec(), serde_bencode::value::Value::Bytes(b"sample.txt".to_vec()));
    dict.insert(b"piece length".to_vec(), serde_bencode::value::Value::Int(32768));
    dict.insert(b"length".to_vec(), serde_bencode::value::Value::Int(40000));
    dict.insert(b"pieces".to_vec(), serde_bencode::value::Value::Bytes(info.pieces.clone()));
    let written = serde_bencode::to_bytes(&serde_bencode::value::Value::Dict(dict)).unwrap();
    assert_eq!(info.bytes(), written);
}

#[test]
fn name_is_encoded_by_its_length_in_bytes() {
    let info = TorrentInfo {
        name: "é".to_string(),
        piece_length: 1,
        length: 0,
        pieces: vec![],
    };
    let mut expected = b"d6:lengthi0e4:name2:".to_vec();
    expected.extend_from_slice("é".as_bytes());
    expected.extend_from_slice(b"12:piece lengthi1e6:pieces0:e");
    assert_eq!(info.bytes(), expected);
}

#[test]
fn info_hash_is_the_digest_of_the_dictionary() {
    assert_eq!(
        sample().hash(),
        vec![
            202, 197, 207, 41, 220, 220, 29, 229, 32, 217, 255, 248, 33, 166, 14, 108, 106, 85,
            207, 7
        ]
    );
}

#[test]
fn info_hash_in_hexadecimal() {
    assert_eq!(sample().hex_hash(), "cac5cf29dcdc1de520d9fff821a60e6c6a55cf07");
}

#[test]
fn info_hash_percent_encoded() {
    assert_eq!(
        sample().url_encoded_hash(),
        "%ca%c5%cf%29%dc%dc%1d%e5%20%d9%ff%f8%21%a6%0e%6c%6a%55%cf%07"
    );
}

#[test]
fn piece_digests_in_hexadecimal() {
    assert_eq!(
        sample().pieces(),
        vec![
            "000102030405060708090a0b0c0d0e0f10111213".to_string(),
            "1415161718191a1b1c1d1e1f2021222324252627".to_string(),
        ]
    );
}

#[test]
fn digests_cut_short_make_a_shorter_last_string() {
    let mut info = sample();
    info.pieces = vec![0xab; 23];
    assert_eq!(
        info.pieces(),
        vec!["abababababababababababababababababababab".to_string(), "ababab".to_string()]
    );
    info.pieces = vec![];
    assert_eq!(info.pieces(), Vec::<String>::new());
}

#[test]
fn piece_count_rounds_up() {
    let mut info = sample();
    assert_eq!(info.piece_count(), 2);
    info.length = 32768;
    assert_eq!(info.piece_count(), 1);
    info.length = 32769;
    assert_eq!(info.piece_count(), 2);
    info.length = 0;
    assert_eq!(info.piece_count(), 0);
    info.length = usize::MAX;
    info.piece_length = 1;
    assert_eq!(info.piece_count(), usize::MAX);
}

#[test]
fn description_is_valid_when_there_is_a_digest_for_each_piece() {
    let mut info = sample();
    assert!(info.is_valid());
    info.pieces.push(0);
    assert!(!info.is_valid());
    info.pieces = vec![0; 20];
    assert!(!info.is_valid());
    info.pieces = vec![0; 60];
    assert!(!info.is_valid());
    info.length = 3 * 32768;
    assert!(info.is_valid());
    info.piece_length = 0;
    assert!(!info.is_valid());
}

#[test]
fn piece_lengths_and_digests() {
    let info = sample();
    assert_eq!(info.piece_length_at(0), 32768);
    assert_eq!(info.piece_length_at(1), 7232);
    assert_eq!(info.piece_hash_at(0), &info.pieces[..20]);
    assert_eq!(info.piece_hash_at(1), &info.pieces[20..]);
}
