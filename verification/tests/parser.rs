use bittorrent_peer::parser::{
    decode, is_printable, join_texts, render, sort_texts, text_before, to_signed_decimal, Bencode,
    ValueToString,
};

fn shown(text: &str) -> String {
    decode(text).unwrap().to_string()
}

#[test]
fn byte_string_is_decoded_and_quoted() {
    assert_eq!(decode("5:hello"), Some(Bencode::Bytes(b"hello".to_vec())));
    assert_eq!(shown("5:hello"), "\"hello\"");
    assert_eq!(shown("0:"), "\"\"");
}

#[test]
fn quotes_and_control_characters_are_escaped() {
    assert_eq!(Bencode::Bytes(b"a\"b\\c\n".to_vec()).to_string(), "\"a\\\"b\\\\c\\n\"");
}

#[test]
fn integer_is_decoded_and_written_in_decimal() {
    assert_eq!(decode("i52e"), Some(Bencode::Int(52)));
    assert_eq!(shown("i52e"), "52");
    assert_eq!(shown("i-52e"), "-52");
    assert_eq!(shown("i0e"), "0");
    assert_eq!(Bencode::Int(i64::MIN).to_string(), "-9223372036854775808");
    assert_eq!(Bencode::Int(i64::MAX).to_string(), "9223372036854775807");
}

#[test]
fn list_is_written_in_brackets() {
    assert_eq!(
        decode("l5:helloi52ee"),
        Some(Bencode::List(vec![Bencode::Bytes(b"hello".to_vec()), Bencode::Int(52)]))
    );
    assert_eq!(shown("l5:helloi52ee"), "[\"hello\",52]");
    assert_eq!(shown("le"), "[]");
    assert_eq!(shown("lli4eei5ee"), "[[4],5]");
}

#[test]
fn dictionary_is_written_in_braces_with_sorted_entries() {
    assert_eq!(shown("d3:foo3:bar5:helloi52ee"), "{\"foo\":\"bar\",\"hello\":52}");
    assert_eq!(shown("d5:helloi52e3:foo3:bare"), "{\"foo\":\"bar\",\"hello\":52}");
    assert_eq!(shown("de"), "{}");
}

#[test]
fn entries_are_sorted_whatever_the_order_they_are_held_in() {
    let one = Bencode::Dict(vec![
        (b"b".to_vec(), Bencode::Int(2)),
        (b"a".to_vec(), Bencode::Int(1)),
        (b"c".to_vec(), Bencode::List(vec![])),
    ]);
    let other = Bencode::Dict(vec![
        (b"c".to_vec(), Bencode::List(vec![])),
        (b"a".to_vec(), Bencode::Int(1)),
        (b"b".to_vec(), Bencode::Int(2)),
    ]);
    assert_eq!(one.to_string(), "{\"a\":1,\"b\":2,\"c\":[]}");
    assert_eq!(other.to_string(), "{\"a\":1,\"b\":2,\"c\":[]}");
}

#[test]
fn key_that_is_not_utf8_is_written_with_replacement_characters() {
    let value = Bencode::Dict(vec![(vec![0xff, b'k'], Bencode::Int(1))]);
    assert!(is_printable(&value));
    assert_eq!(value.to_string(), "{\"\u{fffd}k\":1}");
}

#[test]
fn nested_dictionary() {
    assert_eq!(
        shown("d4:infod6:lengthi3e4:name1:xe8:announce3:urle"),
        "{\"announce\":\"url\",\"info\":{\"length\":3,\"name\":\"x\"}}"
    );
}

#[test]
fn text_that_is_not_bencode_is_not_decoded() {
    assert_eq!(decode(""), None);
    assert_eq!(decode("x"), None);
    assert_eq!(decode("5:hi"), None);
    assert_eq!(decode("i12"), None);
    assert_eq!(decode("l5:hello"), None);
    assert_eq!(decode("e"), None);
}

#[test]
fn byte_string_that_is_not_utf8_is_not_printable() {
    assert!(is_printable(&Bencode::Bytes(b"ok".to_vec())));
    assert!(!is_printable(&Bencode::Bytes(vec![0xff, 0xfe])));
    assert!(!is_printable(&Bencode::List(vec![Bencode::Int(1), Bencode::Bytes(vec![0x80])])));
    assert!(!is_printable(&Bencode::Dict(vec![(b"k".to_vec(), Bencode::Bytes(vec![0xc0]))])));
    assert!(is_printable(&Bencode::Dict(vec![(b"k".to_vec(), Bencode::List(vec![]))])));
}

#[test]
fn render_is_what_to_string_writes() {
    let value = Bencode::List(vec![Bencode::Int(-1), Bencode::Bytes(b"x".to_vec())]);
    assert_eq!(render(&value), "[-1,\"x\"]");
    assert_eq!(value.to_string(), "[-1,\"x\"]");
}

#[test]
fn texts_are_ordered_by_their_bytes() {
    assert!(text_before("", ""));
    assert!(text_before("", "a"));
    assert!(!text_before("a", ""));
    assert!(text_before("a", "a"));
    assert!(text_before("a", "ab"));
    assert!(!text_before("ab", "a"));
    assert!(text_before("ab", "b"));
    assert!(text_before("Z", "a"));
    assert!(text_before("z", "é"));
    assert!(!text_before("é", "z"));
}

#[test]
fn texts_are_sorted_as_the_standard_sort_sorts_them() {
    let list: Vec<String> =
        ["pear", "apple", "", "é", "apple", "Zed", "app", "\"k\":1", "\"k\"\":1"]
            .iter()
            .map(|text| text.to_string())
            .collect();
    let mut expected = list.clone();
    expected.sort();
    assert_eq!(sort_texts(&list), expected);
    assert_eq!(sort_texts(&vec![]), Vec::<String>::new());
}

#[test]
fn texts_are_joined_with_commas() {
    let texts = |parts: &[&str]| parts.iter().map(|part| part.to_string()).collect::<Vec<_>>();
    assert_eq!(join_texts(&texts(&[])), "");
    assert_eq!(join_texts(&texts(&["a"])), "a");
    assert_eq!(join_texts(&texts(&["a", "", "c"])), "a,,c");
}

#[test]
fn signed_numbers_in_decimal() {
    assert_eq!(to_signed_decimal(0), "0");
    assert_eq!(to_signed_decimal(-1), "-1");
    assert_eq!(to_signed_decimal(1234567890), "1234567890");
}
