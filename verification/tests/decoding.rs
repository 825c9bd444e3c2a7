use bencode_metainfo::{Contents, Element, FmtError, TorrentDecoder};

#[test]
fn integer_decodes_to_value() {
    let mut d = TorrentDecoder::new(b"i42e");
    assert_eq!(d.decode_integer(), Ok(Element::Int(42)));
    assert_eq!(d.index, 4);
}

#[test]
fn negative_integer_decodes() {
    let mut d = TorrentDecoder::new(b"i-13e");
    assert_eq!(d.decode_integer(), Ok(Element::Int(-13)));
    assert_eq!(d.index, 5);
}

#[test]
fn plus_signed_integer_decodes() {
    let mut d = TorrentDecoder::new(b"i+7e");
    assert_eq!(d.decode_integer(), Ok(Element::Int(7)));
    assert_eq!(d.index, 4);
}

#[test]
fn extreme_integers_decode() {
    let mut d = TorrentDecoder::new(b"i2147483647e");
    assert_eq!(d.decode_integer(), Ok(Element::Int(i32::MAX)));
    let mut d = TorrentDecoder::new(b"i-2147483648e");
    assert_eq!(d.decode_integer(), Ok(Element::Int(i32::MIN)));
}

#[test]
fn out_of_range_integer_fails() {
    let mut d = TorrentDecoder::new(b"i2147483648e");
    assert_eq!(d.decode_integer(), Err(FmtError::FailedToParseInteger));
}

#[test]
fn non_numeric_integer_fails() {
    let mut d = TorrentDecoder::new(b"iabce");
    assert_eq!(d.decode_integer(), Err(FmtError::FailedToParseInteger));
}

#[test]
fn empty_integer_fails() {
    let mut d = TorrentDecoder::new(b"ie");
    assert_eq!(d.decode_integer(), Err(FmtError::FailedToParseInteger));
}

#[test]
fn truncated_integer_fails() {
    let mut d = TorrentDecoder::new(b"i42");
    assert_eq!(d.decode_integer(), Err(FmtError::UnexpectedEndOfBuffer));
}

#[test]
fn integer_wrong_leading_byte_fails() {
    let mut d = TorrentDecoder::new(b"x42e");
    assert_eq!(d.decode_integer(), Err(FmtError::Integer));
}

#[test]
fn byte_string_decodes_as_text() {
    let mut d = TorrentDecoder::new(b"4:spam");
    assert_eq!(
        d.decode_byte_string(),
        Ok(Contents::String(String::from("spam")))
    );
    // consumed exactly len("4") + 1 + 4 bytes
    assert_eq!(d.index, 6);
}

#[test]
fn byte_string_decodes_as_opaque_bytes() {
    let mut d = TorrentDecoder::new(b"2:\xff\xfe");
    assert_eq!(d.decode_byte_string(), Ok(Contents::Bytes(vec![0xff, 0xfe])));
    assert_eq!(d.index, 4);
}

#[test]
fn byte_string_length_not_utf8_fails() {
    let mut d = TorrentDecoder::new(b"1\xff:ab");
    assert_eq!(d.decode_byte_string(), Err(FmtError::NumberNotInUtf8));
}

#[test]
fn byte_string_length_not_a_number_fails() {
    let mut d = TorrentDecoder::new(b"1a:ab");
    assert_eq!(d.decode_byte_string(), Err(FmtError::FailedToParseInteger));
}

#[test]
fn byte_string_truncated_contents_fail() {
    let mut d = TorrentDecoder::new(b"5:ab");
    assert_eq!(d.decode_byte_string(), Err(FmtError::UnexpectedEndOfBuffer));
}

#[test]
fn byte_string_missing_colon_fails() {
    let mut d = TorrentDecoder::new(b"42");
    assert_eq!(d.decode_byte_string(), Err(FmtError::UnexpectedEndOfBuffer));
}

#[test]
fn empty_byte_string_decodes() {
    let mut d = TorrentDecoder::new(b"0:");
    assert_eq!(d.decode_byte_string(), Ok(Contents::String(String::new())));
    assert_eq!(d.index, 2);
}

#[test]
fn empty_list_decodes() {
    let mut d = TorrentDecoder::new(b"le");
    assert_eq!(d.decode_list(), Ok(Element::List(vec![])));
    assert_eq!(d.index, 2);
}

#[test]
fn list_keeps_encounter_order() {
    let mut d = TorrentDecoder::new(b"li1ei2e1:ae");
    assert_eq!(
        d.decode_list(),
        Ok(Element::List(vec![
            Element::Int(1),
            Element::Int(2),
            Element::ByteString(Contents::String(String::from("a"))),
        ]))
    );
    assert_eq!(d.index, 11);
}

#[test]
fn nested_list_decodes() {
    let mut d = TorrentDecoder::new(b"llei0ee");
    assert_eq!(
        d.decode_list(),
        Ok(Element::List(vec![
            Element::List(vec![]),
            Element::Int(0),
        ]))
    );
}

#[test]
fn list_wrong_leading_byte_fails() {
    let mut d = TorrentDecoder::new(b"de");
    assert_eq!(d.decode_list(), Err(FmtError::List));
}

#[test]
fn unterminated_list_fails() {
    let mut d = TorrentDecoder::new(b"li1e");
    assert_eq!(d.decode_list(), Err(FmtError::UnexpectedEndOfBuffer));
}

#[test]
fn list_with_bad_member_fails() {
    let mut d = TorrentDecoder::new(b"lxe");
    assert_eq!(d.decode_list(), Err(FmtError::WrongCharacter));
}

#[test]
fn empty_dictionary_decodes() {
    let mut d = TorrentDecoder::new(b"de");
    assert_eq!(d.decode_dictionary(), Ok(Element::Dictionary(vec![])));
    assert_eq!(d.index, 2);
}

#[test]
fn dictionary_decodes_entries() {
    let mut d = TorrentDecoder::new(b"d1:ai5e1:b2:hie");
    assert_eq!(
        d.decode_dictionary(),
        Ok(Element::Dictionary(vec![
            (String::from("a"), Element::Int(5)),
            (
                String::from("b"),
                Element::ByteString(Contents::String(String::from("hi")))
            ),
        ]))
    );
}

#[test]
fn dictionary_non_string_key_fails() {
    let mut d = TorrentDecoder::new(b"di1ei2ee");
    assert_eq!(d.decode_dictionary(), Err(FmtError::WrongKeyFormat));
}

#[test]
fn dictionary_opaque_bytes_key_fails() {
    let mut d = TorrentDecoder::new(b"d2:\xff\xfei1ee");
    assert_eq!(d.decode_dictionary(), Err(FmtError::WrongKeyFormat));
}

#[test]
fn dictionary_duplicate_key_keeps_last_value() {
    let mut d = TorrentDecoder::new(b"d1:ai1e1:ai2ee");
    assert_eq!(
        d.decode_dictionary(),
        Ok(Element::Dictionary(vec![(String::from("a"), Element::Int(2))]))
    );
}

#[test]
fn dictionary_key_without_value_fails() {
    let mut d = TorrentDecoder::new(b"d1:ae");
    assert_eq!(d.decode_dictionary(), Err(FmtError::Dictionary));
}

#[test]
fn dictionary_wrong_leading_byte_fails() {
    let mut d = TorrentDecoder::new(b"le");
    assert_eq!(d.decode_dictionary(), Err(FmtError::Dictionary));
}

#[test]
fn decode_character_dispatches_on_byte() {
    let mut d = TorrentDecoder::new(b"i9e");
    let c = d.get_char();
    assert_eq!(c, b'i');
    assert_eq!(d.decode_character(c), Ok(Some(Element::Int(9))));
    assert_eq!(d.index, 3);
}

#[test]
fn decode_character_end_marker_yields_no_value() {
    let mut d = TorrentDecoder::new(b"e");
    assert_eq!(d.decode_character(b'e'), Ok(None));
    assert_eq!(d.index, 1);
}

#[test]
fn decode_character_unknown_byte_fails() {
    let mut d = TorrentDecoder::new(b"x");
    assert_eq!(d.decode_character(b'x'), Err(FmtError::WrongCharacter));
}

#[test]
fn decoding_twice_yields_equal_trees() {
    let buffer: &[u8] = b"d1:al2:\xff\xfei-3ee1:bd1:ci0eee";
    let mut d1 = TorrentDecoder::new(buffer);
    let mut d2 = TorrentDecoder::new(buffer);
    let r1 = d1.decode_dictionary();
    let r2 = d2.decode_dictionary();
    assert!(r1.is_ok());
    assert_eq!(r1, r2);
    assert_eq!(d1.index, d2.index);
}

#[test]
fn new_starts_at_zero() {
    let d = TorrentDecoder::new(b"le");
    assert_eq!(d.index, 0);
}

#[test]
fn default_element_is_empty() {
    assert_eq!(Element::default(), Element::Empty);
}
