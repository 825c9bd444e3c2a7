use bencode_metainfo::metainfo::project;
use bencode_metainfo::{
    Contents, Element, ElementError, FmtError, Metainfo, MetainfoDecodingError, TorrentDecoder,
};

fn decode_metafile_of(buffer: &[u8]) -> Result<Metainfo, MetainfoDecodingError> {
    let mut d = TorrentDecoder::new(buffer);
    d.decode_metafile()
}

#[test]
fn sample_buffer_projects_to_metainfo() {
    let r = decode_metafile_of(b"d8:announce20:http://tracker.test/4:infod6:lengthi100eee");
    let m = r.unwrap();
    assert_eq!(m.announce, "http://tracker.test/");
    assert_eq!(
        m.info,
        vec![(String::from("length"), Element::Int(100))]
    );
    assert_eq!(m.announce_list, None);
    assert_eq!(m.creation_date, None);
    assert_eq!(m.comment, None);
    assert_eq!(m.created_by, None);
    assert_eq!(m.encoding, None);
}

#[test]
fn list_root_fails_projection() {
    assert_eq!(
        decode_metafile_of(b"le"),
        Err(MetainfoDecodingError::FileWasntDictionary(
            ElementError::WasntDictionary
        ))
    );
}

#[test]
fn list_root_value_fails_project_directly() {
    assert_eq!(
        project(Element::List(vec![])),
        Err(MetainfoDecodingError::FileWasntDictionary(
            ElementError::WasntDictionary
        ))
    );
}

#[test]
fn missing_announce_wins_over_missing_info() {
    assert_eq!(
        decode_metafile_of(b"d4:infodee"),
        Err(MetainfoDecodingError::FileWithoutAnnounce)
    );
}

#[test]
fn byte_string_creation_date_fails() {
    assert_eq!(
        decode_metafile_of(b"d8:announce1:a13:creation date3:abc4:infodee"),
        Err(MetainfoDecodingError::BadlyFormatedCreationDate(
            ElementError::WasntInt
        ))
    );
}

#[test]
fn integer_creation_date_is_kept_as_seconds() {
    let m = decode_metafile_of(b"d8:announce1:a13:creation datei100e4:infodee").unwrap();
    assert_eq!(m.creation_date, Some(100));
}

#[test]
fn negative_creation_date_is_accepted() {
    let m = decode_metafile_of(b"d8:announce1:a13:creation datei-1e4:infodee").unwrap();
    assert_eq!(m.creation_date, Some(-1));
}

#[test]
fn announce_must_be_a_string() {
    assert_eq!(
        decode_metafile_of(b"d8:announcei1e4:infodee"),
        Err(MetainfoDecodingError::AnnounceWasntString(
            ElementError::WasntString
        ))
    );
}

#[test]
fn opaque_bytes_announce_is_not_a_string() {
    assert_eq!(
        decode_metafile_of(b"d8:announce2:\xff\xfe4:infodee"),
        Err(MetainfoDecodingError::AnnounceWasntString(
            ElementError::WasntString
        ))
    );
}

#[test]
fn missing_info_fails() {
    assert_eq!(
        decode_metafile_of(b"d8:announce1:ae"),
        Err(MetainfoDecodingError::FileWithoutInfo)
    );
}

#[test]
fn info_must_be_a_dictionary() {
    assert_eq!(
        decode_metafile_of(b"d8:announce1:a4:infoi1ee"),
        Err(MetainfoDecodingError::InfoWasntDictionary(
            ElementError::WasntDictionary
        ))
    );
}

#[test]
fn announce_list_projects_to_tiers() {
    let m = decode_metafile_of(
        b"d8:announce1:a13:announce-listll1:b1:celd1:di0eeee4:infodee",
    );
    // the second tier's member is a dictionary, not a string
    assert_eq!(
        m,
        Err(MetainfoDecodingError::BadlyFormatedAnnounceList(
            ElementError::WasntString
        ))
    );
}

#[test]
fn well_formed_announce_list_is_kept() {
    let m = decode_metafile_of(b"d8:announce1:a13:announce-listll1:b1:cel1:dee4:infodee")
        .unwrap();
    assert_eq!(
        m.announce_list,
        Some(vec![
            vec![String::from("b"), String::from("c")],
            vec![String::from("d")],
        ])
    );
}

#[test]
fn empty_announce_list_is_kept() {
    let m = decode_metafile_of(b"d8:announce1:a13:announce-listle4:infodee").unwrap();
    assert_eq!(m.announce_list, Some(vec![]));
}

#[test]
fn announce_list_must_be_a_list() {
    assert_eq!(
        decode_metafile_of(b"d8:announce1:a13:announce-listi1e4:infodee"),
        Err(MetainfoDecodingError::BadlyFormatedAnnounceList(
            ElementError::WasntList
        ))
    );
}

#[test]
fn announce_list_tier_must_be_a_list() {
    assert_eq!(
        decode_metafile_of(b"d8:announce1:a13:announce-listli1ee4:infodee"),
        Err(MetainfoDecodingError::BadlyFormatedAnnounceList(
            ElementError::WasntList
        ))
    );
}

#[test]
fn optional_strings_are_projected() {
    let m = decode_metafile_of(
        b"d8:announce1:a7:comment3:hey10:created_by2:me8:encoding5:UTF-84:infodee",
    )
    .unwrap();
    assert_eq!(m.comment, Some(String::from("hey")));
    assert_eq!(m.created_by, Some(String::from("me")));
    assert_eq!(m.encoding, Some(String::from("UTF-8")));
}

#[test]
fn comment_must_be_a_string() {
    assert_eq!(
        decode_metafile_of(b"d8:announce1:a7:commenti1e4:infodee"),
        Err(MetainfoDecodingError::BadlyFormatedComment(
            ElementError::WasntString
        ))
    );
}

#[test]
fn created_by_must_be_a_string() {
    assert_eq!(
        decode_metafile_of(b"d8:announce1:a10:created_byi1e4:infodee"),
        Err(MetainfoDecodingError::BadlyFormatedCreatedBy(
            ElementError::WasntString
        ))
    );
}

#[test]
fn encoding_must_be_a_string() {
    assert_eq!(
        decode_metafile_of(b"d8:announce1:a8:encodingi1e4:infodee"),
        Err(MetainfoDecodingError::BadlyFormatedEncoding(
            ElementError::WasntString
        ))
    );
}

#[test]
fn unrecognized_keys_are_ignored() {
    let m = decode_metafile_of(b"d8:announce1:a5:extrai7e4:infodee").unwrap();
    assert_eq!(m.announce, "a");
    assert_eq!(m.info, vec![]);
}

#[test]
fn decode_error_is_wrapped_as_bad_format() {
    assert_eq!(
        decode_metafile_of(b"d8:announce"),
        Err(MetainfoDecodingError::BadFormat(
            FmtError::UnexpectedEndOfBuffer
        ))
    );
}

#[test]
fn empty_buffer_fails_with_bad_format() {
    assert_eq!(
        decode_metafile_of(b""),
        Err(MetainfoDecodingError::BadFormat(
            FmtError::UnexpectedEndOfBuffer
        ))
    );
}

#[test]
fn lone_end_marker_is_no_root_value() {
    assert_eq!(
        decode_metafile_of(b"e"),
        Err(MetainfoDecodingError::BadFormat(FmtError::WrongCharacter))
    );
}

#[test]
fn accessors_extract_matching_shapes() {
    assert_eq!(Element::Int(3).get_integer(), Ok(3));
    assert_eq!(
        Element::ByteString(Contents::String(String::from("x"))).get_string(),
        Ok(String::from("x"))
    );
    assert_eq!(Element::List(vec![]).get_list(), Ok(vec![]));
    assert_eq!(Element::Dictionary(vec![]).get_dictionary(), Ok(vec![]));
}

#[test]
fn accessors_reject_other_shapes() {
    assert_eq!(
        Element::Int(3).get_string(),
        Err(ElementError::WasntString)
    );
    assert_eq!(
        Element::ByteString(Contents::Bytes(vec![0xff])).get_string(),
        Err(ElementError::WasntString)
    );
    assert_eq!(Element::Int(3).get_list(), Err(ElementError::WasntList));
    assert_eq!(
        Element::Int(3).get_dictionary(),
        Err(ElementError::WasntDictionary)
    );
    assert_eq!(
        Element::List(vec![]).get_integer(),
        Err(ElementError::WasntInt)
    );
    assert_eq!(Element::Empty.get_string(), Err(ElementError::WasntString));
}

#[test]
fn projecting_twice_yields_equal_records() {
    let buffer: &[u8] = b"d8:announce1:a13:creation datei42e4:infod1:ki1eee";
    let r1 = decode_metafile_of(buffer);
    let r2 = decode_metafile_of(buffer);
    assert!(r1.is_ok());
    assert_eq!(r1, r2);
}
