use rusty_torrent::error::TorrentParserError;
use rusty_torrent::parse_torrent_metadata;

fn bstr(s: &[u8]) -> Vec<u8> {
    let mut out = format!("{}:", s.len()).into_bytes();
    out.extend_from_slice(s);
    out
}

fn info(name: &[u8], pieces: &[u8], rest: &[u8]) -> Vec<u8> {
    let mut out = b"d".to_vec();
    out.extend(bstr(b"name"));
    out.extend(bstr(name));
    out.extend(bstr(b"piece length"));
    out.extend_from_slice(b"i16384e");
    out.extend(bstr(b"pieces"));
    out.extend(bstr(pieces));
    out.extend_from_slice(rest);
    out.push(b'e');
    out
}

fn doc(before_info: &[u8], info_value: &[u8]) -> Vec<u8> {
    let mut out = b"d".to_vec();
    out.extend(bstr(b"announce"));
    out.extend(bstr(b"http://t/a"));
    out.extend_from_slice(before_info);
    out.extend(bstr(b"info"));
    out.extend_from_slice(info_value);
    out.push(b'e');
    out
}

#[test]
fn parses_single_file_metadata() {
    let pieces: Vec<u8> = (0u8..40).collect();
    let m = parse_torrent_metadata(doc(b"", &info(b"x", &pieces, b"6:lengthi5e"))).unwrap();
    assert_eq!(m.announce, "http://t/a");
    assert_eq!(m.info.name, "x");
    assert_eq!(m.info.piece_length, 16384);
    assert_eq!(m.info.length, Some(5));
    assert!(m.info.files.is_none());
    assert!(m.is_single_file());
    assert!(m.announce_list.is_none());
    assert_eq!(m.info_hash.len(), 20);
}

#[test]
fn pieces_round_trip() {
    let pieces: Vec<u8> = (0u8..60).collect();
    let m = parse_torrent_metadata(doc(b"", &info(b"x", &pieces, b""))).unwrap();
    assert_eq!(m.info.pieces.len(), 3);
    assert!(m.info.pieces.iter().all(|p| p.len() == 20));
    let joined: Vec<u8> = m.info.pieces.concat();
    assert_eq!(joined, pieces);
}

#[test]
fn pieces_with_remainder_are_rejected() {
    let pieces: Vec<u8> = (0u8..41).collect();
    let r = parse_torrent_metadata(doc(b"", &info(b"x", &pieces, b"")));
    assert!(matches!(r, Err(TorrentParserError::InvalidStructure(_))));
}

#[test]
fn info_hash_is_deterministic() {
    let d = doc(b"", &info(b"x", &[7u8; 20], b""));
    let a = parse_torrent_metadata(d.clone()).unwrap();
    let b = parse_torrent_metadata(d).unwrap();
    assert_eq!(a.info_hash, b.info_hash);
    assert_eq!(
        a.info_hash,
        vec![155, 34, 174, 77, 69, 109, 233, 18, 205, 249, 49, 239, 222, 253, 210, 216, 108, 10, 179, 23]
    );
}

#[test]
fn info_hash_ignores_bytes_outside_info() {
    let i = info(b"x", &[7u8; 20], b"");
    let a = parse_torrent_metadata(doc(b"7:comment3:one", &i)).unwrap();
    let b = parse_torrent_metadata(doc(b"7:comment3:two", &i)).unwrap();
    assert_eq!(a.comment, Some("one".to_string()));
    assert_eq!(a.info_hash, b.info_hash);
}

#[test]
fn info_hash_changes_with_info_bytes() {
    let a = parse_torrent_metadata(doc(b"", b"d1:ai1e4:name1:x12:piece lengthi1e6:pieces0:e")).unwrap();
    let b = parse_torrent_metadata(doc(b"", b"d1:ai2e4:name1:x12:piece lengthi1e6:pieces0:e")).unwrap();
    assert_ne!(a.info_hash, b.info_hash);
    assert_eq!(
        b.info_hash,
        vec![83, 37, 46, 5, 182, 253, 128, 27, 107, 169, 12, 220, 148, 34, 244, 208, 214, 201, 203, 194]
    );
}

#[test]
fn info_hash_covers_the_whole_info_value() {
    let a = parse_torrent_metadata(doc(b"", &info(b"x", &[7u8; 20], b""))).unwrap();
    let b = parse_torrent_metadata(doc(b"", &info(b"x", &[8u8; 20], b""))).unwrap();
    assert_ne!(a.info_hash, b.info_hash);
}

#[test]
fn missing_info_is_named() {
    let mut d = b"d".to_vec();
    d.extend(bstr(b"announce"));
    d.extend(bstr(b"http://t/a"));
    d.extend(bstr(b"x4:info"));
    d.extend_from_slice(b"dee");
    match parse_torrent_metadata(d) {
        Err(TorrentParserError::MissingRequiredField(name)) => assert_eq!(name, "info"),
        _ => panic!("expected a missing info"),
    }
}

#[test]
fn missing_announce_is_named() {
    let mut d = b"d".to_vec();
    d.extend(bstr(b"info"));
    d.extend(info(b"x", &[7u8; 20], b""));
    d.push(b'e');
    match parse_torrent_metadata(d) {
        Err(TorrentParserError::MissingRequiredField(name)) => assert_eq!(name, "announce"),
        _ => panic!("expected a missing announce"),
    }
}

#[test]
fn multi_file_metadata() {
    let files = b"5:filesld6:lengthi3e4:pathl1:a1:beed6:lengthi4e6:md5sum2:ff4:pathl1:ceee";
    let m = parse_torrent_metadata(doc(b"", &info(b"x", &[7u8; 20], files))).unwrap();
    assert!(!m.is_single_file());
    let fs = m.info.files.as_ref().unwrap();
    assert_eq!(fs.len(), 2);
    assert_eq!(fs[0].length, 3);
    assert_eq!(fs[0].path, vec!["a".to_string(), "b".to_string()]);
    assert_eq!(fs[1].md5sum, Some("ff".to_string()));
    assert!(m.info.length.is_none());
}

#[test]
fn bad_file_entry_fails_whole_mapping() {
    let files = b"5:filesld6:lengthi3e4:pathl1:aeei7ee";
    match parse_torrent_metadata(doc(b"", &info(b"x", &[7u8; 20], files))) {
        Err(TorrentParserError::FieldTypeError { expected, found }) => {
            assert_eq!(expected, "Dict");
            assert_eq!(found, "Integer");
        }
        _ => panic!("expected a type error"),
    }
    let files = b"5:filesld4:pathl1:aeee";
    match parse_torrent_metadata(doc(b"", &info(b"x", &[7u8; 20], files))) {
        Err(TorrentParserError::MissingRequiredField(name)) => assert_eq!(name, "length"),
        _ => panic!("expected a missing length"),
    }
}

#[test]
fn announce_list_is_sorted_and_deduplicated() {
    let list = b"13:announce-listll1:bel1:ael1:bee";
    let m = parse_torrent_metadata(doc(list, &info(b"x", &[7u8; 20], b""))).unwrap();
    assert_eq!(
        m.announce_list,
        Some(vec![vec!["a".to_string()], vec!["b".to_string()]])
    );
}

#[test]
fn wrong_field_types_are_reported() {
    match parse_torrent_metadata(doc(b"7:commenti1e", &info(b"x", &[7u8; 20], b""))) {
        Err(TorrentParserError::FieldTypeError { expected, found }) => {
            assert_eq!(expected, "String");
            assert_eq!(found, "Integer");
        }
        _ => panic!("expected a type error"),
    }
    let mut d = b"l".to_vec();
    d.extend(bstr(b"4:info"));
    d.extend_from_slice(b"dee");
    match parse_torrent_metadata(d) {
        Err(TorrentParserError::FieldTypeError { expected, found }) => {
            assert_eq!(expected, "Dict");
            assert_eq!(found, "List");
        }
        _ => panic!("expected a type error"),
    }
}

#[test]
fn private_flag_and_optional_fields() {
    let m = parse_torrent_metadata(doc(
        b"10:created by2:me13:creation datei99e8:encoding5:UTF-8",
        &info(b"x", &[7u8; 20], b"7:privatei1e"),
    ))
    .unwrap();
    assert_eq!(m.info.private, Some(true));
    assert_eq!(m.created_by, Some("me".to_string()));
    assert_eq!(m.creation_date, Some(99));
    assert_eq!(m.encoding, Some("UTF-8".to_string()));
}
