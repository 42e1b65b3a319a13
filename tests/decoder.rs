use rusty_torrent::error::TorrentParserError;
use rusty_torrent::field::{dict_get, extract_info_hash, get_field_type, Field};

fn decode(b: &[u8]) -> Result<Option<Field>, TorrentParserError> {
    let v = b.to_vec();
    let mut pos: usize = 0;
    get_field_type(&v, &mut pos)
}

#[test]
fn decodes_byte_string() {
    let v = b"5:hello rest".to_vec();
    let mut pos: usize = 0;
    match get_field_type(&v, &mut pos) {
        Ok(Some(Field::String(s))) => assert_eq!(s, b"hello".to_vec()),
        _ => panic!("expected a string"),
    }
    assert_eq!(pos, 7);
}

#[test]
fn decodes_empty_input_as_none() {
    assert!(matches!(decode(b""), Ok(None)));
}

#[test]
fn decodes_integers() {
    assert!(matches!(decode(b"i42e"), Ok(Some(Field::Integer(42)))));
    assert!(matches!(decode(b"i-17e"), Ok(Some(Field::Integer(-17)))));
    assert!(matches!(decode(b"i0e"), Ok(Some(Field::Integer(0)))));
    assert!(matches!(
        decode(b"i-9223372036854775808e"),
        Ok(Some(Field::Integer(i64::MIN)))
    ));
    assert!(matches!(
        decode(b"i9223372036854775807e"),
        Ok(Some(Field::Integer(i64::MAX)))
    ));
}

#[test]
fn rejects_bad_integers() {
    assert!(matches!(decode(b"i9223372036854775808e"), Err(TorrentParserError::ParseIntError(_))));
    assert!(matches!(decode(b"i12x3e"), Err(TorrentParserError::ParseIntError(_))));
    assert!(matches!(decode(b"ie"), Err(TorrentParserError::ParseIntError(_))));
    assert!(matches!(decode(b"i-e"), Err(TorrentParserError::ParseIntError(_))));
    assert!(matches!(decode(b"i12"), Err(TorrentParserError::InvalidStructure(_))));
}

#[test]
fn rejects_bad_strings() {
    assert!(matches!(decode(b"5x"), Err(TorrentParserError::InvalidStructure(_))));
    assert!(matches!(decode(b"12"), Err(TorrentParserError::InvalidStructure(_))));
    assert!(matches!(decode(b"5:abc"), Err(TorrentParserError::InvalidStructure(_))));
    assert!(matches!(
        decode(b"99999999999999999999999:a"),
        Err(TorrentParserError::ParseIntError(_))
    ));
}

#[test]
fn rejects_unknown_specifier() {
    assert!(matches!(decode(b"x"), Err(TorrentParserError::UnknownSpecifier(b'x'))));
}

#[test]
fn decodes_nested_list() {
    match decode(b"l1:ai1eli2eee") {
        Ok(Some(Field::List(items))) => {
            assert_eq!(items.len(), 3);
            assert!(matches!(&items[0], Field::String(s) if s == b"a"));
            assert!(matches!(&items[1], Field::Integer(1)));
            match &items[2] {
                Field::List(inner) => {
                    assert_eq!(inner.len(), 1);
                    assert!(matches!(&inner[0], Field::Integer(2)));
                }
                _ => panic!("expected a list"),
            }
        }
        _ => panic!("expected a list"),
    }
    assert!(matches!(decode(b"l1:a"), Err(TorrentParserError::InvalidStructure(_))));
}

#[test]
fn dictionary_last_duplicate_wins() {
    match decode(b"d1:ai1e1:bi2e1:ai3ee") {
        Ok(Some(Field::Dict(entries))) => {
            assert!(matches!(dict_get(&entries, b"a"), Some(Field::Integer(3))));
            assert!(matches!(dict_get(&entries, b"b"), Some(Field::Integer(2))));
            assert!(dict_get(&entries, b"c").is_none());
        }
        _ => panic!("expected a dictionary"),
    }
}

#[test]
fn dictionary_key_must_be_text() {
    match decode(b"di1ei2ee") {
        Err(TorrentParserError::FieldTypeError { expected, found }) => {
            assert_eq!(expected, "String");
            assert_eq!(found, "Integer");
        }
        _ => panic!("expected a type error"),
    }
    assert!(matches!(decode(b"d1:\xffi1ee"), Err(TorrentParserError::InvalidUtf8(_))));
    assert!(matches!(decode(b"d1:ai1e"), Err(TorrentParserError::InvalidStructure(_))));
    assert!(matches!(decode(b"d1:ae"), Err(TorrentParserError::UnknownSpecifier(b'e'))));
}

#[test]
fn field_type_names() {
    assert_eq!(Field::String(vec![]).field_type(), "String");
    assert_eq!(Field::Integer(1).field_type(), "Integer");
    assert_eq!(Field::List(vec![]).field_type(), "List");
    assert_eq!(Field::Dict(vec![]).field_type(), "Dict");
}

#[test]
fn info_hash_of_span() {
    let doc = b"d8:announce3:url4:infod4:name1:x12:piece lengthi1eee".to_vec();
    let h = extract_info_hash(&doc).unwrap();
    assert_eq!(
        h,
        vec![199, 118, 39, 97, 187, 149, 76, 45, 28, 168, 99, 76, 210, 238, 246, 53, 190, 91, 148, 30]
    );
}

#[test]
fn info_hash_needs_marker_and_end() {
    assert!(matches!(
        extract_info_hash(&b"d3:fooi1ee".to_vec()),
        Err(TorrentParserError::InvalidStructure(_))
    ));
    assert!(matches!(
        extract_info_hash(&b"d4:infod4:nam".to_vec()),
        Err(TorrentParserError::InvalidStructure(_))
    ));
    assert!(matches!(
        extract_info_hash(&b"4:infod6:length".to_vec()),
        Err(TorrentParserError::InvalidStructure(_))
    ));
    assert!(matches!(
        extract_info_hash(&b"d4:infoi1ee".to_vec()),
        Err(TorrentParserError::InvalidStructure(_))
    ));
}

#[test]
fn nesting_depth_is_capped() {
    let mut ok = vec![b'l'; 256];
    ok.extend(vec![b'e'; 256]);
    assert!(matches!(decode(&ok), Ok(Some(Field::List(_)))));
    let mut deep = vec![b'l'; 257];
    deep.extend(vec![b'e'; 257]);
    assert!(matches!(decode(&deep), Err(TorrentParserError::InvalidStructure(_))));
}
