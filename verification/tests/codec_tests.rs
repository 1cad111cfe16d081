use query_filter::codec;
use query_filter::model::{Operator, QueryError};
use query_filter::scan::value_matches;

#[test]
fn index_key_layout() {
    let key = codec::index_key(0x01020304, 9, 0x0A0B0C0D, 2, &vec![0x55, 0x66]);
    assert_eq!(
        key,
        vec![0x01, 0x02, 0x03, 0x04, 9, 2, 0x55, 0x66, 0x0A, 0x0B, 0x0C, 0x0D]
    );
    let prefix = codec::index_key_prefix(0x01020304, 9, 2);
    assert_eq!(prefix, vec![0x01, 0x02, 0x03, 0x04, 9, 2]);
    assert!(key.starts_with(&prefix));
}

#[test]
fn document_id_decode_roundtrip() {
    for &doc in &[0u32, 1, 255, 0xDEADBEEF, u32::MAX] {
        let key = codec::index_key(7, 1, doc, 2, &vec![1, 2, 3]);
        assert_eq!(codec::decode_document_id(&key), Ok(doc));
    }
}

#[test]
fn document_id_decode_short_key() {
    assert_eq!(
        codec::decode_document_id(&vec![1, 2, 3]),
        Err(QueryError::Corruption)
    );
    assert_eq!(codec::decode_document_id(&vec![0, 0, 1, 0]), Ok(256));
}

#[test]
fn bitmap_key_layouts() {
    let universe = codec::document_ids_key(0x01000000, 3);
    assert_eq!(universe, vec![1, 0, 0, 0, 3, 0, 0]);

    let token = codec::text_token_key(0x01000000, 3, 5, "hi");
    assert_eq!(token, vec![1, 0, 0, 0, 3, 1, 5, b'h', b'i', 0]);

    let class = codec::class_key(0x01000000, 3, &vec![0xAA]);
    assert_eq!(class, vec![1, 0, 0, 0, 3, 2, 0xAA, 0]);

    // The three key families never collide.
    assert_ne!(universe, token);
    assert_ne!(universe, class);
    assert_ne!(token, class);
}

#[test]
fn value_matches_lexicographic() {
    let one = vec![1u8];
    let one_zero = vec![1u8, 0];
    let two = vec![2u8];

    assert!(value_matches(&one, Operator::LowerThan, &one_zero));
    assert!(!value_matches(&one_zero, Operator::LowerThan, &one));
    assert!(value_matches(&one_zero, Operator::GreaterThan, &one));
    assert!(value_matches(&one, Operator::LowerThan, &two));
    assert!(value_matches(&one, Operator::LowerEqualThan, &one));
    assert!(!value_matches(&one, Operator::GreaterThan, &one));
    assert!(value_matches(&one, Operator::GreaterEqualThan, &one));
    assert!(value_matches(&two, Operator::GreaterEqualThan, &one_zero));
    assert!(value_matches(&one, Operator::Equal, &one));
    assert!(!value_matches(&one, Operator::Equal, &one_zero));
}
