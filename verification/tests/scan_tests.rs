use query_filter::codec;
use query_filter::model::{Operator, QueryError};
use query_filter::scan::scan_collect;
use roaring::RoaringBitmap;

fn ids(b: &RoaringBitmap) -> Vec<u32> {
    b.iter().collect()
}

#[test]
fn scan_stops_outside_prefix() {
    let prefix = codec::index_key_prefix(1, 0, 4);
    let inside = codec::index_key(1, 0, 10, 4, &vec![3]);
    let outside = codec::index_key(1, 0, 11, 5, &vec![3]);
    let after_stop = codec::index_key(1, 0, 12, 4, &vec![3]);
    // The scan stops at the first key of another field; a matching key
    // after the stop is never reached.
    let keys = vec![inside, outside, after_stop];
    let r = scan_collect(&keys, &prefix, &vec![3], Operator::Equal).unwrap();
    assert_eq!(ids(&r.unwrap()), vec![10]);
}

#[test]
fn scan_collect_empty_returns_none() {
    let prefix = codec::index_key_prefix(1, 0, 4);
    let keys: Vec<Vec<u8>> = Vec::new();
    let r = scan_collect(&keys, &prefix, &vec![3], Operator::Equal).unwrap();
    assert!(r.is_none());

    // A visited key whose value fails the re-test leaves the result
    // empty, which is reported as None rather than an empty bitmap.
    let keys = vec![codec::index_key(1, 0, 10, 4, &vec![9])];
    let r = scan_collect(&keys, &prefix, &vec![3], Operator::Equal).unwrap();
    assert!(r.is_none());
}

#[test]
fn scan_collect_short_key_is_corruption() {
    let prefix = codec::index_key_prefix(1, 0, 4);
    let mut short_key = prefix.clone();
    short_key.push(3);
    let keys = vec![short_key];
    let r = scan_collect(&keys, &prefix, &vec![3], Operator::Equal);
    assert_eq!(r.unwrap_err(), QueryError::Corruption);
}
