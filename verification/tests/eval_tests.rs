use query_filter::codec;
use query_filter::eval::{filter, Evaluator, Event, Request, Step};
use query_filter::model::{Filter, Operator, QueryError, ResultSet};
use roaring::RoaringBitmap;

const ACCOUNT: u32 = 7;
const COLLECTION: u8 = 1;

fn bm(ids: &[u32]) -> RoaringBitmap {
    let mut b = RoaringBitmap::new();
    for &i in ids {
        b.insert(i);
    }
    b
}

fn ids(b: &RoaringBitmap) -> Vec<u32> {
    b.iter().collect()
}

/// In-memory stand-in for the storage collaborator: postings bitmaps by
/// key, sorted index keys for range scans, the universe bitmap, and a
/// whitespace tokenizer. Counts lookups so short-circuiting is
/// observable.
struct MemStore {
    postings: Vec<(Vec<u8>, RoaringBitmap)>,
    index: Vec<Vec<u8>>,
    universe: RoaringBitmap,
    resolve_calls: usize,
    universe_calls: usize,
    last_intersection_keys: usize,
}

impl MemStore {
    fn new(universe: &[u32]) -> MemStore {
        MemStore {
            postings: Vec::new(),
            index: Vec::new(),
            universe: bm(universe),
            resolve_calls: 0,
            universe_calls: 0,
            last_intersection_keys: 0,
        }
    }

    fn add_posting(&mut self, key: Vec<u8>, ids_: &[u32]) {
        self.postings.push((key, bm(ids_)));
    }

    fn add_index_value(&mut self, field: u8, value: &[u8], doc: u32) {
        self.index.push(codec::index_key(ACCOUNT, COLLECTION, doc, field, &value.to_vec()));
    }

    fn lookup(&self, key: &Vec<u8>) -> Option<RoaringBitmap> {
        self.postings.iter().find(|(k, _)| k == key).map(|(_, b)| b.clone())
    }

    fn run(&mut self, mut ev: Evaluator) -> Result<ResultSet, QueryError> {
        let universe_key = codec::document_ids_key(ACCOUNT, COLLECTION);
        let mut event = Event::Proceed;
        loop {
            match ev.step(event)? {
                Step::Continue => {
                    event = Event::Proceed;
                }
                Step::Done(rs) => return Ok(rs),
                Step::Need(req) => {
                    event = match req {
                        Request::GetBitmap(key) => {
                            if key == universe_key {
                                self.universe_calls += 1;
                                Event::Bitmap(Some(self.universe.clone()))
                            } else {
                                self.resolve_calls += 1;
                                Event::Bitmap(self.lookup(&key))
                            }
                        }
                        Request::GetIntersection(keys) => {
                            self.resolve_calls += 1;
                            self.last_intersection_keys = keys.len();
                            let mut result: Option<RoaringBitmap> = None;
                            let mut missing = false;
                            for k in &keys {
                                match self.lookup(k) {
                                    None => {
                                        missing = true;
                                        break;
                                    }
                                    Some(b) => {
                                        result = Some(match result {
                                            None => b,
                                            Some(mut acc) => {
                                                acc &= b;
                                                acc
                                            }
                                        });
                                    }
                                }
                            }
                            let result = if missing {
                                None
                            } else {
                                result.filter(|b| !b.is_empty())
                            };
                            Event::Bitmap(result)
                        }
                        Request::Scan(range) => {
                            self.resolve_calls += 1;
                            let mut ks: Vec<Vec<u8>> = self
                                .index
                                .iter()
                                .filter(|k| **k >= range.begin && **k < range.end)
                                .cloned()
                                .collect();
                            ks.sort();
                            Event::Keys(ks)
                        }
                        Request::Tokenize(text) => {
                            self.resolve_calls += 1;
                            Event::Tokens(
                                text.split_whitespace().map(|w| w.to_string()).collect(),
                            )
                        }
                    };
                }
            }
        }
    }
}

fn run_query(store: &mut MemStore, filters: Vec<Filter>) -> Result<ResultSet, QueryError> {
    store.run(filter(ACCOUNT, COLLECTION, filters))
}

#[test]
fn empty_filter_returns_universe() {
    let mut store = MemStore::new(&[1, 2, 3]);
    let rs = run_query(&mut store, vec![]).unwrap();
    assert_eq!(rs.account_id, ACCOUNT);
    assert_eq!(rs.collection, COLLECTION);
    assert_eq!(ids(&rs.results), vec![1, 2, 3]);
    assert_eq!(store.universe_calls, 1);
    assert_eq!(store.resolve_calls, 0);
}

#[test]
fn not_correctness() {
    let mut store = MemStore::new(&[1, 2, 3, 4, 5]);
    let rs = run_query(
        &mut store,
        vec![Filter::Not, Filter::DocumentSet(bm(&[1, 2])), Filter::End],
    )
    .unwrap();
    assert_eq!(ids(&rs.results), vec![3, 4, 5]);
}

#[test]
fn double_negation() {
    let mut store = MemStore::new(&[1, 2, 3, 4, 5]);
    let rs = run_query(
        &mut store,
        vec![
            Filter::Not,
            Filter::Not,
            Filter::DocumentSet(bm(&[2, 3])),
            Filter::End,
            Filter::End,
        ],
    )
    .unwrap();
    assert_eq!(ids(&rs.results), vec![2, 3]);
    assert_eq!(store.universe_calls, 1);
}

#[test]
fn nested_composition() {
    let mut store = MemStore::new(&[]);
    let rs = run_query(
        &mut store,
        vec![
            Filter::Or,
            Filter::DocumentSet(bm(&[1])),
            Filter::And,
            Filter::DocumentSet(bm(&[2, 3])),
            Filter::DocumentSet(bm(&[3, 4])),
            Filter::End,
            Filter::End,
        ],
    )
    .unwrap();
    assert_eq!(ids(&rs.results), vec![1, 3]);
    assert_eq!(store.universe_calls, 0);
}

#[test]
fn or_with_unresolvable_leaves() {
    let mut store = MemStore::new(&[1, 2, 3]);
    let rs = run_query(
        &mut store,
        vec![
            Filter::Or,
            Filter::InBitmap(vec![10]),
            Filter::InBitmap(vec![11]),
            Filter::End,
        ],
    )
    .unwrap();
    assert!(rs.results.is_empty());
    assert_eq!(store.resolve_calls, 2);
}

#[test]
fn and_none_short_circuits() {
    let mut store = MemStore::new(&[]);
    store.add_posting(codec::class_key(ACCOUNT, COLLECTION, &vec![1]), &[1, 2]);
    store.add_posting(codec::class_key(ACCOUNT, COLLECTION, &vec![3]), &[2]);
    // The middle class is unknown: its leaf resolves to None, the
    // implicit top-level And empties, and the third leaf is never
    // looked up.
    let rs = run_query(
        &mut store,
        vec![
            Filter::InBitmap(vec![1]),
            Filter::InBitmap(vec![2]),
            Filter::InBitmap(vec![3]),
        ],
    )
    .unwrap();
    assert!(rs.results.is_empty());
    assert_eq!(store.resolve_calls, 2);
}

#[test]
fn short_circuit_equivalence() {
    let class_a = vec![1u8];
    let class_b = vec![2u8];
    let class_c = vec![3u8];
    let full = vec![
        Filter::InBitmap(class_a.clone()),
        Filter::InBitmap(class_b.clone()),
        Filter::InBitmap(class_c.clone()),
    ];
    let truncated = vec![Filter::InBitmap(class_a.clone())];

    // The first class is unknown, so the And accumulator empties at the
    // first leaf and the remaining leaves cannot change the result.
    let mut store_full = MemStore::new(&[]);
    store_full.add_posting(codec::class_key(ACCOUNT, COLLECTION, &class_b), &[1]);
    store_full.add_posting(codec::class_key(ACCOUNT, COLLECTION, &class_c), &[2]);
    let rs_full = run_query(&mut store_full, full).unwrap();

    let mut store_short = MemStore::new(&[]);
    let rs_short = run_query(&mut store_short, truncated).unwrap();

    assert_eq!(ids(&rs_full.results), ids(&rs_short.results));
    // Only the leaf that emptied the accumulator was ever resolved.
    assert_eq!(store_full.resolve_calls, 1);
    assert_eq!(store_short.resolve_calls, 1);
}

#[test]
fn nested_scopes_skipped_whole() {
    // The dead And scope contains a nested Or with its own End; the
    // skip must count it, or the trailing DocumentSet({9}) would leak
    // into the outer Or.
    let mut store = MemStore::new(&[]);
    let rs = run_query(
        &mut store,
        vec![
            Filter::Or,
            Filter::DocumentSet(bm(&[1])),
            Filter::And,
            Filter::DocumentSet(bm(&[])),
            Filter::Or,
            Filter::DocumentSet(bm(&[5])),
            Filter::End,
            Filter::DocumentSet(bm(&[9])),
            Filter::End,
            Filter::End,
        ],
    )
    .unwrap();
    assert_eq!(ids(&rs.results), vec![1]);
}

fn populated_store() -> MemStore {
    let mut store = MemStore::new(&[]);
    store.add_index_value(2, &[1], 100);
    store.add_index_value(2, &[5], 101);
    store.add_index_value(2, &[10], 102);
    store
}

fn match_value(op: Operator, value: &[u8]) -> Vec<Filter> {
    vec![Filter::MatchValue {
        field: 2,
        op,
        value: value.to_vec(),
    }]
}

#[test]
fn range_scan_operators() {
    let mut store = populated_store();
    let rs = run_query(&mut store, match_value(Operator::Equal, &[5])).unwrap();
    assert_eq!(ids(&rs.results), vec![101]);

    let rs = run_query(&mut store, match_value(Operator::LowerThan, &[5])).unwrap();
    assert_eq!(ids(&rs.results), vec![100]);

    let rs = run_query(&mut store, match_value(Operator::LowerEqualThan, &[5])).unwrap();
    assert_eq!(ids(&rs.results), vec![100, 101]);

    let rs = run_query(&mut store, match_value(Operator::GreaterThan, &[5])).unwrap();
    assert_eq!(ids(&rs.results), vec![102]);

    let rs = run_query(&mut store, match_value(Operator::GreaterEqualThan, &[5])).unwrap();
    assert_eq!(ids(&rs.results), vec![101, 102]);
}

#[test]
fn range_scan_retests_true_comparison() {
    // A document id of 0xFFFFFFFF makes the key of value [1] fall
    // inside the coarse lexicographic range of GreaterThan([1, 1]);
    // only the re-test against the true comparison keeps it out.
    let mut store = MemStore::new(&[]);
    store.add_index_value(2, &[1], u32::MAX);
    store.add_index_value(2, &[1, 2], 200);
    store.add_index_value(2, &[5], 201);
    let rs = run_query(&mut store, match_value(Operator::GreaterThan, &[1, 1])).unwrap();
    assert_eq!(ids(&rs.results), vec![200, 201]);
}

#[test]
fn range_scan_corruption() {
    let mut store = populated_store();
    // A key with the right prefix but too short to carry the trailing
    // document id: corruption, surfaced as an error, never skipped.
    let mut short_key = codec::index_key_prefix(ACCOUNT, COLLECTION, 2);
    short_key.push(5);
    short_key.push(1);
    store.index.push(short_key);
    let err = run_query(&mut store, match_value(Operator::Equal, &[5])).unwrap_err();
    assert_eq!(err, QueryError::Corruption);
}

#[test]
fn text_leaf_direct_lookup() {
    let mut store = MemStore::new(&[]);
    store.add_posting(
        codec::text_token_key(ACCOUNT, COLLECTION, 3, "hello"),
        &[4, 5],
    );
    let rs = run_query(
        &mut store,
        vec![Filter::HasText {
            field: 3,
            text: "hello".to_string(),
            tokenize: false,
        }],
    )
    .unwrap();
    assert_eq!(ids(&rs.results), vec![4, 5]);
}

#[test]
fn text_leaf_tokenized_intersection() {
    let mut store = MemStore::new(&[]);
    store.add_posting(codec::text_token_key(ACCOUNT, COLLECTION, 3, "foo"), &[1, 2, 3]);
    store.add_posting(codec::text_token_key(ACCOUNT, COLLECTION, 3, "bar"), &[2, 3, 4]);
    let rs = run_query(
        &mut store,
        vec![Filter::HasText {
            field: 3,
            text: "foo bar foo".to_string(),
            tokenize: true,
        }],
    )
    .unwrap();
    assert_eq!(ids(&rs.results), vec![2, 3]);
    // "foo" appears twice but is deduplicated before the lookup.
    assert_eq!(store.last_intersection_keys, 2);
}

#[test]
fn text_leaf_no_terms() {
    let mut store = MemStore::new(&[]);
    let rs = run_query(
        &mut store,
        vec![Filter::HasText {
            field: 3,
            text: "".to_string(),
            tokenize: true,
        }],
    )
    .unwrap();
    assert!(rs.results.is_empty());
}

#[test]
fn in_bitmap_lookup() {
    let mut store = MemStore::new(&[]);
    store.add_posting(codec::class_key(ACCOUNT, COLLECTION, &vec![9, 9]), &[7, 8]);
    let rs = run_query(&mut store, vec![Filter::InBitmap(vec![9, 9])]).unwrap();
    assert_eq!(ids(&rs.results), vec![7, 8]);
}

#[test]
fn early_end_terminates() {
    let mut store = MemStore::new(&[1, 2]);
    let rs = run_query(&mut store, vec![Filter::End]).unwrap();
    assert!(rs.results.is_empty());
}

#[test]
fn unbalanced_stream_keeps_accumulator() {
    let mut store = MemStore::new(&[]);
    let rs = run_query(
        &mut store,
        vec![Filter::And, Filter::DocumentSet(bm(&[1]))],
    )
    .unwrap();
    assert_eq!(ids(&rs.results), vec![1]);
}

#[test]
fn universe_fetched_once() {
    let mut store = MemStore::new(&[1, 2, 3]);
    let rs = run_query(
        &mut store,
        vec![
            Filter::Not,
            Filter::DocumentSet(bm(&[1])),
            Filter::End,
            Filter::Not,
            Filter::DocumentSet(bm(&[3])),
            Filter::End,
        ],
    )
    .unwrap();
    // Not({1}) gives {2,3}; And with Not({3}) = {1,2} gives {2}.
    assert_eq!(ids(&rs.results), vec![2]);
    assert_eq!(store.universe_calls, 1);
}
