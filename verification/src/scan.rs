//! Range scanner: resolves a `MatchValue` leaf to an optional bitmap of
//! document ids.
//!
//! The scanner builds a half-open `[begin, end)` key range for the
//! operator, and the caller performs an ascending key-only iteration over
//! it. The visited keys come back here: each is re-tested against the
//! true comparison — the range is only a coarse lexicographic bound for
//! multi-byte values — and matching document ids are collected.

use vstd::prelude::*;

use roaring::RoaringBitmap;

use crate::bitmap::bitmap_insert;
use crate::bitmap::bitmap_is_empty;
use crate::bitmap::bitmap_new;
use crate::bitmap::bitmap_set;
use crate::bytes::ByteCmp;
use crate::bytes::copy_range;
use crate::bytes::has_prefix;
use crate::bytes::lex_compare;
use crate::bytes::lex_lt;
use crate::bytes::starts_with;
use crate::codec::U32_LEN;
use crate::codec::be_u32_value;
use crate::codec::decode_document_id;
use crate::codec::index_key;
use crate::codec::index_key_bytes;
use crate::model::Operator;
use crate::model::QueryError;

verus! {

/// Whether a candidate value truly satisfies the comparison against the
/// target, in byte-string lexicographic order.
pub open spec fn spec_value_matches(value: Seq<u8>, op: Operator, target: Seq<u8>) -> bool {
    match op {
        Operator::LowerThan => lex_lt(value, target),
        Operator::LowerEqualThan => lex_lt(value, target) || value == target,
        Operator::GreaterThan => lex_lt(target, value),
        Operator::GreaterEqualThan => lex_lt(target, value) || value == target,
        Operator::Equal => value == target,
    }
}

/// Re-tests a candidate value against the operator and target.
pub fn value_matches(value: &Vec<u8>, op: Operator, target: &Vec<u8>) -> (r: bool)
    ensures
        r == spec_value_matches(value@, op, target@),
{
    let c = lex_compare(value, target);
    match op {
        Operator::LowerThan => matches!(c, ByteCmp::Lt),
        Operator::LowerEqualThan => matches!(c, ByteCmp::Lt) || matches!(c, ByteCmp::Eq),
        Operator::GreaterThan => matches!(c, ByteCmp::Gt),
        Operator::GreaterEqualThan => matches!(c, ByteCmp::Gt) || matches!(c, ByteCmp::Eq),
        Operator::Equal => matches!(c, ByteCmp::Eq),
    }
}

/// Begin key of the scan range for one operator; the document id is 0 or
/// the maximum sentinel so the range covers every document holding a
/// qualifying value.
pub open spec fn scan_begin_bytes(
    account_id: u32,
    collection: u8,
    field: u8,
    target: Seq<u8>,
    op: Operator,
) -> Seq<u8> {
    match op {
        Operator::LowerThan => index_key_bytes(account_id, collection, 0, field, Seq::empty()),
        Operator::LowerEqualThan => index_key_bytes(
            account_id,
            collection,
            0,
            field,
            Seq::empty(),
        ),
        Operator::GreaterThan => index_key_bytes(account_id, collection, u32::MAX, field, target),
        Operator::GreaterEqualThan => index_key_bytes(account_id, collection, 0, field, target),
        Operator::Equal => index_key_bytes(account_id, collection, 0, field, target),
    }
}

/// End key (exclusive) of the scan range for one operator.
pub open spec fn scan_end_bytes(
    account_id: u32,
    collection: u8,
    field: u8,
    target: Seq<u8>,
    op: Operator,
) -> Seq<u8>
    recommends
        (op == Operator::GreaterThan || op == Operator::GreaterEqualThan) ==> field < 255,
{
    match op {
        Operator::LowerThan => index_key_bytes(account_id, collection, 0, field, target),
        Operator::LowerEqualThan => index_key_bytes(account_id, collection, u32::MAX, field, target),
        Operator::GreaterThan => index_key_bytes(
            account_id,
            collection,
            u32::MAX,
            (field + 1) as u8,
            Seq::empty(),
        ),
        Operator::GreaterEqualThan => index_key_bytes(
            account_id,
            collection,
            u32::MAX,
            (field + 1) as u8,
            Seq::empty(),
        ),
        Operator::Equal => index_key_bytes(account_id, collection, u32::MAX, field, target),
    }
}

/// A half-open `[begin, end)` key range for an ascending iteration.
pub struct ScanRange {
    pub begin: Vec<u8>,
    pub end: Vec<u8>,
}

/// Builds the scan range of one `MatchValue` leaf. The greater-than
/// operators bound the range by the next field's key space, so their
/// field must leave room for a successor.
pub fn scan_range(
    account_id: u32,
    collection: u8,
    field: u8,
    target: &Vec<u8>,
    op: Operator,
) -> (r: ScanRange)
    requires
        (op == Operator::GreaterThan || op == Operator::GreaterEqualThan) ==> field < 255,
    ensures
        r.begin@ == scan_begin_bytes(account_id, collection, field, target@, op),
        r.end@ == scan_end_bytes(account_id, collection, field, target@, op),
{
    let no_value: Vec<u8> = Vec::new();
    proof {
        assert(no_value@ =~= Seq::<u8>::empty());
    }
    match op {
        Operator::LowerThan => ScanRange {
            begin: index_key(account_id, collection, 0, field, &no_value),
            end: index_key(account_id, collection, 0, field, target),
        },
        Operator::LowerEqualThan => ScanRange {
            begin: index_key(account_id, collection, 0, field, &no_value),
            end: index_key(account_id, collection, u32::MAX, field, target),
        },
        Operator::GreaterThan => ScanRange {
            begin: index_key(account_id, collection, u32::MAX, field, target),
            end: index_key(account_id, collection, u32::MAX, field + 1, &no_value),
        },
        Operator::GreaterEqualThan => ScanRange {
            begin: index_key(account_id, collection, 0, field, target),
            end: index_key(account_id, collection, u32::MAX, field + 1, &no_value),
        },
        Operator::Equal => ScanRange {
            begin: index_key(account_id, collection, 0, field, target),
            end: index_key(account_id, collection, u32::MAX, field, target),
        },
    }
}

/// Result of processing the visited keys from index `i` on: stop at the
/// first key outside the field's prefix, reject a key too short to carry
/// the document-id suffix as corruption, and keep the ids of keys whose
/// value truly matches.
pub open spec fn scan_result_from(
    keys: Seq<Seq<u8>>,
    prefix: Seq<u8>,
    target: Seq<u8>,
    op: Operator,
    i: int,
) -> Result<Set<u32>, QueryError>
    decreases keys.len() - i,
{
    if i < 0 || i >= keys.len() {
        Ok(Set::empty())
    } else {
        let k = keys[i];
        if !has_prefix(k, prefix) {
            Ok(Set::empty())
        } else if k.len() < prefix.len() + U32_LEN {
            Err(QueryError::Corruption)
        } else {
            match scan_result_from(keys, prefix, target, op, i + 1) {
                Ok(rest) => {
                    let value = k.subrange(prefix.len() as int, k.len() - U32_LEN);
                    let id = be_u32_value(k.subrange(k.len() - U32_LEN, k.len() as int));
                    Ok(
                        if spec_value_matches(value, op, target) {
                            rest.insert(id)
                        } else {
                            rest
                        },
                    )
                },
                Err(e) => Err(e),
            }
        }
    }
}

/// Result of a whole scan over the visited keys.
pub open spec fn scan_result(
    keys: Seq<Seq<u8>>,
    prefix: Seq<u8>,
    target: Seq<u8>,
    op: Operator,
) -> Result<Set<u32>, QueryError> {
    scan_result_from(keys, prefix, target, op, 0)
}

/// Filters the keys an ascending iteration visited and collects the
/// matching document ids. Returns `Ok(None)` for an empty result, so the
/// evaluator can represent "no matches" without allocating an empty
/// bitmap.
pub fn scan_collect(
    keys: &Vec<Vec<u8>>,
    prefix: &Vec<u8>,
    target: &Vec<u8>,
    op: Operator,
) -> (r: Result<Option<RoaringBitmap>, QueryError>)
    ensures
        ({
            let sr = scan_result(keys.deep_view(), prefix@, target@, op);
            match r {
                Ok(opt) => sr is Ok && (match opt {
                    Some(b) => bitmap_set(b) == sr->Ok_0 && bitmap_set(b) != Set::<u32>::empty(),
                    None => sr->Ok_0 == Set::<u32>::empty(),
                }),
                Err(e) => sr == Err::<Set<u32>, QueryError>(e),
            }
        }),
{
    let ghost kseq = keys.deep_view();
    let ghost total = scan_result_from(kseq, prefix@, target@, op, 0);
    let mut bm = bitmap_new();
    let mut i: usize = 0;
    let mut stopped = false;
    proof {
        if total is Ok {
            assert(bitmap_set(bm).union(total->Ok_0) =~= total->Ok_0);
        }
    }
    while i < keys.len() && !stopped
        invariant
            i <= keys@.len(),
            kseq == keys.deep_view(),
            total == scan_result_from(kseq, prefix@, target@, op, 0),
            !stopped ==> total == (match scan_result_from(kseq, prefix@, target@, op, i as int) {
                Ok(rest) => Ok::<Set<u32>, QueryError>(bitmap_set(bm).union(rest)),
                Err(e) => Err::<Set<u32>, QueryError>(e),
            }),
            stopped ==> total == Ok::<Set<u32>, QueryError>(bitmap_set(bm)),
        decreases keys@.len() - i + (if stopped { 0int } else { 1int }),
    {
        let key = &keys[i];
        assert(kseq[i as int] == key@);
        if !starts_with(key, prefix) {
            proof {
                assert(scan_result_from(kseq, prefix@, target@, op, i as int) == Ok::<
                    Set<u32>,
                    QueryError,
                >(Set::<u32>::empty()));
                assert(bitmap_set(bm).union(Set::<u32>::empty()) =~= bitmap_set(bm));
            }
            stopped = true;
        } else {
            if key.len() - prefix.len() < U32_LEN {
                assert(scan_result_from(kseq, prefix@, target@, op, i as int) == Err::<
                    Set<u32>,
                    QueryError,
                >(QueryError::Corruption));
                return Err(QueryError::Corruption);
            }
            let id_pos = key.len() - U32_LEN;
            let value = copy_range(key, prefix.len(), id_pos);
            let id = match decode_document_id(key) {
                Ok(id) => id,
                Err(_) => {
                    proof {
                        assert(false);
                    }
                    0
                },
            };
            let ghost rest_case = scan_result_from(kseq, prefix@, target@, op, i + 1);
            if value_matches(&value, op, target) {
                let ghost before = bitmap_set(bm);
                bitmap_insert(&mut bm, id);
                proof {
                    if rest_case is Ok {
                        let rest = rest_case->Ok_0;
                        assert(before.union(rest.insert(id)) =~= bitmap_set(bm).union(rest));
                    }
                }
            }
            i = i + 1;
        }
    }
    if !stopped {
        proof {
            assert(scan_result_from(kseq, prefix@, target@, op, i as int) == Ok::<
                Set<u32>,
                QueryError,
            >(Set::<u32>::empty()));
            assert(bitmap_set(bm).union(Set::<u32>::empty()) =~= bitmap_set(bm));
        }
    }
    assert(total == Ok::<Set<u32>, QueryError>(bitmap_set(bm)));
    if bitmap_is_empty(&bm) {
        Ok(None)
    } else {
        Ok(Some(bm))
    }
}

} // verus!
