//! Sortable binary key codec.
//!
//! Index keys order by bytes exactly as they order by
//! (account, collection, field, value, document id): a fixed six-byte
//! prefix, the raw value bytes, and a fixed-width big-endian document-id
//! suffix. Postings-bitmap keys carry a tag byte telling the key family
//! apart and end in the document-block byte, block 0.

use vstd::prelude::*;

use vstd::string::StrSliceExecFns;
use vstd::string::StringSliceAdditionalSpecFns;
use vstd::utf8::encode_utf8;

use crate::model::QueryError;

verus! {

/// Width in bytes of the fixed big-endian document-id suffix of an index
/// key.
pub const U32_LEN: usize = 4;

/// Length of the fixed (account, collection, field) prefix of an index
/// key.
pub const INDEX_PREFIX_LEN: usize = 6;

/// Big-endian bytes of a 32-bit integer.
pub open spec fn u32_be_bytes(x: u32) -> Seq<u8> {
    seq![
        (x / 0x1000000) as u8,
        ((x / 0x10000) % 0x100) as u8,
        ((x / 0x100) % 0x100) as u8,
        (x % 0x100) as u8,
    ]
}

/// The 32-bit value read from four big-endian bytes.
pub open spec fn be_u32_value(s: Seq<u8>) -> u32
    recommends
        s.len() == U32_LEN,
{
    ((s[0] as int) * 0x1000000 + (s[1] as int) * 0x10000 + (s[2] as int) * 0x100 + (
    s[3] as int)) as u32
}

/// Appends the big-endian bytes of `x`.
pub fn push_u32_be(out: &mut Vec<u8>, x: u32)
    ensures
        final(out)@ == old(out)@ + u32_be_bytes(x),
{
    out.push((x / 0x1000000) as u8);
    out.push(((x / 0x10000) % 0x100) as u8);
    out.push(((x / 0x100) % 0x100) as u8);
    out.push((x % 0x100) as u8);
    assert(out@ =~= old(out)@ + u32_be_bytes(x));
}

/// Byte prefix shared by every index key of one (account, collection,
/// field); bounds range scans and detects when an iteration has left the
/// field's key space.
pub open spec fn index_key_prefix_bytes(account_id: u32, collection: u8, field: u8) -> Seq<u8> {
    u32_be_bytes(account_id) + seq![collection, field]
}

/// Builds the (account, collection, field) index-key prefix.
pub fn index_key_prefix(account_id: u32, collection: u8, field: u8) -> (r: Vec<u8>)
    ensures
        r@ == index_key_prefix_bytes(account_id, collection, field),
        r@.len() == INDEX_PREFIX_LEN,
{
    let mut r: Vec<u8> = Vec::new();
    push_u32_be(&mut r, account_id);
    r.push(collection);
    r.push(field);
    assert(r@ =~= index_key_prefix_bytes(account_id, collection, field));
    r
}

/// Bytes of a whole index key: prefix, value bytes, then the big-endian
/// document id.
pub open spec fn index_key_bytes(
    account_id: u32,
    collection: u8,
    document_id: u32,
    field: u8,
    value: Seq<u8>,
) -> Seq<u8> {
    index_key_prefix_bytes(account_id, collection, field) + value + u32_be_bytes(document_id)
}

/// Builds a whole index key.
pub fn index_key(
    account_id: u32,
    collection: u8,
    document_id: u32,
    field: u8,
    value: &Vec<u8>,
) -> (r: Vec<u8>)
    ensures
        r@ == index_key_bytes(account_id, collection, document_id, field, value@),
{
    let mut r = index_key_prefix(account_id, collection, field);
    let mut i: usize = 0;
    while i < value.len()
        invariant
            i <= value@.len(),
            r@ == index_key_prefix_bytes(account_id, collection, field) + value@.take(i as int),
        decreases value@.len() - i,
    {
        r.push(value[i]);
        assert(r@ =~= index_key_prefix_bytes(account_id, collection, field) + value@.take(i + 1));
        i = i + 1;
    }
    assert(value@.take(value@.len() as int) =~= value@);
    push_u32_be(&mut r, document_id);
    assert(r@ =~= index_key_bytes(account_id, collection, document_id, field, value@));
    r
}

/// Recovers the trailing document id of an index key. A key shorter than
/// the fixed suffix width is a corruption signal, never silently skipped.
pub fn decode_document_id(key: &Vec<u8>) -> (r: Result<u32, QueryError>)
    ensures
        match r {
            Ok(id) => key@.len() >= U32_LEN && id == be_u32_value(
                key@.subrange(key@.len() - U32_LEN, key@.len() as int),
            ),
            Err(e) => key@.len() < U32_LEN && e == QueryError::Corruption,
        },
{
    if key.len() < U32_LEN {
        return Err(QueryError::Corruption);
    }
    let p = key.len() - U32_LEN;
    let b0 = key[p];
    let b1 = key[p + 1];
    let b2 = key[p + 2];
    let b3 = key[p + 3];
    let id: u32 = (b0 as u32) * 0x1000000 + (b1 as u32) * 0x10000 + (b2 as u32) * 0x100 + (
    b3 as u32);
    proof {
        let s = key@.subrange(key@.len() - U32_LEN, key@.len() as int);
        assert(s[0] == key@[p as int]);
        assert(s[1] == key@[p + 1]);
        assert(s[2] == key@[p + 2]);
        assert(s[3] == key@[p + 3]);
    }
    Ok(id)
}

/// Postings key holding the ids of all documents of an account and
/// collection: the universe bitmap's well-known key.
pub open spec fn document_ids_key_bytes(account_id: u32, collection: u8) -> Seq<u8> {
    u32_be_bytes(account_id) + seq![collection, 0u8, 0u8]
}

/// Builds the universe-bitmap key.
pub fn document_ids_key(account_id: u32, collection: u8) -> (r: Vec<u8>)
    ensures
        r@ == document_ids_key_bytes(account_id, collection),
{
    let mut r: Vec<u8> = Vec::new();
    push_u32_be(&mut r, account_id);
    r.push(collection);
    r.push(0u8);
    r.push(0u8);
    assert(r@ =~= document_ids_key_bytes(account_id, collection));
    r
}

/// Postings key of one full-text term on one field, document block 0.
pub open spec fn text_token_key_bytes(
    account_id: u32,
    collection: u8,
    field: u8,
    token: Seq<char>,
) -> Seq<u8> {
    u32_be_bytes(account_id) + seq![collection, 1u8, field] + encode_utf8(token) + seq![0u8]
}

/// Builds the postings key of one full-text term.
pub fn text_token_key(account_id: u32, collection: u8, field: u8, token: &str) -> (r: Vec<u8>)
    ensures
        r@ == text_token_key_bytes(account_id, collection, field, token@),
{
    let mut r: Vec<u8> = Vec::new();
    push_u32_be(&mut r, account_id);
    r.push(collection);
    r.push(1u8);
    r.push(field);
    let mut bs = token.as_bytes_vec();
    r.append(&mut bs);
    r.push(0u8);
    assert(r@ =~= text_token_key_bytes(account_id, collection, field, token@));
    r
}

/// Postings key of an opaque class descriptor, document block 0.
pub open spec fn class_key_bytes(account_id: u32, collection: u8, class: Seq<u8>) -> Seq<u8> {
    u32_be_bytes(account_id) + seq![collection, 2u8] + class + seq![0u8]
}

/// Builds the postings key of an opaque class descriptor.
pub fn class_key(account_id: u32, collection: u8, class: &Vec<u8>) -> (r: Vec<u8>)
    ensures
        r@ == class_key_bytes(account_id, collection, class@),
{
    let mut r: Vec<u8> = Vec::new();
    push_u32_be(&mut r, account_id);
    r.push(collection);
    r.push(2u8);
    let mut i: usize = 0;
    while i < class.len()
        invariant
            i <= class@.len(),
            r@ == u32_be_bytes(account_id) + seq![collection, 2u8] + class@.take(i as int),
        decreases class@.len() - i,
    {
        r.push(class[i]);
        assert(r@ =~= u32_be_bytes(account_id) + seq![collection, 2u8] + class@.take(i + 1));
        i = i + 1;
    }
    assert(class@.take(class@.len() as int) =~= class@);
    r.push(0u8);
    assert(r@ =~= class_key_bytes(account_id, collection, class@));
    r
}

} // verus!
