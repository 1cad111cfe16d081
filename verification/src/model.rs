//! Data model of a query: filter tokens, comparison operators, the result
//! set, and the error kind that evaluation itself can raise.

use vstd::prelude::*;

use roaring::RoaringBitmap;

use crate::bitmap::bitmap_clone;
use crate::bitmap::bitmap_set;
use crate::bytes::clone_bytes;

verus! {

/// Comparison operator of a `MatchValue` leaf; values are compared as
/// byte strings in lexicographic order.
#[derive(Clone, Copy, PartialEq, Eq, Structural, Debug)]
pub enum Operator {
    LowerThan,
    LowerEqualThan,
    GreaterThan,
    GreaterEqualThan,
    Equal,
}

/// The one error that originates inside the evaluator: a key met during a
/// range scan is shorter than the fixed trailing document-id width.
/// Storage failures stay with the caller that performs the lookups; it
/// aborts the evaluation instead of feeding an event back.
#[derive(Clone, Copy, PartialEq, Eq, Structural, Debug)]
pub enum QueryError {
    Corruption,
}

/// One token of the flattened filter stream. A query is a flat sequence
/// of tokens standing for a tree: `And`/`Or`/`Not` open a scope, `End`
/// closes it, every other token is a leaf.
pub enum Filter {
    /// Equality or range comparison on an indexed field.
    MatchValue { field: u8, op: Operator, value: Vec<u8> },
    /// Full-text term match; with `tokenize` the text is split into terms
    /// by the external tokenizer and the postings of all terms are
    /// intersected.
    HasText { field: u8, text: String, tokenize: bool },
    /// Direct postings-bitmap lookup by an opaque class key.
    InBitmap(Vec<u8>),
    /// A literal set of document ids supplied by the caller.
    DocumentSet(RoaringBitmap),
    And,
    Or,
    Not,
    End,
}

/// Mathematical shadow of a filter token.
pub ghost enum AFilter {
    MatchValue { field: u8, op: Operator, value: Seq<u8> },
    HasText { field: u8, text: Seq<char>, tokenize: bool },
    InBitmap(Seq<u8>),
    DocumentSet(Set<u32>),
    And,
    Or,
    Not,
    End,
}

impl View for Filter {
    type V = AFilter;

    open spec fn view(&self) -> AFilter {
        match self {
            Filter::MatchValue { field, op, value } => AFilter::MatchValue {
                field: *field,
                op: *op,
                value: value@,
            },
            Filter::HasText { field, text, tokenize } => AFilter::HasText {
                field: *field,
                text: text@,
                tokenize: *tokenize,
            },
            Filter::InBitmap(class) => AFilter::InBitmap(class@),
            Filter::DocumentSet(set) => AFilter::DocumentSet(bitmap_set(*set)),
            Filter::And => AFilter::And,
            Filter::Or => AFilter::Or,
            Filter::Not => AFilter::Not,
            Filter::End => AFilter::End,
        }
    }
}

impl DeepView for Filter {
    type V = AFilter;

    open spec fn deep_view(&self) -> AFilter {
        self.view()
    }
}

impl Filter {
    /// An identical copy of one token, letting the evaluator read the
    /// stream while it mutates the rest of its state.
    pub fn duplicate(&self) -> (r: Filter)
        ensures
            r@ == self@,
    {
        match self {
            Filter::MatchValue { field, op, value } => Filter::MatchValue {
                field: *field,
                op: *op,
                value: clone_bytes(value),
            },
            Filter::HasText { field, text, tokenize } => Filter::HasText {
                field: *field,
                text: text.clone(),
                tokenize: *tokenize,
            },
            Filter::InBitmap(class) => Filter::InBitmap(clone_bytes(class)),
            Filter::DocumentSet(set) => Filter::DocumentSet(bitmap_clone(set)),
            Filter::And => Filter::And,
            Filter::Or => Filter::Or,
            Filter::Not => Filter::Not,
            Filter::End => Filter::End,
        }
    }
}

/// The set of documents matching a query, for one account and collection.
/// Callers must treat `results` as a set: membership is the contract,
/// not order.
#[derive(Debug)]
pub struct ResultSet {
    pub account_id: u32,
    pub collection: u8,
    pub results: RoaringBitmap,
}

/// Mathematical shadow of a result set.
pub ghost struct AResultSet {
    pub account_id: u32,
    pub collection: u8,
    pub results: Set<u32>,
}

impl View for ResultSet {
    type V = AResultSet;

    open spec fn view(&self) -> AResultSet {
        AResultSet {
            account_id: self.account_id,
            collection: self.collection,
            results: bitmap_set(self.results),
        }
    }
}

} // verus!
