//! Boolean evaluator: a resumable state machine over the flattened
//! filter stream.
//!
//! The machine keeps a stack of per-scope accumulator frames and combines
//! each resolved leaf into the active frame with the scope's set
//! operation. Whenever a leaf needs data — a postings lookup, a range
//! scan, the external tokenizer, or the lazily fetched universe bitmap of
//! a `Not` scope — [`Evaluator::step`] returns a [`Request`] and the
//! caller answers with the matching [`Event`]. Every transition equals
//! the specification machine [`astep`], so everything the evaluator
//! decides is pinned: which request follows which token, how frames
//! change, and when an empty `And` accumulator makes the machine skip the
//! rest of its scope without resolving anything.

use vstd::prelude::*;

use roaring::RoaringBitmap;

use crate::bitmap::bitmap_and_assign;
use crate::bitmap::bitmap_clone;
use crate::bitmap::bitmap_is_empty;
use crate::bitmap::bitmap_new;
use crate::bitmap::bitmap_or_assign;
use crate::bitmap::bitmap_set;
use crate::bitmap::bitmap_xor_assign;
use crate::bitmap::set_xor;
use crate::codec::class_key;
use crate::codec::class_key_bytes;
use crate::codec::document_ids_key;
use crate::codec::document_ids_key_bytes;
use crate::codec::index_key_prefix;
use crate::codec::index_key_prefix_bytes;
use crate::codec::text_token_key;
use crate::codec::text_token_key_bytes;
use crate::model::AFilter;
use crate::model::AResultSet;
use crate::model::Filter;
use crate::model::Operator;
use crate::model::QueryError;
use crate::model::ResultSet;
use crate::scan::ScanRange;
use crate::scan::scan_begin_bytes;
use crate::scan::scan_collect;
use crate::scan::scan_end_bytes;
use crate::scan::scan_range;
use crate::scan::scan_result;

verus! {

/// Scope operator of one frame.
#[derive(Clone, Copy, PartialEq, Eq, Structural, Debug)]
pub enum ScopeOp {
    And,
    Or,
    Not,
}

/// One evaluation scope: its operator and its optional accumulator.
/// The accumulator stays `None` until the first leaf of the scope is
/// combined; `None` and "empty bitmap" are distinct only transiently.
pub struct Frame {
    pub op: ScopeOp,
    pub bm: Option<RoaringBitmap>,
}

/// Contents of an optional bitmap.
pub open spec fn obm(o: Option<RoaringBitmap>) -> Option<Set<u32>> {
    match o {
        Some(b) => Some(bitmap_set(b)),
        None => None,
    }
}

/// The accumulated set, or the empty set for a scope that never combined
/// a leaf.
pub open spec fn acc_or_empty(acc: Option<Set<u32>>) -> Set<u32> {
    match acc {
        Some(s) => s,
        None => Set::empty(),
    }
}

/// Mathematical shadow of a frame.
#[verifier::ext_equal]
pub ghost struct AFrame {
    pub op: ScopeOp,
    pub acc: Option<Set<u32>>,
}

impl View for Frame {
    type V = AFrame;

    open spec fn view(&self) -> AFrame {
        AFrame { op: self.op, acc: obm(self.bm) }
    }
}

impl DeepView for Frame {
    type V = AFrame;

    open spec fn deep_view(&self) -> AFrame {
        self.view()
    }
}

/// What the evaluator is doing between two steps.
pub enum Phase {
    /// The next token of the stream is to be processed.
    Ready,
    /// The stream is empty: the whole query resolves to the universe.
    EmptyQuery,
    /// Waiting for the universe bitmap that answers an empty query.
    AwaitWholeUniverse,
    /// Waiting for a single postings lookup of the current leaf.
    AwaitBitmap,
    /// Waiting for the intersection of the term postings of a tokenized
    /// text leaf.
    AwaitIntersection,
    /// Waiting for the external tokenizer's terms of a text leaf.
    AwaitTokens { field: u8 },
    /// Waiting for the keys visited by an ascending range scan.
    AwaitScan { field: u8, op: Operator, value: Vec<u8> },
    /// Waiting for the lazily fetched universe bitmap of a `Not` scope,
    /// holding the leaf result that is about to be combined.
    AwaitUniverse { pending: Option<RoaringBitmap> },
    /// An empty `And` accumulator short-circuits: the rest of its scope
    /// is consumed without resolving anything, counting nested scopes.
    Skipping { depth: usize },
    /// The query produced its result.
    Finished,
    /// A corrupted index key aborted the evaluation.
    Failed,
}

/// Mathematical shadow of a phase.
#[verifier::ext_equal]
pub ghost enum APhase {
    Ready,
    EmptyQuery,
    AwaitWholeUniverse,
    AwaitBitmap,
    AwaitIntersection,
    AwaitTokens { field: u8 },
    AwaitScan { field: u8, op: Operator, value: Seq<u8> },
    AwaitUniverse { pending: Option<Set<u32>> },
    Skipping { depth: int },
    Finished,
    Failed,
}

impl View for Phase {
    type V = APhase;

    open spec fn view(&self) -> APhase {
        match self {
            Phase::Ready => APhase::Ready,
            Phase::EmptyQuery => APhase::EmptyQuery,
            Phase::AwaitWholeUniverse => APhase::AwaitWholeUniverse,
            Phase::AwaitBitmap => APhase::AwaitBitmap,
            Phase::AwaitIntersection => APhase::AwaitIntersection,
            Phase::AwaitTokens { field } => APhase::AwaitTokens { field: *field },
            Phase::AwaitScan { field, op, value } => APhase::AwaitScan {
                field: *field,
                op: *op,
                value: value@,
            },
            Phase::AwaitUniverse { pending } => APhase::AwaitUniverse { pending: obm(*pending) },
            Phase::Skipping { depth } => APhase::Skipping { depth: *depth as int },
            Phase::Finished => APhase::Finished,
            Phase::Failed => APhase::Failed,
        }
    }
}

/// A lookup the caller must perform before the machine can go on.
pub enum Request {
    /// Single postings or document-set lookup by key.
    GetBitmap(Vec<u8>),
    /// Intersection of several postings lookups; `None` when a term is
    /// missing or the intersection is empty.
    GetIntersection(Vec<Vec<u8>>),
    /// Ascending, key-only iteration over the half-open range.
    Scan(ScanRange),
    /// Split the text into terms with the external tokenizer.
    Tokenize(String),
}

/// Mathematical shadow of a request.
#[verifier::ext_equal]
pub ghost enum ARequest {
    GetBitmap(Seq<u8>),
    GetIntersection(Seq<Seq<u8>>),
    Scan { begin: Seq<u8>, end: Seq<u8> },
    Tokenize(Seq<char>),
}

impl View for Request {
    type V = ARequest;

    open spec fn view(&self) -> ARequest {
        match self {
            Request::GetBitmap(key) => ARequest::GetBitmap(key@),
            Request::GetIntersection(keys) => ARequest::GetIntersection(keys.deep_view()),
            Request::Scan(range) => ARequest::Scan { begin: range.begin@, end: range.end@ },
            Request::Tokenize(text) => ARequest::Tokenize(text@),
        }
    }
}

/// The caller's input to one step: the answer to the previous request,
/// or `Proceed` when nothing was asked.
pub enum Event {
    Proceed,
    Bitmap(Option<RoaringBitmap>),
    Keys(Vec<Vec<u8>>),
    Tokens(Vec<String>),
}

/// Mathematical shadow of an event.
#[verifier::ext_equal]
pub ghost enum AEvent {
    Proceed,
    Bitmap(Option<Set<u32>>),
    Keys(Seq<Seq<u8>>),
    Tokens(Seq<Seq<char>>),
}

impl View for Event {
    type V = AEvent;

    open spec fn view(&self) -> AEvent {
        match self {
            Event::Proceed => AEvent::Proceed,
            Event::Bitmap(o) => AEvent::Bitmap(obm(*o)),
            Event::Keys(ks) => AEvent::Keys(ks.deep_view()),
            Event::Tokens(ts) => AEvent::Tokens(ts.deep_view()),
        }
    }
}

/// Outcome of one step.
pub enum Step {
    /// The machine made an internal transition; call `step` again with
    /// `Event::Proceed`.
    Continue,
    /// The machine needs a lookup; answer with the matching event.
    Need(Request),
    /// The query is finished.
    Done(ResultSet),
}

/// Mathematical shadow of a step outcome.
#[verifier::ext_equal]
pub ghost enum AStep {
    Continue,
    Need(ARequest),
    Done(AResultSet),
}

impl View for Step {
    type V = AStep;

    open spec fn view(&self) -> AStep {
        match self {
            Step::Continue => AStep::Continue,
            Step::Need(req) => AStep::Need(req@),
            Step::Done(rs) => AStep::Done(rs@),
        }
    }
}

/// View of a step result.
pub open spec fn result_view(r: Result<Step, QueryError>) -> Result<AStep, QueryError> {
    match r {
        Ok(st) => Ok(st@),
        Err(e) => Err(e),
    }
}

/// The evaluator's whole state.
pub struct Evaluator {
    pub account_id: u32,
    pub collection: u8,
    pub tokens: Vec<Filter>,
    pub pos: usize,
    pub stack: Vec<Frame>,
    pub frame: Frame,
    pub not_mask: RoaringBitmap,
    pub not_fetched: bool,
    pub phase: Phase,
}

/// Mathematical shadow of the evaluator.
#[verifier::ext_equal]
pub ghost struct AEval {
    pub account_id: u32,
    pub collection: u8,
    pub tokens: Seq<AFilter>,
    pub pos: int,
    pub stack: Seq<AFrame>,
    pub frame: AFrame,
    pub not_mask: Set<u32>,
    pub not_fetched: bool,
    pub phase: APhase,
}

impl View for Evaluator {
    type V = AEval;

    open spec fn view(&self) -> AEval {
        AEval {
            account_id: self.account_id,
            collection: self.collection,
            tokens: self.tokens.deep_view(),
            pos: self.pos as int,
            stack: self.stack.deep_view(),
            frame: self.frame@,
            not_mask: bitmap_set(self.not_mask),
            not_fetched: self.not_fetched,
            phase: self.phase@,
        }
    }
}

/// New accumulator after one leaf result is combined into a frame.
/// Under `And` a missing leaf empties the accumulator; under `Or` it is
/// ignored; under `Not` a present leaf is first complemented against the
/// universe mask.
pub open spec fn spec_combine(
    op: ScopeOp,
    acc: Option<Set<u32>>,
    leaf: Option<Set<u32>>,
    mask: Set<u32>,
) -> Option<Set<u32>> {
    match acc {
        Some(a) => match op {
            ScopeOp::And => match leaf {
                Some(l) => Some(a.intersect(l)),
                None => Some(Set::empty()),
            },
            ScopeOp::Or => match leaf {
                Some(l) => Some(a.union(l)),
                None => Some(a),
            },
            ScopeOp::Not => match leaf {
                Some(l) => Some(a.intersect(set_xor(l, mask))),
                None => Some(a),
            },
        },
        None => match op {
            ScopeOp::And => match leaf {
                Some(l) => Some(l),
                None => Some(Set::empty()),
            },
            ScopeOp::Or => leaf,
            ScopeOp::Not => match leaf {
                Some(l) => Some(set_xor(l, mask)),
                None => Some(mask),
            },
        },
    }
}

/// Transition that combines a resolved leaf into the active frame: a
/// `Not` scope first fetches the universe once per query, then the
/// scope's set operation applies, and an `And` accumulator that has just
/// become empty sends the machine skipping over the rest of its scope.
pub open spec fn combine_step(s: AEval, leaf: Option<Set<u32>>) -> (AEval, Result<
    AStep,
    QueryError,
>) {
    if s.frame.op == ScopeOp::Not && !s.not_fetched {
        (
            AEval { phase: APhase::AwaitUniverse { pending: leaf }, ..s },
            Ok(
                AStep::Need(
                    ARequest::GetBitmap(document_ids_key_bytes(s.account_id, s.collection)),
                ),
            ),
        )
    } else {
        let acc2 = spec_combine(s.frame.op, s.frame.acc, leaf, s.not_mask);
        let skip = s.frame.op == ScopeOp::And && acc2 == Some(Set::<u32>::empty());
        (
            AEval {
                frame: AFrame { op: s.frame.op, acc: acc2 },
                phase: if skip {
                    APhase::Skipping { depth: 0 }
                } else {
                    APhase::Ready
                },
                ..s
            },
            Ok(AStep::Continue),
        )
    }
}

/// Terminal transition: the current accumulator, or the empty set, is
/// the query's result.
pub open spec fn finish_step(s: AEval) -> (AEval, Result<AStep, QueryError>) {
    (
        AEval { frame: AFrame { op: s.frame.op, acc: None }, phase: APhase::Finished, ..s },
        Ok(
            AStep::Done(
                AResultSet {
                    account_id: s.account_id,
                    collection: s.collection,
                    results: acc_or_empty(s.frame.acc),
                },
            ),
        ),
    )
}

/// Scope-open transition: the current frame is pushed and a fresh frame
/// with the new scope operator and no accumulator becomes active.
pub open spec fn open_scope_step(s: AEval, op: ScopeOp) -> (AEval, Result<AStep, QueryError>) {
    (
        AEval {
            pos: s.pos + 1,
            stack: s.stack.push(s.frame),
            frame: AFrame { op, acc: None },
            ..s
        },
        Ok(AStep::Continue),
    )
}

/// Transition taken in the `Ready` phase: process the next token, or
/// finish when the stream is exhausted or an `End` finds no open scope.
pub open spec fn ready_step(s: AEval) -> (AEval, Result<AStep, QueryError>) {
    if s.pos < 0 || s.pos >= s.tokens.len() {
        finish_step(s)
    } else {
        match s.tokens[s.pos] {
            AFilter::And => open_scope_step(s, ScopeOp::And),
            AFilter::Or => open_scope_step(s, ScopeOp::Or),
            AFilter::Not => open_scope_step(s, ScopeOp::Not),
            AFilter::End => {
                if s.stack.len() == 0 {
                    finish_step(s)
                } else {
                    let closed = acc_or_empty(s.frame.acc);
                    let s2 = AEval {
                        pos: s.pos + 1,
                        stack: s.stack.drop_last(),
                        frame: s.stack.last(),
                        ..s
                    };
                    combine_step(s2, Some(closed))
                }
            },
            AFilter::DocumentSet(ids) => combine_step(AEval { pos: s.pos + 1, ..s }, Some(ids)),
            AFilter::MatchValue { field, op, value } => (
                AEval {
                    pos: s.pos + 1,
                    phase: APhase::AwaitScan { field, op, value },
                    ..s
                },
                Ok(
                    AStep::Need(
                        ARequest::Scan {
                            begin: scan_begin_bytes(s.account_id, s.collection, field, value, op),
                            end: scan_end_bytes(s.account_id, s.collection, field, value, op),
                        },
                    ),
                ),
            ),
            AFilter::HasText { field, text, tokenize } => {
                if tokenize {
                    (
                        AEval { pos: s.pos + 1, phase: APhase::AwaitTokens { field }, ..s },
                        Ok(AStep::Need(ARequest::Tokenize(text))),
                    )
                } else {
                    (
                        AEval { pos: s.pos + 1, phase: APhase::AwaitBitmap, ..s },
                        Ok(
                            AStep::Need(
                                ARequest::GetBitmap(
                                    text_token_key_bytes(s.account_id, s.collection, field, text),
                                ),
                            ),
                        ),
                    )
                }
            },
            AFilter::InBitmap(class) => (
                AEval { pos: s.pos + 1, phase: APhase::AwaitBitmap, ..s },
                Ok(
                    AStep::Need(
                        ARequest::GetBitmap(class_key_bytes(s.account_id, s.collection, class)),
                    ),
                ),
            ),
        }
    }
}

/// Transition taken while skipping a short-circuited `And` scope: scope
/// openers and their matching closers are counted so the skip ends
/// exactly at the close of the current scope, which is then processed
/// normally.
pub open spec fn skip_step(s: AEval, depth: int) -> (AEval, Result<AStep, QueryError>) {
    if s.pos < 0 || s.pos >= s.tokens.len() {
        finish_step(s)
    } else {
        match s.tokens[s.pos] {
            AFilter::And => (
                AEval { pos: s.pos + 1, phase: APhase::Skipping { depth: depth + 1 }, ..s },
                Ok(AStep::Continue),
            ),
            AFilter::Or => (
                AEval { pos: s.pos + 1, phase: APhase::Skipping { depth: depth + 1 }, ..s },
                Ok(AStep::Continue),
            ),
            AFilter::Not => (
                AEval { pos: s.pos + 1, phase: APhase::Skipping { depth: depth + 1 }, ..s },
                Ok(AStep::Continue),
            ),
            AFilter::End => {
                if depth == 0 {
                    (AEval { phase: APhase::Ready, ..s }, Ok(AStep::Continue))
                } else {
                    (
                        AEval {
                            pos: s.pos + 1,
                            phase: APhase::Skipping { depth: depth - 1 },
                            ..s
                        },
                        Ok(AStep::Continue),
                    )
                }
            },
            _ => (AEval { pos: s.pos + 1, ..s }, Ok(AStep::Continue)),
        }
    }
}

/// Deduplicated terms in first-occurrence order; the intersection needs
/// each term's postings only once.
pub open spec fn spec_dedup(ts: Seq<Seq<char>>) -> Seq<Seq<char>>
    decreases ts.len(),
{
    if ts.len() == 0 {
        Seq::empty()
    } else {
        let butlast = ts.drop_last();
        spec_dedup(butlast) + (if butlast.contains(ts.last()) {
            Seq::<Seq<char>>::empty()
        } else {
            seq![ts.last()]
        })
    }
}

/// Transition on the tokenizer's answer: deduplicate the terms; no terms
/// mean "no matches", otherwise the postings of all terms are
/// intersected.
pub open spec fn tokens_step(s: AEval, field: u8, ts: Seq<Seq<char>>) -> (AEval, Result<
    AStep,
    QueryError,
>) {
    let terms = spec_dedup(ts);
    if terms.len() == 0 {
        combine_step(AEval { phase: APhase::Ready, ..s }, None)
    } else {
        (
            AEval { phase: APhase::AwaitIntersection, ..s },
            Ok(
                AStep::Need(
                    ARequest::GetIntersection(
                        terms.map_values(
                            |t: Seq<char>| text_token_key_bytes(s.account_id, s.collection, field, t),
                        ),
                    ),
                ),
            ),
        )
    }
}

/// Transition on the visited keys of a range scan: filter and collect
/// them; a corrupted key aborts the whole evaluation.
pub open spec fn scan_step(
    s: AEval,
    field: u8,
    op: Operator,
    value: Seq<u8>,
    ks: Seq<Seq<u8>>,
) -> (AEval, Result<AStep, QueryError>) {
    match scan_result(ks, index_key_prefix_bytes(s.account_id, s.collection, field), value, op) {
        Ok(ids) => combine_step(
            AEval { phase: APhase::Ready, ..s },
            if ids == Set::<u32>::empty() {
                None
            } else {
                Some(ids)
            },
        ),
        Err(e) => (AEval { phase: APhase::Failed, ..s }, Err(e)),
    }
}

/// One transition of the specification machine: from a state and the
/// event the caller supplies to the next state and the step outcome.
pub open spec fn astep(s: AEval, e: AEvent) -> (AEval, Result<AStep, QueryError>) {
    match (s.phase, e) {
        (APhase::Ready, AEvent::Proceed) => ready_step(s),
        (APhase::EmptyQuery, AEvent::Proceed) => (
            AEval { phase: APhase::AwaitWholeUniverse, ..s },
            Ok(
                AStep::Need(
                    ARequest::GetBitmap(document_ids_key_bytes(s.account_id, s.collection)),
                ),
            ),
        ),
        (APhase::Skipping { depth }, AEvent::Proceed) => skip_step(s, depth),
        (APhase::AwaitWholeUniverse, AEvent::Bitmap(u)) => (
            AEval { phase: APhase::Finished, ..s },
            Ok(
                AStep::Done(
                    AResultSet {
                        account_id: s.account_id,
                        collection: s.collection,
                        results: acc_or_empty(u),
                    },
                ),
            ),
        ),
        (APhase::AwaitBitmap, AEvent::Bitmap(o)) => combine_step(s, o),
        (APhase::AwaitIntersection, AEvent::Bitmap(o)) => combine_step(s, o),
        (APhase::AwaitUniverse { pending }, AEvent::Bitmap(o)) => combine_step(
            AEval {
                not_mask: acc_or_empty(o),
                not_fetched: true,
                phase: APhase::Ready,
                ..s
            },
            pending,
        ),
        (APhase::AwaitTokens { field }, AEvent::Tokens(ts)) => tokens_step(s, field, ts),
        (APhase::AwaitScan { field, op, value }, AEvent::Keys(ks)) => scan_step(
            AEval { phase: APhase::Ready, ..s },
            field,
            op,
            value,
            ks,
        ),
        _ => (s, Ok(AStep::Continue)),
    }
}

/// Which event kind a phase expects from the caller.
pub open spec fn event_matches(phase: APhase, e: AEvent) -> bool {
    match phase {
        APhase::Ready => e is Proceed,
        APhase::EmptyQuery => e is Proceed,
        APhase::Skipping { .. } => e is Proceed,
        APhase::AwaitWholeUniverse => e is Bitmap,
        APhase::AwaitBitmap => e is Bitmap,
        APhase::AwaitIntersection => e is Bitmap,
        APhase::AwaitUniverse { .. } => e is Bitmap,
        APhase::AwaitTokens { .. } => e is Tokens,
        APhase::AwaitScan { .. } => e is Keys,
        APhase::Finished => false,
        APhase::Failed => false,
    }
}

/// A token the machine can run: the greater-than operators bound their
/// scan by the next field's key space, so their field must leave room
/// for a successor.
pub open spec fn token_wf(t: AFilter) -> bool {
    match t {
        AFilter::MatchValue { field, op, value } => (op == Operator::GreaterThan || op
            == Operator::GreaterEqualThan) ==> field < 255,
        _ => true,
    }
}

/// Every token of the stream is runnable.
pub open spec fn tokens_wf(ts: Seq<AFilter>) -> bool {
    forall|i: int| 0 <= i < ts.len() ==> token_wf(#[trigger] ts[i])
}

/// States the exec machine is run in: runnable tokens, and a skip depth
/// that cannot outgrow the tokens already consumed.
pub open spec fn state_wf(s: AEval) -> bool {
    &&& tokens_wf(s.tokens)
    &&& (s.phase matches APhase::Skipping { depth } ==> 0 <= depth <= s.pos)
    &&& 0 <= s.pos
}

/// The machine's starting state: one implicit `And` frame, no universe
/// fetched, and for an empty stream the dedicated phase that resolves
/// the whole query to the universe.
pub open spec fn init_state(account_id: u32, collection: u8, tokens: Seq<AFilter>) -> AEval {
    AEval {
        account_id,
        collection,
        tokens,
        pos: 0,
        stack: Seq::empty(),
        frame: AFrame { op: ScopeOp::And, acc: None },
        not_mask: Set::empty(),
        not_fetched: false,
        phase: if tokens.len() == 0 {
            APhase::EmptyQuery
        } else {
            APhase::Ready
        },
    }
}

/// Starts the evaluation of a filter sequence for one account and
/// collection; drive the returned machine with [`Evaluator::step`].
pub fn filter(account_id: u32, collection: u8, filters: Vec<Filter>) -> (e: Evaluator)
    ensures
        e@ == init_state(account_id, collection, filters.deep_view()),
        state_wf(e@) <==> tokens_wf(filters.deep_view()),
{
    let empty_query = filters.is_empty();
    let e = Evaluator {
        account_id,
        collection,
        tokens: filters,
        pos: 0,
        stack: Vec::new(),
        frame: Frame { op: ScopeOp::And, bm: None },
        not_mask: bitmap_new(),
        not_fetched: false,
        phase: if empty_query {
            Phase::EmptyQuery
        } else {
            Phase::Ready
        },
    };
    proof {
        assert(e.stack.deep_view() =~= Seq::<AFrame>::empty());
        assert(e@ =~~= init_state(account_id, collection, e.tokens.deep_view()));
    }
    e
}

/// Deduplicates the tokenizer's terms, keeping first occurrences in
/// order.
pub fn dedup_terms(ts: Vec<String>) -> (r: Vec<String>)
    ensures
        r.deep_view() == spec_dedup(ts.deep_view()),
{
    let mut out: Vec<String> = Vec::new();
    proof {
        assert(ts.deep_view().take(0) =~= Seq::<Seq<char>>::empty());
        assert(out.deep_view() =~= spec_dedup(ts.deep_view().take(0)));
    }
    let mut i: usize = 0;
    while i < ts.len()
        invariant
            i <= ts@.len(),
            out.deep_view() == spec_dedup(ts.deep_view().take(i as int)),
            forall|t: Seq<char>| #[trigger]
                out.deep_view().contains(t) <==> ts.deep_view().take(i as int).contains(t),
        decreases ts@.len() - i,
    {
        let ghost tv = ts.deep_view();
        let ghost cur = tv[i as int];
        let mut found = false;
        let mut j: usize = 0;
        while j < out.len()
            invariant
                j <= out@.len(),
                i < ts@.len(),
                cur == ts.deep_view()[i as int],
                found <==> exists|k: int| 0 <= k < j && #[trigger] out.deep_view()[k] == cur,
            decreases out@.len() - j,
        {
            let eq = out[j].eq(&ts[i]);
            proof {
                assert(out.deep_view()[j as int] == out@[j as int]@);
                assert(ts.deep_view()[i as int] == ts@[i as int]@);
            }
            if eq {
                found = true;
            }
            j = j + 1;
        }
        proof {
            assert(found <==> out.deep_view().contains(cur));
            assert(tv.take(i + 1).drop_last() =~= tv.take(i as int));
            assert(tv.take(i + 1).last() == cur);
        }
        if !found {
            let ghost out_pre = out.deep_view();
            let term = ts[i].clone();
            out.push(term);
            proof {
                assert(out.deep_view() =~= out_pre.push(cur));
                assert(!tv.take(i as int).contains(cur));
                assert(out.deep_view() =~= spec_dedup(tv.take(i as int)) + seq![cur]);
                assert(out.deep_view() == spec_dedup(tv.take(i + 1)));
                assert forall|t: Seq<char>|
                    out.deep_view().contains(t) <==> #[trigger] tv.take(i + 1).contains(t) by {
                    if out.deep_view().contains(t) {
                        let k = choose|k: int| 0 <= k < out.deep_view().len()
                            && #[trigger] out.deep_view()[k] == t;
                        if k < out_pre.len() {
                            assert(out_pre[k] == t);
                            assert(out_pre.contains(t));
                            assert(tv.take(i as int).contains(t));
                            let m = choose|m: int| 0 <= m < i
                                && #[trigger] tv.take(i as int)[m] == t;
                            assert(tv.take(i + 1)[m] == t);
                        } else {
                            assert(t == cur);
                            assert(tv.take(i + 1)[i as int] == t);
                        }
                    }
                    if tv.take(i + 1).contains(t) {
                        let k = choose|k: int| 0 <= k < i + 1 && #[trigger] tv.take(i + 1)[k] == t;
                        if k < i {
                            assert(tv.take(i as int)[k] == t);
                            assert(tv.take(i as int).contains(t));
                            assert(out_pre.contains(t));
                            let m = choose|m: int| 0 <= m < out_pre.len()
                                && #[trigger] out_pre[m] == t;
                            assert(out.deep_view()[m] == t);
                            assert(out.deep_view().contains(t));
                        } else {
                            assert(out.deep_view()[out_pre.len() as int] == t);
                            assert(out.deep_view().contains(t));
                        }
                    }
                }
            }
        } else {
            proof {
                assert(tv.take(i as int).contains(cur));
                assert(spec_dedup(tv.take(i + 1)) =~= spec_dedup(tv.take(i as int)));
                assert forall|t: Seq<char>| #[trigger]
                    out.deep_view().contains(t) <==> tv.take(i + 1).contains(t) by {
                    if tv.take(i + 1).contains(t) {
                        let k = choose|k: int| 0 <= k < i + 1 && #[trigger] tv.take(i + 1)[k] == t;
                        if k < i {
                            assert(tv.take(i as int)[k] == t);
                            assert(tv.take(i as int).contains(t));
                        } else {
                            assert(t == cur);
                        }
                    }
                    if out.deep_view().contains(t) {
                        assert(tv.take(i as int).contains(t));
                        let k = choose|k: int| 0 <= k < i && #[trigger] tv.take(i as int)[k] == t;
                        assert(tv.take(i + 1)[k] == t);
                    }
                }
            }
        }
        i = i + 1;
    }
    proof {
        assert(ts.deep_view().take(ts@.len() as int) =~= ts.deep_view());
    }
    out
}

impl Evaluator {
    /// Ends evaluation: the current accumulator, or the empty set, is
    /// the result.
    fn finish(&mut self) -> (r: Step)
        ensures
            final(self)@ == finish_step(old(self)@).0,
            finish_step(old(self)@).1 == Ok::<AStep, QueryError>(r@),
    {
        let bm = match self.frame.bm.take() {
            Some(b) => b,
            None => bitmap_new(),
        };
        self.phase = Phase::Finished;
        let r = Step::Done(
            ResultSet {
                account_id: self.account_id,
                collection: self.collection,
                results: bm,
            },
        );
        proof {
            assert(self@ =~~= finish_step(old(self)@).0);
        }
        r
    }

    /// Opens a scope: pushes the current frame and starts a fresh one.
    fn open_scope(&mut self, op: ScopeOp) -> (r: Step)
        requires
            old(self)@.pos < old(self)@.tokens.len(),
        ensures
            final(self)@ == open_scope_step(old(self)@, op).0,
            open_scope_step(old(self)@, op).1 == Ok::<AStep, QueryError>(r@),
    {
        let prev_op = self.frame.op;
        let prev_bm = self.frame.bm.take();
        self.stack.push(Frame { op: prev_op, bm: prev_bm });
        self.frame = Frame { op, bm: None };
        proof {
            assert(self.tokens.len() == self.tokens@.len());
        }
        self.pos = self.pos + 1;
        proof {
            assert(self.stack.deep_view() =~= old(self)@.stack.push(old(self)@.frame));
            assert(self@ =~~= open_scope_step(old(self)@, op).0);
        }
        Step::Continue
    }

    /// Combines one resolved leaf into the active frame, fetching the
    /// universe first when a `Not` scope needs it.
    fn combine_leaf(&mut self, leaf: Option<RoaringBitmap>) -> (r: Step)
        ensures
            final(self)@ == combine_step(old(self)@, obm(leaf)).0,
            combine_step(old(self)@, obm(leaf)).1 == Ok::<AStep, QueryError>(r@),
    {
        let ghost lview = obm(leaf);
        if matches!(self.frame.op, ScopeOp::Not) && !self.not_fetched {
            self.phase = Phase::AwaitUniverse { pending: leaf };
            let key = document_ids_key(self.account_id, self.collection);
            let r = Step::Need(Request::GetBitmap(key));
            proof {
                assert(self@ =~~= combine_step(old(self)@, lview).0);
            }
            return r;
        }
        let acc = self.frame.bm.take();
        let newacc: Option<RoaringBitmap> = match self.frame.op {
            ScopeOp::And => match (acc, leaf) {
                (Some(mut a), Some(l)) => {
                    bitmap_and_assign(&mut a, l);
                    Some(a)
                },
                (Some(_), None) => Some(bitmap_new()),
                (None, Some(l)) => Some(l),
                (None, None) => Some(bitmap_new()),
            },
            ScopeOp::Or => match (acc, leaf) {
                (Some(mut a), Some(l)) => {
                    bitmap_or_assign(&mut a, l);
                    Some(a)
                },
                (Some(a), None) => Some(a),
                (None, Some(l)) => Some(l),
                (None, None) => None,
            },
            ScopeOp::Not => match (acc, leaf) {
                (Some(mut a), Some(mut l)) => {
                    bitmap_xor_assign(&mut l, &self.not_mask);
                    bitmap_and_assign(&mut a, l);
                    Some(a)
                },
                (Some(a), None) => Some(a),
                (None, Some(mut l)) => {
                    bitmap_xor_assign(&mut l, &self.not_mask);
                    Some(l)
                },
                (None, None) => Some(bitmap_clone(&self.not_mask)),
            },
        };
        proof {
            assert(obm(newacc) == spec_combine(
                old(self)@.frame.op,
                old(self)@.frame.acc,
                lview,
                old(self)@.not_mask,
            ));
        }
        self.frame.bm = newacc;
        let is_and = matches!(self.frame.op, ScopeOp::And);
        let empty_now = match &self.frame.bm {
            Some(b) => bitmap_is_empty(b),
            None => false,
        };
        if is_and && empty_now {
            self.phase = Phase::Skipping { depth: 0 };
        } else {
            self.phase = Phase::Ready;
        }
        proof {
            assert(self@ =~~= combine_step(old(self)@, lview).0);
        }
        Step::Continue
    }

    /// Processes the next token of the stream.
    fn tick_ready(&mut self) -> (r: Result<Step, QueryError>)
        requires
            old(self)@.phase == APhase::Ready,
            tokens_wf(old(self)@.tokens),
        ensures
            final(self)@ == ready_step(old(self)@).0,
            ready_step(old(self)@).1 == result_view(r),
    {
        if self.pos >= self.tokens.len() {
            return Ok(self.finish());
        }
        let tok = self.tokens[self.pos].duplicate();
        proof {
            assert(tok@ == old(self)@.tokens[old(self)@.pos]);
        }
        match tok {
            Filter::And => Ok(self.open_scope(ScopeOp::And)),
            Filter::Or => Ok(self.open_scope(ScopeOp::Or)),
            Filter::Not => Ok(self.open_scope(ScopeOp::Not)),
            Filter::End => {
                match self.stack.pop() {
                    None => {
                        proof {
                            assert(old(self)@.stack.len() == 0);
                        }
                        Ok(self.finish())
                    },
                    Some(prev) => {
                        self.pos = self.pos + 1;
                        let popped_bm = self.frame.bm.take();
                        let closed = match popped_bm {
                            Some(b) => b,
                            None => bitmap_new(),
                        };
                        self.frame = prev;
                        proof {
                            assert(self.stack.deep_view() =~= old(self)@.stack.drop_last());
                            assert(prev@ == old(self)@.stack.last());
                            assert(self@ =~~= AEval {
                                pos: old(self)@.pos + 1,
                                stack: old(self)@.stack.drop_last(),
                                frame: old(self)@.stack.last(),
                                ..old(self)@
                            });
                            assert(bitmap_set(closed) == acc_or_empty(old(self)@.frame.acc));
                        }
                        Ok(self.combine_leaf(Some(closed)))
                    },
                }
            },
            Filter::DocumentSet(ids) => {
                self.pos = self.pos + 1;
                proof {
                    assert(self@ =~~= AEval { pos: old(self)@.pos + 1, ..old(self)@ });
                }
                Ok(self.combine_leaf(Some(ids)))
            },
            Filter::MatchValue { field, op, value } => {
                proof {
                    assert(token_wf(old(self)@.tokens[old(self)@.pos]));
                }
                self.pos = self.pos + 1;
                let range = scan_range(self.account_id, self.collection, field, &value, op);
                self.phase = Phase::AwaitScan { field, op, value };
                let r = Step::Need(Request::Scan(range));
                proof {
                    assert(self@ =~~= ready_step(old(self)@).0);
                    assert(ready_step(old(self)@).1 == Ok::<AStep, QueryError>(r@));
                }
                Ok(r)
            },
            Filter::HasText { field, text, tokenize } => {
                self.pos = self.pos + 1;
                if tokenize {
                    self.phase = Phase::AwaitTokens { field };
                    let r = Step::Need(Request::Tokenize(text));
                    proof {
                        assert(self@ =~~= ready_step(old(self)@).0);
                        assert(ready_step(old(self)@).1 == Ok::<AStep, QueryError>(r@));
                    }
                    Ok(r)
                } else {
                    let key = text_token_key(
                        self.account_id,
                        self.collection,
                        field,
                        text.as_str(),
                    );
                    self.phase = Phase::AwaitBitmap;
                    let r = Step::Need(Request::GetBitmap(key));
                    proof {
                        assert(self@ =~~= ready_step(old(self)@).0);
                        assert(ready_step(old(self)@).1 == Ok::<AStep, QueryError>(r@));
                    }
                    Ok(r)
                }
            },
            Filter::InBitmap(class) => {
                self.pos = self.pos + 1;
                let key = class_key(self.account_id, self.collection, &class);
                self.phase = Phase::AwaitBitmap;
                let r = Step::Need(Request::GetBitmap(key));
                proof {
                    assert(self@ =~~= ready_step(old(self)@).0);
                    assert(ready_step(old(self)@).1 == Ok::<AStep, QueryError>(r@));
                }
                Ok(r)
            },
        }
    }

    /// Consumes one token of a short-circuited scope without resolving
    /// it, counting nested scopes.
    fn tick_skip(&mut self, depth: usize) -> (r: Step)
        requires
            old(self)@.phase == (APhase::Skipping { depth: depth as int }),
            depth <= old(self)@.pos,
        ensures
            final(self)@ == skip_step(old(self)@, depth as int).0,
            skip_step(old(self)@, depth as int).1 == Ok::<AStep, QueryError>(r@),
    {
        if self.pos >= self.tokens.len() {
            return self.finish();
        }
        let kind: u8 = match &self.tokens[self.pos] {
            Filter::And => 0,
            Filter::Or => 0,
            Filter::Not => 0,
            Filter::End => 1,
            _ => 2,
        };
        if kind == 0 {
            self.pos = self.pos + 1;
            self.phase = Phase::Skipping { depth: depth + 1 };
        } else if kind == 1 {
            if depth == 0 {
                self.phase = Phase::Ready;
            } else {
                self.pos = self.pos + 1;
                self.phase = Phase::Skipping { depth: depth - 1 };
            }
        } else {
            self.pos = self.pos + 1;
        }
        proof {
            assert(self@ =~~= skip_step(old(self)@, depth as int).0);
        }
        Step::Continue
    }

    /// Advances the machine by one transition. Supply `Event::Proceed`
    /// while the machine is thinking, and the answer to the last
    /// [`Step::Need`] request otherwise; every transition equals one
    /// step of the specification machine [`astep`].
    pub fn step(&mut self, event: Event) -> (r: Result<Step, QueryError>)
        requires
            state_wf(old(self)@),
            event_matches(old(self)@.phase, event@),
        ensures
            final(self)@ == astep(old(self)@, event@).0,
            result_view(r) == astep(old(self)@, event@).1,
    {
        let ghost ev = event@;
        match event {
            Event::Proceed => {
                if matches!(self.phase, Phase::Ready) {
                    self.tick_ready()
                } else if matches!(self.phase, Phase::EmptyQuery) {
                    self.phase = Phase::AwaitWholeUniverse;
                    let key = document_ids_key(self.account_id, self.collection);
                    let r = Step::Need(Request::GetBitmap(key));
                    proof {
                        assert(self@ =~~= astep(old(self)@, ev).0);
                    }
                    Ok(r)
                } else {
                    let depth: usize = match &self.phase {
                        Phase::Skipping { depth } => *depth,
                        _ => {
                            proof {
                                assert(false);
                            }
                            0
                        },
                    };
                    Ok(self.tick_skip(depth))
                }
            },
            Event::Bitmap(opt) => {
                let ghost oview = obm(opt);
                if matches!(self.phase, Phase::AwaitWholeUniverse) {
                    let bm = match opt {
                        Some(b) => b,
                        None => bitmap_new(),
                    };
                    self.phase = Phase::Finished;
                    let r = Step::Done(
                        ResultSet {
                            account_id: self.account_id,
                            collection: self.collection,
                            results: bm,
                        },
                    );
                    proof {
                        assert(self@ =~~= astep(old(self)@, ev).0);
                        assert(astep(old(self)@, ev).1 == Ok::<AStep, QueryError>(r@));
                    }
                    Ok(r)
                } else if matches!(self.phase, Phase::AwaitBitmap) || matches!(
                    self.phase,
                    Phase::AwaitIntersection,
                ) {
                    Ok(self.combine_leaf(opt))
                } else {
                    let mut ph = Phase::Ready;
                    core::mem::swap(&mut ph, &mut self.phase);
                    match ph {
                        Phase::AwaitUniverse { pending } => {
                            let mask = match opt {
                                Some(b) => b,
                                None => bitmap_new(),
                            };
                            self.not_mask = mask;
                            self.not_fetched = true;
                            proof {
                                assert(self@ =~~= AEval {
                                    not_mask: acc_or_empty(oview),
                                    not_fetched: true,
                                    phase: APhase::Ready,
                                    ..old(self)@
                                });
                            }
                            Ok(self.combine_leaf(pending))
                        },
                        _ => {
                            proof {
                                assert(false);
                            }
                            Ok(Step::Continue)
                        },
                    }
                }
            },
            Event::Keys(ks) => {
                let mut ph = Phase::Ready;
                core::mem::swap(&mut ph, &mut self.phase);
                match ph {
                    Phase::AwaitScan { field, op, value } => {
                        let prefix = index_key_prefix(self.account_id, self.collection, field);
                        match scan_collect(&ks, &prefix, &value, op) {
                            Ok(leaf) => {
                                proof {
                                    let ids = scan_result(
                                        ks.deep_view(),
                                        prefix@,
                                        value@,
                                        op,
                                    )->Ok_0;
                                    assert(obm(leaf) == (if ids == Set::<u32>::empty() {
                                        None
                                    } else {
                                        Some(ids)
                                    }));
                                }
                                Ok(self.combine_leaf(leaf))
                            },
                            Err(e) => {
                                self.phase = Phase::Failed;
                                proof {
                                    assert(self@ =~~= astep(old(self)@, ev).0);
                                }
                                Err(e)
                            },
                        }
                    },
                    _ => {
                        proof {
                            assert(false);
                        }
                        Ok(Step::Continue)
                    },
                }
            },
            Event::Tokens(ts) => {
                let field: u8 = match &self.phase {
                    Phase::AwaitTokens { field } => *field,
                    _ => {
                        proof {
                            assert(false);
                        }
                        0
                    },
                };
                let ghost tsview = ts.deep_view();
                let terms = dedup_terms(ts);
                if terms.len() == 0 {
                    proof {
                        assert(spec_dedup(tsview).len() == 0);
                    }
                    self.phase = Phase::Ready;
                    Ok(self.combine_leaf(None))
                } else {
                    let account_id = self.account_id;
                    let collection = self.collection;
                    let mut keys: Vec<Vec<u8>> = Vec::new();
                    proof {
                        assert(keys.deep_view() =~~= terms.deep_view().take(0).map_values(
                            |t: Seq<char>| text_token_key_bytes(account_id, collection, field, t),
                        ));
                    }
                    let mut i: usize = 0;
                    while i < terms.len()
                        invariant
                            i <= terms@.len(),
                            keys.deep_view() == terms.deep_view().take(i as int).map_values(
                                |t: Seq<char>|
                                    text_token_key_bytes(account_id, collection, field, t),
                            ),
                        decreases terms@.len() - i,
                    {
                        let ghost keys_pre = keys.deep_view();
                        let key = text_token_key(account_id, collection, field, terms[i].as_str());
                        let ghost kv = key@;
                        keys.push(key);
                        proof {
                            assert(keys.deep_view() =~~= keys_pre.push(kv));
                            assert(terms.deep_view()[i as int] == terms@[i as int]@);
                            assert(keys.deep_view() =~~= terms.deep_view().take(i + 1).map_values(
                                |t: Seq<char>|
                                    text_token_key_bytes(account_id, collection, field, t),
                            ));
                        }
                        i = i + 1;
                    }
                    proof {
                        assert(terms.deep_view().take(terms@.len() as int) =~= terms.deep_view());
                    }
                    self.phase = Phase::AwaitIntersection;
                    let r = Step::Need(Request::GetIntersection(keys));
                    proof {
                        assert(self@ =~~= astep(old(self)@, ev).0);
                        assert(keys.deep_view() =~~= spec_dedup(tsview).map_values(
                            |t: Seq<char>|
                                text_token_key_bytes(
                                    old(self)@.account_id,
                                    old(self)@.collection,
                                    field,
                                    t,
                                ),
                        ));
                        assert(astep(old(self)@, ev).1 == Ok::<AStep, QueryError>(r@));
                    }
                    Ok(r)
                }
            },
        }
    }
}

} // verus!
