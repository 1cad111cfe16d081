//! Laws of the evaluator, stated and proved over the specification
//! machine that [`crate::eval::Evaluator::step`] implements.

use vstd::prelude::*;

use crate::bitmap::set_xor;
use crate::bytes::has_prefix;
use crate::bytes::lemma_lex_connex;
use crate::bytes::lemma_lex_extend;
use crate::bytes::lemma_lex_shared_prefix;
use crate::bytes::lex_lt;
use crate::bytes::lex_lt_from;
use crate::codec::U32_LEN;
use crate::codec::be_u32_value;
use crate::codec::index_key_bytes;
use crate::codec::index_key_prefix_bytes;
use crate::codec::u32_be_bytes;
use crate::eval::AEval;
use crate::eval::AFrame;
use crate::eval::AEvent;
use crate::eval::APhase;
use crate::eval::AStep;
use crate::eval::ScopeOp;
use crate::eval::acc_or_empty;
use crate::eval::astep;
use crate::eval::combine_step;
use crate::eval::init_state;
use crate::eval::ready_step;
use crate::eval::event_matches;
use crate::eval::spec_combine;
use crate::eval::state_wf;
use crate::model::AFilter;
use crate::model::Operator;
use crate::model::AResultSet;
use crate::model::QueryError;
use crate::scan::scan_result;
use crate::scan::scan_result_from;
use crate::scan::spec_value_matches;

verus! {

/// Complementing a set against the same universe twice gives the set
/// back: the symmetric difference is an involution.
pub proof fn lemma_xor_involutive(a: Set<u32>, u: Set<u32>)
    ensures
        set_xor(set_xor(a, u), u) == a,
{
    assert(set_xor(set_xor(a, u), u) =~= a);
}

/// An `And` scope whose accumulator has become empty absorbs every
/// further leaf: whatever a later leaf resolves to, the accumulator
/// stays empty. Together with [`lemma_skip_resolves_nothing`] this is
/// why dropping every leaf after the first empty `And` accumulator
/// cannot change a query's result.
pub proof fn lemma_and_empty_absorbs(leaf: Option<Set<u32>>, mask: Set<u32>)
    ensures
        spec_combine(ScopeOp::And, Some(Set::<u32>::empty()), leaf, mask) == Some(
            Set::<u32>::empty(),
        ),
{
    match leaf {
        Some(l) => {
            assert(Set::<u32>::empty().intersect(l) =~= Set::<u32>::empty());
        },
        None => {
        },
    }
}

/// Where a skip that started at `pos` with `depth` scopes still open
/// must stop: the first `End` that closes the current scope, counting
/// every nested scope opened and closed on the way — or the stream's
/// end.
pub open spec fn matching_end(tokens: Seq<AFilter>, pos: int, depth: int) -> int
    decreases tokens.len() - pos,
{
    if pos < 0 || pos >= tokens.len() {
        tokens.len() as int
    } else {
        match tokens[pos] {
            AFilter::And => matching_end(tokens, pos + 1, depth + 1),
            AFilter::Or => matching_end(tokens, pos + 1, depth + 1),
            AFilter::Not => matching_end(tokens, pos + 1, depth + 1),
            AFilter::End => if depth == 0 {
                pos
            } else {
                matching_end(tokens, pos + 1, depth - 1)
            },
            _ => matching_end(tokens, pos + 1, depth),
        }
    }
}

/// While the machine skips a short-circuited `And` scope it resolves
/// nothing, and it knows where it is going: a skipping step never
/// issues a request, never touches a frame, and keeps the matching
/// `End` of the skipped scope invariant — nested scopes inside the
/// skipped region move the depth counter, not the target. The skip
/// leaves skipping exactly at that `End`, which is then processed
/// normally; a stream that ends first finishes with the accumulator the
/// scope had when it short-circuited.
pub proof fn lemma_skip_resolves_nothing(s: AEval, depth: int)
    requires
        s.phase == (APhase::Skipping { depth }),
        0 <= depth,
        0 <= s.pos <= s.tokens.len(),
    ensures
        ({
            let m = matching_end(s.tokens, s.pos, depth);
            let s2 = astep(s, AEvent::Proceed).0;
            let out = astep(s, AEvent::Proceed).1;
            &&& out is Ok
            &&& !(out->Ok_0 is Need)
            &&& s2.tokens == s.tokens
            &&& match s2.phase {
                APhase::Skipping { depth: d2 } => {
                    &&& 0 <= d2
                    &&& s.pos < s2.pos <= s.tokens.len()
                    &&& matching_end(s.tokens, s2.pos, d2) == m
                    &&& s2.frame == s.frame
                    &&& s2.stack == s.stack
                    &&& out == Ok::<AStep, QueryError>(AStep::Continue)
                },
                APhase::Ready => {
                    &&& s2.pos == m
                    &&& m < s.tokens.len()
                    &&& s.tokens[m] is End
                    &&& s2.frame == s.frame
                    &&& s2.stack == s.stack
                    &&& out == Ok::<AStep, QueryError>(AStep::Continue)
                },
                APhase::Finished => {
                    &&& m == s.tokens.len()
                    &&& out == Ok::<AStep, QueryError>(
                        AStep::Done(
                            AResultSet {
                                account_id: s.account_id,
                                collection: s.collection,
                                results: acc_or_empty(s.frame.acc),
                            },
                        ),
                    )
                },
                _ => false,
            }
        }),
{
}

proof fn lemma_matching_end_bounds(tokens: Seq<AFilter>, pos: int, depth: int)
    requires
        0 <= pos <= tokens.len(),
    ensures
        pos <= matching_end(tokens, pos, depth) <= tokens.len(),
    decreases tokens.len() - pos,
{
    if pos < tokens.len() {
        match tokens[pos] {
            AFilter::And => lemma_matching_end_bounds(tokens, pos + 1, depth + 1),
            AFilter::Or => lemma_matching_end_bounds(tokens, pos + 1, depth + 1),
            AFilter::Not => lemma_matching_end_bounds(tokens, pos + 1, depth + 1),
            AFilter::End => {
                if depth != 0 {
                    lemma_matching_end_bounds(tokens, pos + 1, depth - 1);
                }
            },
            _ => lemma_matching_end_bounds(tokens, pos + 1, depth),
        }
    }
}

/// The state after `n` transitions driven by `Proceed` alone.
pub open spec fn proceed_n(s: AEval, n: nat) -> AEval
    decreases n,
{
    if n == 0 {
        s
    } else {
        proceed_n(astep(s, AEvent::Proceed).0, (n - 1) as nat)
    }
}

/// A run of `n` `Proceed` transitions is quiet when every one of them
/// succeeds without issuing a request.
pub open spec fn quiet_run(s: AEval, n: nat) -> bool
    decreases n,
{
    n > 0 ==> {
        &&& astep(s, AEvent::Proceed).1 is Ok
        &&& !(astep(s, AEvent::Proceed).1->Ok_0 is Need)
        &&& quiet_run(astep(s, AEvent::Proceed).0, (n - 1) as nat)
    }
}

/// The whole skip run: from a skipping state the machine takes exactly
/// `matching_end - pos + 1` quiet steps — none issues a request — and
/// arrives in `Ready` exactly at the matching `End` with every frame as
/// it was; if the stream ends inside the skipped scope, it finishes
/// instead. Dropping the skipped tokens could therefore not change the
/// result, and none of them costs a lookup.
pub proof fn lemma_skip_run(s: AEval, depth: int)
    requires
        s.phase == (APhase::Skipping { depth }),
        0 <= depth,
        0 <= s.pos <= s.tokens.len(),
    ensures
        ({
            let m = matching_end(s.tokens, s.pos, depth);
            let n = (m - s.pos + 1) as nat;
            let sf = proceed_n(s, n);
            &&& quiet_run(s, n)
            &&& if m < s.tokens.len() {
                &&& sf.phase == APhase::Ready
                &&& sf.pos == m
                &&& sf.tokens == s.tokens
                &&& s.tokens[m] is End
                &&& sf.frame == s.frame
                &&& sf.stack == s.stack
            } else {
                sf.phase == APhase::Finished
            }
        }),
    decreases s.tokens.len() - s.pos,
{
    reveal_with_fuel(proceed_n, 3);
    reveal_with_fuel(quiet_run, 3);
    lemma_matching_end_bounds(s.tokens, s.pos, depth);
    let m = matching_end(s.tokens, s.pos, depth);
    let n = (m - s.pos + 1) as nat;
    let s1 = astep(s, AEvent::Proceed).0;
    if s.pos == s.tokens.len() {
        assert(proceed_n(s, 1) == s1);
        assert(quiet_run(s1, 0));
    } else if s.tokens[s.pos] is End && depth == 0 {
        assert(m == s.pos);
        assert(proceed_n(s, 1) == s1);
        assert(quiet_run(s1, 0));
    } else {
        let d1: int = if s.tokens[s.pos] is And || s.tokens[s.pos] is Or || s.tokens[s.pos]
            is Not {
            depth + 1
        } else if s.tokens[s.pos] is End {
            depth - 1
        } else {
            depth
        };
        assert(s1.phase == (APhase::Skipping { depth: d1 }));
        assert(s1.pos == s.pos + 1);
        assert(matching_end(s.tokens, s1.pos, d1) == m);
        lemma_skip_run(s1, d1);
        let n1 = (m - s1.pos + 1) as nat;
        assert(n == n1 + 1);
        assert(proceed_n(s, n) == proceed_n(s1, n1));
        assert(quiet_run(s, n));
    }
}

/// Stepping keeps the machine runnable: the token stream never
/// changes, the position never goes negative, and a skip depth never
/// outgrows the tokens already consumed — so every state a run reaches
/// satisfies what [`crate::eval::Evaluator::step`] requires.
pub proof fn lemma_step_preserves_wf(s: AEval, e: AEvent)
    requires
        state_wf(s),
        event_matches(s.phase, e),
    ensures
        state_wf(astep(s, e).0),
        astep(s, e).0.tokens == s.tokens,
{
}

/// A leaf that resolves to `None` leaves an `Or` accumulator exactly as
/// it was: an `Or` scope with zero resolvable leaves keeps no
/// accumulator, and yields the empty bitmap when it closes — never an
/// error.
pub proof fn lemma_or_ignores_none(acc: Option<Set<u32>>, mask: Set<u32>)
    ensures
        spec_combine(ScopeOp::Or, acc, None, mask) == acc,
{
}

/// Closing a scope whose accumulator was never set hands the empty
/// bitmap — not an error and not a missing leaf — to the enclosing
/// scope.
pub proof fn lemma_close_unset_scope(s: AEval)
    requires
        s.phase == APhase::Ready,
        0 <= s.pos < s.tokens.len(),
        s.tokens[s.pos] == AFilter::End,
        s.stack.len() > 0,
        s.frame.acc is None,
    ensures
        ready_step(s) == combine_step(
            AEval { pos: s.pos + 1, stack: s.stack.drop_last(), frame: s.stack.last(), ..s },
            Some(Set::<u32>::empty()),
        ),
{
}

/// A leaf that resolves to `None` under `And` forces the accumulator to
/// empty, whether or not one existed before.
pub proof fn lemma_and_none_empties(acc: Option<Set<u32>>, mask: Set<u32>)
    ensures
        spec_combine(ScopeOp::And, acc, None, mask) == Some(Set::<u32>::empty()),
{
}

/// ... and the machine then short-circuits: combining a `None` leaf
/// into an `And` frame leaves the empty accumulator behind and sends
/// the machine skipping over the remaining siblings of the scope.
pub proof fn lemma_none_under_and_short_circuits(s: AEval)
    requires
        s.frame.op == ScopeOp::And,
    ensures
        combine_step(s, None).0.phase == (APhase::Skipping { depth: 0 }),
        combine_step(s, None).0.frame.acc == Some(Set::<u32>::empty()),
        combine_step(s, None).1 == Ok::<AStep, QueryError>(AStep::Continue),
{
}

/// An `Or` scope with zero resolvable leaves yields the empty bitmap,
/// not an error: running the machine on `[Or, InBitmap(c1),
/// InBitmap(c2), End]` with both lookups answering `None` finishes with
/// the empty result.
pub proof fn lemma_or_without_leaves_is_empty(
    account_id: u32,
    collection: u8,
    c1: Seq<u8>,
    c2: Seq<u8>,
)
    ensures
        ({
            let toks = seq![
                AFilter::Or,
                AFilter::InBitmap(c1),
                AFilter::InBitmap(c2),
                AFilter::End,
            ];
            let s0 = init_state(account_id, collection, toks);
            let s1 = astep(s0, AEvent::Proceed).0;  // open the Or scope
            let s2 = astep(s1, AEvent::Proceed).0;  // first leaf asks for its bitmap
            let s3 = astep(s2, AEvent::Bitmap(None::<Set<u32>>)).0;  // no matches
            let s4 = astep(s3, AEvent::Proceed).0;  // second leaf asks
            let s5 = astep(s4, AEvent::Bitmap(None::<Set<u32>>)).0;  // no matches
            let s6 = astep(s5, AEvent::Proceed).0;  // close the Or scope
            astep(s6, AEvent::Proceed).1 == Ok::<AStep, QueryError>(
                AStep::Done(
                    AResultSet { account_id, collection, results: Set::<u32>::empty() },
                ),
            )
        }),
{
}

/// Double negation: for any document set and any universe, running the
/// machine on `[Not, Not, DocumentSet(S), End, End]` finishes with
/// exactly `S` — the two complements against the same lazily fetched
/// universe cancel.
pub proof fn lemma_double_negation(account_id: u32, collection: u8, s: Set<u32>, u: Set<u32>)
    ensures
        ({
            let toks = seq![
                AFilter::Not,
                AFilter::Not,
                AFilter::DocumentSet(s),
                AFilter::End,
                AFilter::End,
            ];
            let s0 = init_state(account_id, collection, toks);
            let s1 = astep(s0, AEvent::Proceed).0;  // open the outer Not scope
            let s2 = astep(s1, AEvent::Proceed).0;  // open the inner Not scope
            let s3 = astep(s2, AEvent::Proceed).0;  // the leaf asks for the universe
            let s4 = astep(s3, AEvent::Bitmap(Some(u))).0;  // combine S against it
            let s5 = astep(s4, AEvent::Proceed).0;  // close the inner scope
            let s6 = astep(s5, AEvent::Proceed).0;  // close the outer scope
            astep(s6, AEvent::Proceed).1 == Ok::<AStep, QueryError>(
                AStep::Done(AResultSet { account_id, collection, results: s }),
            )
        }),
{
    let toks = seq![
        AFilter::Not,
        AFilter::Not,
        AFilter::DocumentSet(s),
        AFilter::End,
        AFilter::End,
    ];
    let s0 = init_state(account_id, collection, toks);
    assert(s0.phase == APhase::Ready);
    let s1 = astep(s0, AEvent::Proceed).0;
    assert(s1.frame == (AFrame { op: ScopeOp::Not, acc: None }));
    let s2 = astep(s1, AEvent::Proceed).0;
    let s3 = astep(s2, AEvent::Proceed).0;
    assert(s3.phase == (APhase::AwaitUniverse { pending: Some(s) }));
    let s4 = astep(s3, AEvent::Bitmap(Some(u))).0;
    assert(s4.frame.acc == Some(set_xor(s, u)));
    let s5 = astep(s4, AEvent::Proceed).0;
    assert(s5.frame.acc == Some(set_xor(set_xor(s, u), u)));
    lemma_xor_involutive(s, u);
    let s6 = astep(s5, AEvent::Proceed).0;
    assert(s6.frame.acc == Some(s));
    assert(acc_or_empty(s6.frame.acc) == s);
}

/// One visited key accounts for a returned document id: it lies in the
/// scanned field's key space, is long enough to carry the id suffix,
/// its value bytes truly satisfy the comparison, and its suffix decodes
/// to the id.
pub open spec fn key_yields(
    k: Seq<u8>,
    prefix: Seq<u8>,
    target: Seq<u8>,
    op: Operator,
    id: u32,
) -> bool {
    &&& has_prefix(k, prefix)
    &&& k.len() >= prefix.len() + U32_LEN
    &&& spec_value_matches(k.subrange(prefix.len() as int, k.len() - U32_LEN), op, target)
    &&& id == be_u32_value(k.subrange(k.len() - U32_LEN, k.len() as int))
}

proof fn lemma_scan_sound_from(
    keys: Seq<Seq<u8>>,
    prefix: Seq<u8>,
    target: Seq<u8>,
    op: Operator,
    i: int,
    id: u32,
)
    requires
        scan_result_from(keys, prefix, target, op, i) is Ok,
        scan_result_from(keys, prefix, target, op, i)->Ok_0.contains(id),
    ensures
        exists|j: int|
            i <= j < keys.len() && #[trigger] key_yields(keys[j], prefix, target, op, id),
    decreases keys.len() - i,
{
    if i < 0 || i >= keys.len() {
        assert(false);
    } else {
        let k = keys[i];
        if !has_prefix(k, prefix) {
            assert(false);
        } else {
            let rest = scan_result_from(keys, prefix, target, op, i + 1);
            let value = k.subrange(prefix.len() as int, k.len() - U32_LEN);
            let kid = be_u32_value(k.subrange(k.len() - U32_LEN, k.len() as int));
            if spec_value_matches(value, op, target) && id == kid {
                assert(key_yields(keys[i], prefix, target, op, id));
            } else {
                assert(rest->Ok_0.contains(id));
                lemma_scan_sound_from(keys, prefix, target, op, i + 1, id);
            }
        }
    }
}

/// Range-scan soundness: a scan never returns a document whose indexed
/// value fails the true comparison. The constructed key range is only a
/// coarse lexicographic bound; every id in a successful scan result is
/// vouched for by a visited key whose value bytes truly satisfy the
/// operator.
pub proof fn lemma_scan_sound(
    keys: Seq<Seq<u8>>,
    prefix: Seq<u8>,
    target: Seq<u8>,
    op: Operator,
    id: u32,
)
    requires
        scan_result(keys, prefix, target, op) is Ok,
        scan_result(keys, prefix, target, op)->Ok_0.contains(id),
    ensures
        exists|j: int|
            0 <= j < keys.len() && #[trigger] key_yields(keys[j], prefix, target, op, id),
{
    lemma_scan_sound_from(keys, prefix, target, op, 0, id);
}

proof fn lemma_scan_complete_from(
    keys: Seq<Seq<u8>>,
    prefix: Seq<u8>,
    target: Seq<u8>,
    op: Operator,
    i: int,
    j: int,
    id: u32,
)
    requires
        0 <= i <= j < keys.len(),
        forall|k: int| i <= k <= j ==> has_prefix(#[trigger] keys[k], prefix),
        scan_result_from(keys, prefix, target, op, i) is Ok,
        key_yields(keys[j], prefix, target, op, id),
    ensures
        scan_result_from(keys, prefix, target, op, i)->Ok_0.contains(id),
    decreases j - i,
{
    if i < j {
        lemma_scan_complete_from(keys, prefix, target, op, i + 1, j, id);
    }
}

/// Range-scan completeness: no qualifying document is dropped. If the
/// scan succeeded and a visited key vouches for an id — with every key
/// up to it still inside the field's key space, so the scan cannot have
/// stopped earlier — then that id is in the result.
pub proof fn lemma_scan_complete(
    keys: Seq<Seq<u8>>,
    prefix: Seq<u8>,
    target: Seq<u8>,
    op: Operator,
    j: int,
    id: u32,
)
    requires
        0 <= j < keys.len(),
        forall|k: int| 0 <= k <= j ==> has_prefix(#[trigger] keys[k], prefix),
        scan_result(keys, prefix, target, op) is Ok,
        key_yields(keys[j], prefix, target, op, id),
    ensures
        scan_result(keys, prefix, target, op)->Ok_0.contains(id),
{
    lemma_scan_complete_from(keys, prefix, target, op, 0, j, id);
}

/// Writing a document id as four big-endian bytes and reading them back
/// recovers the id: the codec's trailing suffix round-trips.
pub proof fn lemma_be_u32_round_trip(x: u32)
    ensures
        be_u32_value(u32_be_bytes(x)) == x,
{
    assert((x / 0x1000000) as u64 * 0x1000000 + ((x / 0x10000) % 0x100) as u64 * 0x10000 + ((x
        / 0x100) % 0x100) as u64 * 0x100 + (x % 0x100) as u64 == x as u64) by (bit_vector);
}

/// Four big-endian bytes order by bytes exactly as the 32-bit values
/// they encode order numerically.
pub proof fn lemma_be_u32_order(d1: u32, d2: u32)
    ensures
        lex_lt(u32_be_bytes(d1), u32_be_bytes(d2)) == (d1 < d2),
{
    reveal_with_fuel(lex_lt_from, 6);
    let a = u32_be_bytes(d1);
    let b = u32_be_bytes(d2);
    assert(lex_lt(a, b) == (a[0] < b[0] || (a[0] == b[0] && (a[1] < b[1] || (a[1] == b[1] && (a[2]
        < b[2] || (a[2] == b[2] && a[3] < b[3])))))));
    assert((((d1 / 0x1000000) as u8) < ((d2 / 0x1000000) as u8) || (((d1 / 0x1000000) as u8) == ((
    d2 / 0x1000000) as u8) && ((((d1 / 0x10000) % 0x100) as u8) < (((d2 / 0x10000) % 0x100) as u8)
        || ((((d1 / 0x10000) % 0x100) as u8) == (((d2 / 0x10000) % 0x100) as u8) && ((((d1 / 0x100)
        % 0x100) as u8) < (((d2 / 0x100) % 0x100) as u8) || ((((d1 / 0x100) % 0x100) as u8) == (((
    d2 / 0x100) % 0x100) as u8) && ((d1 % 0x100) as u8) < ((d2 % 0x100) as u8))))))) == (d1 < d2))
        by (bit_vector);
}

/// The codec's ordering guarantee: for one account, collection and
/// field, and value bytes of one width, index keys order by bytes
/// exactly as (value, document id) pairs order — so an ascending key
/// iteration visits field values in value order.
pub proof fn lemma_index_key_order(
    account_id: u32,
    collection: u8,
    field: u8,
    v1: Seq<u8>,
    d1: u32,
    v2: Seq<u8>,
    d2: u32,
)
    requires
        v1.len() == v2.len(),
    ensures
        lex_lt(
            index_key_bytes(account_id, collection, d1, field, v1),
            index_key_bytes(account_id, collection, d2, field, v2),
        ) == (lex_lt(v1, v2) || (v1 == v2 && d1 < d2)),
{
    let p = index_key_prefix_bytes(account_id, collection, field);
    let b1 = u32_be_bytes(d1);
    let b2 = u32_be_bytes(d2);
    let x = v1 + b1;
    let y = v2 + b2;
    assert(index_key_bytes(account_id, collection, d1, field, v1) =~= p + x);
    assert(index_key_bytes(account_id, collection, d2, field, v2) =~= p + y);
    lemma_lex_shared_prefix(p, x, y);
    if v1 == v2 {
        lemma_lex_shared_prefix(v1, b1, b2);
        lemma_be_u32_order(d1, d2);
        // equal values sort by the document id alone
        lemma_lex_shared_prefix(v1, Seq::empty(), Seq::empty());
        assert(v1 + Seq::<u8>::empty() =~= v1);
        assert(!lex_lt(v1, v2));
    } else {
        lemma_lex_connex(v1, v2);
        if lex_lt(v1, v2) {
            lemma_lex_extend(v1, v2, b1, b2);
        } else {
            assert(lex_lt(v2, v1));
            lemma_lex_extend(v2, v1, b2, b1);
        }
    }
}

} // verus!
