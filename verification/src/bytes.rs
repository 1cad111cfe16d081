//! Ordered byte strings: lexicographic comparison, prefix tests and
//! subrange extraction, used by the range scanner to re-test candidate
//! keys against the true comparison value.

use vstd::prelude::*;

verus! {

/// Strict lexicographic order on byte strings, examined from index `i`
/// on: a proper prefix sorts first, otherwise the first differing byte
/// decides.
pub open spec fn lex_lt_from(a: Seq<u8>, b: Seq<u8>, i: int) -> bool
    decreases a.len() - i,
{
    if i >= b.len() {
        false
    } else if i >= a.len() {
        true
    } else if a[i] < b[i] {
        true
    } else if a[i] > b[i] {
        false
    } else {
        lex_lt_from(a, b, i + 1)
    }
}

/// Strict lexicographic order on whole byte strings.
pub open spec fn lex_lt(a: Seq<u8>, b: Seq<u8>) -> bool {
    lex_lt_from(a, b, 0)
}

/// `p` is a prefix of `s`.
pub open spec fn has_prefix(s: Seq<u8>, p: Seq<u8>) -> bool {
    s.len() >= p.len() && s.subrange(0, p.len() as int) == p
}

/// Outcome of comparing two byte strings.
#[derive(Clone, Copy, PartialEq, Eq, Structural, Debug)]
pub enum ByteCmp {
    Lt,
    Eq,
    Gt,
}

/// Compares two byte strings in lexicographic order.
pub fn lex_compare(a: &Vec<u8>, b: &Vec<u8>) -> (r: ByteCmp)
    ensures
        (r == ByteCmp::Eq) <==> a@ == b@,
        (r == ByteCmp::Lt) <==> lex_lt(a@, b@),
        (r == ByteCmp::Gt) <==> lex_lt(b@, a@),
{
    let mut i: usize = 0;
    while i < a.len() && i < b.len()
        invariant
            i <= a.len(),
            i <= b.len(),
            forall|j: int| 0 <= j < i ==> a@[j] == b@[j],
            lex_lt_from(a@, b@, 0) == lex_lt_from(a@, b@, i as int),
            lex_lt_from(b@, a@, 0) == lex_lt_from(b@, a@, i as int),
        decreases a.len() - i,
    {
        let x = a[i];
        let y = b[i];
        if x < y {
            assert(lex_lt_from(a@, b@, i as int));
            assert(!lex_lt_from(b@, a@, i as int));
            assert(a@ != b@) by {
                assert(a@[i as int] != b@[i as int]);
            }
            return ByteCmp::Lt;
        }
        if x > y {
            assert(!lex_lt_from(a@, b@, i as int));
            assert(lex_lt_from(b@, a@, i as int));
            assert(a@ != b@) by {
                assert(a@[i as int] != b@[i as int]);
            }
            return ByteCmp::Gt;
        }
        assert(lex_lt_from(a@, b@, i as int) == lex_lt_from(a@, b@, i + 1));
        assert(lex_lt_from(b@, a@, i as int) == lex_lt_from(b@, a@, i + 1));
        i = i + 1;
    }
    if a.len() < b.len() {
        assert(lex_lt_from(a@, b@, i as int));
        assert(!lex_lt_from(b@, a@, i as int));
        assert(a@.len() != b@.len());
        ByteCmp::Lt
    } else if a.len() > b.len() {
        assert(!lex_lt_from(a@, b@, i as int));
        assert(lex_lt_from(b@, a@, i as int));
        assert(a@.len() != b@.len());
        ByteCmp::Gt
    } else {
        assert(!lex_lt_from(a@, b@, i as int));
        assert(!lex_lt_from(b@, a@, i as int));
        assert(a@ =~= b@);
        ByteCmp::Eq
    }
}

/// True when the key begins with the given prefix; a scan stops at the
/// first key that leaves the target field's key space.
pub fn starts_with(s: &Vec<u8>, p: &Vec<u8>) -> (r: bool)
    ensures
        r == has_prefix(s@, p@),
{
    if s.len() < p.len() {
        assert(!has_prefix(s@, p@));
        return false;
    }
    let mut i: usize = 0;
    while i < p.len()
        invariant
            i <= p.len(),
            p.len() <= s.len(),
            forall|j: int| 0 <= j < i ==> s@[j] == p@[j],
        decreases p.len() - i,
    {
        if s[i] != p[i] {
            assert(!has_prefix(s@, p@)) by {
                assert(s@.subrange(0, p@.len() as int)[i as int] != p@[i as int]);
            }
            return false;
        }
        i = i + 1;
    }
    assert(s@.subrange(0, p@.len() as int) =~= p@);
    true
}

/// Copies the byte range `[from, to)` out of a key, as the scanner does
/// to extract the value bytes between the fixed prefix and the trailing
/// document id.
pub fn copy_range(v: &Vec<u8>, from: usize, to: usize) -> (r: Vec<u8>)
    requires
        from <= to <= v@.len(),
    ensures
        r@ == v@.subrange(from as int, to as int),
{
    let mut r: Vec<u8> = Vec::new();
    let mut i: usize = from;
    while i < to
        invariant
            from <= i <= to <= v@.len(),
            r@ == v@.subrange(from as int, i as int),
        decreases to - i,
    {
        r.push(v[i]);
        assert(r@ =~= v@.subrange(from as int, i + 1));
        i = i + 1;
    }
    r
}

proof fn lemma_lex_shift(p: Seq<u8>, x: Seq<u8>, y: Seq<u8>, i: int)
    requires
        0 <= i <= x.len(),
        i <= y.len(),
    ensures
        lex_lt_from(p + x, p + y, p.len() + i) == lex_lt_from(x, y, i),
    decreases x.len() - i,
{
    if i >= y.len() {
    } else if i >= x.len() {
    } else {
        assert((p + x)[p.len() + i] == x[i]);
        assert((p + y)[p.len() + i] == y[i]);
        if x[i] == y[i] {
            lemma_lex_shift(p, x, y, i + 1);
        }
    }
}

proof fn lemma_lex_common(p: Seq<u8>, x: Seq<u8>, y: Seq<u8>, j: int)
    requires
        0 <= j <= p.len(),
    ensures
        lex_lt_from(p + x, p + y, j) == lex_lt_from(p + x, p + y, p.len() as int),
    decreases p.len() - j,
{
    if j < p.len() {
        assert((p + x)[j] == p[j]);
        assert((p + y)[j] == p[j]);
        lemma_lex_common(p, x, y, j + 1);
    }
}

/// A shared prefix does not decide the order: two byte strings that
/// start with the same bytes compare as their suffixes do.
pub proof fn lemma_lex_shared_prefix(p: Seq<u8>, x: Seq<u8>, y: Seq<u8>)
    ensures
        lex_lt(p + x, p + y) == lex_lt(x, y),
{
    lemma_lex_common(p, x, y, 0);
    lemma_lex_shift(p, x, y, 0);
}

proof fn lemma_lex_extend_from(x: Seq<u8>, y: Seq<u8>, s: Seq<u8>, t: Seq<u8>, i: int)
    requires
        x.len() == y.len(),
        0 <= i <= x.len(),
        lex_lt_from(x, y, i),
    ensures
        lex_lt_from(x + s, y + t, i),
        !lex_lt_from(y + t, x + s, i),
    decreases x.len() - i,
{
    assert(i < x.len());
    assert((x + s)[i] == x[i]);
    assert((y + t)[i] == y[i]);
    if x[i] == y[i] {
        lemma_lex_extend_from(x, y, s, t, i + 1);
    }
}

/// A strict order between equal-length byte strings survives any
/// extension of either: the first difference already decided it.
pub proof fn lemma_lex_extend(x: Seq<u8>, y: Seq<u8>, s: Seq<u8>, t: Seq<u8>)
    requires
        x.len() == y.len(),
        lex_lt(x, y),
    ensures
        lex_lt(x + s, y + t),
        !lex_lt(y + t, x + s),
{
    lemma_lex_extend_from(x, y, s, t, 0);
}

proof fn lemma_lex_connex_from(a: Seq<u8>, b: Seq<u8>, i: int)
    requires
        0 <= i <= a.len(),
        i <= b.len(),
        !lex_lt_from(a, b, i),
        !lex_lt_from(b, a, i),
    ensures
        a.len() == b.len(),
        forall|j: int| i <= j < a.len() ==> a[j] == b[j],
    decreases a.len() - i,
{
    if i >= b.len() {
        assert(i == b.len());
        if i < a.len() {
            assert(lex_lt_from(b, a, i));
        }
    } else if i >= a.len() {
        assert(lex_lt_from(a, b, i));
    } else {
        lemma_lex_connex_from(a, b, i + 1);
    }
}

/// The order is connex: two byte strings of which neither sorts before
/// the other are equal.
pub proof fn lemma_lex_connex(a: Seq<u8>, b: Seq<u8>)
    ensures
        (!lex_lt(a, b) && !lex_lt(b, a)) ==> a == b,
{
    if !lex_lt(a, b) && !lex_lt(b, a) {
        lemma_lex_connex_from(a, b, 0);
        assert(a =~= b);
    }
}

/// An identical copy of a byte string.
pub fn clone_bytes(v: &Vec<u8>) -> (r: Vec<u8>)
    ensures
        r@ == v@,
{
    let r = copy_range(v, 0, v.len());
    proof {
        assert(v@.subrange(0, v@.len() as int) =~= v@);
    }
    r
}

} // verus!
