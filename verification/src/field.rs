//! The base field and its degree-four extension.
//!
//! Trace cells are canonical representatives of a 31-bit prime field; the
//! cross-table argument and the transcript challenges live in a degree-four
//! extension whose operations are defined componentwise over the base field.

use vstd::prelude::*;
use vstd::arithmetic::div_mod::{lemma_add_mod_noop, lemma_small_mod};

verus! {

/// The prime modulus of the base field: a 31-bit prime with high two-adicity.
pub const FIELD_PRIME: u64 = 2013265921;

/// A base-field element is a canonical representative below the modulus.
pub open spec fn fe_valid(x: u64) -> bool {
    x < FIELD_PRIME
}

/// Reduction of an arbitrary integer into the canonical range of the field.
pub open spec fn fe_reduce(x: int) -> u64 {
    (x % (FIELD_PRIME as int)) as u64
}

pub open spec fn spec_fe_add(a: u64, b: u64) -> u64 {
    fe_reduce(a + b)
}

pub open spec fn spec_fe_mul(a: u64, b: u64) -> u64 {
    fe_reduce(a * b)
}

pub open spec fn spec_fe_neg(a: u64) -> u64 {
    fe_reduce(FIELD_PRIME - a)
}

/// Field addition on canonical representatives.
pub fn fe_add(a: u64, b: u64) -> (r: u64)
    requires
        fe_valid(a),
        fe_valid(b),
    ensures
        r == spec_fe_add(a, b),
        fe_valid(r),
{
    (a + b) % FIELD_PRIME
}

/// Field multiplication on canonical representatives.
pub fn fe_mul(a: u64, b: u64) -> (r: u64)
    requires
        fe_valid(a),
        fe_valid(b),
    ensures
        r == spec_fe_mul(a, b),
        fe_valid(r),
{
    proof {
        assert(a * b <= (FIELD_PRIME - 1) * (FIELD_PRIME - 1)) by (nonlinear_arith)
            requires
                a < FIELD_PRIME,
                b < FIELD_PRIME,
        ;
    }
    (a * b) % FIELD_PRIME
}

/// Field negation on canonical representatives.
pub fn fe_neg(a: u64) -> (r: u64)
    requires
        fe_valid(a),
    ensures
        r == spec_fe_neg(a),
        fe_valid(r),
{
    (FIELD_PRIME - a) % FIELD_PRIME
}

/// Reduction of a machine word into the field.
pub fn fe_from_u64(x: u64) -> (r: u64)
    ensures
        r == fe_reduce(x as int),
        fe_valid(r),
{
    x % FIELD_PRIME
}

/// An element of the degree-four extension of the base field, stored as four
/// base-field coordinates.
#[derive(Clone, Copy, Debug, PartialEq, Eq, Structural)]
pub struct Ext4 {
    pub c0: u64,
    pub c1: u64,
    pub c2: u64,
    pub c3: u64,
}

pub open spec fn ext_valid(e: Ext4) -> bool {
    fe_valid(e.c0) && fe_valid(e.c1) && fe_valid(e.c2) && fe_valid(e.c3)
}

pub open spec fn spec_ext_zero() -> Ext4 {
    Ext4 { c0: 0, c1: 0, c2: 0, c3: 0 }
}

pub open spec fn spec_ext_add(a: Ext4, b: Ext4) -> Ext4 {
    Ext4 {
        c0: spec_fe_add(a.c0, b.c0),
        c1: spec_fe_add(a.c1, b.c1),
        c2: spec_fe_add(a.c2, b.c2),
        c3: spec_fe_add(a.c3, b.c3),
    }
}

pub open spec fn spec_ext_neg(a: Ext4) -> Ext4 {
    Ext4 {
        c0: spec_fe_neg(a.c0),
        c1: spec_fe_neg(a.c1),
        c2: spec_fe_neg(a.c2),
        c3: spec_fe_neg(a.c3),
    }
}

/// The multiplication constant of the binomial extension: the extension is
/// generated by a root of `x^4 - W`.
pub const EXT_W: u64 = 11;

/// Multiplication in the binomial degree-four extension, written as the
/// schoolbook product reduced by `x^4 == W`, with every intermediate value
/// reduced into the base field.
#[verifier::opaque]
pub open spec fn spec_ext_mul(a: Ext4, b: Ext4) -> Ext4 {
    Ext4 {
        c0: spec_fe_add(
            spec_fe_mul(a.c0, b.c0),
            spec_fe_mul(
                EXT_W,
                spec_fe_add(
                    spec_fe_add(spec_fe_mul(a.c1, b.c3), spec_fe_mul(a.c2, b.c2)),
                    spec_fe_mul(a.c3, b.c1),
                ),
            ),
        ),
        c1: spec_fe_add(
            spec_fe_add(spec_fe_mul(a.c0, b.c1), spec_fe_mul(a.c1, b.c0)),
            spec_fe_mul(
                EXT_W,
                spec_fe_add(spec_fe_mul(a.c2, b.c3), spec_fe_mul(a.c3, b.c2)),
            ),
        ),
        c2: spec_fe_add(
            spec_fe_add(
                spec_fe_add(spec_fe_mul(a.c0, b.c2), spec_fe_mul(a.c1, b.c1)),
                spec_fe_mul(a.c2, b.c0),
            ),
            spec_fe_mul(EXT_W, spec_fe_mul(a.c3, b.c3)),
        ),
        c3: spec_fe_add(
            spec_fe_add(
                spec_fe_add(spec_fe_mul(a.c0, b.c3), spec_fe_mul(a.c1, b.c2)),
                spec_fe_mul(a.c2, b.c1),
            ),
            spec_fe_mul(a.c3, b.c0),
        ),
    }
}

/// Embedding of a base-field element into the extension.
pub open spec fn spec_ext_embed(x: u64) -> Ext4 {
    Ext4 { c0: x, c1: 0, c2: 0, c3: 0 }
}

pub fn ext_zero() -> (r: Ext4)
    ensures
        r == spec_ext_zero(),
        ext_valid(r),
{
    Ext4 { c0: 0, c1: 0, c2: 0, c3: 0 }
}

pub fn ext_embed(x: u64) -> (r: Ext4)
    requires
        fe_valid(x),
    ensures
        r == spec_ext_embed(x),
        ext_valid(r),
{
    Ext4 { c0: x, c1: 0, c2: 0, c3: 0 }
}

pub fn ext_add(a: Ext4, b: Ext4) -> (r: Ext4)
    requires
        ext_valid(a),
        ext_valid(b),
    ensures
        r == spec_ext_add(a, b),
        ext_valid(r),
{
    Ext4 {
        c0: fe_add(a.c0, b.c0),
        c1: fe_add(a.c1, b.c1),
        c2: fe_add(a.c2, b.c2),
        c3: fe_add(a.c3, b.c3),
    }
}

pub fn ext_neg(a: Ext4) -> (r: Ext4)
    requires
        ext_valid(a),
    ensures
        r == spec_ext_neg(a),
        ext_valid(r),
{
    Ext4 { c0: fe_neg(a.c0), c1: fe_neg(a.c1), c2: fe_neg(a.c2), c3: fe_neg(a.c3) }
}

pub fn ext_mul(a: Ext4, b: Ext4) -> (r: Ext4)
    requires
        ext_valid(a),
        ext_valid(b),
    ensures
        r == spec_ext_mul(a, b),
        ext_valid(r),
{
    proof {
        reveal(spec_ext_mul);
    }
    let c0 = fe_add(
        fe_mul(a.c0, b.c0),
        fe_mul(EXT_W, fe_add(fe_add(fe_mul(a.c1, b.c3), fe_mul(a.c2, b.c2)), fe_mul(a.c3, b.c1))),
    );
    let c1 = fe_add(
        fe_add(fe_mul(a.c0, b.c1), fe_mul(a.c1, b.c0)),
        fe_mul(EXT_W, fe_add(fe_mul(a.c2, b.c3), fe_mul(a.c3, b.c2))),
    );
    let c2 = fe_add(
        fe_add(fe_add(fe_mul(a.c0, b.c2), fe_mul(a.c1, b.c1)), fe_mul(a.c2, b.c0)),
        fe_mul(EXT_W, fe_mul(a.c3, b.c3)),
    );
    let c3 = fe_add(
        fe_add(fe_add(fe_mul(a.c0, b.c3), fe_mul(a.c1, b.c2)), fe_mul(a.c2, b.c1)),
        fe_mul(a.c3, b.c0),
    );
    Ext4 { c0, c1, c2, c3 }
}

pub proof fn lemma_fe_add_comm(a: u64, b: u64)
    ensures
        spec_fe_add(a, b) == spec_fe_add(b, a),
{
}

pub proof fn lemma_fe_add_zero(a: u64)
    requires
        fe_valid(a),
    ensures
        spec_fe_add(a, 0) == a,
{
    lemma_small_mod(a as nat, FIELD_PRIME as nat);
}

pub proof fn lemma_fe_add_assoc(a: u64, b: u64, c: u64)
    requires
        fe_valid(a),
        fe_valid(b),
        fe_valid(c),
    ensures
        spec_fe_add(spec_fe_add(a, b), c) == spec_fe_add(a, spec_fe_add(b, c)),
{
    let p = FIELD_PRIME as int;
    lemma_small_mod(a as nat, FIELD_PRIME as nat);
    lemma_small_mod(c as nat, FIELD_PRIME as nat);
    lemma_add_mod_noop(a + b, c as int, p);
    lemma_add_mod_noop(a as int, b + c, p);
    assert((a + b) % p + (c as int) % p == (a + b) % p + c);
    assert((a as int) % p + (b + c) % p == a + (b + c) % p);
    assert((a + b + c) % p == (a + (b + c)) % p);
}

pub proof fn lemma_fe_neg_add(a: u64, b: u64)
    requires
        fe_valid(a),
        fe_valid(b),
    ensures
        spec_fe_add(spec_fe_neg(a), spec_fe_neg(b)) == spec_fe_neg(spec_fe_add(a, b)),
{
    let p = FIELD_PRIME as int;
    lemma_add_mod_noop(p - a, p - b, p);
    assert((((p - a) % p) + ((p - b) % p)) % p == ((p - a) + (p - b)) % p);
    lemma_add_mod_noop(p - (a + b), p, p);
    assert((p - (a + b) % p) % p == ((p - (a + b)) % p + p % p) % p) by {
        lemma_add_mod_noop(p - (a + b), a + b, p);
        lemma_sub_mod_eq(p - (a + b), (a + b) % p - (a + b), p);
    }
    lemma_sub_mod_eq((p - a) + (p - b), p, p);
}

/// Two integers that differ by a multiple of the modulus reduce alike.
proof fn lemma_sub_mod_eq(x: int, d: int, m: int)
    requires
        m > 0,
        d % m == 0,
    ensures
        (x + d) % m == x % m,
{
    vstd::arithmetic::div_mod::lemma_mod_adds(x, d, m);
}

pub proof fn lemma_fe_add_neg(a: u64)
    requires
        fe_valid(a),
    ensures
        spec_fe_add(a, spec_fe_neg(a)) == 0,
{
    let p = FIELD_PRIME as int;
    if a == 0 {
        assert((p - 0) % p == 0) by {
            lemma_sub_mod_eq(0, p, p);
        }
    } else {
        lemma_small_mod((FIELD_PRIME - a) as nat, FIELD_PRIME as nat);
        assert((a + (p - a)) % p == 0) by {
            lemma_sub_mod_eq(0, p, p);
        }
    }
}

pub proof fn lemma_ext_add_comm(a: Ext4, b: Ext4)
    ensures
        spec_ext_add(a, b) == spec_ext_add(b, a),
{
}

pub proof fn lemma_ext_add_zero(a: Ext4)
    requires
        ext_valid(a),
    ensures
        spec_ext_add(a, spec_ext_zero()) == a,
        spec_ext_add(spec_ext_zero(), a) == a,
{
    lemma_fe_add_zero(a.c0);
    lemma_fe_add_zero(a.c1);
    lemma_fe_add_zero(a.c2);
    lemma_fe_add_zero(a.c3);
    lemma_ext_add_comm(a, spec_ext_zero());
}

pub proof fn lemma_ext_add_assoc(a: Ext4, b: Ext4, c: Ext4)
    requires
        ext_valid(a),
        ext_valid(b),
        ext_valid(c),
    ensures
        spec_ext_add(spec_ext_add(a, b), c) == spec_ext_add(a, spec_ext_add(b, c)),
{
    lemma_fe_add_assoc(a.c0, b.c0, c.c0);
    lemma_fe_add_assoc(a.c1, b.c1, c.c1);
    lemma_fe_add_assoc(a.c2, b.c2, c.c2);
    lemma_fe_add_assoc(a.c3, b.c3, c.c3);
}

pub proof fn lemma_ext_neg_add(a: Ext4, b: Ext4)
    requires
        ext_valid(a),
        ext_valid(b),
    ensures
        spec_ext_add(spec_ext_neg(a), spec_ext_neg(b)) == spec_ext_neg(spec_ext_add(a, b)),
{
    lemma_fe_neg_add(a.c0, b.c0);
    lemma_fe_neg_add(a.c1, b.c1);
    lemma_fe_neg_add(a.c2, b.c2);
    lemma_fe_neg_add(a.c3, b.c3);
}

pub proof fn lemma_ext_add_neg(a: Ext4)
    requires
        ext_valid(a),
    ensures
        spec_ext_add(a, spec_ext_neg(a)) == spec_ext_zero(),
{
    lemma_fe_add_neg(a.c0);
    lemma_fe_add_neg(a.c1);
    lemma_fe_add_neg(a.c2);
    lemma_fe_add_neg(a.c3);
}

pub proof fn lemma_ext_mul_valid(a: Ext4, b: Ext4)
    ensures
        ext_valid(spec_ext_mul(a, b)),
{
    reveal(spec_ext_mul);
}

/// The sum of a sequence of extension elements, folded from the left.
pub open spec fn spec_ext_sum(s: Seq<Ext4>) -> Ext4
    decreases s.len(),
{
    if s.len() == 0 {
        spec_ext_zero()
    } else {
        spec_ext_add(spec_ext_sum(s.drop_last()), s.last())
    }
}

pub proof fn lemma_ext_sum_valid(s: Seq<Ext4>)
    ensures
        ext_valid(spec_ext_sum(s)),
    decreases s.len(),
{
    if s.len() > 0 {
        lemma_ext_sum_valid(s.drop_last());
    }
}

/// The sum of a single element is that element.
pub proof fn lemma_ext_sum_singleton(x: Ext4)
    requires
        ext_valid(x),
    ensures
        spec_ext_sum(seq![x]) == x,
{
    assert(seq![x].drop_last() =~= Seq::<Ext4>::empty());
    assert(spec_ext_sum(Seq::<Ext4>::empty()) == spec_ext_zero());
    assert(seq![x].last() == x);
    assert(spec_ext_sum(seq![x]) == spec_ext_add(spec_ext_zero(), x));
    lemma_ext_add_zero(x);
    lemma_ext_add_comm(spec_ext_zero(), x);
}

/// Summation distributes over concatenation.
pub proof fn lemma_ext_sum_concat(a: Seq<Ext4>, b: Seq<Ext4>)
    requires
        forall|i: int| 0 <= i < a.len() ==> ext_valid(#[trigger] a[i]),
        forall|i: int| 0 <= i < b.len() ==> ext_valid(#[trigger] b[i]),
    ensures
        spec_ext_sum(a + b) == spec_ext_add(spec_ext_sum(a), spec_ext_sum(b)),
    decreases b.len(),
{
    if b.len() == 0 {
        assert(a + b =~= a);
        lemma_ext_sum_valid(a);
        lemma_ext_add_zero(spec_ext_sum(a));
    } else {
        assert((a + b).drop_last() =~= a + b.drop_last());
        assert((a + b).last() == b.last());
        lemma_ext_sum_concat(a, b.drop_last());
        lemma_ext_sum_valid(a);
        lemma_ext_sum_valid(b.drop_last());
        lemma_ext_add_assoc(spec_ext_sum(a), spec_ext_sum(b.drop_last()), b.last());
    }
}

/// Negating every summand negates the sum.
pub proof fn lemma_ext_sum_neg(s: Seq<Ext4>)
    requires
        forall|i: int| 0 <= i < s.len() ==> ext_valid(#[trigger] s[i]),
    ensures
        spec_ext_sum(s.map_values(|e: Ext4| spec_ext_neg(e))) == spec_ext_neg(spec_ext_sum(s)),
    decreases s.len(),
{
    let m = s.map_values(|e: Ext4| spec_ext_neg(e));
    if s.len() == 0 {
        assert(m.len() == 0);
        assert(spec_ext_neg(spec_ext_zero()) == spec_ext_zero()) by {
            lemma_fe_add_neg(0);
            lemma_fe_add_zero(spec_fe_neg(0));
            assert(spec_fe_add(0, spec_fe_neg(0)) == spec_fe_add(spec_fe_neg(0), 0));
        }
    } else {
        assert(m.drop_last() =~= s.drop_last().map_values(|e: Ext4| spec_ext_neg(e)));
        assert(m.last() == spec_ext_neg(s.last()));
        lemma_ext_sum_neg(s.drop_last());
        lemma_ext_sum_valid(s.drop_last());
        lemma_ext_neg_add(spec_ext_sum(s.drop_last()), s.last());
    }
}

/// The sum of a sequence that is zero everywhere but one place is the
/// entry at that place.
pub proof fn lemma_ext_sum_single(s: Seq<Ext4>, i: int)
    requires
        0 <= i < s.len(),
        ext_valid(s[i]),
        forall|j: int| 0 <= j < s.len() && j != i ==> #[trigger] s[j] == spec_ext_zero(),
    ensures
        spec_ext_sum(s) == s[i],
    decreases s.len(),
{
    if i == s.len() - 1 {
        lemma_ext_sum_zeros(s.drop_last());
        lemma_ext_add_zero(s[i]);
        lemma_ext_add_comm(spec_ext_zero(), s[i]);
    } else {
        lemma_ext_sum_single(s.drop_last(), i);
        lemma_ext_add_zero(s[i]);
    }
}

/// The sum of an all-zero sequence is zero.
pub proof fn lemma_ext_sum_zeros(s: Seq<Ext4>)
    requires
        forall|j: int| 0 <= j < s.len() ==> #[trigger] s[j] == spec_ext_zero(),
    ensures
        spec_ext_sum(s) == spec_ext_zero(),
    decreases s.len(),
{
    if s.len() > 0 {
        lemma_ext_sum_zeros(s.drop_last());
        lemma_ext_add_zero(spec_ext_zero());
    }
}

/// Raising one entry of a sequence by `x` raises the sum by `x`.
pub proof fn lemma_ext_sum_bump(s: Seq<Ext4>, i: int, x: Ext4)
    requires
        0 <= i < s.len(),
        forall|j: int| 0 <= j < s.len() ==> ext_valid(#[trigger] s[j]),
        ext_valid(x),
    ensures
        spec_ext_sum(s.update(i, spec_ext_add(s[i], x))) == spec_ext_add(spec_ext_sum(s), x),
    decreases s.len(),
{
    let u = s.update(i, spec_ext_add(s[i], x));
    if i == s.len() - 1 {
        assert(u.drop_last() =~= s.drop_last());
        assert(u.last() == spec_ext_add(s.last(), x));
        lemma_ext_sum_valid(s.drop_last());
        lemma_ext_add_assoc(spec_ext_sum(s.drop_last()), s.last(), x);
    } else {
        assert(u.drop_last() =~= s.drop_last().update(i, spec_ext_add(s[i], x)));
        assert(u.last() == s.last());
        lemma_ext_sum_bump(s.drop_last(), i, x);
        let a = spec_ext_sum(s.drop_last());
        lemma_ext_sum_valid(s.drop_last());
        lemma_ext_add_assoc(a, x, s.last());
        lemma_ext_add_comm(x, s.last());
        lemma_ext_add_assoc(a, s.last(), x);
    }
}

} // verus!
