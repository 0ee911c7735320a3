//! Exact big-integer arithmetic for the wide-field precompile, carried by an
//! outside arbitrary-precision integer type behind value-level contracts.

use vstd::prelude::*;

verus! {

#[verifier::external_type_specification]
#[verifier::external_body]
pub struct ExBigUint(num::BigUint);

/// The natural number a big unsigned integer stands for.
pub uninterp spec fn big_value(b: num::BigUint) -> nat;

/// The value denoted by little-endian base-256 digits.
pub open spec fn spec_le_bytes_nat(s: Seq<u8>) -> nat
    decreases s.len(),
{
    if s.len() == 0 {
        0
    } else {
        (s.first() + 256 * spec_le_bytes_nat(s.drop_first())) as nat
    }
}

/// Relies on `BigUint::from(u32)`: the result denotes the argument.
#[verifier::external_body]
pub(crate) fn big_from_u32(x: u32) -> (r: num::BigUint)
    ensures
        big_value(r) == x,
{
    num::BigUint::from(x)
}

/// Relies on `BigUint::from_bytes_le`: the bytes are read as little-endian
/// base-256 digits.
#[verifier::external_body]
pub(crate) fn big_from_bytes_le(b: &Vec<u8>) -> (r: num::BigUint)
    ensures
        big_value(r) == spec_le_bytes_nat(b@),
{
    num::BigUint::from_bytes_le(b.as_slice())
}

/// The minimal little-endian base-256 encoding of a natural number: one
/// digit for zero, otherwise digits up to the most significant nonzero one.
pub open spec fn spec_min_le_bytes(v: nat) -> Seq<u8>
    decreases v,
{
    if v < 256 {
        seq![v as u8]
    } else {
        seq![(v % 256) as u8] + spec_min_le_bytes(v / 256)
    }
}

/// Relies on `BigUint::to_bytes_le`: the result is exactly the minimal
/// little-endian base-256 encoding of the value.
#[verifier::external_body]
pub(crate) fn big_to_bytes_le(b: &num::BigUint) -> (r: Vec<u8>)
    ensures
        r@ == spec_min_le_bytes(big_value(*b)),
{
    b.to_bytes_le()
}

/// The minimal encoding denotes the encoded value.
pub proof fn lemma_min_le_bytes_value(v: nat)
    ensures
        spec_le_bytes_nat(spec_min_le_bytes(v)) == v,
    decreases v,
{
    if v < 256 {
        let s = spec_min_le_bytes(v);
        assert(s.drop_first() =~= Seq::<u8>::empty());
        assert(spec_le_bytes_nat(Seq::<u8>::empty()) == 0);
        assert(s.first() == v as u8);
    } else {
        lemma_min_le_bytes_value(v / 256);
        let s = spec_min_le_bytes(v);
        assert(s.drop_first() =~= spec_min_le_bytes(v / 256));
        assert(s.first() == (v % 256) as u8);
        assert(v % 256 + 256 * (v / 256) == v) by {
            vstd::arithmetic::div_mod::lemma_fundamental_div_mod(v as int, 256);
        }
    }
}

/// The minimal encoding fits any digit count the value fits.
pub proof fn lemma_min_le_bytes_len(v: nat, n: int)
    requires
        n >= 1,
        v < spec_pow256(n as nat),
    ensures
        1 <= spec_min_le_bytes(v).len() <= n,
    decreases v,
{
    if v >= 256 {
        assert(n >= 2) by {
            if n == 1 {
                assert(spec_pow256(1) == 256);
            }
        }
        assert((v / 256) < spec_pow256((n - 1) as nat)) by {
            let p = spec_pow256((n - 1) as nat) as int;
            assert(spec_pow256(n as nat) == 256 * p);
            assert(v < 256 * p);
            assert((v as int) / 256 < p) by (nonlinear_arith)
                requires
                    (v as int) < 256 * p,
                    p >= 1,
            ;
        }
        lemma_min_le_bytes_len(v / 256, n - 1);
    }
}

/// Powers of 256.
pub open spec fn spec_pow256(n: nat) -> nat
    decreases n,
{
    if n == 0 {
        1
    } else {
        256 * spec_pow256((n - 1) as nat)
    }
}

/// Relies on `Add` for `&BigUint`: exact natural addition.
#[verifier::external_body]
pub(crate) fn big_add(a: &num::BigUint, b: &num::BigUint) -> (r: num::BigUint)
    ensures
        big_value(r) == big_value(*a) + big_value(*b),
{
    a + b
}

/// Relies on `Mul` for `&BigUint`: exact natural multiplication.
#[verifier::external_body]
pub(crate) fn big_mul(a: &num::BigUint, b: &num::BigUint) -> (r: num::BigUint)
    ensures
        big_value(r) == big_value(*a) * big_value(*b),
{
    a * b
}

/// Relies on `Sub` for `&BigUint`: exact natural subtraction; the smaller
/// operand is never subtracted from, so the panic on underflow is
/// unreachable.
#[verifier::external_body]
pub(crate) fn big_sub(a: &num::BigUint, b: &num::BigUint) -> (r: num::BigUint)
    requires
        big_value(*b) <= big_value(*a),
    ensures
        big_value(r) == big_value(*a) - big_value(*b),
{
    a - b
}

/// Relies on `Rem` for `&BigUint`: the Euclidean remainder; the divisor is
/// never zero, so the panic on division by zero is unreachable.
#[verifier::external_body]
pub(crate) fn big_rem(a: &num::BigUint, m: &num::BigUint) -> (r: num::BigUint)
    requires
        big_value(*m) > 0,
    ensures
        big_value(r) == big_value(*a) % big_value(*m),
{
    a % m
}

/// Relies on `Clone` for `BigUint`: the copy denotes the same value.
#[verifier::external_body]
pub(crate) fn big_clone(a: &num::BigUint) -> (r: num::BigUint)
    ensures
        big_value(r) == big_value(*a),
{
    a.clone()
}

/// A little-endian digit string denotes less than the base raised to its
/// length.
pub proof fn lemma_le_bytes_bound(s: Seq<u8>)
    ensures
        spec_le_bytes_nat(s) < spec_pow256(s.len()),
    decreases s.len(),
{
    if s.len() == 0 {
    } else {
        lemma_le_bytes_bound(s.drop_first());
        assert(spec_le_bytes_nat(s) == s.first() + 256 * spec_le_bytes_nat(s.drop_first()));
        assert(256 * spec_le_bytes_nat(s.drop_first()) <= 256 * (spec_pow256(s.drop_first().len())
            - 1)) by (nonlinear_arith)
            requires
                spec_le_bytes_nat(s.drop_first()) <= spec_pow256(s.drop_first().len()) - 1,
        ;
    }
}

/// Trailing zero digits do not change the denoted value.
pub proof fn lemma_le_bytes_pad(s: Seq<u8>, k: nat)
    ensures
        spec_le_bytes_nat(s + Seq::new(k, |i: int| 0u8)) == spec_le_bytes_nat(s),
    decreases s.len(),
{
    let z = Seq::new(k, |i: int| 0u8);
    if s.len() == 0 {
        assert(s + z =~= z);
        lemma_le_bytes_zeros(k);
    } else {
        assert((s + z).first() == s.first());
        assert((s + z).drop_first() =~= s.drop_first() + z);
        lemma_le_bytes_pad(s.drop_first(), k);
    }
}

/// All-zero digits denote zero.
pub proof fn lemma_le_bytes_zeros(k: nat)
    ensures
        spec_le_bytes_nat(Seq::new(k, |i: int| 0u8)) == 0,
    decreases k,
{
    let z = Seq::new(k, |i: int| 0u8);
    if k > 0 {
        assert(z.first() == 0);
        assert(z.drop_first() =~= Seq::new((k - 1) as nat, |i: int| 0u8));
        lemma_le_bytes_zeros((k - 1) as nat);
    }
}

} // verus!
