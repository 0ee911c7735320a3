//! The degree-twelve extension-field multiplication precompile: its event,
//! its column groups, and its trace generation over exact big-integer
//! arithmetic.

use vstd::prelude::*;
use crate::bigint::{
    big_add, big_clone, big_from_u32, big_mul, big_rem, big_sub, big_to_bytes_le, big_value,
};
use crate::record::ByteLookupEvent;

verus! {

/// Modular addition of field-element values.
pub open spec fn f_add(a: int, b: int, m: int) -> int {
    (a + b) % m
}

/// Modular multiplication of field-element values.
pub open spec fn f_mul(a: int, b: int, m: int) -> int {
    (a * b) % m
}

/// Modular subtraction of field-element values, computed on reduced
/// representatives so it never underflows.
pub open spec fn f_sub(a: int, b: int, m: int) -> int {
    ((a % m) + m - (b % m)) % m
}

/// The values denoted by a vector of big integers.
pub open spec fn vals(v: Seq<num::BigUint>) -> Seq<int> {
    Seq::new(v.len(), |i: int| big_value(v[i]) as int)
}

/// The arithmetic operations a field-operation column group can carry.
#[derive(Clone, Copy, Debug, PartialEq, Eq, Structural)]
pub enum FieldOperation {
    Add,
    Mul,
    Sub,
    Div,
}

/// The result of one field operation on values.
pub open spec fn spec_field_op(op: FieldOperation, a: int, b: int, m: int) -> int {
    match op {
        FieldOperation::Add => f_add(a, b, m),
        FieldOperation::Mul => f_mul(a, b, m),
        FieldOperation::Sub => f_sub(a, b, m),
        FieldOperation::Div => f_mul(a, b, m),
    }
}

/// The byte range checks derived for one wide-field operation result: one
/// check per digit of the result's minimal little-endian encoding.
#[verifier::opaque]
pub open spec fn spec_result_checks(v: nat) -> Seq<ByteLookupEvent> {
    Seq::new(
        crate::bigint::spec_min_le_bytes(v).len(),
        |i: int| ByteLookupEvent { value: crate::bigint::spec_min_le_bytes(v)[i] },
    )
}

/// The witness columns of one wide-field operation; the model keeps the
/// reduced result value.
pub struct FieldOpCols {
    pub result: num::BigUint,
}

impl FieldOpCols {
    /// A column group holding a zero result.
    pub fn new() -> (r: FieldOpCols)
        ensures
            big_value(r.result) == 0,
    {
        FieldOpCols { result: big_from_u32(0) }
    }

    /// Fills the column group with the reduced result of one operation and
    /// appends the derived byte range checks for the result's bytes.
    /// Division is not carried by this precompile's trace.
    pub fn populate(
        &mut self,
        events: &mut Vec<ByteLookupEvent>,
        shard: u32,
        channel: u32,
        a: &num::BigUint,
        b: &num::BigUint,
        modulus: &num::BigUint,
        op: FieldOperation,
    )
        requires
            big_value(*modulus) > 0,
            op != FieldOperation::Div,
        ensures
            big_value(final(self).result) == spec_field_op(
                op,
                big_value(*a) as int,
                big_value(*b) as int,
                big_value(*modulus) as int,
            ),
            big_value(final(self).result) < big_value(*modulus),
            final(events)@ == old(events)@ + spec_result_checks(big_value(final(self).result)),
    {
        let result = match op {
            FieldOperation::Add => big_rem(&big_add(a, b), modulus),
            FieldOperation::Sub => {
                let am = big_rem(a, modulus);
                let bm = big_rem(b, modulus);
                big_rem(&big_sub(&big_add(&am, modulus), &bm), modulus)
            },
            _ => big_rem(&big_mul(a, b), modulus),
        };
        let bytes = big_to_bytes_le(&result);
        let mut i: usize = 0;
        let ghost base = events@;
        while i < bytes.len()
            invariant
                i <= bytes@.len(),
                bytes@ == crate::bigint::spec_min_le_bytes(big_value(result)),
                events@ =~= base + Seq::new(
                    i as nat,
                    |j: int| ByteLookupEvent { value: bytes@[j] },
                ),
            decreases bytes@.len() - i,
        {
            events.push(ByteLookupEvent { value: bytes[i] });
            proof {
                assert(events@ =~= base + Seq::new(
                    (i + 1) as nat,
                    |j: int| ByteLookupEvent { value: bytes@[j] },
                ));
            }
            i = i + 1;
        }
        proof {
            reveal(spec_result_checks);
            assert(events@ =~= base + spec_result_checks(big_value(result)));
        }
        self.result = result;
    }
}

/// The per-event trace computation of the multiplication precompile: exact
/// modular arithmetic over the wide field, writing each intermediate into
/// its column group and collecting byte range checks.
pub struct Fp12MulChipTrace {
    pub shard: u32,
    pub channel: u32,
    pub new_byte_lookup_events: Vec<ByteLookupEvent>,
    pub modulus: num::BigUint,
}

/// The trace state is usable while its modulus is positive.
pub open spec fn trace_state_wf(t: Fp12MulChipTrace) -> bool {
    big_value(t.modulus) > 0
}

/// The modulus value of a trace state.
pub open spec fn modulus_of(t: Fp12MulChipTrace) -> int {
    big_value(t.modulus) as int
}

impl Fp12MulChipTrace {
    pub fn new(
        shard: u32,
        channel: u32,
        new_byte_lookup_events: Vec<ByteLookupEvent>,
        modulus: num::BigUint,
    ) -> (r: Fp12MulChipTrace)
        requires
            big_value(modulus) > 0,
        ensures
            r.shard == shard,
            r.channel == channel,
            r.new_byte_lookup_events@ == new_byte_lookup_events@,
            big_value(r.modulus) == big_value(modulus),
            trace_state_wf(r),
    {
        Fp12MulChipTrace { shard, channel, new_byte_lookup_events, modulus }
    }

    pub fn populate_with_modulus(
        &mut self,
        dest: &mut FieldOpCols,
        a: &num::BigUint,
        b: &num::BigUint,
        op: FieldOperation,
    )
        requires
            trace_state_wf(*old(self)),
            op != FieldOperation::Div,
        ensures
            big_value(final(dest).result) == spec_field_op(
                op,
                big_value(*a) as int,
                big_value(*b) as int,
                modulus_of(*old(self)),
            ),
            final(self).modulus == old(self).modulus,
            final(self).shard == old(self).shard,
            final(self).channel == old(self).channel,
            final(self).new_byte_lookup_events@ == old(self).new_byte_lookup_events@
                + spec_result_checks(big_value(final(dest).result)),
            trace_state_wf(*final(self)),
    {
        let shard = self.shard;
        let channel = self.channel;
        dest.populate(
            &mut self.new_byte_lookup_events,
            shard,
            channel,
            a,
            b,
            &self.modulus,
            op,
        );
    }

    pub fn mul(&mut self, dest: &mut FieldOpCols, a: &num::BigUint, b: &num::BigUint) -> (r:
        num::BigUint)
        requires
            trace_state_wf(*old(self)),
        ensures
            big_value(r) == f_mul(big_value(*a) as int, big_value(*b) as int, modulus_of(*old(self))),
            big_value(final(dest).result) == big_value(r),
            final(self).modulus == old(self).modulus,
            final(self).new_byte_lookup_events@ == old(self).new_byte_lookup_events@
                + spec_result_checks(
                f_mul(big_value(*a) as int, big_value(*b) as int, modulus_of(*old(self))) as nat,
            ),
            trace_state_wf(*final(self)),
    {
        self.populate_with_modulus(dest, a, b, FieldOperation::Mul);
        let prod = big_mul(a, b);
        big_rem(&prod, &self.modulus)
    }

    pub fn add(&mut self, dest: &mut FieldOpCols, a: &num::BigUint, b: &num::BigUint) -> (r:
        num::BigUint)
        requires
            trace_state_wf(*old(self)),
        ensures
            big_value(r) == f_add(big_value(*a) as int, big_value(*b) as int, modulus_of(*old(self))),
            big_value(final(dest).result) == big_value(r),
            final(self).modulus == old(self).modulus,
            final(self).new_byte_lookup_events@ == old(self).new_byte_lookup_events@
                + spec_result_checks(
                f_add(big_value(*a) as int, big_value(*b) as int, modulus_of(*old(self))) as nat,
            ),
            trace_state_wf(*final(self)),
    {
        self.populate_with_modulus(dest, a, b, FieldOperation::Add);
        let sum = big_add(a, b);
        big_rem(&sum, &self.modulus)
    }

    pub fn sub(&mut self, dest: &mut FieldOpCols, a: &num::BigUint, b: &num::BigUint) -> (r:
        num::BigUint)
        requires
            trace_state_wf(*old(self)),
        ensures
            big_value(r) == f_sub(big_value(*a) as int, big_value(*b) as int, modulus_of(*old(self))),
            big_value(final(dest).result) == big_value(r),
            final(self).modulus == old(self).modulus,
            final(self).new_byte_lookup_events@ == old(self).new_byte_lookup_events@
                + spec_result_checks(
                f_sub(big_value(*a) as int, big_value(*b) as int, modulus_of(*old(self))) as nat,
            ),
            trace_state_wf(*final(self)),
    {
        self.populate_with_modulus(dest, a, b, FieldOperation::Sub);
        let am = big_rem(a, &self.modulus);
        let bm = big_rem(b, &self.modulus);
        big_rem(&big_sub(&big_add(&am, &self.modulus), &bm), &self.modulus)
    }
}


/// A product of zeros reduces to zero.
proof fn lemma_zero_product(a: int, b: int, m: int)
    requires
        a == 0,
        b == 0,
        m > 0,
    ensures
        f_mul(a, b, m) == 0,
{
    assert(a * b == 0) by (nonlinear_arith)
        requires
            a == 0,
    ;
}

/// The sign-combined negation flags of a sum of products.
pub open spec fn spec_negs(a: Seq<i8>, b: Seq<i8>) -> Seq<bool> {
    Seq::new(a.len(), |i: int| a[i] != b[i])
}

/// The running value of a signed sum of products, after the first `i + 1`
/// terms.
pub open spec fn spec_sop(av: Seq<int>, bv: Seq<int>, neg: Seq<bool>, m: int, i: int) -> int
    decreases i,
{
    if i <= 0 {
        f_mul(av[0], bv[0], m)
    } else {
        let p = f_mul(av[i], bv[i], m);
        if neg[i] {
            f_sub(spec_sop(av, bv, neg, m, i - 1), p, m)
        } else {
            f_add(spec_sop(av, bv, neg, m, i - 1), p, m)
        }
    }
}

/// The shared sums and differences of the second operand's upper
/// coefficients.
pub open spec fn spec_aux(bv: Seq<int>, m: int) -> Seq<int> {
    seq![
        f_add(bv[2], bv[3], m),
        f_sub(bv[2], bv[3], m),
        f_add(bv[4], bv[5], m),
        f_sub(bv[4], bv[5], m),
    ]
}

/// Auxiliary columns shared by the six sums of products of one sextic
/// multiplication.
pub struct SumOfProductsAuxillaryCols {
    pub b10_p_b11: FieldOpCols,
    pub b10_m_b11: FieldOpCols,
    pub b20_p_b21: FieldOpCols,
    pub b20_m_b21: FieldOpCols,
}

pub open spec fn sop_aux_zeroed(c: SumOfProductsAuxillaryCols) -> bool {
    &&& big_value(c.b10_p_b11.result) == 0
    &&& big_value(c.b10_m_b11.result) == 0
    &&& big_value(c.b20_p_b21.result) == 0
    &&& big_value(c.b20_m_b21.result) == 0
}

impl SumOfProductsAuxillaryCols {
    pub fn new() -> (r: SumOfProductsAuxillaryCols)
        ensures
            sop_aux_zeroed(r),
    {
        SumOfProductsAuxillaryCols {
            b10_p_b11: FieldOpCols::new(),
            b10_m_b11: FieldOpCols::new(),
            b20_p_b21: FieldOpCols::new(),
            b20_m_b21: FieldOpCols::new(),
        }
    }

    /// Fills every column group with the zero product, as padding rows
    /// carry.
    pub fn pad_rows(&mut self, modulus: &num::BigUint)
        requires
            big_value(*modulus) > 0,
        ensures
            sop_aux_zeroed(*final(self)),
    {
        let zero = big_from_u32(0);
        proof {
            lemma_zero_product(
                big_value(zero) as int,
                big_value(zero) as int,
                big_value(*modulus) as int,
            );
        }
        let mut scratch: Vec<ByteLookupEvent> = Vec::new();
        self.b10_p_b11.populate(&mut scratch, 0, 0, &zero, &zero, modulus, FieldOperation::Mul);
        self.b10_m_b11.populate(&mut scratch, 0, 0, &zero, &zero, modulus, FieldOperation::Mul);
        self.b20_p_b21.populate(&mut scratch, 0, 0, &zero, &zero, modulus, FieldOperation::Mul);
        self.b20_m_b21.populate(&mut scratch, 0, 0, &zero, &zero, modulus, FieldOperation::Mul);
    }
}

/// The columns of one signed sum of six products.
pub struct SumOfProductsCols {
    pub a1_t_b1: FieldOpCols,
    pub a2_t_b2: FieldOpCols,
    pub a3_t_b3: FieldOpCols,
    pub a4_t_b4: FieldOpCols,
    pub a5_t_b5: FieldOpCols,
    pub a6_t_b6: FieldOpCols,
    pub sum1: FieldOpCols,
    pub sum2: FieldOpCols,
    pub sum3: FieldOpCols,
    pub sum4: FieldOpCols,
    pub sum5: FieldOpCols,
}

pub open spec fn sop_zeroed(c: SumOfProductsCols) -> bool {
    &&& big_value(c.a1_t_b1.result) == 0
    &&& big_value(c.a2_t_b2.result) == 0
    &&& big_value(c.a3_t_b3.result) == 0
    &&& big_value(c.a4_t_b4.result) == 0
    &&& big_value(c.a5_t_b5.result) == 0
    &&& big_value(c.a6_t_b6.result) == 0
    &&& big_value(c.sum1.result) == 0
    &&& big_value(c.sum2.result) == 0
    &&& big_value(c.sum3.result) == 0
    &&& big_value(c.sum4.result) == 0
    &&& big_value(c.sum5.result) == 0
}

impl SumOfProductsCols {
    pub fn new() -> (r: SumOfProductsCols)
        ensures
            sop_zeroed(r),
    {
        SumOfProductsCols {
            a1_t_b1: FieldOpCols::new(),
            a2_t_b2: FieldOpCols::new(),
            a3_t_b3: FieldOpCols::new(),
            a4_t_b4: FieldOpCols::new(),
            a5_t_b5: FieldOpCols::new(),
            a6_t_b6: FieldOpCols::new(),
            sum1: FieldOpCols::new(),
            sum2: FieldOpCols::new(),
            sum3: FieldOpCols::new(),
            sum4: FieldOpCols::new(),
            sum5: FieldOpCols::new(),
        }
    }

    pub fn pad_rows(&mut self, modulus: &num::BigUint)
        requires
            big_value(*modulus) > 0,
        ensures
            sop_zeroed(*final(self)),
    {
        let zero = big_from_u32(0);
        proof {
            lemma_zero_product(
                big_value(zero) as int,
                big_value(zero) as int,
                big_value(*modulus) as int,
            );
        }
        let mut scratch: Vec<ByteLookupEvent> = Vec::new();
        self.a1_t_b1.populate(&mut scratch, 0, 0, &zero, &zero, modulus, FieldOperation::Mul);
        self.a2_t_b2.populate(&mut scratch, 0, 0, &zero, &zero, modulus, FieldOperation::Mul);
        self.a3_t_b3.populate(&mut scratch, 0, 0, &zero, &zero, modulus, FieldOperation::Mul);
        self.a4_t_b4.populate(&mut scratch, 0, 0, &zero, &zero, modulus, FieldOperation::Mul);
        self.a5_t_b5.populate(&mut scratch, 0, 0, &zero, &zero, modulus, FieldOperation::Mul);
        self.a6_t_b6.populate(&mut scratch, 0, 0, &zero, &zero, modulus, FieldOperation::Mul);
        self.sum1.populate(&mut scratch, 0, 0, &zero, &zero, modulus, FieldOperation::Mul);
        self.sum2.populate(&mut scratch, 0, 0, &zero, &zero, modulus, FieldOperation::Mul);
        self.sum3.populate(&mut scratch, 0, 0, &zero, &zero, modulus, FieldOperation::Mul);
        self.sum4.populate(&mut scratch, 0, 0, &zero, &zero, modulus, FieldOperation::Mul);
        self.sum5.populate(&mut scratch, 0, 0, &zero, &zero, modulus, FieldOperation::Mul);
    }
}

/// The column groups of one sextic-extension multiplication.
pub struct Fp6MulCols {
    pub aux: SumOfProductsAuxillaryCols,
    pub c00: SumOfProductsCols,
    pub c01: SumOfProductsCols,
    pub c10: SumOfProductsCols,
    pub c11: SumOfProductsCols,
    pub c20: SumOfProductsCols,
    pub c21: SumOfProductsCols,
}

pub open spec fn fp6_mul_zeroed(c: Fp6MulCols) -> bool {
    &&& sop_aux_zeroed(c.aux)
    &&& sop_zeroed(c.c00)
    &&& sop_zeroed(c.c01)
    &&& sop_zeroed(c.c10)
    &&& sop_zeroed(c.c11)
    &&& sop_zeroed(c.c20)
    &&& sop_zeroed(c.c21)
}

impl Fp6MulCols {
    pub fn new() -> (r: Fp6MulCols)
        ensures
            fp6_mul_zeroed(r),
    {
        Fp6MulCols {
            aux: SumOfProductsAuxillaryCols::new(),
            c00: SumOfProductsCols::new(),
            c01: SumOfProductsCols::new(),
            c10: SumOfProductsCols::new(),
            c11: SumOfProductsCols::new(),
            c20: SumOfProductsCols::new(),
            c21: SumOfProductsCols::new(),
        }
    }

    pub fn pad_rows(&mut self, modulus: &num::BigUint)
        requires
            big_value(*modulus) > 0,
        ensures
            fp6_mul_zeroed(*final(self)),
    {
        self.aux.pad_rows(modulus);
        self.c00.pad_rows(modulus);
        self.c01.pad_rows(modulus);
        self.c10.pad_rows(modulus);
        self.c11.pad_rows(modulus);
        self.c20.pad_rows(modulus);
        self.c21.pad_rows(modulus);
    }
}

/// The column groups of one sextic-extension addition (also reused for
/// subtraction).
pub struct Fp6AddCols {
    pub a00_p_b00: FieldOpCols,
    pub a01_p_b01: FieldOpCols,
    pub a10_p_b10: FieldOpCols,
    pub a11_p_b11: FieldOpCols,
    pub a20_p_b20: FieldOpCols,
    pub a21_p_b21: FieldOpCols,
}

pub open spec fn fp6_add_zeroed(c: Fp6AddCols) -> bool {
    &&& big_value(c.a00_p_b00.result) == 0
    &&& big_value(c.a01_p_b01.result) == 0
    &&& big_value(c.a10_p_b10.result) == 0
    &&& big_value(c.a11_p_b11.result) == 0
    &&& big_value(c.a20_p_b20.result) == 0
    &&& big_value(c.a21_p_b21.result) == 0
}

impl Fp6AddCols {
    pub fn new() -> (r: Fp6AddCols)
        ensures
            fp6_add_zeroed(r),
    {
        Fp6AddCols {
            a00_p_b00: FieldOpCols::new(),
            a01_p_b01: FieldOpCols::new(),
            a10_p_b10: FieldOpCols::new(),
            a11_p_b11: FieldOpCols::new(),
            a20_p_b20: FieldOpCols::new(),
            a21_p_b21: FieldOpCols::new(),
        }
    }

    pub fn pad_rows(&mut self, modulus: &num::BigUint)
        requires
            big_value(*modulus) > 0,
        ensures
            fp6_add_zeroed(*final(self)),
    {
        let zero = big_from_u32(0);
        proof {
            lemma_zero_product(
                big_value(zero) as int,
                big_value(zero) as int,
                big_value(*modulus) as int,
            );
        }
        let mut scratch: Vec<ByteLookupEvent> = Vec::new();
        self.a00_p_b00.populate(&mut scratch, 0, 0, &zero, &zero, modulus, FieldOperation::Mul);
        self.a01_p_b01.populate(&mut scratch, 0, 0, &zero, &zero, modulus, FieldOperation::Mul);
        self.a10_p_b10.populate(&mut scratch, 0, 0, &zero, &zero, modulus, FieldOperation::Mul);
        self.a11_p_b11.populate(&mut scratch, 0, 0, &zero, &zero, modulus, FieldOperation::Mul);
        self.a20_p_b20.populate(&mut scratch, 0, 0, &zero, &zero, modulus, FieldOperation::Mul);
        self.a21_p_b21.populate(&mut scratch, 0, 0, &zero, &zero, modulus, FieldOperation::Mul);
    }
}

/// The column groups of a multiplication by the sextic non-residue.
pub struct Fp6MulByNonResidueCols {
    pub c00: FieldOpCols,
    pub c01: FieldOpCols,
    pub c10: FieldOpCols,
    pub c11: FieldOpCols,
    pub c20: FieldOpCols,
    pub c21: FieldOpCols,
}

pub open spec fn fp6_nonres_zeroed(c: Fp6MulByNonResidueCols) -> bool {
    &&& big_value(c.c00.result) == 0
    &&& big_value(c.c01.result) == 0
    &&& big_value(c.c10.result) == 0
    &&& big_value(c.c11.result) == 0
    &&& big_value(c.c20.result) == 0
    &&& big_value(c.c21.result) == 0
}

impl Fp6MulByNonResidueCols {
    pub fn new() -> (r: Fp6MulByNonResidueCols)
        ensures
            fp6_nonres_zeroed(r),
    {
        Fp6MulByNonResidueCols {
            c00: FieldOpCols::new(),
            c01: FieldOpCols::new(),
            c10: FieldOpCols::new(),
            c11: FieldOpCols::new(),
            c20: FieldOpCols::new(),
            c21: FieldOpCols::new(),
        }
    }

    pub fn pad_rows(&mut self, modulus: &num::BigUint)
        requires
            big_value(*modulus) > 0,
        ensures
            fp6_nonres_zeroed(*final(self)),
    {
        let zero = big_from_u32(0);
        proof {
            lemma_zero_product(
                big_value(zero) as int,
                big_value(zero) as int,
                big_value(*modulus) as int,
            );
        }
        let mut scratch: Vec<ByteLookupEvent> = Vec::new();
        self.c00.populate(&mut scratch, 0, 0, &zero, &zero, modulus, FieldOperation::Mul);
        self.c01.populate(&mut scratch, 0, 0, &zero, &zero, modulus, FieldOperation::Mul);
        self.c10.populate(&mut scratch, 0, 0, &zero, &zero, modulus, FieldOperation::Mul);
        self.c11.populate(&mut scratch, 0, 0, &zero, &zero, modulus, FieldOperation::Mul);
        self.c20.populate(&mut scratch, 0, 0, &zero, &zero, modulus, FieldOperation::Mul);
        self.c21.populate(&mut scratch, 0, 0, &zero, &zero, modulus, FieldOperation::Mul);
    }
}

/// The column groups of one full degree-twelve multiplication.
pub struct AuxFp12MulCols {
    pub aa: Fp6MulCols,
    pub bb: Fp6MulCols,
    pub o: Fp6AddCols,
    pub y1: Fp6AddCols,
    pub y2: Fp6MulCols,
    pub y3: Fp6AddCols,
    pub y: Fp6AddCols,
    pub x1: Fp6MulByNonResidueCols,
    pub x: Fp6AddCols,
}

pub open spec fn fp12_aux_zeroed(c: AuxFp12MulCols) -> bool {
    &&& fp6_mul_zeroed(c.aa)
    &&& fp6_mul_zeroed(c.bb)
    &&& fp6_add_zeroed(c.o)
    &&& fp6_add_zeroed(c.y1)
    &&& fp6_mul_zeroed(c.y2)
    &&& fp6_add_zeroed(c.y3)
    &&& fp6_add_zeroed(c.y)
    &&& fp6_nonres_zeroed(c.x1)
    &&& fp6_add_zeroed(c.x)
}

impl AuxFp12MulCols {
    pub fn new() -> (r: AuxFp12MulCols)
        ensures
            fp12_aux_zeroed(r),
    {
        AuxFp12MulCols {
            aa: Fp6MulCols::new(),
            bb: Fp6MulCols::new(),
            o: Fp6AddCols::new(),
            y1: Fp6AddCols::new(),
            y2: Fp6MulCols::new(),
            y3: Fp6AddCols::new(),
            y: Fp6AddCols::new(),
            x1: Fp6MulByNonResidueCols::new(),
            x: Fp6AddCols::new(),
        }
    }

    pub fn pad_rows(&mut self, modulus: &num::BigUint)
        requires
            big_value(*modulus) > 0,
        ensures
            fp12_aux_zeroed(*final(self)),
    {
        self.aa.pad_rows(modulus);
        self.bb.pad_rows(modulus);
        self.o.pad_rows(modulus);
        self.y1.pad_rows(modulus);
        self.y2.pad_rows(modulus);
        self.y3.pad_rows(modulus);
        self.y.pad_rows(modulus);
        self.x1.pad_rows(modulus);
        self.x.pad_rows(modulus);
    }
}


/// The six coefficient products and five running sums of a sextic
/// multiplication coefficient, as values.
#[verifier::opaque]
pub open spec fn spec_fp6_mul(av: Seq<int>, bv: Seq<int>, m: int) -> Seq<int> {
    let aux = spec_aux(bv, m);
    let pos = seq![false, false, false, false, false, false];
    let alt = seq![false, true, false, true, false, true];
    seq![
        spec_sop(av, seq![bv[0], bv[1], aux[3], aux[2], aux[1], aux[0]], alt, m, 5),
        spec_sop(av, seq![bv[1], bv[0], aux[2], aux[3], aux[0], aux[1]], pos, m, 5),
        spec_sop(av, seq![bv[2], bv[3], bv[0], bv[1], aux[3], aux[2]], alt, m, 5),
        spec_sop(av, seq![bv[3], bv[2], bv[1], bv[0], aux[2], aux[3]], pos, m, 5),
        spec_sop(av, seq![bv[4], bv[5], bv[2], bv[3], bv[0], bv[1]], alt, m, 5),
        spec_sop(av, seq![bv[5], bv[4], bv[3], bv[2], bv[1], bv[0]], pos, m, 5),
    ]
}

/// Componentwise sextic addition, as values.
pub open spec fn spec_fp6_add(av: Seq<int>, bv: Seq<int>, m: int) -> Seq<int> {
    Seq::new(6, |i: int| f_add(av[i], bv[i], m))
}

/// Componentwise sextic subtraction, as values.
pub open spec fn spec_fp6_sub(av: Seq<int>, bv: Seq<int>, m: int) -> Seq<int> {
    Seq::new(6, |i: int| f_sub(av[i], bv[i], m))
}

/// Multiplication by the sextic non-residue, as values.
pub open spec fn spec_fp6_nonres(av: Seq<int>, m: int) -> Seq<int> {
    seq![f_sub(av[4], av[5], m), f_add(av[4], av[5], m), av[0], av[1], av[2], av[3]]
}

/// One full degree-twelve multiplication, as values: the Karatsuba split
/// into sextic halves.
#[verifier::opaque]
pub open spec fn spec_fp12_mul(av: Seq<int>, bv: Seq<int>, m: int) -> Seq<int> {
    let ac0 = av.take(6);
    let ac1 = av.skip(6);
    let bc0 = bv.take(6);
    let bc1 = bv.skip(6);
    let aa = spec_fp6_mul(ac0, bc0, m);
    let bb = spec_fp6_mul(ac1, bc1, m);
    let o = spec_fp6_add(bc0, bc1, m);
    let y1 = spec_fp6_add(ac1, ac0, m);
    let y2 = spec_fp6_mul(y1, o, m);
    let y3 = spec_fp6_sub(y2, aa, m);
    let y = spec_fp6_sub(y3, bb, m);
    let x1 = spec_fp6_nonres(bb, m);
    let x = spec_fp6_add(x1, aa, m);
    x + y
}

/// The checks of one signed sum of products, in operation order: the six
/// coefficient products, then the five running sums.
pub open spec fn spec_sop_checks(av: Seq<int>, bv: Seq<int>, neg: Seq<bool>, m: int) -> Seq<
    ByteLookupEvent,
> {
    spec_result_checks(f_mul(av[0], bv[0], m) as nat) + spec_result_checks(
        f_mul(av[1], bv[1], m) as nat,
    ) + spec_result_checks(f_mul(av[2], bv[2], m) as nat) + spec_result_checks(
        f_mul(av[3], bv[3], m) as nat,
    ) + spec_result_checks(f_mul(av[4], bv[4], m) as nat) + spec_result_checks(
        f_mul(av[5], bv[5], m) as nat,
    ) + spec_result_checks(spec_sop(av, bv, neg, m, 1) as nat) + spec_result_checks(
        spec_sop(av, bv, neg, m, 2) as nat,
    ) + spec_result_checks(spec_sop(av, bv, neg, m, 3) as nat) + spec_result_checks(
        spec_sop(av, bv, neg, m, 4) as nat,
    ) + spec_result_checks(spec_sop(av, bv, neg, m, 5) as nat)
}

/// The checks of the shared auxiliary sums and differences.
pub open spec fn spec_aux_checks(bv: Seq<int>, m: int) -> Seq<ByteLookupEvent> {
    spec_result_checks(f_add(bv[2], bv[3], m) as nat) + spec_result_checks(
        f_sub(bv[2], bv[3], m) as nat,
    ) + spec_result_checks(f_add(bv[4], bv[5], m) as nat) + spec_result_checks(
        f_sub(bv[4], bv[5], m) as nat,
    )
}

/// The checks of one sextic multiplication, in operation order.
#[verifier::opaque]
pub open spec fn spec_fp6_mul_checks(av: Seq<int>, bv: Seq<int>, m: int) -> Seq<ByteLookupEvent> {
    let aux = spec_aux(bv, m);
    let pos = seq![false, false, false, false, false, false];
    let alt = seq![false, true, false, true, false, true];
    spec_aux_checks(bv, m) + spec_sop_checks(
        av,
        seq![bv[0], bv[1], aux[3], aux[2], aux[1], aux[0]],
        alt,
        m,
    ) + spec_sop_checks(av, seq![bv[1], bv[0], aux[2], aux[3], aux[0], aux[1]], pos, m)
        + spec_sop_checks(av, seq![bv[2], bv[3], bv[0], bv[1], aux[3], aux[2]], alt, m)
        + spec_sop_checks(av, seq![bv[3], bv[2], bv[1], bv[0], aux[2], aux[3]], pos, m)
        + spec_sop_checks(av, seq![bv[4], bv[5], bv[2], bv[3], bv[0], bv[1]], alt, m)
        + spec_sop_checks(av, seq![bv[5], bv[4], bv[3], bv[2], bv[1], bv[0]], pos, m)
}

/// The checks of one componentwise sextic addition.
pub open spec fn spec_fp6_add_checks(av: Seq<int>, bv: Seq<int>, m: int) -> Seq<ByteLookupEvent> {
    spec_result_checks(f_add(av[0], bv[0], m) as nat) + spec_result_checks(
        f_add(av[1], bv[1], m) as nat,
    ) + spec_result_checks(f_add(av[2], bv[2], m) as nat) + spec_result_checks(
        f_add(av[3], bv[3], m) as nat,
    ) + spec_result_checks(f_add(av[4], bv[4], m) as nat) + spec_result_checks(
        f_add(av[5], bv[5], m) as nat,
    )
}

/// The checks of one componentwise sextic subtraction.
pub open spec fn spec_fp6_sub_checks(av: Seq<int>, bv: Seq<int>, m: int) -> Seq<ByteLookupEvent> {
    spec_result_checks(f_sub(av[0], bv[0], m) as nat) + spec_result_checks(
        f_sub(av[1], bv[1], m) as nat,
    ) + spec_result_checks(f_sub(av[2], bv[2], m) as nat) + spec_result_checks(
        f_sub(av[3], bv[3], m) as nat,
    ) + spec_result_checks(f_sub(av[4], bv[4], m) as nat) + spec_result_checks(
        f_sub(av[5], bv[5], m) as nat,
    )
}

/// The checks of one multiplication by the sextic non-residue.
pub open spec fn spec_nonres_checks(av: Seq<int>, m: int) -> Seq<ByteLookupEvent> {
    spec_result_checks(f_sub(av[4], av[5], m) as nat) + spec_result_checks(
        f_add(av[4], av[5], m) as nat,
    )
}

/// The checks of one full degree-twelve multiplication, in the order the
/// column groups are populated.
#[verifier::opaque]
pub open spec fn spec_fp12_checks(av: Seq<int>, bv: Seq<int>, m: int) -> Seq<ByteLookupEvent> {
    let ac0 = av.take(6);
    let ac1 = av.skip(6);
    let bc0 = bv.take(6);
    let bc1 = bv.skip(6);
    let aa = spec_fp6_mul(ac0, bc0, m);
    let bb = spec_fp6_mul(ac1, bc1, m);
    let o = spec_fp6_add(bc0, bc1, m);
    let y1 = spec_fp6_add(ac1, ac0, m);
    let y2 = spec_fp6_mul(y1, o, m);
    let y3 = spec_fp6_sub(y2, aa, m);
    let x1 = spec_fp6_nonres(bb, m);
    spec_fp6_mul_checks(ac0, bc0, m) + spec_fp6_mul_checks(ac1, bc1, m) + spec_fp6_add_checks(
        bc0,
        bc1,
        m,
    ) + spec_fp6_add_checks(ac1, ac0, m) + spec_fp6_mul_checks(y1, o, m) + spec_fp6_sub_checks(
        y2,
        aa,
        m,
    ) + spec_fp6_sub_checks(y3, bb, m) + spec_nonres_checks(bb, m) + spec_fp6_add_checks(
        x1,
        aa,
        m,
    )
}

fn clone_six(v: &Vec<num::BigUint>, start: usize) -> (r: Vec<num::BigUint>)
    requires
        start + 6 <= v@.len(),
    ensures
        r@.len() == 6,
        forall|i: int| 0 <= i < 6 ==> big_value(#[trigger] r@[i]) == big_value(v@[start + i]),
{
    let n = v.len();
    proof {
        assert(start + 6 <= n);
    }
    let mut out: Vec<num::BigUint> = Vec::new();
    out.push(big_clone(&v[start]));
    out.push(big_clone(&v[start + 1]));
    out.push(big_clone(&v[start + 2]));
    out.push(big_clone(&v[start + 3]));
    out.push(big_clone(&v[start + 4]));
    out.push(big_clone(&v[start + 5]));
    out
}

impl Fp12MulChipTrace {
    /// The shared sums and differences of the second operand's upper
    /// coefficients.
    pub fn sum_of_products_aux(
        &mut self,
        dest: &mut SumOfProductsAuxillaryCols,
        b: &Vec<num::BigUint>,
    ) -> (r: Vec<num::BigUint>)
        requires
            trace_state_wf(*old(self)),
            b@.len() == 6,
        ensures
            r@.len() == 4,
            vals(r@) =~= spec_aux(vals(b@), modulus_of(*old(self))),
            final(self).modulus == old(self).modulus,
            final(self).new_byte_lookup_events@ == old(self).new_byte_lookup_events@
                + spec_aux_checks(vals(b@), modulus_of(*old(self))),
            trace_state_wf(*final(self)),
    {
        let ghost ev0 = self.new_byte_lookup_events@;
        let ghost m = modulus_of(*old(self));
        proof {
            assert(vals(b@)[2] == big_value(b@[2]));
            assert(vals(b@)[3] == big_value(b@[3]));
            assert(vals(b@)[4] == big_value(b@[4]));
            assert(vals(b@)[5] == big_value(b@[5]));
        }
        let ghost c1 = spec_result_checks(f_add(vals(b@)[2], vals(b@)[3], m) as nat);
        let ghost c2 = spec_result_checks(f_sub(vals(b@)[2], vals(b@)[3], m) as nat);
        let ghost c3 = spec_result_checks(f_add(vals(b@)[4], vals(b@)[5], m) as nat);
        let ghost c4 = spec_result_checks(f_sub(vals(b@)[4], vals(b@)[5], m) as nat);
        let b10_p_b11 = self.add(&mut dest.b10_p_b11, &b[2], &b[3]);
        proof {
            assert(self.new_byte_lookup_events@ == ev0 + c1);
        }
        let b10_m_b11 = self.sub(&mut dest.b10_m_b11, &b[2], &b[3]);
        proof {
            assert(self.new_byte_lookup_events@ == (ev0 + c1) + c2);
        }
        let b20_p_b21 = self.add(&mut dest.b20_p_b21, &b[4], &b[5]);
        proof {
            assert(self.new_byte_lookup_events@ == ((ev0 + c1) + c2) + c3);
        }
        let b20_m_b21 = self.sub(&mut dest.b20_m_b21, &b[4], &b[5]);
        proof {
            assert(self.new_byte_lookup_events@ == (((ev0 + c1) + c2) + c3) + c4);
        }
        let mut out: Vec<num::BigUint> = Vec::new();
        out.push(b10_p_b11);
        out.push(b10_m_b11);
        out.push(b20_p_b21);
        out.push(b20_m_b21);
        proof {
            assert(spec_aux_checks(vals(b@), m) == ((c1 + c2) + c3) + c4);
            assert(self.new_byte_lookup_events@ =~= ev0 + spec_aux_checks(vals(b@), m));
        }
        out
    }

    /// One signed sum of six coefficient products, with each intermediate
    /// written to its column group.
    #[verifier::rlimit(100)]
    pub fn sum_of_products(
        &mut self,
        dest: &mut SumOfProductsCols,
        a: &Vec<num::BigUint>,
        asign: &Vec<i8>,
        b: &Vec<num::BigUint>,
        bsign: &Vec<i8>,
    ) -> (r: num::BigUint)
        requires
            trace_state_wf(*old(self)),
            a@.len() == 6,
            b@.len() == 6,
            asign@.len() == 6,
            bsign@.len() == 6,
        ensures
            big_value(r) == spec_sop(
                vals(a@),
                vals(b@),
                spec_negs(asign@, bsign@),
                modulus_of(*old(self)),
                5,
            ),
            final(self).modulus == old(self).modulus,
            final(self).new_byte_lookup_events@ == old(self).new_byte_lookup_events@
                + spec_sop_checks(
                vals(a@),
                vals(b@),
                spec_negs(asign@, bsign@),
                modulus_of(*old(self)),
            ),
            trace_state_wf(*final(self)),
    {
        let ghost ev0 = self.new_byte_lookup_events@;
        let ghost m = modulus_of(*old(self));
        let ghost av = vals(a@);
        let ghost bv = vals(b@);
        let ghost neg = spec_negs(asign@, bsign@);
        proof {
            assert forall|q: int| 0 <= q < 6 implies #[trigger] av[q] == big_value(a@[q])
                && bv[q] == big_value(b@[q]) by {
            }
        }
        let ghost k1 = spec_result_checks(f_mul(av[0], bv[0], m) as nat);
        let ghost k2 = spec_result_checks(f_mul(av[1], bv[1], m) as nat);
        let ghost k3 = spec_result_checks(f_mul(av[2], bv[2], m) as nat);
        let ghost k4 = spec_result_checks(f_mul(av[3], bv[3], m) as nat);
        let ghost k5 = spec_result_checks(f_mul(av[4], bv[4], m) as nat);
        let ghost k6 = spec_result_checks(f_mul(av[5], bv[5], m) as nat);
        let ghost k7 = spec_result_checks(spec_sop(av, bv, neg, m, 1) as nat);
        let ghost k8 = spec_result_checks(spec_sop(av, bv, neg, m, 2) as nat);
        let ghost k9 = spec_result_checks(spec_sop(av, bv, neg, m, 3) as nat);
        let ghost k10 = spec_result_checks(spec_sop(av, bv, neg, m, 4) as nat);
        let ghost k11 = spec_result_checks(spec_sop(av, bv, neg, m, 5) as nat);
        let p1 = self.mul(&mut dest.a1_t_b1, &a[0], &b[0]);
        proof {
            assert(self.new_byte_lookup_events@ == ev0 + k1);
        }
        let p2 = self.mul(&mut dest.a2_t_b2, &a[1], &b[1]);
        proof {
            assert(self.new_byte_lookup_events@ == ev0 + k1 + k2);
        }
        let p3 = self.mul(&mut dest.a3_t_b3, &a[2], &b[2]);
        proof {
            assert(self.new_byte_lookup_events@ == ev0 + k1 + k2 + k3);
        }
        let p4 = self.mul(&mut dest.a4_t_b4, &a[3], &b[3]);
        proof {
            assert(self.new_byte_lookup_events@ == ev0 + k1 + k2 + k3 + k4);
        }
        let p5 = self.mul(&mut dest.a5_t_b5, &a[4], &b[4]);
        proof {
            assert(self.new_byte_lookup_events@ == ev0 + k1 + k2 + k3 + k4 + k5);
        }
        let p6 = self.mul(&mut dest.a6_t_b6, &a[5], &b[5]);
        proof {
            assert(self.new_byte_lookup_events@ == ev0 + k1 + k2 + k3 + k4 + k5 + k6);
        }
        let mut sum = p1;
        proof {
            assert(big_value(sum) == spec_sop(av, bv, neg, m, 0));
        }
        sum = if asign[1] != bsign[1] {
            self.sub(&mut dest.sum1, &sum, &p2)
        } else {
            self.add(&mut dest.sum1, &sum, &p2)
        };
        proof {
            assert(big_value(sum) == spec_sop(av, bv, neg, m, 1));
            assert(self.new_byte_lookup_events@ == ev0 + k1 + k2 + k3 + k4 + k5 + k6 + k7);
        }
        sum = if asign[2] != bsign[2] {
            self.sub(&mut dest.sum2, &sum, &p3)
        } else {
            self.add(&mut dest.sum2, &sum, &p3)
        };
        proof {
            assert(big_value(sum) == spec_sop(av, bv, neg, m, 2));
            assert(self.new_byte_lookup_events@ == ev0 + k1 + k2 + k3 + k4 + k5 + k6 + k7 + k8);
        }
        sum = if asign[3] != bsign[3] {
            self.sub(&mut dest.sum3, &sum, &p4)
        } else {
            self.add(&mut dest.sum3, &sum, &p4)
        };
        proof {
            assert(big_value(sum) == spec_sop(av, bv, neg, m, 3));
            assert(self.new_byte_lookup_events@ == ev0 + k1 + k2 + k3 + k4 + k5 + k6 + k7 + k8 + k9);
        }
        sum = if asign[4] != bsign[4] {
            self.sub(&mut dest.sum4, &sum, &p5)
        } else {
            self.add(&mut dest.sum4, &sum, &p5)
        };
        proof {
            assert(big_value(sum) == spec_sop(av, bv, neg, m, 4));
            assert(self.new_byte_lookup_events@ == ev0 + k1 + k2 + k3 + k4 + k5 + k6 + k7 + k8 + k9 + k10);
        }
        sum = if asign[5] != bsign[5] {
            self.sub(&mut dest.sum5, &sum, &p6)
        } else {
            self.add(&mut dest.sum5, &sum, &p6)
        };
        proof {
            assert(big_value(sum) == spec_sop(av, bv, neg, m, 5));
            assert(self.new_byte_lookup_events@ == ev0 + k1 + k2 + k3 + k4 + k5 + k6 + k7 + k8
                + k9 + k10 + k11);
            assert(spec_sop_checks(av, bv, neg, m) == k1 + k2 + k3 + k4 + k5 + k6 + k7 + k8 + k9
                + k10 + k11);
            assert(self.new_byte_lookup_events@ =~= ev0 + spec_sop_checks(av, bv, neg, m));
        }
        sum
    }

    /// Componentwise sextic addition.
    pub fn fp6_add(
        &mut self,
        dest: &mut Fp6AddCols,
        a: &Vec<num::BigUint>,
        b: &Vec<num::BigUint>,
    ) -> (r: Vec<num::BigUint>)
        requires
            trace_state_wf(*old(self)),
            a@.len() == 6,
            b@.len() == 6,
        ensures
            r@.len() == 6,
            vals(r@) =~= spec_fp6_add(vals(a@), vals(b@), modulus_of(*old(self))),
            final(self).modulus == old(self).modulus,
            final(self).new_byte_lookup_events@ == old(self).new_byte_lookup_events@
                + spec_fp6_add_checks(vals(a@), vals(b@), modulus_of(*old(self))),
            trace_state_wf(*final(self)),
    {
        let ghost ev0 = self.new_byte_lookup_events@;
        let ghost m = modulus_of(*old(self));
        proof {
            assert forall|q: int| 0 <= q < 6 implies #[trigger] vals(a@)[q] == big_value(a@[q])
                && vals(b@)[q] == big_value(b@[q]) by {
            }
        }
        let c0 = self.add(&mut dest.a00_p_b00, &a[0], &b[0]);
        let c1 = self.add(&mut dest.a01_p_b01, &a[1], &b[1]);
        let c2 = self.add(&mut dest.a10_p_b10, &a[2], &b[2]);
        let c3 = self.add(&mut dest.a11_p_b11, &a[3], &b[3]);
        let c4 = self.add(&mut dest.a20_p_b20, &a[4], &b[4]);
        let c5 = self.add(&mut dest.a21_p_b21, &a[5], &b[5]);
        proof {
            assert(self.new_byte_lookup_events@ =~= ev0 + spec_fp6_add_checks(
                vals(a@),
                vals(b@),
                m,
            ));
        }
        let mut out: Vec<num::BigUint> = Vec::new();
        out.push(c0);
        out.push(c1);
        out.push(c2);
        out.push(c3);
        out.push(c4);
        out.push(c5);
        out
    }

    /// Componentwise sextic subtraction, reusing the addition column shape.
    pub fn fp6_sub(
        &mut self,
        dest: &mut Fp6AddCols,
        a: &Vec<num::BigUint>,
        b: &Vec<num::BigUint>,
    ) -> (r: Vec<num::BigUint>)
        requires
            trace_state_wf(*old(self)),
            a@.len() == 6,
            b@.len() == 6,
        ensures
            r@.len() == 6,
            vals(r@) =~= spec_fp6_sub(vals(a@), vals(b@), modulus_of(*old(self))),
            final(self).modulus == old(self).modulus,
            final(self).new_byte_lookup_events@ == old(self).new_byte_lookup_events@
                + spec_fp6_sub_checks(vals(a@), vals(b@), modulus_of(*old(self))),
            trace_state_wf(*final(self)),
    {
        let ghost ev0 = self.new_byte_lookup_events@;
        let ghost m = modulus_of(*old(self));
        proof {
            assert forall|q: int| 0 <= q < 6 implies #[trigger] vals(a@)[q] == big_value(a@[q])
                && vals(b@)[q] == big_value(b@[q]) by {
            }
        }
        let c0 = self.sub(&mut dest.a00_p_b00, &a[0], &b[0]);
        let c1 = self.sub(&mut dest.a01_p_b01, &a[1], &b[1]);
        let c2 = self.sub(&mut dest.a10_p_b10, &a[2], &b[2]);
        let c3 = self.sub(&mut dest.a11_p_b11, &a[3], &b[3]);
        let c4 = self.sub(&mut dest.a20_p_b20, &a[4], &b[4]);
        let c5 = self.sub(&mut dest.a21_p_b21, &a[5], &b[5]);
        proof {
            assert(self.new_byte_lookup_events@ =~= ev0 + spec_fp6_sub_checks(
                vals(a@),
                vals(b@),
                m,
            ));
        }
        let mut out: Vec<num::BigUint> = Vec::new();
        out.push(c0);
        out.push(c1);
        out.push(c2);
        out.push(c3);
        out.push(c4);
        out.push(c5);
        out
    }

    /// Multiplication by the sextic non-residue.
    pub fn fp6_mul_by_non_residue(
        &mut self,
        dest: &mut Fp6MulByNonResidueCols,
        a: &Vec<num::BigUint>,
    ) -> (r: Vec<num::BigUint>)
        requires
            trace_state_wf(*old(self)),
            a@.len() == 6,
        ensures
            r@.len() == 6,
            vals(r@) =~= spec_fp6_nonres(vals(a@), modulus_of(*old(self))),
            final(self).modulus == old(self).modulus,
            final(self).new_byte_lookup_events@ == old(self).new_byte_lookup_events@
                + spec_nonres_checks(vals(a@), modulus_of(*old(self))),
            trace_state_wf(*final(self)),
    {
        let ghost ev0 = self.new_byte_lookup_events@;
        let ghost m = modulus_of(*old(self));
        proof {
            assert(vals(a@)[4] == big_value(a@[4]));
            assert(vals(a@)[5] == big_value(a@[5]));
        }
        let c00 = self.sub(&mut dest.c00, &a[4], &a[5]);
        let c01 = self.add(&mut dest.c01, &a[4], &a[5]);
        proof {
            assert(self.new_byte_lookup_events@ =~= ev0 + spec_nonres_checks(vals(a@), m));
        }
        let mut out: Vec<num::BigUint> = Vec::new();
        out.push(c00);
        out.push(c01);
        out.push(big_clone(&a[0]));
        out.push(big_clone(&a[1]));
        out.push(big_clone(&a[2]));
        out.push(big_clone(&a[3]));
        out
    }

    /// One sextic multiplication by sums of products.
    #[verifier::rlimit(100)]
    pub fn fp6_mul(
        &mut self,
        dest: &mut Fp6MulCols,
        a: &Vec<num::BigUint>,
        b: &Vec<num::BigUint>,
    ) -> (r: Vec<num::BigUint>)
        requires
            trace_state_wf(*old(self)),
            a@.len() == 6,
            b@.len() == 6,
        ensures
            r@.len() == 6,
            vals(r@) =~= spec_fp6_mul(vals(a@), vals(b@), modulus_of(*old(self))),
            final(self).modulus == old(self).modulus,
            final(self).new_byte_lookup_events@ == old(self).new_byte_lookup_events@
                + spec_fp6_mul_checks(vals(a@), vals(b@), modulus_of(*old(self))),
            trace_state_wf(*final(self)),
    {
        proof {
            reveal(spec_fp6_mul);
        }
        let ghost ev0 = self.new_byte_lookup_events@;
        let ghost m = modulus_of(*old(self));
        let aux = self.sum_of_products_aux(&mut dest.aux, b);
        proof {
            assert(self.new_byte_lookup_events@ == ev0 + spec_aux_checks(vals(b@), m));
        }
        let mut pos: Vec<i8> = Vec::new();
        pos.push(1);
        pos.push(1);
        pos.push(1);
        pos.push(1);
        pos.push(1);
        pos.push(1);
        let mut alt: Vec<i8> = Vec::new();
        alt.push(1);
        alt.push(-1);
        alt.push(1);
        alt.push(-1);
        alt.push(1);
        alt.push(-1);
        proof {
            assert(spec_negs(pos@, pos@) =~= seq![false, false, false, false, false, false]);
            assert(spec_negs(pos@, alt@) =~= seq![false, true, false, true, false, true]);
        }
        let mut b00 = build_six(&b[0], &b[1], &aux[3], &aux[2], &aux[1], &aux[0]);
        let c00 = self.sum_of_products(&mut dest.c00, a, &pos, &b00, &alt);
        proof {
            assert(self.new_byte_lookup_events@ == ev0 + spec_aux_checks(vals(b@), m) + spec_sop_checks(vals(a@), vals(b00@), spec_negs(pos@, alt@), m));
        }
        let mut b01 = build_six(&b[1], &b[0], &aux[2], &aux[3], &aux[0], &aux[1]);
        let c01 = self.sum_of_products(&mut dest.c01, a, &pos, &b01, &pos);
        proof {
            assert(self.new_byte_lookup_events@ == ev0 + spec_aux_checks(vals(b@), m) + spec_sop_checks(vals(a@), vals(b00@), spec_negs(pos@, alt@), m) + spec_sop_checks(vals(a@), vals(b01@), spec_negs(pos@, pos@), m));
        }
        let mut b10 = build_six(&b[2], &b[3], &b[0], &b[1], &aux[3], &aux[2]);
        let c10 = self.sum_of_products(&mut dest.c10, a, &pos, &b10, &alt);
        proof {
            assert(self.new_byte_lookup_events@ == ev0 + spec_aux_checks(vals(b@), m) + spec_sop_checks(vals(a@), vals(b00@), spec_negs(pos@, alt@), m) + spec_sop_checks(vals(a@), vals(b01@), spec_negs(pos@, pos@), m) + spec_sop_checks(vals(a@), vals(b10@), spec_negs(pos@, alt@), m));
        }
        let mut b11 = build_six(&b[3], &b[2], &b[1], &b[0], &aux[2], &aux[3]);
        let c11 = self.sum_of_products(&mut dest.c11, a, &pos, &b11, &pos);
        proof {
            assert(self.new_byte_lookup_events@ == ev0 + spec_aux_checks(vals(b@), m) + spec_sop_checks(vals(a@), vals(b00@), spec_negs(pos@, alt@), m) + spec_sop_checks(vals(a@), vals(b01@), spec_negs(pos@, pos@), m) + spec_sop_checks(vals(a@), vals(b10@), spec_negs(pos@, alt@), m) + spec_sop_checks(vals(a@), vals(b11@), spec_negs(pos@, pos@), m));
        }
        let mut b20 = build_six(&b[4], &b[5], &b[2], &b[3], &b[0], &b[1]);
        let c20 = self.sum_of_products(&mut dest.c20, a, &pos, &b20, &alt);
        proof {
            assert(self.new_byte_lookup_events@ == ev0 + spec_aux_checks(vals(b@), m) + spec_sop_checks(vals(a@), vals(b00@), spec_negs(pos@, alt@), m) + spec_sop_checks(vals(a@), vals(b01@), spec_negs(pos@, pos@), m) + spec_sop_checks(vals(a@), vals(b10@), spec_negs(pos@, alt@), m) + spec_sop_checks(vals(a@), vals(b11@), spec_negs(pos@, pos@), m) + spec_sop_checks(vals(a@), vals(b20@), spec_negs(pos@, alt@), m));
        }
        let mut b21 = build_six(&b[5], &b[4], &b[3], &b[2], &b[1], &b[0]);
        let c21 = self.sum_of_products(&mut dest.c21, a, &pos, &b21, &pos);
        proof {
            assert(self.new_byte_lookup_events@ == ev0 + spec_aux_checks(vals(b@), m) + spec_sop_checks(vals(a@), vals(b00@), spec_negs(pos@, alt@), m) + spec_sop_checks(vals(a@), vals(b01@), spec_negs(pos@, pos@), m) + spec_sop_checks(vals(a@), vals(b10@), spec_negs(pos@, alt@), m) + spec_sop_checks(vals(a@), vals(b11@), spec_negs(pos@, pos@), m) + spec_sop_checks(vals(a@), vals(b20@), spec_negs(pos@, alt@), m) + spec_sop_checks(vals(a@), vals(b21@), spec_negs(pos@, pos@), m));
        }
        let mut out: Vec<num::BigUint> = Vec::new();
        out.push(c00);
        out.push(c01);
        out.push(c10);
        out.push(c11);
        out.push(c20);
        out.push(c21);
        proof {
            assert(vals(b00@) =~= seq![
                vals(b@)[0],
                vals(b@)[1],
                spec_aux(vals(b@), m)[3],
                spec_aux(vals(b@), m)[2],
                spec_aux(vals(b@), m)[1],
                spec_aux(vals(b@), m)[0],
            ]);
            assert(vals(b01@) =~= seq![
                vals(b@)[1],
                vals(b@)[0],
                spec_aux(vals(b@), m)[2],
                spec_aux(vals(b@), m)[3],
                spec_aux(vals(b@), m)[0],
                spec_aux(vals(b@), m)[1],
            ]);
            assert(vals(b10@) =~= seq![
                vals(b@)[2],
                vals(b@)[3],
                vals(b@)[0],
                vals(b@)[1],
                spec_aux(vals(b@), m)[3],
                spec_aux(vals(b@), m)[2],
            ]);
            assert(vals(b11@) =~= seq![
                vals(b@)[3],
                vals(b@)[2],
                vals(b@)[1],
                vals(b@)[0],
                spec_aux(vals(b@), m)[2],
                spec_aux(vals(b@), m)[3],
            ]);
            assert(vals(b20@) =~= seq![
                vals(b@)[4],
                vals(b@)[5],
                vals(b@)[2],
                vals(b@)[3],
                vals(b@)[0],
                vals(b@)[1],
            ]);
            assert(vals(b21@) =~= seq![
                vals(b@)[5],
                vals(b@)[4],
                vals(b@)[3],
                vals(b@)[2],
                vals(b@)[1],
                vals(b@)[0],
            ]);
            reveal(spec_fp6_mul_checks);
            assert(self.new_byte_lookup_events@ =~= ev0 + spec_fp6_mul_checks(
                vals(a@),
                vals(b@),
                m,
            ));
        }
        out
    }

    /// One full degree-twelve multiplication across the column groups.
    pub fn fp12_mul(
        &mut self,
        dest: &mut AuxFp12MulCols,
        a: &Vec<num::BigUint>,
        b: &Vec<num::BigUint>,
    ) -> (r: Vec<num::BigUint>)
        requires
            trace_state_wf(*old(self)),
            a@.len() == 12,
            b@.len() == 12,
        ensures
            r@.len() == 12,
            vals(r@) =~= spec_fp12_mul(vals(a@), vals(b@), modulus_of(*old(self))),
            final(self).modulus == old(self).modulus,
            final(self).new_byte_lookup_events@ == old(self).new_byte_lookup_events@
                + spec_fp12_checks(vals(a@), vals(b@), modulus_of(*old(self))),
            trace_state_wf(*final(self)),
    {
        proof {
            reveal(spec_fp12_mul);
        }
        let ghost ev0 = self.new_byte_lookup_events@;
        let ghost m = modulus_of(*old(self));
        let ac0 = clone_six(a, 0);
        let ac1 = clone_six(a, 6);
        let bc0 = clone_six(b, 0);
        let bc1 = clone_six(b, 6);
        proof {
            assert(vals(ac0@) =~= vals(a@).take(6));
            assert(vals(ac1@) =~= vals(a@).skip(6));
            assert(vals(bc0@) =~= vals(b@).take(6));
            assert(vals(bc1@) =~= vals(b@).skip(6));
        }
        let ghost av = vals(a@);
        let ghost bv = vals(b@);
        let ghost g1 = spec_fp6_mul_checks(av.take(6), bv.take(6), m);
        let ghost g2 = spec_fp6_mul_checks(av.skip(6), bv.skip(6), m);
        let ghost g3 = spec_fp6_add_checks(bv.take(6), bv.skip(6), m);
        let ghost g4 = spec_fp6_add_checks(av.skip(6), av.take(6), m);
        let aa = self.fp6_mul(&mut dest.aa, &ac0, &bc0);
        proof {
            assert(self.new_byte_lookup_events@ == ev0 + g1);
        }
        let bb = self.fp6_mul(&mut dest.bb, &ac1, &bc1);
        proof {
            assert(self.new_byte_lookup_events@ == ev0 + g1 + g2);
        }
        let o = self.fp6_add(&mut dest.o, &bc0, &bc1);
        proof {
            assert(self.new_byte_lookup_events@ == ev0 + g1 + g2 + g3);
        }
        let y1 = self.fp6_add(&mut dest.y1, &ac1, &ac0);
        proof {
            assert(self.new_byte_lookup_events@ == ev0 + g1 + g2 + g3 + g4);
        }
        let ghost g5 = spec_fp6_mul_checks(vals(y1@), vals(o@), m);
        let y2 = self.fp6_mul(&mut dest.y2, &y1, &o);
        proof {
            assert(self.new_byte_lookup_events@ == ev0 + g1 + g2 + g3 + g4 + g5);
        }
        let ghost g6 = spec_fp6_sub_checks(vals(y2@), vals(aa@), m);
        let y3 = self.fp6_sub(&mut dest.y3, &y2, &aa);
        proof {
            assert(self.new_byte_lookup_events@ == ev0 + g1 + g2 + g3 + g4 + g5 + g6);
        }
        let ghost g7 = spec_fp6_sub_checks(vals(y3@), vals(bb@), m);
        let y = self.fp6_sub(&mut dest.y, &y3, &bb);
        proof {
            assert(self.new_byte_lookup_events@ == ev0 + g1 + g2 + g3 + g4 + g5 + g6 + g7);
        }
        let ghost g8 = spec_nonres_checks(vals(bb@), m);
        let x1 = self.fp6_mul_by_non_residue(&mut dest.x1, &bb);
        proof {
            assert(self.new_byte_lookup_events@ == ev0 + g1 + g2 + g3 + g4 + g5 + g6 + g7 + g8);
        }
        let ghost g9 = spec_fp6_add_checks(vals(x1@), vals(aa@), m);
        let x = self.fp6_add(&mut dest.x, &x1, &aa);
        proof {
            assert(self.new_byte_lookup_events@ == ev0 + g1 + g2 + g3 + g4 + g5 + g6 + g7 + g8
                + g9);
        }
        let mut out: Vec<num::BigUint> = Vec::new();
        let mut i: usize = 0;
        while i < 6
            invariant
                i <= 6,
                x@.len() == 6,
                out@.len() == i,
                forall|q: int|
                    0 <= q < i ==> big_value(#[trigger] out@[q]) == big_value(x@[q]),
            decreases 6 - i,
        {
            out.push(big_clone(&x[i]));
            i = i + 1;
        }
        let mut j: usize = 0;
        while j < 6
            invariant
                j <= 6,
                x@.len() == 6,
                y@.len() == 6,
                out@.len() == 6 + j,
                forall|q: int|
                    0 <= q < 6 ==> big_value(#[trigger] out@[q]) == big_value(x@[q]),
                forall|q: int|
                    0 <= q < j ==> big_value(#[trigger] out@[6 + q]) == big_value(y@[q]),
            decreases 6 - j,
    {
            out.push(big_clone(&y[j]));
            j = j + 1;
        }
        proof {
            assert forall|q: int| 0 <= q < 12 implies vals(out@)[q] == (vals(x@) + vals(y@))[q]
                by {
                if q < 6 {
                    assert(vals(out@)[q] == big_value(out@[q]));
                    assert((vals(x@) + vals(y@))[q] == big_value(x@[q]));
                } else {
                    assert(vals(out@)[q] == big_value(out@[q]));
                    assert(big_value(out@[6 + (q - 6)]) == big_value(y@[q - 6]));
                    assert(out@[6 + (q - 6)] == out@[q]);
                    assert((vals(x@) + vals(y@))[q] == big_value(y@[q - 6]));
                }
            }
            assert(vals(out@) =~= vals(x@) + vals(y@));
            reveal(spec_fp12_checks);
            assert(vals(ac0@) =~= av.take(6));
            assert(vals(ac1@) =~= av.skip(6));
            assert(vals(bc0@) =~= bv.take(6));
            assert(vals(bc1@) =~= bv.skip(6));
            assert(vals(y1@) == spec_fp6_add(av.skip(6), av.take(6), m));
            assert(vals(o@) == spec_fp6_add(bv.take(6), bv.skip(6), m));
            assert(vals(aa@) == spec_fp6_mul(av.take(6), bv.take(6), m));
            assert(vals(bb@) == spec_fp6_mul(av.skip(6), bv.skip(6), m));
            assert(vals(y2@) == spec_fp6_mul(vals(y1@), vals(o@), m));
            assert(vals(y3@) == spec_fp6_sub(vals(y2@), vals(aa@), m));
            assert(vals(x1@) == spec_fp6_nonres(vals(bb@), m));
            assert(self.new_byte_lookup_events@ =~= ev0 + spec_fp12_checks(av, bv, m));
        }
        out
    }
}

fn build_six(
    v0: &num::BigUint,
    v1: &num::BigUint,
    v2: &num::BigUint,
    v3: &num::BigUint,
    v4: &num::BigUint,
    v5: &num::BigUint,
) -> (r: Vec<num::BigUint>)
    ensures
        r@.len() == 6,
        big_value(r@[0]) == big_value(*v0),
        big_value(r@[1]) == big_value(*v1),
        big_value(r@[2]) == big_value(*v2),
        big_value(r@[3]) == big_value(*v3),
        big_value(r@[4]) == big_value(*v4),
        big_value(r@[5]) == big_value(*v5),
{
    let mut out: Vec<num::BigUint> = Vec::new();
    out.push(big_clone(v0));
    out.push(big_clone(v1));
    out.push(big_clone(v2));
    out.push(big_clone(v3));
    out.push(big_clone(v4));
    out.push(big_clone(v5));
    out
}

/// A record of one memory read performed by a precompile.
#[derive(Clone, Copy, Debug, PartialEq, Eq, Structural)]
pub struct MemoryReadRecord {
    pub value: u32,
    pub timestamp: u32,
}

/// A record of one memory write performed by a precompile.
#[derive(Clone, Copy, Debug, PartialEq, Eq, Structural)]
pub struct MemoryWriteRecord {
    pub value: u32,
    pub prev_value: u32,
    pub timestamp: u32,
}

/// One invocation of the multiplication precompile: the operand words read
/// at the two pointers and the memory records of the accesses.
#[derive(Debug, Clone)]
pub struct Fp12MulEvent {
    pub lookup_id: usize,
    pub shard: u32,
    pub channel: u32,
    pub clk: u32,
    pub a_ptr: u32,
    pub a: Vec<u32>,
    pub b_ptr: u32,
    pub b: Vec<u32>,
    pub a_memory_records: Vec<MemoryWriteRecord>,
    pub b_memory_records: Vec<MemoryReadRecord>,
}

/// The little-endian bytes of the wide field's prime modulus.
pub open spec fn spec_modulus_bytes() -> Seq<u8> {
    seq![
        0xabu8, 0xaa, 0xff, 0xff, 0xff, 0xff, 0xfe, 0xb9, 0xff, 0xff, 0x53, 0xb1, 0xfe, 0xff,
        0xab, 0x1e, 0x24, 0xf6, 0xb0, 0xf6, 0xa0, 0xd2, 0x30, 0x67, 0xbf, 0x12, 0x85, 0xf3,
        0x84, 0x4b, 0x77, 0x64, 0xd7, 0xac, 0x4b, 0x43, 0xb6, 0xa7, 0x1b, 0x4b, 0x9a, 0xe6,
        0x7f, 0x39, 0xea, 0x11, 0x01, 0x1a,
    ]
}

/// The modulus value of the wide field.
pub open spec fn spec_fp12_modulus() -> int {
    crate::bigint::spec_le_bytes_nat(spec_modulus_bytes()) as int
}

#[verifier::rlimit(100)]
fn modulus_bytes() -> (r: Vec<u8>)
    ensures
        r@ == spec_modulus_bytes(),
        r@.len() == 48,
{
    let mut v: Vec<u8> = Vec::new();
    v.push(0xab);
    v.push(0xaa);
    v.push(0xff);
    v.push(0xff);
    v.push(0xff);
    v.push(0xff);
    v.push(0xfe);
    v.push(0xb9);
    v.push(0xff);
    v.push(0xff);
    v.push(0x53);
    v.push(0xb1);
    v.push(0xfe);
    v.push(0xff);
    v.push(0xab);
    v.push(0x1e);
    v.push(0x24);
    v.push(0xf6);
    v.push(0xb0);
    v.push(0xf6);
    v.push(0xa0);
    v.push(0xd2);
    v.push(0x30);
    v.push(0x67);
    v.push(0xbf);
    v.push(0x12);
    v.push(0x85);
    v.push(0xf3);
    v.push(0x84);
    v.push(0x4b);
    v.push(0x77);
    v.push(0x64);
    v.push(0xd7);
    v.push(0xac);
    v.push(0x4b);
    v.push(0x43);
    v.push(0xb6);
    v.push(0xa7);
    v.push(0x1b);
    v.push(0x4b);
    v.push(0x9a);
    v.push(0xe6);
    v.push(0x7f);
    v.push(0x39);
    v.push(0xea);
    v.push(0x11);
    v.push(0x01);
    v.push(0x1a);
    proof {
        assert(v@ =~= spec_modulus_bytes());
    }
    v
}

/// The wide field's prime modulus as a big integer.
pub fn fp12_modulus() -> (r: num::BigUint)
    ensures
        big_value(r) == spec_fp12_modulus(),
        big_value(r) > 0,
        spec_fp12_modulus() < crate::bigint::spec_pow256(48),
{
    let bytes = modulus_bytes();
    proof {
        assert(crate::bigint::spec_le_bytes_nat(spec_modulus_bytes()) >= 0xab) by {
            assert(spec_modulus_bytes().first() == 0xab);
        }
        crate::bigint::lemma_le_bytes_bound(spec_modulus_bytes());
    }
    crate::bigint::big_from_bytes_le(&bytes)
}

/// Zero-pads little-endian digits to the wide field's encoding width.
fn pad48(v: Vec<u8>) -> (r: Vec<u8>)
    requires
        v@.len() <= 48,
    ensures
        r@.len() == 48,
        crate::bigint::spec_le_bytes_nat(r@) == crate::bigint::spec_le_bytes_nat(v@),
        r@.take(v@.len() as int) == v@,
{
    let ghost orig = v@;
    let mut out = v;
    while out.len() < 48
        invariant
            orig.len() <= out@.len() <= 48,
            out@ =~= orig + Seq::new((out@.len() - orig.len()) as nat, |i: int| 0u8),
        decreases 48 - out@.len(),
    {
        out.push(0u8);
        proof {
            assert(out@ =~= orig + Seq::new((out@.len() - orig.len()) as nat, |i: int| 0u8));
        }
    }
    proof {
        crate::bigint::lemma_le_bytes_pad(orig, (out@.len() - orig.len()) as nat);
        assert(out@.take(orig.len() as int) =~= orig);
    }
    out
}

/// The twelve coordinate values encoded by a precompile operand: each
/// coordinate is twelve little-endian words.
pub open spec fn spec_coord_vals(ws: Seq<u32>) -> Seq<int> {
    Seq::new(
        12,
        |c: int|
            crate::bigint::spec_le_bytes_nat(
                crate::bytes::spec_words_le(ws.subrange(12 * c, 12 * c + 12)),
            ) as int,
    )
}

fn copy_words(v: &Vec<u32>, start: usize, count: usize) -> (r: Vec<u32>)
    requires
        start + count <= v@.len(),
    ensures
        r@ == v@.subrange(start as int, start + count),
{
    let n = v.len();
    let mut out: Vec<u32> = Vec::new();
    let mut i: usize = 0;
    while i < count
        invariant
            i <= count,
            start + count <= n,
            n == v@.len(),
            out@ =~= v@.subrange(start as int, start + i),
        decreases count - i,
    {
        out.push(v[start + i]);
        proof {
            assert(out@ =~= v@.subrange(start as int, start + i + 1));
        }
        i = i + 1;
    }
    out
}

/// Reads the twelve coordinates of one 144-word operand as big integers.
fn operand_coords(ws: &Vec<u32>) -> (r: Vec<num::BigUint>)
    requires
        ws@.len() == 144,
    ensures
        r@.len() == 12,
        vals(r@) =~= spec_coord_vals(ws@),
{
    let mut out: Vec<num::BigUint> = Vec::new();
    let mut c: usize = 0;
    while c < 12
        invariant
            c <= 12,
            ws@.len() == 144,
            out@.len() == c,
            forall|q: int|
                0 <= q < c ==> big_value(#[trigger] out@[q]) == crate::bigint::spec_le_bytes_nat(
                    crate::bytes::spec_words_le(ws@.subrange(12 * q, 12 * q + 12)),
                ),
        decreases 12 - c,
    {
        let words = copy_words(ws, 12 * c, 12);
        let bytes = crate::bytes::words_to_bytes_le(&words);
        let coord = crate::bigint::big_from_bytes_le(&bytes);
        out.push(coord);
        c = c + 1;
    }
    out
}

/// The number of columns of the multiplication precompile's trace: the five
/// header cells and twelve result coordinates of forty-eight digit cells.
pub const FP12_NUM_COLS: usize = 581;

/// The forty-eight cells of one result coordinate within a trace row.
pub open spec fn row_coord_cells(row: Seq<u64>, c: int) -> Seq<u64> {
    Seq::new(48, |j: int| row[5 + 48 * c + j])
}

/// Cells read back as little-endian digits.
pub open spec fn spec_cells_bytes(cells: Seq<u64>) -> Seq<u8> {
    Seq::new(cells.len(), |j: int| cells[j] as u8)
}

/// Whether a trace row's data cells encode the product of an event's
/// operands: each coordinate's forty-eight cells are byte-sized digits that
/// denote the corresponding product coordinate.
pub open spec fn spec_row_data_ok(row: Seq<u64>, e: Fp12MulEvent) -> bool {
    forall|c: int|
        0 <= c < 12 ==> (forall|j: int|
            0 <= j < 48 ==> (#[trigger] row_coord_cells(row, c)[j]) < 256)
            && crate::bigint::spec_le_bytes_nat(spec_cells_bytes(#[trigger] row_coord_cells(row, c)))
            == spec_fp12_mul(spec_coord_vals(e.a@), spec_coord_vals(e.b@), spec_fp12_modulus())[c]
}

/// The multiplication precompile chip.
#[derive(Clone, Copy, Debug, PartialEq, Eq, Structural)]
pub struct Fp12MulChip;

impl Fp12MulChip {
    pub fn new() -> (r: Fp12MulChip) {
        Fp12MulChip
    }

    /// The chip's table name.
    pub fn name(&self) -> (r: &'static str)
        ensures
            r@ == "Fp12Mul"@,
    {
        "Fp12Mul"
    }

    /// The width of the chip's trace.
    pub fn width(&self) -> (r: usize)
        ensures
            r == FP12_NUM_COLS,
    {
        FP12_NUM_COLS
    }

    /// The precompile takes no extra cycles beyond its syscall.
    pub fn num_extra_cycles(&self) -> (r: u32)
        ensures
            r == 0,
    {
        0
    }

    /// Whether a record gives this chip any rows.
    pub fn included(&self, shard: &crate::record::ExecutionRecord) -> (r: bool)
        ensures
            r == (shard.fp12_mul_events@.len() != 0),
    {
        shard.fp12_mul_events.len() != 0
    }
}

/// The byte lookups the multiplication chip derives over a record: each
/// event's full check stream, in event order.
pub open spec fn spec_fp12_fill(events: Seq<Fp12MulEvent>) -> Seq<ByteLookupEvent>
    decreases events.len(),
{
    if events.len() == 0 {
        Seq::empty()
    } else {
        spec_fp12_fill(events.drop_last()) + spec_fp12_checks(
            spec_coord_vals(events.last().a@),
            spec_coord_vals(events.last().b@),
            spec_fp12_modulus(),
        )
    }
}

/// A padding row: all zero but for its nonce cell.
pub open spec fn spec_fp12_pad_row(i: int) -> Seq<u64> {
    Seq::new(581, |j: int| if j == 4 { i as u64 } else { 0u64 })
}

/// A trace row's header cells for one event at one nonce.
pub open spec fn spec_fp12_header_ok(row: Seq<u64>, e: Fp12MulEvent, i: int) -> bool {
    &&& row.len() == 581
    &&& row[0] == 1
    &&& row[1] == crate::field::fe_reduce(e.shard as int)
    &&& row[2] == crate::field::fe_reduce(e.channel as int)
    &&& row[3] == crate::field::fe_reduce(e.clk as int)
    &&& row[4] == i as u64
}

/// Every coordinate of a product is a reduced field value.
proof fn lemma_fp12_mul_bounds(av: Seq<int>, bv: Seq<int>, m: int)
    requires
        m > 0,
    ensures
        spec_fp12_mul(av, bv, m).len() == 12,
        forall|c: int| 0 <= c < 12 ==> 0 <= #[trigger] spec_fp12_mul(av, bv, m)[c] < m,
{
    reveal(spec_fp12_mul);
    let r = spec_fp12_mul(av, bv, m);
    assert forall|c: int| 0 <= c < 12 implies 0 <= #[trigger] r[c] < m by {
        let ac0 = av.take(6);
        let ac1 = av.skip(6);
        let bc0 = bv.take(6);
        let bc1 = bv.skip(6);
        let aa = spec_fp6_mul(ac0, bc0, m);
        let bb = spec_fp6_mul(ac1, bc1, m);
        let y2 = spec_fp6_mul(spec_fp6_add(ac1, ac0, m), spec_fp6_add(bc0, bc1, m), m);
        let x = spec_fp6_add(spec_fp6_nonres(bb, m), aa, m);
        let y = spec_fp6_sub(spec_fp6_sub(y2, aa, m), bb, m);
        if c < 6 {
            assert(r[c] == x[c]);
            assert(x[c] == f_add(spec_fp6_nonres(bb, m)[c], aa[c], m));
        } else {
            assert(r[c] == y[c - 6]);
            assert(y[c - 6] == f_sub(spec_fp6_sub(y2, aa, m)[c - 6], bb[c - 6], m));
        }
    }
}

impl Fp12MulChip {
    /// Generates the chip's trace: one row per multiplication event, with
    /// the product computed in exact modular arithmetic and laid out as
    /// byte-sized digit cells; derived byte range checks are merged into the
    /// output record; rows are padded to a power-of-two height with
    /// nonce-carrying rows.
    #[verifier::rlimit(100)]
    pub fn generate_trace(
        &self,
        input: &crate::record::ExecutionRecord,
        output: &mut crate::record::ExecutionRecord,
    ) -> (t: crate::trace::Trace)
        requires
            input.fp12_mul_events@.len() <= 0x100000,
            forall|i: int|
                0 <= i < input.fp12_mul_events@.len() ==> (
                #[trigger] input.fp12_mul_events@[i]).a@.len() == 144
                    && input.fp12_mul_events@[i].b@.len() == 144,
        ensures
            t.width == FP12_NUM_COLS,
            crate::chips::rows_view(t).len() >= input.fp12_mul_events@.len(),
            crate::trace::is_power_of_two(crate::chips::rows_view(t).len() as int),
            forall|i: int|
                0 <= i < crate::chips::rows_view(t).len() ==> (#[trigger] crate::chips::rows_view(
                    t,
                )[i]).len() == 581,
            forall|i: int|
                0 <= i < input.fp12_mul_events@.len() ==> spec_fp12_header_ok(
                    #[trigger] crate::chips::rows_view(t)[i],
                    input.fp12_mul_events@[i],
                    i,
                ) && spec_row_data_ok(
                    crate::chips::rows_view(t)[i],
                    input.fp12_mul_events@[i],
                ),
            forall|i: int|
                input.fp12_mul_events@.len() <= i < crate::chips::rows_view(t).len()
                    ==> #[trigger] crate::chips::rows_view(t)[i] == spec_fp12_pad_row(i),
            final(output).byte_lookups@ == old(output).byte_lookups@ + spec_fp12_fill(
                input.fp12_mul_events@,
            ),
            final(output).cpu_events@ == old(output).cpu_events@,
            final(output).program@ == old(output).program@,
            final(output).fp12_mul_events@ == old(output).fp12_mul_events@,
            final(output).add_events@ == old(output).add_events@,
            final(output).sub_events@ == old(output).sub_events@,
            final(output).mul_events@ == old(output).mul_events@,
            final(output).bitwise_events@ == old(output).bitwise_events@,
            final(output).divrem_events@ == old(output).divrem_events@,
            final(output).shift_left_events@ == old(output).shift_left_events@,
            final(output).shift_right_events@ == old(output).shift_right_events@,
            final(output).lt_events@ == old(output).lt_events@,
    {
        let n = input.fp12_mul_events.len();
        let mut rows: Vec<Vec<u64>> = Vec::new();
        let mut idx: usize = 0;
        while idx < n
            invariant
                idx <= n,
                n == input.fp12_mul_events@.len(),
                n <= 0x100000,
                forall|i: int|
                    0 <= i < n ==> (#[trigger] input.fp12_mul_events@[i]).a@.len() == 144
                        && input.fp12_mul_events@[i].b@.len() == 144,
                rows@.len() == idx,
                forall|i: int|
                    0 <= i < idx ==> spec_fp12_header_ok(
                        (#[trigger] rows@[i])@,
                        input.fp12_mul_events@[i],
                        i,
                    ) && spec_row_data_ok(rows@[i]@, input.fp12_mul_events@[i]),
                output.byte_lookups@ == old(output).byte_lookups@ + spec_fp12_fill(
                    input.fp12_mul_events@.take(idx as int),
                ),
                output.cpu_events@ == old(output).cpu_events@,
                output.program@ == old(output).program@,
                output.fp12_mul_events@ == old(output).fp12_mul_events@,
                output.add_events@ == old(output).add_events@,
                output.sub_events@ == old(output).sub_events@,
                output.mul_events@ == old(output).mul_events@,
                output.bitwise_events@ == old(output).bitwise_events@,
                output.divrem_events@ == old(output).divrem_events@,
                output.shift_left_events@ == old(output).shift_left_events@,
                output.shift_right_events@ == old(output).shift_right_events@,
                output.lt_events@ == old(output).lt_events@,
            decreases n - idx,
        {
            let e = &input.fp12_mul_events[idx];
            let modulus = fp12_modulus();
            let mut state = Fp12MulChipTrace::new(e.shard, e.channel, Vec::new(), modulus);
            let av = operand_coords(&e.a);
            let bv = operand_coords(&e.b);
            let mut cols = AuxFp12MulCols::new();
            let result = state.fp12_mul(&mut cols, &av, &bv);
            let ghost product = spec_fp12_mul(
                spec_coord_vals(e.a@),
                spec_coord_vals(e.b@),
                spec_fp12_modulus(),
            );
            proof {
                assert(vals(av@) =~= spec_coord_vals(e.a@));
                assert(vals(bv@) =~= spec_coord_vals(e.b@));
                assert(vals(result@) =~= product);
                lemma_fp12_mul_bounds(
                    spec_coord_vals(e.a@),
                    spec_coord_vals(e.b@),
                    spec_fp12_modulus(),
                );
            }
            let mut rec = crate::record::ExecutionRecord::new();
            rec.byte_lookups = state.new_byte_lookup_events;
            proof {
                assert(rec.byte_lookups@ == Seq::<ByteLookupEvent>::empty() + spec_fp12_checks(
                    spec_coord_vals(e.a@),
                    spec_coord_vals(e.b@),
                    spec_fp12_modulus(),
                ));
                assert(rec.byte_lookups@ =~= spec_fp12_checks(
                    spec_coord_vals(e.a@),
                    spec_coord_vals(e.b@),
                    spec_fp12_modulus(),
                ));
            }
            output.append(&mut rec);
            proof {
                let evs = input.fp12_mul_events@;
                assert(evs.take(idx + 1).drop_last() =~= evs.take(idx as int));
                assert(evs.take(idx + 1).last() == evs[idx as int]);
                assert(output.byte_lookups@ =~= old(output).byte_lookups@ + spec_fp12_fill(
                    evs.take(idx + 1),
                ));
            }
            let mut row: Vec<u64> = Vec::new();
            row.push(1u64);
            row.push(crate::field::fe_from_u64(e.shard as u64));
            row.push(crate::field::fe_from_u64(e.channel as u64));
            row.push(crate::field::fe_from_u64(e.clk as u64));
            row.push(idx as u64);
            let ghost header = row@;
            let mut c: usize = 0;
            while c < 12
                invariant
                    c <= 12,
                    result@.len() == 12,
                    vals(result@) == product,
                    forall|q: int| 0 <= q < 12 ==> 0 <= #[trigger] product[q] < spec_fp12_modulus(),
                    spec_fp12_modulus() < crate::bigint::spec_pow256(48),
                    header.len() == 5,
                    row@.len() == 5 + 48 * c,
                    row@.take(5) == header,
                    forall|q: int, j: int|
                        0 <= q < c && 0 <= j < 48 ==> (#[trigger] row_coord_cells(row@, q)[j])
                            < 256,
                    forall|q: int|
                        0 <= q < c ==> crate::bigint::spec_le_bytes_nat(
                            spec_cells_bytes(#[trigger] row_coord_cells(row@, q)),
                        ) == product[q],
                decreases 12 - c,
            {
                let ghost before = row@;
                proof {
                    assert(big_value(result@[c as int]) == product[c as int]);
                    assert(1 <= 48int && big_value(result@[c as int]) < crate::bigint::spec_pow256(
                        48nat,
                    ));
                }
                let vb = big_to_bytes_le(&result[c]);
                proof {
                    crate::bigint::lemma_min_le_bytes_len(big_value(result@[c as int]), 48);
                    crate::bigint::lemma_min_le_bytes_value(big_value(result@[c as int]));
                    assert(vb@.len() <= 48);
                    assert(crate::bigint::spec_le_bytes_nat(vb@) == product[c as int]);
                }
                let bytes = pad48(vb);
                let mut j: usize = 0;
                while j < 48
                    invariant
                        j <= 48,
                        bytes@.len() == 48,
                        before.len() == 5 + 48 * c,
                        c < 12,
                        row@.len() == before.len() + j,
                        row@.take(before.len() as int) == before,
                        forall|jj: int|
                            0 <= jj < j ==> #[trigger] row@[before.len() + jj] == bytes@[jj] as u64,
                    decreases 48 - j,
                {
                    row.push(bytes[j] as u64);
                    proof {
                        assert(row@.take(before.len() as int) =~= before);
                    }
                    j = j + 1;
                }
                proof {
                    assert forall|q: int| 0 <= q < c implies row_coord_cells(row@, q)
                        =~= row_coord_cells(before, q) by {
                        assert forall|jj: int| 0 <= jj < 48 implies row_coord_cells(row@, q)[jj]
                            == row_coord_cells(before, q)[jj] by {
                            assert(row@[5 + 48 * q + jj] == before[5 + 48 * q + jj]);
                        }
                    }
                    assert forall|jj: int| 0 <= jj < 48 implies row_coord_cells(row@, c as int)[jj]
                        == bytes@[jj] as u64 by {
                        assert(row@[before.len() + jj] == bytes@[jj] as u64);
                    }
                    assert(spec_cells_bytes(row_coord_cells(row@, c as int)) =~= bytes@);
                    assert(crate::bigint::spec_le_bytes_nat(
                        spec_cells_bytes(row_coord_cells(row@, c as int)),
                    ) == product[c as int]);
                    assert(forall|jj: int|
                        0 <= jj < 48 ==> (#[trigger] row_coord_cells(row@, c as int)[jj]) < 256);
                    assert(row@.take(5) =~= header);
                    assert forall|q: int, jj: int|
                        0 <= q < c + 1 && 0 <= jj < 48 implies (#[trigger] row_coord_cells(
                        row@,
                        q,
                    )[jj]) < 256 by {
                        if q < c {
                            assert(row_coord_cells(row@, q) == row_coord_cells(before, q));
                            assert(row_coord_cells(before, q)[jj] < 256);
                        }
                    }
                    assert forall|q: int| 0 <= q < c + 1 implies crate::bigint::spec_le_bytes_nat(
                        spec_cells_bytes(#[trigger] row_coord_cells(row@, q)),
                    ) == product[q] by {
                        if q < c {
                            assert(row_coord_cells(row@, q) == row_coord_cells(before, q));
                        }
                    }
                }
                c = c + 1;
            }
            proof {
                assert(spec_fp12_header_ok(row@, input.fp12_mul_events@[idx as int], idx as int))
                    by {
                    assert(row@[0] == header[0]);
                    assert(row@[1] == header[1]);
                    assert(row@[2] == header[2]);
                    assert(row@[3] == header[3]);
                    assert(row@[4] == header[4]);
                }
                assert(spec_row_data_ok(row@, input.fp12_mul_events@[idx as int]));
            }
            let ghost rows_before = rows@;
            let ghost rowv = row@;
            rows.push(row);
            proof {
                assert(rows@ == rows_before.push(rows@[idx as int]));
                assert(rows@[idx as int]@ == rowv);
            }
            idx = idx + 1;
        }
        proof {
            assert(input.fp12_mul_events@.take(n as int) =~= input.fp12_mul_events@);
        }
        let target = crate::trace::next_power_of_two(n);
        let mut idx2: usize = n;
        proof {
            assert(rows@.len() == n);
        }
        while idx2 < target
            invariant
                n <= idx2 <= target,
                target <= 0x200000,
                crate::trace::is_power_of_two(target as int),
                n == input.fp12_mul_events@.len(),
                rows@.len() == idx2,
                forall|i: int|
                    0 <= i < n ==> spec_fp12_header_ok(
                        (#[trigger] rows@[i])@,
                        input.fp12_mul_events@[i],
                        i,
                    ) && spec_row_data_ok(rows@[i]@, input.fp12_mul_events@[i]),
                forall|i: int| n <= i < idx2 ==> (#[trigger] rows@[i])@ == spec_fp12_pad_row(i),
            decreases target - idx2,
        {
            let mut row: Vec<u64> = Vec::new();
            row.push(0u64);
            row.push(0u64);
            row.push(0u64);
            row.push(0u64);
            row.push(idx2 as u64);
            let mut j: usize = 5;
            while j < 581
                invariant
                    5 <= j <= 581,
                    idx2 <= 0x200000,
                    row@.len() == j,
                    row@ =~= spec_fp12_pad_row(idx2 as int).take(j as int),
                decreases 581 - j,
            {
                row.push(0u64);
                proof {
                    assert(row@ =~= spec_fp12_pad_row(idx2 as int).take(j + 1));
                }
                j = j + 1;
            }
            proof {
                assert(row@ =~= spec_fp12_pad_row(idx2 as int));
            }
            let ghost rowv = row@;
            rows.push(row);
            proof {
                assert(rows@[idx2 as int]@ == rowv);
            }
            idx2 = idx2 + 1;
        }
        let t = crate::trace::Trace { rows, width: FP12_NUM_COLS };
        proof {
            assert(crate::chips::rows_view(t).len() == target);
            assert forall|i: int| 0 <= i < crate::chips::rows_view(t).len() implies (
            #[trigger] crate::chips::rows_view(t)[i]).len() == 581 by {
                assert(crate::chips::rows_view(t)[i] == t.rows@[i]@);
                if i < n {
                    assert(spec_fp12_header_ok(t.rows@[i]@, input.fp12_mul_events@[i], i));
                } else {
                    assert(t.rows@[i]@ == spec_fp12_pad_row(i));
                }
            }
            assert forall|i: int| 0 <= i < n implies spec_fp12_header_ok(
                #[trigger] crate::chips::rows_view(t)[i],
                input.fp12_mul_events@[i],
                i,
            ) && spec_row_data_ok(crate::chips::rows_view(t)[i], input.fp12_mul_events@[i]) by {
                assert(crate::chips::rows_view(t)[i] == t.rows@[i]@);
            }
            assert forall|i: int| n <= i < crate::chips::rows_view(t).len()
                implies #[trigger] crate::chips::rows_view(t)[i] == spec_fp12_pad_row(i) by {
                assert(crate::chips::rows_view(t)[i] == t.rows@[i]@);
            }
        }
        t
    }
}


/// The machine state a precompile call runs against: the clock, the shard
/// bookkeeping, the word-addressed memory, and the record receiving events.
pub struct SyscallContext {
    pub clk: u32,
    pub shard: u32,
    pub channel: u32,
    pub syscall_lookup_id: usize,
    pub memory: Vec<u32>,
    pub record: crate::record::ExecutionRecord,
}

/// Serializes the twelve product coordinates back to 144 words.
fn coords_to_words(result: &Vec<num::BigUint>, ghost_product: Ghost<Seq<int>>) -> (r: Vec<u32>)
    requires
        result@.len() == 12,
        vals(result@) == ghost_product@,
        forall|c: int|
            0 <= c < 12 ==> 0 <= #[trigger] ghost_product@[c] < crate::bigint::spec_pow256(48),
    ensures
        r@.len() == 144,
        spec_coord_vals(r@) == ghost_product@,
{
    let ghost product = ghost_product@;
    let mut out: Vec<u32> = Vec::new();
    let mut c: usize = 0;
    while c < 12
        invariant
            c <= 12,
            result@.len() == 12,
            vals(result@) == product,
            forall|q: int| 0 <= q < 12 ==> 0 <= #[trigger] product[q] < crate::bigint::spec_pow256(
                48,
            ),
            out@.len() == 12 * c,
            forall|q: int|
                0 <= q < c ==> crate::bigint::spec_le_bytes_nat(
                    crate::bytes::spec_words_le(#[trigger] out@.subrange(12 * q, 12 * q + 12)),
                ) == product[q],
        decreases 12 - c,
    {
        let ghost before = out@;
        proof {
            let n48: int = 48;
            assert(vals(result@)[c as int] == big_value(result@[c as int]));
            assert(n48 as nat == 48nat);
            assert(big_value(result@[c as int]) < crate::bigint::spec_pow256(n48 as nat));
        }
        let vb = big_to_bytes_le(&result[c]);
        proof {
            crate::bigint::lemma_min_le_bytes_len(big_value(result@[c as int]), 48);
            crate::bigint::lemma_min_le_bytes_value(big_value(result@[c as int]));
            assert(vb@.len() <= 48);
            assert(crate::bigint::spec_le_bytes_nat(vb@) == product[c as int]);
        }
        let bytes = pad48(vb);
        let mut w: usize = 0;
        while w < 12
            invariant
                w <= 12,
                bytes@.len() == 48,
                out@.len() == before.len() + w,
                out@.take(before.len() as int) == before,
                crate::bytes::spec_words_le(out@.subrange(before.len() as int, before.len() + w))
                    =~= bytes@.take(4 * w),
            decreases 12 - w,
        {
            let word = crate::bytes::u32_from_le(
                bytes[4 * w],
                bytes[4 * w + 1],
                bytes[4 * w + 2],
                bytes[4 * w + 3],
            );
            let ghost pre_out = out@;
            out.push(word);
            proof {
                assert(out@ == pre_out.push(word));
                crate::bytes::lemma_u32_le_round_trip(
                    bytes@[4 * w as int],
                    bytes@[4 * w + 1],
                    bytes@[4 * w + 2],
                    bytes@[4 * w + 3],
                );
                assert(out@.take(before.len() as int) =~= before);
                let seg = out@.subrange(before.len() as int, before.len() + w + 1);
                assert(seg.drop_last() =~= out@.subrange(
                    before.len() as int,
                    before.len() + w,
                ));
                assert(seg.last() == word);
                assert(bytes@.take(4 * (w + 1)) =~= bytes@.take(4 * w as int) + seq![
                    bytes@[4 * w as int],
                    bytes@[4 * w + 1],
                    bytes@[4 * w + 2],
                    bytes@[4 * w + 3],
                ]);
                assert(crate::bytes::spec_words_le(seg) == crate::bytes::spec_words_le(
                    seg.drop_last(),
                ) + crate::bytes::spec_u32_le(seg.last()));
                assert(crate::bytes::spec_u32_le(word) == seq![
                    bytes@[4 * w as int],
                    bytes@[4 * w + 1],
                    bytes@[4 * w + 2],
                    bytes@[4 * w + 3],
                ]);
                assert(seg.drop_last() =~= pre_out.subrange(
                    before.len() as int,
                    before.len() as int + w as int,
                ));
                assert(crate::bytes::spec_words_le(seg.drop_last()) == bytes@.take(4 * w as int));
                assert(crate::bytes::spec_words_le(seg) == bytes@.take(4 * w as int)
                    + crate::bytes::spec_u32_le(word));
                assert(bytes@.take(4 * (w + 1)) == bytes@.take(4 * w as int)
                    + crate::bytes::spec_u32_le(word));
                assert(crate::bytes::spec_words_le(seg) =~= bytes@.take(4 * (w + 1)));
            }
            w = w + 1;
        }
        proof {
            assert(bytes@.take(48) =~= bytes@);
            assert forall|q: int| 0 <= q < c + 1 implies crate::bigint::spec_le_bytes_nat(
                crate::bytes::spec_words_le(#[trigger] out@.subrange(12 * q, 12 * q + 12)),
            ) == product[q] by {
                if q < c {
                    assert(out@.subrange(12 * q, 12 * q + 12) =~= before.subrange(
                        12 * q,
                        12 * q + 12,
                    ));
                } else {
                    assert(out@.subrange(12 * q, 12 * q + 12) =~= out@.subrange(
                        before.len() as int,
                        before.len() as int + 12,
                    ));
                }
            }
        }
        c = c + 1;
    }
    proof {
        assert(spec_coord_vals(out@) =~= product);
    }
    out
}

impl Fp12MulChip {
    /// Executes the precompile: reads the two 144-word operands at the
    /// aligned pointers, advances the clock, writes the product over the
    /// first operand, and records the event with its memory accesses.
    pub fn execute(&self, rt: &mut SyscallContext, arg1: u32, arg2: u32) -> (r: Option<u32>)
        requires
            arg1 % 4 == 0,
            arg2 % 4 == 0,
            arg1 / 4 + 144 <= old(rt).memory@.len(),
            arg2 / 4 + 144 <= old(rt).memory@.len(),
            old(rt).clk < 0xffffffff,
        ensures
            r is None,
            final(rt).clk == old(rt).clk + 1,
            final(rt).shard == old(rt).shard,
            final(rt).channel == old(rt).channel,
            final(rt).syscall_lookup_id == old(rt).syscall_lookup_id,
            final(rt).memory@.len() == old(rt).memory@.len(),
            forall|w: int|
                0 <= w < old(rt).memory@.len() && !(arg1 / 4 <= w < arg1 / 4 + 144)
                    ==> #[trigger] final(rt).memory@[w] == old(rt).memory@[w],
            spec_coord_vals(final(rt).memory@.subrange(arg1 as int / 4, arg1 as int / 4 + 144))
                == spec_fp12_mul(
                spec_coord_vals(old(rt).memory@.subrange(arg1 as int / 4, arg1 as int / 4 + 144)),
                spec_coord_vals(old(rt).memory@.subrange(arg2 as int / 4, arg2 as int / 4 + 144)),
                spec_fp12_modulus(),
            ),
            final(rt).record.fp12_mul_events@.len() == old(rt).record.fp12_mul_events@.len() + 1,
            ({
                let e = final(rt).record.fp12_mul_events@.last();
                &&& final(rt).record.fp12_mul_events@.drop_last() == old(
                    rt,
                ).record.fp12_mul_events@
                &&& e.lookup_id == old(rt).syscall_lookup_id
                &&& e.shard == old(rt).shard
                &&& e.channel == old(rt).channel
                &&& e.clk == old(rt).clk + 1
                &&& e.a_ptr == arg1
                &&& e.a@ == old(rt).memory@.subrange(arg1 as int / 4, arg1 as int / 4 + 144)
                &&& e.b_ptr == arg2
                &&& e.b@ == old(rt).memory@.subrange(arg2 as int / 4, arg2 as int / 4 + 144)
                &&& e.a_memory_records@.len() == 144
                &&& e.b_memory_records@.len() == 144
                &&& (forall|w: int|
                    0 <= w < 144 ==> #[trigger] e.b_memory_records@[w] == (MemoryReadRecord {
                        value: old(rt).memory@[arg2 as int / 4 + w],
                        timestamp: old(rt).clk,
                    }))
                &&& (forall|w: int|
                    0 <= w < 144 ==> #[trigger] e.a_memory_records@[w] == (MemoryWriteRecord {
                        value: final(rt).memory@[arg1 as int / 4 + w],
                        prev_value: old(rt).memory@[arg1 as int / 4 + w],
                        timestamp: (old(rt).clk + 1) as u32,
                    }))
            }),
            final(rt).record.cpu_events@ == old(rt).record.cpu_events@,
            final(rt).record.byte_lookups@ == old(rt).record.byte_lookups@,
    {
        let a_idx = (arg1 / 4) as usize;
        let b_idx = (arg2 / 4) as usize;
        let a = copy_words(&rt.memory, a_idx, 144);
        let b = copy_words(&rt.memory, b_idx, 144);
        let mut b_records: Vec<MemoryReadRecord> = Vec::new();
        let mut i: usize = 0;
        while i < 144
            invariant
                i <= 144,
                b@.len() == 144,
                rt.clk == old(rt).clk,
                b_records@.len() == i,
                forall|q: int|
                    0 <= q < i ==> #[trigger] b_records@[q] == (MemoryReadRecord {
                        value: b@[q],
                        timestamp: old(rt).clk,
                    }),
            decreases 144 - i,
        {
            b_records.push(MemoryReadRecord { value: b[i], timestamp: rt.clk });
            i = i + 1;
        }
        rt.clk = rt.clk + 1;
        let clk = rt.clk;
        let modulus = fp12_modulus();
        let mut state = Fp12MulChipTrace::new(rt.shard, rt.channel, Vec::new(), modulus);
        let av = operand_coords(&a);
        let bv = operand_coords(&b);
        let mut cols = AuxFp12MulCols::new();
        let result = state.fp12_mul(&mut cols, &av, &bv);
        let ghost product = spec_fp12_mul(
            spec_coord_vals(a@),
            spec_coord_vals(b@),
            spec_fp12_modulus(),
        );
        proof {
            assert(vals(av@) =~= spec_coord_vals(a@));
            assert(vals(bv@) =~= spec_coord_vals(b@));
            assert(vals(result@) =~= product);
            lemma_fp12_mul_bounds(
                spec_coord_vals(a@),
                spec_coord_vals(b@),
                spec_fp12_modulus(),
            );
        }
        let result_words = coords_to_words(&result, Ghost(product));
        let mut a_records: Vec<MemoryWriteRecord> = Vec::new();
        let mut w: usize = 0;
        let ghost mem0 = rt.memory@;
        let memlen = rt.memory.len();
        while w < 144
            invariant
                w <= 144,
                result_words@.len() == 144,
                memlen == rt.memory@.len(),
                a_idx + 144 <= memlen,
                a_idx + 144 <= rt.memory@.len(),
                rt.memory@.len() == mem0.len(),
                a_records@.len() == w,
                forall|q: int|
                    0 <= q < w ==> #[trigger] a_records@[q] == (MemoryWriteRecord {
                        value: result_words@[q],
                        prev_value: mem0[a_idx + q],
                        timestamp: clk,
                    }),
                clk == rt.clk,
                rt.shard == old(rt).shard,
                rt.channel == old(rt).channel,
                rt.syscall_lookup_id == old(rt).syscall_lookup_id,
                rt.record == old(rt).record,
                forall|q: int|
                    0 <= q < mem0.len() && !(a_idx <= q < a_idx + w) ==> #[trigger] rt.memory@[q]
                        == mem0[q],
                forall|q: int|
                    0 <= q < w ==> #[trigger] rt.memory@[a_idx + q] == result_words@[q],
            decreases 144 - w,
        {
            let prev = rt.memory[a_idx + w];
            let value = result_words[w];
            rt.memory[a_idx + w] = value;
            a_records.push(MemoryWriteRecord { value, prev_value: prev, timestamp: clk });
            w = w + 1;
        }
        let lookup_id = rt.syscall_lookup_id;
        let shard = rt.shard;
        let channel = rt.channel;
        let event = Fp12MulEvent {
            lookup_id,
            shard,
            channel,
            clk,
            a_ptr: arg1,
            a,
            b_ptr: arg2,
            b,
            a_memory_records: a_records,
            b_memory_records: b_records,
        };
        let ghost events0 = rt.record.fp12_mul_events@;
        rt.record.fp12_mul_events.push(event);
        proof {
            assert(rt.record.fp12_mul_events@.drop_last() =~= events0);
            assert forall|q: int| 0 <= q < 144 implies rt.memory@.subrange(
                a_idx as int,
                a_idx + 144,
            )[q] == result_words@[q] by {
                assert(rt.memory@[a_idx + q] == result_words@[q]);
            }
            assert(rt.memory@.subrange(a_idx as int, a_idx + 144) =~= result_words@);
        }
        None
    }
}


} // verus!
