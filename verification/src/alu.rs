//! The opcodes of the register machine and their exact word-level semantics.

use vstd::prelude::*;
use vstd::arithmetic::power2::{pow2, lemma_pow2_unfold, lemma_pow2_pos};
use vstd::arithmetic::div_mod::{
    lemma_fundamental_div_mod, lemma_fundamental_div_mod_converse_div, lemma_small_mod,
};

verus! {

/// The opcodes handled by the arithmetic-logic chips.
#[derive(Clone, Copy, Debug, PartialEq, Eq, Structural)]
pub enum Opcode {
    ADD,
    SUB,
    XOR,
    OR,
    AND,
    SLL,
    SRL,
    SRA,
    SLT,
    SLTU,
    MUL,
    MULH,
    MULHU,
    MULHSU,
    DIV,
    DIVU,
    REM,
    REMU,
}

/// A small distinct identifier for each opcode, used in trace cells and in
/// interaction messages.
pub open spec fn spec_opcode_id(op: Opcode) -> u64 {
    match op {
        Opcode::ADD => 1,
        Opcode::SUB => 2,
        Opcode::XOR => 3,
        Opcode::OR => 4,
        Opcode::AND => 5,
        Opcode::SLL => 6,
        Opcode::SRL => 7,
        Opcode::SRA => 8,
        Opcode::SLT => 9,
        Opcode::SLTU => 10,
        Opcode::MUL => 11,
        Opcode::MULH => 12,
        Opcode::MULHU => 13,
        Opcode::MULHSU => 14,
        Opcode::DIV => 15,
        Opcode::DIVU => 16,
        Opcode::REM => 17,
        Opcode::REMU => 18,
    }
}

pub fn opcode_id(op: Opcode) -> (r: u64)
    ensures
        r == spec_opcode_id(op),
        r < 32,
{
    match op {
        Opcode::ADD => 1,
        Opcode::SUB => 2,
        Opcode::XOR => 3,
        Opcode::OR => 4,
        Opcode::AND => 5,
        Opcode::SLL => 6,
        Opcode::SRL => 7,
        Opcode::SRA => 8,
        Opcode::SLT => 9,
        Opcode::SLTU => 10,
        Opcode::MUL => 11,
        Opcode::MULH => 12,
        Opcode::MULHU => 13,
        Opcode::MULHSU => 14,
        Opcode::DIV => 15,
        Opcode::DIVU => 16,
        Opcode::REM => 17,
        Opcode::REMU => 18,
    }
}

/// Truncation of an integer to a 32-bit word.
pub open spec fn wrap32(x: int) -> u32 {
    (x % 0x100000000) as u32
}

/// The signed value of a 32-bit word, read in two's complement.
pub open spec fn to_signed(x: u32) -> int {
    if x >= 0x80000000 {
        x - 0x100000000
    } else {
        x as int
    }
}

/// The magnitude of the signed value of a word.
pub open spec fn spec_abs32(x: u32) -> u64 {
    if x >= 0x80000000 {
        (0x100000000 - x) as u64
    } else {
        x as u64
    }
}

fn abs32(x: u32) -> (r: u64)
    ensures
        r == spec_abs32(x),
        r <= 0x80000000,
        r == if to_signed(x) >= 0 {
            to_signed(x)
        } else {
            -to_signed(x)
        },
{
    if x >= 0x80000000 {
        0x100000000u64 - x as u64
    } else {
        x as u64
    }
}

/// Division truncated toward zero, as the machine's divide opcode rounds.
pub open spec fn trunc_div(a: int, b: int) -> int {
    let q = abs_int(a) / abs_int(b);
    if (a < 0) != (b < 0) {
        -q
    } else {
        q
    }
}

/// The remainder of truncated division; its sign follows the dividend.
pub open spec fn trunc_rem(a: int, b: int) -> int {
    let r = abs_int(a) % abs_int(b);
    if a < 0 {
        -r
    } else {
        r
    }
}

pub open spec fn abs_int(a: int) -> int {
    if a < 0 {
        -a
    } else {
        a
    }
}

/// The result of one arithmetic-logic operation on two 32-bit operands.
pub open spec fn spec_alu_op(op: Opcode, b: u32, c: u32) -> u32 {
    match op {
        Opcode::ADD => wrap32(b + c),
        Opcode::SUB => wrap32(b - c),
        Opcode::XOR => b ^ c,
        Opcode::OR => b | c,
        Opcode::AND => b & c,
        Opcode::SLL => wrap32(b * pow2((c % 32) as nat)),
        Opcode::SRL => wrap32(b as int / pow2((c % 32) as nat) as int),
        Opcode::SRA => wrap32(to_signed(b) / pow2((c % 32) as nat) as int),
        Opcode::SLT => if to_signed(b) < to_signed(c) {
            1u32
        } else {
            0u32
        },
        Opcode::SLTU => if b < c {
            1u32
        } else {
            0u32
        },
        Opcode::MUL => wrap32(b * c),
        Opcode::MULH => wrap32((to_signed(b) * to_signed(c)) / 0x100000000),
        Opcode::MULHU => wrap32((b * c) / 0x100000000),
        Opcode::MULHSU => wrap32((to_signed(b) * c) / 0x100000000),
        Opcode::DIV => if c == 0 {
            0xffffffffu32
        } else {
            wrap32(trunc_div(to_signed(b), to_signed(c)))
        },
        Opcode::DIVU => if c == 0 {
            0xffffffffu32
        } else {
            wrap32(b as int / c as int)
        },
        Opcode::REM => if c == 0 {
            b
        } else {
            wrap32(trunc_rem(to_signed(b), to_signed(c)))
        },
        Opcode::REMU => if c == 0 {
            b
        } else {
            wrap32(b as int % c as int)
        },
    }
}

/// Two to a power below 32, computed by doubling.
fn pow2_u64(k: u32) -> (r: u64)
    requires
        k < 32,
    ensures
        r == pow2(k as nat),
        1 <= r <= 0x80000000,
{
    let mut p: u64 = 1;
    let mut i: u32 = 0;
    proof {
        assert(pow2(0) == 1) by {
            vstd::arithmetic::power2::lemma2_to64();
        }
        assert(pow2(31) == 0x80000000) by {
            vstd::arithmetic::power2::lemma2_to64();
        }
    }
    while i < k
        invariant
            i <= k,
            k < 32,
            p == pow2(i as nat),
            1 <= p <= 0x80000000,
        decreases k - i,
    {
        proof {
            lemma_pow2_unfold((i + 1) as nat);
            vstd::arithmetic::power2::lemma_pow2_strictly_increases(i as nat, 31);
            if i + 1 < 31 {
                vstd::arithmetic::power2::lemma_pow2_strictly_increases((i + 1) as nat, 31);
            }
            assert(pow2(31) == 0x80000000) by {
                vstd::arithmetic::power2::lemma2_to64();
            }
        }
        p = p * 2;
        i = i + 1;
    }
    p
}

/// The Euclidean quotient of a negated natural by a positive divisor.
proof fn lemma_div_neg(m: int, d: int)
    requires
        m >= 0,
        d > 0,
    ensures
        (-m) / d == if m % d == 0 {
            -(m / d)
        } else {
            -(m / d) - 1
        },
{
    let q = m / d;
    let r = m % d;
    lemma_fundamental_div_mod(m, d);
    if r == 0 {
        assert(-m == (-q) * d + 0) by (nonlinear_arith)
            requires
                m == q * d + r,
                r == 0,
        ;
        lemma_fundamental_div_mod_converse_div(-m, d, -q, 0);
    } else {
        assert(-m == (-q - 1) * d + (d - r)) by (nonlinear_arith)
            requires
                m == q * d + r,
        ;
        lemma_fundamental_div_mod_converse_div(-m, d, -q - 1, d - r);
    }
}

/// Performs one arithmetic-logic operation.
pub fn alu_op(op: Opcode, b: u32, c: u32) -> (r: u32)
    ensures
        r == spec_alu_op(op, b, c),
{
    match op {
        Opcode::ADD => {
            let s = (b as u64 + c as u64) % 0x100000000;
            s as u32
        },
        Opcode::SUB => {
            let s = (b as u64 + 0x100000000 - c as u64) % 0x100000000;
            proof {
                vstd::arithmetic::div_mod::lemma_mod_adds(b - c, 0x100000000, 0x100000000);
                assert((b - c + 0x100000000) % 0x100000000 == (b - c) % 0x100000000int + (
                0x100000000int) % 0x100000000int);
            }
            s as u32
        },
        Opcode::XOR => b ^ c,
        Opcode::OR => b | c,
        Opcode::AND => b & c,
        Opcode::SLL => {
            let p = pow2_u64(c % 32);
            proof {
                assert(b as u64 * p <= 0xffffffffu64 * 0x80000000) by (nonlinear_arith)
                    requires
                        b <= 0xffffffffu64,
                        p <= 0x80000000u64,
                ;
            }
            ((b as u64 * p) % 0x100000000) as u32
        },
        Opcode::SRL => {
            let p = pow2_u64(c % 32);
            let q = b as u64 / p;
            proof {
                lemma_small_mod((b as u64 / p) as nat, 0x100000000);
            }
            q as u32
        },
        Opcode::SRA => {
            let p = pow2_u64(c % 32);
            if b < 0x80000000 {
                let q = b as u64 / p;
                proof {
                    lemma_small_mod((b as u64 / p) as nat, 0x100000000);
                }
                q as u32
            } else {
                let m = 0x100000000u64 - b as u64;
                let q = m / p;
                let adj: u64 = if m % p == 0 {
                    0
                } else {
                    1
                };
                proof {
                    lemma_div_neg(m as int, p as int);
                    assert(to_signed(b) / (p as int) == -(q as int) - (adj as int));
                    assert(q + adj >= 1) by {
                        if q == 0 && adj == 0 {
                            lemma_fundamental_div_mod(m as int, p as int);
                            assert(m as int == (p as int) * ((m as int) / (p as int)) + (m as int)
                                % (p as int));
                            assert((m as int) / (p as int) == 0);
                            assert((p as int) * 0 == 0) by (nonlinear_arith);
                        }
                    }
                    assert(q + adj <= 0x80000000) by {
                        assert(m <= 0x80000000);
                        if p == 1 {
                            assert((m as int) % 1int == 0);
                            assert(adj == 0);
                        } else {
                            vstd::arithmetic::div_mod::lemma_div_is_ordered_by_denominator(
                                m as int,
                                2,
                                p as int,
                            );
                            assert(q <= m as int / 2);
                        }
                    }
                    vstd::arithmetic::div_mod::lemma_mod_adds(
                        -(q as int) - (adj as int),
                        0x100000000,
                        0x100000000,
                    );
                    lemma_small_mod((0x100000000 - q - adj) as nat, 0x100000000);
                }
                (0x100000000u64 - q - adj) as u32
            }
        },
        Opcode::SLT => {
            let bn = b >= 0x80000000;
            let cn = c >= 0x80000000;
            if bn == cn {
                if b < c {
                    1
                } else {
                    0
                }
            } else if bn {
                1
            } else {
                0
            }
        },
        Opcode::SLTU => if b < c {
            1
        } else {
            0
        },
        Opcode::MUL => {
            proof {
                assert(b as u64 * (c as u64) <= 0xffffffffu64 * 0xffffffff) by (nonlinear_arith)
                    requires
                        b <= 0xffffffffu64,
                        c <= 0xffffffffu64,
                ;
            }
            let m = b as u64 * c as u64;
            (m % 0x100000000) as u32
        },
        Opcode::MULHU => {
            proof {
                assert(b as u64 * (c as u64) <= 0xffffffffu64 * 0xffffffff) by (nonlinear_arith)
                    requires
                        b <= 0xffffffffu64,
                        c <= 0xffffffffu64,
                ;
            }
            let m = b as u64 * c as u64;
            proof {
                lemma_small_mod((m / 0x100000000) as nat, 0x100000000);
            }
            (m / 0x100000000) as u32
        },
        Opcode::MULH => {
            let bm = abs32(b);
            let cm = abs32(c);
            proof {
                assert(bm * cm <= 0x80000000u64 * 0x80000000) by (nonlinear_arith)
                    requires
                        bm <= 0x80000000u64,
                        cm <= 0x80000000u64,
                ;
            }
            let m = bm * cm;
            let neg = (b >= 0x80000000) != (c >= 0x80000000);
            proof {
                assert(to_signed(b) * to_signed(c) == if neg {
                    -(m as int)
                } else {
                    m as int
                }) by (nonlinear_arith)
                    requires
                        m == bm * cm,
                        bm == if to_signed(b) >= 0 {
                            to_signed(b)
                        } else {
                            -to_signed(b)
                        },
                        cm == if to_signed(c) >= 0 {
                            to_signed(c)
                        } else {
                            -to_signed(c)
                        },
                        neg == ((b >= 0x80000000) != (c >= 0x80000000)),
                        (b >= 0x80000000) == (to_signed(b) < 0),
                        (c >= 0x80000000) == (to_signed(c) < 0),
                ;
            }
            high_word_signed(m, neg)
        },
        Opcode::MULHSU => {
            let bm = abs32(b);
            proof {
                assert(bm * (c as u64) <= 0x80000000u64 * 0xffffffff) by (nonlinear_arith)
                    requires
                        bm <= 0x80000000u64,
                        c <= 0xffffffffu64,
                ;
            }
            let m = bm * c as u64;
            let neg = b >= 0x80000000;
            proof {
                assert(to_signed(b) * c == if neg {
                    -(m as int)
                } else {
                    m as int
                }) by (nonlinear_arith)
                    requires
                        m == bm * (c as u64),
                        bm == if to_signed(b) >= 0 {
                            to_signed(b)
                        } else {
                            -to_signed(b)
                        },
                        neg == (b >= 0x80000000),
                        (b >= 0x80000000) == (to_signed(b) < 0),
                ;
            }
            high_word_signed(m, neg)
        },
        Opcode::DIV => {
            if c == 0 {
                0xffffffff
            } else {
                let bm = abs32(b);
                let cm = abs32(c);
                let q = bm / cm;
                let neg = (b >= 0x80000000) != (c >= 0x80000000);
                proof {
                    lemma_abs_div(b, c);
                }
                if neg && q > 0 {
                    proof {
                        vstd::arithmetic::div_mod::lemma_mod_adds(
                            -(q as int),
                            0x100000000,
                            0x100000000,
                        );
                        lemma_small_mod((0x100000000 - q) as nat, 0x100000000);
                    }
                    (0x100000000u64 - q) as u32
                } else {
                    proof {
                        lemma_small_mod(q as nat, 0x100000000);
                    }
                    q as u32
                }
            }
        },
        Opcode::DIVU => {
            if c == 0 {
                0xffffffff
            } else {
                proof {
                    lemma_small_mod((b / c) as nat, 0x100000000);
                }
                b / c
            }
        },
        Opcode::REM => {
            if c == 0 {
                b
            } else {
                let bm = abs32(b);
                let cm = abs32(c);
                let r = bm % cm;
                let neg = b >= 0x80000000;
                proof {
                    lemma_abs_rem(b, c);
                }
                if neg && r > 0 {
                    proof {
                        vstd::arithmetic::div_mod::lemma_mod_adds(
                            -(r as int),
                            0x100000000,
                            0x100000000,
                        );
                        lemma_small_mod((0x100000000 - r) as nat, 0x100000000);
                    }
                    (0x100000000u64 - r) as u32
                } else {
                    proof {
                        lemma_small_mod(r as nat, 0x100000000);
                    }
                    r as u32
                }
            }
        },
        Opcode::REMU => {
            if c == 0 {
                b
            } else {
                b % c
            }
        },
    }
}

/// The magnitudes of signed operands divide to the magnitude of the
/// truncated quotient.
proof fn lemma_abs_div(b: u32, c: u32)
    requires
        c != 0,
    ensures
        abs_int(to_signed(b)) == spec_abs32(b),
        abs_int(to_signed(c)) == spec_abs32(c),
        trunc_div(to_signed(b), to_signed(c)) == if (b >= 0x80000000) != (c >= 0x80000000) {
            -((spec_abs32(b) / spec_abs32(c)) as int)
        } else {
            (spec_abs32(b) / spec_abs32(c)) as int
        },
{
}

proof fn lemma_abs_rem(b: u32, c: u32)
    requires
        c != 0,
    ensures
        trunc_rem(to_signed(b), to_signed(c)) == if b >= 0x80000000 {
            -((spec_abs32(b) % spec_abs32(c)) as int)
        } else {
            (spec_abs32(b) % spec_abs32(c)) as int
        },
{
}

/// The high 32-bit word of a signed 64-bit product given by magnitude and
/// sign.
fn high_word_signed(m: u64, neg: bool) -> (r: u32)
    requires
        m <= 0x8000000000000000,
    ensures
        r == wrap32((if neg {
            -(m as int)
        } else {
            m as int
        }) / 0x100000000),
{
    if !neg || m == 0 {
        let q = m / 0x100000000;
        proof {
            lemma_small_mod((m / 0x100000000) as nat, 0x100000000);
        }
        q as u32
    } else {
        let q = m / 0x100000000;
        let adj: u64 = if m % 0x100000000 == 0 {
            0
        } else {
            1
        };
        proof {
            lemma_div_neg(m as int, 0x100000000);
            assert((-(m as int)) / 0x100000000 == -(q as int) - (adj as int));
            assert(q + adj >= 1) by {
                lemma_fundamental_div_mod(m as int, 0x100000000);
            }
            assert(q + adj <= 0x100000000);
            vstd::arithmetic::div_mod::lemma_mod_adds(
                -(q as int) - (adj as int),
                0x100000000,
                0x100000000,
            );
            if q + adj == 0x100000000 {
                assert((0x100000000u64 - q - adj) as int % 0x100000000int == 0);
            } else {
                lemma_small_mod((0x100000000 - q - adj) as nat, 0x100000000);
            }
        }
        (0x100000000u64 - q - adj) as u32
    }
}

} // verus!
