use crate::binary::{bit_as_bool, bit_at};
use crate::registers::ASPRUpdate;
use vstd::arithmetic::power2::{lemma2_to64, lemma_pow2_pos, lemma_pow2_strictly_increases, pow2};
use vstd::bits::{lemma_u32_shr_is_div, lemma_u64_shl_is_mul};
use vstd::prelude::*;

verus! {

pub const TWO_32: u64 = 0x1_0000_0000;

/// What an execution unit computes, and after how many cycles.
#[derive(Clone, Copy, PartialEq, Eq, Debug, Structural)]
pub struct CalcResult {
    pub delay: u8,
    pub result: u32,
    pub aspr_update: ASPRUpdate,
}

#[derive(Clone, Copy, PartialEq, Eq, Debug, Structural)]
pub enum ALUOperation {
    ADD,
    AND,
    OR,
    EOR,
    REV,
    REV16,
    REVSH,
    UXTH,
    UXTB,
    SXTB,
    SXTH,
}

#[derive(Clone, Copy, PartialEq, Eq, Debug, Structural)]
pub enum ShiftType {
    LSL,
    LSR,
    ASR,
    ROR,
    RRX,
}

/// A word read as a two's-complement number.
pub open spec fn signed(a: u32) -> int {
    if a < 0x8000_0000 {
        a as int
    } else {
        a - 0x1_0000_0000
    }
}

/// The two's-complement reading of a word.
pub fn to_signed(x: u32) -> (r: i32)
    ensures
        r as int == signed(x),
{
    if x < 0x8000_0000 {
        x as i32
    } else {
        (x as i64 - 0x1_0000_0000) as i32
    }
}

/// Byte `k` (0 is the least significant) of `n`.
pub open spec fn byte_of(n: u32, k: nat) -> int {
    (((n as nat) / pow2(8 * k)) % 256) as int
}

/// A halfword sign-extended to a word.
pub open spec fn sext16(h: int) -> int {
    if h < 0x8000 {
        h
    } else {
        h + 0xFFFF_0000
    }
}

/// A byte sign-extended to a word.
pub open spec fn sext8(b: int) -> int {
    if b < 0x80 {
        b
    } else {
        b + 0xFFFF_FF00
    }
}

pub open spec fn nz_update(r: u32) -> ASPRUpdate {
    ASPRUpdate { n: Some(r >= 0x8000_0000), z: Some(r == 0), c: None, v: None }
}

/// `a + b + c` in 32 bits, with the carry out and the signed overflow.
pub fn add_with_carry(a: u32, b: u32, c: u8) -> (r: (u32, u8, u8))
    requires
        c <= 1,
    ensures
        r.0 == (a + b + c) % 0x1_0000_0000,
        r.1 == if a + b + c >= 0x1_0000_0000 { 1u8 } else { 0u8 },
        r.2 == if -0x8000_0000 <= signed(a) + signed(b) + c < 0x8000_0000 { 0u8 } else { 1u8 },
{
    let unsigned_sum: u64 = a as u64 + b as u64 + c as u64;
    let result = (unsigned_sum % TWO_32) as u32;
    let carry_out: u8 = if unsigned_sum >= TWO_32 { 1 } else { 0 };
    let sa: i64 = if a < 0x8000_0000 { a as i64 } else { a as i64 - 0x1_0000_0000 };
    let sb: i64 = if b < 0x8000_0000 { b as i64 } else { b as i64 - 0x1_0000_0000 };
    let signed_sum: i64 = sa + sb + c as i64;
    let overflowed: u8 = if -0x8000_0000 <= signed_sum && signed_sum < 0x8000_0000 { 0 } else { 1 };
    (result, carry_out, overflowed)
}

/// The ALU: arithmetic and logic, one cycle.
#[allow(non_snake_case)]
pub fn ALU(op: ALUOperation, n: u32, m: u32, c: bool) -> (r: CalcResult)
    ensures
        r.delay == 1,
        op == ALUOperation::ADD ==> {
            let s = n + m + (if c { 1int } else { 0 });
            &&& r.result == s % 0x1_0000_0000
            &&& r.aspr_update == (ASPRUpdate {
                n: Some(r.result >= 0x8000_0000),
                z: Some(r.result == 0),
                c: Some(s >= 0x1_0000_0000),
                v: Some(
                    !(-0x8000_0000 <= signed(n) + signed(m) + (if c { 1int } else { 0 }) < 0x8000_0000),
                ),
            })
        },
        op == ALUOperation::AND ==> r.result == n & m && r.aspr_update == nz_update(r.result),
        op == ALUOperation::OR ==> r.result == n | m && r.aspr_update == nz_update(r.result),
        op == ALUOperation::EOR ==> r.result == n ^ m && r.aspr_update == nz_update(r.result),
        op == ALUOperation::REV ==> r.result == byte_of(n, 0) * 0x100_0000 + byte_of(n, 1) * 0x1_0000
            + byte_of(n, 2) * 0x100 + byte_of(n, 3),
        op == ALUOperation::REV16 ==> r.result == byte_of(n, 2) * 0x100_0000 + byte_of(n, 3) * 0x1_0000
            + byte_of(n, 0) * 0x100 + byte_of(n, 1),
        op == ALUOperation::REVSH ==> r.result == sext16(byte_of(n, 0) * 0x100 + byte_of(n, 1)),
        op == ALUOperation::UXTH ==> r.result == n % 0x1_0000,
        op == ALUOperation::UXTB ==> r.result == n % 0x100,
        op == ALUOperation::SXTH ==> r.result == sext16((n % 0x1_0000) as int),
        op == ALUOperation::SXTB ==> r.result == sext8((n % 0x100) as int),
        !(op == ALUOperation::ADD || op == ALUOperation::AND || op == ALUOperation::OR || op
            == ALUOperation::EOR) ==> r.aspr_update == (ASPRUpdate { n: None, z: None, c: None, v: None }),
{
    proof {
        lemma2_to64();
    }
    let b0 = n % 0x100;
    let b1 = (n / 0x100) % 0x100;
    let b2 = (n / 0x1_0000) % 0x100;
    let b3 = n / 0x100_0000;
    proof {
        assert(pow2(0) == 1 && pow2(8) == 0x100 && pow2(16) == 0x1_0000 && pow2(24) == 0x100_0000);
        assert((n as int) / 0x100_0000 < 256) by (nonlinear_arith)
            requires
                0 <= n < 0x1_0000_0000,
        ;
        assert(8 * 1nat == 8 && 8 * 2nat == 16 && 8 * 3nat == 24 && 8 * 0nat == 0);
        assert(b0 == byte_of(n, 0));
        assert(b1 == byte_of(n, 1));
        assert(b2 == byte_of(n, 2));
        assert(b3 == byte_of(n, 3));
    }
    let (result, aspr_update) = match op {
        ALUOperation::ADD => {
            let (result, carry, overflow) = add_with_carry(n, m, if c { 1 } else { 0 });
            (result, ASPRUpdate { n: Some(result >= 0x8000_0000), z: Some(result == 0), c: Some(carry == 1), v: Some(overflow == 1) })
        },
        ALUOperation::AND => {
            let result = n & m;
            (result, ASPRUpdate { n: Some(result >= 0x8000_0000), z: Some(result == 0), c: None, v: None })
        },
        ALUOperation::OR => {
            let result = n | m;
            (result, ASPRUpdate { n: Some(result >= 0x8000_0000), z: Some(result == 0), c: None, v: None })
        },
        ALUOperation::EOR => {
            let result = n ^ m;
            (result, ASPRUpdate { n: Some(result >= 0x8000_0000), z: Some(result == 0), c: None, v: None })
        },
        ALUOperation::REV => (b0 * 0x100_0000 + b1 * 0x1_0000 + b2 * 0x100 + b3, ASPRUpdate::no_update()),
        ALUOperation::REV16 => (b2 * 0x100_0000 + b3 * 0x1_0000 + b0 * 0x100 + b1, ASPRUpdate::no_update()),
        ALUOperation::REVSH => {
            let h = b0 * 0x100 + b1;
            (if h < 0x8000 { h } else { h + 0xFFFF_0000 }, ASPRUpdate::no_update())
        },
        ALUOperation::UXTH => (n % 0x1_0000, ASPRUpdate::no_update()),
        ALUOperation::UXTB => (b0, ASPRUpdate::no_update()),
        ALUOperation::SXTH => {
            let h = n % 0x1_0000;
            (if h < 0x8000 { h } else { h + 0xFFFF_0000 }, ASPRUpdate::no_update())
        },
        ALUOperation::SXTB => (if b0 < 0x80 { b0 } else { b0 + 0xFFFF_FF00 }, ASPRUpdate::no_update()),
    };
    CalcResult { delay: 1, result, aspr_update }
}

/// Arithmetic shift right by `s` (below 32): the complement of the shifted
/// complement for a negative word.
pub open spec fn asr_value(a: u32, s: nat) -> int {
    if a < 0x8000_0000 {
        ((a as nat) / pow2(s)) as int
    } else {
        0xFFFF_FFFF - (((0xFFFF_FFFF - a) as nat) / pow2(s)) as int
    }
}

/// Rotate right by `shift` modulo 32.
pub fn ror(value: u32, shift: u8) -> (r: u32)
    ensures
        shift % 32 == 0 ==> r == value,
        shift % 32 != 0 ==> r == (value >> (shift % 32) as u32) | (value << (32 - shift % 32) as u32),
{
    let s = (shift % 32) as u32;
    if s == 0 {
        value
    } else {
        (value >> s) | (value << (32 - s))
    }
}

/// The shifter: the shifted value and the carry out, one cycle. A shift by
/// 0 keeps the value and the carry flag `c`.
pub fn shift_with_carry(t: ShiftType, a: u32, b: u8, c: u8) -> (r: CalcResult)
    ensures
        r.delay == 1,
        r.aspr_update.n.is_none() && r.aspr_update.z.is_none() && r.aspr_update.v.is_none(),
        b == 0 ==> r.result == a && r.aspr_update.c == Some(c != 0),
        b != 0 && t == ShiftType::LSL ==> if b < 32 {
            r.result == (a * pow2(b as nat)) % 0x1_0000_0000 && r.aspr_update.c == Some(bit_at(a, (32 - b) as nat) == 1)
        } else {
            r.result == 0 && r.aspr_update.c == Some(b == 32 && bit_at(a, 0) == 1)
        },
        b != 0 && t == ShiftType::LSR ==> if b < 32 {
            r.result == (a as nat) / pow2(b as nat) && r.aspr_update.c == Some(bit_at(a, (b - 1) as nat) == 1)
        } else {
            r.result == 0 && r.aspr_update.c == Some(b == 32 && bit_at(a, 31) == 1)
        },
        b != 0 && t == ShiftType::ASR ==> if b < 32 {
            r.result == asr_value(a, b as nat) && r.aspr_update.c == Some(bit_at(a, (b - 1) as nat) == 1)
        } else {
            r.result == (if a >= 0x8000_0000 { 0xFFFF_FFFFu32 } else { 0 }) && r.aspr_update.c == Some(
                bit_at(a, 31) == 1,
            )
        },
        b != 0 && t == ShiftType::ROR ==> r.aspr_update.c == Some(r.result >= 0x8000_0000) && (if b % 32 == 0 {
            r.result == a
        } else {
            r.result == (a >> (b % 32) as u32) | (a << (32 - b % 32) as u32)
        }),
        b != 0 && t == ShiftType::RRX ==> r.result == (a >> 1) | ((c as u32) << 31u32) && r.aspr_update.c == Some(
            bit_at(a, 0) == 1,
        ),
{
    proof {
        lemma2_to64();
    }
    let (result, carry): (u32, bool) = if b == 0 {
        (a, c != 0)
    } else {
        match t {
            ShiftType::LSL => {
                if b < 32 {
                    let s = b as u64;
                    proof {
                        lemma_pow2_pos(s as nat);
                        lemma_pow2_strictly_increases(s as nat, 32);
                        let p = pow2(s as nat);
                        assert((a as u64) * p <= u64::MAX) by (nonlinear_arith)
                            requires
                                a < 0x1_0000_0000,
                                p < 0x1_0000_0000,
                        ;
                        lemma_u64_shl_is_mul(a as u64, s);
                    }
                    let wide = (a as u64) << s;
                    ((wide % TWO_32) as u32, bit_as_bool(a, 32 - b as u32))
                } else {
                    (0, b == 32 && bit_as_bool(a, 0))
                }
            },
            ShiftType::LSR => {
                if b < 32 {
                    proof {
                        lemma_u32_shr_is_div(a, b as u32);
                    }
                    (a >> b as u32, bit_as_bool(a, b as u32 - 1))
                } else {
                    (0, b == 32 && bit_as_bool(a, 31))
                }
            },
            ShiftType::ASR => {
                if b < 32 {
                    if a < 0x8000_0000 {
                        proof {
                            lemma_u32_shr_is_div(a, b as u32);
                        }
                        (a >> b as u32, bit_as_bool(a, b as u32 - 1))
                    } else {
                        let na = 0xFFFF_FFFFu32 - a;
                        proof {
                            lemma_u32_shr_is_div(na, b as u32);
                        }
                        (0xFFFF_FFFFu32 - (na >> b as u32), bit_as_bool(a, b as u32 - 1))
                    }
                } else {
                    (if a >= 0x8000_0000 { 0xFFFF_FFFFu32 } else { 0 }, bit_as_bool(a, 31))
                }
            },
            ShiftType::ROR => {
                let result = ror(a, b);
                (result, result >= 0x8000_0000)
            },
            ShiftType::RRX => {
                let result = (a >> 1) | ((c as u32) << 31u32);
                (result, bit_as_bool(a, 0))
            },
        }
    };
    CalcResult { delay: 1, result, aspr_update: ASPRUpdate { n: None, z: None, c: Some(carry), v: None } }
}

} // verus!
