use crate::binary::{bit_as_bool, bit_at, bit_field, briz};
use crate::instr::{blank, I, IT};
use vstd::arithmetic::power2::lemma2_to64;
use vstd::prelude::*;

verus! {

/// The register fields of a decoded record name r0-r15.
pub open spec fn regs_in_range(i: I) -> bool {
    i.rd < 16 && i.rn < 16 && i.rm < 16 && i.rt < 16
}

/// A 16-bit word whose bits 15-14 are `class`.
pub open spec fn is_16_bit_class(i: u32, class: nat) -> bool {
    bit_field(i, 16, 16) == 0 && bit_field(i, 14, 2) == class
}

/// The data-processing instruction (Thumb encoding 010000) for opcode `op`.
pub open spec fn data_processing_kind(op: nat) -> IT {
    if op == 0 {
        IT::AND
    } else if op == 1 {
        IT::EOR
    } else if op == 2 {
        IT::LSLReg
    } else if op == 3 {
        IT::LSRReg
    } else if op == 4 {
        IT::ASRReg
    } else if op == 5 {
        IT::ADC
    } else if op == 6 {
        IT::SBC
    } else if op == 7 {
        IT::ROR
    } else if op == 8 {
        IT::TST
    } else if op == 9 {
        IT::RSB
    } else if op == 10 {
        IT::CMPReg
    } else if op == 11 {
        IT::CMN
    } else if op == 12 {
        IT::ORR
    } else if op == 13 {
        IT::MUL
    } else if op == 14 {
        IT::BIC
    } else {
        IT::MVN
    }
}

/// The load or store (Thumb encoding 0101) for opcode `op`.
pub open spec fn register_offset_kind(op: nat) -> IT {
    if op == 0 {
        IT::STRReg
    } else if op == 1 {
        IT::STRHReg
    } else if op == 2 {
        IT::STRBReg
    } else if op == 3 {
        IT::LDRSB
    } else if op == 4 {
        IT::LDRReg
    } else if op == 5 {
        IT::LDRHReg
    } else if op == 6 {
        IT::LDRBReg
    } else {
        IT::LDRSH
    }
}

/// The load or store (Thumb encodings 0110, 0111) for opcode `op`.
pub open spec fn immediate_offset_kind(op: nat) -> IT {
    if op == 0 {
        IT::STRImm
    } else if op == 1 {
        IT::LDRImm
    } else if op == 2 {
        IT::STRBImm
    } else {
        IT::LDRBImm
    }
}

/// The extension (Thumb encoding 1011 0010) for opcode `op`.
pub open spec fn extend_kind(op: nat) -> IT {
    if op == 0 {
        IT::SXTH
    } else if op == 1 {
        IT::SXTB
    } else if op == 2 {
        IT::UXTH
    } else {
        IT::UXTB
    }
}

/// What decoding word `i` gives, encoding class by encoding class: every word
/// falls in a class whose record the table states exactly.
pub open spec fn decodes(i: u32, r: I) -> bool {
    &&& regs_in_range(r)
    // LSLS Rd, Rm, #imm5, or MOVS Rd, Rm for a zero shift
    &&& (is_16_bit_class(i, 0) && bit_field(i, 11, 3) == 0 ==> r == (I {
        rd: bit_field(i, 0, 3) as u8,
        rm: bit_field(i, 3, 3) as u8,
        immu: bit_field(i, 6, 5) as u32,
        setsflags: true,
        ..blank(if bit_field(i, 6, 5) == 0 { IT::MOVReg } else { IT::LSLImm })
    }))
    // LSRS / ASRS Rd, Rm, #imm5, where 0 means 32
    &&& (is_16_bit_class(i, 0) && (bit_field(i, 11, 3) == 1 || bit_field(i, 11, 3) == 2) ==> r == (I {
        rd: bit_field(i, 0, 3) as u8,
        rm: bit_field(i, 3, 3) as u8,
        immu: (if bit_field(i, 6, 5) == 0 { 32 } else { bit_field(i, 6, 5) }) as u32,
        setsflags: true,
        ..blank(if bit_field(i, 11, 3) == 1 { IT::LSRImm } else { IT::ASRImm })
    }))
    // SUBS Rd, Rn, Rm; ADDS / SUBS Rd, Rn, #imm3
    &&& (is_16_bit_class(i, 0) && bit_field(i, 11, 3) == 0b011 && bit_field(i, 9, 2) == 1 ==> r == (I {
        rd: bit_field(i, 0, 3) as u8,
        rn: bit_field(i, 3, 3) as u8,
        rm: bit_field(i, 6, 3) as u8,
        setsflags: true,
        ..blank(IT::SUBReg)
    }))
    &&& (is_16_bit_class(i, 0) && bit_field(i, 11, 3) == 0b011 && bit_field(i, 9, 2) >= 2 ==> r == (I {
        rd: bit_field(i, 0, 3) as u8,
        rn: bit_field(i, 3, 3) as u8,
        immu: bit_field(i, 6, 3) as u32,
        setsflags: true,
        ..blank(if bit_field(i, 9, 2) == 2 { IT::ADDImm } else { IT::SUBImm })
    }))
    // CMP Rn, #imm8
    &&& (is_16_bit_class(i, 0) && bit_field(i, 11, 3) == 0b101 ==> r == (I {
        rn: bit_field(i, 8, 3) as u8,
        immu: bit_field(i, 0, 8) as u32,
        setsflags: true,
        ..blank(IT::CMPImm)
    }))
    // ADDS / SUBS Rdn, #imm8
    &&& (is_16_bit_class(i, 0) && bit_field(i, 11, 3) >= 0b110 ==> r == (I {
        rd: bit_field(i, 8, 3) as u8,
        rn: bit_field(i, 8, 3) as u8,
        immu: bit_field(i, 0, 8) as u32,
        setsflags: true,
        ..blank(if bit_field(i, 11, 3) == 0b110 { IT::ADDImm } else { IT::SUBImm })
    }))
    // RSBS Rd, Rn, #0
    &&& (is_16_bit_class(i, 1) && bit_field(i, 10, 4) == 0 && bit_field(i, 6, 4) == 0b1001 ==> r == (I {
        rd: bit_field(i, 0, 3) as u8,
        rn: bit_field(i, 3, 3) as u8,
        setsflags: true,
        ..blank(IT::RSB)
    }))
    // ADD / CMP / MOV with high registers: Rdn is D:Rdn, Rm is four bits
    &&& (is_16_bit_class(i, 1) && bit_field(i, 10, 4) == 1 && bit_field(i, 6, 4) <= 3 ==> r == (I {
        rd: (bit_field(i, 0, 3) + 8 * bit_field(i, 7, 1)) as u8,
        rn: (bit_field(i, 0, 3) + 8 * bit_field(i, 7, 1)) as u8,
        rm: bit_field(i, 3, 4) as u8,
        setsflags: true,
        ..blank(IT::ADDReg)
    }))
    &&& (is_16_bit_class(i, 1) && bit_field(i, 10, 4) == 1 && 5 <= bit_field(i, 6, 4) <= 7 ==> r == (I {
        rn: (bit_field(i, 0, 3) + 8 * bit_field(i, 7, 1)) as u8,
        rm: bit_field(i, 3, 4) as u8,
        setsflags: true,
        ..blank(IT::CMPReg)
    }))
    &&& (is_16_bit_class(i, 1) && bit_field(i, 10, 4) == 1 && 8 <= bit_field(i, 6, 4) <= 11 ==> r == (I {
        rd: (bit_field(i, 0, 3) + 8 * bit_field(i, 7, 1)) as u8,
        rm: bit_field(i, 3, 4) as u8,
        setsflags: true,
        ..blank(IT::MOVReg)
    }))
    // BX Rm, BLX Rm
    &&& (is_16_bit_class(i, 1) && bit_field(i, 10, 4) == 1 && bit_field(i, 6, 4) >= 12 && bit_field(i, 0, 3) == 0
        ==> r == (I {
        rm: bit_field(i, 3, 4) as u8,
        ..blank(if bit_field(i, 6, 4) <= 13 { IT::BX } else { IT::BLX })
    }))
    // LDR Rt, [PC, #imm8*4]
    &&& (is_16_bit_class(i, 1) && 2 <= bit_field(i, 10, 4) <= 3 ==> r == (I {
        rt: bit_field(i, 8, 3) as u8,
        rn: 15,
        immu: (4 * bit_field(i, 0, 8)) as u32,
        ..blank(IT::LDRImm)
    }))
    // LDR / STR with a register offset: Rt, [Rn, Rm]
    &&& (is_16_bit_class(i, 1) && 4 <= bit_field(i, 10, 4) <= 7 ==> r == (I {
        rt: bit_field(i, 0, 3) as u8,
        rn: bit_field(i, 3, 3) as u8,
        rm: bit_field(i, 6, 3) as u8,
        ..blank(register_offset_kind(bit_field(i, 9, 3)))
    }))
    // LDR / STR (word, scaled by 4) and LDRB / STRB with a 5-bit immediate offset
    &&& (is_16_bit_class(i, 1) && bit_field(i, 10, 4) >= 8 ==> r == (I {
        rt: bit_field(i, 0, 3) as u8,
        rn: bit_field(i, 3, 3) as u8,
        immu: (if bit_field(i, 11, 2) <= 1 { 4 * bit_field(i, 6, 5) } else { bit_field(i, 6, 5) }) as u32,
        ..blank(immediate_offset_kind(bit_field(i, 11, 2)))
    }))
    // STRH / LDRH Rt, [Rn, #imm5*2]
    &&& (is_16_bit_class(i, 2) && bit_field(i, 10, 4) <= 7 && bit_field(i, 11, 2) <= 1 ==> r == (I {
        rt: bit_field(i, 0, 3) as u8,
        rn: bit_field(i, 3, 3) as u8,
        immu: (2 * bit_field(i, 6, 5)) as u32,
        ..blank(if bit_field(i, 11, 2) == 0 { IT::STRHImm } else { IT::LDRHImm })
    }))
    // STR / LDR Rt, [SP, #imm8*4]
    &&& (is_16_bit_class(i, 2) && bit_field(i, 10, 4) <= 7 && bit_field(i, 11, 2) >= 2 ==> r == (I {
        rt: bit_field(i, 8, 3) as u8,
        rn: 13,
        immu: (4 * bit_field(i, 0, 8)) as u32,
        ..blank(if bit_field(i, 11, 2) == 2 { IT::STRImm } else { IT::LDRImm })
    }))
    // ADR Rd, #imm8 (from the PC) and ADD Rd, SP, #imm8*4
    &&& (is_16_bit_class(i, 2) && 8 <= bit_field(i, 10, 4) <= 11 ==> r == (I {
        rd: bit_field(i, 8, 3) as u8,
        rn: if bit_field(i, 10, 4) <= 9 { 15u8 } else { 13u8 },
        immu: (if bit_field(i, 10, 4) <= 9 { bit_field(i, 0, 8) } else { 4 * bit_field(i, 0, 8) }) as u32,
        ..blank(IT::ADDImm)
    }))
    // REV, REV16, REVSH Rd, Rm
    &&& (is_16_bit_class(i, 2) && bit_field(i, 10, 4) >= 0b1100 && 80 <= bit_field(i, 5, 7) <= 87 && bit_field(i, 6, 2)
        != 2 ==> r == (I {
        rd: bit_field(i, 0, 3) as u8,
        rm: bit_field(i, 3, 3) as u8,
        ..blank(if bit_field(i, 6, 2) == 0 { IT::REV } else if bit_field(i, 6, 2) == 1 { IT::REV16 } else { IT::REVSH })
    }))
    // ADD SP, SP, #imm7*4 and SUB SP, SP, #imm7*4
    &&& (is_16_bit_class(i, 2) && bit_field(i, 10, 4) >= 0b1100 && bit_field(i, 5, 7) <= 7 ==> r == (I {
        rd: 13,
        rn: 13,
        immu: (4 * bit_field(i, 0, 7)) as u32,
        ..blank(if bit_field(i, 5, 7) <= 3 { IT::ADDImm } else { IT::SUBImm })
    }))
    // SXTH, SXTB, UXTH, UXTB Rd, Rm
    &&& (is_16_bit_class(i, 2) && bit_field(i, 10, 4) >= 0b1100 && 16 <= bit_field(i, 5, 7) <= 23 ==> r == (I {
        rd: bit_field(i, 0, 3) as u8,
        rm: bit_field(i, 3, 3) as u8,
        ..blank(extend_kind(bit_field(i, 6, 2)))
    }))
    // PUSH {registers, LR}: LR is bit 14 of the list
    &&& (is_16_bit_class(i, 2) && bit_field(i, 10, 4) >= 0b1100 && 32 <= bit_field(i, 5, 7) <= 47 ==> r == (I {
        rl: (bit_field(i, 0, 8) + 0x4000 * bit_field(i, 8, 1)) as u16,
        ..blank(IT::PUSH)
    }))
    // POP {registers, PC}: PC is bit 15 of the list
    &&& (is_16_bit_class(i, 2) && bit_field(i, 10, 4) >= 0b1100 && 96 <= bit_field(i, 5, 7) <= 111 ==> r == (I {
        rl: (bit_field(i, 0, 8) + 0x8000 * bit_field(i, 8, 1)) as u16,
        ..blank(IT::POP)
    }))
    // STMIA / LDMIA Rn!, {registers}
    &&& (is_16_bit_class(i, 3) && bit_field(i, 10, 4) <= 3 ==> r == (I {
        rn: bit_field(i, 8, 3) as u8,
        rl: bit_field(i, 0, 8) as u16,
        ..blank(if bit_field(i, 10, 4) <= 1 { IT::STMIA } else { IT::LDMIA })
    }))
    // B with an 11-bit offset
    &&& (is_16_bit_class(i, 3) && 8 <= bit_field(i, 10, 4) <= 9 ==> r == (I {
        rn: 0b1110,
        imms: (bit_field(i, 0, 10) * 2 - bit_at(i, 10) * 0x800) as i32,
        ..blank(IT::B)
    }))
    // reserved: the permanently undefined UDF #imm8, and BX / BLX with
    // non-zero low bits
    &&& (is_16_bit_class(i, 3) && 4 <= bit_field(i, 10, 4) <= 7 && bit_field(i, 8, 4) == 0b1110 ==> r == blank(
        IT::UNDEFINED,
    ))
    &&& (is_16_bit_class(i, 1) && bit_field(i, 10, 4) == 1 && bit_field(i, 6, 4) >= 12 && bit_field(i, 0, 3) != 0
        ==> r == blank(IT::UNPREDICTABLE))
    // MOVS Rd, #imm8
    &&& (is_16_bit_class(i, 0) && bit_field(i, 11, 3) == 0b100 ==> r == (I {
        rd: bit_field(i, 8, 3) as u8,
        immu: bit_field(i, 0, 8) as u32,
        setsflags: true,
        ..blank(IT::MOVImm)
    }))
    // ADDS Rd, Rn, Rm
    &&& (is_16_bit_class(i, 0) && bit_field(i, 11, 3) == 0b011 && bit_field(i, 9, 2) == 0 ==> r == (I {
        rd: bit_field(i, 0, 3) as u8,
        rn: bit_field(i, 3, 3) as u8,
        rm: bit_field(i, 6, 3) as u8,
        setsflags: true,
        ..blank(IT::ADDReg)
    }))
    // data processing: <op>S Rdn, Rm
    &&& (is_16_bit_class(i, 1) && bit_field(i, 10, 4) == 0 && bit_field(i, 6, 4) != 0b1001 ==> r == (I {
        rd: bit_field(i, 0, 3) as u8,
        rn: bit_field(i, 0, 3) as u8,
        rm: bit_field(i, 3, 3) as u8,
        setsflags: true,
        ..blank(data_processing_kind(bit_field(i, 6, 4)))
    }))
    // SVC #imm8
    &&& (is_16_bit_class(i, 3) && 4 <= bit_field(i, 10, 4) <= 7 && bit_field(i, 8, 4) == 0b1111 ==> r == (I {
        immu: bit_field(i, 0, 8) as u32,
        ..blank(IT::SVC)
    }))
    // B<c> with an 8-bit offset
    &&& (is_16_bit_class(i, 3) && 4 <= bit_field(i, 10, 4) <= 7 && bit_field(i, 8, 4) < 0b1110 ==> r == (I {
        rn: bit_field(i, 8, 4) as u8,
        imms: (bit_field(i, 0, 7) * 2 - bit_at(i, 7) * 0x100) as i32,
        ..blank(IT::B)
    }))
    // BL
    &&& (is_bl(i) ==> r == (I {
        imms: bl_offset(i) as i32,
        ..blank(IT::BL)
    }))
    // an undefined word never decodes to an instruction that issues
    // the 0100 opcode among the high-register forms is unpredictable
    &&& (is_16_bit_class(i, 1) && bit_field(i, 10, 4) == 1 && bit_field(i, 6, 4) == 4 ==> r == blank(IT::UNPREDICTABLE))
    // the unused REV opcode is undefined
    &&& (is_16_bit_class(i, 2) && bit_field(i, 10, 4) >= 0b1100 && 80 <= bit_field(i, 5, 7) <= 87 && bit_field(i, 6, 2)
        == 2 ==> r == blank(IT::UNDEFINED))
    // BKPT #imm8
    &&& (is_16_bit_class(i, 2) && bit_field(i, 10, 4) >= 0b1100 && 112 <= bit_field(i, 5, 7) <= 119 ==> r == (I {
        immu: bit_field(i, 0, 8) as u32,
        ..blank(IT::BKPT)
    }))
    // NOP; the other hints are undefined here
    &&& (is_16_bit_class(i, 2) && bit_field(i, 10, 4) >= 0b1100 && 120 <= bit_field(i, 5, 7) ==> r == blank(
        if bit_field(i, 4, 4) == 0 && bit_field(i, 0, 4) == 0 { IT::NOP } else { IT::UNDEFINED },
    ))
    // the rest of the miscellaneous space (CPS among it) is undefined
    &&& (is_16_bit_class(i, 2) && bit_field(i, 10, 4) >= 0b1100 && !(bit_field(i, 5, 7) <= 7 || (16 <= bit_field(i, 5, 7)
        <= 23) || (32 <= bit_field(i, 5, 7) <= 47) || (80 <= bit_field(i, 5, 7) <= 87) || 96 <= bit_field(i, 5, 7))
        ==> r == blank(IT::UNDEFINED))
    &&& (is_16_bit_class(i, 3) && bit_field(i, 10, 4) >= 10 ==> r == blank(IT::UNDEFINED))
    // DSB, DMB, ISB with their option
    &&& (is_barrier(i) ==> r == (I { rn: bit_field(i, 0, 4) as u8, ..blank(barrier_kind(bit_field(i, 4, 4))) }))
    // any other 32-bit word but BL is undefined
    &&& (bit_field(i, 16, 16) != 0 && !is_bl(i) && !is_barrier(i) ==> r == blank(IT::UNDEFINED))
}

/// The record `decode` returns for `i`: the one record the table `decodes`
/// allows (see `lemma_decodes_unique`).
pub open spec fn decoded(i: u32) -> I {
    choose|r: I| decodes(i, r)
}

/// The table covers every word, and each class fixes the whole record: two
/// records it allows for one word are equal. So `decode`, and the micro-ops
/// it expands to, are a function of the word.
pub proof fn lemma_decodes_unique(i: u32, r1: I, r2: I)
    requires
        decodes(i, r1),
        decodes(i, r2),
    ensures
        r1 == r2,
{
    lemma2_to64();
    assert(bit_field(i, 14, 2) < 4);
    assert(bit_field(i, 11, 3) < 8);
    assert(bit_field(i, 10, 4) < 16);
    assert(bit_field(i, 9, 2) < 4);
    assert(bit_field(i, 11, 2) < 4);
    assert(bit_field(i, 6, 4) < 16);
    assert(bit_field(i, 8, 4) < 16);
    assert(bit_field(i, 5, 7) < 128);
    assert(bit_field(i, 6, 2) < 4);
}

/// Whatever the table allows for `i` is `decoded(i)`: so `decode(i)`
/// returns `decoded(i)`.
pub proof fn lemma_decoded(i: u32, r: I)
    requires
        decodes(i, r),
    ensures
        r == decoded(i),
        decodes(i, decoded(i)),
{
    lemma_decodes_unique(i, r, decoded(i));
}

pub open spec fn is_bl(i: u32) -> bool {
    bit_field(i, 16, 16) != 0 && bit_field(i, 29, 3) == 0b111 && bit_field(i, 27, 2) == 0b10 && bit_field(i, 15, 1) == 1
        && (bit_field(i, 12, 3) == 0b101 || bit_field(i, 12, 3) == 0b111)
}

pub open spec fn is_barrier(i: u32) -> bool {
    bit_field(i, 16, 16) != 0 && bit_field(i, 29, 3) == 0b111 && bit_field(i, 27, 2) == 0b10 && bit_field(i, 15, 1) == 1
        && (bit_field(i, 12, 3) == 0 || bit_field(i, 12, 3) == 0b010) && bit_field(i, 20, 7) == 0b0111011 && 4
        <= bit_field(i, 4, 4) <= 6
}

pub open spec fn barrier_kind(op: nat) -> IT {
    if op == 4 {
        IT::DSB
    } else if op == 5 {
        IT::DMB
    } else {
        IT::ISB
    }
}

/// Decodes a Thumb or Thumb-2 instruction word (a 16-bit instruction in the
/// low half). Reserved encodings decode to `UNDEFINED` or `UNPREDICTABLE`.
pub fn decode(i: u32) -> (r: I)
    ensures
        decodes(i, r),
        regs_in_range(r),
        r.it == IT::UNDEFINED ==> crate::instr::issue_class(r.it).is_none(),
{
    proof {
        lemma2_to64();
    }
    match briz(i, 16, 31) {
        // Instruction is 16 bit
        0 => {
            match briz(i, 14, 15) {
                // Shift (immediate), add, subtract, move, and compare
                0b00 => {
                    match briz(i, 11, 13) {
                        // LSL or MOVReg (T2)
                        0b000 => {
                            let imm5 = briz(i, 6, 10);
                            let rd = briz(i, 0, 2) as u8;
                            let rm = briz(i, 3, 5) as u8;

                            if imm5 == 0 {
                                I {
                                    it: IT::MOVReg,
                                    immu: 0,
                                    imms: 0,
                                    rd,
                                    rm,
                                    rn: 0,
                                    rt: 0,
                                    rl: 0,
                                    setsflags: true,
                                }
                            } else {
                                I {
                                    it: IT::LSLImm,
                                    immu: imm5,
                                    imms: 0,
                                    rd,
                                    rm,
                                    rn: 0,
                                    rt: 0,
                                    rl: 0,
                                    setsflags: true,
                                }
                            }
                        }
                        // LSR
                        0b001 => {
                            let imm5 = briz(i, 6, 10);
                            let imm5 = if imm5 == 0 { 32 } else { imm5 };
                            let rd = briz(i, 0, 2) as u8;
                            let rm = briz(i, 3, 5) as u8;

                            I {
                                it: IT::LSRImm,
                                immu: imm5,
                                imms: 0,
                                rd,
                                rm,
                                rn: 0,
                                rt: 0,
                                rl: 0,
                                setsflags: true,
                            }
                        }
                        // ASR
                        0b010 => {
                            let imm5 = briz(i, 6, 10);
                            let imm5 = if imm5 == 0 { 32 } else { imm5 };
                            let rd = briz(i, 0, 2) as u8;
                            let rm = briz(i, 3, 5) as u8;

                            return I {
                                it: IT::ASRImm,
                                immu: imm5,
                                imms: 0,
                                rd,
                                rm,
                                rn: 0,
                                rt: 0,
                                rl: 0,
                                setsflags: true,
                            };
                        }
                        // ADDReg (T1), SUBReg (T1), ADDImm (T1), SUBImm (T1)
                        0b011 => {
                            let rmorimm3 = briz(i, 6, 8) as u8;
                            let rn = briz(i, 3, 5) as u8;
                            let rd = briz(i, 0, 2) as u8;

                            return match briz(i, 9, 10) {
                                // ADDReg
                                0b00 => I {
                                    it: IT::ADDReg,
                                    rd,
                                    rm: rmorimm3,
                                    rn,
                                    rt: 0,
                                    immu: 0,
                                    imms: 0,
                                    rl: 0,
                                    setsflags: true,
                                },
                                0b01 => I {
                                    it: IT::SUBReg,
                                    rd,
                                    rm: rmorimm3,
                                    rn,
                                    rt: 0,
                                    immu: 0,
                                    imms: 0,
                                    rl: 0,
                                    setsflags: true,
                                },
                                0b10 => I {
                                    it: IT::ADDImm,
                                    rd,
                                    rn,
                                    rm: 0,
                                    rt: 0,
                                    immu: rmorimm3 as u32,
                                    imms: 0,
                                    rl: 0,
                                    setsflags: true,
                                },
                                0b11 => I {
                                    it: IT::SUBImm,
                                    rd,
                                    rn,
                                    rm: 0,
                                    rt: 0,
                                    immu: rmorimm3 as u32,
                                    imms: 0,
                                    rl: 0,
                                    setsflags: true,
                                },
                                _ => return I::undefined(),
                            };
                        }
                        // MOVImm
                        0b100 => {
                            let rd = briz(i, 8, 10) as u8;
                            let imm8 = briz(i, 0, 7);

                            I {
                                it: IT::MOVImm,
                                immu: imm8,
                                rd,
                                setsflags: true,
                                rm: 0,
                                rn: 0,
                                rl: 0,
                                rt: 0,
                                imms: 0,
                            }
                        }
                        0b101 => {
                            let rn = briz(i, 8, 10) as u8;
                            let imm8 = briz(i, 0, 7);

                            I {
                                it: IT::CMPImm,
                                rn,
                                immu: imm8,
                                setsflags: true,
                                rd: 0,
                                rm: 0,
                                rt: 0,
                                rl: 0,
                                imms: 0,
                            }
                        }
                        // ADDImm (T2)
                        0b110 => {
                            let rdn = briz(i, 8, 10) as u8;
                            let imm8 = briz(i, 0, 7);

                            I {
                                it: IT::ADDImm,
                                rd: rdn,
                                rn: rdn,
                                immu: imm8,
                                setsflags: true,
                                imms: 0,
                                rm: 0,
                                rt: 0,
                                rl: 0,
                            }
                        }
                        // SUBImm (T2)
                        0b111 => {
                            let rdn = briz(i, 8, 10) as u8;
                            let imm8 = briz(i, 0, 7);

                            I {
                                it: IT::SUBImm,
                                rd: rdn,
                                rn: rdn,
                                immu: imm8,
                                setsflags: true,
                                imms: 0,
                                rm: 0,
                                rt: 0,
                                rl: 0,
                            }
                        }
                        _ => return I::undefined(),
                    }
                }
                // Data Processing
                // Special data instructions, branch and exchange
                // Load from literal pool
                // Load/store single data item register
                // Load/store single data item immediate
                0b01 => match briz(i, 10, 13) {
                    // Data Processing
                    0b0000 => {
                        let opcode = briz(i, 6, 9);
                        let lowreg = briz(i, 0, 2) as u8;
                        let highreg = briz(i, 3, 5) as u8;

                        let it = match opcode {
                            0b0000 => IT::AND,
                            0b0001 => IT::EOR,
                            0b0010 => IT::LSLReg,
                            0b0011 => IT::LSRReg,
                            0b0100 => IT::ASRReg,
                            0b0101 => IT::ADC,
                            0b0110 => IT::SBC,
                            0b0111 => IT::ROR,
                            0b1000 => IT::TST,
                            // An annoying special case
                            0b1001 => {
                                return I {
                                    it: IT::RSB,
                                    rd: lowreg,
                                    rn: highreg,
                                    rm: 0,
                                    immu: 0,
                                    imms: 0,
                                    rt: 0,
                                    rl: 0,
                                    setsflags: true,
                                }
                            }
                            0b1010 => IT::CMPReg, // T1
                            0b1011 => IT::CMN,
                            0b1100 => IT::ORR,
                            0b1101 => IT::MUL,
                            0b1110 => IT::BIC,
                            0b1111 => IT::MVN,
                            _ => return I::undefined(),
                        };

                        I {
                            it,
                            rd: lowreg,
                            rn: lowreg,
                            rm: highreg,
                            immu: 0,
                            imms: 0,
                            rt: 0,
                            rl: 0,
                            setsflags: true,
                        }
                    }
                    // Special data instructions, branch and exchange
                    0b0001 => match briz(i, 6, 9) {
                        // ADDReg (T2)
                        0b0000 | 0b0001 | 0b0010 | 0b0011 => {
                            let n = briz(i, 7, 7);
                            let rm = briz(i, 3, 6);
                            let rdn = briz(i, 0, 2) + (n * 8);

                            I {
                                it: IT::ADDReg,
                                rn: rdn as u8,
                                rm: rm as u8,
                                setsflags: true,
                                rd: rdn as u8,
                                immu: 0,
                                imms: 0,
                                rt: 0,
                                rl: 0,
                            }
                        }
                        0b0100 => return I::unpredictable(),
                        // CMPReg (T2)
                        0b0101 | 0b0110 | 0b0111 => {
                            let n = briz(i, 7, 7);
                            let rm = briz(i, 3, 6);
                            let rn = briz(i, 0, 2) + (n * 8);

                            I {
                                it: IT::CMPReg,
                                rn: rn as u8,
                                rm: rm as u8,
                                setsflags: true,
                                rd: 0,
                                rt: 0,
                                rl: 0,
                                immu: 0,
                                imms: 0,
                            }
                        }
                        // MOVReg (T1)
                        0b1000..=0b1011 => {
                            let d = briz(i, 7, 7);
                            let rm = briz(i, 3, 6);
                            let rd = briz(i, 0, 2);
                            let rd = rd + (d * 8);

                            I {
                                it: IT::MOVReg,
                                rd: rd as u8,
                                rm: rm as u8,
                                setsflags: true,
                                rn: 0,
                                rt: 0,
                                rl: 0,
                                immu: 0,
                                imms: 0,
                            }
                        }
                        // BX
                        0b1100 | 0b1101 => {
                            let rm = briz(i, 3, 6) as u8;
                            if briz(i, 0, 2) != 0 {
                                return I::unpredictable();
                            }

                            I {
                                it: IT::BX,
                                rm,
                                setsflags: false,
                                rd: 0,
                                rt: 0,
                                rn: 0,
                                rl: 0,
                                immu: 0,
                                imms: 0,
                            }
                        }
                        0b1110 | 0b1111 => {
                            let rm = briz(i, 3, 6) as u8;
                            if briz(i, 0, 2) != 0 {
                                return I::unpredictable();
                            }

                            I {
                                it: IT::BLX,
                                rm,
                                setsflags: false,
                                rd: 0,
                                rn: 0,
                                immu: 0,
                                imms: 0,
                                rt: 0,
                                rl: 0,
                            }
                        }
                        _ => return I::undefined(),
                    },
                    // Load from literal pool
                    0b0010 | 0b0011 => {
                        let rt = briz(i, 8, 10) as u8;
                        let imm8 = briz(i, 0, 7) * 4;

                        return I {
                            it: IT::LDRImm,
                            rt,
                            immu: imm8,
                            imms: 0,
                            rd: 0,
                            rn: 15,
                            rm: 0,
                            rl: 0,
                            setsflags: false,
                        };
                    }
                    // Load/store single data item register
                    0b0100 | 0b0101 | 0b0110 | 0b0111 => {
                        let rt = briz(i, 0, 2) as u8;
                        let rn = briz(i, 3, 5) as u8;
                        let rm = briz(i, 6, 8) as u8;

                        let it = match briz(i, 9, 11) {
                            0b000 => IT::STRReg,
                            0b001 => IT::STRHReg,
                            0b010 => IT::STRBReg,
                            0b011 => IT::LDRSB,
                            0b100 => IT::LDRReg,
                            0b101 => IT::LDRHReg,
                            0b110 => IT::LDRBReg,
                            0b111 => IT::LDRSH,
                            _ => return I::undefined(),
                        };

                        return I {
                            it,
                            rt,
                            rn,
                            rm,
                            rd: 0,
                            rl: 0,
                            immu: 0,
                            imms: 0,
                            setsflags: false,
                        };
                    }
                    // Load/store single data item immediate
                    0b1000..=0b1111 => {
                        let imm5 = briz(i, 6, 10);
                        let rn = briz(i, 3, 5) as u8;
                        let rt = briz(i, 0, 2) as u8;

                        let it = match briz(i, 11, 12) {
                            // STRImm (T1)
                            0b00 => IT::STRImm,
                            // LDRImm (T1)
                            0b01 => IT::LDRImm,

                            0b10 => IT::STRBImm,
                            0b11 => IT::LDRBImm,
                            _ => return I::undefined(),
                        };

                        let immu = match it {
                            IT::STRImm | IT::LDRImm => imm5 * 4,
                            _ => imm5,
                        };

                        I {
                            it,
                            rn,
                            rt,
                            rm: 0,
                            rd: 0,
                            rl: 0,
                            immu,
                            imms: 0,
                            setsflags: false,
                        }
                    }
                    _ => return I::undefined(),
                },
                // Load/store single data item pt2
                // ADR: PC Relative
                // ADDSpImm: SP Relative
                // Misc
                0b10 => match briz(i, 10, 13) {
                    // Load/store single data item pt2
                    0b0000..=0b0111 => {
                        let it = match briz(i, 11, 12) {
                            0b00 => IT::STRHImm,
                            0b01 => IT::LDRHImm,
                            0b10 => IT::STRImm,
                            0b11 => IT::LDRImm,
                            _ => return I::undefined(),
                        };

                        let (immu, rn, rt) = match it {
                            IT::STRImm | IT::LDRImm => {
                                let imm8 = briz(i, 0, 7);
                                let rt = briz(i, 8, 10) as u8;
                                let rn: u8 = 13;

                                (imm8 * 4, rn, rt)
                            }
                            IT::STRHImm | IT::LDRHImm => {
                                let imm5 = briz(i, 6, 10);
                                let rn = briz(i, 3, 5) as u8;
                                let rt = briz(i, 0, 2) as u8;

                                (imm5 * 2, rn, rt)
                            }
                            _ => return I::undefined(),
                        };

                        I {
                            it,
                            rn,
                            rt,
                            immu,
                            rm: 0,
                            rd: 0,
                            rl: 0,
                            imms: 0,
                            setsflags: false,
                        }
                    }
                    // ADR
                    0b1000 | 0b1001 => {
                        let rd = briz(i, 8, 10) as u8;
                        let imm8 = briz(i, 0, 7);

                        I {
                            it: IT::ADDImm,
                            rd,
                            immu: imm8,
                            imms: 0,
                            rm: 0,
                            rn: 15,
                            rt: 0,
                            rl: 0,
                            setsflags: false,
                        }
                    }
                    // ADDSpImm (T1)
                    0b1010 | 0b1011 => {
                        let rd = briz(i, 8, 10) as u8;
                        let imm8 = briz(i, 0, 7) * 4;

                        I {
                            it: IT::ADDImm,
                            rd,
                            immu: imm8,
                            imms: 0,
                            rm: 0,
                            rn: 13,
                            rt: 0,
                            rl: 0,
                            setsflags: false,
                        }
                    }
                    // Misc
                    0b1100..=0b1111 => {
                        match briz(i, 5, 11) {
                            // ADDSpImm (T2)
                            0b0000000..=0b0000011 => {
                                let imm7 = briz(i, 0, 6) * 4;

                                I {
                                    it: IT::ADDImm,
                                    rd: 13,
                                    immu: imm7,
                                    imms: 0,
                                    rm: 0,
                                    rn: 13,
                                    rt: 0,
                                    rl: 0,
                                    setsflags: false,
                                }
                            }
                            // SUBSP
                            0b0000100..=0b0000111 => {
                                let imm7 = briz(i, 0, 6) * 4;

                                I {
                                    it: IT::SUBImm,
                                    rd: 13,
                                    immu: imm7,
                                    imms: 0,
                                    rm: 0,
                                    rn: 13,
                                    rt: 0,
                                    rl: 0,
                                    setsflags: false,
                                }
                            }
                            // SXTH, SXTB, UXTH, UXTB
                            0b0010000..=0b0010111 => {
                                let rd = briz(i, 0, 2) as u8;
                                let rm = briz(i, 3, 5) as u8;

                                let it = match briz(i, 6, 7) {
                                    0b00 => IT::SXTH,
                                    0b01 => IT::SXTB,
                                    0b10 => IT::UXTH,
                                    0b11 => IT::UXTB,
                                    _ => return I::undefined(),
                                };

                                I {
                                    it,
                                    rd,
                                    rm,
                                    rn: 0,
                                    rt: 0,
                                    rl: 0,
                                    setsflags: false,
                                    immu: 0,
                                    imms: 0,
                                }
                            }
                            // Push multiple registers
                            0b0100000..=0b0101111 => {
                                let m = briz(i, 8, 8);
                                let rl = briz(i, 0, 7) + (m * 16384);

                                I {
                                    it: IT::PUSH,
                                    rl: rl as u16,
                                    rn: 0,
                                    rd: 0,
                                    rt: 0,
                                    rm: 0,
                                    immu: 0,
                                    imms: 0,
                                    setsflags: false,
                                }
                            }
                            0b0110011 => return I::undefined(),
                            0b1010000..=0b1010111 => {
                                let rm = briz(i, 3, 5) as u8;
                                let rd = briz(i, 0, 2) as u8;

                                let it = match briz(i, 6, 7) {
                                    0b00 => IT::REV,
                                    0b01 => IT::REV16,
                                    0b10 => return I::undefined(),
                                    0b11 => IT::REVSH,
                                    _ => return I::undefined(),
                                };

                                I {
                                    it,
                                    rm,
                                    rd,
                                    rn: 0,
                                    rt: 0,
                                    rl: 0,
                                    immu: 0,
                                    imms: 0,
                                    setsflags: false,
                                }
                            }
                            // Pop
                            0b1100000..=0b1101111 => {
                                let p = briz(i, 8, 8);
                                let rl = briz(i, 0, 7) + (p * 32768);

                                return I {
                                    it: IT::POP,
                                    rl: rl as u16,
                                    rn: 0,
                                    rd: 0,
                                    rt: 0,
                                    rm: 0,
                                    immu: 0,
                                    imms: 0,
                                    setsflags: false,
                                };
                            }
                            // BKPT
                            0b1110000..=0b1110111 => {
                                let imm8 = briz(i, 0, 7);

                                return I {
                                    it: IT::BKPT,
                                    immu: imm8,
                                    rd: 0,
                                    rn: 0,
                                    rm: 0,
                                    rt: 0,
                                    rl: 0,
                                    imms: 0,
                                    setsflags: false,
                                };
                            }
                            0b1111000..=0b1111111 => {
                                let opa = briz(i, 4, 7);
                                let opb = briz(i, 0, 3);
                                match (opa, opb) {
                                    (0, 0) => I {
                                        it: IT::NOP,
                                        imms: 0,
                                        immu: 0,
                                        rd: 0,
                                        rl: 0,
                                        rm: 0,
                                        rt: 0,
                                        rn: 0,
                                        setsflags: false,
                                    },
                                    _ => return I::undefined(),
                                }
                            }
                            _ => return I::undefined(),
                        }
                    }
                    _ => return I::undefined(),
                },
                // Store Multiple
                // Load Multiple
                // Conditional Branch
                // Unconditional Branch
                0b11 => match briz(i, 10, 13) {
                    // STM
                    0b0000 | 0b0001 => {
                        let rn = briz(i, 8, 10) as u8;
                        let rl = briz(i, 0, 7) as u16;

                        return I {
                            it: IT::STMIA,
                            rl,
                            rn,
                            rd: 0,
                            rm: 0,
                            rt: 0,
                            immu: 0,
                            imms: 0,
                            setsflags: false,
                        };
                    }
                    // LDM
                    0b0010 | 0b0011 => {
                        let rn = briz(i, 8, 10) as u8;
                        let rl = briz(i, 0, 7) as u16;

                        return I {
                            it: IT::LDMIA,
                            rl,
                            rn,
                            rd: 0,
                            rm: 0,
                            rt: 0,
                            immu: 0,
                            imms: 0,
                            setsflags: false,
                        };
                    }
                    // Conditional Branch, UDF and SVC
                    0b0100..=0b0111 => {
                        match briz(i, 8, 11) {
                            0b1110 => return I::undefined(),
                            // SVC and B (T1)
                            _ => {
                                let cond = briz(i, 8, 11);

                                match cond {
                                    0b0000..=0b1110 => {
                                        decode_b1(i)
                                    }
                                    0b1111 => I {
                                        it: IT::SVC,
                                        immu: briz(i, 0, 7),
                                        rn: 0,
                                        rd: 0,
                                        rt: 0,
                                        rl: 0,
                                        rm: 0,
                                        imms: 0,
                                        setsflags: false,
                                    },
                                    _ => return I::undefined(),
                                }
                            }
                        }
                    }
                    // B (T2)
                    0b1000 | 0b1001 => {
                        decode_b2(i)
                    }
                    _ => return I::undefined(),
                },
                _ => return I::undefined(),
            }
        }
        // Instruction is 32 bit
        _ => {
            if briz(i, 29, 31) != 0b111 {
                return I::undefined()
            }

            let op1 = briz(i, 27, 28);
            let op = briz(i, 15, 15);

            match (op1, op) {
                (0b01, _) | (0b11, _) | (0b10, 0) => return I::undefined(),
                (0b10, 1) => {
                    let op1 = briz(i, 20, 26);
                    let op2 = briz(i, 12, 14);

                    match (op2, op1) {
                        // MSR
                        (0b000, 0b0111000)
                        | (0b000, 0b0111001)
                        | (0b010, 0b0111000)
                        | (0b010, 0b0111001) => {
                            return I::undefined()
                        }
                        // MRS
                        (0b000, 0b0111110)
                        | (0b000, 0b0111111)
                        | (0b010, 0b0111110)
                        | (0b010, 0b0111111) => {
                            return I::undefined()
                        }
                        // UDF
                        (0b010, 0b1111111) => return I::undefined(),
                        // Misc control instructions
                        (0b000, 0b0111011) | (0b010, 0b0111011) => {
                            let option = briz(i, 0, 3);
                            let it = match briz(i, 4, 7) {
                                0b0100 => IT::DSB,
                                0b0101 => IT::DMB,
                                0b0110 => IT::ISB,
                                _ => return I::undefined(),
                            };

                            I {
                                it,
                                rd: 0,
                                rn: option as u8,
                                rm: 0,
                                rt: 0,
                                rl: 0,
                                immu: 0,
                                imms: 0,
                                setsflags: false,
                            }
                        }
                        // BL
                        (0b101, _) | (0b111, _) => {
                            decode_bl(i)
                        }
                        _ => return I::undefined(),
                    }
                }
                _ => return I::undefined(),
            }
        }
    }
}

/// The branch offset of a BL: SignExtend(S:I1:I2:imm10:imm11:0), where
/// I1 = NOT(J1 XOR S) and I2 = NOT(J2 XOR S).
pub open spec fn bl_offset(i: u32) -> int {
    let s = bit_at(i, 26);
    let i1: int = if bit_at(i, 13) == s { 1 } else { 0 };
    let i2: int = if bit_at(i, 11) == s { 1 } else { 0 };
    bit_field(i, 0, 11) * 2 + bit_field(i, 16, 10) * 0x1000 + i2 * 0x40_0000 + i1 * 0x80_0000 - s * 0x100_0000
}

pub fn decode_bl(i: u32) -> (r: I)
    ensures
        r == (I { imms: bl_offset(i) as i32, ..blank(IT::BL) }),
        r.imms == bl_offset(i),
{
    proof {
        lemma2_to64();
    }
    let s = bit_as_bool(i, 26);
    let j1 = bit_as_bool(i, 13);
    let j2 = bit_as_bool(i, 11);
    let i1: i32 = if j1 == s { 1 } else { 0 };
    let i2: i32 = if j2 == s { 1 } else { 0 };
    let imm11 = briz(i, 0, 10) as i32;
    let imm10 = briz(i, 16, 25) as i32;
    let sign: i32 = if s { 0x100_0000 } else { 0 };
    let imm32: i32 = imm11 * 2 + imm10 * 0x1000 + i2 * 0x40_0000 + i1 * 0x80_0000 - sign;
    I { it: IT::BL, imms: imm32, rd: 0, rn: 0, rm: 0, rt: 0, rl: 0, immu: 0, setsflags: false }
}

/// Conditional branch (T1): condition in bits 8-11, offset SignExtend(imm8:0).
pub fn decode_b1(i: u32) -> (r: I)
    ensures
        r == (I {
            imms: (bit_field(i, 0, 7) * 2 - bit_at(i, 7) * 0x100) as i32,
            rn: bit_field(i, 8, 4) as u8,
            ..blank(IT::B)
        }),
        r.imms == bit_field(i, 0, 7) * 2 - bit_at(i, 7) * 0x100,
        r.rn == bit_field(i, 8, 4),
{
    proof {
        lemma2_to64();
    }
    let imm7 = briz(i, 0, 6) as i32;
    let sign: i32 = if bit_as_bool(i, 7) { 0x100 } else { 0 };
    let imm8: i32 = imm7 * 2 - sign;
    I { it: IT::B, imms: imm8, rn: briz(i, 8, 11) as u8, rd: 0, rt: 0, rl: 0, rm: 0, immu: 0, setsflags: false }
}

/// Unconditional branch (T2): offset SignExtend(imm11:0), condition "always".
pub fn decode_b2(i: u32) -> (r: I)
    ensures
        r == (I { imms: (bit_field(i, 0, 10) * 2 - bit_at(i, 10) * 0x800) as i32, rn: 0b1110, ..blank(IT::B) }),
        r.imms == bit_field(i, 0, 10) * 2 - bit_at(i, 10) * 0x800,
{
    proof {
        lemma2_to64();
    }
    let imm10 = briz(i, 0, 9) as i32;
    let sign: i32 = if bit_as_bool(i, 10) { 0x800 } else { 0 };
    let imm11: i32 = imm10 * 2 - sign;
    I { it: IT::B, imms: imm11, rn: 0b1110, rd: 0, rt: 0, rl: 0, rm: 0, immu: 0, setsflags: false }
}

} // verus!
