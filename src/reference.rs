use crate::alu::{add_with_carry, shift_with_carry, to_signed, ALUOperation, ShiftType, ALU};
use crate::binary::{bit_as_bool, hamming_weight, is_32_bit};
use crate::decoder::{decode, regs_in_range};
use crate::instr::{I, IT};
use crate::memory::MemError;
use crate::ooo::{condition_holds, push_decimal, Fault, ProcessorState};
use crate::registers::ASPR;
use vstd::prelude::*;

verus! {

/// One execution unit of the in-order reference machine: the instruction it
/// holds and the cycles it still needs.
#[derive(Clone, Copy)]
pub struct Executor {
    pub i: Option<I>,
    pub cycles_remaining: usize,
    pub is_32_bit: bool,
}

/// How the reference machine is set up.
#[derive(Clone, Copy, PartialEq, Eq, Debug, Structural)]
pub struct RunConfig {
    pub executors: usize,
    pub pipelined: bool,
}

impl RunConfig {
    pub fn no_pipeline_no_superscalar() -> (r: RunConfig)
        ensures
            r == (RunConfig { executors: 1, pipelined: false }),
    {
        RunConfig { executors: 1, pipelined: false }
    }

    pub fn pipeline_no_superscalar() -> (r: RunConfig)
        ensures
            r == (RunConfig { executors: 1, pipelined: false }),
    {
        RunConfig { executors: 1, pipelined: false }
    }
}

/// Cycles an instruction takes, after the Cortex-M0's timings; `None` for
/// those without one.
pub open spec fn cycles_of(i: I) -> Option<int> {
    match i.it {
        IT::ADDReg | IT::MOVReg => Some(if i.rd == 15 { 3int } else { 1 }),
        IT::ADC | IT::ADDImm | IT::ADDSpImm | IT::AND | IT::ASRImm | IT::ASRReg | IT::LSLImm | IT::LSLReg
        | IT::LSRImm | IT::LSRReg | IT::BIC | IT::CMPReg | IT::CMPImm | IT::CMN | IT::EOR | IT::MOVImm
        | IT::MVN | IT::NOP | IT::ORR | IT::REV | IT::REV16 | IT::REVSH | IT::ROR | IT::SBC | IT::RSB
        | IT::SUBImm | IT::SUBReg | IT::SXTB | IT::SXTH | IT::TST | IT::UXTB | IT::UXTH => Some(1),
        IT::LDRBImm | IT::LDRHImm | IT::LDRBReg | IT::LDRHReg | IT::LDRImm | IT::LDRReg | IT::LDRSB
        | IT::LDRSH | IT::STRBImm | IT::STRBReg | IT::STRHImm | IT::STRHReg | IT::STRImm | IT::STRReg => Some(2),
        IT::LDMIA | IT::STMIA | IT::PUSH | IT::POP => Some(1 + crate::binary::ones_below(i.rl as u32, 32) as int),
        IT::MUL => Some(2),
        IT::B | IT::BLX | IT::BX | IT::SetPC => Some(3),
        IT::BL | IT::DMB | IT::DSB | IT::ISB | IT::MRS | IT::MSR | IT::SVC => Some(4),
        _ => None,
    }
}

pub fn i_len_lookup(i: &I) -> (r: Option<usize>)
    ensures
        r matches Some(n) ==> cycles_of(*i) == Some(n as int),
        r.is_none() ==> cycles_of(*i).is_none(),
{
    match i.it {
        IT::ADDReg | IT::MOVReg => Some(if i.rd == 15 { 3 } else { 1 }),
        IT::ADC | IT::ADDImm | IT::ADDSpImm | IT::AND | IT::ASRImm | IT::ASRReg | IT::LSLImm | IT::LSLReg
        | IT::LSRImm | IT::LSRReg | IT::BIC | IT::CMPReg | IT::CMPImm | IT::CMN | IT::EOR | IT::MOVImm
        | IT::MVN | IT::NOP | IT::ORR | IT::REV | IT::REV16 | IT::REVSH | IT::ROR | IT::SBC | IT::RSB
        | IT::SUBImm | IT::SUBReg | IT::SXTB | IT::SXTH | IT::TST | IT::UXTB | IT::UXTH => Some(1),
        IT::LDRBImm | IT::LDRHImm | IT::LDRBReg | IT::LDRHReg | IT::LDRImm | IT::LDRReg | IT::LDRSB
        | IT::LDRSH | IT::STRBImm | IT::STRBReg | IT::STRHImm | IT::STRHReg | IT::STRImm | IT::STRReg => Some(2),
        IT::LDMIA | IT::STMIA | IT::PUSH | IT::POP => Some(1 + hamming_weight(i.rl as u32) as usize),
        IT::MUL => Some(2),
        IT::B | IT::BLX | IT::BX | IT::SetPC => Some(3),
        IT::BL | IT::DMB | IT::DSB | IT::ISB | IT::MRS | IT::MSR | IT::SVC => Some(4),
        _ => None,
    }
}

/// Whether condition `cond` holds under flags `f`.
pub open spec fn cond_spec(f: ASPR, cond: u8) -> bool {
    if cond <= 1 {
        crate::ooo::condition_spec(cond, f.z, false, false)
    } else if cond <= 3 {
        crate::ooo::condition_spec(cond, f.c, false, false)
    } else if cond <= 5 {
        crate::ooo::condition_spec(cond, f.n, false, false)
    } else if cond <= 7 {
        crate::ooo::condition_spec(cond, f.v, false, false)
    } else if cond <= 9 {
        crate::ooo::condition_spec(cond, f.z, f.c, false)
    } else if cond <= 11 {
        crate::ooo::condition_spec(cond, f.n, f.v, false)
    } else if cond <= 13 {
        crate::ooo::condition_spec(cond, f.n, f.z, f.v)
    } else {
        cond == 14
    }
}

/// The flags the condition reads, in the order the control unit takes them.
pub fn cond_passed(f: &ASPR, cond: u8) -> (r: bool)
    ensures
        r == cond_spec(*f, cond),
{
    if cond <= 1 {
        condition_holds(cond, f.z, false, false)
    } else if cond <= 3 {
        condition_holds(cond, f.c, false, false)
    } else if cond <= 5 {
        condition_holds(cond, f.n, false, false)
    } else if cond <= 7 {
        condition_holds(cond, f.v, false, false)
    } else if cond <= 9 {
        condition_holds(cond, f.z, f.c, false)
    } else if cond <= 11 {
        condition_holds(cond, f.n, f.v, false)
    } else if cond <= 13 {
        condition_holds(cond, f.n, f.z, f.v)
    } else {
        cond == 14
    }
}

fn mem_fault(e: MemError, addr: u32) -> (r: Fault)
    ensures
        r == Fault::Memory(e, addr),
{
    Fault::Memory(e, addr)
}

impl Executor {
    pub fn new() -> (r: Executor)
        ensures
            r.i.is_none(),
            r.cycles_remaining == 0,
    {
        Executor { i: None, cycles_remaining: 0, is_32_bit: false }
    }

    /// Takes `i` and the cycles it needs; false when no timing is known.
    pub fn assign(&mut self, i: I, is_32_bit: bool) -> (r: bool)
        ensures
            r == cycles_of(i).is_some(),
            r ==> final(self).i == Some(i) && final(self).cycles_remaining == cycles_of(i).unwrap()
                && final(self).is_32_bit == is_32_bit,
            !r ==> *final(self) == *old(self),
    {
        match i_len_lookup(&i) {
            Some(n) => {
                self.i = Some(i);
                self.cycles_remaining = n;
                self.is_32_bit = is_32_bit;
                true
            },
            None => false,
        }
    }

    /// Executes the held instruction in full, in program order, on the
    /// architectural state: the reference against which the out-of-order
    /// core can be compared. Returns the exit code when the program asks to
    /// halt.
    pub fn execute_instruction(&mut self, state: &mut ProcessorState, output: &mut Vec<u8>) -> (r: Result<
        Option<i32>,
        Fault,
    >)
        requires
            old(state).mem.wf(),
        ensures
            final(state).mem.wf(),
            final(self).i.is_none(),
            old(self).i.is_none() ==> r == Err::<Option<i32>, Fault>(Fault::Internal),
            r matches Ok(_) ==> old(self).i matches Some(i) && regs_in_range(i),
            ({
                let i = old(self).i.unwrap();
                (r matches Ok(None)) && old(self).i.is_some() && !crate::instr::is_control(i.it) && i.it != IT::POP
                    ==> final(state).regs.pc == (old(state).regs.pc + if old(self).is_32_bit { 4int } else { 2 })
                    % 0x1_0000_0000
            }),
            ({
                let i = old(self).i.unwrap();
                let n = old(state).regs.reg(i.rn as int);
                let m = old(state).regs.reg(i.rm as int);
                old(self).i.is_some() && regs_in_range(i) && i.rd < 15 && (r matches Ok(_)) ==> {
                    &&& i.it == IT::ADDReg ==> final(state).regs.reg(i.rd as int) == (n + m) % 0x1_0000_0000
                    &&& i.it == IT::SUBReg ==> final(state).regs.reg(i.rd as int) == (n - m + 0x1_0000_0000)
                        % 0x1_0000_0000
                    &&& i.it == IT::ADDImm ==> final(state).regs.reg(i.rd as int) == (n + i.immu) % 0x1_0000_0000
                    &&& i.it == IT::SUBImm ==> final(state).regs.reg(i.rd as int) == (n - i.immu + 0x1_0000_0000)
                        % 0x1_0000_0000
                }
            }),
            // register-to-register data processing always succeeds
            ({
                let i = old(self).i.unwrap();
                old(self).i.is_some() && regs_in_range(i) && matches!(i.it, IT::ADC | IT::SBC | IT::ADDReg | IT::ADDImm
                    | IT::ADDSpImm | IT::CMN | IT::CMPReg | IT::CMPImm | IT::RSB | IT::SUBImm | IT::SUBReg | IT::ASRImm
                    | IT::ASRReg | IT::LSLImm | IT::LSLReg | IT::LSRImm | IT::LSRReg | IT::MOVImm | IT::MOVReg | IT::MVN
                    | IT::ROR | IT::MUL | IT::AND | IT::BIC | IT::EOR | IT::ORR | IT::TST | IT::REV | IT::REV16
                    | IT::REVSH | IT::UXTH | IT::UXTB | IT::SXTH | IT::SXTB | IT::NOP | IT::B | IT::BL | IT::BX
                    | IT::BLX) ==> r == Ok::<Option<i32>, Fault>(None)
            }),
            ({
                let i = old(self).i.unwrap();
                old(self).i.is_some() && i.it == IT::MOVImm && regs_in_range(i) && i.rd < 15 ==> (r matches Ok(
                    None,
                ) && final(state).regs.reg(i.rd as int) == i.immu)
            }),
    {
        let i = match self.i {
            None => {
                return Err(Fault::Internal);
            },
            Some(i) => i,
        };
        self.i = None;
        if !(i.rd < 16 && i.rn < 16 && i.rm < 16 && i.rt < 16) {
            return Err(Fault::Decode(state.regs.pc, i.it));
        }
        let pc = state.regs.pc;
        let c_in: u8 = if state.regs.apsr.c { 1 } else { 0 };
        let mut branched = false;
        match i.it {
            IT::SVC => {
                let r0 = state.regs.get(0);
                if i.immu == 0 {
                    state.regs.pc = pc.wrapping_add(2);
                    return Ok(Some(to_signed(r0)));
                } else if i.immu == 1 {
                    let mut addr = r0;
                    loop
                        invariant
                            state.mem.wf(),
                            self.i.is_none(),
                            old(self).i == Some(i),
                            i.it == IT::SVC,
                        decreases u32::MAX - addr,
                    {
                        match state.mem.get_byte(addr) {
                            Ok(c) => {
                                if c == 0 {
                                    break;
                                }
                                output.push(c);
                            },
                            Err(e) => {
                                return Err(mem_fault(e, addr));
                            },
                        }
                        if addr == u32::MAX {
                            break;
                        }
                        addr = addr + 1;
                    }
                } else if i.immu == 3 {
                    push_decimal(output, r0);
                } else {
                    return Err(Fault::Syscall(i.immu));
                }
            },
            IT::ADC | IT::SBC | IT::ADDReg | IT::ADDImm | IT::ADDSpImm | IT::CMN | IT::CMPReg | IT::CMPImm
            | IT::RSB | IT::SUBImm | IT::SUBReg => {
                let rn = state.regs.get(i.rn);
                let rm = state.regs.get(i.rm);
                let n = match i.it {
                    IT::ADDSpImm => state.regs.sp,
                    IT::RSB => 0xFFFF_FFFFu32 - rn,
                    _ => rn,
                };
                let m = match i.it {
                    IT::ADC | IT::ADDReg | IT::CMN => rm,
                    IT::ADDImm | IT::ADDSpImm | IT::RSB => i.immu,
                    IT::CMPImm | IT::SUBImm => 0xFFFF_FFFFu32 - i.immu,
                    _ => 0xFFFF_FFFFu32 - rm,
                };
                let carry: u8 = match i.it {
                    IT::ADC | IT::SBC => c_in,
                    IT::CMPReg | IT::CMPImm | IT::RSB | IT::SUBImm | IT::SUBReg => 1,
                    _ => 0,
                };
                let (result, carry_out, overflow) = add_with_carry(n, m, carry);
                match i.it {
                    IT::CMN | IT::CMPImm | IT::CMPReg => {},
                    _ => state.regs.set(i.rd, result),
                }
                proof {
                    let sum = (rn + rm) % 0x1_0000_0000;
                    assert(i.it == IT::ADDReg ==> state.regs.reg(i.rd as int) == sum);
                    assert(i.it == IT::SUBReg ==> state.regs.reg(i.rd as int) == (rn - rm + 0x1_0000_0000)
                        % 0x1_0000_0000);
                    assert(i.it == IT::ADDImm ==> state.regs.reg(i.rd as int) == (rn + i.immu) % 0x1_0000_0000);
                    assert(i.it == IT::SUBImm ==> state.regs.reg(i.rd as int) == (rn - i.immu + 0x1_0000_0000)
                        % 0x1_0000_0000);
                }
                if i.rd != 15 && i.setsflags {
                    state.regs.apsr = ASPR {
                        n: result >= 0x8000_0000,
                        z: result == 0,
                        c: carry_out == 1,
                        v: overflow == 1,
                    };
                }
            },
            IT::ASRImm | IT::ASRReg | IT::LSLImm | IT::LSLReg | IT::LSRImm | IT::LSRReg | IT::MOVImm | IT::MOVReg
            | IT::MVN | IT::ROR => {
                let value = match i.it {
                    IT::ASRReg | IT::LSLReg | IT::LSRReg | IT::ROR => state.regs.get(i.rn),
                    IT::MVN => 0xFFFF_FFFFu32 - state.regs.get(i.rm),
                    IT::MOVImm => i.immu,
                    _ => state.regs.get(i.rm),
                };
                let amount: u8 = match i.it {
                    IT::ASRImm | IT::LSRImm | IT::LSLImm => (i.immu % 256) as u8,
                    IT::ASRReg | IT::LSLReg | IT::LSRReg | IT::ROR => (state.regs.get(i.rm) % 256) as u8,
                    _ => 0,
                };
                let kind = match i.it {
                    IT::ASRImm | IT::ASRReg => ShiftType::ASR,
                    IT::LSRImm | IT::LSRReg => ShiftType::LSR,
                    IT::ROR => ShiftType::ROR,
                    _ => ShiftType::LSL,
                };
                let shifted = shift_with_carry(kind, value, amount, c_in);
                state.regs.set(i.rd, shifted.result);
                proof {
                    assert(i.it == IT::MOVImm ==> state.regs.reg(i.rd as int) == i.immu);
                }
                if i.setsflags {
                    state.regs.apsr.n = shifted.result >= 0x8000_0000;
                    state.regs.apsr.z = shifted.result == 0;
                    if let Some(c) = shifted.aspr_update.c {
                        state.regs.apsr.c = c;
                    }
                }
            },
            IT::MUL => {
                let n = state.regs.get(i.rn);
                let m = state.regs.get(i.rm);
                let result = n.wrapping_mul(m);
                state.regs.set(i.rd, result);
                if i.setsflags {
                    state.regs.apsr.n = result >= 0x8000_0000;
                    state.regs.apsr.z = result == 0;
                }
            },
            IT::AND | IT::BIC | IT::EOR | IT::ORR | IT::TST => {
                let n = state.regs.get(i.rn);
                let m = state.regs.get(i.rm);
                let result = match i.it {
                    IT::BIC => n & (0xFFFF_FFFFu32 - m),
                    IT::EOR => n ^ m,
                    IT::ORR => n | m,
                    _ => n & m,
                };
                if i.it != IT::TST {
                    state.regs.set(i.rd, result);
                }
                if i.setsflags {
                    state.regs.apsr.n = result >= 0x8000_0000;
                    state.regs.apsr.z = result == 0;
                }
            },
            IT::B | IT::BL | IT::BLX | IT::BX => {
                let pc_value = pc.wrapping_add(4);
                let target = match i.it {
                    IT::BL => pc_value.wrapping_add_signed(i.imms),
                    IT::BLX | IT::BX => state.regs.get(i.rm),
                    _ => if cond_passed(&state.regs.apsr, i.rn) {
                        pc_value.wrapping_add_signed(i.imms)
                    } else {
                        pc.wrapping_add(2)
                    },
                };
                if i.it == IT::BL {
                    state.regs.lr = pc_value | 1;
                } else if i.it == IT::BLX {
                    state.regs.lr = pc.wrapping_add(2) | 1;
                }
                state.regs.pc = target - target % 2;
                branched = true;
            },
            IT::LDMIA | IT::POP => {
                let base: u8 = if i.it == IT::POP { 13 } else { i.rn };
                let mut addr = state.regs.get(base);
                let mut wback = true;
                let mut b: u32 = 0;
                while b < 8
                    invariant
                        state.mem.wf(),
                        self.i.is_none(),
                        old(self).i == Some(i),
                        i.it == IT::LDMIA || i.it == IT::POP,
                        base < 16,
                        b <= 8,
                    decreases 8 - b,
                {
                    if bit_as_bool(i.rl as u32, b) {
                        if b == base as u32 {
                            wback = false;
                        }
                        match state.mem.get_word(addr) {
                            Ok(v) => state.regs.set(b as u8, v),
                            Err(e) => {
                                return Err(mem_fault(e, addr));
                            },
                        }
                        addr = addr.wrapping_add(4);
                    }
                    b = b + 1;
                }
                let size = 4 * hamming_weight(i.rl as u32);
                if i.it == IT::POP && bit_as_bool(i.rl as u32, 15) {
                    match state.mem.get_word(addr) {
                        Ok(v) => {
                            state.regs.pc = v - v % 2;
                            branched = true;
                        },
                        Err(e) => {
                            return Err(mem_fault(e, addr));
                        },
                    }
                }
                if wback || i.it == IT::POP {
                    let updated = state.regs.get(base).wrapping_add(size);
                    state.regs.set(base, updated);
                }
            },
            IT::STMIA | IT::PUSH => {
                let base: u8 = if i.it == IT::PUSH { 13 } else { i.rn };
                let size = 4 * hamming_weight(i.rl as u32);
                let start = if i.it == IT::PUSH {
                    state.regs.get(base).wrapping_sub(size)
                } else {
                    state.regs.get(base)
                };
                let mut addr = start;
                let mut b: u32 = 0;
                while b < 15
                    invariant
                        state.mem.wf(),
                        self.i.is_none(),
                        old(self).i == Some(i),
                        i.it == IT::STMIA || i.it == IT::PUSH,
                        base < 16,
                        b <= 15,
                    decreases 15 - b,
                {
                    if bit_as_bool(i.rl as u32, b) {
                        let v = state.regs.get(b as u8);
                        if let Err(e) = state.mem.set_word(addr, v) {
                            return Err(mem_fault(e, addr));
                        }
                        addr = addr.wrapping_add(4);
                    }
                    b = b + 1;
                }
                let updated = if i.it == IT::PUSH {
                    start
                } else {
                    state.regs.get(base).wrapping_add(size)
                };
                state.regs.set(base, updated);
            },
            IT::LDRImm | IT::LDRReg | IT::LDRBImm | IT::LDRBReg | IT::LDRHReg | IT::LDRHImm | IT::LDRSB
            | IT::LDRSH => {
                let base = state.regs.get(i.rn);
                let addr = match i.it {
                    IT::LDRImm | IT::LDRBImm | IT::LDRHImm => base.wrapping_add(i.immu),
                    _ => base.wrapping_add(state.regs.get(i.rm)),
                };
                let loaded: Result<u32, MemError> = match i.it {
                    IT::LDRImm | IT::LDRReg => state.mem.get_word(addr),
                    IT::LDRHImm | IT::LDRHReg => match state.mem.get_halfword(addr) {
                        Ok(h) => Ok(h as u32),
                        Err(e) => Err(e),
                    },
                    IT::LDRBImm | IT::LDRBReg => match state.mem.get_byte(addr) {
                        Ok(b) => Ok(b as u32),
                        Err(e) => Err(e),
                    },
                    IT::LDRSH => match state.mem.get_halfword(addr) {
                        Ok(h) => Ok(if h < 0x8000 { h as u32 } else { h as u32 + 0xFFFF_0000 }),
                        Err(e) => Err(e),
                    },
                    _ => match state.mem.get_byte(addr) {
                        Ok(b) => Ok(if b < 0x80 { b as u32 } else { b as u32 + 0xFFFF_FF00 }),
                        Err(e) => Err(e),
                    },
                };
                match loaded {
                    Ok(v) => state.regs.set(i.rt, v),
                    Err(e) => {
                        return Err(mem_fault(e, addr));
                    },
                }
            },
            IT::STRImm | IT::STRReg | IT::STRBImm | IT::STRBReg | IT::STRHImm | IT::STRHReg => {
                let base = state.regs.get(i.rn);
                let addr = match i.it {
                    IT::STRImm | IT::STRBImm | IT::STRHImm => base.wrapping_add(i.immu),
                    _ => base.wrapping_add(state.regs.get(i.rm)),
                };
                let value = state.regs.get(i.rt);
                let written = match i.it {
                    IT::STRImm | IT::STRReg => state.mem.set_word(addr, value),
                    IT::STRHImm | IT::STRHReg => state.mem.set_halfword(addr, (value % 0x1_0000) as u16),
                    _ => state.mem.set_byte(addr, (value % 0x100) as u8),
                };
                if let Err(e) = written {
                    return Err(mem_fault(e, addr));
                }
            },
            IT::REV | IT::REV16 | IT::REVSH | IT::UXTH | IT::UXTB | IT::SXTH | IT::SXTB => {
                let op = match i.it {
                    IT::REV => ALUOperation::REV,
                    IT::REV16 => ALUOperation::REV16,
                    IT::REVSH => ALUOperation::REVSH,
                    IT::UXTH => ALUOperation::UXTH,
                    IT::UXTB => ALUOperation::UXTB,
                    IT::SXTH => ALUOperation::SXTH,
                    _ => ALUOperation::SXTB,
                };
                let value = state.regs.get(i.rm);
                state.regs.set(i.rd, ALU(op, value, 0, false).result);
            },
            IT::NOP => {},
            _ => {
                return Err(Fault::Decode(pc, i.it));
            },
        }
        if !branched {
            state.regs.pc = pc.wrapping_add(if self.is_32_bit { 4 } else { 2 });
        }
        Ok(None)
    }
}

/// Executes a 16-bit `LSL Rd, Rm, #imm5` (T1) word on the register file,
/// without touching the flags or the PC.
#[allow(non_snake_case)]
pub fn LSL(i: u32, state: &mut ProcessorState)
    requires
        i < 0x10000,
    ensures
        ({
            let imm5 = crate::binary::bit_field(i, 6, 5);
            let m = crate::binary::bit_field(i, 3, 3);
            let d = crate::binary::bit_field(i, 0, 3);
            final(state).regs.reg(d as int) == (old(state).regs.reg(m as int) * vstd::arithmetic::power2::pow2(imm5))
                % 0x1_0000_0000
        }),
        final(state).mem == old(state).mem,
        final(state).regs.apsr == old(state).regs.apsr,
{
    proof {
        vstd::arithmetic::power2::lemma2_to64();
    }
    let imm5 = crate::binary::briz(i, 6, 10);
    let m = crate::binary::briz(i, 3, 5) as u8;
    let d = crate::binary::briz(i, 0, 2) as u8;
    let value = state.regs.get(m);
    let shifted = shift_with_carry(ShiftType::LSL, value, imm5 as u8, 0);
    proof {
        if imm5 == 0 {
            assert(value as int * vstd::arithmetic::power2::pow2(0) == value);
            assert((value as int * vstd::arithmetic::power2::pow2(0)) % 0x1_0000_0000 == value);
        }
    }
    state.regs.set(d, shifted.result);
}

/// The reference machine's execution units.
pub struct ExecutorPool {
    pub pool: Vec<Executor>,
    pub executed_count: u32,
}

impl ExecutorPool {
    /// Every busy unit needs at least one more cycle.
    pub open spec fn wf(self) -> bool {
        forall|x: int| 0 <= x < self.pool@.len() ==> (#[trigger] self.pool@[x]).i.is_some() ==> self.pool@[x].cycles_remaining >= 1
    }

    pub open spec fn empty_spec(self) -> bool {
        forall|x: int| 0 <= x < self.pool@.len() ==> (#[trigger] self.pool@[x]).i.is_none()
    }

    pub fn new(n: usize) -> (r: ExecutorPool)
        ensures
            r.wf(),
            r.empty_spec(),
            r.pool@.len() == n,
            r.executed_count == 0,
    {
        let mut pool: Vec<Executor> = Vec::new();
        let mut k: usize = 0;
        while k < n
            invariant
                k <= n,
                pool@.len() == k,
                forall|x: int| 0 <= x < k ==> (#[trigger] pool@[x]).i.is_none(),
            decreases n - k,
        {
            pool.push(Executor::new());
            k = k + 1;
        }
        ExecutorPool { pool, executed_count: 0 }
    }

    /// Gives `i` to the first unit when it is free and the instruction has a
    /// timing.
    pub fn assign(&mut self, i: I, is_32_bit: bool) -> (r: bool)
        requires
            old(self).wf(),
        ensures
            final(self).wf(),
            final(self).pool@.len() == old(self).pool@.len(),
            final(self).executed_count == old(self).executed_count,
            r == (old(self).pool@.len() > 0 && old(self).pool@[0].i.is_none() && cycles_of(i).is_some()),
            r ==> final(self).pool@[0].i == Some(i),
            !r ==> final(self).pool@ == old(self).pool@,
    {
        if self.pool.len() == 0 || self.pool[0].i.is_some() {
            return false;
        }
        let mut e = self.pool[0];
        if !e.assign(i, is_32_bit) {
            return false;
        }
        proof {
            assert(cycles_of(i).unwrap() >= 1) by {
                lemma_cycles_positive(i);
            }
        }
        self.pool.set(0, e);
        proof {
            assert forall|x: int| 0 <= x < self.pool@.len() && (#[trigger] self.pool@[x]).i.is_some()
                implies self.pool@[x].cycles_remaining >= 1 by {
                if x != 0 {
                    assert(self.pool@[x] == old(self).pool@[x]);
                }
            }
        }
        true
    }

    /// One cycle: a unit on its last cycle executes its instruction, the
    /// others count down. Returns the exit code when a program halts.
    pub fn tick(&mut self, state: &mut ProcessorState, output: &mut Vec<u8>) -> (r: Result<Option<i32>, Fault>)
        requires
            old(self).wf(),
            old(state).mem.wf(),
        ensures
            final(self).wf(),
            final(state).mem.wf(),
            final(self).pool@.len() == old(self).pool@.len(),
            r == Ok::<Option<i32>, Fault>(None) ==> forall|x: int|
                0 <= x < old(self).pool@.len() ==> (#[trigger] final(self).pool@[x]).i.is_some() ==> old(
                    self,
                ).pool@[x].i.is_some() && final(self).pool@[x].cycles_remaining == old(self).pool@[x].cycles_remaining
                    - 1,
            // a unit on its last cycle has executed and is free; the others keep
            // their instruction
            r == Ok::<Option<i32>, Fault>(None) ==> forall|x: int|
                0 <= x < old(self).pool@.len() && (#[trigger] old(self).pool@[x]).i.is_some() ==> if old(self).pool@[x].cycles_remaining
                    <= 1 {
                    final(self).pool@[x].i.is_none()
                } else {
                    final(self).pool@[x].i == old(self).pool@[x].i
                },
            final(self).executed_count >= old(self).executed_count,
            (exists|x: int| 0 <= x < old(self).pool@.len() && (#[trigger] old(self).pool@[x]).i.is_some() && old(self).pool@[x].cycles_remaining
                <= 1) && old(self).executed_count < u32::MAX ==> final(self).executed_count > old(self).executed_count,
    {
        let mut x: usize = 0;
        while x < self.pool.len()
            invariant
                x <= self.pool@.len(),
                self.pool@.len() == old(self).pool@.len(),
                self.wf(),
                state.mem.wf(),
                forall|y: int|
                    0 <= y < x ==> (#[trigger] self.pool@[y]).i.is_some() ==> old(self).pool@[y].i.is_some()
                        && self.pool@[y].cycles_remaining == old(self).pool@[y].cycles_remaining - 1,
                forall|y: int| x <= y < self.pool@.len() ==> #[trigger] self.pool@[y] == old(self).pool@[y],
                forall|y: int|
                    0 <= y < x && (#[trigger] old(self).pool@[y]).i.is_some() ==> if old(self).pool@[y].cycles_remaining <= 1 {
                        self.pool@[y].i.is_none()
                    } else {
                        self.pool@[y].i == old(self).pool@[y].i
                    },
                self.executed_count >= old(self).executed_count,
                (exists|y: int| 0 <= y < x && (#[trigger] old(self).pool@[y]).i.is_some() && old(self).pool@[y].cycles_remaining
                    <= 1) && old(self).executed_count < u32::MAX ==> self.executed_count > old(self).executed_count,
            decreases self.pool@.len() - x,
        {
            let mut e = self.pool[x];
            if e.i.is_some() {
                if e.cycles_remaining <= 1 {
                    let done = e.execute_instruction(state, output);
                    let ghost prev = self.pool@;
                    self.pool.set(x, e);
                    proof {
                        assert forall|y: int| 0 <= y < self.pool@.len() && (#[trigger] self.pool@[y]).i.is_some()
                            implies self.pool@[y].cycles_remaining >= 1 by {
                            if y != x {
                                assert(self.pool@[y] == prev[y]);
                            }
                        }
                    }
                    self.executed_count = self.executed_count.saturating_add(1);
                    match done {
                        Ok(None) => {},
                        other => {
                            return other;
                        },
                    }
                } else {
                    e.cycles_remaining = e.cycles_remaining - 1;
                    let ghost prev = self.pool@;
                    self.pool.set(x, e);
                    proof {
                        assert forall|y: int| 0 <= y < self.pool@.len() && (#[trigger] self.pool@[y]).i.is_some()
                            implies self.pool@[y].cycles_remaining >= 1 by {
                            if y != x {
                                assert(self.pool@[y] == prev[y]);
                            }
                        }
                    }
                }
            }
            x = x + 1;
        }
        Ok(None)
    }

    pub fn all_empty(&self) -> (r: bool)
        ensures
            r == self.empty_spec(),
    {
        let mut x: usize = 0;
        while x < self.pool.len()
            invariant
                x <= self.pool@.len(),
                forall|y: int| 0 <= y < x ==> (#[trigger] self.pool@[y]).i.is_none(),
            decreases self.pool@.len() - x,
        {
            if self.pool[x].i.is_some() {
                return false;
            }
            x = x + 1;
        }
        true
    }

    /// Runs every held instruction to completion; returns the cycles it took
    /// and the exit code when a program halts.
    pub fn flush(&mut self, state: &mut ProcessorState, output: &mut Vec<u8>) -> (r: Result<(usize, Option<i32>), Fault>)
        requires
            old(self).wf(),
            old(state).mem.wf(),
        ensures
            final(self).wf(),
            final(state).mem.wf(),
            final(self).pool@.len() == old(self).pool@.len(),
            r matches Ok((_, None)) ==> final(self).empty_spec(),
            // with nothing held, flushing takes no cycle and changes nothing
            old(self).empty_spec() ==> r == Ok::<(usize, Option<i32>), Fault>((0, None)) && *final(state) == *old(state),
            // otherwise it takes at least one cycle
            !old(self).empty_spec() ==> (r matches Ok((n, _)) ==> n >= 1),
    {
        let mut longest: usize = 0;
        let mut x: usize = 0;
        while x < self.pool.len()
            invariant
                x <= self.pool@.len(),
                self.wf(),
                forall|y: int| 0 <= y < x ==> (#[trigger] self.pool@[y]).i.is_some() ==> self.pool@[y].cycles_remaining <= longest,
                (forall|y: int| 0 <= y < x ==> (#[trigger] self.pool@[y]).i.is_none()) ==> longest == 0,
            decreases self.pool@.len() - x,
        {
            if self.pool[x].i.is_some() && self.pool[x].cycles_remaining > longest {
                longest = self.pool[x].cycles_remaining;
            }
            x = x + 1;
        }
        proof {
            if old(self).empty_spec() {
                assert(forall|y: int| 0 <= y < self.pool@.len() ==> (#[trigger] self.pool@[y]).i.is_none());
            }
            if !old(self).empty_spec() {
                let y = choose|y: int| 0 <= y < old(self).pool@.len() && (#[trigger] old(self).pool@[y]).i.is_some();
                assert(self.pool@[y].cycles_remaining >= 1);
            }
        }
        let mut count: usize = 0;
        while count < longest
            invariant
                count <= longest,
                !old(self).empty_spec() ==> longest >= 1,
                old(self).empty_spec() ==> longest == 0,
                count == 0 ==> *state == *old(state),
                self.wf(),
                state.mem.wf(),
                self.pool@.len() == old(self).pool@.len(),
                forall|y: int| 0 <= y < self.pool@.len() ==> (#[trigger] self.pool@[y]).i.is_some() ==> self.pool@[y].cycles_remaining
                    <= longest - count,
            decreases longest - count,
        {
            match self.tick(state, output) {
                Ok(None) => {},
                Ok(Some(code)) => {
                    return Ok((count + 1, Some(code)));
                },
                Err(f) => {
                    return Err(f);
                },
            }
            count = count + 1;
        }
        proof {
            assert forall|y: int| 0 <= y < self.pool@.len() implies (#[trigger] self.pool@[y]).i.is_none() by {
                if self.pool@[y].i.is_some() {
                    assert(self.pool@[y].cycles_remaining >= 1);
                    assert(self.pool@[y].cycles_remaining <= longest - count);
                }
            }
        }
        Ok((count, None))
    }
}

proof fn lemma_cycles_positive(i: I)
    requires
        cycles_of(i).is_some(),
    ensures
        cycles_of(i).unwrap() >= 1,
{
}

/// The in-order reference machine: fetches, decodes and executes one
/// instruction at a time on the architectural state.
pub struct Runner {
    pub state: ProcessorState,
    pub executor_pool: ExecutorPool,
    pub config: RunConfig,
    pub output: Vec<u8>,
    pub cycles: usize,
    pub halt: Option<i32>,
    pub fault: Option<Fault>,
}

impl Runner {
    pub open spec fn wf(self) -> bool {
        &&& self.state.mem.wf()
        &&& self.executor_pool.wf()
        &&& self.executor_pool.pool@.len() >= 1
        &&& self.halt.is_none() && self.fault.is_none() ==> self.executor_pool.empty_spec()
    }

    pub fn from_config(config: &RunConfig, state: ProcessorState) -> (r: Runner)
        requires
            state.mem.wf(),
        ensures
            r.wf(),
            r.state == state,
            r.config == *config,
            r.halt.is_none() && r.fault.is_none(),
    {
        let n = if config.executors == 0 { 1 } else { config.executors };
        Runner {
            state,
            executor_pool: ExecutorPool::new(n),
            config: *config,
            output: Vec::new(),
            cycles: 0,
            halt: None,
            fault: None,
        }
    }

    /// Runs the instruction at the PC to completion. Returns the PC and the
    /// number of instructions executed so far.
    pub fn tick(&mut self) -> (r: (u32, u32))
        requires
            old(self).wf(),
        ensures
            final(self).wf(),
            r == (final(self).state.regs.pc, final(self).executor_pool.executed_count),
            old(self).halt.is_some() || old(self).fault.is_some() ==> final(self).state == old(self).state,
            ({
                let pc = old(self).state.regs.pc;
                let mem = old(self).state.mem;
                let word = mem.instruction_at(pc);
                let running = old(self).halt.is_none() && old(self).fault.is_none();
                // an instruction outside memory is a memory fault
                &&& running && !mem.instruction_in_memory(pc) && final(self).fault is Some ==> (final(self).fault matches Some(
                    Fault::Memory(_, a),
                ) && a == pc)
                &&& running && mem.instruction_in_memory(pc) ==> {
                    let i = crate::decoder::decoded(word as u32);
                    // one without a timing cannot execute
                    &&& cycles_of(i).is_none() ==> final(self).fault == Some(Fault::Decode(pc, i.it))
                    // the others run to completion, taking at least one cycle, unless they fault
                    &&& cycles_of(i).is_some() ==> final(self).fault.is_some() || (final(self).cycles >= old(self).cycles
                        && (old(self).cycles < usize::MAX ==> final(self).cycles > old(self).cycles))
                }
            }),
    {
        if self.halt.is_some() || self.fault.is_some() {
            return (self.state.regs.pc, self.executor_pool.executed_count);
        }
        let word = match self.state.mem.get_instruction(self.state.regs.pc) {
            Ok(w) => w,
            Err(e) => {
                self.fault = Some(Fault::Memory(e, self.state.regs.pc));
                return (self.state.regs.pc, self.executor_pool.executed_count);
            },
        };
        let i = decode(word);
        proof {
            crate::decoder::lemma_decoded(word, i);
        }
        if !self.executor_pool.assign(i, is_32_bit(word)) {
            self.fault = Some(Fault::Decode(self.state.regs.pc, i.it));
            return (self.state.regs.pc, self.executor_pool.executed_count);
        }
        match self.executor_pool.flush(&mut self.state, &mut self.output) {
            Ok((n, code)) => {
                self.cycles = self.cycles.saturating_add(n);
                self.halt = code;
            },
            Err(f) => {
                self.fault = Some(f);
            },
        }
        (self.state.regs.pc, self.executor_pool.executed_count)
    }
}

} // verus!
