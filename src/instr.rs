use vstd::prelude::*;

verus! {

/// The kind of a decoded instruction or micro-operation.
#[derive(Clone, Copy, PartialEq, Eq, Debug, Structural)]
pub enum IT {
    UNPREDICTABLE,
    UNDEFINED,
    ADC,
    ADDImm,
    ADDReg,
    ADDSpImm,
    AND,
    ASRImm,
    ASRReg,
    B,
    BIC,
    BKPT,
    BL,
    BLX,
    BX,
    CMN,
    CMPImm,
    CMPReg,
    DMB,
    DSB,
    EOR,
    ISB,
    LDMIA,
    LDRImm,
    LDRReg,
    LDRBImm,
    LDRBReg,
    LDRHImm,
    LDRHReg,
    LDRSB,
    LDRSH,
    LSLImm,
    LSLReg,
    LSRImm,
    LSRReg,
    MOVImm,
    MOVReg,
    MRS,
    MSR,
    MUL,
    MVN,
    NOP,
    ORR,
    POP,
    PUSH,
    REV,
    REV16,
    REVSH,
    ROR,
    RSB,
    SBC,
    SEV,
    STMIA,
    STRImm,
    STRReg,
    STRBImm,
    STRBReg,
    STRHImm,
    STRHReg,
    SUBImm,
    SUBReg,
    SVC,
    SXTB,
    SXTH,
    TST,
    UXTB,
    UXTH,
    WFE,
    WFI,
    YIELD,
    /// Not an architectural instruction: a write of the PC from a register (`rn`).
    SetPC,
}

/// A decoded instruction record.
#[derive(Clone, Copy, PartialEq, Eq, Debug, Structural)]
pub struct I {
    pub it: IT,
    pub rd: u8,
    /// `rn`, or the condition code of a conditional branch.
    pub rn: u8,
    pub rm: u8,
    pub rt: u8,
    /// Register list of the multi-register forms, one bit per register.
    pub rl: u16,
    pub immu: u32,
    pub imms: i32,
    pub setsflags: bool,
}

/// The functional-unit class that executes an instruction.
#[derive(Clone, Copy, PartialEq, Eq, Debug, Structural)]
pub enum IssueType {
    ALUSHIFT,
    MUL,
    LoadStore,
    /// Writing to the PC, branching, supervisor calls.
    Control,
}

pub open spec fn blank(it: IT) -> I {
    I { it, rd: 0, rn: 0, rm: 0, rt: 0, rl: 0, immu: 0, imms: 0, setsflags: false }
}

impl I {
    pub fn unpredictable() -> (r: I)
        ensures
            r == blank(IT::UNPREDICTABLE),
    {
        I { it: IT::UNPREDICTABLE, rd: 0, rn: 0, rm: 0, rt: 0, rl: 0, immu: 0, imms: 0, setsflags: false }
    }

    pub fn undefined() -> (r: I)
        ensures
            r == blank(IT::UNDEFINED),
    {
        I { it: IT::UNDEFINED, rd: 0, rn: 0, rm: 0, rt: 0, rl: 0, immu: 0, imms: 0, setsflags: false }
    }
}

pub open spec fn is_load(it: IT) -> bool {
    matches!(it, IT::LDRImm | IT::LDRReg | IT::LDRBImm | IT::LDRBReg | IT::LDRHImm | IT::LDRHReg | IT::LDRSB | IT::LDRSH)
}

pub open spec fn is_store(it: IT) -> bool {
    matches!(it, IT::STRImm | IT::STRReg | IT::STRBImm | IT::STRBReg | IT::STRHImm | IT::STRHReg)
}

/// Instructions of the shift unit's and the ALU's shared class.
pub open spec fn is_alu_shift(it: IT) -> bool {
    matches!(it,
        IT::ADC | IT::ADDImm | IT::ADDReg | IT::ADDSpImm | IT::AND | IT::BIC | IT::CMN | IT::CMPImm
        | IT::CMPReg | IT::EOR | IT::MOVImm | IT::MOVReg | IT::MVN | IT::ORR | IT::REVSH | IT::REV16
        | IT::REV | IT::RSB | IT::SBC | IT::ROR | IT::SUBImm | IT::SUBReg | IT::SXTB | IT::SXTH
        | IT::UXTB | IT::UXTH | IT::TST | IT::NOP | IT::ASRImm | IT::ASRReg | IT::LSLImm | IT::LSRImm
        | IT::LSRReg | IT::LSLReg)
}

pub open spec fn is_control(it: IT) -> bool {
    matches!(it, IT::B | IT::BL | IT::BLX | IT::BX | IT::SVC | IT::SetPC)
}

/// The class an instruction issues to; `None` for those that cannot issue
/// (system instructions, undefined encodings, and multi-register forms that
/// must be expanded first).
pub open spec fn issue_class(it: IT) -> Option<IssueType> {
    if is_alu_shift(it) {
        Some(IssueType::ALUSHIFT)
    } else if it == IT::MUL {
        Some(IssueType::MUL)
    } else if is_control(it) {
        Some(IssueType::Control)
    } else if is_load(it) || is_store(it) {
        Some(IssueType::LoadStore)
    } else {
        None
    }
}

pub fn get_issue_type(it: IT) -> (r: Option<IssueType>)
    ensures
        r == issue_class(it),
{
    match it {
        IT::ADC | IT::ADDImm | IT::ADDReg | IT::ADDSpImm | IT::AND | IT::BIC | IT::CMN | IT::CMPImm
        | IT::CMPReg | IT::EOR | IT::MOVImm | IT::MOVReg | IT::MVN | IT::ORR | IT::REVSH | IT::REV16
        | IT::REV | IT::RSB | IT::SBC | IT::ROR | IT::SUBImm | IT::SUBReg | IT::SXTB | IT::SXTH
        | IT::UXTB | IT::UXTH | IT::TST | IT::NOP | IT::ASRImm | IT::ASRReg | IT::LSLImm | IT::LSRImm
        | IT::LSRReg | IT::LSLReg => Some(IssueType::ALUSHIFT),
        IT::MUL => Some(IssueType::MUL),
        IT::B | IT::BL | IT::BLX | IT::BX | IT::SVC | IT::SetPC => Some(IssueType::Control),
        IT::STRImm | IT::STRReg | IT::STRBImm | IT::STRBReg | IT::STRHImm | IT::STRHReg | IT::LDRImm
        | IT::LDRReg | IT::LDRHImm | IT::LDRHReg | IT::LDRBImm | IT::LDRBReg | IT::LDRSB
        | IT::LDRSH => Some(IssueType::LoadStore),
        _ => None,
    }
}

pub fn is_load_kind(it: IT) -> (r: bool)
    ensures
        r == is_load(it),
{
    matches!(it, IT::LDRImm | IT::LDRReg | IT::LDRBImm | IT::LDRBReg | IT::LDRHImm | IT::LDRHReg | IT::LDRSB | IT::LDRSH)
}

pub fn is_store_kind(it: IT) -> (r: bool)
    ensures
        r == is_store(it),
{
    matches!(it, IT::STRImm | IT::STRReg | IT::STRBImm | IT::STRBReg | IT::STRHImm | IT::STRHReg)
}

impl IT {
    /// Whether fetch must stop after this instruction until it commits: a
    /// supervisor call's effect cannot be predicted.
    pub fn is_serializing(&self) -> (r: bool)
        ensures
            r == (*self == IT::SVC),
    {
        matches!(self, IT::SVC)
    }
}

} // verus!
