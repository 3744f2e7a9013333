use crate::instr::{is_load, is_load_kind, IssueType, I, IT};
use crate::registers::{ASPRUpdate, Registers};
use crate::rob::{ROBEntry, ROB, ROB_ENTRIES};
use vstd::prelude::*;

verus! {

/// An operand of a reservation station.
#[derive(Clone, Copy, PartialEq, Eq, Debug, Structural)]
pub enum RSData {
    /// Waiting for the entry in this reorder-buffer slot to produce this register.
    ROB(usize, u8),
    /// The operand's value.
    Data(u32),
    /// The operand is not used.
    Unused,
}

/// Where an operand comes from, before renaming.
#[derive(Clone, Copy, PartialEq, Eq, Debug, Structural)]
pub enum Src {
    Reg(u8),
    Imm(u32),
    Unused,
}

#[derive(Clone, Copy, PartialEq, Eq, Debug, Structural)]
pub struct RS {
    pub busy: bool,
    /// Three operands, as a branch may read three flags.
    pub j: RSData,
    pub k: RSData,
    pub l: RSData,
    /// The reorder-buffer slot the result goes to.
    pub rob_dest: usize,
    pub i: I,
    pub setsflags: bool,
}

pub open spec fn is_pending(d: RSData) -> bool {
    d is ROB
}

pub open spec fn tag_ok(d: RSData) -> bool {
    match d {
        RSData::ROB(p, r) => p < ROB_ENTRIES && r < 20,
        _ => true,
    }
}

pub open spec fn waits_on(d: RSData, rob_entry: usize) -> bool {
    match d {
        RSData::ROB(p, _) => p == rob_entry,
        _ => false,
    }
}

/// An operand after the result `result` of register `rn` from slot
/// `rob_entry` was broadcast.
pub open spec fn after_broadcast(d: RSData, rob_entry: usize, rn: u8, result: u32) -> RSData {
    match d {
        RSData::ROB(p, r) => if p == rob_entry && r == rn { RSData::Data(result) } else { d },
        _ => d,
    }
}

/// Flag `rn` (16 to 19: N, Z, C, V) of an update, if it sets it.
pub open spec fn flag_of(u: ASPRUpdate, rn: u8) -> Option<bool> {
    if rn == 16 {
        u.n
    } else if rn == 17 {
        u.z
    } else if rn == 18 {
        u.c
    } else {
        u.v
    }
}

pub open spec fn bit_value(b: bool) -> u32 {
    if b { 1 } else { 0 }
}

/// The value a written-back entry gives register `rn`: its result for r0-r15,
/// its flag update for a flag (the register file's flag if it sets none).
pub open spec fn produced_value(e: ROBEntry, rn: u8, arf: Registers) -> u32 {
    if rn < 16 {
        e.value
    } else {
        match flag_of(e.asprupdate, rn) {
            Some(b) => bit_value(b),
            None => arf.reg(rn as int),
        }
    }
}

/// How the operand `s` reads: a register with a pending producer that has
/// not written back is a tag on that producer; otherwise a value from the
/// reorder buffer or the register file.
pub open spec fn resolve(s: Src, arf: Registers, rob: ROB) -> RSData {
    match s {
        Src::Reg(rn) => match rob.register_status@[rn as int] {
            Some(p) => if rob.queue@[p as int].ready {
                RSData::Data(produced_value(rob.queue@[p as int], rn, arf))
            } else {
                RSData::ROB(p, rn)
            },
            None => RSData::Data(arf.reg(rn as int)),
        },
        Src::Imm(v) => RSData::Data(v),
        Src::Unused => RSData::Unused,
    }
}

/// The register or immediate each operand of `i` reads in a station of
/// class `class`; `None` when that class does not execute `i`.
pub open spec fn sources_of(class: IssueType, i: I) -> Option<(Src, Src, Src)> {
    let it = i.it;
    if class == IssueType::ALUSHIFT || class == IssueType::MUL {
        if it == IT::ADC || it == IT::SBC {
            Some((Src::Reg(i.rn), Src::Reg(i.rm), Src::Reg(18)))
        } else if matches!(it, IT::MUL | IT::ADDReg | IT::AND | IT::BIC | IT::ASRReg | IT::CMN | IT::CMPReg | IT::EOR
            | IT::LSLReg | IT::LSRReg | IT::ORR | IT::ROR | IT::SUBReg | IT::TST) {
            Some((Src::Reg(i.rn), Src::Reg(i.rm), Src::Unused))
        } else if matches!(it, IT::ADDImm | IT::ADDSpImm | IT::CMPImm | IT::SUBImm | IT::RSB) {
            Some((Src::Reg(i.rn), Src::Imm(i.immu), Src::Unused))
        } else if it == IT::MOVImm {
            Some((Src::Imm(i.immu), Src::Unused, Src::Unused))
        } else if matches!(it, IT::MOVReg | IT::MVN | IT::REV | IT::REV16 | IT::REVSH | IT::SXTB | IT::SXTH | IT::UXTB
            | IT::UXTH) {
            Some((Src::Reg(i.rm), Src::Unused, Src::Unused))
        } else if matches!(it, IT::ASRImm | IT::LSLImm | IT::LSRImm) {
            Some((Src::Reg(i.rm), Src::Imm(i.immu), Src::Reg(18)))
        } else if it == IT::NOP {
            Some((Src::Unused, Src::Unused, Src::Unused))
        } else {
            None
        }
    } else if class == IssueType::LoadStore {
        if matches!(it, IT::LDRImm | IT::LDRBImm | IT::LDRHImm) {
            Some((Src::Reg(i.rn), Src::Imm(i.immu), Src::Unused))
        } else if matches!(it, IT::STRImm | IT::STRBImm | IT::STRHImm) {
            Some((Src::Reg(i.rn), Src::Imm(i.immu), Src::Reg(i.rt)))
        } else if matches!(it, IT::LDRReg | IT::LDRBReg | IT::LDRHReg | IT::LDRSH | IT::LDRSB) {
            Some((Src::Reg(i.rn), Src::Reg(i.rm), Src::Unused))
        } else if matches!(it, IT::STRReg | IT::STRBReg | IT::STRHReg) {
            Some((Src::Reg(i.rn), Src::Reg(i.rm), Src::Reg(i.rt)))
        } else {
            None
        }
    } else {
        if it == IT::B {
            Some(condition_flags(i.rn))
        } else if it == IT::BL {
            Some((Src::Unused, Src::Unused, Src::Unused))
        } else if it == IT::BX || it == IT::BLX {
            Some((Src::Reg(i.rm), Src::Unused, Src::Unused))
        } else if it == IT::SetPC {
            Some((Src::Reg(i.rn), Src::Unused, Src::Unused))
        } else if it == IT::SVC {
            Some((Src::Imm(i.immu), Src::Reg(0), Src::Unused))
        } else {
            None
        }
    }
}

/// The flags a condition reads (N is 16, Z 17, C 18, V 19): EQ/NE read Z;
/// CS/CC C; MI/PL N; VS/VC V; HI/LS Z, C; GE/LT N, V; GT/LE N, Z, V.
pub open spec fn condition_flags(cond: u8) -> (Src, Src, Src) {
    if cond <= 1 {
        (Src::Reg(17), Src::Unused, Src::Unused)
    } else if cond <= 3 {
        (Src::Reg(18), Src::Unused, Src::Unused)
    } else if cond <= 5 {
        (Src::Reg(16), Src::Unused, Src::Unused)
    } else if cond <= 7 {
        (Src::Reg(19), Src::Unused, Src::Unused)
    } else if cond <= 9 {
        (Src::Reg(17), Src::Reg(18), Src::Unused)
    } else if cond <= 11 {
        (Src::Reg(16), Src::Reg(19), Src::Unused)
    } else if cond <= 13 {
        (Src::Reg(16), Src::Reg(17), Src::Reg(19))
    } else {
        (Src::Unused, Src::Unused, Src::Unused)
    }
}

/// Every instruction that issues to a class has operands in that class.
pub proof fn lemma_class_has_sources(i: I)
    requires
        crate::instr::issue_class(i.it) is Some,
    ensures
        sources_of(crate::instr::issue_class(i.it).unwrap(), i) is Some,
{
}

pub open spec fn src_ok(s: Src) -> bool {
    match s {
        Src::Reg(r) => r < 20,
        _ => true,
    }
}

impl RS {
    pub open spec fn ready_spec(self) -> bool {
        self.busy && !is_pending(self.j) && !is_pending(self.k) && !is_pending(self.l)
    }

    pub open spec fn tags_ok(self) -> bool {
        tag_ok(self.j) && tag_ok(self.k) && tag_ok(self.l) && self.rob_dest < ROB_ENTRIES
    }

    pub open spec fn waits_on(self, rob_entry: usize) -> bool {
        waits_on(self.j, rob_entry) || waits_on(self.k, rob_entry) || waits_on(self.l, rob_entry)
    }

    pub open spec fn after_broadcast(self, rob_entry: usize, rn: u8, result: u32) -> RS {
        RS {
            j: after_broadcast(self.j, rob_entry, rn, result),
            k: after_broadcast(self.k, rob_entry, rn, result),
            l: after_broadcast(self.l, rob_entry, rn, result),
            ..self
        }
    }

    pub fn new() -> (r: RS)
        ensures
            !r.busy,
            r.tags_ok(),
            r.j == RSData::Unused && r.k == RSData::Unused && r.l == RSData::Unused,
    {
        RS {
            busy: false,
            j: RSData::Unused,
            k: RSData::Unused,
            l: RSData::Unused,
            setsflags: false,
            rob_dest: 0,
            i: I::undefined(),
        }
    }

    /// Busy, and no operand still waits for a producer.
    pub fn is_ready(&self) -> (r: bool)
        ensures
            r == self.ready_spec(),
    {
        self.busy && !matches!(self.j, RSData::ROB(_, _)) && !matches!(self.k, RSData::ROB(_, _))
            && !matches!(self.l, RSData::ROB(_, _))
    }

    pub fn receive_cdb_broadcast(&mut self, rob_entry: usize, rn: u8, result: u32)
        ensures
            *final(self) == old(self).after_broadcast(rob_entry, rn, result),
    {
        self.j = broadcast_operand(self.j, rob_entry, rn, result);
        self.k = broadcast_operand(self.k, rob_entry, rn, result);
        self.l = broadcast_operand(self.l, rob_entry, rn, result);
    }

    /// True when no operand waits for the entry in slot `rob_entry`.
    pub fn assert_not_waiting_for_rob(&self, rob_entry: usize) -> (r: bool)
        ensures
            r == !self.waits_on(rob_entry),
    {
        !operand_waits(self.j, rob_entry) && !operand_waits(self.k, rob_entry) && !operand_waits(self.l, rob_entry)
    }
}

/// See `produced_value`.
fn value_for(e: &ROBEntry, rn: u8, arf: &Registers) -> (r: u32)
    requires
        rn < 20,
    ensures
        r == produced_value(*e, rn, *arf),
{
    if rn < 16 {
        e.value
    } else {
        let f = if rn == 16 {
            e.asprupdate.n
        } else if rn == 17 {
            e.asprupdate.z
        } else if rn == 18 {
            e.asprupdate.c
        } else {
            e.asprupdate.v
        };
        match f {
            Some(b) => if b { 1 } else { 0 },
            None => arf.get(rn),
        }
    }
}

fn broadcast_operand(d: RSData, rob_entry: usize, rn: u8, result: u32) -> (r: RSData)
    ensures
        r == after_broadcast(d, rob_entry, rn, result),
{
    match d {
        RSData::ROB(p, r) => if p == rob_entry && r == rn {
            RSData::Data(result)
        } else {
            d
        },
        _ => d,
    }
}

fn operand_waits(d: RSData, rob_entry: usize) -> (r: bool)
    ensures
        r == waits_on(d, rob_entry),
{
    match d {
        RSData::ROB(p, _) => p == rob_entry,
        _ => false,
    }
}

/// The reservation stations of one functional-unit class.
pub struct RSSet {
    pub vec: Vec<RS>,
    pub issue_type: IssueType,
    pub n: usize,
}

impl RSSet {
    pub open spec fn wf(self) -> bool {
        &&& self.vec@.len() == self.n
        &&& forall|x: int| 0 <= x < self.vec@.len() ==> (#[trigger] self.vec@[x]).tags_ok()
    }

    pub fn new(issue_type: IssueType, n: usize) -> (r: RSSet)
        ensures
            r.wf(),
            r.n == n,
            r.issue_type == issue_type,
            forall|x: int| 0 <= x < n ==> !(#[trigger] r.vec@[x]).busy,
    {
        let mut vec: Vec<RS> = Vec::new();
        let mut c: usize = 0;
        while c < n
            invariant
                c <= n,
                vec@.len() == c,
                forall|x: int| 0 <= x < c ==> !(#[trigger] vec@[x]).busy && vec@[x].tags_ok(),
            decreases n - c,
        {
            vec.push(RS::new());
            c = c + 1;
        }
        RSSet { vec, issue_type, n }
    }

    pub fn len(&self) -> (r: usize)
        ensures
            r == self.n,
    {
        self.n
    }

    /// Hands the result of register `rn` from slot `rob_entry` to every
    /// station that waits for it.
    pub fn receive_cdb_broadcast(&mut self, rob_entry: usize, rn: u8, result: u32)
        requires
            old(self).wf(),
        ensures
            final(self).wf(),
            final(self).n == old(self).n,
            final(self).issue_type == old(self).issue_type,
            final(self).vec@.len() == old(self).vec@.len(),
            forall|x: int|
                0 <= x < old(self).vec@.len() ==> #[trigger] final(self).vec@[x] == old(self).vec@[x].after_broadcast(
                    rob_entry,
                    rn,
                    result,
                ),
    {
        let mut x: usize = 0;
        while x < self.vec.len()
            invariant
                x <= self.vec@.len(),
                self.n == old(self).n,
                self.issue_type == old(self).issue_type,
                self.vec@.len() == old(self).vec@.len(),
                old(self).wf(),
                forall|y: int|
                    0 <= y < self.vec@.len() ==> #[trigger] self.vec@[y] == if y < x {
                        old(self).vec@[y].after_broadcast(rob_entry, rn, result)
                    } else {
                        old(self).vec@[y]
                    },
            decreases self.vec@.len() - x,
        {
            let mut rs = self.vec[x];
            rs.receive_cdb_broadcast(rob_entry, rn, result);
            self.vec.set(x, rs);
            x = x + 1;
        }
        proof {
            assert forall|y: int| 0 <= y < self.vec@.len() implies (#[trigger] self.vec@[y]).tags_ok() by {
                assert(old(self).vec@[y].tags_ok());
            }
        }
    }

    /// True when no station waits for the entry in slot `rob_entry`.
    pub fn assert_none_waiting_for_rob(&self, rob_entry: usize) -> (r: bool)
        ensures
            r == forall|x: int| 0 <= x < self.vec@.len() ==> !(#[trigger] self.vec@[x]).waits_on(rob_entry),
    {
        let mut x: usize = 0;
        while x < self.vec.len()
            invariant
                x <= self.vec@.len(),
                forall|y: int| 0 <= y < x ==> !(#[trigger] self.vec@[y]).waits_on(rob_entry),
            decreases self.vec@.len() - x,
        {
            if !self.vec[x].assert_not_waiting_for_rob(rob_entry) {
                return false;
            }
            x = x + 1;
        }
        true
    }

    /// Frees every busy station whose result goes to slot `rob_entry`.
    pub fn flush_entries_corresponding_to_rob(&mut self, rob_entry: usize)
        requires
            old(self).wf(),
        ensures
            final(self).wf(),
            final(self).n == old(self).n,
            final(self).issue_type == old(self).issue_type,
            final(self).vec@.len() == old(self).vec@.len(),
            forall|x: int|
                0 <= x < old(self).vec@.len() ==> #[trigger] final(self).vec@[x] == if old(self).vec@[x].rob_dest
                    == rob_entry {
                    RS { busy: false, ..old(self).vec@[x] }
                } else {
                    old(self).vec@[x]
                },
    {
        let mut x: usize = 0;
        while x < self.vec.len()
            invariant
                x <= self.vec@.len(),
                self.n == old(self).n,
                self.issue_type == old(self).issue_type,
                self.vec@.len() == old(self).vec@.len(),
                old(self).wf(),
                forall|y: int|
                    0 <= y < self.vec@.len() ==> #[trigger] self.vec@[y] == if y < x && old(self).vec@[y].rob_dest
                        == rob_entry {
                        RS { busy: false, ..old(self).vec@[y] }
                    } else {
                        old(self).vec@[y]
                    },
            decreases self.vec@.len() - x,
        {
            if self.vec[x].rob_dest == rob_entry {
                let mut rs = self.vec[x];
                rs.busy = false;
                self.vec.set(x, rs);
            }
            x = x + 1;
        }
        proof {
            assert forall|y: int| 0 <= y < self.vec@.len() implies (#[trigger] self.vec@[y]).tags_ok() by {
                assert(old(self).vec@[y].tags_ok());
            }
        }
    }

    /// Frees every station.
    pub fn empty(&mut self)
        requires
            old(self).wf(),
        ensures
            final(self).wf(),
            final(self).n == old(self).n,
            final(self).issue_type == old(self).issue_type,
            forall|x: int| 0 <= x < final(self).vec@.len() ==> !(#[trigger] final(self).vec@[x]).busy,
    {
        let mut x: usize = 0;
        while x < self.vec.len()
            invariant
                x <= self.vec@.len(),
                self.n == old(self).n,
                self.issue_type == old(self).issue_type,
                self.vec@.len() == old(self).vec@.len(),
                old(self).wf(),
                forall|y: int| 0 <= y < self.vec@.len() ==> (#[trigger] self.vec@[y]).tags_ok(),
                forall|y: int| 0 <= y < x ==> !(#[trigger] self.vec@[y]).busy,
            decreases self.vec@.len() - x,
        {
            let mut rs = self.vec[x];
            rs.busy = false;
            self.vec.set(x, rs);
            x = x + 1;
        }
    }

    /// The first free station, if any.
    pub fn get_alloc(&self) -> (r: Option<usize>)
        ensures
            match r {
                Some(x) => x < self.vec@.len() && !self.vec@[x as int].busy && forall|y: int|
                    0 <= y < x ==> (#[trigger] self.vec@[y]).busy,
                None => forall|y: int| 0 <= y < self.vec@.len() ==> (#[trigger] self.vec@[y]).busy,
            },
    {
        let mut x: usize = 0;
        while x < self.vec.len()
            invariant
                x <= self.vec@.len(),
                forall|y: int| 0 <= y < x ==> (#[trigger] self.vec@[y]).busy,
            decreases self.vec@.len() - x,
        {
            if !self.vec[x].busy {
                return Some(x);
            }
            x = x + 1;
        }
        None
    }

    /// The first ready station, if any.
    pub fn get_one_ready(&self) -> (r: Option<usize>)
        ensures
            match r {
                Some(x) => x < self.vec@.len() && self.vec@[x as int].ready_spec() && forall|y: int|
                    0 <= y < x ==> !(#[trigger] self.vec@[y]).ready_spec(),
                None => forall|y: int| 0 <= y < self.vec@.len() ==> !(#[trigger] self.vec@[y]).ready_spec(),
            },
    {
        let mut x: usize = 0;
        while x < self.vec.len()
            invariant
                x <= self.vec@.len(),
                forall|y: int| 0 <= y < x ==> !(#[trigger] self.vec@[y]).ready_spec(),
            decreases self.vec@.len() - x,
        {
            if self.vec[x].is_ready() {
                return Some(x);
            }
            x = x + 1;
        }
        None
    }

    pub open spec fn eligible(self, x: int, no_loads: bool) -> bool {
        self.vec@[x].ready_spec() && !(no_loads && is_load(self.vec@[x].i.it))
    }

    /// The ready station whose instruction was issued first; loads are left
    /// out when `no_loads` holds.
    pub fn get_oldest_ready(&self, rob: &ROB, no_loads: bool) -> (r: Option<usize>)
        requires
            self.wf(),
            rob.head < ROB_ENTRIES,
        ensures
            match r {
                Some(x) => x < self.vec@.len() && self.eligible(x as int, no_loads) && forall|y: int|
                    0 <= y < self.vec@.len() && #[trigger] self.eligible(y, no_loads) ==> rob.offset(
                        self.vec@[x as int].rob_dest as int,
                    ) <= rob.offset(self.vec@[y].rob_dest as int),
                None => forall|y: int| 0 <= y < self.vec@.len() ==> !#[trigger] self.eligible(y, no_loads),
            },
    {
        let mut best: Option<usize> = None;
        let mut x: usize = 0;
        while x < self.vec.len()
            invariant
                self.wf(),
                rob.head < ROB_ENTRIES,
                x <= self.vec@.len(),
                match best {
                    Some(b) => b < x && self.eligible(b as int, no_loads) && forall|y: int|
                        0 <= y < x && #[trigger] self.eligible(y, no_loads) ==> rob.offset(
                            self.vec@[b as int].rob_dest as int,
                        ) <= rob.offset(self.vec@[y].rob_dest as int),
                    None => forall|y: int| 0 <= y < x ==> !#[trigger] self.eligible(y, no_loads),
                },
            decreases self.vec@.len() - x,
        {
            let rs = self.vec[x];
            let load = is_load_kind(rs.i.it);
            if rs.is_ready() && !(no_loads && load) {
                proof {
                    assert(self.vec@[x as int].tags_ok());
                }
                match best {
                    Some(b) => {
                        proof {
                            assert(self.vec@[b as int].tags_ok());
                        }
                        if rob.entry_is_before(rs.rob_dest, self.vec[b].rob_dest) {
                            best = Some(x);
                        }
                    },
                    None => {
                        best = Some(x);
                    },
                }
            }
            x = x + 1;
        }
        best
    }

    /// The register or immediate each operand of `i` reads, in this class.
    pub fn operand_sources(&self, i: &I) -> (r: Option<(Src, Src, Src)>)
        requires
            i.rd < 16 && i.rn < 16 && i.rm < 16 && i.rt < 16,
        ensures
            r == sources_of(self.issue_type, *i),
            r matches Some((a, b, c)) ==> src_ok(a) && src_ok(b) && src_ok(c),
    {
        match self.issue_type {
            IssueType::ALUSHIFT | IssueType::MUL => match i.it {
                // two registers and the carry flag
                IT::ADC | IT::SBC => Some((Src::Reg(i.rn), Src::Reg(i.rm), Src::Reg(18))),
                // two registers
                IT::MUL | IT::ADDReg | IT::AND | IT::BIC | IT::ASRReg | IT::CMN | IT::CMPReg | IT::EOR
                | IT::LSLReg | IT::LSRReg | IT::ORR | IT::ROR | IT::SUBReg | IT::TST => {
                    Some((Src::Reg(i.rn), Src::Reg(i.rm), Src::Unused))
                },
                // a register and an immediate
                IT::ADDImm | IT::ADDSpImm | IT::CMPImm | IT::SUBImm | IT::RSB => {
                    Some((Src::Reg(i.rn), Src::Imm(i.immu), Src::Unused))
                },
                IT::MOVImm => Some((Src::Imm(i.immu), Src::Unused, Src::Unused)),
                // one register (rm)
                IT::MOVReg | IT::MVN | IT::REV | IT::REV16 | IT::REVSH | IT::SXTB | IT::SXTH | IT::UXTB | IT::UXTH => {
                    Some((Src::Reg(i.rm), Src::Unused, Src::Unused))
                },
                // shifts by an immediate take rm first, and the carry flag
                IT::ASRImm | IT::LSLImm | IT::LSRImm => Some((Src::Reg(i.rm), Src::Imm(i.immu), Src::Reg(18))),
                IT::NOP => Some((Src::Unused, Src::Unused, Src::Unused)),
                _ => None,
            },
            IssueType::LoadStore => match i.it {
                IT::LDRImm | IT::LDRBImm | IT::LDRHImm => Some((Src::Reg(i.rn), Src::Imm(i.immu), Src::Unused)),
                IT::STRImm | IT::STRBImm | IT::STRHImm => {
                    Some((Src::Reg(i.rn), Src::Imm(i.immu), Src::Reg(i.rt)))
                },
                IT::LDRReg | IT::LDRBReg | IT::LDRHReg | IT::LDRSH | IT::LDRSB => {
                    Some((Src::Reg(i.rn), Src::Reg(i.rm), Src::Unused))
                },
                IT::STRReg | IT::STRBReg | IT::STRHReg => Some((Src::Reg(i.rn), Src::Reg(i.rm), Src::Reg(i.rt))),
                _ => None,
            },
            IssueType::Control => match i.it {
                // the flags a condition reads: N is 16, Z 17, C 18, V 19
                IT::B => match i.rn {
                    0 | 1 => Some((Src::Reg(17), Src::Unused, Src::Unused)),
                    2 | 3 => Some((Src::Reg(18), Src::Unused, Src::Unused)),
                    4 | 5 => Some((Src::Reg(16), Src::Unused, Src::Unused)),
                    6 | 7 => Some((Src::Reg(19), Src::Unused, Src::Unused)),
                    8 | 9 => Some((Src::Reg(17), Src::Reg(18), Src::Unused)),
                    10 | 11 => Some((Src::Reg(16), Src::Reg(19), Src::Unused)),
                    12 | 13 => Some((Src::Reg(16), Src::Reg(17), Src::Reg(19))),
                    _ => Some((Src::Unused, Src::Unused, Src::Unused)),
                },
                IT::BL => Some((Src::Unused, Src::Unused, Src::Unused)),
                IT::BX | IT::BLX => Some((Src::Reg(i.rm), Src::Unused, Src::Unused)),
                IT::SetPC => Some((Src::Reg(i.rn), Src::Unused, Src::Unused)),
                // a supervisor call reads its number and r0
                IT::SVC => Some((Src::Imm(i.immu), Src::Reg(0), Src::Unused)),
                _ => None,
            },
        }
    }

    /// How operand `s` reads now: see `resolve`.
    pub fn get_rs_data(s: Src, arf: &Registers, rob: &ROB) -> (r: RSData)
        requires
            rob.wf(),
            src_ok(s),
        ensures
            r == resolve(s, *arf, *rob),
            tag_ok(r),
    {
        match s {
            Src::Reg(rn) => match rob.register_status[rn as usize] {
                Some(p) => {
                    proof {
                        assert(rob.producer_ok(rob.register_status@[rn as int]));
                    }
                    let e = rob.get(p);
                    if e.ready {
                        RSData::Data(value_for(e, rn, arf))
                    } else {
                        RSData::ROB(p, rn)
                    }
                },
                None => RSData::Data(arf.get(rn)),
            },
            Src::Imm(v) => RSData::Data(v),
            Src::Unused => RSData::Unused,
        }
    }

    /// The operands of `i`, renamed against the register-status table.
    pub fn get_dependencies(&self, i: &I, arf: &Registers, rob: &ROB) -> (r: Option<(RSData, RSData, RSData)>)
        requires
            rob.wf(),
            i.rd < 16 && i.rn < 16 && i.rm < 16 && i.rt < 16,
        ensures
            r matches Some((j, k, l)) ==> tag_ok(j) && tag_ok(k) && tag_ok(l),
            r == match sources_of(self.issue_type, *i) {
                Some((a, b, c)) => Some((resolve(a, *arf, *rob), resolve(b, *arf, *rob), resolve(c, *arf, *rob))),
                None => None,
            },
    {
        match self.operand_sources(i) {
            Some((a, b, c)) => {
                let j = Self::get_rs_data(a, arf, rob);
                let k = Self::get_rs_data(b, arf, rob);
                let l = Self::get_rs_data(c, arf, rob);
                Some((j, k, l))
            },
            None => None,
        }
    }

    /// Places `i`, whose result goes to slot `dest`, in the first free
    /// station with its renamed operands. `None` when every station is busy
    /// (a stall) or the class does not execute `i`; nothing changes then.
    pub fn issue_receive(&mut self, i: &I, dest: usize, arf: &Registers, rob: &ROB) -> (r: Option<usize>)
        requires
            old(self).wf(),
            rob.wf(),
            dest < ROB_ENTRIES,
            i.rd < 16 && i.rn < 16 && i.rm < 16 && i.rt < 16,
        ensures
            final(self).wf(),
            final(self).n == old(self).n,
            final(self).issue_type == old(self).issue_type,
            final(self).vec@.len() == old(self).vec@.len(),
            (forall|y: int| 0 <= y < old(self).vec@.len() ==> (#[trigger] old(self).vec@[y]).busy) ==> r.is_none(),
            match r {
                Some(a) => {
                    &&& a < old(self).vec@.len()
                    &&& !old(self).vec@[a as int].busy
                    &&& forall|y: int| 0 <= y < a ==> (#[trigger] old(self).vec@[y]).busy
                    &&& final(self).vec@ == old(self).vec@.update(a as int, final(self).vec@[a as int])
                    &&& final(self).vec@[a as int].busy
                    &&& final(self).vec@[a as int].rob_dest == dest
                    &&& final(self).vec@[a as int].i == *i
                    &&& final(self).vec@[a as int].setsflags == i.setsflags
                    &&& sources_of(old(self).issue_type, *i) matches Some((s1, s2, s3))
                    &&& final(self).vec@[a as int].j == resolve(s1, *arf, *rob)
                    &&& final(self).vec@[a as int].k == resolve(s2, *arf, *rob)
                    &&& final(self).vec@[a as int].l == resolve(s3, *arf, *rob)
                },
                None => final(self).vec@ == old(self).vec@,
            },
            r is None ==> sources_of(old(self).issue_type, *i) is None || forall|y: int|
                0 <= y < old(self).vec@.len() ==> (#[trigger] old(self).vec@[y]).busy,
    {
        let alloc = match self.get_alloc() {
            Some(a) => a,
            None => {
                return None;
            },
        };
        let (j, k, l) = match self.get_dependencies(i, arf, rob) {
            Some(d) => d,
            None => {
                return None;
            },
        };
        let ghost pre = self.vec@;
        self.vec.set(alloc, RS { busy: true, j, k, l, rob_dest: dest, i: *i, setsflags: i.setsflags });
        proof {
            assert forall|y: int| 0 <= y < self.vec@.len() implies (#[trigger] self.vec@[y]).tags_ok() by {
                if y != alloc {
                    assert(pre[y].tags_ok());
                }
            }
            assert(self.vec@ == pre.update(alloc as int, self.vec@[alloc as int]));
        }
        Some(alloc)
    }

    /// Frees station `x`.
    pub fn free(&mut self, x: usize)
        requires
            old(self).wf(),
            x < old(self).vec@.len(),
        ensures
            final(self).wf(),
            final(self).n == old(self).n,
            final(self).issue_type == old(self).issue_type,
            final(self).vec@ == old(self).vec@.update(x as int, RS { busy: false, ..old(self).vec@[x as int] }),
    {
        let mut rs = self.vec[x];
        rs.busy = false;
        self.vec.set(x, rs);
        proof {
            assert forall|y: int| 0 <= y < self.vec@.len() implies (#[trigger] self.vec@[y]).tags_ok() by {
                assert(old(self).vec@[y].tags_ok());
            }
        }
    }

    /// How long ago station `i`'s instruction was issued, as its position
    /// in the reorder buffer.
    pub open spec fn age(self, rob: ROB, i: usize) -> int {
        rob.offset(self.vec@[i as int].rob_dest as int)
    }

    /// Whether the stations listed in `s` are in order of age.
    pub open spec fn by_age(self, rob: ROB, s: Seq<usize>) -> bool {
        forall|a: int, b: int| 0 <= a < b < s.len() ==> self.age(rob, s[a]) <= self.age(rob, s[b])
    }

    /// Inserts station `x` into the list `out`, kept in order of age.
    fn insert_by_age(&self, rob: &ROB, out: &mut Vec<usize>, x: usize)
        requires
            self.wf(),
            rob.head < ROB_ENTRIES,
            x < self.vec@.len(),
            forall|k: int| 0 <= k < old(out)@.len() ==> #[trigger] old(out)@[k] < x,
            self.by_age(*rob, old(out)@),
        ensures
            final(out)@.len() == old(out)@.len() + 1,
            final(out)@.contains(x),
            forall|k: int| 0 <= k < final(out)@.len() ==> #[trigger] final(out)@[k] == x || old(out)@.contains(
                final(out)@[k],
            ),
            forall|k: int| 0 <= k < old(out)@.len() ==> final(out)@.contains(#[trigger] old(out)@[k]),
            old(out)@.no_duplicates() ==> final(out)@.no_duplicates(),
            self.by_age(*rob, final(out)@),
    {
        proof {
            assert(self.vec@[x as int].tags_ok());
        }
        let mut p: usize = 0;
        let mut found = false;
        while !found && p < out.len()
            invariant
                self.wf(),
                rob.head < ROB_ENTRIES,
                x < self.vec@.len(),
                p <= out@.len(),
                out@ == old(out)@,
                forall|k: int| 0 <= k < out@.len() ==> #[trigger] out@[k] < x,
                forall|k: int| 0 <= k < p ==> rob.offset(self.vec@[#[trigger] out@[k] as int].rob_dest as int)
                    <= rob.offset(self.vec@[x as int].rob_dest as int),
                found ==> p < out@.len() && rob.offset(self.vec@[x as int].rob_dest as int) < rob.offset(
                    self.vec@[out@[p as int] as int].rob_dest as int,
                ),
            decreases out@.len() - p + if found { 0int } else { 1 },
        {
            let other = out[p];
            proof {
                assert(self.vec@[other as int].tags_ok());
            }
            if rob.entry_is_before(self.vec[x].rob_dest, self.vec[other].rob_dest) {
                found = true;
            } else {
                p = p + 1;
            }
        }
        let ghost before = out@;
        out.insert(p, x);
        proof {
            lemma_sorted_insert(before, p as int, x, |i: usize| self.age(*rob, i));
            lemma_insert_members(before, p as int, x);
        }
    }

    /// The ready stations, oldest issued first.
    pub fn get_all_ready(&self, rob: &ROB) -> (r: Vec<usize>)
        requires
            self.wf(),
            rob.head < ROB_ENTRIES,
        ensures
            forall|k: int| 0 <= k < r@.len() ==> #[trigger] r@[k] < self.vec@.len() && self.vec@[r@[k] as int].ready_spec(),
            forall|x: int| 0 <= x < self.vec@.len() && #[trigger] self.vec@[x].ready_spec() ==> r@.contains(x as usize),
            r@.no_duplicates(),
            self.by_age(*rob, r@),
    {
        let mut out: Vec<usize> = Vec::new();
        let mut x: usize = 0;
        while x < self.vec.len()
            invariant
                self.wf(),
                rob.head < ROB_ENTRIES,
                x <= self.vec@.len(),
                forall|k: int| 0 <= k < out@.len() ==> #[trigger] out@[k] < x && self.vec@[out@[k] as int].ready_spec(),
                forall|y: int| 0 <= y < x && #[trigger] self.vec@[y].ready_spec() ==> out@.contains(y as usize),
                out@.no_duplicates(),
                self.by_age(*rob, out@),
            decreases self.vec@.len() - x,
        {
            if self.vec[x].is_ready() {
                let ghost before = out@;
                self.insert_by_age(rob, &mut out, x);
                proof {
                    assert forall|k: int| 0 <= k < out@.len() implies #[trigger] out@[k] < x + 1 && self.vec@[out@[
                        k
                    ] as int].ready_spec() by {
                        if out@[k] != x {
                            let j = choose|j: int| 0 <= j < before.len() && before[j] == out@[k];
                        }
                    }
                    assert forall|y: int| 0 <= y < x + 1 && #[trigger] self.vec@[y].ready_spec() implies out@.contains(
                        y as usize,
                    ) by {
                        if y < x {
                            let j = choose|j: int| 0 <= j < before.len() && before[j] == y as usize;
                            assert(out@.contains(before[j]));
                        }
                    }
                }
            }
            x = x + 1;
        }
        out
    }
}

/// Inserting `x` at `p`, after the keys not above its own and before the
/// first one above it, keeps a sequence sorted by `key`.
proof fn lemma_sorted_insert(before: Seq<usize>, p: int, x: usize, key: spec_fn(usize) -> int)
    requires
        0 <= p <= before.len(),
        forall|a: int, b: int| 0 <= a < b < before.len() ==> key(before[a]) <= key(before[b]),
        forall|k: int| 0 <= k < p ==> key(#[trigger] before[k]) <= key(x),
        p < before.len() ==> key(x) < key(before[p]),
    ensures
        forall|a: int, b: int|
            0 <= a < b < before.insert(p, x).len() ==> key(before.insert(p, x)[a]) <= key(before.insert(p, x)[b]),
{
    let after = before.insert(p, x);
    assert forall|a: int, b: int| 0 <= a < b < after.len() implies key(after[a]) <= key(after[b]) by {
        if a < p && b < p {
            assert(after[a] == before[a] && after[b] == before[b]);
        } else if a < p && b == p {
            assert(after[a] == before[a]);
        } else if a < p {
            assert(after[a] == before[a] && after[b] == before[b - 1]);
        } else if a == p {
            assert(after[b] == before[b - 1]);
            if b - 1 > p {
                assert(key(before[p]) <= key(before[b - 1]));
            }
        } else {
            assert(after[a] == before[a - 1] && after[b] == before[b - 1]);
        }
    }
}

/// What inserting `x` into `before` keeps and adds.
proof fn lemma_insert_members(before: Seq<usize>, p: int, x: usize)
    requires
        0 <= p <= before.len(),
    ensures
        before.insert(p, x).len() == before.len() + 1,
        before.insert(p, x).contains(x),
        forall|k: int|
            0 <= k < before.insert(p, x).len() ==> #[trigger] before.insert(p, x)[k] == x || before.contains(
                before.insert(p, x)[k],
            ),
        forall|k: int| 0 <= k < before.len() ==> before.insert(p, x).contains(#[trigger] before[k]),
        before.no_duplicates() && !before.contains(x) ==> before.insert(p, x).no_duplicates(),
{
    let after = before.insert(p, x);
    assert(after[p] == x);
    assert forall|k: int| 0 <= k < after.len() implies #[trigger] after[k] == x || before.contains(after[k]) by {
        if k < p {
            assert(after[k] == before[k]);
        } else if k > p {
            assert(after[k] == before[k - 1]);
        }
    }
    assert forall|k: int| 0 <= k < before.len() implies after.contains(#[trigger] before[k]) by {
        if k < p {
            assert(after[k] == before[k]);
        } else {
            assert(after[k + 1] == before[k]);
        }
    }
    if before.no_duplicates() && !before.contains(x) {
        assert forall|a: int, b: int| 0 <= a < b < after.len() implies after[a] != after[b] by {
            if a < p && b < p {
                assert(after[a] == before[a] && after[b] == before[b]);
            } else if a < p && b == p {
                assert(after[a] == before[a]);
            } else if a < p {
                assert(after[a] == before[a] && after[b] == before[b - 1]);
            } else if a == p {
                assert(after[b] == before[b - 1]);
            } else {
                assert(after[a] == before[a - 1] && after[b] == before[b - 1]);
            }
        }
    }
}

} // verus!
