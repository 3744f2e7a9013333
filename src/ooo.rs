use crate::alu::{shift_with_carry, ALUOperation, CalcResult, ShiftType, ALU};
use crate::binary::{briz, is_32_bit};
use crate::decoder::{decode, decode_b1, decode_b2, decode_bl};
use crate::expand::decode2;
use crate::instr::{get_issue_type, is_load, IssueType, I, IT};
use crate::memory::{MemError, Memory};
use crate::registers::{ASPRUpdate, Registers};
use crate::rob::{flag_set, LoadQueueEntry, ROBEntryDest, ROBStatus, ROB, ROB_ENTRIES};
use crate::rs::{RSData, RSSet, RS};
use vstd::prelude::*;

verus! {

/// Instructions issued, and committed, per cycle at most.
pub const N_ISSUE: usize = 4;
/// Results broadcast per cycle at most. At least as many results can fall
/// due in one cycle: six from the units, eight loads, and a multiply from the
/// cycle before; so the bus never holds a due result back.
pub const CDB_WIDTH: usize = 16;
/// Capacity of the load queue.
pub const LQ_SIZE: usize = 8;
/// Capacity of the instruction queue.
pub const IQ_SIZE: usize = 32;
/// Micro-operations one instruction expands to, at most.
pub const MAX_MOPS: usize = 16;
pub const N_LS_EXECS: usize = 2;
pub const N_ALUSHIFTERS: usize = 2;
pub const N_MULS: usize = 1;
pub const N_CONTROL: usize = 1;
/// Reservation stations per functional-unit class.
pub const N_RS: usize = 8;
/// Cycles fetch waits after a misprediction.
pub const FLUSH_DELAY: u32 = 2;
/// Latency of the multiplier.
pub const MUL_DELAY: u8 = 2;

#[derive(Clone, Copy, PartialEq, Eq, Debug, Structural)]
pub enum PredictionAlgorithms {
    AlwaysTaken,
    AlwaysUntaken,
}

/// A result on its way to the common data bus.
#[derive(Clone, Copy, PartialEq, Eq, Debug, Structural)]
pub struct CDBRecord {
    /// The result is a branch target rather than a register value.
    pub is_branch_target: bool,
    pub valid: bool,
    pub rob_number: usize,
    pub result: u32,
    pub aspr_update: ASPRUpdate,
    pub halt: bool,
}

#[derive(PartialEq, Eq, Clone, Copy, Debug, Structural)]
pub enum StallReason {
    FullRob,
    IssueRSFull,
    ExecuteLSQFull,
    IStall,
}

#[derive(Clone, Copy, PartialEq, Eq, Debug, Structural)]
pub struct InstructionQueueEntry {
    pub i: I,
    /// The address after the instruction the micro-operation came from.
    pub pc: u32,
}

/// Why a run stopped short of a halt.
#[derive(Clone, Copy, PartialEq, Eq, Debug, Structural)]
pub enum Fault {
    /// An undefined or unpredictable encoding, or one no unit executes,
    /// reached issue: the address after it and the instruction kind.
    Decode(u32, IT),
    /// A load, store or fetch failed at this address.
    Memory(MemError, u32),
    /// A supervisor call with an unknown number.
    Syscall(u32),
    /// The pipeline reached a state it has no rule for.
    Internal,
}

/// What the core reports of each committed instruction.
#[derive(Clone, Copy, PartialEq, Eq, Debug, Structural)]
pub struct CommitRecord {
    pub pc: u32,
    pub i: I,
    pub value: u32,
    pub target_address: u32,
    /// The commit found a wrong prediction and flushed.
    pub mispredicted: bool,
}

#[derive(Clone)]
pub struct ProcessorState {
    pub regs: Registers,
    pub mem: Memory,
    pub halting: Option<u8>,
}

/// The out-of-order, speculative core.
pub struct OoOSpeculative {
    pub state: ProcessorState,
    /// The fetch buffer: the address after the fetched instruction, and its word.
    pub fb: Option<(u32, u32)>,
    pub iq: Vec<InstructionQueueEntry>,
    pub rob: ROB,
    pub load_queue: Vec<LoadQueueEntry>,
    pub rs_mul: RSSet,
    pub rs_alu_shift: RSSet,
    pub rs_ls: RSSet,
    pub rs_control: RSSet,
    /// What the program printed through supervisor calls.
    pub output: Vec<u8>,
    pub flush_delay: u32,
    pub flushing: bool,
    pub spec_pc: u32,
    pub fetch_stall: bool,
    pub mispredicts: u32,
    pub correct_predicts: u32,
    /// Results eligible for broadcast, oldest first.
    pub cdb: Vec<CDBRecord>,
    /// Results still in an execution unit, with their remaining cycles.
    pub to_broadcast: Vec<(u8, CDBRecord)>,
    pub stalls: Vec<StallReason>,
    pub epoch: usize,
    pub instructions_committed: usize,
    pub predict: PredictionAlgorithms,
    /// The instructions committed in the last cycle, in order.
    pub commits: Vec<CommitRecord>,
    /// The reorder-buffer slot a display starts from.
    pub rob_focus: usize,
    /// The exit code, once the program asked to halt.
    pub halt: Option<i32>,
    pub fault: Option<Fault>,
}

/// How many times `r` occurs in `s`.
pub open spec fn occurrences(s: Seq<StallReason>, r: StallReason) -> nat
    decreases s.len(),
{
    if s.len() == 0 {
        0
    } else {
        occurrences(s.drop_last(), r) + if s.last() == r { 1nat } else { 0nat }
    }
}

impl OoOSpeculative {
    /// The reservation stations of class `c`.
    pub open spec fn stations(self, c: IssueType) -> RSSet {
        match c {
            IssueType::ALUSHIFT => self.rs_alu_shift,
            IssueType::MUL => self.rs_mul,
            IssueType::LoadStore => self.rs_ls,
            IssueType::Control => self.rs_control,
        }
    }

    /// What a cycle reports is left as in `other`: the committed instructions,
    /// the counters, the halt.
    pub open spec fn keeps_record(self, other: OoOSpeculative) -> bool {
        &&& self.commits == other.commits
        &&& self.epoch == other.epoch
        &&& self.instructions_committed == other.instructions_committed
        &&& self.halt == other.halt
    }

    /// The pending results of `other` are still pending, first, and the
    /// state is untouched.
    pub open spec fn extends_pending(self, other: OoOSpeculative) -> bool {
        &&& self.to_broadcast@.len() >= other.to_broadcast@.len()
        &&& self.to_broadcast@.subrange(0, other.to_broadcast@.len() as int) == other.to_broadcast@
        &&& self.state == other.state
    }

    /// Every station holds what it held in `other`.
    pub open spec fn same_stations_view(self, other: OoOSpeculative) -> bool {
        &&& self.rs_mul.vec@ == other.rs_mul.vec@
        &&& self.rs_alu_shift.vec@ == other.rs_alu_shift.vec@
        &&& self.rs_ls.vec@ == other.rs_ls.vec@
        &&& self.rs_control.vec@ == other.rs_control.vec@
    }

    pub open spec fn same_stations(self, other: OoOSpeculative) -> bool {
        &&& self.rs_mul == other.rs_mul
        &&& self.rs_alu_shift == other.rs_alu_shift
        &&& self.rs_ls == other.rs_ls
        &&& self.rs_control == other.rs_control
    }

    pub open spec fn wf(self) -> bool {
        &&& self.rob.wf()
        &&& self.rs_mul.issue_type == IssueType::MUL
        &&& self.rs_alu_shift.issue_type == IssueType::ALUSHIFT
        &&& self.rs_ls.issue_type == IssueType::LoadStore
        &&& self.rs_control.issue_type == IssueType::Control
        &&& self.rs_mul.wf()
        &&& self.rs_alu_shift.wf()
        &&& self.rs_ls.wf()
        &&& self.rs_control.wf()
        &&& self.state.mem.wf()
        &&& forall|x: int| 0 <= x < self.cdb@.len() ==> (#[trigger] self.cdb@[x]).rob_number < ROB_ENTRIES
        &&& forall|x: int| 0 <= x < self.to_broadcast@.len() ==> (#[trigger] self.to_broadcast@[x]).1.rob_number < ROB_ENTRIES
        &&& forall|x: int| 0 <= x < self.load_queue@.len() ==> (#[trigger] self.load_queue@[x]).rob_entry < ROB_ENTRIES
    }

    /// A core at the start of a run: empty pipeline, fetch from the
    /// register file's PC.
    pub fn new(state: ProcessorState) -> (r: OoOSpeculative)
        requires
            state.mem.wf(),
        ensures
            r.wf(),
            r.rob.count() == 0,
            r.spec_pc == state.regs.pc,
            r.iq@.len() == 0,
            r.halt.is_none() && r.fault.is_none(),
            r.mispredicts == 0,
    {
        let spec_pc = state.regs.pc;
        OoOSpeculative {
            state,
            fb: None,
            iq: Vec::new(),
            rob: ROB::new(),
            load_queue: Vec::new(),
            rs_mul: RSSet::new(IssueType::MUL, N_RS),
            rs_alu_shift: RSSet::new(IssueType::ALUSHIFT, N_RS),
            rs_ls: RSSet::new(IssueType::LoadStore, N_RS),
            rs_control: RSSet::new(IssueType::Control, N_RS),
            output: Vec::new(),
            flush_delay: 0,
            flushing: false,
            spec_pc,
            fetch_stall: false,
            mispredicts: 0,
            correct_predicts: 0,
            cdb: Vec::new(),
            to_broadcast: Vec::new(),
            stalls: Vec::new(),
            epoch: 0,
            instructions_committed: 0,
            predict: PredictionAlgorithms::AlwaysTaken,
            commits: Vec::new(),
            rob_focus: 0,
            halt: None,
            fault: None,
        }
    }

    /// Moves the display focus one slot on, wrapping.
    pub fn rob_focus_up(&mut self)
        ensures
            final(self).rob_focus == if old(self).rob_focus + 1 >= ROB_ENTRIES { 0 } else { old(self).rob_focus + 1 },
    {
        if self.rob_focus >= ROB_ENTRIES - 1 {
            self.rob_focus = 0;
        } else {
            self.rob_focus = self.rob_focus + 1;
        }
    }

    /// Moves the display focus one slot back, wrapping.
    pub fn rob_focus_down(&mut self)
        ensures
            final(self).rob_focus == if old(self).rob_focus == 0 { ROB_ENTRIES - 1 } else { old(self).rob_focus - 1 },
    {
        if self.rob_focus == 0 {
            self.rob_focus = ROB_ENTRIES - 1;
        } else {
            self.rob_focus = self.rob_focus - 1;
        }
    }

    pub fn stall(&mut self, reason: StallReason)
        ensures
            final(self).stalls@ == old(self).stalls@.push(reason),
            *final(self) == (OoOSpeculative { stalls: final(self).stalls, ..*old(self) }),
    {
        self.stalls.push(reason);
    }

    /// How many stalls of this kind were recorded.
    pub fn stall_count(&self, reason: StallReason) -> (r: usize)
        ensures
            r == occurrences(self.stalls@, reason),
    {
        let mut count: usize = 0;
        let mut x: usize = 0;
        while x < self.stalls.len()
            invariant
                x <= self.stalls@.len(),
                count == occurrences(self.stalls@.take(x as int), reason),
                count <= x,
            decreases self.stalls@.len() - x,
        {
            proof {
                assert(self.stalls@.take(x + 1).drop_last() =~= self.stalls@.take(x as int));
            }
            if self.stalls[x] == reason {
                count = count + 1;
            }
            x = x + 1;
        }
        proof {
            assert(self.stalls@.take(x as int) =~= self.stalls@);
        }
        count
    }

    /// Whether a fetched word is not one of the control-flow encodings that
    /// `pre_decode` recognises.
    pub open spec fn pre_decode_spec(i: u32) -> bool {
        (i & 0xF800_D000) != 0xF000_D000 && (i >= 0x10000 || ((i & 0xF000) != 0xD000 && (i & 0xF800) != 0xE000
            && (i & 0xFF80) != 0x4700 && (i & 0xFF80) != 0x4780))
    }

    /// Whether a fetched word is a control-flow instruction, judged from its
    /// bits alone, and the branch offset it carries (0 for those without).
    pub fn pre_decode(i: u32) -> (r: Option<(IT, u32)>)
        ensures
            r == pre_decoded(i),
            r.is_none() <==> Self::pre_decode_spec(i),
            r matches Some((it, _)) ==> it == IT::BL || it == IT::B || it == IT::SVC || it == IT::BX || it
                == IT::BLX,
            r matches Some((IT::BL, off)) ==> off as int == (crate::decoder::bl_offset(i) + 0x1_0000_0000)
                % 0x1_0000_0000,
            i >= 0x10000 && (i & 0xF800_D000) != 0xF000_D000 ==> r.is_none(),
    {
        // BL
        if (i & 0xF800_D000) == 0xF000_D000 {
            let d = decode_bl(i);
            return Some((IT::BL, to_unsigned(d.imms)));
        }
        if is_32_bit(i) {
            return None;
        }
        // B (T1), or SVC when the condition field is 0b1111
        if (i & 0xF000) == 0xD000 {
            if briz(i, 8, 11) == 0b1111 {
                return Some((IT::SVC, 0));
            }
            let d = decode_b1(i);
            return Some((IT::B, to_unsigned(d.imms)));
        }
        // B (T2)
        if (i & 0xF800) == 0xE000 {
            let d = decode_b2(i);
            return Some((IT::B, to_unsigned(d.imms)));
        }
        if (i & 0xFF80) == 0x4700 {
            return Some((IT::BX, 0));
        }
        if (i & 0xFF80) == 0x4780 {
            return Some((IT::BLX, 0));
        }
        None
    }

    /// The fetch stage: reads one instruction at the speculative PC into the
    /// empty fetch buffer and moves the speculative PC on, to the branch
    /// target when branches are predicted taken.
    pub fn fetch(&mut self)
        requires
            old(self).wf(),
        ensures
            final(self).wf(),
            final(self).keeps_record(*old(self)),
            final(self).flushing == old(self).flushing,
            final(self).halt == old(self).halt,
            old(self).fetch_stall ==> final(self).fetch_stall,
            final(self).rob == old(self).rob,
            final(self).iq == old(self).iq,
            (old(self).fb.is_some() || old(self).fetch_stall) ==> final(self).fb == old(self).fb && final(self).spec_pc
                == old(self).spec_pc,
            old(self).fb.is_none() && !old(self).fetch_stall && final(self).fault.is_none() ==> (final(self).fb matches Some(
                (next, word),
            ) && next == (old(self).spec_pc + if word >= 0x10000 { 4int } else { 2 }) % 0x1_0000_0000 && (
            Self::pre_decode_spec(word) ==> final(self).spec_pc == next)),
            // a word in memory is fetched without a fault
            old(self).fb.is_none() && !old(self).fetch_stall && old(self).state.mem.instruction_in_memory(
                old(self).spec_pc,
            ) ==> final(self).fault == old(self).fault && final(self).fb is Some,
            // the buffer holds the instruction at the speculative PC
            old(self).fb.is_none() && !old(self).fetch_stall && final(self).fb is Some ==> final(self).fb.unwrap().1
                == old(self).state.mem.instruction_at(old(self).spec_pc),
            old(self).fb.is_none() && !old(self).fetch_stall && final(self).fb is None ==> final(self).fault is Some,
            // the next fetch address: the predicted target of a branch under
            // predict-taken, the next instruction otherwise; a supervisor call stalls fetch
            ({
                let w = final(self).fb.unwrap().1;
                let next = (old(self).spec_pc + if w >= 0x10000 { 4int } else { 2 }) % 0x1_0000_0000;
                old(self).fb.is_none() && !old(self).fetch_stall && final(self).fb is Some ==> match pre_decoded(w) {
                    Some((it, off)) => if it == IT::SVC {
                        final(self).fetch_stall && final(self).spec_pc == next
                    } else {
                        !final(self).fetch_stall && final(self).spec_pc == if old(self).predict
                            == PredictionAlgorithms::AlwaysTaken {
                            (old(self).spec_pc + off + 4) % 0x1_0000_0000
                        } else {
                            next
                        }
                    },
                    None => !final(self).fetch_stall && final(self).spec_pc == next,
                }
            }),
            old(self).fb.is_none() && !old(self).fetch_stall && final(self).fault.is_none() && old(self).predict
                == PredictionAlgorithms::AlwaysUntaken && !final(self).fetch_stall ==> final(self).spec_pc
                == (old(self).spec_pc + if final(self).fb.unwrap().1 >= 0x10000 { 4int } else { 2 }) % 0x1_0000_0000,
    {
        if self.fb.is_some() || self.fetch_stall {
            return;
        }
        let fetched = match self.state.mem.get_instruction(self.spec_pc) {
            Ok(w) => w,
            Err(e) => {
                self.fault = Some(Fault::Memory(e, self.spec_pc));
                return;
            },
        };
        let pc_increment: u32 = if is_32_bit(fetched) { 4 } else { 2 };
        let next = self.spec_pc.wrapping_add(pc_increment);
        self.fb = Some((next, fetched));
        match Self::pre_decode(fetched) {
            Some((control_instruction, control_offset)) => {
                if control_instruction.is_serializing() {
                    self.spec_pc = next;
                    self.fetch_stall = true;
                    return;
                }
                if self.predict == PredictionAlgorithms::AlwaysTaken {
                    self.spec_pc = self.spec_pc.wrapping_add(control_offset).wrapping_add(4);
                } else {
                    self.spec_pc = next;
                }
            },
            None => {
                self.spec_pc = next;
            },
        }
    }

    /// The decode stage: expands the fetched instruction into micro-operations
    /// at the back of the instruction queue, unless the queue is near full.
    pub fn decode(&mut self)
        requires
            old(self).wf(),
        ensures
            final(self).wf(),
            final(self).keeps_record(*old(self)),
            final(self).flushing == old(self).flushing,
            final(self).halt == old(self).halt,
            final(self).fetch_stall == old(self).fetch_stall,
            final(self).rob == old(self).rob,
            final(self).iq@.len() <= IQ_SIZE || final(self).iq@.len() == old(self).iq@.len(),
            final(self).iq@.subrange(0, old(self).iq@.len() as int) == old(self).iq@,
            final(self).fault == old(self).fault,
            old(self).fb is Some && old(self).iq@.len() + MAX_MOPS <= IQ_SIZE ==> final(self).iq@ == old(self).iq@
                + tagged(crate::expand::expansion(crate::decoder::decoded(old(self).fb.unwrap().1)), old(self).fb.unwrap().0),
            old(self).fb is None || old(self).iq@.len() + MAX_MOPS > IQ_SIZE ==> final(self).iq == old(self).iq
                && final(self).fb == old(self).fb,
            old(self).fb is Some && old(self).iq@.len() + MAX_MOPS <= IQ_SIZE
                ==> final(self).fb.is_none() && final(self).iq@.len() > old(self).iq@.len() && forall|k: int|
                old(self).iq@.len() <= k < final(self).iq@.len() ==> (#[trigger] final(self).iq@[k]).pc == old(
                self).fb.unwrap().0,
    {
        if let Some((pc, word)) = self.fb {
            if self.iq.len() > IQ_SIZE - MAX_MOPS {
                return;
            }
            let i = decode(word);
            proof {
                crate::decoder::lemma_decoded(word, i);
            }
            let mops = decode2(i);
            let mut k: usize = 0;
            let ghost start = self.iq@.len();
            while k < mops.len()
                invariant
                    k <= mops@.len() <= MAX_MOPS,
                    mops@.len() >= 1,
                    start + MAX_MOPS <= IQ_SIZE,
                    start == old(self).iq@.len(),
                    self.iq@.len() == start + k,
                    self.iq@.subrange(0, start as int) == old(self).iq@,
                    forall|j: int| start <= j < self.iq@.len() ==> (#[trigger] self.iq@[j]).pc == pc,
                    mops@ == crate::expand::expansion(i),
                    crate::decoder::regs_in_range(i),
                    self.iq@ == old(self).iq@ + tagged(mops@.take(k as int), pc),
                    self.fb == old(self).fb,
                    self.fault == old(self).fault,
                    self.keeps_record(*old(self)),
                    self.flushing == old(self).flushing,
                    self.fetch_stall == old(self).fetch_stall,
                    old(self).fb == Some((pc, word)),
                    self.wf(),
                    self.rob == old(self).rob,
                decreases mops@.len() - k,
            {
                let ghost prev = self.iq@;
                self.iq.push(InstructionQueueEntry { i: mops[k], pc });
                proof {
                    assert(self.iq@.subrange(0, start as int) =~= prev.subrange(0, start as int));
                    assert(tagged(mops@.take(k + 1), pc) =~= tagged(mops@.take(k as int), pc).push(
                        InstructionQueueEntry { i: mops@[k as int], pc },
                    ));
                    assert(self.iq@ =~= old(self).iq@ + tagged(mops@.take(k + 1), pc));
                }
                k = k + 1;
            }
            proof {
                assert(mops@.take(k as int) =~= mops@);
            }
            self.fb = None;
        }
    }

    /// The issue stage for the oldest queued micro-operation: a reorder-buffer
    /// slot and a station of its class, with its operands renamed. On a stall
    /// nothing changes but the stall record.
    pub fn issue(&mut self)
        requires
            old(self).wf(),
        ensures
            final(self).wf(),
            final(self).keeps_record(*old(self)),
            final(self).rob.head == old(self).rob.head,
            final(self).state.regs == old(self).state.regs,
            ({
                ||| (final(self).iq@ == old(self).iq@ && final(self).rob.in_flight() == old(self).rob.in_flight()
                    && final(self).rob.register_status@ == old(self).rob.register_status@)
                ||| (old(self).iq@.len() > 0 && final(self).iq@ == old(self).iq@.drop_first()
                    && final(self).rob.in_flight() == old(self).rob.in_flight().push(
                    final(self).rob.queue@[old(self).rob.tail as int],
                ) && final(self).rob.queue@[old(self).rob.tail as int].i == old(self).iq@[0].i
                    && final(self).rob.queue@[old(self).rob.tail as int].pc == old(self).iq@[0].pc
                    && final(self).rob.register_status@ == crate::rob::renamed(
                    old(self).rob.register_status@,
                    old(self).iq@[0].i,
                    old(self).rob.tail,
                ))
            }),
            old(self).iq@.len() > 0 && old(self).rob.count() < 64 && final(self).fault.is_none() && final(self).iq@
                == old(self).iq@ ==> (crate::instr::issue_class(old(self).iq@[0].i.it) matches Some(c) && forall|y: int|
                0 <= y < old(self).stations(c).vec@.len() ==> (#[trigger] old(self).stations(c).vec@[y]).busy),
            // a full buffer stalls
            old(self).iq@.len() > 0 && old(self).rob.count() == 64 ==> final(self).stalls@ == old(self).stalls@.push(
                StallReason::FullRob,
            ) && final(self).iq@ == old(self).iq@ && final(self).fault == old(self).fault,
            // an issuable micro-operation issues, or stalls on a full station set
            ({
                let i = old(self).iq@[0].i;
                old(self).iq@.len() > 0 && old(self).rob.count() < 64 && crate::instr::issue_class(i.it) is Some && i.rd
                    < 16 && i.rn < 16 && i.rm < 16 && i.rt < 16 ==> {
                    let c = crate::instr::issue_class(i.it).unwrap();
                    &&& final(self).fault == old(self).fault
                    &&& final(self).iq@ == old(self).iq@ ==> final(self).stalls@ == old(self).stalls@.push(
                        StallReason::IssueRSFull,
                    ) && final(self).rob.queue == old(self).rob.queue && final(self).rob.head == old(self).rob.head
                        && final(self).rob.tail == old(self).rob.tail && final(self).rob.register_status
                        == old(self).rob.register_status && final(self).stations(c).vec@ == old(self).stations(c).vec@
                        && final(self).same_stations_view(*old(self))
                    &&& final(self).iq@ != old(self).iq@ ==> final(self).rob.tail == (old(self).rob.tail + 1) % 64
                        && final(self).stalls == old(self).stalls
                    &&& final(self).iq@ != old(self).iq@ ==> exists|a: int|
                        0 <= a < old(self).stations(c).vec@.len() && !(#[trigger] old(self).stations(c).vec@[a]).busy
                            && final(self).stations(c).vec@[a].busy && final(self).stations(c).vec@[a].rob_dest
                            == old(self).rob.tail && final(self).stations(c).vec@[a].i == i
                }
            }),
            // without a micro-operation to issue, nothing changes
            old(self).iq@.len() == 0 ==> *final(self) == *old(self),
    {
        if self.iq.len() == 0 {
            return;
        }
        if self.rob.is_full() {
            self.stall(StallReason::FullRob);
            return;
        }
        let iqe = self.iq[0];
        let class = match get_issue_type(iqe.i.it) {
            Some(c) => c,
            None => {
                self.fault = Some(Fault::Decode(iqe.pc, iqe.i.it));
                return;
            },
        };
        if !(iqe.i.rd < 16 && iqe.i.rn < 16 && iqe.i.rm < 16 && iqe.i.rt < 16) {
            self.fault = Some(Fault::Decode(iqe.pc, iqe.i.it));
            return;
        }
        proof {
            crate::rs::lemma_class_has_sources(iqe.i);
        }
        let dest = self.rob.issue_receive(&iqe.i, iqe.pc);
        let rs_insert = match class {
            IssueType::ALUSHIFT => self.rs_alu_shift.issue_receive(&iqe.i, dest, &self.state.regs, &self.rob),
            IssueType::MUL => self.rs_mul.issue_receive(&iqe.i, dest, &self.state.regs, &self.rob),
            IssueType::LoadStore => self.rs_ls.issue_receive(&iqe.i, dest, &self.state.regs, &self.rob),
            IssueType::Control => self.rs_control.issue_receive(&iqe.i, dest, &self.state.regs, &self.rob),
        };
        if rs_insert.is_some() {
            self.iq.remove(0);
            self.rob.issue_commit();
            proof {
                assert(old(self).iq@.remove(0) =~= old(self).iq@.drop_first());
            }
        } else {
            self.stall(StallReason::IssueRSFull);
        }
    }

    /// Queues a result for broadcast after `delay` cycles.
    fn schedule(&mut self, delay: u8, record: CDBRecord)
        requires
            old(self).wf(),
            record.rob_number < ROB_ENTRIES,
        ensures
            final(self).wf(),
            final(self).to_broadcast@ == old(self).to_broadcast@.push((delay, record)),
            *final(self) == (OoOSpeculative { to_broadcast: final(self).to_broadcast, ..*old(self) }),
            final(self).extends_pending(*old(self)),
    {
        self.to_broadcast.push((delay, record));
        proof {
            assert(self.to_broadcast@.subrange(0, old(self).to_broadcast@.len() as int) =~= old(self).to_broadcast@);
            assert forall|x: int| 0 <= x < self.to_broadcast@.len() implies (#[trigger] self.to_broadcast@[x]).1.rob_number
                < ROB_ENTRIES by {
                if x < old(self).to_broadcast@.len() {
                    assert(old(self).to_broadcast@[x] == self.to_broadcast@[x]);
                }
            }
        }
    }

    /// The ALU and shifter, one cycle.
    pub fn execute_alu_shift(&mut self, rs: &RS)
        requires
            old(self).wf(),
            rs.tags_ok(),
        ensures
            final(self).wf(),
            *final(self) == (OoOSpeculative { to_broadcast: final(self).to_broadcast, ..*old(self) }),
            final(self).keeps_record(*old(self)),
            final(self).extends_pending(*old(self)),
            final(self).same_stations(*old(self)),
            final(self).load_queue == old(self).load_queue,
            final(self).rob == old(self).rob,
            final(self).to_broadcast@.len() == old(self).to_broadcast@.len() + 1,
            final(self).to_broadcast@.last().0 == 1,
            final(self).to_broadcast@.last().1.rob_number == rs.rob_dest,
            ({
                let j = get_data_spec(rs.j);
                let k = get_data_spec(rs.k);
                let result = final(self).to_broadcast@.last().1.result;
                &&& (rs.i.it == IT::ADDReg || rs.i.it == IT::ADDImm || rs.i.it == IT::ADDSpImm) ==> result == (j + k)
                    % 0x1_0000_0000
                &&& (rs.i.it == IT::SUBReg || rs.i.it == IT::SUBImm) ==> result == (j - k + 0x1_0000_0000)
                    % 0x1_0000_0000
                &&& rs.i.it == IT::AND ==> result == j & k
                &&& rs.i.it == IT::ORR ==> result == j | k
                &&& rs.i.it == IT::EOR ==> result == j ^ k
                &&& (rs.i.it == IT::MOVReg || rs.i.it == IT::MOVImm) ==> result == j
            }),
            // every arithmetic form is an addition with carry: its result and flags
            ({
                let j = get_data_spec(rs.j);
                let k = get_data_spec(rs.k);
                let c: int = if get_data_spec(rs.l) != 0 { 1 } else { 0 };
                let nj = (0xFFFF_FFFF - j) as u32;
                let nk = (0xFFFF_FFFF - k) as u32;
                let rec = final(self).to_broadcast@.last().1;
                &&& !rec.halt && !rec.is_branch_target
                &&& (rs.i.it == IT::ADDReg || rs.i.it == IT::ADDImm || rs.i.it == IT::ADDSpImm || rs.i.it == IT::CMN)
                    ==> rec.result == (j + k) % 0x1_0000_0000 && rec.aspr_update == masked_spec(
                    add_flags(j, k, 0),
                    rs.i.it,
                    rs.i.setsflags,
                )
                &&& (rs.i.it == IT::SUBReg || rs.i.it == IT::SUBImm || rs.i.it == IT::CMPImm || rs.i.it == IT::CMPReg)
                    ==> rec.result == (j + nk + 1) % 0x1_0000_0000 && rec.aspr_update == masked_spec(
                    add_flags(j, nk, 1),
                    rs.i.it,
                    rs.i.setsflags,
                )
                &&& rs.i.it == IT::ADC ==> rec.result == (j + k + c) % 0x1_0000_0000 && rec.aspr_update
                    == masked_spec(add_flags(j, k, c), rs.i.it, rs.i.setsflags)
                &&& rs.i.it == IT::SBC ==> rec.result == (j + nk + c) % 0x1_0000_0000 && rec.aspr_update
                    == masked_spec(add_flags(j, nk, c), rs.i.it, rs.i.setsflags)
                &&& rs.i.it == IT::RSB ==> rec.result == (nj + k + 1) % 0x1_0000_0000 && rec.aspr_update
                    == masked_spec(add_flags(nj, k, 1), rs.i.it, rs.i.setsflags)
                // a shift sets N and Z from its result, C from the shifter, never V
                &&& matches!(rs.i.it, IT::ASRReg | IT::ASRImm | IT::LSLImm | IT::LSLReg | IT::LSRReg | IT::LSRImm | IT::ROR)
                    ==> rec.aspr_update.v.is_none() && rec.aspr_update.n == (if rs.i.setsflags {
                    Some(rec.result >= 0x8000_0000)
                } else {
                    None
                }) && rec.aspr_update.z == (if rs.i.setsflags {
                    Some(rec.result == 0)
                } else {
                    None
                })
            }),
            // the flags: all four from an addition, N and Z from a logical
            // operation, each kept only if the instruction sets it
            ({
                let j = get_data_spec(rs.j);
                let k = get_data_spec(rs.k);
                let rec = final(self).to_broadcast@.last().1;
                let add = ASPRUpdate {
                    n: Some(rec.result >= 0x8000_0000),
                    z: Some(rec.result == 0),
                    c: Some(j + k >= 0x1_0000_0000),
                    v: Some(!(-0x8000_0000 <= crate::alu::signed(j) + crate::alu::signed(k) < 0x8000_0000)),
                };
                let logic = ASPRUpdate { n: Some(rec.result >= 0x8000_0000), z: Some(rec.result == 0), c: None, v: None };
                &&& (rs.i.it == IT::ADDReg || rs.i.it == IT::ADDImm || rs.i.it == IT::ADDSpImm || rs.i.it == IT::CMN)
                    ==> rec.aspr_update == masked_spec(add, rs.i.it, rs.i.setsflags)
                &&& (rs.i.it == IT::AND || rs.i.it == IT::TST || rs.i.it == IT::ORR || rs.i.it == IT::EOR)
                    ==> rec.aspr_update == masked_spec(logic, rs.i.it, rs.i.setsflags)
            }),
    {
        let j = get_data(rs.j);
        let k = get_data(rs.k);
        let c = get_data(rs.l) != 0;
        let not_j = 0xFFFF_FFFFu32 - j;
        let not_k = 0xFFFF_FFFFu32 - k;
        proof {
            assert(j & j == j) by (bit_vector);
        }
        let calc: CalcResult = match rs.i.it {
            IT::ADC => ALU(ALUOperation::ADD, j, k, c),
            IT::SBC => ALU(ALUOperation::ADD, j, not_k, c),
            IT::ADDReg | IT::ADDImm | IT::ADDSpImm | IT::CMN => ALU(ALUOperation::ADD, j, k, false),
            IT::SUBReg | IT::SUBImm | IT::CMPImm | IT::CMPReg => ALU(ALUOperation::ADD, j, not_k, true),
            IT::RSB => ALU(ALUOperation::ADD, not_j, k, true),
            IT::AND | IT::TST => ALU(ALUOperation::AND, j, k, false),
            IT::BIC => ALU(ALUOperation::AND, j, not_k, false),
            IT::ORR => ALU(ALUOperation::OR, j, k, false),
            IT::EOR => ALU(ALUOperation::EOR, j, k, false),
            IT::REV => ALU(ALUOperation::REV, j, 0, false),
            IT::REV16 => ALU(ALUOperation::REV16, j, 0, false),
            IT::REVSH => ALU(ALUOperation::REVSH, j, 0, false),
            IT::MOVReg | IT::MOVImm => ALU(ALUOperation::AND, j, j, false),
            IT::MVN => ALU(ALUOperation::AND, not_j, not_j, false),
            IT::ASRReg | IT::ASRImm => with_nz(shift_with_carry(ShiftType::ASR, j, (k % 256) as u8, c as u8)),
            IT::LSLImm | IT::LSLReg => with_nz(shift_with_carry(ShiftType::LSL, j, (k % 256) as u8, c as u8)),
            IT::LSRReg | IT::LSRImm => with_nz(shift_with_carry(ShiftType::LSR, j, (k % 256) as u8, c as u8)),
            IT::ROR => with_nz(shift_with_carry(ShiftType::ROR, j, (k % 256) as u8, c as u8)),
            IT::SXTB => ALU(ALUOperation::SXTB, j, 0, false),
            IT::SXTH => ALU(ALUOperation::SXTH, j, 0, false),
            IT::UXTB => ALU(ALUOperation::UXTB, j, 0, false),
            IT::UXTH => ALU(ALUOperation::UXTH, j, 0, false),
            _ => ALU(ALUOperation::AND, 0, 0, false),
        };
        let update = masked(calc.aspr_update, rs.i.it, rs.i.setsflags);
        self.schedule(
            1,
            CDBRecord {
                is_branch_target: false,
                valid: false,
                result: calc.result,
                aspr_update: update,
                rob_number: rs.rob_dest,
                halt: false,
            },
        );
    }

    /// The multiplier: the low 32 bits of the product, N and Z, after two cycles.
    pub fn execute_mul(&mut self, rs: &RS)
        requires
            old(self).wf(),
            rs.tags_ok(),
        ensures
            final(self).wf(),
            *final(self) == (OoOSpeculative { to_broadcast: final(self).to_broadcast, ..*old(self) }),
            final(self).keeps_record(*old(self)),
            final(self).extends_pending(*old(self)),
            final(self).same_stations(*old(self)),
            final(self).load_queue == old(self).load_queue,
            final(self).rob == old(self).rob,
            final(self).to_broadcast@ == old(self).to_broadcast@.push(
                (
                    MUL_DELAY,
                    CDBRecord {
                        is_branch_target: false,
                        valid: false,
                        result: ((get_data_spec(rs.j) * get_data_spec(rs.k)) % 0x1_0000_0000) as u32,
                        aspr_update: final(self).to_broadcast@.last().1.aspr_update,
                        rob_number: rs.rob_dest,
                        halt: false,
                    },
                ),
            ),
            ({
                let product = ((get_data_spec(rs.j) * get_data_spec(rs.k)) % 0x1_0000_0000) as u32;
                rs.i.it == IT::MUL ==> final(self).to_broadcast@.last().1.aspr_update == (if rs.i.setsflags {
                    ASPRUpdate { n: Some(product >= 0x8000_0000), z: Some(product == 0), c: None, v: None }
                } else {
                    ASPRUpdate { n: None, z: None, c: None, v: None }
                })
            }),
    {
        let j = get_data(rs.j);
        let k = get_data(rs.k);
        proof {
            assert((j as int) * (k as int) <= u64::MAX) by (nonlinear_arith)
                requires
                    0 <= j < 0x1_0000_0000,
                    0 <= k < 0x1_0000_0000,
            ;
        }
        let product = ((j as u64 * k as u64) % 0x1_0000_0000) as u32;
        let update = ASPRUpdate { n: Some(product >= 0x8000_0000), z: Some(product == 0), c: None, v: None };
        let update = masked(update, rs.i.it, rs.i.setsflags);
        self.schedule(
            MUL_DELAY,
            CDBRecord {
                is_branch_target: false,
                valid: false,
                result: product,
                aspr_update: update,
                rob_number: rs.rob_dest,
                halt: false,
            },
        );
    }

    /// The load/store unit: computes the address; a load joins the load
    /// queue, a store records its data and broadcasts its address.
    pub fn execute_load_store(&mut self, rs: &RS)
        requires
            old(self).wf(),
            rs.tags_ok(),
        ensures
            final(self).wf(),
            final(self).keeps_record(*old(self)),
            final(self).extends_pending(*old(self)),
            final(self).same_stations(*old(self)),
            is_load(rs.i.it) ==> final(self).load_queue@ == old(self).load_queue@.push(
                LoadQueueEntry {
                    address: get_data_spec(rs.j).wrapping_add(get_data_spec(rs.k)),
                    rob_entry: rs.rob_dest,
                    load_type: rs.i.it,
                },
            ) && final(self).to_broadcast == old(self).to_broadcast,
            !is_load(rs.i.it) ==> final(self).load_queue == old(self).load_queue,
            // a store records its data in its entry and broadcasts its address next cycle
            crate::instr::is_store(rs.i.it) ==> final(self).rob.queue@[rs.rob_dest as int].value == get_data_spec(rs.l)
                && final(self).to_broadcast@ == old(self).to_broadcast@.push(
                (
                    1u8,
                    CDBRecord {
                        is_branch_target: false,
                        valid: false,
                        rob_number: rs.rob_dest,
                        result: get_data_spec(rs.j).wrapping_add(get_data_spec(rs.k)),
                        aspr_update: ASPRUpdate { n: None, z: None, c: None, v: None },
                        halt: false,
                    },
                ),
            ) && final(self).fault == old(self).fault,
            is_load(rs.i.it) ==> final(self).fault == old(self).fault,
    {
        proof {
            assert(self.to_broadcast@.subrange(0, self.to_broadcast@.len() as int) =~= self.to_broadcast@);
        }
        let j = get_data(rs.j);
        let k = get_data(rs.k);
        let address = j.wrapping_add(k);
        if crate::instr::is_load_kind(rs.i.it) {
            self.load_queue.push(LoadQueueEntry { address, rob_entry: rs.rob_dest, load_type: rs.i.it });
            proof {
                assert forall|x: int| 0 <= x < self.load_queue@.len() implies (#[trigger] self.load_queue@[x]).rob_entry
                    < ROB_ENTRIES by {
                    if x < old(self).load_queue@.len() {
                        assert(old(self).load_queue@[x] == self.load_queue@[x]);
                    }
                }
            }
        } else if crate::instr::is_store_kind(rs.i.it) {
            self.rob.set_value(rs.rob_dest, get_data(rs.l));
            self.schedule(
                1,
                CDBRecord {
                    is_branch_target: false,
                    valid: false,
                    rob_number: rs.rob_dest,
                    result: address,
                    aspr_update: ASPRUpdate::no_update(),
                    halt: false,
                },
            );
        } else {
            self.fault = Some(Fault::Internal);
        }
    }

    /// The control unit: branch targets and conditions, and supervisor calls
    /// (0: halt with r0 as the exit code; 1: print the string at r0; 3: print
    /// r0 in decimal). A conditional branch's target carries in bit 0 whether
    /// it is taken.
    pub fn execute_control(&mut self, rs: &RS)
        requires
            old(self).wf(),
            rs.tags_ok(),
        ensures
            final(self).wf(),
            final(self).keeps_record(*old(self)),
            final(self).extends_pending(*old(self)),
            final(self).rob == old(self).rob,
            final(self).same_stations(*old(self)),
            final(self).load_queue == old(self).load_queue,
            rs.i.it == IT::SVC && get_data_spec(rs.j) == 0 ==> final(self).to_broadcast@ == old(self).to_broadcast@.push(
                (
                    1u8,
                    CDBRecord {
                        is_branch_target: false,
                        valid: false,
                        result: get_data_spec(rs.k),
                        aspr_update: ASPRUpdate { n: None, z: None, c: None, v: None },
                        rob_number: rs.rob_dest,
                        halt: true,
                    },
                ),
            ),
            // register-indirect branches take the register's value as target, BL
            // its own address plus the offset
            (rs.i.it == IT::BX || rs.i.it == IT::BLX || rs.i.it == IT::SetPC) ==> final(self).fault == old(self).fault
                && final(self).to_broadcast@ == old(self).to_broadcast@.push(
                (
                    1u8,
                    CDBRecord {
                        is_branch_target: true,
                        valid: false,
                        result: get_data_spec(rs.j),
                        aspr_update: ASPRUpdate { n: None, z: None, c: None, v: None },
                        rob_number: rs.rob_dest,
                        halt: false,
                    },
                ),
            ),
            rs.i.it == IT::BL ==> final(self).fault == old(self).fault && final(self).to_broadcast@.len()
                == old(self).to_broadcast@.len() + 1 && final(self).to_broadcast@.last().1.is_branch_target
                && final(self).to_broadcast@.last().1.result == (old(self).rob.queue@[rs.rob_dest as int].pc
                + rs.i.imms) % 0x1_0000_0000,
            // a conditional branch never faults; its record, due next cycle, holds the
            // even target with bit 0 set when the condition holds
            ({
                let t = (old(self).rob.queue@[rs.rob_dest as int].pc + rs.i.imms + 2) % 0x1_0000_0000;
                rs.i.it == IT::B ==> final(self).fault == old(self).fault && final(self).to_broadcast@ == old(
                    self,
                ).to_broadcast@.push(
                    (
                        1u8,
                        CDBRecord {
                            is_branch_target: true,
                            valid: false,
                            result: (t - t % 2 + if condition_spec(
                                rs.i.rn,
                                get_data_spec(rs.j) != 0,
                                get_data_spec(rs.k) != 0,
                                get_data_spec(rs.l) != 0,
                            ) {
                                1int
                            } else {
                                0
                            }) as u32,
                            aspr_update: ASPRUpdate { n: None, z: None, c: None, v: None },
                            rob_number: rs.rob_dest,
                            halt: false,
                        },
                    ),
                )
            }),
            // SVC 3 prints r0 in decimal
            rs.i.it == IT::SVC && get_data_spec(rs.j) == 3 ==> final(self).output@ == old(self).output@ + decimal(
                get_data_spec(rs.k) as nat,
            ) && final(self).fault == old(self).fault,
            // any other supervisor call number but 0, 1 and 3 is fatal
            rs.i.it == IT::SVC && get_data_spec(rs.j) != 0 && get_data_spec(rs.j) != 1 && get_data_spec(rs.j) != 3
                ==> final(self).fault == Some(Fault::Syscall(get_data_spec(rs.j))),
    {
        proof {
            assert(self.to_broadcast@.subrange(0, self.to_broadcast@.len() as int) =~= self.to_broadcast@);
        }
        if rs.i.it == IT::SVC {
            let svc_num = get_data(rs.j);
            let r0 = get_data(rs.k);
            if svc_num == 0 {
                self.schedule(
                    1,
                    CDBRecord {
                        is_branch_target: false,
                        valid: false,
                        result: r0,
                        aspr_update: ASPRUpdate::no_update(),
                        rob_number: rs.rob_dest,
                        halt: true,
                    },
                );
                return;
            } else if svc_num == 1 {
                let mut addr = r0;
                loop
                    invariant
                        self.wf(),
                        self.keeps_record(*old(self)),
                        self.same_stations(*old(self)),
                        svc_num == get_data_spec(rs.j),
                        svc_num == 1,
                        rs.i.it == IT::SVC,
                        self.rob == old(self).rob,
                        self.load_queue == old(self).load_queue,
                        self.to_broadcast == old(self).to_broadcast,
                        self.to_broadcast@.subrange(0, self.to_broadcast@.len() as int) == self.to_broadcast@,
                        self.state == old(self).state,
                    decreases u32::MAX - addr,
                {
                    match self.state.mem.get_byte(addr) {
                        Ok(c) => {
                            if c == 0 {
                                break;
                            }
                            self.output.push(c);
                        },
                        Err(e) => {
                            self.fault = Some(Fault::Memory(e, addr));
                            return;
                        },
                    }
                    if addr == u32::MAX {
                        break;
                    }
                    addr = addr + 1;
                }
            } else if svc_num == 3 {
                push_decimal(&mut self.output, r0);
            } else {
                self.fault = Some(Fault::Syscall(svc_num));
                return;
            }
            self.schedule(
                1,
                CDBRecord {
                    is_branch_target: false,
                    valid: false,
                    result: 0,
                    aspr_update: ASPRUpdate::no_update(),
                    rob_number: rs.rob_dest,
                    halt: false,
                },
            );
            return;
        }
        let target: u32 = match rs.i.it {
            IT::SetPC | IT::BX | IT::BLX => get_data(rs.j),
            IT::BL => self.rob.get(rs.rob_dest).pc.wrapping_add_signed(rs.i.imms),
            IT::B => self.rob.get(rs.rob_dest).pc.wrapping_add_signed(rs.i.imms).wrapping_add(2),
            _ => {
                self.fault = Some(Fault::Internal);
                return;
            },
        };
        let mut result = target;
        if rs.i.it == IT::B {
            let taken = condition_holds(rs.i.rn, get_data(rs.j) != 0, get_data(rs.k) != 0, get_data(rs.l) != 0);
            // a Thumb target is even: bit 0 carries whether the branch is taken
            result = target - target % 2;
            if taken {
                result = result + 1;
            }
        }
        self.schedule(
            1,
            CDBRecord {
                is_branch_target: true,
                valid: false,
                result,
                aspr_update: ASPRUpdate::no_update(),
                rob_number: rs.rob_dest,
                halt: false,
            },
        );
    }

    /// Performs one queued load, which no older store in flight may block.
    fn perform_load(&mut self, e: LoadQueueEntry)
        requires
            old(self).wf(),
            e.rob_entry < ROB_ENTRIES,
            load_may_read(old(self).rob, e),
        ensures
            final(self).wf(),
            final(self).keeps_record(*old(self)),
            final(self).load_queue == old(self).load_queue,
            same_store_view(final(self).rob, old(self).rob),
            final(self).same_stations(*old(self)),
            final(self).state == old(self).state,
            !load_fails(old(self).state.mem, e) ==> final(self).fault == old(self).fault && final(self).to_broadcast@
                == old(self).to_broadcast@.push((1u8, final(self).to_broadcast@.last().1))
                && final(self).to_broadcast@.last().1.rob_number == e.rob_entry,
            load_fails(old(self).state.mem, e) ==> final(self).fault is Some && final(self).to_broadcast
                == old(self).to_broadcast,
    {
        self.rob.set_target_address(e.rob_entry, e.address);
        let loaded: Result<u32, MemError> = match e.load_type {
            IT::LDRBImm | IT::LDRBReg => match self.state.mem.get_byte(e.address) {
                Ok(b) => Ok(b as u32),
                Err(x) => Err(x),
            },
            IT::LDRHImm | IT::LDRHReg => match self.state.mem.get_halfword(e.address) {
                Ok(h) => Ok(h as u32),
                Err(x) => Err(x),
            },
            IT::LDRSB => match self.state.mem.get_byte(e.address) {
                Ok(b) => Ok(if b < 0x80 { b as u32 } else { b as u32 + 0xFFFF_FF00 }),
                Err(x) => Err(x),
            },
            IT::LDRSH => match self.state.mem.get_halfword(e.address) {
                Ok(h) => Ok(if h < 0x8000 { h as u32 } else { h as u32 + 0xFFFF_0000 }),
                Err(x) => Err(x),
            },
            _ => self.state.mem.get_word(e.address),
        };
        match loaded {
            Ok(result) => {
                self.schedule(
                    1,
                    CDBRecord {
                        is_branch_target: false,
                        valid: false,
                        result,
                        aspr_update: ASPRUpdate::no_update(),
                        rob_number: e.rob_entry,
                        halt: false,
                    },
                );
            },
            Err(x) => {
                self.fault = Some(Fault::Memory(x, e.address));
            },
        }
    }

    /// The execute stage: the queued loads that no older store keeps waiting
    /// read memory; then each unit takes its oldest ready station.
    pub fn execute(&mut self)
        requires
            old(self).wf(),
        ensures
            final(self).wf(),
            final(self).keeps_record(*old(self)),
            final(self).fault.is_none() ==> keeps_blocked(old(self).rob, old(self).load_queue@, final(self).load_queue@),
            // the blocked loads stay first in the queue, in order; after a memory
            // fault the queue is as it was
            ({
                let blocked = blocked_loads(old(self).rob, old(self).load_queue@);
                ||| (final(self).load_queue@ == old(self).load_queue@ && final(self).fault is Some)
                ||| (final(self).load_queue@.len() >= blocked.len() && final(self).load_queue@.subrange(
                    0,
                    blocked.len() as int,
                ) == blocked)
            }),
            // when every load that may go reads inside memory, each leaves the
            // queue and its result is due next cycle, in queue order
            ({
                let going = going_loads(old(self).rob, old(self).load_queue@);
                let blocked = blocked_loads(old(self).rob, old(self).load_queue@);
                let t0 = old(self).to_broadcast@.len() as int;
                old(self).fault.is_none() && (forall|k: int| 0 <= k < going.len() ==> !load_fails(
                    old(self).state.mem,
                    #[trigger] going[k],
                )) ==> {
                    &&& final(self).load_queue@.len() >= blocked.len()
                    &&& final(self).load_queue@.subrange(0, blocked.len() as int) == blocked
                    &&& final(self).to_broadcast@.len() >= t0 + going.len()
                    &&& final(self).to_broadcast@.subrange(0, t0) == old(self).to_broadcast@
                    &&& load_results(final(self).to_broadcast@.subrange(t0, t0 + going.len()), going)
                    &&& oldest_freed(old(self).rs_alu_shift, old(self).rob, final(self).rs_alu_shift)
                    // each unit that took a station scheduled its result after the loads'
                    &&& final(self).to_broadcast@.len() >= t0 + going.len() + (if has_ready(old(self).rs_alu_shift) {
                        1int
                    } else {
                        0
                    }) + (if has_ready(old(self).rs_mul) {
                        1int
                    } else {
                        0
                    })
                    &&& oldest_freed(old(self).rs_mul, old(self).rob, final(self).rs_mul)
                    &&& oldest_freed(old(self).rs_control, old(self).rob, final(self).rs_control)
                }
            }),
    {
        let ghost t0 = old(self).to_broadcast@.len() as int;
        proof {
            assert(old(self).load_queue@.take(0) =~= Seq::<LoadQueueEntry>::empty());
            assert(self.to_broadcast@.subrange(0, t0) =~= old(self).to_broadcast@);
            assert(self.to_broadcast@.subrange(t0, t0) =~= Seq::<(u8, CDBRecord)>::empty());
        }
        let mut kept: Vec<LoadQueueEntry> = Vec::new();
        let mut x: usize = 0;
        while x < self.load_queue.len()
            invariant
                self.wf(),
                self.keeps_record(*old(self)),
                old(self).wf(),
                x <= self.load_queue@.len(),
                self.load_queue == old(self).load_queue,
                same_store_view(self.rob, old(self).rob),
                self.same_stations(*old(self)),
                forall|y: int| 0 <= y < kept@.len() ==> (#[trigger] kept@[y]).rob_entry < ROB_ENTRIES,
                forall|k: int|
                    0 <= k < x && !load_may_read(old(self).rob, old(self).load_queue@[k]) ==> kept@.contains(
                        #[trigger] old(self).load_queue@[k],
                    ),
                kept@ == blocked_loads(old(self).rob, old(self).load_queue@.take(x as int)),
                self.state == old(self).state,
                self.fault == old(self).fault,
                self.to_broadcast@.len() == t0 + going_loads(old(self).rob, old(self).load_queue@.take(x as int)).len(),
                self.to_broadcast@.subrange(0, t0) == old(self).to_broadcast@,
                load_results(
                    self.to_broadcast@.subrange(t0, self.to_broadcast@.len() as int),
                    going_loads(old(self).rob, old(self).load_queue@.take(x as int)),
                ),
                t0 == old(self).to_broadcast@.len(),
                old(self).fault.is_none() ==> forall|k: int|
                    0 <= k < going_loads(old(self).rob, old(self).load_queue@.take(x as int)).len() ==> !load_fails(
                        old(self).state.mem,
                        #[trigger] going_loads(old(self).rob, old(self).load_queue@.take(x as int))[k],
                    ),
            decreases self.load_queue@.len() - x,
        {
            let e = self.load_queue[x];
            proof {
                lemma_same_store_view(old(self).rob, self.rob, e);
                let lqt = old(self).load_queue@.take(x + 1);
                assert(lqt.drop_last() =~= old(self).load_queue@.take(x as int));
                assert(lqt.last() == e);
            }
            if self.rob.load_can_go(&e) {
                let ghost tb_before = self.to_broadcast@;
                self.perform_load(e);
                proof {
                    assert(same_store_view(self.rob, old(self).rob));
                }
                if self.fault.is_some() {
                    proof {
                        lemma_going_contains(old(self).rob, old(self).load_queue@, x as int);
                    }
                    return;
                }
                proof {
                    let g = going_loads(old(self).rob, old(self).load_queue@.take(x + 1));
                    let g0 = going_loads(old(self).rob, old(self).load_queue@.take(x as int));
                    assert(g == g0.push(e));
                    assert(self.to_broadcast@.subrange(0, t0) =~= tb_before.subrange(0, t0));
                    let part = self.to_broadcast@.subrange(t0, self.to_broadcast@.len() as int);
                    let part0 = tb_before.subrange(t0, tb_before.len() as int);
                    assert(part =~= part0.push(self.to_broadcast@.last()));
                    assert forall|k: int| 0 <= k < part.len() implies (#[trigger] part[k]).0 == 1 && part[k].1.rob_number
                        == g[k].rob_entry by {
                        if k < part0.len() {
                            assert(part[k] == part0[k]);
                        }
                    }
                    if old(self).fault.is_none() {
                        assert(!load_fails(old(self).state.mem, e));
                        assert forall|k: int| 0 <= k < g.len() implies !load_fails(old(self).state.mem, #[trigger] g[k]) by {
                            if k < g0.len() {
                                assert(g[k] == g0[k]);
                            }
                        }
                    }
                }
            } else {
                let ghost prev = kept@;
                kept.push(e);
                proof {
                    assert(kept@[prev.len() as int] == e);
                    assert forall|k: int|
                        0 <= k < x + 1 && !load_may_read(old(self).rob, old(self).load_queue@[k]) implies kept@.contains(
                        #[trigger] old(self).load_queue@[k],
                    ) by {
                        if k < x {
                            let j = choose|j: int| 0 <= j < prev.len() && prev[j] == old(self).load_queue@[k];
                            assert(kept@[j] == prev[j]);
                        }
                    }
                }
            }
            x = x + 1;
        }
        proof {
            assert(old(self).load_queue@.take(x as int) =~= old(self).load_queue@);
        }
        self.load_queue = kept;
        let ghost lq0 = old(self).load_queue@;
        let ghost rob0 = old(self).rob;
        let ghost blocked = kept@;
        let ghost tb1 = self.to_broadcast@;
        let mut u: usize = 0;
        while u < N_ALUSHIFTERS
            invariant
                self.wf(),
                self.keeps_record(*old(self)),
                keeps_blocked(rob0, lq0, self.load_queue@),
                self.load_queue@.len() >= blocked.len(),
                self.load_queue@.subrange(0, blocked.len() as int) == blocked,
                self.to_broadcast@.len() >= tb1.len(),
                self.to_broadcast@.subrange(0, tb1.len() as int) == tb1,
                self.rob.head == old(self).rob.head,
                u == 0 ==> self.rs_alu_shift == old(self).rs_alu_shift,
                u >= 1 ==> oldest_freed(old(self).rs_alu_shift, old(self).rob, self.rs_alu_shift),
                self.to_broadcast@.len() >= tb1.len() + (if u >= 1 && has_ready(old(self).rs_alu_shift) {
                    1int
                } else {
                    0
                }),
                self.rs_alu_shift.vec@.len() == old(self).rs_alu_shift.vec@.len(),
                self.rs_mul == old(self).rs_mul,
                self.rs_control == old(self).rs_control,
            decreases N_ALUSHIFTERS - u,
        {
            if let Some(x) = self.rs_alu_shift.get_oldest_ready(&self.rob, false) {
                let rs = self.rs_alu_shift.vec[x];
                proof {
                    assert(self.rs_alu_shift.vec@[x as int].tags_ok());
                }
                let ghost set_before = self.rs_alu_shift;
                let ghost tb_prev = self.to_broadcast@;
                self.execute_alu_shift(&rs);
                proof {
                    lemma_prefix_keep(self.to_broadcast@, tb_prev, tb1);
                }
                self.rs_alu_shift.free(x);
                proof {
                    if u == 0 {
                        assert(oldest_ready(old(self).rs_alu_shift, old(self).rob, x as int));
                        assert(!self.rs_alu_shift.vec@[x as int].busy);
                    } else {
                        lemma_free_keeps(old(self).rs_alu_shift, old(self).rob, set_before, self.rs_alu_shift, x as int);
                    }
                }
            }
            u = u + 1;
        }
        let ghost rs_alu_shift_done = self.rs_alu_shift;
        let ghost alu_len = self.to_broadcast@.len() as int;
        let mut u: usize = 0;
        while u < N_MULS
            invariant
                self.wf(),
                self.keeps_record(*old(self)),
                keeps_blocked(rob0, lq0, self.load_queue@),
                self.load_queue@.len() >= blocked.len(),
                self.load_queue@.subrange(0, blocked.len() as int) == blocked,
                self.to_broadcast@.len() >= tb1.len(),
                self.to_broadcast@.subrange(0, tb1.len() as int) == tb1,
                self.rob.head == old(self).rob.head,
                u == 0 ==> self.rs_mul == old(self).rs_mul,
                u >= 1 ==> oldest_freed(old(self).rs_mul, old(self).rob, self.rs_mul),
                self.to_broadcast@.len() >= alu_len + (if u >= 1 && has_ready(old(self).rs_mul) { 1int } else { 0 }),
                alu_len >= tb1.len() + (if has_ready(old(self).rs_alu_shift) { 1int } else { 0 }),
                self.rs_mul.vec@.len() == old(self).rs_mul.vec@.len(),
                self.rs_alu_shift == rs_alu_shift_done,
                oldest_freed(old(self).rs_alu_shift, old(self).rob, rs_alu_shift_done),
                self.rs_control == old(self).rs_control,
            decreases N_MULS - u,
        {
            if let Some(x) = self.rs_mul.get_oldest_ready(&self.rob, false) {
                let rs = self.rs_mul.vec[x];
                proof {
                    assert(self.rs_mul.vec@[x as int].tags_ok());
                }
                let ghost set_before = self.rs_mul;
                let ghost tb_prev = self.to_broadcast@;
                self.execute_mul(&rs);
                proof {
                    lemma_prefix_keep(self.to_broadcast@, tb_prev, tb1);
                }
                self.rs_mul.free(x);
                proof {
                    if u == 0 {
                        assert(oldest_ready(old(self).rs_mul, old(self).rob, x as int));
                        assert(!self.rs_mul.vec@[x as int].busy);
                    } else {
                        lemma_free_keeps(old(self).rs_mul, old(self).rob, set_before, self.rs_mul, x as int);
                    }
                }
            }
            u = u + 1;
        }
        let ghost rs_mul_done = self.rs_mul;
        let ghost mul_len = self.to_broadcast@.len() as int;
        let mut u: usize = 0;
        while u < N_CONTROL
            invariant
                self.wf(),
                self.keeps_record(*old(self)),
                keeps_blocked(rob0, lq0, self.load_queue@),
                self.load_queue@.len() >= blocked.len(),
                self.load_queue@.subrange(0, blocked.len() as int) == blocked,
                self.to_broadcast@.len() >= tb1.len(),
                self.to_broadcast@.subrange(0, tb1.len() as int) == tb1,
                self.rob.head == old(self).rob.head,
                u == 0 ==> self.rs_control == old(self).rs_control,
                u >= 1 ==> oldest_freed(old(self).rs_control, old(self).rob, self.rs_control),
                self.rs_control.vec@.len() == old(self).rs_control.vec@.len(),
                self.rs_alu_shift == rs_alu_shift_done,
                oldest_freed(old(self).rs_alu_shift, old(self).rob, rs_alu_shift_done),
                self.rs_mul == rs_mul_done,
                oldest_freed(old(self).rs_mul, old(self).rob, rs_mul_done),
                self.to_broadcast@.len() >= mul_len,
                mul_len >= alu_len + (if has_ready(old(self).rs_mul) { 1int } else { 0 }),
                alu_len >= tb1.len() + (if has_ready(old(self).rs_alu_shift) { 1int } else { 0 }),
            decreases N_CONTROL - u,
        {
            if let Some(x) = self.rs_control.get_oldest_ready(&self.rob, false) {
                let rs = self.rs_control.vec[x];
                proof {
                    assert(self.rs_control.vec@[x as int].tags_ok());
                }
                let ghost set_before = self.rs_control;
                let ghost tb_prev = self.to_broadcast@;
                self.execute_control(&rs);
                proof {
                    lemma_prefix_keep(self.to_broadcast@, tb_prev, tb1);
                }
                self.rs_control.free(x);
                proof {
                    if u == 0 {
                        assert(oldest_ready(old(self).rs_control, old(self).rob, x as int));
                        assert(!self.rs_control.vec@[x as int].busy);
                    } else {
                        lemma_free_keeps(old(self).rs_control, old(self).rob, set_before, self.rs_control, x as int);
                    }
                }
            }
            u = u + 1;
        }
        let ghost rs_control_done = self.rs_control;
        let mut u: usize = 0;
        while u < N_LS_EXECS
            invariant
                self.wf(),
                self.keeps_record(*old(self)),
                keeps_blocked(rob0, lq0, self.load_queue@),
                self.load_queue@.len() >= blocked.len(),
                self.load_queue@.subrange(0, blocked.len() as int) == blocked,
                self.to_broadcast@.len() >= tb1.len(),
                self.to_broadcast@.subrange(0, tb1.len() as int) == tb1,
                self.rs_alu_shift == rs_alu_shift_done,
                oldest_freed(old(self).rs_alu_shift, old(self).rob, rs_alu_shift_done),
                self.rs_mul == rs_mul_done,
                oldest_freed(old(self).rs_mul, old(self).rob, rs_mul_done),
                self.rs_control == rs_control_done,
                oldest_freed(old(self).rs_control, old(self).rob, rs_control_done),
                self.to_broadcast@.len() >= mul_len,
                mul_len >= alu_len + (if has_ready(old(self).rs_mul) { 1int } else { 0 }),
                alu_len >= tb1.len() + (if has_ready(old(self).rs_alu_shift) { 1int } else { 0 }),
            decreases N_LS_EXECS - u,
        {
            let no_loads = self.load_queue.len() >= LQ_SIZE;
            if let Some(x) = self.rs_ls.get_oldest_ready(&self.rob, no_loads) {
                let rs = self.rs_ls.vec[x];
                proof {
                    assert(self.rs_ls.vec@[x as int].tags_ok());
                }
                let ghost lq_before = self.load_queue@;
                let ghost tb_prev = self.to_broadcast@;
                self.execute_load_store(&rs);
                proof {
                    lemma_prefix_keep(self.to_broadcast@, tb_prev, tb1);
                    if is_load(rs.i.it) {
                        assert(self.load_queue@.subrange(0, lq_before.len() as int) =~= lq_before);
                        lemma_prefix_keep(self.load_queue@, lq_before, blocked);
                    }
                    if is_load(rs.i.it) {
                        lemma_keeps_blocked_push(rob0, lq0, lq_before, self.load_queue@.last());
                        assert(self.load_queue@ == lq_before.push(self.load_queue@.last()));
                    }
                }
                self.rs_ls.free(x);
            }
            u = u + 1;
        }
        proof {
            let going = going_loads(old(self).rob, old(self).load_queue@);
            assert(tb1.subrange(0, t0) == old(self).to_broadcast@);
            lemma_prefix_keep(self.to_broadcast@, tb1, old(self).to_broadcast@);
            assert(self.to_broadcast@.subrange(t0, t0 + going.len()) =~= tb1.subrange(t0, tb1.len() as int)) by {
                assert forall|k: int| 0 <= k < going.len() implies self.to_broadcast@.subrange(t0, t0 + going.len())[k]
                    == tb1.subrange(t0, tb1.len() as int)[k] by {
                    assert(self.to_broadcast@.subrange(0, tb1.len() as int)[t0 + k] == tb1[t0 + k]);
                }
            }
            assert(tb1.len() == t0 + going.len());
            assert(load_results(tb1.subrange(t0, tb1.len() as int), going));
            assert(load_results(self.to_broadcast@.subrange(t0, t0 + going.len()), going));
        }
    }

    /// Hands one result from slot `n` for register `rn` to every reservation
    /// station.
    fn notify_stations(&mut self, n: usize, rn: u8, value: u32)
        requires
            old(self).wf(),
        ensures
            final(self).wf(),
            final(self).keeps_record(*old(self)),
            final(self).rob == old(self).rob,
            final(self).cdb == old(self).cdb,
            final(self).to_broadcast == old(self).to_broadcast,
    {
        self.rs_control.receive_cdb_broadcast(n, rn, value);
        self.rs_mul.receive_cdb_broadcast(n, rn, value);
        self.rs_alu_shift.receive_cdb_broadcast(n, rn, value);
        self.rs_ls.receive_cdb_broadcast(n, rn, value);
    }

    /// Writes one result back: the entry takes its value (a store its
    /// address, a branch its target) and flag update and becomes ready;
    /// stations waiting for its register or flags take the values. A result
    /// for a slot emptied by a flush is dropped.
    #[verifier::rlimit(60)]
    pub fn broadcast(&mut self, record: CDBRecord)
        requires
            old(self).wf(),
            record.rob_number < ROB_ENTRIES,
        ensures
            final(self).wf(),
            final(self).keeps_record(*old(self)),
            final(self).cdb == old(self).cdb,
            final(self).to_broadcast == old(self).to_broadcast,
            final(self).rob.head == old(self).rob.head,
            final(self).rob.tail == old(self).rob.tail,
            final(self).rob.in_flight().len() == old(self).rob.in_flight().len(),
            old(self).rob.occupied(record.rob_number as int) ==> final(self).rob.queue@[record.rob_number as int].ready,
            // the result lands in its entry: a branch target, a store address, or a value
            ({
                let n = record.rob_number as int;
                let e = old(self).rob.queue@[n];
                let f = final(self).rob.queue@[n];
                old(self).rob.occupied(n) ==> {
                    &&& record.is_branch_target ==> f.target_address == record.result && f.value == e.value
                    &&& !record.is_branch_target && e.dest == ROBEntryDest::AwaitingAddress ==> f.dest
                        == ROBEntryDest::Address(record.result)
                    &&& !record.is_branch_target && e.dest != ROBEntryDest::AwaitingAddress ==> f.value == record.result
                    &&& f.asprupdate == record.aspr_update
                    &&& f.halt == (e.halt || record.halt)
                }
            }),
            !old(self).rob.occupied(record.rob_number as int) ==> final(self).rob == old(self).rob,
            // no slot changes status, and a ready entry stays ready
            final(self).rob.queue@.len() == old(self).rob.queue@.len(),
            forall|m: int|
                0 <= m < old(self).rob.queue@.len() ==> (#[trigger] final(self).rob.queue@[m]).status == old(
                    self,
                ).rob.queue@[m].status && (old(self).rob.queue@[m].ready ==> final(self).rob.queue@[m].ready),
    {
        let n = record.rob_number;
        if self.rob.queue[n].status == ROBStatus::EMPTY {
            return;
        }
        if record.is_branch_target {
            self.rob.set_target_address(n, record.result);
        } else if self.rob.queue[n].dest == ROBEntryDest::AwaitingAddress {
            self.rob.set_address(n, record.result);
        } else {
            self.rob.set_value(n, record.result);
        }
        self.rob.set_aspr(n, record.aspr_update);
        if record.halt {
            self.rob.set_halt(n);
        }
        self.rob.set_ready(n);
        let e = self.rob.queue[n];
        if let ROBEntryDest::Register(rd, _) = e.dest {
            self.notify_stations(n, rd, e.value);
        }
        if e.i.setsflags {
            if let Some(b) = e.asprupdate.n {
                self.notify_stations(n, 16, if b { 1 } else { 0 });
            }
            if let Some(b) = e.asprupdate.z {
                self.notify_stations(n, 17, if b { 1 } else { 0 });
            }
            if let Some(b) = e.asprupdate.c {
                self.notify_stations(n, 18, if b { 1 } else { 0 });
            }
            if let Some(b) = e.asprupdate.v {
                self.notify_stations(n, 19, if b { 1 } else { 0 });
            }
        }
        proof {
            assert(self.rob.in_flight().len() == self.rob.count());
        }
    }

    /// The writeback stage: every pending result counts down a cycle, those
    /// due join the bus queue, and up to `CDB_WIDTH` of the oldest due are
    /// broadcast.
    pub fn wb(&mut self)
        requires
            old(self).wf(),
        ensures
            final(self).wf(),
            final(self).keeps_record(*old(self)),
            final(self).rob.head == old(self).rob.head,
            final(self).rob.tail == old(self).rob.tail,
            final(self).rob.count() == old(self).rob.count(),
            final(self).to_broadcast@ == counted_down(old(self).to_broadcast@),
            ({
                let queued = old(self).cdb@ + due(old(self).to_broadcast@);
                final(self).cdb@ == queued.skip(if queued.len() < CDB_WIDTH { queued.len() as int } else { CDB_WIDTH as int })
            }),
            // each record sent makes its entry, if still in flight, ready
            ({
                let queued = old(self).cdb@ + due(old(self).to_broadcast@);
                let sent = if queued.len() < CDB_WIDTH { queued.len() as int } else { CDB_WIDTH as int };
                forall|k: int|
                    0 <= k < sent && old(self).rob.occupied(#[trigger] queued[k].rob_number as int)
                        ==> final(self).rob.queue@[queued[k].rob_number as int].ready
            }),
            forall|m: int| 0 <= m < 64 ==> (#[trigger] final(self).rob.queue@[m]).status == old(self).rob.queue@[m].status,
    {
        let mut remaining: Vec<(u8, CDBRecord)> = Vec::new();
        let mut x: usize = 0;
        while x < self.to_broadcast.len()
            invariant
                self.wf(),
                self.keeps_record(*old(self)),
                x <= self.to_broadcast@.len(),
                self.rob == old(self).rob,
                self.to_broadcast == old(self).to_broadcast,
                remaining@ == counted_down(self.to_broadcast@.take(x as int)),
                self.cdb@ == old(self).cdb@ + due(self.to_broadcast@.take(x as int)),
                forall|y: int| 0 <= y < remaining@.len() ==> (#[trigger] remaining@[y]).1.rob_number < ROB_ENTRIES,
            decreases self.to_broadcast@.len() - x,
        {
            let (delay, record) = self.to_broadcast[x];
            proof {
                assert(self.to_broadcast@.take(x + 1).drop_last() =~= self.to_broadcast@.take(x as int));
                assert(self.to_broadcast@[x as int].1.rob_number < ROB_ENTRIES);
            }
            if delay > 1 {
                let ghost prev = remaining@;
                remaining.push((delay - 1, record));
                proof {
                    assert forall|y: int| 0 <= y < remaining@.len() implies (#[trigger] remaining@[y]).1.rob_number
                        < ROB_ENTRIES by {
                        if y < prev.len() {
                            assert(remaining@[y] == prev[y]);
                        }
                    }
                }
            } else {
                let ghost prev = self.cdb@;
                self.cdb.push(CDBRecord { valid: true, ..record });
                proof {
                    assert forall|y: int| 0 <= y < self.cdb@.len() implies (#[trigger] self.cdb@[y]).rob_number
                        < ROB_ENTRIES by {
                        if y < prev.len() {
                            assert(self.cdb@[y] == prev[y]);
                        }
                    }
                    assert(self.cdb@ =~= old(self).cdb@ + due(self.to_broadcast@.take(x + 1)));
                }
            }
            x = x + 1;
        }
        proof {
            assert(self.to_broadcast@.take(x as int) =~= self.to_broadcast@);
        }
        self.to_broadcast = remaining;
        let ghost queued = self.cdb@;
        let mut sent: usize = 0;
        while sent < CDB_WIDTH && self.cdb.len() > 0
            invariant
                self.wf(),
                self.keeps_record(*old(self)),
                sent <= CDB_WIDTH,
                sent <= queued.len(),
                self.cdb@ == queued.skip(sent as int),
                self.rob.queue@.len() == 64,
                forall|m: int| 0 <= m < 64 ==> (#[trigger] self.rob.queue@[m]).status == old(self).rob.queue@[m].status,
                forall|k: int|
                    0 <= k < sent && old(self).rob.occupied(#[trigger] queued[k].rob_number as int) ==> self.rob.queue@[
                        queued[k].rob_number as int].ready,
                forall|j: int| 0 <= j < queued.len() ==> (#[trigger] queued[j]).rob_number < ROB_ENTRIES,
                self.to_broadcast@ == counted_down(old(self).to_broadcast@),
                self.rob.head == old(self).rob.head,
                self.rob.tail == old(self).rob.tail,
                self.rob.count() == old(self).rob.count(),
            decreases CDB_WIDTH - sent,
        {
            let ghost prev = self.cdb@;
            let record = self.cdb.remove(0);
            proof {
                assert forall|y: int| 0 <= y < self.cdb@.len() implies (#[trigger] self.cdb@[y]).rob_number < ROB_ENTRIES by {
                    assert(self.cdb@[y] == prev[y + 1]);
                }
                assert(self.cdb@ =~= queued.skip(sent + 1));
            }
            let ghost before = self.rob;
            proof {
                assert(record == queued[sent as int]);
            }
            self.broadcast(record);
            proof {
                assert forall|k: int|
                    0 <= k < sent + 1 && old(self).rob.occupied(#[trigger] queued[k].rob_number as int) implies self.rob.queue@[
                    queued[k].rob_number as int].ready by {
                    let m = queued[k].rob_number as int;
                    assert(before.queue@[m].status == old(self).rob.queue@[m].status);
                    assert(self.rob.queue@[m].status == before.queue@[m].status);
                }
            }
            sent = sent + 1;
        }
    }

    /// Recovery from a wrong prediction at the head: the instruction queue,
    /// fetch buffer, load queue and pending results are dropped, every entry
    /// after the head leaves the reorder buffer and its reservation station,
    /// and fetch waits `FLUSH_DELAY` cycles.
    pub fn flush_on_mispredict(&mut self)
        requires
            old(self).wf(),
            old(self).rob.count() > 0,
        ensures
            final(self).wf(),
            final(self).rob.count() == 1,
            final(self).rob.in_flight() == old(self).rob.in_flight().take(1),
            final(self).iq@.len() == 0,
            final(self).fb.is_none(),
            final(self).load_queue@.len() == 0,
            final(self).cdb@.len() == 0,
            final(self).to_broadcast@.len() == 0,
            final(self).flushing,
            !final(self).fetch_stall,
            final(self).instructions_committed == old(self).instructions_committed,
            final(self).epoch == old(self).epoch,
            final(self).correct_predicts == old(self).correct_predicts,
            final(self).halt == old(self).halt,
            final(self).spec_pc == old(self).spec_pc,
            final(self).mispredicts == old(self).mispredicts,
            final(self).state == old(self).state,
            final(self).rob.head == old(self).rob.head,
            final(self).commits == old(self).commits,
            final(self).fault == old(self).fault,
            final(self).predict == old(self).predict,
            forall|r: int|
                0 <= r < 20 ==> #[trigger] final(self).rob.register_status@[r] == None::<usize>
                    || final(self).rob.register_status@[r] == Some(old(self).rob.head),
            forall|x: int|
                0 <= x < final(self).rs_alu_shift.vec@.len() && (#[trigger] final(self).rs_alu_shift.vec@[x]).busy
                    ==> !flushed_slot(old(self).rob, final(self).rs_alu_shift.vec@[x].rob_dest),
            forall|x: int|
                0 <= x < final(self).rs_mul.vec@.len() && (#[trigger] final(self).rs_mul.vec@[x]).busy
                    ==> !flushed_slot(old(self).rob, final(self).rs_mul.vec@[x].rob_dest),
            forall|x: int|
                0 <= x < final(self).rs_ls.vec@.len() && (#[trigger] final(self).rs_ls.vec@[x]).busy
                    ==> !flushed_slot(old(self).rob, final(self).rs_ls.vec@[x].rob_dest),
            forall|x: int|
                0 <= x < final(self).rs_control.vec@.len() && (#[trigger] final(self).rs_control.vec@[x]).busy
                    ==> !flushed_slot(old(self).rob, final(self).rs_control.vec@[x].rob_dest),
    {
        self.iq.clear();
        self.fb = None;
        self.flushing = true;
        self.flush_delay = FLUSH_DELAY;
        self.to_broadcast.clear();
        self.load_queue.clear();
        self.fetch_stall = false;
        self.cdb.clear();
        let ghost pre = old(self).rob;
        let flushed = self.rob.flush_on_mispredict();
        let mut k: usize = 0;
        while k < flushed.len()
            invariant
                self.wf(),
                k <= flushed@.len(),
                flushed@ == Seq::new((pre.count() - 1) as nat, |j: int| pre.slot(j + 1) as usize),
                pre.wf(),
                self.rob.count() == 1,
                self.rob.in_flight() == pre.in_flight().take(1),
                self.iq@.len() == 0 && self.fb.is_none() && self.load_queue@.len() == 0 && self.cdb@.len() == 0
                    && self.to_broadcast@.len() == 0 && self.flushing && !self.fetch_stall,
                self.correct_predicts == old(self).correct_predicts,
                self.halt == old(self).halt,
                self.instructions_committed == old(self).instructions_committed,
                self.epoch == old(self).epoch,
                self.spec_pc == old(self).spec_pc,
                self.mispredicts == old(self).mispredicts,
                self.state == old(self).state,
                self.rob.head == pre.head,
                self.commits == old(self).commits,
                self.fault == old(self).fault,
                self.predict == old(self).predict,
                forall|r: int|
                    0 <= r < 20 ==> #[trigger] self.rob.register_status@[r] == None::<usize>
                        || self.rob.register_status@[r] == Some(pre.head),
                forall|x: int, j: int|
                    0 <= x < self.rs_alu_shift.vec@.len() && 0 <= j < k && (#[trigger] self.rs_alu_shift.vec@[x]).busy
                        ==> self.rs_alu_shift.vec@[x].rob_dest != #[trigger] flushed@[j],
                forall|x: int, j: int|
                    0 <= x < self.rs_mul.vec@.len() && 0 <= j < k && (#[trigger] self.rs_mul.vec@[x]).busy
                        ==> self.rs_mul.vec@[x].rob_dest != #[trigger] flushed@[j],
                forall|x: int, j: int|
                    0 <= x < self.rs_ls.vec@.len() && 0 <= j < k && (#[trigger] self.rs_ls.vec@[x]).busy
                        ==> self.rs_ls.vec@[x].rob_dest != #[trigger] flushed@[j],
                forall|x: int, j: int|
                    0 <= x < self.rs_control.vec@.len() && 0 <= j < k && (#[trigger] self.rs_control.vec@[x]).busy
                        ==> self.rs_control.vec@[x].rob_dest != #[trigger] flushed@[j],
            decreases flushed@.len() - k,
        {
            let f = flushed[k];
            self.rs_alu_shift.flush_entries_corresponding_to_rob(f);
            self.rs_control.flush_entries_corresponding_to_rob(f);
            self.rs_ls.flush_entries_corresponding_to_rob(f);
            self.rs_mul.flush_entries_corresponding_to_rob(f);
            k = k + 1;
        }
        proof {
            assert forall|x: int|
                0 <= x < self.rs_alu_shift.vec@.len() && (#[trigger] self.rs_alu_shift.vec@[x]).busy implies !flushed_slot(
                pre,
                self.rs_alu_shift.vec@[x].rob_dest,
            ) by {
                let d = self.rs_alu_shift.vec@[x].rob_dest;
                if flushed_slot(pre, d) {
                    let j = pre.offset(d as int) - 1;
                    assert(flushed@[j] == d);
                }
            }
            assert forall|x: int|
                0 <= x < self.rs_mul.vec@.len() && (#[trigger] self.rs_mul.vec@[x]).busy implies !flushed_slot(
                pre,
                self.rs_mul.vec@[x].rob_dest,
            ) by {
                let d = self.rs_mul.vec@[x].rob_dest;
                if flushed_slot(pre, d) {
                    let j = pre.offset(d as int) - 1;
                    assert(flushed@[j] == d);
                }
            }
            assert forall|x: int|
                0 <= x < self.rs_ls.vec@.len() && (#[trigger] self.rs_ls.vec@[x]).busy implies !flushed_slot(
                pre,
                self.rs_ls.vec@[x].rob_dest,
            ) by {
                let d = self.rs_ls.vec@[x].rob_dest;
                if flushed_slot(pre, d) {
                    let j = pre.offset(d as int) - 1;
                    assert(flushed@[j] == d);
                }
            }
            assert forall|x: int|
                0 <= x < self.rs_control.vec@.len() && (#[trigger] self.rs_control.vec@[x]).busy implies !flushed_slot(
                pre,
                self.rs_control.vec@[x].rob_dest,
            ) by {
                let d = self.rs_control.vec@[x].rob_dest;
                if flushed_slot(pre, d) {
                    let j = pre.offset(d as int) - 1;
                    assert(flushed@[j] == d);
                }
            }
        }
    }

    /// Resolves a committing branch against its prediction; a wrong
    /// prediction, or a register-indirect branch, redirects fetch and
    /// triggers recovery. Returns the address execution continues at.
    fn resolve_branch(&mut self, head: crate::rob::ROBEntry) -> (r: (u32, bool))
        requires
            old(self).wf(),
            old(self).rob.count() > 0,
            head == old(self).rob.in_flight()[0],
        ensures
            final(self).wf(),
            final(self).keeps_record(*old(self)),
            final(self).rob.head == old(self).rob.head,
            final(self).rob.in_flight() == old(self).rob.in_flight() || final(self).rob.in_flight() == old(
                self,
            ).rob.in_flight().take(1),
            final(self).rob.count() > 0,
            final(self).commits == old(self).commits,
            final(self).state == old(self).state,
            final(self).fault == old(self).fault,
            head.i.it == IT::B && head.target_address % 2 == 0 && old(self).predict
                == PredictionAlgorithms::AlwaysTaken && old(self).mispredicts < u32::MAX ==> final(self).mispredicts
                == old(self).mispredicts + 1 && final(self).spec_pc == head.pc && final(self).iq@.len() == 0
                && final(self).fb.is_none() && r.1 && final(self).correct_predicts == old(self).correct_predicts
                && final(self).rob.count() == 1,
            !crate::instr::is_control(head.i.it) ==> r.0 == head.pc && !r.1 && final(self).rob == old(self).rob
                && final(self).correct_predicts
                == old(self).correct_predicts && final(self).mispredicts == old(self).mispredicts && final(self).spec_pc
                == old(self).spec_pc,
            final(self).halt == old(self).halt,
            final(self).instructions_committed == old(self).instructions_committed,
    {
        let predicted_taken = self.predict == PredictionAlgorithms::AlwaysTaken;
        let mut mispredicted = false;
        let mut redirect = false;
        let mut next_pc = head.pc;
        match head.i.it {
            IT::B => {
                if head.target_address % 2 == 1 {
                    next_pc = head.target_address - 1;
                    if !predicted_taken {
                        self.spec_pc = next_pc;
                        mispredicted = true;
                    } else {
                        self.correct_predicts = self.correct_predicts.saturating_add(1);
                    }
                } else {
                    if predicted_taken {
                        self.spec_pc = head.pc;
                        mispredicted = true;
                    } else {
                        self.correct_predicts = self.correct_predicts.saturating_add(1);
                    }
                }
                self.fetch_stall = false;
            },
            IT::BL => {
                next_pc = head.target_address;
                if !predicted_taken {
                    self.spec_pc = next_pc;
                    mispredicted = true;
                } else {
                    self.correct_predicts = self.correct_predicts.saturating_add(1);
                }
            },
            IT::BX | IT::BLX | IT::SetPC => {
                next_pc = head.target_address - head.target_address % 2;
                self.spec_pc = next_pc;
                redirect = true;
            },
            IT::SVC => {
                self.fetch_stall = false;
            },
            _ => {},
        }
        if mispredicted {
            self.mispredicts = self.mispredicts.saturating_add(1);
        }
        if mispredicted || redirect {
            self.flush_on_mispredict();
        }
        (next_pc, mispredicted)
    }

    /// Applies the architectural effect of a committing entry: a store to
    /// memory, a register write, a flag update. False when it failed, with the
    /// fault recorded.
    fn apply_effect(&mut self, head: crate::rob::ROBEntry) -> (ok: bool)
        requires
            old(self).wf(),
        ensures
            final(self).wf(),
            final(self).keeps_record(*old(self)),
            final(self).rob.queue == old(self).rob.queue,
            final(self).rob.head == old(self).rob.head,
            final(self).rob.tail == old(self).rob.tail,
            final(self).commits == old(self).commits,
            final(self).mispredicts == old(self).mispredicts,
            final(self).spec_pc == old(self).spec_pc,
            final(self).iq == old(self).iq,
            final(self).fb == old(self).fb,
            final(self).correct_predicts == old(self).correct_predicts,
            final(self).halt == old(self).halt,
            final(self).instructions_committed == old(self).instructions_committed,
            !ok ==> final(self).fault.is_some(),
            ok == !commit_fails(old(self).state.mem, head),
            ok ==> final(self).fault == old(self).fault,
            ok && head.dest is Register ==> final(self).state.regs.reg(head.dest->Register_0 as int) == head.value,
            ok ==> final(self).rob.register_status@.len() == 20 && forall|r: int|
                0 <= r < 20 ==> #[trigger] final(self).rob.register_status@[r] == if head.i.setsflags && 16 <= r
                    && old(self).rob.register_status@[r] == Some(old(self).rob.head) {
                    None
                } else {
                    old(self).rob.register_status@[r]
                },
    {
        match head.dest {
            ROBEntryDest::Address(addr) => {
                let written = match head.i.it {
                    IT::STRImm | IT::STRReg => self.state.mem.set_word(addr, head.value),
                    IT::STRHImm | IT::STRHReg => self.state.mem.set_halfword(addr, (head.value % 0x1_0000) as u16),
                    IT::STRBImm | IT::STRBReg => self.state.mem.set_byte(addr, (head.value % 0x100) as u8),
                    _ => {
                        self.fault = Some(Fault::Internal);
                        return false;
                    },
                };
                if let Err(e) = written {
                    self.fault = Some(Fault::Memory(e, addr));
                    return false;
                }
            },
            ROBEntryDest::AwaitingAddress => {
                self.fault = Some(Fault::Internal);
                return false;
            },
            ROBEntryDest::Register(rn, _) => {
                if rn >= 16 {
                    self.fault = Some(Fault::Internal);
                    return false;
                }
                self.state.regs.set(rn, head.value);
            },
            ROBEntryDest::Discard => {},
        }
        if head.i.setsflags {
            self.state.regs.apply_aspr_update(&head.asprupdate);
            self.rob.wipe_aspr_rob_dependencies_at_head(&head.asprupdate);
        }
        true
    }

    /// The commit stage for the head of the reorder buffer, once it is ready:
    /// the branch is resolved, the effect applied, and the head retires, in
    /// issue order. A store the memory refuses is fatal.
    pub fn commit(&mut self)
        requires
            old(self).wf(),
        ensures
            final(self).wf(),
            old(self).rob.count() == 0 || !old(self).rob.in_flight()[0].ready ==> final(self).rob.in_flight()
                == old(self).rob.in_flight() && final(self).commits == old(self).commits,
            ({
                let head = old(self).rob.in_flight()[0];
                old(self).rob.count() > 0 && head.ready ==> ({
                    ||| final(self).fault.is_some()
                    ||| (final(self).commits@ == old(self).commits@.push(final(self).commits@.last())
                        && final(self).commits@.last().pc == head.pc && final(self).commits@.last().i == head.i
                        && (final(self).rob.in_flight() == old(self).rob.in_flight().drop_first()
                        || final(self).rob.count() == 0))
                })
            }),
            ({
                let head = old(self).rob.in_flight()[0];
                old(self).rob.count() > 0 && head.ready && head.i.it == IT::B && head.target_address % 2 == 0
                    && old(self).predict == PredictionAlgorithms::AlwaysTaken && old(self).mispredicts < u32::MAX
                    ==> final(self).mispredicts == old(self).mispredicts + 1 && final(self).spec_pc == head.pc
                    && final(self).iq@.len() == 0 && final(self).fb.is_none() && final(self).correct_predicts
                    == old(self).correct_predicts && (!commit_fails(old(self).state.mem, head) ==> final(self).rob.count()
                    == 0 && final(self).fault == old(self).fault)
            }),
            final(self).epoch == old(self).epoch,
            old(self).commits@.len() <= final(self).commits@.len() <= old(self).commits@.len() + 1,
            forall|k: int| 0 <= k < old(self).commits@.len() ==> #[trigger] final(self).commits@[k] == old(self).commits@[k],
            // a ready head whose effect the memory accepts retires, in issue order
            ({
                let head = old(self).rob.in_flight()[0];
                old(self).rob.count() > 0 && head.ready && !commit_fails(old(self).state.mem, head) ==> {
                    &&& final(self).fault == old(self).fault
                    &&& final(self).commits@ == old(self).commits@.push(final(self).commits@.last())
                    &&& final(self).commits@.last().pc == head.pc
                    &&& final(self).commits@.last().i == head.i
                    &&& final(self).commits@.last().value == head.value
                    &&& final(self).instructions_committed == if old(self).instructions_committed < usize::MAX {
                        old(self).instructions_committed + 1
                    } else {
                        old(self).instructions_committed as int
                    }
                    &&& (final(self).rob.in_flight() == old(self).rob.in_flight().drop_first() || final(self).rob.count()
                        == 0)
                    &&& final(self).rob.head == (old(self).rob.head + 1) % 64
                    &&& head.halt ==> final(self).halt == Some(
                        crate::alu::signed(final(self).state.regs.gp[0]) as i32,
                    )
                }
            }),
            // an instruction that is not a branch writes its register, frees the
            // register-status slots naming it (only those), and moves nothing else
            ({
                let head = old(self).rob.in_flight()[0];
                old(self).rob.count() > 0 && head.ready && !commit_fails(old(self).state.mem, head)
                    && !crate::instr::is_control(head.i.it) ==> {
                    &&& (head.dest is Register && head.dest->Register_0 < 15) ==> final(self).state.regs.reg(
                        head.dest->Register_0 as int,
                    ) == head.value
                    // the PC is not a result register: it becomes the address after the instruction
                    &&& final(self).state.regs.pc == head.pc
                    &&& final(self).rob.register_status@ == crate::rob::retired(
                        old(self).rob.register_status@,
                        old(self).rob.head,
                    )
                    &&& final(self).rob.in_flight() == old(self).rob.in_flight().drop_first()
                    &&& final(self).correct_predicts == old(self).correct_predicts
                    &&& final(self).mispredicts == old(self).mispredicts
                    &&& final(self).spec_pc == old(self).spec_pc
                }
            }),
    {
        if self.rob.is_empty() {
            return;
        }
        let head = *self.rob.get_head();
        if !head.ready {
            return;
        }
        let (next_pc, mispredicted) = self.resolve_branch(head);
        let ghost mid = self.rob.in_flight();
        if !self.apply_effect(head) {
            return;
        }
        self.state.regs.pc = next_pc;
        if head.halt {
            self.halt = Some(crate::alu::to_signed(self.state.regs.gp[0]));
        }
        self.commits.push(
            CommitRecord {
                pc: head.pc,
                i: head.i,
                value: head.value,
                target_address: head.target_address,
                mispredicted,
            },
        );
        proof {
            assert(self.rob.in_flight() == mid);
        }
        let ghost wiped = self.rob.register_status@;
        self.rob.clear_head_and_increment();
        proof {
            if !crate::instr::is_control(head.i.it) {
                assert(crate::rob::retired(wiped, old(self).rob.head) =~= crate::rob::retired(
                    old(self).rob.register_status@,
                    old(self).rob.head,
                ));
            }
        }
        if self.instructions_committed < usize::MAX {
            self.instructions_committed = self.instructions_committed + 1;
        }
        proof {
            if mid == old(self).rob.in_flight().take(1) {
                assert(self.rob.count() == 0);
            }
        }
    }

    /// Advances the machine one cycle: commit, writeback, execute, issue,
    /// decode and fetch, each seeing the state the later stages left in the
    /// previous cycle. Nothing happens once the program halted or faulted.
    pub fn tick(&mut self)
        requires
            old(self).wf(),
        ensures
            final(self).wf(),
            old(self).halt.is_some() || old(self).fault.is_some() ==> final(self).rob == old(self).rob
                && final(self).state == old(self).state,
            // a running core advances one cycle and commits at most `N_ISSUE` instructions
            old(self).halt.is_none() && old(self).fault.is_none() ==> final(self).epoch == if old(self).epoch
                < usize::MAX {
                old(self).epoch + 1
            } else {
                old(self).epoch as int
            } && final(self).commits@.len() <= N_ISSUE,
            // a running cycle that is not flushing, not stopped by a full buffer or
            // by a supervisor call in flight, and not stalled at fetch, ends with an
            // instruction in the fetch buffer
            old(self).halt.is_none() && old(self).fault.is_none() && final(self).halt.is_none() && final(self).fault.is_none()
                && !final(self).flushing && final(self).rob.count() < 64 && !final(self).fetch_stall && (final(self).rob.count()
                == 0 || final(self).rob.in_flight().last().i.it != IT::SVC) ==> final(self).fb is Some,
            // a ready head whose effect the memory accepts is the first to retire
            ({
                let head = old(self).rob.in_flight()[0];
                old(self).halt.is_none() && old(self).fault.is_none() && old(self).rob.count() > 0 && head.ready
                    && !commit_fails(old(self).state.mem, head) ==> {
                    &&& final(self).commits@.len() >= 1
                    &&& final(self).commits@[0].pc == head.pc
                    &&& final(self).commits@[0].i == head.i
                    &&& final(self).commits@[0].value == head.value
                    &&& head.halt ==> final(self).halt.is_some() && final(self).commits@.len() == 1
                }
            }),
    {
        self.commits.clear();
        if self.halt.is_some() || self.fault.is_some() {
            return;
        }
        if self.epoch < usize::MAX {
            self.epoch = self.epoch + 1;
        }
        let ghost e1 = self.epoch;
        let ghost first_ok = old(self).rob.count() > 0 && old(self).rob.in_flight()[0].ready && !commit_fails(
            old(self).state.mem,
            old(self).rob.in_flight()[0],
        );
        let ghost head = old(self).rob.in_flight()[0];
        if self.flushing {
            if self.flush_delay > 0 {
                self.flush_delay = self.flush_delay - 1;
            }
            if self.flush_delay == 0 {
                self.flushing = false;
            }
        }
        let mut c: usize = 0;
        while c < N_ISSUE
            invariant
                self.wf(),
                old(self).halt.is_none() && old(self).fault.is_none(),
                c <= N_ISSUE,
                e1 == if old(self).epoch < usize::MAX { old(self).epoch + 1 } else { old(self).epoch as int },
                head == old(self).rob.in_flight()[0],
                first_ok == (old(self).rob.count() > 0 && head.ready && !commit_fails(old(self).state.mem, head)),
                self.epoch == e1,
                self.commits@.len() <= c,
                c == 0 ==> self.commits@.len() == 0 && self.rob == old(self).rob && self.state == old(self).state
                    && self.halt.is_none() && self.fault.is_none(),
                c >= 1 && first_ok ==> self.commits@.len() >= 1 && self.commits@[0].pc == head.pc
                    && self.commits@[0].i == head.i && self.commits@[0].value == head.value && !head.halt,
            decreases N_ISSUE - c,
        {
            self.commit();
            if self.halt.is_some() || self.fault.is_some() {
                return;
            }
            c = c + 1;
        }
        let ghost after_commit = self.commits;
        if self.flushing {
            return;
        }
        self.wb();
        self.execute();
        if self.fault.is_some() {
            return;
        }
        if self.rob.is_full() {
            self.stall(StallReason::FullRob);
            return;
        }
        if let Some(last_issued) = self.rob.get_last_issued() {
            if last_issued.is_serializing() {
                self.stall(StallReason::IStall);
                return;
            }
        }
        let mut c: usize = 0;
        while c < N_ISSUE
            invariant
                self.wf(),
                old(self).halt.is_none() && old(self).fault.is_none(),
                e1 == if old(self).epoch < usize::MAX { old(self).epoch + 1 } else { old(self).epoch as int },
                head == old(self).rob.in_flight()[0],
                first_ok == (old(self).rob.count() > 0 && head.ready && !commit_fails(old(self).state.mem, head)),
                self.commits == after_commit,
                self.epoch == e1,
                after_commit@.len() <= N_ISSUE,
                first_ok ==> after_commit@.len() >= 1 && after_commit@[0].pc == head.pc && after_commit@[0].i
                    == head.i && after_commit@[0].value == head.value && !head.halt,
            decreases N_ISSUE - c,
        {
            self.issue();
            if self.fault.is_some() {
                return;
            }
            c = c + 1;
        }
        self.decode();
        self.fetch();
    }

    /// Clears all pipeline and speculative state; memory and the register
    /// file stay, and fetch resumes at the register file's PC.
    pub fn reset(&mut self)
        requires
            old(self).wf(),
        ensures
            final(self).wf(),
            final(self).rob.count() == 0,
            final(self).iq@.len() == 0,
            final(self).load_queue@.len() == 0,
            final(self).state == old(self).state,
            final(self).spec_pc == old(self).state.regs.pc,
            forall|x: int| 0 <= x < final(self).rs_alu_shift.vec@.len() ==> !(#[trigger] final(self).rs_alu_shift.vec@[x]).busy,
            forall|x: int| 0 <= x < final(self).rs_mul.vec@.len() ==> !(#[trigger] final(self).rs_mul.vec@[x]).busy,
            forall|x: int| 0 <= x < final(self).rs_ls.vec@.len() ==> !(#[trigger] final(self).rs_ls.vec@[x]).busy,
            forall|x: int| 0 <= x < final(self).rs_control.vec@.len() ==> !(#[trigger] final(self).rs_control.vec@[x]).busy,
    {
        self.iq.clear();
        self.fb = None;
        self.flushing = false;
        self.flush_delay = 0;
        self.to_broadcast.clear();
        self.load_queue.clear();
        self.fetch_stall = false;
        self.cdb.clear();
        self.rob.clear();
        self.rs_mul.empty();
        self.rs_alu_shift.empty();
        self.rs_control.empty();
        self.rs_ls.empty();
        self.epoch = 0;
        self.spec_pc = self.state.regs.pc;
    }
}

/// A prefix `p` of `b` is still a prefix of `a`, which extends `b`.
pub proof fn lemma_prefix_keep<A>(a: Seq<A>, b: Seq<A>, p: Seq<A>)
    requires
        p.len() <= b.len() <= a.len(),
        b.subrange(0, p.len() as int) == p,
        a.subrange(0, b.len() as int) == b,
    ensures
        a.subrange(0, p.len() as int) == p,
{
    assert forall|k: int| 0 <= k < p.len() implies a.subrange(0, p.len() as int)[k] == p[k] by {
        assert(a.subrange(0, b.len() as int)[k] == b[k]);
        assert(b.subrange(0, p.len() as int)[k] == p[k]);
    }
    assert(a.subrange(0, p.len() as int) =~= p);
}

/// A load of `lq` that may read is among its going loads.
pub proof fn lemma_going_contains(rob: ROB, lq: Seq<LoadQueueEntry>, x: int)
    requires
        0 <= x < lq.len(),
        load_may_read(rob, lq[x]),
    ensures
        exists|k: int| 0 <= k < going_loads(rob, lq).len() && #[trigger] going_loads(rob, lq)[k] == lq[x],
    decreases lq.len(),
{
    let g = going_loads(rob, lq);
    if x == lq.len() - 1 {
        assert(g == going_loads(rob, lq.drop_last()).push(lq.last()));
        assert(g[g.len() - 1] == lq[x]);
    } else {
        lemma_going_contains(rob, lq.drop_last(), x);
        let g0 = going_loads(rob, lq.drop_last());
        let k = choose|k: int| 0 <= k < g0.len() && #[trigger] g0[k] == lq.drop_last()[x];
        assert(g[k] == g0[k]);
    }
}

/// Whether station `x` of `set` is the oldest ready one (loads included).
pub open spec fn oldest_ready(set: RSSet, rob: ROB, x: int) -> bool {
    &&& 0 <= x < set.vec@.len()
    &&& set.eligible(x, false)
    &&& forall|y: int| 0 <= y < set.vec@.len() && #[trigger] set.eligible(y, false) ==> rob.offset(
        set.vec@[x].rob_dest as int,
    ) <= rob.offset(set.vec@[y].rob_dest as int)
}

pub open spec fn has_ready(set: RSSet) -> bool {
    exists|y: int| 0 <= y < set.vec@.len() && #[trigger] set.eligible(y, false)
}

/// When `set` had a ready station, one of its oldest is free in `after`.
pub open spec fn oldest_freed(set: RSSet, rob: ROB, after: RSSet) -> bool {
    (exists|y: int| 0 <= y < set.vec@.len() && #[trigger] set.eligible(y, false)) ==> exists|x: int|
        oldest_ready(set, rob, x) && !(#[trigger] after.vec@[x]).busy
}

proof fn lemma_free_keeps(set0: RSSet, rob: ROB, pre: RSSet, post: RSSet, x: int)
    requires
        oldest_freed(set0, rob, pre),
        0 <= x < pre.vec@.len(),
        pre.vec@.len() == set0.vec@.len(),
        post.vec@ == pre.vec@.update(x, RS { busy: false, ..pre.vec@[x] }),
    ensures
        oldest_freed(set0, rob, post),
{
    if exists|y: int| 0 <= y < set0.vec@.len() && #[trigger] set0.eligible(y, false) {
        let x0 = choose|x0: int| oldest_ready(set0, rob, x0) && !(#[trigger] pre.vec@[x0]).busy;
        assert(!post.vec@[x0].busy);
    }
}

/// The bytes a load reads.
pub open spec fn load_width(it: IT) -> int {
    if it == IT::LDRBImm || it == IT::LDRBReg || it == IT::LDRSB {
        1
    } else if it == IT::LDRHImm || it == IT::LDRHReg || it == IT::LDRSH {
        2
    } else {
        4
    }
}

/// Whether a load reads outside memory.
pub open spec fn load_fails(mem: Memory, e: LoadQueueEntry) -> bool {
    mem.phys(e.address) + load_width(e.load_type) > mem.memory@.len()
}

/// The loads of `lq` that an older store keeps waiting, in order.
pub open spec fn blocked_loads(rob: ROB, lq: Seq<LoadQueueEntry>) -> Seq<LoadQueueEntry>
    decreases lq.len(),
{
    if lq.len() == 0 {
        Seq::empty()
    } else if load_may_read(rob, lq.last()) {
        blocked_loads(rob, lq.drop_last())
    } else {
        blocked_loads(rob, lq.drop_last()).push(lq.last())
    }
}

/// The loads of `lq` that may read memory, in order.
pub open spec fn going_loads(rob: ROB, lq: Seq<LoadQueueEntry>) -> Seq<LoadQueueEntry>
    decreases lq.len(),
{
    if lq.len() == 0 {
        Seq::empty()
    } else if load_may_read(rob, lq.last()) {
        going_loads(rob, lq.drop_last()).push(lq.last())
    } else {
        going_loads(rob, lq.drop_last())
    }
}

/// The results `tb` holds for `loads`, one per load, each due next cycle.
pub open spec fn load_results(tb: Seq<(u8, CDBRecord)>, loads: Seq<LoadQueueEntry>) -> bool {
    &&& tb.len() == loads.len()
    &&& forall|k: int| 0 <= k < tb.len() ==> (#[trigger] tb[k]).0 == 1 && tb[k].1.rob_number == loads[k].rob_entry
}

/// What fetch recognises of a word from its bits alone: the control-flow
/// kind, and the branch offset modulo 2^32 (0 for BX, BLX and SVC).
pub open spec fn pre_decoded(i: u32) -> Option<(IT, u32)> {
    if (i & 0xF800_D000) == 0xF000_D000 {
        Some((IT::BL, ((crate::decoder::bl_offset(i) + 0x1_0000_0000) % 0x1_0000_0000) as u32))
    } else if i >= 0x10000 {
        None
    } else if (i & 0xF000) == 0xD000 {
        if crate::binary::bit_field(i, 8, 4) == 0b1111 {
            Some((IT::SVC, 0))
        } else {
            Some(
                (
                    IT::B,
                    ((crate::binary::bit_field(i, 0, 7) * 2 - crate::binary::bit_at(i, 7) * 0x100 + 0x1_0000_0000)
                        % 0x1_0000_0000) as u32,
                ),
            )
        }
    } else if (i & 0xF800) == 0xE000 {
        Some(
            (
                IT::B,
                ((crate::binary::bit_field(i, 0, 10) * 2 - crate::binary::bit_at(i, 10) * 0x800 + 0x1_0000_0000)
                    % 0x1_0000_0000) as u32,
            ),
        )
    } else if (i & 0xFF80) == 0x4700 {
        Some((IT::BX, 0))
    } else if (i & 0xFF80) == 0x4780 {
        Some((IT::BLX, 0))
    } else {
        None
    }
}

/// Micro-operations as queued, each with the address after the instruction
/// they came from.
pub open spec fn tagged(mops: Seq<I>, pc: u32) -> Seq<InstructionQueueEntry> {
    Seq::new(mops.len(), |k: int| InstructionQueueEntry { i: mops[k], pc })
}

/// The bytes a committing store writes; 0 for a kind that is not a store.
pub open spec fn store_width(it: IT) -> int {
    if it == IT::STRImm || it == IT::STRReg {
        4
    } else if it == IT::STRHImm || it == IT::STRHReg {
        2
    } else if it == IT::STRBImm || it == IT::STRBReg {
        1
    } else {
        0
    }
}

/// Whether committing `head` fails: a store the memory refuses (read-only or
/// outside memory), a store without its address, or a register beyond r15.
pub open spec fn commit_fails(mem: Memory, head: crate::rob::ROBEntry) -> bool {
    match head.dest {
        ROBEntryDest::Address(a) => store_width(head.i.it) == 0 || mem.read_only(mem.phys(a)) || mem.phys(a)
            + store_width(head.i.it) > mem.memory@.len(),
        ROBEntryDest::AwaitingAddress => true,
        ROBEntryDest::Register(rn, _) => rn >= 16,
        ROBEntryDest::Discard => false,
    }
}

/// The pending results after one cycle: those with more than one cycle
/// left, one cycle nearer, in order.
pub open spec fn counted_down(s: Seq<(u8, CDBRecord)>) -> Seq<(u8, CDBRecord)>
    decreases s.len(),
{
    if s.len() == 0 {
        Seq::empty()
    } else if s.last().0 > 1 {
        counted_down(s.drop_last()).push(((s.last().0 - 1) as u8, s.last().1))
    } else {
        counted_down(s.drop_last())
    }
}

/// The pending results due for the bus this cycle, in order.
pub open spec fn due(s: Seq<(u8, CDBRecord)>) -> Seq<CDBRecord>
    decreases s.len(),
{
    if s.len() == 0 {
        Seq::empty()
    } else if s.last().0 > 1 {
        due(s.drop_last())
    } else {
        due(s.drop_last()).push(CDBRecord { valid: true, ..s.last().1 })
    }
}

/// No store in flight ahead of the load has an unknown address, or one
/// less than 4 bytes from the load's: a store 4 or more bytes away lets it read.
pub open spec fn load_may_read(rob: ROB, e: LoadQueueEntry) -> bool {
    forall|k: int|
        0 <= k < rob.offset(e.rob_entry as int) && k < rob.count() ==> !crate::rob::blocks_load(
            #[trigger] rob.queue@[rob.slot(k)],
            e.address,
        )
}

/// `a` and `b` agree on what decides whether a load may read memory.
pub open spec fn same_store_view(a: ROB, b: ROB) -> bool {
    &&& a.head == b.head
    &&& a.tail == b.tail
    &&& a.queue@.len() == b.queue@.len()
    &&& forall|i: int| 0 <= i < a.queue@.len() ==> (#[trigger] a.queue@[i]).dest == b.queue@[i].dest && a.queue@[i].status
        == b.queue@[i].status
}

pub proof fn lemma_same_store_view(a: ROB, b: ROB, e: LoadQueueEntry)
    requires
        same_store_view(a, b),
        a.wf(),
    ensures
        load_may_read(a, e) == load_may_read(b, e),
{
    assert(a.queue@[a.head as int].status == b.queue@[b.head as int].status);
    assert(a.count() == b.count());
    if load_may_read(a, e) {
        assert forall|k: int| 0 <= k < b.offset(e.rob_entry as int) && k < b.count() implies !crate::rob::blocks_load(
            #[trigger] b.queue@[b.slot(k)],
            e.address,
        ) by {
            assert(0 <= a.slot(k) < 64);
            assert(a.queue@[a.slot(k)].dest == b.queue@[b.slot(k)].dest);
            assert(!crate::rob::blocks_load(a.queue@[a.slot(k)], e.address));
        }
    } else {
        let k = choose|k: int|
            0 <= k < a.offset(e.rob_entry as int) && k < a.count() && crate::rob::blocks_load(
                #[trigger] a.queue@[a.slot(k)],
                e.address,
            );
        assert(0 <= a.slot(k) < 64);
        assert(a.queue@[a.slot(k)].dest == b.queue@[b.slot(k)].dest);
        assert(crate::rob::blocks_load(b.queue@[b.slot(k)], e.address));
    }
}

/// Every load of `lq0` that `rob` blocks is still in `lq`.
pub open spec fn keeps_blocked(rob: ROB, lq0: Seq<LoadQueueEntry>, lq: Seq<LoadQueueEntry>) -> bool {
    forall|k: int| 0 <= k < lq0.len() && !load_may_read(rob, lq0[k]) ==> lq.contains(#[trigger] lq0[k])
}

proof fn lemma_keeps_blocked_push(rob: ROB, lq0: Seq<LoadQueueEntry>, lq: Seq<LoadQueueEntry>, x: LoadQueueEntry)
    requires
        keeps_blocked(rob, lq0, lq),
    ensures
        keeps_blocked(rob, lq0, lq.push(x)),
{
    assert forall|k: int| 0 <= k < lq0.len() && !load_may_read(rob, lq0[k]) implies lq.push(x).contains(
        #[trigger] lq0[k],
    ) by {
        let j = choose|j: int| 0 <= j < lq.len() && lq[j] == lq0[k];
        assert(lq.push(x)[j] == lq[j]);
    }
}

/// Whether slot `d` held an entry younger than the head of `rob`: the
/// entries a flush discards.
pub open spec fn flushed_slot(rob: ROB, d: usize) -> bool {
    d < ROB_ENTRIES && 1 <= rob.offset(d as int) < rob.count()
}

/// The value of an operand that is ready; 0 for an unused one.
pub open spec fn get_data_spec(x: RSData) -> u32 {
    match x {
        RSData::Data(n) => n,
        _ => 0,
    }
}

pub fn get_data(x: RSData) -> (r: u32)
    ensures
        r == get_data_spec(x),
{
    match x {
        RSData::Data(n) => n,
        _ => 0,
    }
}

/// The flags of `a + b + c` in 32 bits: N, Z, the carry out and the signed
/// overflow.
pub open spec fn add_flags(a: u32, b: u32, c: int) -> ASPRUpdate {
    let s = a + b + c;
    ASPRUpdate {
        n: Some(s % 0x1_0000_0000 >= 0x8000_0000),
        z: Some(s % 0x1_0000_0000 == 0),
        c: Some(s >= 0x1_0000_0000),
        v: Some(!(-0x8000_0000 <= crate::alu::signed(a) + crate::alu::signed(b) + c < 0x8000_0000)),
    }
}

/// A flag update restricted to the flags `it` writes, and to none unless it
/// sets flags.
pub open spec fn masked_spec(u: ASPRUpdate, it: IT, setsflags: bool) -> ASPRUpdate {
    let (n, z, c, v) = crate::rob::flags_written(it);
    if !setsflags {
        ASPRUpdate { n: None, z: None, c: None, v: None }
    } else {
        ASPRUpdate {
            n: if n { u.n } else { None },
            z: if z { u.z } else { None },
            c: if c { u.c } else { None },
            v: if v { u.v } else { None },
        }
    }
}

/// See `masked_spec`.
pub fn masked(u: ASPRUpdate, it: IT, setsflags: bool) -> (r: ASPRUpdate)
    ensures
        r == masked_spec(u, it, setsflags),
        !setsflags ==> r == (ASPRUpdate { n: None, z: None, c: None, v: None }),
        setsflags ==> {
            let (n, z, c, v) = crate::rob::flags_written(it);
            r == ASPRUpdate {
                n: if n { u.n } else { None },
                z: if z { u.z } else { None },
                c: if c { u.c } else { None },
                v: if v { u.v } else { None },
            }
        },
{
    if !setsflags {
        return ASPRUpdate::no_update();
    }
    let (n, z, c, v) = flag_set(it);
    ASPRUpdate {
        n: if n { u.n } else { None },
        z: if z { u.z } else { None },
        c: if c { u.c } else { None },
        v: if v { u.v } else { None },
    }
}

/// A shift's result with N and Z set from it.
pub fn with_nz(r: CalcResult) -> (out: CalcResult)
    ensures
        out == (CalcResult {
            aspr_update: ASPRUpdate { n: Some(r.result >= 0x8000_0000), z: Some(r.result == 0), ..r.aspr_update },
            ..r
        }),
{
    CalcResult {
        aspr_update: ASPRUpdate { n: Some(r.result >= 0x8000_0000), z: Some(r.result == 0), ..r.aspr_update },
        ..r
    }
}

/// Whether condition `cond` holds. The operands are the flags the condition
/// reads, in the order the reservation station holds them: EQ/NE read Z;
/// CS/CC read C; MI/PL read N; VS/VC read V; HI/LS read Z, C; GE/LT read
/// N, V; GT/LE read N, Z, V.
pub open spec fn condition_spec(cond: u8, j: bool, k: bool, l: bool) -> bool {
    if cond == 0 || cond == 2 || cond == 4 || cond == 6 {
        j
    } else if cond == 1 || cond == 3 || cond == 5 || cond == 7 {
        !j
    } else if cond == 8 {
        k && !j
    } else if cond == 9 {
        !(k && !j)
    } else if cond == 10 {
        j == k
    } else if cond == 11 {
        j != k
    } else if cond == 12 {
        !k && j == l
    } else if cond == 13 {
        !(!k && j == l)
    } else {
        cond == 14
    }
}

pub fn condition_holds(cond: u8, j: bool, k: bool, l: bool) -> (r: bool)
    ensures
        r == condition_spec(cond, j, k, l),
{
    match cond {
        0 | 2 | 4 | 6 => j,
        1 | 3 | 5 | 7 => !j,
        8 => k && !j,
        9 => !(k && !j),
        10 => j == k,
        11 => j != k,
        12 => !k && j == l,
        13 => !(!k && j == l),
        14 => true,
        _ => false,
    }
}

/// The decimal digits of `v`, in ASCII.
pub open spec fn decimal(v: nat) -> Seq<u8>
    decreases v,
{
    if v < 10 {
        seq![(48 + v) as u8]
    } else {
        decimal(v / 10).push((48 + v % 10) as u8)
    }
}

/// Appends the decimal digits of `v`.
pub fn push_decimal(out: &mut Vec<u8>, v: u32)
    ensures
        final(out)@ == old(out)@ + decimal(v as nat),
    decreases v,
{
    if v >= 10 {
        push_decimal(out, v / 10);
    }
    out.push(48 + (v % 10) as u8);
    proof {
        assert(final(out)@ =~= old(out)@ + decimal(v as nat));
    }
}

/// A signed offset as the word that adds it modulo 2^32.
pub fn to_unsigned(x: i32) -> (r: u32)
    ensures
        r as int == (x + 0x1_0000_0000) % 0x1_0000_0000,
{
    if x >= 0 {
        x as u32
    } else {
        (x as i64 + 0x1_0000_0000) as u32
    }
}

} // verus!
