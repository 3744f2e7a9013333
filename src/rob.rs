use crate::instr::{is_load, is_store, I, IT};
use crate::registers::ASPRUpdate;
use vstd::prelude::*;

verus! {

/// Number of slots of the reorder buffer.
pub const ROB_ENTRIES: usize = 64;

#[derive(Copy, Clone, PartialEq, Eq, Debug, Structural)]
pub enum ROBStatus {
    EMPTY,
    Pending,
    Execute,
    Commit,
    Write,
    /// The instruction raised an exception with this code.
    Exception(u8),
}

/// Where the result of an entry goes at commit.
#[derive(Copy, Clone, PartialEq, Eq, Debug, Structural)]
pub enum ROBEntryDest {
    Discard,
    /// A store whose address is not computed yet.
    AwaitingAddress,
    /// A store to this address.
    Address(u32),
    /// A register, and whether the flags are updated too.
    Register(u8, bool),
}

#[derive(Copy, Clone, PartialEq, Eq, Debug, Structural)]
pub struct ROBEntry {
    pub pc: u32,
    pub halt: bool,
    pub i: I,
    pub status: ROBStatus,
    pub value: u32,
    pub target_address: u32,
    pub asprupdate: ASPRUpdate,
    pub ready: bool,
    pub dest: ROBEntryDest,
}

/// A load whose address is computed, waiting for the stores ahead of it.
#[derive(Clone, Copy, PartialEq, Eq, Debug, Structural)]
pub struct LoadQueueEntry {
    pub address: u32,
    pub rob_entry: usize,
    pub load_type: IT,
}

pub open spec fn empty_entry() -> ROBEntry {
    ROBEntry {
        pc: 0,
        value: 0,
        target_address: 0,
        halt: false,
        status: ROBStatus::EMPTY,
        dest: ROBEntryDest::Discard,
        i: crate::instr::blank(IT::UNDEFINED),
        asprupdate: ASPRUpdate { n: None, z: None, c: None, v: None },
        ready: false,
    }
}

impl ROBEntry {
    pub fn new() -> (r: ROBEntry)
        ensures
            r == empty_entry(),
    {
        ROBEntry {
            pc: 0,
            value: 0,
            target_address: 0,
            halt: false,
            status: ROBStatus::EMPTY,
            dest: ROBEntryDest::Discard,
            i: I::undefined(),
            asprupdate: ASPRUpdate::no_update(),
            ready: false,
        }
    }

    pub fn is_serializing(&self) -> (r: bool)
        ensures
            r == (self.i.it == IT::SVC),
    {
        self.i.it.is_serializing()
    }
}

/// Instructions that write `rd` (and the flags when they set flags).
pub open spec fn writes_rd(it: IT) -> bool {
    matches!(it,
        IT::ADC | IT::ADDImm | IT::ADDReg | IT::ADDSpImm | IT::AND | IT::BIC | IT::EOR | IT::MOVImm
        | IT::MOVReg | IT::MVN | IT::ORR | IT::REVSH | IT::REV16 | IT::REV | IT::RSB | IT::SBC
        | IT::ROR | IT::SUBImm | IT::SUBReg | IT::SXTB | IT::SXTH | IT::UXTB | IT::UXTH | IT::MUL
        | IT::LSLImm | IT::LSLReg | IT::LSRReg | IT::LSRImm | IT::ASRReg | IT::ASRImm)
}

/// The destination an issued instruction gets.
pub open spec fn dest_of(i: I) -> ROBEntryDest {
    if writes_rd(i.it) {
        ROBEntryDest::Register(i.rd, i.setsflags)
    } else if i.it == IT::BL || i.it == IT::BLX {
        ROBEntryDest::Register(14, i.setsflags)
    } else if is_store(i.it) {
        ROBEntryDest::AwaitingAddress
    } else if is_load(i.it) {
        ROBEntryDest::Register(i.rt, false)
    } else {
        ROBEntryDest::Discard
    }
}

/// Which of N, Z, C, V an instruction that sets flags writes.
pub open spec fn flags_written(it: IT) -> (bool, bool, bool, bool) {
    if matches!(it, IT::ADC | IT::ADDImm | IT::ADDReg | IT::CMN | IT::CMPReg | IT::CMPImm | IT::SUBImm | IT::SUBReg | IT::RSB | IT::SBC) {
        (true, true, true, true)
    } else if matches!(it, IT::ASRImm | IT::ASRReg | IT::LSLReg | IT::LSLImm | IT::LSRImm | IT::LSRReg | IT::ROR) {
        (true, true, true, false)
    } else if matches!(it, IT::AND | IT::TST | IT::BIC | IT::MOVImm | IT::MOVReg | IT::MUL | IT::MVN | IT::EOR | IT::ORR) {
        (true, true, false, false)
    } else {
        (false, false, false, false)
    }
}

/// Whether an issued `i` becomes the pending producer of register-status slot `r`.
pub open spec fn produces(i: I, r: int) -> bool {
    let (n, z, c, v) = flags_written(i.it);
    ||| (dest_of(i) matches ROBEntryDest::Register(rd, _) && r == rd)
    ||| (i.setsflags && ((r == 16 && n) || (r == 17 && z) || (r == 18 && c) || (r == 19 && v)))
}

/// The register-status table after issuing `i` into slot `slot`.
pub open spec fn renamed(rs: Seq<Option<usize>>, i: I, slot: usize) -> Seq<Option<usize>> {
    Seq::new(rs.len(), |r: int| if produces(i, r) { Some(slot) } else { rs[r] })
}

/// The register-status table after producer `p` retires: exactly the slots
/// naming `p` become free.
pub open spec fn retired(rs: Seq<Option<usize>>, p: usize) -> Seq<Option<usize>> {
    Seq::new(rs.len(), |r: int| if rs[r] == Some(p) { None } else { rs[r] })
}

/// Whether a store entry keeps a load from `addr` waiting.
pub open spec fn blocks_load(e: ROBEntry, addr: u32) -> bool {
    match e.dest {
        ROBEntryDest::AwaitingAddress => true,
        ROBEntryDest::Address(a) => (if a >= addr { a - addr } else { addr - a }) < 4,
        _ => false,
    }
}

/// Whether an instruction can be given a reorder-buffer slot.
pub open spec fn can_enter(i: I) -> bool {
    &&& crate::instr::issue_class(i.it).is_some()
    &&& i.rd < 16
    &&& i.rt < 16
}

/// The reorder buffer: a circular buffer of `ROB_ENTRIES` slots, oldest at
/// `head`, next free at `tail`, with the register-status (renaming) table.
pub struct ROB {
    pub queue: Vec<ROBEntry>,
    pub head: usize,
    pub tail: usize,
    /// For each of r0-r15 and N, Z, C, V: the slot that produces its next
    /// value, or `None` when the register file holds it.
    pub register_status: Vec<Option<usize>>,
    /// An entry staged by `issue_receive`, entered by `issue_commit`.
    pub will_issue: ROBEntry,
    /// The register-status table as it becomes at `issue_commit`.
    pub temp_register_status: Vec<Option<usize>>,
}

impl ROB {
    /// Position of slot `i` counted from the head.
    pub open spec fn offset(self, i: int) -> int {
        if i >= self.head {
            i - self.head
        } else {
            i + 64 - self.head
        }
    }

    /// The slot at position `k` counted from the head.
    pub open spec fn slot(self, k: int) -> int {
        if self.head + k < 64 {
            self.head + k
        } else {
            self.head + k - 64
        }
    }

    pub open spec fn occupied(self, i: int) -> bool {
        self.queue@[i].status != ROBStatus::EMPTY
    }

    /// The number of entries in flight.
    pub open spec fn count(self) -> int {
        if self.head == self.tail {
            if self.occupied(self.head as int) {
                64
            } else {
                0
            }
        } else {
            self.offset(self.tail as int)
        }
    }

    /// The entries in flight, oldest first.
    pub open spec fn in_flight(self) -> Seq<ROBEntry> {
        Seq::new(self.count() as nat, |k: int| self.queue@[self.slot(k)])
    }

    pub open spec fn producer_ok(self, p: Option<usize>) -> bool {
        match p {
            Some(n) => n < 64 && self.occupied(n as int),
            None => true,
        }
    }

    /// The buffer's invariant: the occupied slots are exactly the circular
    /// range of `count()` slots from the head; an empty slot is never ready;
    /// every pending producer named by the register-status table is in flight.
    pub open spec fn wf(self) -> bool {
        &&& self.queue@.len() == ROB_ENTRIES
        &&& self.head < ROB_ENTRIES
        &&& self.tail < ROB_ENTRIES
        &&& self.register_status@.len() == 20
        &&& self.temp_register_status@.len() == 20
        &&& forall|i: int| 0 <= i < 64 ==> (#[trigger] self.occupied(i) <==> self.offset(i) < self.count())
        &&& forall|i: int| 0 <= i < 64 && !self.occupied(i) ==> !(#[trigger] self.queue@[i]).ready
        &&& forall|r: int| 0 <= r < 20 ==> self.producer_ok(#[trigger] self.register_status@[r])
    }

    /// An entry is staged for `issue_commit` at the current tail.
    pub open spec fn staged(self) -> bool {
        &&& self.will_issue.status != ROBStatus::EMPTY
        &&& !self.will_issue.ready
        &&& forall|r: int|
            0 <= r < 20 ==> (#[trigger] self.temp_register_status@[r] == Some(self.tail)
                || self.producer_ok(self.temp_register_status@[r]))
    }

    pub fn new() -> (r: ROB)
        ensures
            r.wf(),
            r.count() == 0,
            r.head == 0,
            forall|k: int| 0 <= k < 20 ==> #[trigger] r.register_status@[k] == None::<usize>,
    {
        let mut queue: Vec<ROBEntry> = Vec::new();
        let mut n: usize = 0;
        while n < ROB_ENTRIES
            invariant
                n <= ROB_ENTRIES,
                queue@.len() == n,
                forall|i: int| 0 <= i < n ==> #[trigger] queue@[i] == empty_entry(),
            decreases ROB_ENTRIES - n,
        {
            queue.push(ROBEntry::new());
            n = n + 1;
        }
        let mut register_status: Vec<Option<usize>> = Vec::new();
        let mut temp_register_status: Vec<Option<usize>> = Vec::new();
        let mut r: usize = 0;
        while r < 20
            invariant
                r <= 20,
                register_status@.len() == r,
                temp_register_status@.len() == r,
                forall|k: int| 0 <= k < r ==> #[trigger] register_status@[k] == None::<usize>,
            decreases 20 - r,
        {
            register_status.push(None);
            temp_register_status.push(None);
            r = r + 1;
        }
        ROB { queue, head: 0, tail: 0, register_status, will_issue: ROBEntry::new(), temp_register_status }
    }

    /// Whether `e1` was issued before `e2`, counting from the head.
    pub fn entry_is_before(&self, e1: usize, e2: usize) -> (r: bool)
        requires
            self.head < ROB_ENTRIES,
            e1 < ROB_ENTRIES,
            e2 < ROB_ENTRIES,
        ensures
            r == (self.offset(e1 as int) < self.offset(e2 as int)),
    {
        let e1s: usize = if e1 >= self.head { e1 - self.head } else { e1 + ROB_ENTRIES - self.head };
        let e2s: usize = if e2 >= self.head { e2 - self.head } else { e2 + ROB_ENTRIES - self.head };
        e1s < e2s
    }

    /// The slot after `index`, wrapping.
    pub fn increment_index(index: usize) -> (r: usize)
        requires
            index < ROB_ENTRIES,
        ensures
            r == if index + 1 < 64 { index + 1 } else { 0 },
    {
        (index + 1) % ROB_ENTRIES
    }

    /// The slot before `index`, wrapping.
    pub fn decrement_index(index: usize) -> (r: usize)
        requires
            index < ROB_ENTRIES,
        ensures
            r == if index == 0 { 63 } else { index - 1 },
    {
        if index == 0 {
            ROB_ENTRIES - 1
        } else {
            index - 1
        }
    }

    pub fn is_full(&self) -> (r: bool)
        requires
            self.wf(),
        ensures
            r == (self.count() == 64),
    {
        self.head == self.tail && self.queue[self.head].status != ROBStatus::EMPTY
    }

    pub fn is_empty(&self) -> (r: bool)
        requires
            self.wf(),
        ensures
            r == (self.count() == 0),
    {
        self.head == self.tail && !self.is_full()
    }

    pub fn get(&self, n: usize) -> (r: &ROBEntry)
        requires
            n < self.queue@.len(),
        ensures
            *r == self.queue@[n as int],
    {
        &self.queue[n]
    }

    pub fn get_head(&self) -> (r: &ROBEntry)
        requires
            self.wf(),
        ensures
            *r == self.queue@[self.head as int],
            self.count() > 0 ==> *r == self.in_flight()[0],
    {
        &self.queue[self.head]
    }

    /// The youngest entry in flight, if any.
    pub fn get_last_issued(&self) -> (r: Option<ROBEntry>)
        requires
            self.wf(),
        ensures
            self.count() == 0 ==> r.is_none(),
            self.count() > 0 ==> r == Some(self.in_flight()[self.count() - 1]),
    {
        let last = Self::decrement_index(self.tail);
        let e = self.queue[last];
        proof {
            assert(self.occupied(last as int) <==> self.offset(last as int) < self.count());
            if self.count() > 0 {
                assert(self.slot(self.count() - 1) == last);
                assert(self.in_flight()[self.count() - 1] == self.queue@[last as int]);
            }
        }
        if e.status == ROBStatus::EMPTY {
            None
        } else {
            Some(e)
        }
    }

    /// Everything but the slots themselves is as in `other`.
    pub open spec fn same_but_queue(self, other: ROB) -> bool {
        &&& self.head == other.head
        &&& self.tail == other.tail
        &&& self.register_status == other.register_status
        &&& self.will_issue == other.will_issue
        &&& self.temp_register_status == other.temp_register_status
    }

    /// Clears the flag slots (16 to 19) of the register-status table that
    /// name the head as their producer; slots naming any other entry stay.
    pub fn wipe_aspr_rob_dependencies_at_head(&mut self, asprupdate: &ASPRUpdate)
        requires
            old(self).wf(),
        ensures
            final(self).wf(),
            final(self).queue == old(self).queue,
            final(self).head == old(self).head,
            final(self).tail == old(self).tail,
            final(self).will_issue == old(self).will_issue,
            final(self).temp_register_status == old(self).temp_register_status,
            final(self).register_status@.len() == 20,
            forall|r: int|
                0 <= r < 20 ==> #[trigger] final(self).register_status@[r] == if 16 <= r && old(
                    self,
                ).register_status@[r] == Some(old(self).head) {
                    None
                } else {
                    old(self).register_status@[r]
                },
    {
        let mut r: usize = 16;
        while r < 20
            invariant
                16 <= r <= 20,
                old(self).wf(),
                self.register_status@.len() == 20,
                self.queue == old(self).queue,
                self.head == old(self).head,
                self.tail == old(self).tail,
                self.will_issue == old(self).will_issue,
                self.temp_register_status == old(self).temp_register_status,
                forall|k: int|
                    0 <= k < 20 ==> #[trigger] self.register_status@[k] == if 16 <= k < r
                        && old(self).register_status@[k] == Some(old(self).head) {
                        None
                    } else {
                        old(self).register_status@[k]
                    },
            decreases 20 - r,
        {
            if self.register_status[r] == Some(self.head) {
                self.register_status.set(r, None);
            }
            r = r + 1;
        }
        proof {
            assert forall|x: int| 0 <= x < 20 implies self.producer_ok(#[trigger] self.register_status@[x]) by {
                assert(old(self).producer_ok(old(self).register_status@[x]));
            }
            assert forall|i: int| 0 <= i < 64 implies (#[trigger] self.occupied(i) <==> self.offset(i) < self.count()) by {
                assert(old(self).occupied(i) <==> old(self).offset(i) < old(self).count());
            }
            assert forall|i: int| 0 <= i < 64 && !self.occupied(i) implies !(#[trigger] self.queue@[i]).ready by {
                assert(old(self).occupied(i) <==> old(self).offset(i) < old(self).count());
            }
        }
    }

    /// Retires the head: its slot becomes empty, the head moves on, and the
    /// register-status slots that name it (and only those) are cleared.
    pub fn clear_head_and_increment(&mut self)
        requires
            old(self).wf(),
            old(self).count() > 0,
        ensures
            final(self).wf(),
            final(self).in_flight() == old(self).in_flight().drop_first(),
            final(self).count() == old(self).count() - 1,
            final(self).head == if old(self).head + 1 < 64 { old(self).head + 1 } else { 0 },
            final(self).tail == old(self).tail,
            final(self).register_status@ == retired(old(self).register_status@, old(self).head),
            final(self).queue@ == old(self).queue@.update(
                old(self).head as int,
                ROBEntry { status: ROBStatus::EMPTY, ready: false, ..old(self).queue@[old(self).head as int] },
            ),
            final(self).will_issue == old(self).will_issue,
            final(self).temp_register_status == old(self).temp_register_status,
    {
        let ghost pre = *self;
        let h = self.head;
        let mut r: usize = 0;
        while r < 20
            invariant
                r <= 20,
                self.queue == pre.queue,
                self.head == h,
                self.tail == pre.tail,
                self.will_issue == pre.will_issue,
                self.temp_register_status == pre.temp_register_status,
                self.register_status@.len() == 20,
                forall|k: int|
                    0 <= k < 20 ==> #[trigger] self.register_status@[k] == if k < r && pre.register_status@[k]
                        == Some(h) {
                        None
                    } else {
                        pre.register_status@[k]
                    },
            decreases 20 - r,
        {
            if self.register_status[r] == Some(h) {
                self.register_status.set(r, None);
            }
            r = r + 1;
        }
        let mut e = self.queue[h];
        e.status = ROBStatus::EMPTY;
        e.ready = false;
        self.queue.set(h, e);
        self.head = Self::increment_index(h);
        proof {
            assert(pre.occupied(h as int) <==> pre.offset(h as int) < pre.count());
            let nh = self.head as int;
            let t = self.tail as int;
            assert(pre.occupied(nh) <==> pre.offset(nh) < pre.count());
            assert(pre.occupied(t) <==> pre.offset(t) < pre.count());
            assert(self.queue@[nh] == if nh == h { e } else { pre.queue@[nh] });
            if nh == t {
                assert(self.count() == pre.count() - 1);
            } else {
                assert(self.count() == pre.count() - 1);
            }
            assert forall|i: int| 0 <= i < 64 implies (#[trigger] self.occupied(i) <==> self.offset(i) < self.count()) by {
                assert(pre.occupied(i) <==> pre.offset(i) < pre.count());
                assert(self.queue@[i] == if i == h { e } else { pre.queue@[i] });
            }
            assert forall|i: int| 0 <= i < 64 && !self.occupied(i) implies !(#[trigger] self.queue@[i]).ready by {
                assert(pre.occupied(i) <==> pre.offset(i) < pre.count());
                assert(self.queue@[i] == if i == h { e } else { pre.queue@[i] });
            }
            assert forall|r: int| 0 <= r < 20 implies self.producer_ok(#[trigger] self.register_status@[r]) by {
                assert(pre.producer_ok(pre.register_status@[r]));
            }
            assert(self.in_flight() =~= pre.in_flight().drop_first());
            assert(self.register_status@ =~= retired(pre.register_status@, h));
        }
    }

    /// Discards every entry after the head: their slots become empty, the
    /// tail moves to just after the head, and the register-status slots that
    /// name a discarded entry are cleared. Returns the discarded slots, oldest
    /// first.
    pub fn flush_on_mispredict(&mut self) -> (r: Vec<usize>)
        requires
            old(self).wf(),
            old(self).count() > 0,
        ensures
            final(self).wf(),
            final(self).count() == 1,
            final(self).in_flight() == old(self).in_flight().take(1),
            final(self).head == old(self).head,
            final(self).will_issue == old(self).will_issue,
            r@ == Seq::new((old(self).count() - 1) as nat, |k: int| old(self).slot(k + 1) as usize),
            final(self).register_status@.len() == 20,
            forall|x: int|
                0 <= x < 20 ==> #[trigger] final(self).register_status@[x] == match old(self).register_status@[x] {
                    Some(p) => if p == old(self).head { Some(p) } else { None },
                    None => None,
                },
    {
        let ghost pre = *self;
        let h = self.head;
        let n: usize = if self.is_full() {
            ROB_ENTRIES
        } else if self.tail >= h {
            self.tail - h
        } else {
            self.tail + ROB_ENTRIES - h
        };
        let mut flushed: Vec<usize> = Vec::new();
        let mut k: usize = 1;
        while k < n
            invariant
                1 <= k <= n,
                n == pre.count(),
                1 <= n <= 64,
                pre.wf(),
                h == pre.head,
                self.head == h,
                self.tail == pre.tail,
                self.register_status == pre.register_status,
                self.will_issue == pre.will_issue,
                self.temp_register_status == pre.temp_register_status,
                self.queue@.len() == 64,
                flushed@ == Seq::new((k - 1) as nat, |j: int| pre.slot(j + 1) as usize),
                forall|i: int|
                    0 <= i < 64 ==> #[trigger] self.queue@[i] == if 1 <= pre.offset(i) < k {
                        ROBEntry { status: ROBStatus::EMPTY, ready: false, ..pre.queue@[i] }
                    } else {
                        pre.queue@[i]
                    },
            decreases n - k,
        {
            let idx = if h + k < ROB_ENTRIES { h + k } else { h + k - ROB_ENTRIES };
            let mut e = self.queue[idx];
            e.status = ROBStatus::EMPTY;
            e.ready = false;
            self.queue.set(idx, e);
            flushed.push(idx);
            proof {
                assert(pre.offset(idx as int) == k);
                assert(flushed@ =~= Seq::new(k as nat, |j: int| pre.slot(j + 1) as usize));
            }
            k = k + 1;
        }
        let ghost q = self.queue@;
        let mut r: usize = 0;
        while r < 20
            invariant
                r <= 20,
                self.queue@ == q,
                self.tail == pre.tail,
                self.will_issue == pre.will_issue,
                self.temp_register_status == pre.temp_register_status,
                self.head == h,
                h == pre.head,
                self.register_status@.len() == 20,
                forall|x: int|
                    0 <= x < 20 ==> #[trigger] self.register_status@[x] == if x < r {
                        match pre.register_status@[x] {
                            Some(p) => if p == h { Some(p) } else { None },
                            None => None,
                        }
                    } else {
                        pre.register_status@[x]
                    },
            decreases 20 - r,
        {
            if let Some(p) = self.register_status[r] {
                if p != h {
                    self.register_status.set(r, None);
                }
            }
            r = r + 1;
        }
        self.tail = Self::increment_index(h);
        proof {
            assert(pre.occupied(h as int) <==> pre.offset(h as int) < pre.count());
            assert(self.queue@[h as int] == pre.queue@[h as int]);
            assert(self.occupied(h as int));
            assert(self.count() == 1);
            assert forall|i: int| 0 <= i < 64 implies (#[trigger] self.occupied(i) <==> self.offset(i) < self.count()) by {
                assert(pre.occupied(i) <==> pre.offset(i) < pre.count());
                assert(self.queue@[i] == if 1 <= pre.offset(i) < n {
                    ROBEntry { status: ROBStatus::EMPTY, ready: false, ..pre.queue@[i] }
                } else {
                    pre.queue@[i]
                });
            }
            assert forall|i: int| 0 <= i < 64 && !self.occupied(i) implies !(#[trigger] self.queue@[i]).ready by {
                assert(pre.occupied(i) <==> pre.offset(i) < pre.count());
                assert(self.queue@[i] == if 1 <= pre.offset(i) < n {
                    ROBEntry { status: ROBStatus::EMPTY, ready: false, ..pre.queue@[i] }
                } else {
                    pre.queue@[i]
                });
                assert(!pre.occupied(i) ==> !pre.queue@[i].ready);
            }
            assert forall|x: int| 0 <= x < 20 implies self.producer_ok(#[trigger] self.register_status@[x]) by {
                assert(pre.producer_ok(pre.register_status@[x]));
            }
            assert(self.in_flight() =~= pre.in_flight().take(1));
        }
        flushed
    }

    /// Whether a queued load may read memory: no store in flight ahead of it
    /// has an unknown address or one less than 4 bytes from the load's.
    pub fn load_can_go(&self, load: &LoadQueueEntry) -> (r: bool)
        requires
            self.wf(),
            load.rob_entry < ROB_ENTRIES,
        ensures
            r == forall|k: int|
                0 <= k < self.offset(load.rob_entry as int) && k < self.count() ==> !blocks_load(
                    #[trigger] self.queue@[self.slot(k)],
                    load.address,
                ),
    {
        let ahead: usize = if load.rob_entry >= self.head {
            load.rob_entry - self.head
        } else {
            load.rob_entry + ROB_ENTRIES - self.head
        };
        let mut k: usize = 0;
        while k < ahead
            invariant
                self.wf(),
                ahead == self.offset(load.rob_entry as int),
                k <= ahead,
                ahead < 64,
                forall|j: int|
                    0 <= j < k && j < self.count() ==> !blocks_load(#[trigger] self.queue@[self.slot(j)], load.address),
            decreases ahead - k,
        {
            let idx = if self.head + k < ROB_ENTRIES { self.head + k } else { self.head + k - ROB_ENTRIES };
            let e = self.queue[idx];
            proof {
                assert(self.occupied(idx as int) <==> self.offset(idx as int) < self.count());
                assert(self.slot(k as int) == idx);
                assert(self.offset(idx as int) == k);
            }
            if e.status == ROBStatus::EMPTY {
                return true;
            }
            match e.dest {
                ROBEntryDest::AwaitingAddress => {
                    return false;
                },
                ROBEntryDest::Address(store_addr) => {
                    let diff = if store_addr >= load.address {
                        store_addr - load.address
                    } else {
                        load.address - store_addr
                    };
                    if diff < 4 {
                        return false;
                    }
                },
                _ => {},
            }
            k = k + 1;
        }
        true
    }

    /// Replaces slot `n` by `e`, which keeps the slot's status.
    fn replace_entry(&mut self, n: usize, e: ROBEntry)
        requires
            old(self).wf(),
            n < ROB_ENTRIES,
            e.status == old(self).queue@[n as int].status,
            !old(self).occupied(n as int) ==> !e.ready,
        ensures
            final(self).wf(),
            final(self).queue@ == old(self).queue@.update(n as int, e),
            final(self).same_but_queue(*old(self)),
    {
        let ghost pre = *self;
        self.queue.set(n, e);
        proof {
            assert forall|i: int| 0 <= i < 64 implies (#[trigger] self.occupied(i) <==> self.offset(i) < self.count()) by {
                assert(pre.occupied(i) <==> pre.offset(i) < pre.count());
                assert(pre.occupied(self.head as int) <==> pre.offset(self.head as int) < pre.count());
            }
            assert forall|i: int| 0 <= i < 64 && !self.occupied(i) implies !(#[trigger] self.queue@[i]).ready by {
                assert(pre.occupied(i) <==> pre.offset(i) < pre.count());
            }
            assert forall|x: int| 0 <= x < 20 implies self.producer_ok(#[trigger] self.register_status@[x]) by {
                assert(pre.producer_ok(pre.register_status@[x]));
            }
        }
    }

    pub fn set_halt(&mut self, n: usize)
        requires
            old(self).wf(),
            n < ROB_ENTRIES,
        ensures
            final(self).wf(),
            final(self).same_but_queue(*old(self)),
            final(self).queue@ == old(self).queue@.update(n as int, ROBEntry { halt: true, ..old(self).queue@[n as int] }),
    {
        let mut e = self.queue[n];
        e.halt = true;
        self.replace_entry(n, e);
    }

    pub fn set_value(&mut self, n: usize, value: u32)
        requires
            old(self).wf(),
            n < ROB_ENTRIES,
        ensures
            final(self).wf(),
            final(self).same_but_queue(*old(self)),
            final(self).queue@ == old(self).queue@.update(n as int, ROBEntry { value, ..old(self).queue@[n as int] }),
    {
        let mut e = self.queue[n];
        e.value = value;
        self.replace_entry(n, e);
    }

    pub fn set_target_address(&mut self, n: usize, target: u32)
        requires
            old(self).wf(),
            n < ROB_ENTRIES,
        ensures
            final(self).wf(),
            final(self).same_but_queue(*old(self)),
            final(self).queue@ == old(self).queue@.update(
                n as int,
                ROBEntry { target_address: target, ..old(self).queue@[n as int] },
            ),
    {
        let mut e = self.queue[n];
        e.target_address = target;
        self.replace_entry(n, e);
    }

    pub fn set_aspr(&mut self, n: usize, asprupdate: ASPRUpdate)
        requires
            old(self).wf(),
            n < ROB_ENTRIES,
        ensures
            final(self).wf(),
            final(self).same_but_queue(*old(self)),
            final(self).queue@ == old(self).queue@.update(n as int, ROBEntry { asprupdate, ..old(self).queue@[n as int] }),
    {
        let mut e = self.queue[n];
        e.asprupdate = asprupdate;
        self.replace_entry(n, e);
    }

    /// Sets the status of an entry in flight; an entry leaves the buffer only
    /// through commit or a flush.
    pub fn set_status(&mut self, n: usize, robstatus: ROBStatus)
        requires
            old(self).wf(),
            n < ROB_ENTRIES,
            old(self).occupied(n as int),
            robstatus != ROBStatus::EMPTY,
        ensures
            final(self).wf(),
            final(self).same_but_queue(*old(self)),
            final(self).queue@ == old(self).queue@.update(n as int, ROBEntry { status: robstatus, ..old(self).queue@[n as int] }),
    {
        let ghost pre = *self;
        let mut e = self.queue[n];
        e.status = robstatus;
        self.queue.set(n, e);
        proof {
            assert forall|i: int| 0 <= i < 64 implies (#[trigger] self.occupied(i) <==> self.offset(i) < self.count()) by {
                assert(pre.occupied(i) <==> pre.offset(i) < pre.count());
                assert(pre.occupied(self.head as int) <==> pre.offset(self.head as int) < pre.count());
            }
            assert forall|i: int| 0 <= i < 64 && !self.occupied(i) implies !(#[trigger] self.queue@[i]).ready by {
                assert(pre.occupied(i) <==> pre.offset(i) < pre.count());
            }
            assert forall|x: int| 0 <= x < 20 implies self.producer_ok(#[trigger] self.register_status@[x]) by {
                assert(pre.producer_ok(pre.register_status@[x]));
            }
        }
    }

    /// Resolves a store's address.
    pub fn set_address(&mut self, n: usize, address: u32)
        requires
            old(self).wf(),
            n < ROB_ENTRIES,
            old(self).queue@[n as int].dest == ROBEntryDest::AwaitingAddress,
        ensures
            final(self).wf(),
            final(self).same_but_queue(*old(self)),
            final(self).queue@ == old(self).queue@.update(
                n as int,
                ROBEntry { dest: ROBEntryDest::Address(address), ..old(self).queue@[n as int] },
            ),
    {
        let mut e = self.queue[n];
        e.dest = ROBEntryDest::Address(address);
        self.replace_entry(n, e);
    }

    /// Marks an entry in flight as written back.
    pub fn set_ready(&mut self, n: usize)
        requires
            old(self).wf(),
            n < ROB_ENTRIES,
            old(self).occupied(n as int),
        ensures
            final(self).wf(),
            final(self).same_but_queue(*old(self)),
            final(self).queue@ == old(self).queue@.update(n as int, ROBEntry { ready: true, ..old(self).queue@[n as int] }),
    {
        let mut e = self.queue[n];
        e.ready = true;
        self.replace_entry(n, e);
    }

    /// Empties every slot and the register-status table.
    pub fn clear(&mut self)
        requires
            old(self).wf(),
        ensures
            final(self).wf(),
            final(self).count() == 0,
            final(self).head == old(self).head,
            forall|k: int| 0 <= k < 20 ==> #[trigger] final(self).register_status@[k] == None::<usize>,
    {
        let mut i: usize = 0;
        while i < ROB_ENTRIES
            invariant
                i <= ROB_ENTRIES,
                old(self).wf(),
                self.head == old(self).head,
                self.register_status == old(self).register_status,
                self.temp_register_status == old(self).temp_register_status,
                self.queue@.len() == 64,
                forall|j: int| 0 <= j < i ==> (#[trigger] self.queue@[j]).status == ROBStatus::EMPTY && !self.queue@[j].ready,
            decreases ROB_ENTRIES - i,
        {
            let mut e = self.queue[i];
            e.status = ROBStatus::EMPTY;
            e.ready = false;
            self.queue.set(i, e);
            i = i + 1;
        }
        let ghost q = self.queue@;
        let mut r: usize = 0;
        while r < 20
            invariant
                r <= 20,
                self.queue@ == q,
                self.head == old(self).head,
                self.head < 64,
                q.len() == 64,
                forall|j: int| 0 <= j < 64 ==> (#[trigger] q[j]).status == ROBStatus::EMPTY && !q[j].ready,
                self.temp_register_status@.len() == 20,
                self.register_status@.len() == 20,
                forall|k: int| 0 <= k < r ==> #[trigger] self.register_status@[k] == None::<usize>,
            decreases 20 - r,
        {
            self.register_status.set(r, None);
            r = r + 1;
        }
        self.tail = self.head;
        proof {
            assert(!self.occupied(self.head as int));
            assert forall|i: int| 0 <= i < 64 implies (#[trigger] self.occupied(i) <==> self.offset(i) < self.count()) by {
                assert(!self.occupied(i));
            }
        }
    }

    /// Stages `i`, fetched from `pc`, for the tail slot, and the renaming it
    /// causes; nothing is entered until `issue_commit`. Returns the slot.
    pub fn issue_receive(&mut self, i: &I, pc: u32) -> (r: usize)
        requires
            old(self).wf(),
            old(self).count() < 64,
            can_enter(*i),
        ensures
            final(self).wf(),
            final(self).staged(),
            r == old(self).tail,
            final(self).queue == old(self).queue,
            final(self).head == old(self).head,
            final(self).tail == old(self).tail,
            final(self).register_status == old(self).register_status,
            final(self).temp_register_status@ == renamed(old(self).register_status@, *i, old(self).tail),
            final(self).will_issue == (ROBEntry {
                target_address: 0,
                pc,
                status: ROBStatus::Execute,
                value: if i.it == IT::BL || i.it == IT::BLX { pc } else { 0 },
                i: *i,
                halt: false,
                dest: dest_of(*i),
                ready: false,
                asprupdate: ASPRUpdate { n: None, z: None, c: None, v: None },
            }),
    {
        let ghost pre = *self;
        let insert_point = self.tail;
        let value: u32 = match i.it {
            IT::BL | IT::BLX => pc,
            _ => 0,
        };
        let rob_dest = dest_for(i);
        let (n, z, c, v) = flag_set(i.it);
        let mut temp: Vec<Option<usize>> = Vec::new();
        let mut r: usize = 0;
        while r < 20
            invariant
                r <= 20,
                self.wf(),
                rob_dest == dest_of(*i),
                (n, z, c, v) == flags_written(i.it),
                temp@.len() == r,
                forall|k: int| 0 <= k < r ==> #[trigger] temp@[k] == renamed(self.register_status@, *i, insert_point)[k],
            decreases 20 - r,
        {
            let named = match rob_dest {
                ROBEntryDest::Register(rd, _) => rd as usize == r,
                _ => false,
            };
            let flag = i.setsflags && ((r == 16 && n) || (r == 17 && z) || (r == 18 && c) || (r == 19 && v));
            if named || flag {
                temp.push(Some(insert_point));
            } else {
                temp.push(self.register_status[r]);
            }
            r = r + 1;
        }
        proof {
            assert(temp@ =~= renamed(self.register_status@, *i, insert_point));
        }
        self.temp_register_status = temp;
        self.will_issue = ROBEntry {
            target_address: 0,
            pc,
            status: ROBStatus::Execute,
            value,
            i: *i,
            halt: false,
            dest: rob_dest,
            ready: false,
            asprupdate: ASPRUpdate::no_update(),
        };
        proof {
            lemma_wf_frame(pre, *self);
        }
        insert_point
    }

    /// Enters the staged entry at the tail, together with its renaming.
    pub fn issue_commit(&mut self)
        requires
            old(self).wf(),
            old(self).staged(),
            old(self).count() < 64,
        ensures
            final(self).wf(),
            final(self).in_flight() == old(self).in_flight().push(old(self).will_issue),
            final(self).count() == old(self).count() + 1,
            final(self).head == old(self).head,
            final(self).tail == if old(self).tail + 1 < 64 { old(self).tail + 1 } else { 0 },
            final(self).queue@ == old(self).queue@.update(old(self).tail as int, old(self).will_issue),
            final(self).register_status@ == old(self).temp_register_status@,
            final(self).will_issue == old(self).will_issue,
    {
        let ghost pre = *self;
        let t = self.tail;
        self.queue.set(t, self.will_issue);
        self.register_status = self.temp_register_status.clone();
        self.tail = Self::increment_index(t);
        proof {
            assert(self.register_status@ =~= pre.temp_register_status@);
            assert(pre.offset(t as int) == pre.count());
            if pre.count() > 0 {
                assert(pre.occupied(pre.head as int) <==> pre.offset(pre.head as int) < pre.count());
            }
            assert(self.occupied(self.head as int));
            assert(self.count() == pre.count() + 1);
            assert forall|i: int| 0 <= i < 64 implies (#[trigger] self.occupied(i) <==> self.offset(i) < self.count()) by {
                if i != t {
                    assert(pre.occupied(i) == self.occupied(i));
                }
            }
            assert forall|r: int| 0 <= r < 20 implies self.producer_ok(#[trigger] self.register_status@[r]) by {
                let p = pre.temp_register_status@[r];
                if p != Some(t) {
                    assert(pre.producer_ok(p));
                    if let Some(q) = p {
                        assert(pre.occupied(q as int));
                    }
                }
            }
            assert(self.in_flight() =~= pre.in_flight().push(pre.will_issue));
        }
    }
}

proof fn lemma_wf_frame(a: ROB, b: ROB)
    requires
        a.wf(),
        b.queue@ == a.queue@,
        b.head == a.head,
        b.tail == a.tail,
        b.register_status@ == a.register_status@,
        b.temp_register_status@.len() == 20,
    ensures
        b.wf(),
{
    assert forall|i: int| 0 <= i < 64 implies (#[trigger] b.occupied(i) <==> b.offset(i) < b.count()) by {
        assert(a.occupied(i) <==> a.offset(i) < a.count());
    }
    assert forall|i: int| 0 <= i < 64 && !b.occupied(i) implies !(#[trigger] b.queue@[i]).ready by {
        assert(a.occupied(i) <==> a.offset(i) < a.count());
    }
    assert forall|x: int| 0 <= x < 20 implies b.producer_ok(#[trigger] b.register_status@[x]) by {
        assert(a.producer_ok(a.register_status@[x]));
    }
}

/// The destination an issued instruction gets.
pub fn dest_for(i: &I) -> (r: ROBEntryDest)
    ensures
        r == dest_of(*i),
{
    match i.it {
        IT::ADC | IT::ADDImm | IT::ADDReg | IT::ADDSpImm | IT::AND | IT::BIC | IT::EOR | IT::MOVImm
        | IT::MOVReg | IT::MVN | IT::ORR | IT::REVSH | IT::REV16 | IT::REV | IT::RSB | IT::SBC
        | IT::ROR | IT::SUBImm | IT::SUBReg | IT::SXTB | IT::SXTH | IT::UXTB | IT::UXTH | IT::MUL
        | IT::LSLImm | IT::LSLReg | IT::LSRReg | IT::LSRImm | IT::ASRReg | IT::ASRImm => {
            ROBEntryDest::Register(i.rd, i.setsflags)
        },
        IT::BL | IT::BLX => ROBEntryDest::Register(14, i.setsflags),
        IT::STRImm | IT::STRReg | IT::STRBImm | IT::STRBReg | IT::STRHImm | IT::STRHReg => {
            ROBEntryDest::AwaitingAddress
        },
        IT::LDRImm | IT::LDRReg | IT::LDRHImm | IT::LDRHReg | IT::LDRBImm | IT::LDRBReg | IT::LDRSB
        | IT::LDRSH => ROBEntryDest::Register(i.rt, false),
        _ => ROBEntryDest::Discard,
    }
}

/// Which of N, Z, C, V an instruction that sets flags writes.
pub fn flag_set(it: IT) -> (r: (bool, bool, bool, bool))
    ensures
        r == flags_written(it),
{
    match it {
        IT::ADC | IT::ADDImm | IT::ADDReg | IT::CMN | IT::CMPReg | IT::CMPImm | IT::SUBImm
        | IT::SUBReg | IT::RSB | IT::SBC => (true, true, true, true),
        IT::ASRImm | IT::ASRReg | IT::LSLReg | IT::LSLImm | IT::LSRImm | IT::LSRReg | IT::ROR => {
            (true, true, true, false)
        },
        IT::AND | IT::TST | IT::BIC | IT::MOVImm | IT::MOVReg | IT::MUL | IT::MVN | IT::EOR
        | IT::ORR => (true, true, false, false),
        _ => (false, false, false, false),
    }
}

} // verus!
