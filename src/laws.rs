use crate::ooo::{counted_down, due, CDBRecord, OoOSpeculative, MUL_DELAY};
use crate::rob::{renamed, retired, ROB};
use crate::instr::I;
use vstd::prelude::*;

verus! {

/// In every well-formed reorder buffer (every state a core reaches from
/// `OoOSpeculative::new` through `tick`), the occupied slots are exactly the
/// `count()` slots from the head on, in circular order, the in-flight entries
/// are those slots, oldest first, and no free slot is marked ready.
pub proof fn lemma_rob_contiguous(rob: ROB)
    requires
        rob.wf(),
    ensures
        forall|k: int| 0 <= k < rob.count() ==> #[trigger] rob.occupied(rob.slot(k)),
        forall|k: int| rob.count() <= k < 64 ==> !#[trigger] rob.occupied(rob.slot(k)),
        forall|k: int| 0 <= k < rob.count() ==> #[trigger] rob.in_flight()[k] == rob.queue@[rob.slot(k)],
        forall|i: int| 0 <= i < 64 && !rob.occupied(i) ==> !(#[trigger] rob.queue@[i]).ready,
        rob.count() <= 64,
{
    assert forall|k: int| 0 <= k < 64 implies #[trigger] rob.occupied(rob.slot(k)) == (k < rob.count()) by {
        let s = rob.slot(k);
        assert(rob.offset(s) == k);
        assert(rob.occupied(s) <==> rob.offset(s) < rob.count());
    }
    if rob.head == rob.tail {
        assert(rob.count() == 0 || rob.count() == 64);
    } else {
        assert(rob.count() == rob.offset(rob.tail as int));
    }
}

/// The core's invariant holds from the start, and `tick` keeps it (see the
/// contracts of `new` and `tick`); so every reachable core has a contiguous
/// reorder buffer.
pub proof fn lemma_core_rob_contiguous(core: OoOSpeculative)
    requires
        core.wf(),
    ensures
        forall|k: int| 0 <= k < core.rob.count() ==> #[trigger] core.rob.occupied(core.rob.slot(k)),
        forall|k: int| core.rob.count() <= k < 64 ==> !#[trigger] core.rob.occupied(core.rob.slot(k)),
{
    lemma_rob_contiguous(core.rob);
}

/// A register-status slot is freed only by the producer it names: when
/// producer `p` retires, every slot naming another producer, older or newer,
/// keeps it, and no slot names `p` afterwards.
pub proof fn lemma_single_producer(rs: Seq<Option<usize>>, p: usize)
    ensures
        forall|r: int| 0 <= r < rs.len() && rs[r] != Some(p) ==> #[trigger] retired(rs, p)[r] == rs[r],
        forall|r: int| 0 <= r < rs.len() ==> #[trigger] retired(rs, p)[r] != Some(p),
{
}

/// Issuing `i` into slot `slot` makes it the producer of exactly the
/// registers and flags it writes; every other slot keeps its producer. So a
/// superseded producer's retirement cannot free a register the new one owns.
pub proof fn lemma_renaming_supersedes(rs: Seq<Option<usize>>, i: I, slot: usize, old_producer: usize)
    requires
        old_producer != slot,
    ensures
        forall|r: int| 0 <= r < rs.len() && crate::rob::produces(i, r) ==> #[trigger] retired(renamed(rs, i, slot), old_producer)[r] == Some(slot),
{
}

/// A result the multiplier schedules is not due at the next writeback, and
/// is due, after the results already due, at the one after: it reaches the
/// bus queue exactly `MUL_DELAY` cycles after it was computed, whatever else
/// is pending. (The bus then takes up to `CDB_WIDTH` due results a cycle, in
/// order; see `wb`.)
pub proof fn lemma_multiply_latency(pending: Seq<(u8, CDBRecord)>, r: CDBRecord)
    ensures
        due(pending.push((MUL_DELAY, r))) == due(pending),
        counted_down(pending.push((MUL_DELAY, r))) == counted_down(pending).push((1u8, r)),
        due(counted_down(pending.push((MUL_DELAY, r)))) == due(counted_down(pending)).push(
            CDBRecord { valid: true, ..r },
        ),
{
    let s = pending.push((MUL_DELAY, r));
    assert(s.drop_last() =~= pending);
    let c = counted_down(pending).push((1u8, r));
    assert(c.drop_last() =~= counted_down(pending));
}

} // verus!
