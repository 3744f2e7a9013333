use std::collections::HashMap;
use vstd::prelude::*;
use vstd::std_specs::hash::group_hash_axioms;

verus! {

broadcast use group_hash_axioms;

/// A branch predictor with one saturating counter of `bits` bits per branch
/// address: a branch is predicted taken once its counter reaches half the
/// counter's range.
pub struct BTB {
    pub hm: HashMap<u32, u32>,
    pub bits: u32,
}

/// The largest value of a `bits`-bit counter.
pub open spec fn counter_max(bits: u32) -> int {
    vstd::arithmetic::power2::pow2(bits as nat) - 1
}

impl BTB {
    pub open spec fn wf(self) -> bool {
        1 <= self.bits <= 16
    }

    pub open spec fn prediction(self, pc: u32) -> bool {
        self.hm@.contains_key(pc) && 2 * self.hm@[pc] >= counter_max(self.bits) + 1
    }

    /// A predictor with two-bit counters and no branch seen.
    pub fn new() -> (r: BTB)
        ensures
            r.wf(),
            r.bits == 2,
            r.hm@ == Map::<u32, u32>::empty(),
    {
        BTB { hm: HashMap::new(), bits: 2 }
    }

    /// Whether the branch at `pc` is predicted taken; an unseen one is not.
    pub fn make_prediction(&self, pc: u32) -> (r: bool)
        requires
            self.wf(),
        ensures
            r == self.prediction(pc),
    {
        let half = half_range(self.bits);
        match self.hm.get(&pc) {
            Some(counter) => *counter >= half,
            None => false,
        }
    }

    /// Records the outcome of the branch at `pc`: a taken branch counts up,
    /// to the counter's largest value; a branch seen the first time starts
    /// at 1 if taken, else 0.
    pub fn update(&mut self, pc: u32, taken: bool)
        requires
            old(self).wf(),
        ensures
            final(self).wf(),
            final(self).bits == old(self).bits,
            final(self).hm@ == old(self).hm@.insert(
                pc,
                if old(self).hm@.contains_key(pc) {
                    let c = old(self).hm@[pc] + if taken { 1int } else { 0 };
                    (if c > counter_max(old(self).bits) { counter_max(old(self).bits) } else { c }) as u32
                } else {
                    if taken { 1u32 } else { 0u32 }
                },
            ),
    {
        let max = half_range(self.bits) * 2 - 1;
        let step: u32 = if taken { 1 } else { 0 };
        let next = match self.hm.get(&pc) {
            Some(counter) => {
                let c = *counter as u64 + step as u64;
                if c > max as u64 {
                    max
                } else {
                    c as u32
                }
            },
            None => step,
        };
        self.hm.insert(pc, next);
    }
}

/// Half the range of a `bits`-bit counter.
fn half_range(bits: u32) -> (r: u32)
    requires
        1 <= bits <= 16,
    ensures
        2 * r == counter_max(bits) + 1,
        r >= 1,
        2 * r <= 0x1_0000,
{
    proof {
        vstd::arithmetic::power2::lemma2_to64();
        vstd::bits::lemma_u32_shl_is_mul(1, (bits - 1) as u32);
        vstd::arithmetic::power2::lemma_pow2_unfold(bits as nat);
        vstd::arithmetic::power2::lemma_pow2_strictly_increases((bits - 1) as nat, 16);
        vstd::arithmetic::power2::lemma_pow2_pos((bits - 1) as nat);
    }
    1u32 << (bits - 1)
}

} // verus!
