use crate::binary::{bit_as_bool, bit_at, hamming_weight, ones_below};
use crate::instr::{blank, I, IT};
use vstd::prelude::*;

verus! {

/// One load or store of a multi-register form.
pub open spec fn transfer(it: IT, r: nat, base: u8, offset: int) -> I {
    I { it, rt: r as u8, immu: offset as u32, rn: base, ..blank(it) }
}

/// The transfers for the registers `r..end` of list `rl`, at offsets that
/// grow by 4 from `offset`, in ascending register order.
pub open spec fn transfers(it: IT, rl: u16, base: u8, r: nat, end: nat, offset: int) -> Seq<I>
    decreases end - r,
{
    if r >= end {
        Seq::empty()
    } else if bit_at(rl as u32, r) == 1 {
        seq![transfer(it, r, base, offset)] + transfers(it, rl, base, r + 1, end, offset + 4)
    } else {
        transfers(it, rl, base, r + 1, end, offset)
    }
}

/// An immediate add or subtract on the base register, by `amount`.
pub open spec fn adjust(it: IT, base: u8, amount: int) -> I {
    I { it, rd: base, rn: base, immu: amount as u32, ..blank(it) }
}

/// The base register of a multi-register form.
pub open spec fn base_of(i: I) -> u8 {
    if i.it == IT::PUSH || i.it == IT::POP {
        13
    } else {
        i.rn
    }
}

/// The micro-operations an instruction stands for. A push lowers SP by 4
/// per register, then stores them upwards; a pop loads them, then raises
/// SP; a pop into PC loads it into r9 and ends with `BX r9`. Every other
/// instruction is one micro-operation, itself.
pub open spec fn expansion(i: I) -> Seq<I> {
    let base = base_of(i);
    let size: int = 4 * ones_below(i.rl as u32, 32) as int;
    if i.it == IT::PUSH || i.it == IT::STMIA {
        seq![adjust(IT::SUBImm, base, size)] + transfers(IT::STRImm, i.rl, base, 0, 15, 0)
    } else if i.it == IT::POP || i.it == IT::LDMIA {
        let loads = transfers(IT::LDRImm, i.rl, base, 0, 8, 0);
        if bit_at(i.rl as u32, 15) == 1 {
            loads + seq![
                transfer(IT::LDRImm, 9, base, 4 * loads.len() as int),
                adjust(IT::ADDSpImm, base, size),
                I { it: IT::BX, rt: 15, rm: 9, ..blank(IT::BX) },
            ]
        } else {
            loads + seq![adjust(IT::ADDSpImm, base, size)]
        }
    } else {
        seq![i]
    }
}

proof fn lemma_transfers_len(it: IT, rl: u16, base: u8, r: nat, end: nat, offset: int)
    requires
        r <= end,
    ensures
        transfers(it, rl, base, r, end, offset).len() <= end - r,
    decreases end - r,
{
    if r < end {
        lemma_transfers_len(it, rl, base, r + 1, end, offset);
        lemma_transfers_len(it, rl, base, r + 1, end, offset + 4);
    }
}

/// Appends the transfers of registers `0..end` of `rl` to `v`; returns the
/// offset after the last one.
fn push_transfers(v: &mut Vec<I>, it: IT, rl: u16, base: u8, end: u32) -> (next: u32)
    requires
        end <= 16,
    ensures
        final(v)@ == old(v)@ + transfers(it, rl, base, 0, end as nat, 0),
        next == 4 * transfers(it, rl, base, 0, end as nat, 0).len(),
{
    let ghost start = old(v)@;
    let ghost all = transfers(it, rl, base, 0, end as nat, 0);
    let mut offset: u32 = 0;
    let mut r: u32 = 0;
    while r < end
        invariant
            r <= end <= 16,
            offset <= 4 * r,
            v@.len() >= start.len(),
            offset == 4 * (v@.len() - start.len()),
            v@ + transfers(it, rl, base, r as nat, end as nat, offset as int) == start + all,
        decreases end - r,
    {
        if bit_as_bool(rl as u32, r) {
            v.push(I { it, rt: r as u8, immu: offset, rn: base, rd: 0, rl: 0, rm: 0, imms: 0, setsflags: false });
            proof {
                assert(transfers(it, rl, base, r as nat, end as nat, offset as int) == seq![
                    transfer(it, r as nat, base, offset as int),
                ] + transfers(it, rl, base, (r + 1) as nat, end as nat, offset + 4));
                assert(v@ + transfers(it, rl, base, (r + 1) as nat, end as nat, offset + 4) =~= start + all);
            }
            offset = offset + 4;
        } else {
            proof {
                assert(transfers(it, rl, base, r as nat, end as nat, offset as int) == transfers(
                    it,
                    rl,
                    base,
                    (r + 1) as nat,
                    end as nat,
                    offset as int,
                ));
            }
        }
        r = r + 1;
    }
    proof {
        assert(v@ =~= start + all);
    }
    offset
}

/// Breaks a multi-register instruction into its micro-operations; see
/// `expansion`.
pub fn decode2(i: I) -> (r: Vec<I>)
    ensures
        r@ == expansion(i),
        1 <= r@.len() <= 16,
{
    let mut vec: Vec<I> = Vec::new();
    match i.it {
        IT::PUSH | IT::STMIA => {
            let n = hamming_weight(i.rl as u32);
            let target: u8 = if i.it == IT::PUSH { 13 } else { i.rn };
            proof {
                lemma_ones_bound(i.rl as u32, 32);
            }
            vec.push(I { it: IT::SUBImm, rd: target, rn: target, immu: n * 4, imms: 0, rm: 0, rt: 0, rl: 0, setsflags: false });
            push_transfers(&mut vec, IT::STRImm, i.rl, target, 15);
        },
        IT::POP | IT::LDMIA => {
            let n = hamming_weight(i.rl as u32);
            let target: u8 = if i.it == IT::POP { 13 } else { i.rn };
            proof {
                lemma_ones_bound(i.rl as u32, 32);
            }
            let last = push_transfers(&mut vec, IT::LDRImm, i.rl, target, 8);
            if bit_as_bool(i.rl as u32, 15) {
                vec.push(I { it: IT::LDRImm, rt: 9, immu: last, imms: 0, rn: target, rd: 0, rl: 0, rm: 0, setsflags: false });
                vec.push(I { it: IT::ADDSpImm, rd: target, immu: n * 4, imms: 0, rm: 0, rn: target, rt: 0, rl: 0, setsflags: false });
                vec.push(I { it: IT::BX, rn: 0, rt: 15, immu: 0, imms: 0, rl: 0, rm: 9, rd: 0, setsflags: false });
            } else {
                vec.push(I { it: IT::ADDSpImm, rd: target, immu: n * 4, imms: 0, rm: 0, rn: target, rt: 0, rl: 0, setsflags: false });
            }
        },
        _ => {
            vec.push(i);
        },
    }
    proof {
        assert(vec@ =~= expansion(i));
        lemma_transfers_len(IT::STRImm, i.rl, base_of(i), 0, 15, 0);
        lemma_transfers_len(IT::LDRImm, i.rl, base_of(i), 0, 8, 0);
    }
    vec
}

proof fn lemma_ones_bound(x: u32, k: nat)
    ensures
        ones_below(x, k) <= k,
    decreases k,
{
    if k > 0 {
        lemma_ones_bound(x, (k - 1) as nat);
    }
}

} // verus!
