use thumb_ooo::btb::BTB;
use thumb_ooo::decoder::decode;
use thumb_ooo::instr::IT;
use thumb_ooo::memory::Memory;
use thumb_ooo::ooo::{OoOSpeculative, ProcessorState};
use thumb_ooo::reference::{cond_passed, i_len_lookup, Executor, ExecutorPool, RunConfig, Runner, LSL};
use thumb_ooo::registers::{Registers, ASPR};

const RAM: u32 = 0x2000_0000;

fn state(code: &[u16]) -> ProcessorState {
    let mut bytes = Vec::new();
    for h in code {
        bytes.push((h & 0xff) as u8);
        bytes.push((h >> 8) as u8);
    }
    let segments = vec![(0u32, bytes)];
    let mem = Memory::from_image(0, 0x1000, RAM, 0x1000, 0, true, &segments, vec![]).unwrap();
    let mut regs = Registers::new();
    regs.sp = RAM + 0x1000;
    ProcessorState { regs, mem, halting: None }
}

fn run_reference(code: &[u16]) -> Runner {
    let mut r = Runner::from_config(&RunConfig::no_pipeline_no_superscalar(), state(code));
    for _ in 0..10_000 {
        r.tick();
        if r.halt.is_some() || r.fault.is_some() {
            break;
        }
    }
    r
}

fn run_core(code: &[u16]) -> OoOSpeculative {
    let mut c = OoOSpeculative::new(state(code));
    for _ in 0..10_000 {
        c.tick();
        if c.halt.is_some() || c.fault.is_some() {
            break;
        }
    }
    c
}

/// Programs both machines must agree on.
fn programs() -> Vec<Vec<u16>> {
    vec![
        // movs r0,#5; movs r1,#3; adds r2,r0,r1; movs r0,r2; svc 0
        vec![0x2005, 0x2103, 0x1842, 0x0010, 0xdf00],
        // movs r0,#1; cmp r0,#0; beq +4; movs r0,#7; svc 0; movs r0,#9; svc 0
        vec![0x2001, 0x2800, 0xd001, 0x2007, 0xdf00, 0x2009, 0xdf00],
        // movs r1,#1; lsls r1,r1,#29; movs r0,#42; str r0,[r1]; ldr r2,[r1]; movs r0,r2; svc 0
        vec![0x2101, 0x0749, 0x202a, 0x6008, 0x680a, 0x0010, 0xdf00],
        // movs r0,#3; movs r1,#5; muls r0,r1,r0; svc 0
        vec![0x2003, 0x2105, 0x4348, 0xdf00],
        // movs r0,#10; movs r1,#0; loop: adds r1,r1,r0; subs r0,#1; bne loop; movs r0,r1; svc 0
        vec![0x200a, 0x2100, 0x1809, 0x3801, 0xd1fc, 0x0008, 0xdf00],
        // movs r0,#7; movs r1,#9; push {r0,r1}; pop {r2,r3}; adds r0,r2,r3; svc 0
        vec![0x2007, 0x2109, 0xb403, 0xbc0c, 0x18d0, 0xdf00],
    ]
}

#[test]
fn reference_runs_straight_line_program() {
    let r = run_reference(&programs()[0]);
    assert_eq!(r.fault, None);
    assert_eq!(r.halt, Some(8));
    assert_eq!(r.executor_pool.executed_count, 5);
    assert_eq!(r.cycles, 8);
    assert_eq!(r.state.regs.gp[2], 8);
}

#[test]
fn core_agrees_with_reference() {
    for code in programs() {
        let r = run_reference(&code);
        let c = run_core(&code);
        assert_eq!(r.fault, None, "reference on {:x?}", code);
        assert_eq!(c.fault, None, "core on {:x?}", code);
        assert_eq!(c.halt, r.halt, "exit codes on {:x?}", code);
    }
}

#[test]
fn counting_loop_sums() {
    let r = run_reference(&programs()[4]);
    assert_eq!(r.halt, Some(55));
    let c = run_core(&programs()[4]);
    assert_eq!(c.halt, Some(55));
    assert!(c.mispredicts >= 1);
}

#[test]
fn push_then_pop() {
    let r = run_reference(&programs()[5]);
    assert_eq!(r.halt, Some(16));
    assert_eq!(r.state.regs.sp, RAM + 0x1000);
}

#[test]
fn timings() {
    assert_eq!(i_len_lookup(&decode(0x2005)), Some(1));
    assert_eq!(i_len_lookup(&decode(0x680a)), Some(2));
    assert_eq!(i_len_lookup(&decode(0xb403)), Some(3));
    assert_eq!(i_len_lookup(&decode(0xf01dff2c)), Some(4));
    assert_eq!(i_len_lookup(&decode(0xde00)), None);
}

#[test]
fn executor_assignment() {
    let mut e = Executor::new();
    assert!(e.i.is_none());
    assert!(e.assign(decode(0x4348), false));
    assert_eq!(e.cycles_remaining, 2);
    let mut other = Executor::new();
    assert!(!other.assign(decode(0xde00), false));
    assert!(other.i.is_none());
    assert_eq!(RunConfig::pipeline_no_superscalar(), RunConfig { executors: 1, pipelined: false });
}

#[test]
fn conditions() {
    let f = ASPR { n: true, z: false, c: true, v: true };
    assert!(!cond_passed(&f, 0)); // EQ
    assert!(cond_passed(&f, 1)); // NE
    assert!(cond_passed(&f, 8)); // HI
    assert!(cond_passed(&f, 10)); // GE: N == V
    assert!(cond_passed(&f, 12)); // GT
    assert!(cond_passed(&f, 14)); // AL
    assert!(!cond_passed(&f, 15));
}

#[test]
fn undefined_is_reported_by_reference() {
    let r = run_reference(&[0xde00]);
    assert!(matches!(r.fault, Some(thumb_ooo::ooo::Fault::Decode(0, IT::UNDEFINED))));
}

#[test]
fn predictor_counts_up_and_saturates() {
    let mut b = BTB::new();
    assert!(!b.make_prediction(0x100));
    b.update(0x100, true);
    assert!(!b.make_prediction(0x100));
    b.update(0x100, true);
    assert!(b.make_prediction(0x100));
    b.update(0x100, true);
    b.update(0x100, true);
    assert_eq!(b.hm[&0x100], 3);
    b.update(0x200, false);
    assert_eq!(b.hm[&0x200], 0);
    assert!(!b.make_prediction(0x200));
}

#[test]
fn pool_runs_to_completion() {
    let mut st = state(&[0x2005]);
    let mut out = Vec::new();
    let mut pool = ExecutorPool::new(1);
    assert!(pool.all_empty());
    assert!(pool.assign(decode(0x2005), false));
    assert!(!pool.assign(decode(0x2103), false));
    assert!(!pool.all_empty());
    assert_eq!(pool.flush(&mut st, &mut out), Ok((1, None)));
    assert!(pool.all_empty());
    assert_eq!(st.regs.gp[0], 5);
    assert_eq!(st.regs.pc, 2);
    assert_eq!(pool.executed_count, 1);
    // a load takes two cycles
    assert!(pool.assign(decode(0x680a), false));
    assert_eq!(pool.tick(&mut st, &mut out), Ok(None));
    assert!(!pool.all_empty());
    assert_eq!(pool.tick(&mut st, &mut out), Ok(None));
    assert!(pool.all_empty());
}

#[test]
fn lsl_helper() {
    let mut st = state(&[]);
    st.regs.gp[1] = 3;
    // lsls r2, r1, #4
    LSL(0x010a, &mut st);
    assert_eq!(st.regs.gp[2], 48);
}
