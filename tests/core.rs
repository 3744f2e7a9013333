use thumb_ooo::decoder::decode;
use thumb_ooo::instr::IT;
use thumb_ooo::memory::Memory;
use thumb_ooo::ooo::{CommitRecord, OoOSpeculative, ProcessorState, StallReason};
use thumb_ooo::registers::Registers;

const RAM: u32 = 0x2000_0000;

fn machine(code: &[u16]) -> OoOSpeculative {
    let mut bytes = Vec::new();
    for h in code {
        bytes.push((h & 0xff) as u8);
        bytes.push((h >> 8) as u8);
    }
    let segments = vec![(0u32, bytes)];
    let mem = Memory::from_image(0, 0x1000, RAM, 0x1000, 0, true, &segments, vec![]).unwrap();
    let mut regs = Registers::new();
    regs.pc = 0;
    regs.sp = RAM + 0x1000;
    OoOSpeculative::new(ProcessorState { regs, mem, halting: None })
}

fn run(m: &mut OoOSpeculative, cycles: usize) -> Vec<CommitRecord> {
    let mut commits = Vec::new();
    for _ in 0..cycles {
        m.tick();
        commits.extend(m.commits.iter().cloned());
        if m.halt.is_some() || m.fault.is_some() {
            break;
        }
    }
    commits
}

#[test]
fn straight_line_program_halts_with_sum() {
    // movs r0,#5; movs r1,#3; adds r2,r0,r1; movs r0,r2; svc 0
    let mut m = machine(&[0x2005, 0x2103, 0x1842, 0x0010, 0xdf00]);
    let commits = run(&mut m, 200);
    assert_eq!(m.fault, None);
    assert_eq!(m.halt, Some(8));
    let pcs: Vec<u32> = commits.iter().map(|c| c.pc).collect();
    assert_eq!(pcs, vec![2, 4, 6, 8, 10]);
    assert_eq!(m.state.regs.gp[2], 8);
    assert_eq!(m.mispredicts, 0);
}

#[test]
fn untaken_branch_predicted_taken_is_flushed() {
    assert_eq!(decode(0x2800).it, IT::CMPImm);
    // movs r0,#1; cmp r0,#0; beq +4; movs r0,#7; svc 0; movs r0,#9; svc 0
    let mut m = machine(&[0x2001, 0x2800, 0xd001, 0x2007, 0xdf00, 0x2009, 0xdf00]);
    let commits = run(&mut m, 300);
    assert_eq!(m.fault, None);
    assert_eq!(m.halt, Some(7));
    assert_eq!(m.mispredicts, 1);
    let branch = commits.iter().find(|c| c.i.it == IT::B).unwrap();
    assert!(branch.mispredicted);
    assert_eq!(branch.pc, 6);
}

#[test]
fn taken_branch_predicted_taken_is_not_flushed() {
    // movs r0,#0; cmp r0,#0; beq +4; movs r0,#7; svc 0; movs r0,#9; svc 0
    let mut m = machine(&[0x2000, 0x2800, 0xd001, 0x2007, 0xdf00, 0x2009, 0xdf00]);
    run(&mut m, 300);
    assert_eq!(m.halt, Some(9));
    assert_eq!(m.mispredicts, 0);
    assert_eq!(m.correct_predicts, 1);
}

#[test]
fn load_after_store_to_same_address_sees_stored_value() {
    // movs r1,#1; lsls r1,r1,#29; movs r0,#42; str r0,[r1]; ldr r2,[r1]; movs r0,r2; svc 0
    let mut m = machine(&[0x2101, 0x0749, 0x202a, 0x6008, 0x680a, 0x0010, 0xdf00]);
    let mut load_waited_for_store = false;
    for _ in 0..300 {
        m.tick();
        if !m.load_queue.is_empty() {
            // a queued load with the store still in flight
            let store_in_flight = (0..64).any(|s| {
                let e = m.rob.get(s);
                e.status != thumb_ooo::rob::ROBStatus::EMPTY && e.i.it == IT::STRImm
            });
            if store_in_flight {
                load_waited_for_store = true;
            }
        }
        if m.halt.is_some() || m.fault.is_some() {
            break;
        }
    }
    assert_eq!(m.fault, None);
    assert_eq!(m.halt, Some(42));
    assert!(load_waited_for_store);
    assert_eq!(m.state.mem.get_word(RAM), Ok(42));
}

#[test]
fn long_straight_line_never_fills_the_buffer() {
    let mut code = vec![0x2001u16; 128];
    code.push(0xdf00);
    let mut m = machine(&code);
    run(&mut m, 2000);
    assert_eq!(m.halt, Some(1));
    assert_eq!(m.instructions_committed, 129);
    assert_eq!(m.stall_count(StallReason::FullRob), 0);
}

#[test]
fn multiply_broadcasts_two_cycles_after_it_executes() {
    assert_eq!(decode(0x4348).it, IT::MUL);
    // movs r0,#3; movs r1,#5; muls r0,r1,r0; svc 0
    let mut m = machine(&[0x2003, 0x2105, 0x4348, 0xdf00]);
    let mut executed_at = None;
    let mut ready_at = None;
    let mut seen_busy = false;
    for cycle in 0..200usize {
        m.tick();
        let busy = m.rs_mul.vec.iter().any(|rs| rs.busy);
        if busy {
            seen_busy = true;
        }
        if seen_busy && !busy && executed_at.is_none() {
            executed_at = Some(cycle);
        }
        if ready_at.is_none() && m.rob.get(2).i.it == IT::MUL && m.rob.get(2).ready {
            ready_at = Some(cycle);
        }
        if m.halt.is_some() || m.fault.is_some() {
            break;
        }
    }
    assert_eq!(m.halt, Some(15));
    assert_eq!(ready_at.unwrap() - executed_at.unwrap(), 2);
}

#[test]
fn undefined_instruction_is_fatal() {
    let mut m = machine(&[0xde00]);
    run(&mut m, 50);
    assert_eq!(m.halt, None);
    assert!(matches!(m.fault, Some(thumb_ooo::ooo::Fault::Decode(_, IT::UNDEFINED))));
}

#[test]
fn store_to_flash_is_fatal() {
    // movs r1,#0x40; movs r0,#1; str r0,[r1]
    let mut m = machine(&[0x2140, 0x2001, 0x6008, 0xdf00]);
    run(&mut m, 100);
    assert!(matches!(m.fault, Some(thumb_ooo::ooo::Fault::Memory(thumb_ooo::memory::MemError::SetRO, 0x40))));
}

#[test]
fn print_integer_syscall() {
    // movs r0,#123; svc 3; movs r0,#0; svc 0
    let mut m = machine(&[0x207b, 0xdf03, 0x2000, 0xdf00]);
    run(&mut m, 100);
    assert_eq!(m.halt, Some(0));
    assert_eq!(m.output, b"123".to_vec());
}

#[test]
fn reset_empties_the_pipeline() {
    let mut m = machine(&[0x2001, 0x2002, 0x2003, 0x2004, 0xdf00]);
    m.tick();
    m.tick();
    m.tick();
    m.reset();
    assert!(m.rob.is_empty());
    assert!(m.iq.is_empty());
    assert_eq!(m.spec_pc, m.state.regs.pc);
    run(&mut m, 100);
    assert_eq!(m.halt, Some(4));
}

#[test]
fn unknown_syscall_is_fatal() {
    // svc 7
    let mut m = machine(&[0xdf07]);
    run(&mut m, 50);
    assert_eq!(m.fault, Some(thumb_ooo::ooo::Fault::Syscall(7)));
}

#[test]
fn dependent_multiplies_fill_their_stations() {
    // movs r0,#1; 30 x muls r0,r0,r0; svc 0
    let mut code = vec![0x2001u16];
    code.extend(std::iter::repeat(0x4340u16).take(30));
    code.push(0xdf00);
    let mut m = machine(&code);
    run(&mut m, 2000);
    assert_eq!(m.halt, Some(1));
    assert!(m.stall_count(StallReason::IssueRSFull) > 0);
    assert_eq!(m.stall_count(StallReason::FullRob), 0);
}

#[test]
fn print_string_syscall() {
    // movs r1,#1; lsls r1,r1,#29; movs r0,#0x48 ('H'); strb r0,[r1]; movs r0,#0x69 ('i'); strb r0,[r1,#1];
    // movs r0,#0; strb r0,[r1,#2]; movs r0,r1; svc 1; movs r0,#0; svc 0
    let mut m = machine(&[
        0x2101, 0x0749, 0x2048, 0x7008, 0x2069, 0x7048, 0x2000, 0x7088, 0x0008, 0xdf01, 0x2000, 0xdf00,
    ]);
    run(&mut m, 500);
    assert_eq!(m.fault, None);
    assert_eq!(m.halt, Some(0));
    assert_eq!(m.output, b"Hi".to_vec());
}

#[test]
fn rob_focus_wraps() {
    let mut m = machine(&[0xdf00]);
    m.rob_focus_down();
    assert_eq!(m.rob_focus, 63);
    m.rob_focus_up();
    assert_eq!(m.rob_focus, 0);
    m.rob_focus_up();
    assert_eq!(m.rob_focus, 1);
}
