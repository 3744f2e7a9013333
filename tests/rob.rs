use thumb_ooo::decoder::decode;
use thumb_ooo::instr::I;
use thumb_ooo::rob::{LoadQueueEntry, ROBEntryDest, ROBStatus, ROB};
use thumb_ooo::instr::IT;

#[test]
fn get_first_entry() {
    let mut rob = ROB::new();
    rob.head = 10;

    // if the head is at 10 then 9 is much later than 10
    assert_eq!(rob.entry_is_before(9, 10), false);
    assert_eq!(rob.entry_is_before(10, 11), true);

    rob.head = 0;
    assert_eq!(rob.entry_is_before(0, 63), true);

    rob.head = 63;
    assert_eq!(rob.entry_is_before(9, 10), true);
    assert_eq!(rob.entry_is_before(62, 0), false);
}

fn issue(rob: &mut ROB, i: &I, pc: u32) -> usize {
    let slot = rob.issue_receive(i, pc);
    rob.issue_commit();
    slot
}

#[test]
fn entries_retire_in_issue_order() {
    let mut rob = ROB::new();
    assert!(rob.is_empty());
    let add = decode(0x1842); // adds r2, r0, r1
    let mov = decode(0x2005); // movs r0, #5
    assert_eq!(issue(&mut rob, &add, 2), 0);
    assert_eq!(issue(&mut rob, &mov, 4), 1);
    assert_eq!(rob.register_status[2], Some(0));
    assert_eq!(rob.register_status[0], Some(1));
    // both set N and Z
    assert_eq!(rob.register_status[16], Some(1));
    assert_eq!(rob.get_last_issued().unwrap().pc, 4);
    assert_eq!(rob.get_head().pc, 2);
    rob.set_value(0, 8);
    rob.set_ready(0);
    rob.clear_head_and_increment();
    // the retired producer leaves r2, the newer one keeps r0 and the flags
    assert_eq!(rob.register_status[2], None);
    assert_eq!(rob.register_status[0], Some(1));
    assert_eq!(rob.register_status[16], Some(1));
    assert_eq!(rob.get_head().pc, 4);
    assert_eq!(rob.get(0).status, ROBStatus::EMPTY);
    assert!(!rob.get(0).ready);
}

#[test]
fn staged_entry_is_not_entered_until_commit() {
    let mut rob = ROB::new();
    let mov = decode(0x2005);
    let slot = rob.issue_receive(&mov, 2);
    assert_eq!(slot, 0);
    assert!(rob.is_empty());
    assert_eq!(rob.register_status[0], None);
    rob.issue_commit();
    assert!(!rob.is_empty());
    assert_eq!(rob.register_status[0], Some(0));
}

#[test]
fn fills_up_after_sixty_four() {
    let mut rob = ROB::new();
    let mov = decode(0x2005);
    for k in 0..64u32 {
        assert!(!rob.is_full());
        issue(&mut rob, &mov, 2 * k);
    }
    assert!(rob.is_full());
    assert!(!rob.is_empty());
    assert_eq!(rob.head, rob.tail);
}

#[test]
fn flush_discards_younger_entries() {
    let mut rob = ROB::new();
    let mov0 = decode(0x2005);
    let mov1 = decode(0x2103);
    issue(&mut rob, &mov0, 2);
    issue(&mut rob, &mov1, 4);
    issue(&mut rob, &mov0, 6);
    let flushed = rob.flush_on_mispredict();
    assert_eq!(flushed, vec![1, 2]);
    assert_eq!(rob.tail, 1);
    assert_eq!(rob.register_status[0], None);
    assert_eq!(rob.register_status[1], None);
    assert_eq!(rob.get(1).status, ROBStatus::EMPTY);
    assert_eq!(rob.get(0).status, ROBStatus::Execute);
}

#[test]
fn flush_of_a_full_buffer_keeps_only_the_head() {
    let mut rob = ROB::new();
    let mov = decode(0x2005);
    for k in 0..64u32 {
        issue(&mut rob, &mov, 2 * k);
    }
    let flushed = rob.flush_on_mispredict();
    assert_eq!(flushed.len(), 63);
    assert!(!rob.is_full());
    rob.set_ready(0);
    rob.clear_head_and_increment();
    assert!(rob.is_empty());
}

#[test]
fn loads_wait_for_older_stores() {
    let mut rob = ROB::new();
    let store = decode(0x6008); // str r0, [r1]
    let load = decode(0x680a); // ldr r2, [r1]
    assert_eq!(store.it, IT::STRImm);
    assert_eq!(load.it, IT::LDRImm);
    issue(&mut rob, &store, 2);
    let slot = issue(&mut rob, &load, 4);
    let entry = LoadQueueEntry { address: 0x2000_0000, rob_entry: slot, load_type: IT::LDRImm };
    // address not known yet
    assert_eq!(rob.get(0).dest, ROBEntryDest::AwaitingAddress);
    assert!(!rob.load_can_go(&entry));
    // same word
    rob.set_address(0, 0x2000_0000);
    assert!(!rob.load_can_go(&entry));
    // less than 4 bytes away
    let near = LoadQueueEntry { address: 0x2000_0003, ..entry };
    assert!(!rob.load_can_go(&near));
    // 4 bytes away is far enough
    let far = LoadQueueEntry { address: 0x2000_0004, ..entry };
    assert!(rob.load_can_go(&far));
    // once the store retires the load goes
    rob.set_ready(0);
    rob.clear_head_and_increment();
    assert!(rob.load_can_go(&entry));
}
