use thumb_ooo::image::{initial_registers, layout_from_symbols, lookup, ImageLayout, RequiredSymbol};
use thumb_ooo::alu::{add_with_carry, ror, shift_with_carry, ALUOperation, ShiftType, ALU};
use thumb_ooo::memory::{LayoutError, MemError, Memory};
use thumb_ooo::registers::{ASPRUpdate, Registers};
use thumb_ooo::rs::{RSData, RSSet, Src};
use thumb_ooo::instr::IssueType;
use thumb_ooo::rob::ROB;

#[test]
fn add_with_carry_flags() {
    assert_eq!(add_with_carry(5, 3, 0), (8, 0, 0));
    assert_eq!(add_with_carry(0xffff_ffff, 1, 0), (0, 1, 0));
    assert_eq!(add_with_carry(0x7fff_ffff, 1, 0), (0x8000_0000, 0, 1));
    assert_eq!(add_with_carry(0x8000_0000, 0x8000_0000, 0), (0, 1, 1));
    assert_eq!(add_with_carry(1, 1, 1), (3, 0, 0));
}

#[test]
fn alu_operations() {
    let r = ALU(ALUOperation::ADD, 5, 0xffff_fffc, true); // 5 - 3 as 5 + !3 + 1
    assert_eq!(r.result, 2);
    assert_eq!(r.aspr_update, ASPRUpdate { n: Some(false), z: Some(false), c: Some(true), v: Some(false) });
    assert_eq!(ALU(ALUOperation::AND, 0b1100, 0b1010, false).result, 0b1000);
    assert_eq!(ALU(ALUOperation::OR, 0b1100, 0b1010, false).result, 0b1110);
    assert_eq!(ALU(ALUOperation::EOR, 0b1100, 0b1010, false).result, 0b0110);
    assert_eq!(ALU(ALUOperation::REV, 0x1122_3344, 0, false).result, 0x4433_2211);
    assert_eq!(ALU(ALUOperation::REV16, 0x1122_3344, 0, false).result, 0x2211_4433);
    assert_eq!(ALU(ALUOperation::REVSH, 0x0000_0080, 0, false).result, 0xffff_8000);
    assert_eq!(ALU(ALUOperation::UXTB, 0x1234_56f0, 0, false).result, 0xf0);
    assert_eq!(ALU(ALUOperation::UXTH, 0x1234_56f0, 0, false).result, 0x56f0);
    assert_eq!(ALU(ALUOperation::SXTB, 0x0000_00f0, 0, false).result, 0xffff_fff0);
    assert_eq!(ALU(ALUOperation::SXTH, 0x0000_8001, 0, false).result, 0xffff_8001);
    assert_eq!(ALU(ALUOperation::AND, 0, 0, false).aspr_update.z, Some(true));
}

#[test]
fn shifts_with_carry() {
    let r = shift_with_carry(ShiftType::LSL, 0x8000_0001, 1, 0);
    assert_eq!((r.result, r.aspr_update.c), (2, Some(true)));
    let r = shift_with_carry(ShiftType::LSR, 0b11, 1, 0);
    assert_eq!((r.result, r.aspr_update.c), (1, Some(true)));
    let r = shift_with_carry(ShiftType::ASR, 0x8000_0000, 4, 0);
    assert_eq!((r.result, r.aspr_update.c), (0xf800_0000, Some(false)));
    let r = shift_with_carry(ShiftType::ASR, 0x8000_0000, 40, 0);
    assert_eq!((r.result, r.aspr_update.c), (0xffff_ffff, Some(true)));
    let r = shift_with_carry(ShiftType::LSL, 7, 0, 1);
    assert_eq!((r.result, r.aspr_update.c), (7, Some(true)));
    let r = shift_with_carry(ShiftType::LSL, 1, 32, 0);
    assert_eq!((r.result, r.aspr_update.c), (0, Some(true)));
    assert_eq!(ror(0x0000_0001, 1), 0x8000_0000);
    assert_eq!(ror(0x1234_5678, 32), 0x1234_5678);
    let r = shift_with_carry(ShiftType::ROR, 1, 1, 0);
    assert_eq!((r.result, r.aspr_update.c), (0x8000_0000, Some(true)));
}

fn memory() -> Memory {
    let segments = vec![(0u32, vec![0x11u8, 0x22, 0x33, 0x44])];
    Memory::from_image(0, 0x100, 0x2000_0000, 0x100, 0, true, &segments, vec![(0x10, "main".to_string())]).unwrap()
}

#[test]
fn memory_reads_and_writes() {
    let mut m = memory();
    assert_eq!(m.get_word(0), Ok(0x4433_2211));
    assert_eq!(m.get_halfword(2), Ok(0x4433));
    assert_eq!(m.get_byte(1), Ok(0x22));
    assert_eq!(m.mm(0x2000_0004), 0x104);
    assert_eq!(m.set_word(0x2000_0000, 0xdead_beef), Ok(()));
    assert_eq!(m.get_word(0x2000_0000), Ok(0xdead_beef));
    assert_eq!(m.get_byte(0x2000_0000), Ok(0xef));
    assert_eq!(m.set_halfword(0x2000_0010, 0xabcd), Ok(()));
    assert_eq!(m.get_halfword(0x2000_0010), Ok(0xabcd));
    assert_eq!(m.set_byte(0x2000_0020, 7), Ok(()));
    assert_eq!(m.get_byte_nolog(0x2000_0020), 7);
    assert_eq!(m.get_function_at(0x10), Some(&"main".to_string()));
    assert_eq!(m.get_function_at(0x12), None);
}

#[test]
fn memory_errors() {
    let mut m = memory();
    assert_eq!(m.set_word(0, 1), Err(MemError::SetRO));
    assert_eq!(m.set_byte(0xff, 1), Err(MemError::SetRO));
    assert_eq!(m.set_word(0x2000_00fe, 1), Err(MemError::SetOOB));
    assert_eq!(m.set_halfword(0x2000_00ff, 1), Err(MemError::SetOOB));
    assert_eq!(m.set_byte(0x2000_0100, 1), Err(MemError::SetOOB));
    assert_eq!(m.get_word(0x2000_00fd), Err(MemError::LoadOOB));
    assert_eq!(m.get_byte(0x2000_0100), Err(MemError::LoadOOB));
    assert_eq!(m.get_instruction(0x2000_0100), Err(MemError::LoadOOB));
}

#[test]
fn big_endian_words() {
    let segments = vec![(0u32, vec![0x11u8, 0x22, 0x33, 0x44])];
    let m = Memory::from_image(0, 0x100, 0x2000_0000, 0x100, 0, false, &segments, vec![]).unwrap();
    assert_eq!(m.get_word(0), Ok(0x1122_3344));
    assert_eq!(m.get_halfword(0), Ok(0x1122));
}

#[test]
fn layout_errors() {
    let none: Vec<(u32, Vec<u8>)> = vec![];
    assert_eq!(
        Memory::from_image(0, 0xffff_0000, 0xffff_0000, 0x10_0000, 0, true, &none, vec![]).err(),
        Some(LayoutError::TooLarge)
    );
    assert_eq!(Memory::from_image(0, 0x200, 0x100, 0x100, 0, true, &none, vec![]).err(), Some(LayoutError::Overlap));
    let big = vec![(0x1f0u32, vec![0u8; 0x20])];
    assert_eq!(
        Memory::from_image(0, 0x100, 0x100, 0x100, 0, true, &big, vec![]).err(),
        Some(LayoutError::SegmentOutside)
    );
}

#[test]
fn thumb2_instruction_fetch() {
    let segments = vec![(0u32, vec![0x1d, 0xf0, 0x2c, 0xff, 0x05, 0x20])];
    let m = Memory::from_image(0, 0x100, 0x2000_0000, 0x100, 0, true, &segments, vec![]).unwrap();
    assert_eq!(m.get_instruction(0), Ok(0xf01d_ff2c));
    assert_eq!(m.get_instruction(4), Ok(0x2005));
}

#[test]
fn registers_and_flags() {
    let mut r = Registers::new();
    r.set(3, 99);
    r.set(13, 0x100);
    assert_eq!(r.get(3), 99);
    assert_eq!(r.get(13), 0x100);
    r.apply_aspr_update(&ASPRUpdate { n: Some(true), z: None, c: Some(true), v: None });
    assert_eq!((r.get(16), r.get(17), r.get(18), r.get(19)), (1, 0, 1, 0));
}

#[test]
fn renaming_reads_pending_producers_as_tags() {
    let mut rob = ROB::new();
    let regs = Registers::new();
    let mov = thumb_ooo::decoder::decode(0x2005); // movs r0,#5
    let slot = rob.issue_receive(&mov, 2);
    rob.issue_commit();
    assert_eq!(RSSet::get_rs_data(Src::Reg(0), &regs, &rob), RSData::ROB(slot, 0));
    assert_eq!(RSSet::get_rs_data(Src::Reg(1), &regs, &rob), RSData::Data(0));
    rob.set_value(slot, 5);
    rob.set_aspr(slot, ASPRUpdate { n: Some(false), z: Some(true), c: None, v: None });
    rob.set_ready(slot);
    assert_eq!(RSSet::get_rs_data(Src::Reg(0), &regs, &rob), RSData::Data(5));
    assert_eq!(RSSet::get_rs_data(Src::Reg(17), &regs, &rob), RSData::Data(1));

    let mut set = RSSet::new(IssueType::ALUSHIFT, 2);
    let add = thumb_ooo::decoder::decode(0x1842); // adds r2,r0,r1
    let mut rob2 = ROB::new();
    let s0 = rob2.issue_receive(&mov, 2);
    rob2.issue_commit();
    let s1 = rob2.issue_receive(&add, 4);
    let placed = set.issue_receive(&add, s1, &regs, &rob2).unwrap();
    rob2.issue_commit();
    assert_eq!(set.vec[placed].j, RSData::ROB(s0, 0));
    assert!(!set.vec[placed].is_ready());
    set.receive_cdb_broadcast(s0, 0, 5);
    assert_eq!(set.vec[placed].j, RSData::Data(5));
    assert!(set.vec[placed].is_ready());
    assert_eq!(set.get_one_ready(), Some(placed));
    assert!(set.assert_none_waiting_for_rob(s0));
    set.flush_entries_corresponding_to_rob(s1);
    assert!(!set.vec[placed].busy);
}

#[test]
fn image_layout_from_symbols() {
    let mut symbols = vec![
        ("__flash".to_string(), 0u64),
        ("__flash_size".to_string(), 0x4000),
        ("__ram".to_string(), 0x2000_0000),
        ("__ram_size".to_string(), 0x1000),
    ];
    assert_eq!(layout_from_symbols(&symbols), Err(RequiredSymbol::StackSize));
    symbols.push(("__stack_size".to_string(), 0x400));
    symbols.push(("__flash_size".to_string(), 0x8000));
    let layout = layout_from_symbols(&symbols).unwrap();
    // the last definition counts
    assert_eq!(layout, ImageLayout { flash: 0, flash_size: 0x8000, ram: 0x2000_0000, ram_size: 0x1000 });
    assert_eq!(lookup(&symbols, "__ram"), Some(0x2000_0000));
    assert_eq!(lookup(&symbols, "main"), None);
    let regs = initial_registers(&layout, 0x101);
    assert_eq!(regs.sp, 0x2000_1000);
    assert_eq!(regs.pc, 0x100);
    assert_eq!(layout_from_symbols(&vec![]), Err(RequiredSymbol::Flash));
    assert_eq!(layout_from_symbols(&vec![("__flash".to_string(), 0)]), Err(RequiredSymbol::Ram));
    let two = vec![("__flash".to_string(), 0u64), ("__ram".to_string(), 0x2000_0000)];
    assert_eq!(layout_from_symbols(&two), Err(RequiredSymbol::FlashSize));
    let three = vec![("__flash".to_string(), 0u64), ("__ram".to_string(), 0x2000_0000), ("__flash_size".to_string(), 16)];
    assert_eq!(layout_from_symbols(&three), Err(RequiredSymbol::RamSize));
}

#[test]
fn register_names() {
    assert_eq!(Registers::reg_id_to_str(0), "r0");
    assert_eq!(Registers::reg_id_to_str(12), "r12");
    assert_eq!(Registers::reg_id_to_str(13), "SP");
    assert_eq!(Registers::reg_id_to_str(15), "PC");
    assert_eq!(Registers::reg_id_to_str(19), "V");
}
