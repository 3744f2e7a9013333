use thumb_ooo::decoder::{decode, decode_b1, decode_b2};
use thumb_ooo::expand::decode2;
use thumb_ooo::instr::{get_issue_type, IssueType, I, IT};

fn rec(it: IT, rd: u8, rn: u8, rm: u8, immu: u32, imms: i32, setsflags: bool) -> I {
    I { it, rd, rn, rm, rt: 0, rl: 0, immu, imms, setsflags }
}

#[test]
fn adc_test() {
    assert_eq!(decode(0x414f), I { it: IT::ADC, rd: 7, rn: 7, rm: 1, rt: 0, rl: 0, immu: 0, imms: 0, setsflags: true });
    assert_eq!(decode(0x416b), I { it: IT::ADC, rd: 3, rn: 3, rm: 5, rt: 0, rl: 0, immu: 0, imms: 0, setsflags: true })
}

#[test]
fn addimm_test() {
    assert_eq!(decode(0x1de9), I { it: IT::ADDImm, rd: 1, rn: 5, rm: 0, rt: 0, rl: 0, immu: 7, imms: 0, setsflags: true });
    assert_eq!(decode(0x1c97), I { it: IT::ADDImm, rd: 7, rn: 2, rm: 0, rt: 0, rl: 0, immu: 2, imms: 0, setsflags: true });
    assert_eq!(
        decode(0x3064),
        I { it: IT::ADDImm, rd: 0, rn: 0, rm: 0, rt: 0, rl: 0, immu: 0x64, imms: 0, setsflags: true }
    );
    assert_eq!(
        decode(0x3064),
        I { it: IT::ADDImm, rd: 0, rn: 0, rm: 0, rt: 0, rl: 0, immu: 0x64, imms: 0, setsflags: true }
    );
    assert_eq!(decode(0x3401), I { it: IT::ADDImm, rd: 4, rn: 4, rm: 0, rt: 0, rl: 0, immu: 1, imms: 0, setsflags: true })
}

#[test]
fn dp_test() {
    assert_eq!(decode(0x4001), I { it: IT::AND, rd: 1, rn: 1, rm: 0, rt: 0, rl: 0, immu: 0, imms: 0, setsflags: true });
    assert_eq!(decode(0x42d2), I { it: IT::CMN, rd: 2, rn: 2, rm: 2, rt: 0, rl: 0, immu: 0, imms: 0, setsflags: true });
    assert_eq!(decode(0x43f0), I { it: IT::MVN, rd: 0, rn: 0, rm: 6, rt: 0, rl: 0, immu: 0, imms: 0, setsflags: true });
    assert_eq!(decode(0x434d), I { it: IT::MUL, rd: 5, rn: 5, rm: 1, rt: 0, rl: 0, immu: 0, imms: 0, setsflags: true });
}

#[test]
fn bl_test() {
    assert_eq!(
        decode(0xf01dff2c),
        I { it: IT::BL, rd: 0, rn: 0, rm: 0, rt: 0, rl: 0, immu: 0, imms: 122456, setsflags: false }
    );
    assert_eq!(
        decode(0xf7e7fcb0),
        I { it: IT::BL, rd: 0, rn: 0, rm: 0, rt: 0, rl: 0, imms: -100000, immu: 0, setsflags: false }
    );
}

#[test]
fn push() {
    let i = I { it: IT::PUSH, rl: 0b0100000011111111, rn: 0, rd: 0, rt: 0, rm: 0, immu: 0, imms: 0, setsflags: false };
    let mops = decode2(i);
    println!("{:?}", mops);
    // SP lowered by 4 per register, then r0-r7 and LR stored upwards
    assert_eq!(mops.len(), 10);
    assert_eq!(mops[0], I { it: IT::SUBImm, rd: 13, rn: 13, rm: 0, rt: 0, rl: 0, immu: 36, imms: 0, setsflags: false });
    assert_eq!(mops[1], I { it: IT::STRImm, rd: 0, rn: 13, rm: 0, rt: 0, rl: 0, immu: 0, imms: 0, setsflags: false });
    assert_eq!(mops[9], I { it: IT::STRImm, rd: 0, rn: 13, rm: 0, rt: 14, rl: 0, immu: 32, imms: 0, setsflags: false });
}

#[test]
fn pop() {
    let i = I { it: IT::POP, rl: 0b1000000011111111, rn: 0, rd: 0, rt: 0, rm: 0, immu: 0, imms: 0, setsflags: false };
    let mops = decode2(i);
    println!("{:?}", mops);
    // r0-r7 loaded, the PC through r9, SP raised, then IT::BX r9
    assert_eq!(mops.len(), 11);
    assert_eq!(mops[7], I { it: IT::LDRImm, rd: 0, rn: 13, rm: 0, rt: 7, rl: 0, immu: 28, imms: 0, setsflags: false });
    assert_eq!(mops[8], I { it: IT::LDRImm, rd: 0, rn: 13, rm: 0, rt: 9, rl: 0, immu: 32, imms: 0, setsflags: false });
    assert_eq!(mops[9], I { it: IT::ADDSpImm, rd: 13, rn: 13, rm: 0, rt: 0, rl: 0, immu: 36, imms: 0, setsflags: false });
    assert_eq!(mops[10].it, IT::BX);
    assert_eq!(mops[10].rm, 9);
}

#[test]
fn pop_without_pc() {
    let i = I { it: IT::POP, rl: 0b0000000000010001, rn: 0, rd: 0, rt: 0, rm: 0, immu: 0, imms: 0, setsflags: false };
    let mops = decode2(i);
    assert_eq!(mops.len(), 3);
    assert_eq!(mops[1].rt, 4);
    assert_eq!(mops[1].immu, 4);
    assert_eq!(mops[2], I { it: IT::ADDSpImm, rd: 13, rn: 13, rm: 0, rt: 0, rl: 0, immu: 8, imms: 0, setsflags: false });
}

#[test]
fn single_instruction_expands_to_itself() {
    let i = decode(0x414f);
    assert_eq!(decode2(i), vec![i]);
}

#[test]
fn decode_expand_is_repeatable() {
    for word in [0x414fu32, 0xb5ff, 0xbcff, 0xf01dff2c, 0xd0fe, 0xe7fe, 0x4770] {
        let first = decode2(decode(word));
        let second = decode2(decode(word));
        assert_eq!(first, second);
    }
}

#[test]
fn branch_offsets() {
    // beq with imm8 = 0xfe: offset -4
    assert_eq!(decode_b1(0xd0fe), rec(IT::B, 0, 0, 0, 0, -4, false));
    // b with imm11 = 0x7fe: offset -4, condition always
    assert_eq!(decode_b2(0xe7fe), rec(IT::B, 0, 0b1110, 0, 0, -4, false));
    assert_eq!(decode_b2(0xe002), rec(IT::B, 0, 0b1110, 0, 0, 4, false));
}

#[test]
fn undefined_encoding_does_not_issue() {
    let i = decode(0xde00);
    assert_eq!(i.it, IT::UNDEFINED);
    assert_eq!(get_issue_type(i.it), None);
    assert_eq!(get_issue_type(IT::MUL), Some(IssueType::MUL));
    assert_eq!(get_issue_type(IT::PUSH), None);
}
