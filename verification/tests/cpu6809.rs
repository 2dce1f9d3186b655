use gazm::cpu6809::assembler6809::{Asm6809, Assembler6809};
use gazm::cpu6809::nodekind::IndexParseType;
use gazm::cpu6809::nodekind::IndexParseType::{
    AddA, AddB, AddD, Constant5BitOffset, ConstantByteOffset, ConstantWordOffset,
    ExtendedIndirect, PcOffsetByte, PcOffsetWord, PostInc, PostIncInc, PreDec, PreDecDec, Zero,
};
use gazm::cpu6809::regutils::{reg_pair_to_flags, reg_to_reg_num, registers_to_flags, RegEnum};
use gazm::cpu6809::regutils::RegEnum::{S, U, X, Y};

/// The postbyte table: base per form, register bits 6-5, indirect bit 4.
#[test]
fn indexed_postbytes() {
    let cases: [(IndexParseType, bool, u8); 15] = [
        (PostInc(X), false, 0x80),
        (PostIncInc(Y), true, 0x81 | 0x20 | 0x10),
        (PreDec(U), false, 0x82 | 0x40),
        (PreDecDec(S), true, 0x83 | 0x60 | 0x10),
        (Zero(X), false, 0x84),
        (Zero(Y), true, 0x84 | 0x20 | 0x10),
        (AddA(S), true, 0x86 | 0x60 | 0x10),
        (AddB(Y), false, 0x85 | 0x20),
        (AddD(U), false, 0x8b | 0x40),
        (PcOffsetByte(0), true, 0x8c | 0x10),
        (PcOffsetWord(0), false, 0x8d),
        (ExtendedIndirect, false, 0x9f),
        (Constant5BitOffset(Y, -3), false, 0x20 | 0x1d),
        (ConstantByteOffset(Y, 8), true, 0x88 | 0x20 | 0x10),
        (ConstantWordOffset(Y, 300), true, 0x89 | 0x20 | 0x10),
    ];
    for (mode, indirect, expected) in cases {
        assert_eq!(
            mode.get_index_byte(indirect),
            expected,
            "{mode:?} indirect={indirect}"
        );
    }
}

#[test]
fn transfer_register_numbers() {
    assert_eq!(reg_to_reg_num(RegEnum::D), 0);
    assert_eq!(reg_to_reg_num(RegEnum::X), 1);
    assert_eq!(reg_to_reg_num(RegEnum::PC), 5);
    assert_eq!(reg_to_reg_num(RegEnum::A), 8);
    assert_eq!(reg_to_reg_num(RegEnum::DP), 0xb);
    // tfr a,b
    assert_eq!(reg_pair_to_flags(RegEnum::A, RegEnum::B), 0x89);
    // exg x,y
    assert_eq!(reg_pair_to_flags(RegEnum::X, RegEnum::Y), 0x12);
}

#[test]
fn push_pull_register_lists() {
    assert_eq!(registers_to_flags(&vec![]), 0);
    assert_eq!(registers_to_flags(&vec![RegEnum::CC]), 0x01);
    assert_eq!(registers_to_flags(&vec![RegEnum::A, RegEnum::B]), 0x06);
    assert_eq!(registers_to_flags(&vec![RegEnum::D]), 0x06);
    assert_eq!(registers_to_flags(&vec![RegEnum::PC, RegEnum::X]), 0x90);
    assert_eq!(
        registers_to_flags(&vec![
            RegEnum::CC,
            RegEnum::A,
            RegEnum::B,
            RegEnum::DP,
            RegEnum::X,
            RegEnum::Y,
            RegEnum::U,
            RegEnum::PC
        ]),
        0xff
    );
}

#[test]
fn backends_start_without_direct_page() {
    assert_eq!(Asm6809::new().get_cpu_name(), "6809");
    assert_eq!(Asm6809::new(), Asm6809::default());
    assert_eq!(Assembler6809::new(), Assembler6809::default());
}
