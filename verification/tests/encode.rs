use gazm::assembler::asmout::AsmOut;
use gazm::assembler::binary::{AccessType, Binary};
use gazm::assembler::error::AsmError;
use gazm::assembler::sizer::Sizer;
use gazm::cpu6800::compiler::compile_opcode_6800;
use gazm::cpu6800::isa::{
    select_opcode, AddrModeEnum as M6800Mode, AddrModeParseType as P6800, Instruction as Ins6800,
    OpcodeData,
};
use gazm::cpu6809::compile::{compile_opcode, compile_set_dp};
use gazm::cpu6809::isa::{get_instruction, AddrModeEnum, Instruction, InstructionInfo};
use gazm::cpu6809::nodekind::{AddrModeParseType, IndexParseType, IndexWidth};
use gazm::cpu6809::regutils::RegEnum;
use gazm::cpu6809::sizer::{size_indexed, size_opcode};
use gazm::cpu6800::sizer::size_node_internal;
use gazm::assembler::compile::{compile_entry, Directive};
use gazm::assembler::plan::PlanKind;

fn image() -> Binary {
    Binary::new(0x10000, AccessType::ReadWrite)
}

fn row6800(opcode: usize, size: usize, addr_mode: M6800Mode) -> OpcodeData {
    OpcodeData { id: 0, opcode, size, addr_mode }
}

#[test]
fn m6800_rows_encode() {
    let ldaa = Ins6800 {
        rows: vec![
            row6800(0x86, 2, M6800Mode::Immediate8),
            row6800(0x96, 2, M6800Mode::Direct),
            row6800(0xa6, 2, M6800Mode::Indexed),
            row6800(0xb6, 3, M6800Mode::Extended),
        ],
    };
    let cases: [(P6800, i64, &[u8]); 4] = [
        (P6800::Immediate, 5, &[0x86, 0x05]),
        (P6800::Direct, 5, &[0x96, 0x05]),
        (P6800::Indexed, 5, &[0xa6, 0x05]),
        (P6800::Extended(false), 0x1000, &[0xb6, 0x10, 0x00]),
    ];
    for (amode, arg, expected) in cases {
        let (_, row) = select_opcode(&ldaa, amode).unwrap();
        let mut b = image();
        compile_opcode_6800(&mut b, &row, arg, false).unwrap();
        assert_eq!(b.get_bytes(0, expected.len()), Ok(expected), "{amode:?}");
    }
    assert_eq!(select_opcode(&ldaa, P6800::Inherent), None);
}

#[test]
fn m6800_relative_branches() {
    let bra = Ins6800 { rows: vec![row6800(0x20, 2, M6800Mode::Relative)] };
    // `bra skip` at 0 over a one-byte `nop` lands at 3.
    let (amode, row) = select_opcode(&bra, P6800::Extended(false)).unwrap();
    assert_eq!(amode, P6800::Relative);
    let mut b = image();
    compile_opcode_6800(&mut b, &row, 3, false).unwrap();
    // nop
    compile_opcode_6800(&mut b, &row6800(0x01, 1, M6800Mode::Inherent), 0, false).unwrap();
    assert_eq!(b.get_bytes(0, 3), Ok(&[0x20u8, 0x01, 0x01][..]));
}

fn row(opcode: usize, size: usize, addr_mode: AddrModeEnum) -> Instruction {
    Instruction { id: 0, opcode, size, addr_mode }
}

#[test]
fn m6809_forms_encode() {
    let lda = InstructionInfo {
        rows: vec![
            row(0x86, 2, AddrModeEnum::Immediate8),
            row(0x96, 2, AddrModeEnum::Direct),
            row(0xa6, 2, AddrModeEnum::Indexed),
            row(0xb6, 3, AddrModeEnum::Extended),
        ],
    };
    let ext = get_instruction(AddrModeParseType::Extended(false), &lda).unwrap();
    let mut b = image();
    compile_opcode(&mut b, ext, AddrModeParseType::Extended(false), 0x1234, &vec![], false).unwrap();
    assert_eq!(b.get_bytes(0, 3), Ok(&[0xb6u8, 0x12, 0x34][..]));

    let idx = get_instruction(AddrModeParseType::Indexed(IndexParseType::Zero(RegEnum::X), false), &lda)
        .unwrap();
    let mut b = image();
    compile_opcode(
        &mut b,
        idx,
        AddrModeParseType::Indexed(IndexParseType::ConstantByteOffset(RegEnum::Y, 8), true),
        8,
        &vec![],
        false,
    )
    .unwrap();
    assert_eq!(b.get_bytes(0, 3), Ok(&[0xa6u8, 0xb8, 0x08][..]));

    let pshs = row(0x34, 2, AddrModeEnum::RegisterSet);
    let mut b = image();
    compile_opcode(
        &mut b,
        &pshs,
        AddrModeParseType::RegisterSet,
        0,
        &vec![RegEnum::A, RegEnum::B, RegEnum::X],
        false,
    )
    .unwrap();
    assert_eq!(b.get_bytes(0, 2), Ok(&[0x34u8, 0x16][..]));

    let tfr = row(0x1f, 2, AddrModeEnum::RegisterPair);
    let mut b = image();
    compile_opcode(&mut b, &tfr, AddrModeParseType::RegisterPair(RegEnum::A, RegEnum::B), 0, &vec![], false)
        .unwrap();
    assert_eq!(b.get_bytes(0, 2), Ok(&[0x1fu8, 0x89][..]));
}

#[test]
fn indexed_offsets_are_sized_by_value() {
    let lda_idx = row(0xa6, 2, AddrModeEnum::Indexed);
    let mut s = Sizer::new(0);
    let m = size_indexed(
        &mut s,
        &lda_idx,
        IndexParseType::ConstantOffset(RegEnum::X, IndexWidth::Auto),
        false,
        0,
        )
    .unwrap();
    assert_eq!(m, AddrModeParseType::Indexed(IndexParseType::Zero(RegEnum::X), false));
    assert_eq!(s.get_pc(), 2);

    let mut s = Sizer::new(0);
    let m = size_indexed(
        &mut s,
        &lda_idx,
        IndexParseType::ConstantOffset(RegEnum::Y, IndexWidth::Auto),
        false,
        -3,
    )
    .unwrap();
    assert_eq!(m, AddrModeParseType::Indexed(IndexParseType::Constant5BitOffset(RegEnum::Y, -3), false));
    assert_eq!(s.get_pc(), 2);

    let mut s = Sizer::new(0);
    let m = size_indexed(
        &mut s,
        &lda_idx,
        IndexParseType::ConstantOffset(RegEnum::Y, IndexWidth::Auto),
        true,
        3,
    )
    .unwrap();
    assert_eq!(m, AddrModeParseType::Indexed(IndexParseType::ConstantByteOffset(RegEnum::Y, 3), true));
    assert_eq!(s.get_pc(), 3);

    let mut s = Sizer::new(0);
    let m = size_indexed(
        &mut s,
        &lda_idx,
        IndexParseType::ConstantOffset(RegEnum::U, IndexWidth::Auto),
        false,
        300,
    )
    .unwrap();
    assert_eq!(m, AddrModeParseType::Indexed(IndexParseType::ConstantWordOffset(RegEnum::U, 300), false));
    assert_eq!(s.get_pc(), 4);
}

#[test]
fn setdp_range() {
    let mut out = AsmOut::new(image());
    assert_eq!(compile_set_dp(&mut out, 0x12), Ok(()));
    assert_eq!(out.direct_page, Some(0x12));
    assert_eq!(compile_set_dp(&mut out, 256), Err(AsmError::SetDpOutOfRange(256)));
    assert_eq!(compile_set_dp(&mut out, -1), Err(AsmError::SetDpOutOfRange(-1)));
    assert_eq!(out.direct_page, Some(0x12));
}

use gazm::cpu6809::frontend::{
    opcode_for_operand, opcode_without_operand, operand_syntax, Cpu6809AssemblyErrorKind,
    OperandSyntax,
};

#[test]
fn rows_for_operands() {
    let nop = InstructionInfo { rows: vec![row(0x12, 1, AddrModeEnum::Inherent)] };
    assert_eq!(opcode_without_operand(&nop), Ok(row(0x12, 1, AddrModeEnum::Inherent)));
    let bra = InstructionInfo {
        rows: vec![row(0x20, 2, AddrModeEnum::Relative), row(0x16, 3, AddrModeEnum::Relative16)],
    };
    assert_eq!(
        opcode_without_operand(&bra),
        Err(Cpu6809AssemblyErrorKind::OnlySupports(AddrModeParseType::Inherent))
    );
    assert_eq!(
        opcode_for_operand(&bra, AddrModeParseType::Extended(false)),
        Ok(row(0x20, 2, AddrModeEnum::Relative))
    );
    assert_eq!(
        opcode_for_operand(&bra, AddrModeParseType::Immediate),
        Err(Cpu6809AssemblyErrorKind::ThisAddrModeUnsupported(AddrModeParseType::Immediate))
    );
    let pshs = InstructionInfo { rows: vec![row(0x34, 2, AddrModeEnum::RegisterSet)] };
    assert_eq!(operand_syntax(&pshs), OperandSyntax::RegisterSet);
    let tfr = InstructionInfo { rows: vec![row(0x1f, 2, AddrModeEnum::RegisterPair)] };
    assert_eq!(operand_syntax(&tfr), OperandSyntax::RegisterPair);
    assert_eq!(operand_syntax(&bra), OperandSyntax::General);
}

#[test]
fn compiled_indexed_instruction_takes_its_sized_length() {
    let lda_idx = row(0xa6, 2, AddrModeEnum::Indexed);
    for (pmode, indirect, offset) in [
        (IndexParseType::ConstantOffset(RegEnum::X, IndexWidth::Auto), false, 0i64),
        (IndexParseType::ConstantOffset(RegEnum::Y, IndexWidth::Auto), false, -3),
        (IndexParseType::ConstantOffset(RegEnum::Y, IndexWidth::Auto), true, 3),
        (IndexParseType::ConstantOffset(RegEnum::U, IndexWidth::Auto), false, 300),
        (IndexParseType::PCOffset, false, 100),
        (IndexParseType::PCOffset, true, 1000),
        (IndexParseType::Zero(RegEnum::S), false, 0),
    ] {
        let mut s = Sizer::new(0);
        s.set_pc(0x100);
        let form = size_indexed(&mut s, &lda_idx, pmode, indirect, offset)
            .unwrap_or(AddrModeParseType::Indexed(pmode, indirect));
        let sized = s.get_pc() - 0x100;
        let mut b = image();
        b.set_write_address(0x100, 0);
        compile_opcode(&mut b, &lda_idx, form, offset, &vec![], false).unwrap();
        assert_eq!(b.get_write_address() - 0x100, sized, "{pmode:?} {indirect}");
    }
}

#[test]
fn compiled_instructions_take_their_row_size() {
    let rows = [
        (row(0x86, 2, AddrModeEnum::Immediate8), AddrModeParseType::Immediate, 5i64),
        (row(0xcc, 3, AddrModeEnum::Immediate16), AddrModeParseType::Immediate, 0x1234),
        (row(0x96, 2, AddrModeEnum::Direct), AddrModeParseType::Direct, 0x12),
        (row(0x10ce, 4, AddrModeEnum::Immediate16), AddrModeParseType::Immediate, 0x4000),
        (row(0x12, 1, AddrModeEnum::Inherent), AddrModeParseType::Inherent, 0),
        (row(0x20, 2, AddrModeEnum::Relative), AddrModeParseType::Relative, 0x110),
        (row(0x16, 3, AddrModeEnum::Relative16), AddrModeParseType::Relative, 0x2000),
    ];
    for (ins, amode, arg) in rows {
        let mut b = image();
        b.set_write_address(0x100, 0);
        compile_opcode(&mut b, &ins, amode, arg, &vec![], false).unwrap();
        assert_eq!(b.get_write_address() - 0x100, ins.size, "{ins:?}");
    }
}

#[test]
fn sized_instructions_are_planned_and_replayed() {
    let lda_ext = row(0xb6, 3, AddrModeEnum::Extended);
    let lda_dir = row(0x96, 2, AddrModeEnum::Direct);
    let lda_idx = row(0xa6, 2, AddrModeEnum::Indexed);
    let mut s = Sizer::new(0);
    s.set_pc(0x1000);
    // `lda $1234` with the direct page at $12 shrinks to the direct row.
    let fix = size_opcode(&mut s, 7, &lda_ext, Some(&lda_dir), AddrModeParseType::Extended(false), Some(0x12), Ok(0x1234))
        .unwrap();
    assert_eq!(fix, Some((lda_dir, AddrModeParseType::Direct)));
    // `lda 300,u` takes a word offset.
    let pmode = IndexParseType::ConstantOffset(RegEnum::U, IndexWidth::Auto);
    let fix2 = size_opcode(&mut s, 8, &lda_idx, None, AddrModeParseType::Indexed(pmode, false), None, Ok(300))
        .unwrap();
    let (_, form) = fix2.unwrap();
    assert_eq!(s.plan.len(), 2);
    assert_eq!((s.plan[0].node_id, s.plan[0].pc, s.plan[0].kind), (7, 0x1000, PlanKind::TargetSpecific(2)));
    assert_eq!((s.plan[1].node_id, s.plan[1].pc, s.plan[1].kind), (8, 0x1002, PlanKind::TargetSpecific(4)));
    assert_eq!(s.get_pc(), 0x1006);

    let mut out = AsmOut::new(image());
    out.binary.set_write_address(0x1000, 0);
    compile_entry(&mut out, &s.plan[0], &Directive::Op6809(lda_dir, AddrModeParseType::Direct, 0x1234, vec![], false))
        .unwrap();
    compile_entry(&mut out, &s.plan[1], &Directive::Op6809(lda_idx, form, 300, vec![], false)).unwrap();
    assert_eq!(out.get_binary().get_write_address(), 0x1006);
    assert_eq!(out.get_binary().get_bytes(0x1000, 2), Ok(&[0x96u8, 0x34][..]));

    // An indexed offset that could not be evaluated is an error, and
    // nothing is laid out.
    let err = size_opcode(
        &mut s,
        9,
        &lda_idx,
        None,
        AddrModeParseType::Indexed(pmode, false),
        None,
        Err(AsmError::SymbolNotFound(3)),
    );
    assert_eq!(err, Err(AsmError::SymbolNotFound(3)));
    assert_eq!(s.plan.len(), 2);
    assert_eq!(s.get_pc(), 0x1006);
}

#[test]
fn m6800_instructions_are_planned_and_replayed() {
    let ldaa_ext = row6800(0xb6, 3, M6800Mode::Extended);
    let ldaa_dir = row6800(0x96, 2, M6800Mode::Direct);
    let mut s = Sizer::new(0);
    let r = size_node_internal(&mut s, 3, &ldaa_ext, Some(&ldaa_dir), P6800::Extended(false), Some(0x42));
    assert_eq!(r, Some(ldaa_dir));
    assert_eq!(s.plan[0].kind, PlanKind::TargetSpecific(2));
    let mut out = AsmOut::new(image());
    compile_entry(&mut out, &s.plan[0], &Directive::Op6800(ldaa_dir, 0x42, false)).unwrap();
    assert_eq!(out.get_binary().get_bytes(0, 2), Ok(&[0x96u8, 0x42][..]));
}
