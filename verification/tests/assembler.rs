use gazm::assembler::asmout::{AsmOut, Assemblers, BinReference, LstFile};
use gazm::assembler::binary::{AccessType, BinRef, Binary, BinaryError, MemoryLocation, WriteStatus};
use gazm::assembler::bytesizes::{ByteSize, ByteSizes};
use gazm::assembler::compile::{compile_directive, compile_entry, Directive};
use gazm::assembler::error::AsmError;
use gazm::assembler::opcodes::{
    try_direct_page, write_eval_byte, write_opcode, write_relative_byte, write_relative_word,
};
use gazm::assembler::plan::{PlanEntry, PlanKind};
use gazm::assembler::sizer::{SizeItem, Sizer, Stmt};
use gazm::assembler::binary::AccessType::ReadWrite;

fn image() -> Binary {
    Binary::new(0x10000, ReadWrite)
}

#[test]
fn write_then_read_back() {
    let mut b = image();
    b.set_write_address(0x1000, 0);
    assert_eq!(b.write_byte(0x12), Ok(WriteStatus::Checked));
    assert_eq!(b.write_word(0x3456), Ok(WriteStatus::Checked));
    assert_eq!(b.get_write_address(), 0x1003);
    assert_eq!(b.get_bytes(0x1000, 3), Ok(&[0x12u8, 0x34, 0x56][..]));
    assert_eq!(b.get_range(), Some((0x1000, 0x1002)));
    assert_eq!(b.get_bytes(0x1000, 0), Err(BinaryError::AskedForZeroBytes));
}

#[test]
fn write_offset_moves_physical_address() {
    let mut b = image();
    b.set_write_address(0x100, 0x200);
    assert_eq!(
        b.get_write_location(),
        MemoryLocation { logical: 0x100, physical: 0x300 }
    );
    b.write_byte(7).unwrap();
    assert_eq!(b.get_bytes(0x300, 1), Ok(&[7u8][..]));
    assert_eq!(b.get_write_address(), 0x101);
}

#[test]
fn fill_and_skip() {
    let mut b = image();
    b.fill(4, 0xaa).unwrap();
    b.skip(2);
    b.write_bytes(&[1, 2]).unwrap();
    assert_eq!(b.get_bytes(0, 8), Ok(&[0xaau8, 0xaa, 0xaa, 0xaa, 0, 0, 1, 2][..]));
}

#[test]
fn read_only_image_refuses_writes() {
    let mut b = Binary::new(0x100, AccessType::ReadOnly);
    assert_eq!(
        b.write_byte(1),
        Err(BinaryError::IllegalWrite(MemoryLocation { logical: 0, physical: 0 }))
    );
    assert_eq!(b.get_write_address(), 0);
}

#[test]
fn watched_address_halts() {
    let mut b = image();
    b.add_watch(0x10..0x20);
    b.set_write_address(0x10, 0);
    assert_eq!(
        b.write_byte(1),
        Err(BinaryError::Halt(MemoryLocation { logical: 0x10, physical: 0x10 }))
    );
}

#[test]
fn size_checked_writes_report_the_field() {
    let mut b = image();
    assert_eq!(b.write_byte_check_size(-1), Ok(WriteStatus::Checked));
    assert_eq!(b.write_byte_check_size(255), Ok(WriteStatus::Checked));
    assert_eq!(
        b.write_byte_check_size(256),
        Err(BinaryError::DoesNotFit { dest_type: "i8 or u8".to_string(), val: 256 })
    );
    assert_eq!(
        b.write_ubyte_check_size(-1),
        Err(BinaryError::DoesNotFit { dest_type: "u8".to_string(), val: -1 })
    );
    assert_eq!(
        b.write_ibyte_check_size(128),
        Err(BinaryError::DoesNotFit { dest_type: "i8".to_string(), val: 128 })
    );
    assert_eq!(
        b.write_word_check_size(65536),
        Err(BinaryError::DoesNotFit { dest_type: "i16 or u16".to_string(), val: 65536 })
    );
    assert_eq!(b.get_bytes(0, 2), Ok(&[0xffu8, 0xff][..]));
}

#[test]
fn reference_mismatches_are_grouped_into_runs() {
    let mut b = Binary::new(8, ReadWrite);
    b.write_bytes(&[1, 2, 3, 4, 5, 6, 7, 8]).unwrap();
    let r = BinRef::new("ref.bin".to_string(), 0..8, 0);
    b.bin_reference(&r, &[1, 0, 0, 4, 5, 0, 7, 8]);
    assert_eq!(b.check_against_referece(), vec![(0, 2), (5, 1)]);
}

#[test]
fn bin_reference_from_options() {
    let r = BinRef::from_bin_reference(
        BinReference { file: "orig/roms/01".to_string(), addr: 0x4000 },
        0x10..0x30,
    );
    assert_eq!(r.file, "orig/roms/01");
    assert_eq!(r.start, 0x10);
    assert_eq!(r.size, 0x20);
    assert_eq!(r.dest, 0x4000);
}

#[test]
fn byte_size_promotion() {
    let mut s = ByteSizes::Bits5(3);
    s.promote();
    assert_eq!(s, ByteSizes::Byte(3));
    s.promote();
    assert_eq!(s, ByteSizes::Word(3));
    s.promote();
    assert_eq!(s, ByteSizes::Word(3));
    let mut z = ByteSizes::Zero;
    z.promote();
    assert_eq!(z, ByteSizes::Zero);
    assert_eq!(0i64.byte_size(), ByteSizes::Zero);
    assert_eq!((-16i64).byte_size(), ByteSizes::Byte(-16));
    assert_eq!(15i64.byte_size(), ByteSizes::Bits5(15));
    assert_eq!(200i64.byte_size(), ByteSizes::Word(200));
}

#[test]
fn relative_branches() {
    // bra at 0 to 3: the displacement is counted from the next instruction
    let mut b = image();
    write_opcode(&mut b, 0x20).unwrap();
    write_relative_byte(&mut b, 3, 0, 2, false).unwrap();
    assert_eq!(b.get_bytes(0, 2), Ok(&[0x20u8, 0x01][..]));

    let mut b = image();
    assert_eq!(
        write_relative_byte(&mut b, 200, 0, 2, false),
        Err(AsmError::BranchOutOfRange { by: 71, val: 198 })
    );
    assert_eq!(b.get_write_address(), 0);
    assert_eq!(
        write_relative_byte(&mut b, -200, 0, 2, false),
        Err(AsmError::BranchOutOfRange { by: 74, val: -202 })
    );
    write_relative_byte(&mut b, 200, 0, 2, true).unwrap();
    assert_eq!(b.get_bytes(0, 1), Ok(&[0u8][..]));

    let mut b = image();
    b.set_write_address(0x100, 0);
    write_relative_word(&mut b, 0x80, 0x100, 3).unwrap();
    assert_eq!(b.get_bytes(0x100, 2), Ok(&[0xffu8, 0x7d][..]));
}

#[test]
fn prefixed_opcodes_take_two_bytes() {
    let mut b = image();
    write_opcode(&mut b, 0x10ce).unwrap();
    write_eval_byte(&mut b, -2).unwrap();
    assert_eq!(b.get_bytes(0, 3), Ok(&[0x10u8, 0xce, 0xfe][..]));
}

#[test]
fn direct_page_selection() {
    assert_eq!(try_direct_page(Some(0x12), Some(0x1234), Some((2, 7))), Some((2, 7)));
    assert_eq!(try_direct_page(Some(0x12), Some(0x1334), Some((2, 7))), None);
    assert_eq!(try_direct_page(None, Some(0x1234), Some((2, 7))), None);
    assert_eq!(try_direct_page(Some(0x12), None, Some((2, 7))), None);
    assert_eq!(try_direct_page(Some(0x12), Some(0x1234), None), None);
}

#[test]
fn directives_emit_their_bytes() {
    let mut out = AsmOut::new(image());
    compile_directive(&mut out, &Directive::SetPc(0x200)).unwrap();
    compile_directive(&mut out, &Directive::Fcb(vec![1, -1, 255])).unwrap();
    compile_directive(&mut out, &Directive::Fdb(vec![0x1234, -2])).unwrap();
    compile_directive(&mut out, &Directive::Fcc(b"AB".to_vec())).unwrap();
    compile_directive(&mut out, &Directive::Zmd(1)).unwrap();
    compile_directive(&mut out, &Directive::Fill(2, 9)).unwrap();
    compile_directive(&mut out, &Directive::Exec(0x200)).unwrap();
    assert_eq!(out.exec_addr, Some(0x200));
    assert_eq!(
        out.get_binary().get_bytes(0x200, 13),
        Ok(&[1u8, 0xff, 0xff, 0x12, 0x34, 0xff, 0xfe, b'A', b'B', 0, 0, 9, 9][..])
    );
    assert_eq!(
        compile_directive(&mut out, &Directive::Fcb(vec![300])),
        Err(AsmError::Binary(BinaryError::DoesNotFit {
            dest_type: "i8 or u8".to_string(),
            val: 300
        }))
    );
}

#[test]
fn grab_mem_copies_earlier_bytes() {
    let mut out = AsmOut::new(image());
    compile_directive(&mut out, &Directive::Fcb(vec![5, 6, 7])).unwrap();
    compile_directive(&mut out, &Directive::GrabMem(0, 3)).unwrap();
    assert_eq!(out.get_binary().get_bytes(3, 3), Ok(&[5u8, 6, 7][..]));
}

#[test]
fn planned_entries_emit_at_their_pc() {
    let mut out = AsmOut::new(image());
    let e = PlanEntry { scope_id: 0, node_id: 1, kind: PlanKind::EmitBytes(2), pc: 0, bindings: vec![] };
    compile_entry(&mut out, &e, &Directive::Fcb(vec![1, 2])).unwrap();
    assert_eq!(out.get_binary().get_write_address(), 2);
}

#[test]
fn direct_page_register() {
    let mut out = AsmOut::new(image());
    assert_eq!(out.direct_page, None);
    out.set_dp(0x12);
    assert_eq!(out.direct_page, Some(0x12));
    out.reset_dp();
    assert_eq!(out.direct_page, None);
    let _ = Assemblers {};
}

#[test]
fn listing_lines() {
    let mut l = LstFile::new();
    assert!(l.lines.is_empty());
    l.add("  nop");
    l.add("  rts");
    assert_eq!(l.lines, vec!["  nop".to_string(), "  rts".to_string()]);
}

#[test]
fn test_sections_independent_location_counters() {
    // section rom_01, start = $1000, size = $1000
    // ENTRY: nop
    //        nop
    // section dp_ram, start = $9800, size = $100
    // VAR1: rmb 2
    // VAR2: rmb 1
    // section rom_01
    // CONT: nop
    const ENTRY: u64 = 1;
    const VAR1: u64 = 2;
    const VAR2: u64 = 3;
    const CONT: u64 = 4;
    let prog = vec![
        Stmt::Item(1, SizeItem::Section("rom_01".to_string(), Some((0x1000, Some(0x1000))))),
        Stmt::Item(2, SizeItem::Label(ENTRY, None)),
        Stmt::Item(3, SizeItem::Instruction(1)),
        Stmt::Item(4, SizeItem::Instruction(1)),
        Stmt::Item(5, SizeItem::Section("dp_ram".to_string(), Some((0x9800, Some(0x100))))),
        Stmt::Item(6, SizeItem::Label(VAR1, None)),
        Stmt::Item(7, SizeItem::ReserveBytes(2)),
        Stmt::Item(8, SizeItem::Label(VAR2, None)),
        Stmt::Item(9, SizeItem::ReserveBytes(1)),
        Stmt::Item(10, SizeItem::Section("rom_01".to_string(), None)),
        Stmt::Item(11, SizeItem::Label(CONT, None)),
        Stmt::Item(12, SizeItem::Instruction(1)),
    ];
    let mut s = Sizer::new(0);
    assert_eq!(s.size_program(&prog), Ok(()));

    assert_eq!(s.symbol_value(ENTRY), Some(0x1000));
    assert_eq!(s.symbol_value(VAR1), Some(0x9800));
    assert_eq!(s.symbol_value(VAR2), Some(0x9802));
    assert_eq!(s.symbol_value(CONT), Some(0x1002));
    assert!(s.check_section_bounds().is_ok());

    let secs = s.section_descriptors();
    assert_eq!(secs.len(), 2);
    assert_eq!(secs[0].name, "rom_01");
    assert_eq!((secs[0].logical_range.start, secs[0].logical_range.end), (0x1000, 0x1003));
    assert_eq!(secs[1].name, "dp_ram");
    assert_eq!((secs[1].logical_range.start, secs[1].logical_range.end), (0x9800, 0x9803));
    assert_eq!(secs[1].access_type, AccessType::ReadWrite);

    assert_eq!(s.plan.len(), 12);
    assert_eq!(s.plan[2].kind, PlanKind::TargetSpecific(1));
    assert_eq!(s.plan[3].pc, 0x1001);
    assert_eq!(s.plan[9].kind, PlanKind::SetPc(0x1002));
    assert_eq!(s.plan[11].pc, 0x1002);
}

#[test]
fn test_section_overflow() {
    let mut s = Sizer::new(0);
    s.size_node(1, &SizeItem::Section("small_sec".to_string(), Some((0x1000, Some(4)))))
        .unwrap();
    for id in 2..7 {
        s.size_node(id, &SizeItem::EmitBytes(1)).unwrap();
    }
    assert_eq!(
        s.check_section_bounds(),
        Err(AsmError::SectionOverflow {
            name: "small_sec".to_string(),
            overflow: 1,
            used: 5,
            max: 4
        })
    );
}

#[test]
fn unknown_section_and_negative_reserve() {
    let mut s = Sizer::new(0);
    assert_eq!(
        s.size_node(1, &SizeItem::Section("nope".to_string(), None)),
        Err(AsmError::UnknownSection("nope".to_string()))
    );
    assert_eq!(s.size_node(2, &SizeItem::ReserveBytes(-1)), Err(AsmError::NegativeReserve(-1)));
    assert!(s.plan.is_empty());
}

use gazm::assembler::compile::binary_extents;
use gazm::assembler::fixerupper::FixerUpper;

#[test]
fn output_from_options_holds_references() {
    let out = AsmOut::from_opts(
        0x100,
        vec![(BinReference { file: "rom".to_string(), addr: 0x10 }, vec![1, 2, 3])],
    );
    assert_eq!(out.get_binary().data().len(), 0x100);
    assert!(out.bin_to_write_chunks.is_empty());
    let mut b = out.binary;
    b.set_write_address(0x10, 0);
    b.write_bytes(&[1, 9, 3]).unwrap();
    assert_eq!(b.check_against_referece(), vec![(0, 0), (0x11, 1)]);
}

#[test]
fn chunks_to_write_copy_the_image() {
    let mut out = AsmOut::new(image());
    compile_directive(&mut out, &Directive::Fcb(vec![4, 5, 6])).unwrap();
    out.add_bin_to_write("out.bin".to_string(), 1, 3).unwrap();
    assert_eq!(out.bin_to_write_chunks.len(), 1);
    assert_eq!(out.bin_to_write_chunks[0].data, vec![5, 6]);
    assert_eq!(out.bin_to_write_chunks[0].file, "out.bin");
    assert_eq!((out.bin_to_write_chunks[0].start, out.bin_to_write_chunks[0].end), (1, 3));
    assert_eq!(
        out.add_bin_to_write("empty.bin".to_string(), 2, 2),
        Err(AsmError::Binary(BinaryError::AskedForZeroBytes))
    );
    assert_eq!(out.bin_to_write_chunks.len(), 1);
}

#[test]
fn incbin_reference_checks_the_image() {
    let mut out = AsmOut::new(Binary::new(8, ReadWrite));
    out.inc_bin_ref("ref.bin".to_string(), &[7, 7, 7, 7], &vec![2, 2]);
    let mut b = out.binary;
    b.write_bytes(&[0, 0, 7, 0]).unwrap();
    assert_eq!(b.check_against_referece(), vec![(0, 0), (3, 1)]);
}

#[test]
fn binary_extents_of_a_file() {
    assert_eq!(binary_extents(16, 4, 8), Ok((4, 12)));
    assert_eq!(binary_extents(16, 0, 16), Ok((0, 16)));
    assert_eq!(
        binary_extents(16, 8, 9),
        Err(AsmError::GrabOutOfRange { offset: 8, size: 9, file_size: 16 })
    );
    assert_eq!(
        binary_extents(16, 16, 1),
        Err(AsmError::GrabOutOfRange { offset: 16, size: 1, file_size: 16 })
    );
}

#[test]
fn fixups_read_back() {
    let mut f: FixerUpper<PlanKind> = FixerUpper::new();
    assert_eq!(f.get_fixup(0, 1), None);
    f.add_fixup(0, 1, PlanKind::SetPc(0x100));
    f.add_fixup(1, 1, PlanKind::Skip(2));
    assert_eq!(f.get_fixup(0, 1), Some(&PlanKind::SetPc(0x100)));
    f.add_fixup(0, 1, PlanKind::SetPc(0x200));
    assert_eq!(f.get_fixup(0, 1), Some(&PlanKind::SetPc(0x200)));
    assert_eq!(f.get_fixup(1, 1), Some(&PlanKind::Skip(2)));
    assert_eq!(f.get_fixup_or_default(2, 1, &PlanKind::Comment), PlanKind::Comment);
    assert_eq!(f.get_fixup_or_default(1, 1, &PlanKind::Comment), PlanKind::Skip(2));
}

use gazm::assembler::msg::{assertion_message, format_msg, MsgPart};

#[test]
fn messages_put_values_in_decimal() {
    let parts = vec![
        MsgPart::Text("table: ".to_string()),
        MsgPart::Value(0),
        MsgPart::Text(" bytes".to_string()),
    ];
    assert_eq!(format_msg(&parts, &vec![42], 0).unwrap(), "table: 42 bytes");
    let parts = vec![
        MsgPart::Text("got ".to_string()),
        MsgPart::Value(0),
        MsgPart::Text(", expected ".to_string()),
        MsgPart::Value(1),
    ];
    // value expressions of an assert follow its condition
    assert_eq!(format_msg(&parts, &vec![0, 2, 2], 1).unwrap(), "got 2, expected 2");
    assert_eq!(format_msg(&vec![MsgPart::Value(0)], &vec![-305], 0).unwrap(), "-305");
    assert_eq!(
        format_msg(&vec![MsgPart::Value(0)], &vec![i64::MIN], 0).unwrap(),
        "-9223372036854775808"
    );
    assert_eq!(format_msg(&vec![MsgPart::Value(0)], &vec![0], 0).unwrap(), "0");
    assert_eq!(format_msg(&vec![MsgPart::Value(1)], &vec![5], 0), Err(AsmError::MessageValueMissing));
    assert_eq!(format_msg(&vec![], &vec![], 3).unwrap(), "");
    assert_eq!(assertion_message(""), "assertion failed");
    assert_eq!(assertion_message("got 2, expected 2"), "assertion failed: got 2, expected 2");
}

use gazm::assembler::sizer::{
    check_loop_signal, if_branch, loop_step, while_continues, Branch, LoopSignal, LoopStep,
    MAX_WHILE_ITERATIONS,
};

#[test]
fn control_flow_decisions() {
    assert_eq!(loop_step(Some(LoopSignal::Break)), LoopStep::ExitLoop);
    assert_eq!(loop_step(Some(LoopSignal::Continue)), LoopStep::NextIteration);
    assert_eq!(loop_step(None), LoopStep::NextStatement);

    assert_eq!(while_continues(0, 0), Ok(false));
    assert_eq!(while_continues(0, 1), Ok(true));
    assert_eq!(while_continues(MAX_WHILE_ITERATIONS - 1, -1), Ok(true));
    assert_eq!(
        while_continues(MAX_WHILE_ITERATIONS, 1),
        Err(AsmError::WhileLimitExceeded(65536))
    );

    // if 1 { fcb 1 } else { fcb 2 }
    assert_eq!(if_branch(1, &vec![false, true]), Branch::Then(1));
    assert_eq!(if_branch(0, &vec![false, true]), Branch::Else(Some(1)));
    // if 0 { fcb 1 }
    assert_eq!(if_branch(0, &vec![false]), Branch::Else(None));
    assert_eq!(if_branch(5, &vec![false, false]), Branch::Then(2));

    assert_eq!(check_loop_signal(None), Ok(()));
    assert_eq!(check_loop_signal(Some(LoopSignal::Break)), Err(AsmError::LoopSignalOutsideLoop));
}

#[test]
fn direct_page_from_a_value() {
    let mut out = AsmOut::new(image());
    out.set_dp_value(0x1234);
    assert_eq!(out.direct_page, Some(0x34));
    out.set_dp_value(-1);
    assert_eq!(out.direct_page, None);
}
