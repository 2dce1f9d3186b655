//! Emitting 6809 instructions: opcode bytes, then operand bytes chosen by
//! the instruction row's addressing mode.
use vstd::prelude::*;
use crate::assembler::asmout::AsmOut;
use crate::assembler::binary::{Binary, BinaryModel, word_bytes};
use crate::assembler::error::{AsmError, binary_error_map, lift};
use crate::assembler::opcodes::{
    branch_computable, branch_offset, byte_check_step, opcode_bytes, out_of_range_by,
    word_check_step, write_eval_byte, write_eval_word, write_opcode, write_relative_byte,
    write_relative_word, write_signed_byte,
};
use super::isa::{AddrModeEnum, Instruction};
use super::nodekind::{AddrModeParseType, IndexParseType};
use super::sizer::{resolve_indexed, sized_form};
use crate::assembler::binary::lemma_write_bytes_advances;
use super::regutils::{reg_num, reg_pair_to_flags, register_set_flags, registers_to_flags};

verus! {

/// The operand bytes after an indexed postbyte can be attempted.
pub open spec fn index_operand_can(m: BinaryModel, imode: IndexParseType, arg: i64) -> bool {
    match imode {
        IndexParseType::ExtendedIndirect => 0 <= arg < 65536 ==> m.can_write_bytes(
            word_bytes(arg as u16),
        ),
        IndexParseType::ConstantWordOffset(_, v) => m.can_write_bytes(word_bytes(v as i64 as u16)),
        IndexParseType::PcOffsetWord(v) => m.can_write_bytes(word_bytes(v as i64 as u16)),
        IndexParseType::ConstantByteOffset(_, _) => m.can_write_byte(),
        IndexParseType::PcOffsetByte(_) => m.can_write_byte(),
        _ => true,
    }
}

/// The operand bytes after an indexed postbyte: the 16-bit address of an
/// extended indirect operand, or the word or byte displacement.
pub open spec fn index_operand_step(
    m: BinaryModel,
    new: BinaryModel,
    res: Result<(), AsmError>,
    imode: IndexParseType,
    arg: i64,
) -> bool {
    match imode {
        IndexParseType::ExtendedIndirect => word_check_step(m, new, res, arg, 0, 65536, "u16"@),
        IndexParseType::ConstantWordOffset(_, v) => word_check_step(
            m,
            new,
            res,
            v as i64,
            -32768,
            32768,
            "i16"@,
        ),
        IndexParseType::PcOffsetWord(v) => word_check_step(m, new, res, v as i64, -32768, 32768, "i16"@),
        IndexParseType::ConstantByteOffset(_, v) => byte_check_step(m, new, res, v as i64, -128, 128, "i8"@),
        IndexParseType::PcOffsetByte(v) => byte_check_step(m, new, res, v as i64, -128, 128, "i8"@),
        _ => new == m && res == Ok::<(), AsmError>(()),
    }
}

/// An indexed operand can be attempted.
pub open spec fn indexed_can(m: BinaryModel, imode: IndexParseType, indirect: bool, arg: i64) -> bool {
    &&& imode.is_encodable()
    &&& m.can_write_byte()
    &&& match m.write_byte_result(imode.index_byte(indirect)) {
        (m1, Ok(_)) => index_operand_can(m1, imode, arg),
        _ => true,
    }
}

/// An indexed operand: the postbyte, then the operand bytes of its form.
pub open spec fn indexed_step(
    m: BinaryModel,
    new: BinaryModel,
    res: Result<(), AsmError>,
    imode: IndexParseType,
    indirect: bool,
    arg: i64,
) -> bool {
    match m.write_byte_result(imode.index_byte(indirect)) {
        (m1, Ok(_)) => index_operand_step(m1, new, res, imode, arg),
        (m1, Err(e)) => new == m1 && res == Err::<(), AsmError>(AsmError::Binary(e)),
    }
}

/// Write an indexed operand: the postbyte, then the displacement or
/// address. `arg` is the evaluated operand of an extended indirect form.
pub fn compile_indexed(bin: &mut Binary, imode: IndexParseType, indirect: bool, arg: i64) -> (res:
    Result<(), AsmError>)
    requires
        indexed_can(old(bin)@, imode, indirect, arg),
    ensures
        indexed_step(old(bin)@, final(bin)@, res, imode, indirect, arg),
{
    let idx_byte = imode.get_index_byte(indirect);
    binary_error_map(bin.write_byte(idx_byte))?;

    match imode {
        IndexParseType::ExtendedIndirect => {
            binary_error_map(bin.write_uword_check_size(arg))?;
        },
        IndexParseType::ConstantWordOffset(_, val) | IndexParseType::PcOffsetWord(val) => {
            binary_error_map(bin.write_iword_check_size(val as i64))?;
        },
        IndexParseType::ConstantByteOffset(_, val) | IndexParseType::PcOffsetByte(val) => {
            write_signed_byte(bin, val as i64)?;
        },
        _ => (),
    }
    Ok(())
}

/// The operand of an instruction row can be attempted after its opcode.
pub open spec fn operand_can(
    m: BinaryModel,
    ins: Instruction,
    amode: AddrModeParseType,
    arg: i64,
    regs: Seq<super::regutils::RegEnum>,
    ignore_relative_offset_errors: bool,
    pc: usize,
) -> bool {
    match ins.addr_mode {
        AddrModeEnum::Indexed => match amode {
            AddrModeParseType::Indexed(imode, indirect) => indexed_can(m, imode, indirect, arg),
            _ => true,
        },
        AddrModeEnum::Immediate8 => -128 <= arg < 256 ==> m.can_write_byte(),
        AddrModeEnum::Direct => m.can_write_byte(),
        AddrModeEnum::Extended | AddrModeEnum::Immediate16 => -32768 <= arg < 65536
            ==> m.can_write_bytes(word_bytes(arg as u16)),
        AddrModeEnum::Relative => {
            &&& branch_computable(arg, pc, ins.size)
            &&& (-128 <= branch_offset(arg, pc, ins.size) < 128 || ignore_relative_offset_errors)
                ==> m.can_write_byte()
        },
        AddrModeEnum::Relative16 => {
            &&& branch_computable(arg, pc, ins.size)
            &&& m.can_write_bytes(
                word_bytes(((branch_offset(arg, pc, ins.size) as i64) & 0xffff) as u16),
            )
        },
        AddrModeEnum::Inherent => true,
        AddrModeEnum::RegisterPair => amode is RegisterPair && m.can_write_byte(),
        AddrModeEnum::RegisterSet => m.can_write_byte(),
    }
}

/// The operand bytes of an instruction row, after its opcode.
pub open spec fn operand_step(
    m: BinaryModel,
    new: BinaryModel,
    res: Result<(), AsmError>,
    ins: Instruction,
    amode: AddrModeParseType,
    arg: i64,
    regs: Seq<super::regutils::RegEnum>,
    ignore_relative_offset_errors: bool,
    pc: usize,
) -> bool {
    match ins.addr_mode {
        AddrModeEnum::Indexed => match amode {
            AddrModeParseType::Indexed(imode, indirect) => indexed_step(m, new, res, imode, indirect, arg),
            _ => new == m && res == Ok::<(), AsmError>(()),
        },
        AddrModeEnum::Immediate8 => byte_check_step(m, new, res, arg, -128, 256, "i8 or u8"@),
        AddrModeEnum::Direct => {
            let (m1, r) = m.write_byte_result((arg & 0xff) as u8);
            new == m1 && res == lift(r)
        },
        AddrModeEnum::Extended | AddrModeEnum::Immediate16 => word_check_step(
            m,
            new,
            res,
            arg,
            -32768,
            65536,
            "i16 or u16"@,
        ),
        AddrModeEnum::Relative => {
            let val = branch_offset(arg, pc, ins.size);
            if -128 <= val < 128 {
                let (m1, r) = m.write_byte_result(val as u8);
                new == m1 && res == lift(r)
            } else if ignore_relative_offset_errors {
                let (m1, r) = m.write_byte_result(0);
                new == m1 && res == lift(r)
            } else {
                &&& new == m
                &&& res == Err::<(), AsmError>(
                    AsmError::BranchOutOfRange { by: out_of_range_by(val) as i64, val: val as i64 },
                )
            }
        },
        AddrModeEnum::Relative16 => {
            let (m1, r) = m.write_bytes_result(
                word_bytes(((branch_offset(arg, pc, ins.size) as i64) & 0xffff) as u16),
            );
            new == m1 && res == lift(r)
        },
        AddrModeEnum::Inherent => new == m && res == Ok::<(), AsmError>(()),
        AddrModeEnum::RegisterPair => match amode {
            AddrModeParseType::RegisterPair(a, b) => {
                let (m1, r) = m.write_byte_result(super::regutils::pair_postbyte(a, b));
                new == m1 && res == lift(r)
            },
            _ => false,
        },
        AddrModeEnum::RegisterSet => {
            let (m1, r) = m.write_byte_result(register_set_flags(regs));
            new == m1 && res == lift(r)
        },
    }
}

/// An instruction can be attempted: its opcode bytes, then its operand.
pub open spec fn opcode_can(
    m: BinaryModel,
    ins: Instruction,
    amode: AddrModeParseType,
    arg: i64,
    regs: Seq<super::regutils::RegEnum>,
    ignore_relative_offset_errors: bool,
) -> bool {
    &&& m.can_write_bytes(opcode_bytes(ins.opcode))
    &&& match m.write_bytes_result(opcode_bytes(ins.opcode)) {
        (m1, Ok(_)) => operand_can(
            m1,
            ins,
            amode,
            arg,
            regs,
            ignore_relative_offset_errors,
            m.write_address,
        ),
        _ => true,
    }
}

/// An instruction: its opcode bytes, then its operand bytes; branch
/// displacements are taken from the instruction's own address.
pub open spec fn opcode_step(
    m: BinaryModel,
    new: BinaryModel,
    res: Result<(), AsmError>,
    ins: Instruction,
    amode: AddrModeParseType,
    arg: i64,
    regs: Seq<super::regutils::RegEnum>,
    ignore_relative_offset_errors: bool,
) -> bool {
    match m.write_bytes_result(opcode_bytes(ins.opcode)) {
        (m1, Ok(_)) => operand_step(
            m1,
            new,
            res,
            ins,
            amode,
            arg,
            regs,
            ignore_relative_offset_errors,
            m.write_address,
        ),
        (m1, Err(e)) => new == m1 && res == Err::<(), AsmError>(AsmError::Binary(e)),
    }
}

/// Compile an instruction. `arg` is the evaluated first operand (ignored
/// by forms without one) and `regs` the register list of a PSHS/PULS.
pub fn compile_opcode(
    bin: &mut Binary,
    ins: &Instruction,
    amode: AddrModeParseType,
    arg: i64,
    regs: &Vec<super::regutils::RegEnum>,
    ignore_relative_offset_errors: bool,
) -> (res: Result<(), AsmError>)
    requires
        opcode_can(old(bin)@, *ins, amode, arg, regs@, ignore_relative_offset_errors),
    ensures
        opcode_step(old(bin)@, final(bin)@, res, *ins, amode, arg, regs@, ignore_relative_offset_errors),
{
    let pc = bin.get_write_address();

    write_opcode(bin, ins.opcode)?;

    match ins.addr_mode {
        AddrModeEnum::Indexed => {
            if let AddrModeParseType::Indexed(imode, indirect) = amode {
                compile_indexed(bin, imode, indirect, arg)?;
            }
            Ok(())
        },
        AddrModeEnum::Immediate8 => write_eval_byte(bin, arg),
        AddrModeEnum::Direct => {
            let v = arg & 0xff;
            assert(0 <= arg & 0xff < 256) by (bit_vector);
            binary_error_map(bin.write_byte_check_size(v))
        },
        AddrModeEnum::Extended | AddrModeEnum::Immediate16 => write_eval_word(bin, arg),
        AddrModeEnum::Relative => write_relative_byte(
            bin,
            arg,
            pc,
            ins.size,
            ignore_relative_offset_errors,
        ),
        AddrModeEnum::Relative16 => write_relative_word(bin, arg, pc, ins.size),
        AddrModeEnum::Inherent => Ok(()),
        AddrModeEnum::RegisterPair => {
            if let AddrModeParseType::RegisterPair(a, b) = amode {
                let val = reg_pair_to_flags(a, b);
                binary_error_map(bin.write_byte(val))
            } else {
                Ok(())
            }
        },
        AddrModeEnum::RegisterSet => {
            let flags = registers_to_flags(regs);
            binary_error_map(bin.write_byte(flags))
        },
    }
}

/// `setdp`: the direct page for the following instructions; a value
/// outside 0..=255 is an error and changes nothing.
pub fn compile_set_dp(asm_out: &mut AsmOut, dp: i64) -> (res: Result<(), AsmError>)
    ensures
        0 <= dp <= 0xff ==> res is Ok && final(asm_out).direct_page == Some(dp as u8),
        !(0 <= dp <= 0xff) ==> res == Err::<(), AsmError>(AsmError::SetDpOutOfRange(dp))
            && final(asm_out).direct_page == old(asm_out).direct_page,
        final(asm_out).binary@ == old(asm_out).binary@,
        final(asm_out).exec_addr == old(asm_out).exec_addr,
{
    if !(0 <= dp && dp <= 0xff) {
        return Err(AsmError::SetDpOutOfRange(dp));
    }
    asm_out.set_dp(dp as u8);
    Ok(())
}

} // verus!

verus! {

/// The bytes an indexed form adds after its postbyte.
pub open spec fn index_operand_len(imode: IndexParseType) -> nat {
    match imode {
        IndexParseType::ExtendedIndirect | IndexParseType::ConstantWordOffset(..)
        | IndexParseType::PcOffsetWord(_) => 2,
        IndexParseType::ConstantByteOffset(..) | IndexParseType::PcOffsetByte(_) => 1,
        _ => 0,
    }
}

/// A successful indexed operand takes its postbyte and the bytes its form
/// adds.
pub proof fn lemma_indexed_advances(
    m: BinaryModel,
    new: BinaryModel,
    res: Result<(), AsmError>,
    imode: IndexParseType,
    indirect: bool,
    arg: i64,
)
    requires
        indexed_can(m, imode, indirect, arg),
        indexed_step(m, new, res, imode, indirect, arg),
        res is Ok,
    ensures
        new.write_address == m.write_address + 1 + index_operand_len(imode),
{
    let (m1, r1) = m.write_byte_result(imode.index_byte(indirect));
    match imode {
        IndexParseType::ExtendedIndirect => {
            lemma_write_bytes_advances(m1, word_bytes(arg as u16));
        },
        IndexParseType::ConstantWordOffset(_, v) => {
            lemma_write_bytes_advances(m1, word_bytes(v as i64 as u16));
        },
        IndexParseType::PcOffsetWord(v) => {
            lemma_write_bytes_advances(m1, word_bytes(v as i64 as u16));
        },
        _ => {},
    }
}

/// The form is one that a parse gives: its offset width is yet to be
/// decided, or it has no offset.
pub open spec fn is_unsized(pmode: IndexParseType) -> bool {
    !(pmode is Constant5BitOffset || pmode is ConstantByteOffset || pmode is ConstantWordOffset
        || pmode is PcOffsetByte || pmode is PcOffsetWord)
}

/// Sizing a parsed form decides as many bytes after the postbyte as the
/// sized form adds.
pub proof fn lemma_sized_operand_len(pmode: IndexParseType, indirect: bool, v: i64)
    requires
        is_unsized(pmode),
    ensures
        index_operand_len(sized_form(pmode, indirect, v)) == resolve_indexed(pmode, indirect, v).1,
{
}

/// An indexed instruction parsed in form `pmode`, compiled in the form its
/// sizing chose, takes exactly the bytes that sizing reserved for it: the row's size (opcode and
/// postbyte) and the displacement or address the sized form adds.
pub proof fn lemma_indexed_instruction_length(
    m: BinaryModel,
    new: BinaryModel,
    ins: Instruction,
    pmode: IndexParseType,
    indirect: bool,
    v: i64,
    arg: i64,
    regs: Seq<super::regutils::RegEnum>,
    ignore_relative_offset_errors: bool,
)
    requires
        ins.addr_mode == AddrModeEnum::Indexed,
        ins.size == opcode_bytes(ins.opcode).len() + 1,
        is_unsized(pmode),
        opcode_can(
            m,
            ins,
            AddrModeParseType::Indexed(sized_form(pmode, indirect, v), indirect),
            arg,
            regs,
            ignore_relative_offset_errors,
        ),
        opcode_step(
            m,
            new,
            Ok(()),
            ins,
            AddrModeParseType::Indexed(sized_form(pmode, indirect, v), indirect),
            arg,
            regs,
            ignore_relative_offset_errors,
        ),
    ensures
        new.write_address == m.write_address + ins.size + resolve_indexed(pmode, indirect, v).1,
{
    let bytes = opcode_bytes(ins.opcode);
    lemma_write_bytes_advances(m, bytes);
    let (m1, _) = m.write_bytes_result(bytes);
    lemma_indexed_advances(m1, new, Ok::<(), AsmError>(()), sized_form(pmode, indirect, v), indirect, arg);
    lemma_sized_operand_len(pmode, indirect, v);
}

/// The bytes a row's addressing mode adds after the opcode: for an indexed
/// row, its postbyte.
pub open spec fn mode_operand_len(mode: AddrModeEnum) -> nat {
    match mode {
        AddrModeEnum::Inherent => 0,
        AddrModeEnum::Extended | AddrModeEnum::Immediate16 | AddrModeEnum::Relative16 => 2,
        _ => 1,
    }
}

/// The row's size is its opcode bytes and the bytes its mode adds.
pub open spec fn row_consistent(ins: Instruction) -> bool {
    ins.size == opcode_bytes(ins.opcode).len() + mode_operand_len(ins.addr_mode)
}

/// A successful write of one byte moves the write address on by one.
proof fn lemma_byte_advances(m: BinaryModel, b: u8)
    requires
        m.can_write_byte(),
        m.write_byte_result(b).1 is Ok,
    ensures
        m.write_byte_result(b).0.write_address == m.write_address + 1,
{
}

/// An instruction of a row other than an indexed one, compiled without
/// error, takes exactly the row's size, as sizing reserved for it.
pub proof fn lemma_instruction_length(
    m: BinaryModel,
    new: BinaryModel,
    res: Result<(), AsmError>,
    ins: Instruction,
    amode: AddrModeParseType,
    arg: i64,
    regs: Seq<super::regutils::RegEnum>,
    ignore_relative_offset_errors: bool,
)
    requires
        row_consistent(ins),
        ins.addr_mode != AddrModeEnum::Indexed,
        opcode_can(m, ins, amode, arg, regs, ignore_relative_offset_errors),
        opcode_step(m, new, res, ins, amode, arg, regs, ignore_relative_offset_errors),
        res is Ok,
    ensures
        new.write_address == m.write_address + ins.size,
{
    let bytes = opcode_bytes(ins.opcode);
    lemma_write_bytes_advances(m, bytes);
    let (m1, _) = m.write_bytes_result(bytes);
    match ins.addr_mode {
        AddrModeEnum::Immediate8 => {
            lemma_byte_advances(m1, arg as u8);
        },
        AddrModeEnum::Direct => {
            lemma_byte_advances(m1, (arg & 0xff) as u8);
        },
        AddrModeEnum::Extended | AddrModeEnum::Immediate16 => {
            lemma_write_bytes_advances(m1, word_bytes(arg as u16));
        },
        AddrModeEnum::Relative => {
            let val = branch_offset(arg, m.write_address, ins.size);
            if -128 <= val < 128 {
                lemma_byte_advances(m1, val as u8);
            } else {
                lemma_byte_advances(m1, 0);
            }
        },
        AddrModeEnum::Relative16 => {
            lemma_write_bytes_advances(
                m1,
                word_bytes(((branch_offset(arg, m.write_address, ins.size) as i64) & 0xffff) as u16),
            );
        },
        AddrModeEnum::RegisterPair => {
            if let AddrModeParseType::RegisterPair(a, b) = amode {
                lemma_byte_advances(m1, super::regutils::pair_postbyte(a, b));
            }
        },
        AddrModeEnum::RegisterSet => {
            lemma_byte_advances(m1, register_set_flags(regs));
        },
        _ => {},
    }
}

} // verus!

verus! {

/// An instruction of an indexed row, compiled without error in the form
/// `imode`, takes the row's size (opcode and postbyte) and the bytes that
/// form adds.
pub proof fn lemma_indexed_row_length(
    m: BinaryModel,
    new: BinaryModel,
    res: Result<(), AsmError>,
    ins: Instruction,
    imode: IndexParseType,
    indirect: bool,
    arg: i64,
    regs: Seq<super::regutils::RegEnum>,
    ignore_relative_offset_errors: bool,
)
    requires
        ins.addr_mode == AddrModeEnum::Indexed,
        ins.size == opcode_bytes(ins.opcode).len() + 1,
        opcode_can(m, ins, AddrModeParseType::Indexed(imode, indirect), arg, regs, ignore_relative_offset_errors),
        opcode_step(
            m,
            new,
            res,
            ins,
            AddrModeParseType::Indexed(imode, indirect),
            arg,
            regs,
            ignore_relative_offset_errors,
        ),
        res is Ok,
    ensures
        new.write_address == m.write_address + ins.size + index_operand_len(imode),
{
    let bytes = opcode_bytes(ins.opcode);
    lemma_write_bytes_advances(m, bytes);
    let (m1, _) = m.write_bytes_result(bytes);
    lemma_indexed_advances(m1, new, res, imode, indirect, arg);
}

/// The bytes a 6809 instruction of row `ins` in form `amode` takes: the
/// row's size, and for an indexed row the bytes its form adds.
pub open spec fn instruction_len(ins: Instruction, amode: AddrModeParseType) -> nat {
    match amode {
        AddrModeParseType::Indexed(imode, _) => if ins.addr_mode == AddrModeEnum::Indexed {
            (ins.size + index_operand_len(imode)) as nat
        } else {
            ins.size as nat
        },
        _ => ins.size as nat,
    }
}

/// The row is one the length laws hold of: its size is its opcode bytes
/// and the bytes its mode adds (the postbyte, for an indexed row).
pub open spec fn row_sized(ins: Instruction) -> bool {
    if ins.addr_mode == AddrModeEnum::Indexed {
        ins.size == opcode_bytes(ins.opcode).len() + 1
    } else {
        row_consistent(ins)
    }
}

/// Emission of a 6809 instruction agrees with layout: an instruction
/// compiled without error takes exactly `instruction_len` bytes.
pub proof fn lemma_opcode_follows_layout(
    m: BinaryModel,
    new: BinaryModel,
    res: Result<(), AsmError>,
    ins: Instruction,
    amode: AddrModeParseType,
    arg: i64,
    regs: Seq<super::regutils::RegEnum>,
    ignore_relative_offset_errors: bool,
)
    requires
        row_sized(ins),
        ins.addr_mode == AddrModeEnum::Indexed ==> amode is Indexed,
        opcode_can(m, ins, amode, arg, regs, ignore_relative_offset_errors),
        opcode_step(m, new, res, ins, amode, arg, regs, ignore_relative_offset_errors),
        res is Ok,
    ensures
        new.write_address == m.write_address + instruction_len(ins, amode),
{
    if ins.addr_mode == AddrModeEnum::Indexed {
        if let AddrModeParseType::Indexed(imode, indirect) = amode {
            lemma_indexed_row_length(m, new, res, ins, imode, indirect, arg, regs, ignore_relative_offset_errors);
        }
    } else {
        lemma_instruction_length(m, new, res, ins, amode, arg, regs, ignore_relative_offset_errors);
    }
}

} // verus!

verus! {

proof fn lemma_mask_low(x: i64)
    ensures
        ((x & 0xff) as u8) as int == x % 256,
        (((x & 0xffff) as u16) as int) == x % 65536,
{
    assert(((x & 0xff) as u8) as int == x % 256 && ((x & 0xffff) as u16) as int == x % 65536)
        by (bit_vector);
}

/// The operand bytes of a direct and of a long relative instruction: a
/// direct operand is the low byte of its address (the address modulo 256);
/// a long branch is the displacement from the end of the instruction to
/// its target, modulo 65536, high byte first.
pub proof fn lemma_direct_and_long_branch_operands(
    m: BinaryModel,
    new: BinaryModel,
    res: Result<(), AsmError>,
    ins: Instruction,
    amode: AddrModeParseType,
    arg: i64,
    regs: Seq<super::regutils::RegEnum>,
    ignore_relative_offset_errors: bool,
    pc: usize,
)
    requires
        operand_step(m, new, res, ins, amode, arg, regs, ignore_relative_offset_errors, pc),
    ensures
        ins.addr_mode == AddrModeEnum::Direct ==> new == m.write_byte_result((arg % 256) as u8).0,
        ins.addr_mode == AddrModeEnum::Relative16 && i64::MIN <= arg - (pc + ins.size) <= i64::MAX
            ==> {
            let d = arg - (pc + ins.size);
            new == m.write_bytes_result(seq![((d % 65536) / 256) as u8, (d % 256) as u8]).0
        },
{
    lemma_mask_low(arg);
    if ins.addr_mode == AddrModeEnum::Relative16 && i64::MIN <= arg - (pc + ins.size) <= i64::MAX {
        let d = branch_offset(arg, pc, ins.size);
        let x = d as i64;
        assert(x == d);
        lemma_mask_low(x);
        let w = (x & 0xffff) as u16;
        assert(w as int == d % 65536);
        assert(word_bytes(w) =~= seq![((d % 65536) / 256) as u8, (d % 256) as u8]) by {
            assert((d % 65536) % 256 == d % 256) by (nonlinear_arith);
        }
    }
}

} // verus!

verus! {

/// After an indexed postbyte come exactly the operand bytes of its form: an
/// 8-bit displacement as one byte (two's complement, the displacement
/// modulo 256), a 16-bit displacement as a word, high byte first (modulo
/// 65536), the address of an extended indirect operand as a word when it
/// is a 16-bit address and nothing otherwise (the operand is refused);
/// every other form adds no byte.
pub proof fn lemma_index_operand_bytes(
    m: BinaryModel,
    new: BinaryModel,
    res: Result<(), AsmError>,
    imode: IndexParseType,
    arg: i64,
)
    requires
        index_operand_step(m, new, res, imode, arg),
    ensures
        match imode {
            IndexParseType::ConstantByteOffset(_, v) | IndexParseType::PcOffsetByte(v) => {
                let (m1, r) = m.write_byte_result(((v as int) % 256) as u8);
                new == m1 && res == lift(r)
            },
            IndexParseType::ConstantWordOffset(_, v) | IndexParseType::PcOffsetWord(v) => {
                let (m1, r) = m.write_bytes_result(seq![(((v as int) % 65536) / 256) as u8, ((v as int) % 256) as u8]);
                new == m1 && res == lift(r)
            },
            IndexParseType::ExtendedIndirect => if 0 <= arg < 65536 {
                let (m1, r) = m.write_bytes_result(seq![(arg / 256) as u8, (arg % 256) as u8]);
                new == m1 && res == lift(r)
            } else {
                new == m && res is Err
            },
            _ => new == m && res is Ok,
        },
{
    match imode {
        IndexParseType::ConstantByteOffset(_, v) | IndexParseType::PcOffsetByte(v) => {
            crate::assembler::opcodes::lemma_low_byte(v as i64);
        },
        IndexParseType::ConstantWordOffset(_, v) | IndexParseType::PcOffsetWord(v) => {
            crate::assembler::opcodes::lemma_low_word(v as i64);
        },
        IndexParseType::ExtendedIndirect => {
            if 0 <= arg < 65536 {
                crate::assembler::opcodes::lemma_low_word(arg);
            }
        },
        _ => {},
    }
}

} // verus!
