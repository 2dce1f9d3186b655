//! Emitting 6800 instructions.
use vstd::prelude::*;
use crate::assembler::binary::{Binary, BinaryModel, lemma_write_bytes_advances, word_bytes};
use crate::assembler::error::{AsmError, lift};
use crate::assembler::opcodes::{
    branch_computable, branch_offset, byte_check_step, opcode_bytes, out_of_range_by,
    word_check_step, write_eval_byte, write_eval_word, write_opcode, write_relative_byte,
};
use super::isa::{AddrModeEnum, OpcodeData};

verus! {

/// The instruction can be attempted: its opcode, then its operand.
pub open spec fn opcode_can_6800(m: BinaryModel, ins: OpcodeData, arg: i64, ignore_relative_offset_errors: bool) -> bool {
    &&& ins.addr_mode != AddrModeEnum::Illegal
    &&& m.can_write_bytes(opcode_bytes(ins.opcode))
    &&& match m.write_bytes_result(opcode_bytes(ins.opcode)) {
        (m1, Ok(_)) => match ins.addr_mode {
            AddrModeEnum::Indexed | AddrModeEnum::Direct | AddrModeEnum::Immediate8 => -128 <= arg
                < 256 ==> m1.can_write_byte(),
            AddrModeEnum::Extended | AddrModeEnum::Immediate16 => -32768 <= arg < 65536
                ==> m1.can_write_bytes(word_bytes(arg as u16)),
            AddrModeEnum::Relative => {
                &&& branch_computable(arg, m.write_address, ins.size)
                &&& (-128 <= branch_offset(arg, m.write_address, ins.size) < 128
                    || ignore_relative_offset_errors) ==> m1.can_write_byte()
            },
            _ => true,
        },
        _ => true,
    }
}

/// The instruction: its opcode, then a byte operand (indexed, direct,
/// 8-bit immediate), a word operand (extended, 16-bit immediate), nothing
/// (inherent) or a branch displacement from its own address.
pub open spec fn opcode_step_6800(
    m: BinaryModel,
    new: BinaryModel,
    res: Result<(), AsmError>,
    ins: OpcodeData,
    arg: i64,
    ignore_relative_offset_errors: bool,
) -> bool {
    match m.write_bytes_result(opcode_bytes(ins.opcode)) {
        (m1, Ok(_)) => match ins.addr_mode {
            AddrModeEnum::Indexed | AddrModeEnum::Direct | AddrModeEnum::Immediate8 => byte_check_step(
                m1,
                new,
                res,
                arg,
                -128,
                256,
                "i8 or u8"@,
            ),
            AddrModeEnum::Extended | AddrModeEnum::Immediate16 => word_check_step(
                m1,
                new,
                res,
                arg,
                -32768,
                65536,
                "i16 or u16"@,
            ),
            AddrModeEnum::Relative => {
                let val = branch_offset(arg, m.write_address, ins.size);
                if -128 <= val < 128 {
                    let (m2, r) = m1.write_byte_result(val as u8);
                    new == m2 && res == lift(r)
                } else if ignore_relative_offset_errors {
                    let (m2, r) = m1.write_byte_result(0);
                    new == m2 && res == lift(r)
                } else {
                    &&& new == m1
                    &&& res == Err::<(), AsmError>(
                        AsmError::BranchOutOfRange {
                            by: out_of_range_by(val) as i64,
                            val: val as i64,
                        },
                    )
                }
            },
            _ => new == m1 && res == Ok::<(), AsmError>(()),
        },
        (m1, Err(e)) => new == m1 && res == Err::<(), AsmError>(AsmError::Binary(e)),
    }
}

/// Compile a 6800 instruction. `arg` is its evaluated operand.
pub fn compile_opcode_6800(
    bin: &mut Binary,
    ins: &OpcodeData,
    arg: i64,
    ignore_relative_offset_errors: bool,
) -> (res: Result<(), AsmError>)
    requires
        opcode_can_6800(old(bin)@, *ins, arg, ignore_relative_offset_errors),
    ensures
        opcode_step_6800(old(bin)@, final(bin)@, res, *ins, arg, ignore_relative_offset_errors),
{
    let pc = bin.get_write_address();
    write_opcode(bin, ins.opcode)?;

    match ins.addr_mode {
        AddrModeEnum::Indexed | AddrModeEnum::Direct | AddrModeEnum::Immediate8 => write_eval_byte(
            bin,
            arg,
        ),
        AddrModeEnum::Extended | AddrModeEnum::Immediate16 => write_eval_word(bin, arg),
        AddrModeEnum::Inherent => Ok(()),
        AddrModeEnum::Relative => write_relative_byte(
            bin,
            arg,
            pc,
            ins.size,
            ignore_relative_offset_errors,
        ),
        AddrModeEnum::Illegal => Ok(()),
    }
}

/// The bytes a 6800 row's addressing mode adds after the opcode.
pub open spec fn mode_operand_len_6800(mode: AddrModeEnum) -> nat {
    match mode {
        AddrModeEnum::Inherent | AddrModeEnum::Illegal => 0,
        AddrModeEnum::Extended | AddrModeEnum::Immediate16 => 2,
        _ => 1,
    }
}

/// The row's size is its opcode bytes and the bytes its mode adds.
pub open spec fn row_consistent_6800(ins: OpcodeData) -> bool {
    ins.size == opcode_bytes(ins.opcode).len() + mode_operand_len_6800(ins.addr_mode)
}

/// A 6800 instruction compiled without error takes exactly its row's size,
/// as sizing reserved for it.
pub proof fn lemma_instruction_length_6800(
    m: BinaryModel,
    new: BinaryModel,
    res: Result<(), AsmError>,
    ins: OpcodeData,
    arg: i64,
    ignore_relative_offset_errors: bool,
)
    requires
        row_consistent_6800(ins),
        opcode_can_6800(m, ins, arg, ignore_relative_offset_errors),
        opcode_step_6800(m, new, res, ins, arg, ignore_relative_offset_errors),
        res is Ok,
    ensures
        new.write_address == m.write_address + ins.size,
{
    let bytes = opcode_bytes(ins.opcode);
    lemma_write_bytes_advances(m, bytes);
    let (m1, _) = m.write_bytes_result(bytes);
    match ins.addr_mode {
        AddrModeEnum::Extended | AddrModeEnum::Immediate16 => {
            lemma_write_bytes_advances(m1, word_bytes(arg as u16));
        },
        _ => {},
    }
}

} // verus!
