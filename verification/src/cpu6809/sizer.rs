//! Sizing 6809 instructions: the encoded size of each instruction, and
//! the encoding decisions that depend on operand values (direct page,
//! indexed offset width).
use vstd::prelude::*;
use crate::assembler::asmout::AsmOut;
use crate::assembler::bytesizes::{ByteSize, ByteSizes, byte_size_of};
use crate::assembler::opcodes::try_direct_page;
use crate::assembler::sizer::{Sizer, SizerModel};
use crate::assembler::error::AsmError;
use crate::assembler::plan::PlanKind;
use super::isa::Instruction;
use super::nodekind::{AddrModeParseType, IndexParseType};

verus! {

/// The encoding an undecided indexed operand resolves to for an offset
/// `v`, and the bytes it adds after the postbyte. A constant offset takes
/// no displacement when zero, five bits in the postbyte when small (not
/// for indirect forms, which take a byte), a byte or a word; a PC offset
/// takes a byte or a word.
pub open spec fn resolve_indexed(pmode: IndexParseType, indirect: bool, v: i64) -> (Option<IndexParseType>, nat) {
    match pmode {
        IndexParseType::ConstantOffset(r, _) => {
            let bs = match byte_size_of(v) {
                ByteSizes::Bits5(x) => if indirect {
                    ByteSizes::Byte(x)
                } else {
                    ByteSizes::Bits5(x)
                },
                other => other,
            };
            match bs {
                ByteSizes::Zero => (Some(IndexParseType::Zero(r)), 0),
                ByteSizes::Bits5(x) => (Some(IndexParseType::Constant5BitOffset(r, x)), 0),
                ByteSizes::Word(x) => (Some(IndexParseType::ConstantWordOffset(r, x)), 2),
                ByteSizes::Byte(x) => (Some(IndexParseType::ConstantByteOffset(r, x)), 1),
            }
        },
        IndexParseType::PCOffset => match byte_size_of(v) {
            ByteSizes::Zero => (Some(IndexParseType::PcOffsetByte(0)), 1),
            ByteSizes::Bits5(x) => (Some(IndexParseType::PcOffsetByte(x)), 1),
            ByteSizes::Byte(x) => (Some(IndexParseType::PcOffsetByte(x)), 1),
            ByteSizes::Word(x) => (Some(IndexParseType::PcOffsetWord(x)), 2),
        },
        IndexParseType::ExtendedIndirect => (None, 2),
        _ => (None, 0),
    }
}

/// The form an indexed operand is encoded with once sized for an offset
/// `v`.
pub open spec fn sized_form(m: IndexParseType, indirect: bool, v: i64) -> IndexParseType {
    match resolve_indexed(m, indirect, v).0 {
        Some(f) => f,
        None => m,
    }
}

/// Size an indexed instruction: the row's size plus the bytes its operand
/// form adds. Returns the resolved form for an undecided offset. `value`
/// is the evaluated offset expression.
pub fn size_indexed(
    sizer: &mut Sizer,
    ins: &Instruction,
    pmode: IndexParseType,
    indirect: bool,
    value: i64,
) -> (res: Option<AddrModeParseType>)
    requires
        old(sizer)@.pc + ins.size + resolve_indexed(pmode, indirect, value).1 <= 65536,
    ensures
        final(sizer)@ == old(sizer)@.advance(ins.size).advance(
            resolve_indexed(pmode, indirect, value).1 as usize,
        ),
        res == (match resolve_indexed(pmode, indirect, value).0 {
            Some(m) => Some(AddrModeParseType::Indexed(m, indirect)),
            None => None::<AddrModeParseType>,
        }),
{
    sizer.advance_pc(ins.size);
    match pmode {
        IndexParseType::ConstantOffset(r, _) => {
            let mut bs = value.byte_size();
            if let ByteSizes::Bits5(val) = bs {
                if indirect {
                    // Indirect constant offsets have no 5 bit form.
                    bs = ByteSizes::Byte(val);
                }
            }
            let new_amode = match bs {
                ByteSizes::Zero => {
                    proof {
                        crate::assembler::sizer::lemma_advance_twice(old(sizer)@, ins.size, 0);
                    }
                    IndexParseType::Zero(r)
                },
                ByteSizes::Bits5(v) => {
                    proof {
                        crate::assembler::sizer::lemma_advance_twice(old(sizer)@, ins.size, 0);
                    }
                    IndexParseType::Constant5BitOffset(r, v)
                },
                ByteSizes::Word(v) => {
                    sizer.advance_pc(2);
                    IndexParseType::ConstantWordOffset(r, v)
                },
                ByteSizes::Byte(v) => {
                    sizer.advance_pc(1);
                    IndexParseType::ConstantByteOffset(r, v)
                },
            };
            Some(AddrModeParseType::Indexed(new_amode, indirect))
        },
        IndexParseType::PCOffset => {
            sizer.advance_pc(1);
            let new_amode = match value.byte_size() {
                ByteSizes::Zero => {
                    IndexParseType::PcOffsetByte(0)
                },
                ByteSizes::Bits5(v) | ByteSizes::Byte(v) => {
                    IndexParseType::PcOffsetByte(v)
                },
                ByteSizes::Word(v) => {
                    sizer.advance_pc(1);
                    proof {
                        crate::assembler::sizer::lemma_advance_twice(old(sizer)@.advance(ins.size), 1, 1);
                    }
                    IndexParseType::PcOffsetWord(v)
                },
            };
            Some(AddrModeParseType::Indexed(new_amode, indirect))
        },
        IndexParseType::ExtendedIndirect => {
            sizer.advance_pc(2);
            None
        },
        _ => {
            proof {
                crate::assembler::sizer::lemma_advance_twice(old(sizer)@, ins.size, 0);
            }
            None
        },
    }
}

/// The row an instruction is sized with, and the operand form when it
/// changes: an extended operand whose high byte is the direct page takes
/// the mnemonic's direct row; an undecided indexed offset is resolved.
pub open spec fn opcode_fixup(
    ins: Instruction,
    direct: Option<Instruction>,
    amode: AddrModeParseType,
    dp: Option<u8>,
    value: Option<i64>,
) -> Option<(Instruction, AddrModeParseType)> {
    match amode {
        AddrModeParseType::Extended(false) => match (direct, dp, value) {
            (Some(d), Some(p), Some(v)) => if ((v >> 8) & 0xff) as u8 == p {
                Some((d, AddrModeParseType::Direct))
            } else {
                None
            },
            _ => None,
        },
        AddrModeParseType::Indexed(pmode, indirect) => match resolve_indexed(
            pmode,
            indirect,
            value->0,
        ).0 {
            Some(m) => Some((ins, AddrModeParseType::Indexed(m, indirect))),
            None => None,
        },
        _ => None,
    }
}

/// The bytes an instruction occupies after sizing.
pub open spec fn opcode_size(
    ins: Instruction,
    direct: Option<Instruction>,
    amode: AddrModeParseType,
    dp: Option<u8>,
    value: Option<i64>,
) -> nat {
    match amode {
        AddrModeParseType::Extended(false) => match opcode_fixup(ins, direct, amode, dp, value) {
            Some((d, _)) => d.size as nat,
            None => ins.size as nat,
        },
        AddrModeParseType::Indexed(pmode, indirect) => (ins.size + resolve_indexed(
            pmode,
            indirect,
            value->0,
        ).1) as nat,
        _ => ins.size as nat,
    }
}

/// The operand forms whose size depends on the operand's value.
pub open spec fn needs_value(pmode: IndexParseType) -> bool {
    pmode is ConstantOffset || pmode is PCOffset
}

/// The evaluated operand, where its evaluation succeeded.
pub open spec fn value_of(value: Result<i64, AsmError>) -> Option<i64> {
    match value {
        Ok(v) => Some(v),
        Err(_) => None,
    }
}

/// Size the instruction of AST node `id`, moving the PC past it and
/// recording it in the plan at the PC where it starts, with its size.
/// `direct` is the mnemonic's direct-mode row, `dp` the direct page in
/// force and `value` the evaluation of the operand. Returns the replacement
/// row and operand form when the encoding changes. An indexed operand whose
/// size depends on its value needs that value: its evaluation error is
/// returned, and nothing changes. Elsewhere a failed evaluation only
/// rules out the direct-page form.
pub fn size_opcode(
    sizer: &mut Sizer,
    id: usize,
    ins: &Instruction,
    direct: Option<&Instruction>,
    amode: AddrModeParseType,
    dp: Option<u8>,
    value: Result<i64, AsmError>,
) -> (res: Result<Option<(Instruction, AddrModeParseType)>, AsmError>)
    requires
        old(sizer)@.pc + opcode_size(
            *ins,
            match direct {
                Some(d) => Some(*d),
                None => None,
            },
            amode,
            dp,
            value_of(value),
        ) <= 65536,
    ensures
        ({
            let dir = match direct {
                Some(d) => Some(*d),
                None => None,
            };
            let size = opcode_size(*ins, dir, amode, dp, value_of(value));
            if amode matches AddrModeParseType::Indexed(pmode, _) && needs_value(pmode) && value is Err {
                res == Err::<Option<(Instruction, AddrModeParseType)>, AsmError>(value->Err_0)
                    && final(sizer)@ == old(sizer)@
            } else {
                &&& res == Ok::<Option<(Instruction, AddrModeParseType)>, AsmError>(
                    opcode_fixup(*ins, dir, amode, dp, value_of(value)),
                )
                &&& final(sizer)@ == old(sizer)@.advance(size as usize).emit_at(
                    id,
                    PlanKind::TargetSpecific(size as usize),
                    old(sizer)@.pc,
                )
            }
        }),
{
    let pc0 = sizer.get_pc();
    let value_opt = match &value {
        Ok(v) => Some(*v),
        Err(_) => None,
    };
    let fixup = match amode {
        AddrModeParseType::Extended(false) => {
            let mut size = ins.size;
            let direct_row = match direct {
                Some(d) => Some((d.size, d.id)),
                None => None,
            };
            let mut fixup = None;
            if let Some((new_size, _)) = try_direct_page(dp, value_opt, direct_row) {
                if let Some(d) = direct {
                    size = new_size;
                    fixup = Some((*d, AddrModeParseType::Direct));
                }
            }
            sizer.advance_pc(size);
            fixup
        },
        AddrModeParseType::Indexed(pmode, indirect) => {
            let needs = match pmode {
                IndexParseType::ConstantOffset(..) | IndexParseType::PCOffset => true,
                _ => false,
            };
            let v = match value {
                Ok(v) => v,
                Err(e) => {
                    if needs {
                        return Err(e);
                    }
                    0
                },
            };
            proof {
                crate::assembler::sizer::lemma_advance_twice(
                    old(sizer)@,
                    ins.size,
                    resolve_indexed(pmode, indirect, v).1 as usize,
                );
            }
            match size_indexed(sizer, ins, pmode, indirect, v) {
                Some(m) => Some((*ins, m)),
                None => None,
            }
        },
        _ => {
            sizer.advance_pc(ins.size);
            None
        },
    };
    let size = sizer.get_pc() - pc0;
    sizer.emit_with_pc(id, PlanKind::TargetSpecific(size), pc0);
    Ok(fixup)
}

/// `setdp` while sizing: later extended operands on that page are sized
/// as direct ones.
pub fn size_set_dp(asm_out: &mut AsmOut, dp: i64)
    requires
        0 <= dp < 256,
    ensures
        final(asm_out).direct_page == Some(dp as u8),
        final(asm_out).binary@ == old(asm_out).binary@,
        final(asm_out).exec_addr == old(asm_out).exec_addr,
{
    asm_out.set_dp(((dp as u64) & 0xff) as u8);
    assert(((dp as u64) & 0xff) as u8 == dp as u8) by (bit_vector)
        requires
            0 <= dp < 256,
    ;
}

} // verus!

verus! {

/// The row and operand form an instruction is compiled with once sized.
pub open spec fn sized_instruction(
    ins: Instruction,
    direct: Option<Instruction>,
    amode: AddrModeParseType,
    dp: Option<u8>,
    value: Option<i64>,
) -> (Instruction, AddrModeParseType) {
    match opcode_fixup(ins, direct, amode, dp, value) {
        Some(p) => p,
        None => (ins, amode),
    }
}

/// Sizing and emission agree on instructions: an instruction of a row of
/// its own operand form (and a direct row of its mnemonic, if any), parsed
/// with an undecided indexed form, is recorded with a size that the
/// directive compiling it in its sized row and form matches.
pub proof fn lemma_sized_instruction_replays(
    ins: Instruction,
    direct: Option<Instruction>,
    amode: AddrModeParseType,
    dp: Option<u8>,
    value: Option<i64>,
    arg: i64,
    regs: Vec<super::regutils::RegEnum>,
    ignore_relative_offset_errors: bool,
)
    requires
        super::compile::row_sized(ins),
        (ins.addr_mode == super::isa::AddrModeEnum::Indexed) == (amode is Indexed),
        direct matches Some(d) ==> d.addr_mode == super::isa::AddrModeEnum::Direct && super::compile::row_consistent(d),
        amode matches AddrModeParseType::Indexed(pmode, _) ==> super::compile::is_unsized(pmode),
    ensures
        ({
            let (row, form) = sized_instruction(ins, direct, amode, dp, value);
            crate::assembler::compile::directive_matches(
                PlanKind::TargetSpecific(opcode_size(ins, direct, amode, dp, value) as usize),
                crate::assembler::compile::Directive::Op6809(row, form, arg, regs, ignore_relative_offset_errors),
            )
        }),
{
    if let AddrModeParseType::Indexed(pmode, indirect) = amode {
        super::compile::lemma_sized_operand_len(pmode, indirect, value->0);
    }
}

/// An extended operand is shrunk to the direct row exactly when the
/// mnemonic has one, a direct page is set, the operand is known and, as a
/// 16-bit address, lies on that page; an indexed operand keeps its row and
/// only its form changes; no other form changes.
pub proof fn lemma_fixup_direct_page(
    ins: Instruction,
    direct: Option<Instruction>,
    amode: AddrModeParseType,
    dp: Option<u8>,
    value: Option<i64>,
)
    ensures
        amode == AddrModeParseType::Extended(false) ==> ((opcode_fixup(ins, direct, amode, dp, value) is Some) <==> (
        direct is Some && dp is Some && value is Some && crate::assembler::opcodes::page_of(value->0) == dp->0)),
        amode == AddrModeParseType::Extended(false) && opcode_fixup(ins, direct, amode, dp, value) is Some
            ==> opcode_fixup(ins, direct, amode, dp, value) == Some((direct->0, AddrModeParseType::Direct)),
        amode is Indexed ==> (opcode_fixup(ins, direct, amode, dp, value) matches Some((row, form)) ==> row == ins
            && form is Indexed),
        !(amode is Indexed) && amode != AddrModeParseType::Extended(false) ==> opcode_fixup(
            ins,
            direct,
            amode,
            dp,
            value,
        ) is None,
{
    if value is Some {
        crate::assembler::opcodes::lemma_high_byte_is_page(value->0);
    }
}

/// Sizing an undecided indexed operand keeps its register and its offset
/// and takes the smallest field that holds the offset: none for zero, the
/// postbyte's 5 bits for an offset strictly between -16 and 16 (not when
/// indirect), a byte for one strictly between -128 and 128, else a word; a
/// PC offset takes a byte or a word. The bytes sizing adds are those the
/// sized form adds after its postbyte.
pub proof fn lemma_resolved_form_holds_offset(pmode: IndexParseType, indirect: bool, v: i64)
    ensures
        pmode matches IndexParseType::ConstantOffset(r, _) ==> match resolve_indexed(pmode, indirect, v).0 {
            Some(IndexParseType::Zero(q)) => q == r && v == 0,
            Some(IndexParseType::Constant5BitOffset(q, x)) => q == r && x == v && v != 0 && -16 < v < 16
                && !indirect,
            Some(IndexParseType::ConstantByteOffset(q, x)) => q == r && x == v && -128 < v < 128 && v != 0 && (
            indirect || !(-16 < v < 16)),
            Some(IndexParseType::ConstantWordOffset(q, x)) => q == r && !(-128 < v < 128) && (-32768 <= v
                < 32768 ==> x == v),
            _ => false,
        },
        pmode is PCOffset ==> match resolve_indexed(pmode, indirect, v).0 {
            Some(IndexParseType::PcOffsetByte(x)) => x == v && -128 < v < 128,
            Some(IndexParseType::PcOffsetWord(x)) => !(-128 < v < 128) && (-32768 <= v < 32768 ==> x == v),
            _ => false,
        },
        super::compile::is_unsized(pmode) ==> resolve_indexed(pmode, indirect, v).1
            == super::compile::index_operand_len(sized_form(pmode, indirect, v)),
{
    crate::assembler::bytesizes::lemma_byte_size_fits(v);
    if super::compile::is_unsized(pmode) {
        super::compile::lemma_sized_operand_len(pmode, indirect, v);
    }
}

} // verus!
