//! Sizing 6800 instructions.
use vstd::prelude::*;
use crate::assembler::opcodes::try_direct_page;
use crate::assembler::sizer::Sizer;
use crate::assembler::plan::PlanKind;
use super::isa::{AddrModeEnum, AddrModeParseType, OpcodeData};

verus! {

/// The row an extended-mode instruction is sized with: an operand on page
/// zero takes the direct row when the mnemonic has one, unless extended
/// mode was forced.
pub open spec fn sized_row_6800(
    ins: OpcodeData,
    direct: Option<OpcodeData>,
    amode: AddrModeParseType,
    value: Option<i64>,
) -> Option<OpcodeData> {
    if ins.addr_mode == AddrModeEnum::Extended && amode != AddrModeParseType::Extended(true) {
        match (direct, value) {
            (Some(d), Some(v)) => if ((v >> 8) & 0xff) as u8 == 0u8 {
                Some(d)
            } else {
                None
            },
            _ => None,
        }
    } else {
        None
    }
}

/// Size the 6800 instruction of AST node `id`, moving the PC past it and
/// recording it in the plan at the PC where it starts, with its size.
/// `direct` is the mnemonic's direct row and `value` the evaluated
/// operand, if known. Returns the direct row when the instruction shrinks
/// to it.
pub fn size_node_internal(
    sizer: &mut Sizer,
    id: usize,
    ins: &OpcodeData,
    direct: Option<&OpcodeData>,
    amode: AddrModeParseType,
    value: Option<i64>,
) -> (res: Option<OpcodeData>)
    requires
        old(sizer)@.pc + (match sized_row_6800(
            *ins,
            match direct {
                Some(d) => Some(*d),
                None => None,
            },
            amode,
            value,
        ) {
            Some(d) => d.size,
            None => ins.size,
        }) <= 65536,
    ensures
        ({
            let row = sized_row_6800(
                *ins,
                match direct {
                    Some(d) => Some(*d),
                    None => None,
                },
                amode,
                value,
            );
            let size = match row {
                Some(d) => d.size,
                None => ins.size,
            };
            &&& res == row
            &&& final(sizer)@ == old(sizer)@.advance(size).emit_at(
                id,
                PlanKind::TargetSpecific(size),
                old(sizer)@.pc,
            )
        }),
{
    let mut size = ins.size;
    let mut res = None;
    let forced_extended = amode == AddrModeParseType::Extended(true);

    if ins.addr_mode == AddrModeEnum::Extended && !forced_extended {
        let direct_row = match direct {
            Some(d) => Some((d.size, d.id)),
            None => None,
        };
        if let Some((new_size, _)) = try_direct_page(Some(0), value, direct_row) {
            if let Some(d) = direct {
                size = new_size;
                res = Some(*d);
            }
        }
    }
    let pc0 = sizer.get_pc();
    sizer.advance_pc(size);
    sizer.emit_with_pc(id, PlanKind::TargetSpecific(size), pc0);
    res
}

/// The 6800 takes the direct row only for an operand on page zero: the
/// sized row is the direct one exactly when the row is extended, extended
/// mode was not forced, the mnemonic has a direct row and the operand is
/// known and, as a 16-bit address, below 256.
pub proof fn lemma_direct_row_on_page_zero(
    ins: OpcodeData,
    direct: Option<OpcodeData>,
    amode: AddrModeParseType,
    value: Option<i64>,
)
    ensures
        sized_row_6800(ins, direct, amode, value) is Some <==> (ins.addr_mode == AddrModeEnum::Extended && amode
            != AddrModeParseType::Extended(true) && direct is Some && value is Some && (value->0 as u16) < 256),
        sized_row_6800(ins, direct, amode, value) is Some ==> sized_row_6800(ins, direct, amode, value) == direct,
{
    if value is Some {
        crate::assembler::opcodes::lemma_high_byte_is_page(value->0);
    }
}

} // verus!
