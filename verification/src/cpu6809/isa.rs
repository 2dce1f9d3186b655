//! Instruction rows of the 6809: one row per opcode, grouped by mnemonic.
use vstd::prelude::*;
use super::nodekind::AddrModeParseType;

verus! {

/// Addressing modes of 6809 instruction rows.
#[derive(Debug, PartialEq, Eq, Clone, Copy, Hash, Structural)]
pub enum AddrModeEnum {
    Indexed,
    Immediate8,
    Immediate16,
    Direct,
    Extended,
    Relative,
    Relative16,
    Inherent,
    RegisterPair,
    RegisterSet,
}

/// One instruction row: opcode value (above 0xff for prefixed opcodes),
/// encoded size in bytes and addressing mode.
#[derive(Debug, PartialEq, Eq, Clone, Copy, Structural)]
pub struct Instruction {
    pub id: usize,
    pub opcode: usize,
    pub size: usize,
    pub addr_mode: AddrModeEnum,
}

/// All rows of one mnemonic.
#[derive(Debug, PartialEq, Eq, Clone)]
pub struct InstructionInfo {
    pub rows: Vec<Instruction>,
}

/// The first row of `rows` with addressing mode `amode`.
pub open spec fn find_row(rows: Seq<Instruction>, amode: AddrModeEnum) -> Option<Instruction>
    decreases rows.len(),
{
    if rows.len() == 0 {
        None
    } else if rows[0].addr_mode == amode {
        Some(rows[0])
    } else {
        find_row(rows.drop_first(), amode)
    }
}

/// The row chosen for a parsed operand form: indexed, direct, inherent,
/// register pair and register set map to their own mode; an extended
/// operand falls back to a relative then a long relative row (branches);
/// a relative operand falls back to long relative; an immediate operand
/// takes the 8-bit row, else the 16-bit one.
pub open spec fn row_for(rows: Seq<Instruction>, amode: AddrModeParseType) -> Option<Instruction> {
    let or = |a: Option<Instruction>, b: Option<Instruction>| if a is Some { a } else { b };
    match amode {
        AddrModeParseType::Indexed(..) => find_row(rows, AddrModeEnum::Indexed),
        AddrModeParseType::Direct => find_row(rows, AddrModeEnum::Direct),
        AddrModeParseType::Extended(_) => or(
            find_row(rows, AddrModeEnum::Extended),
            or(find_row(rows, AddrModeEnum::Relative), find_row(rows, AddrModeEnum::Relative16)),
        ),
        AddrModeParseType::Relative => or(
            find_row(rows, AddrModeEnum::Relative),
            find_row(rows, AddrModeEnum::Relative16),
        ),
        AddrModeParseType::Inherent => find_row(rows, AddrModeEnum::Inherent),
        AddrModeParseType::Immediate => or(
            find_row(rows, AddrModeEnum::Immediate8),
            find_row(rows, AddrModeEnum::Immediate16),
        ),
        AddrModeParseType::RegisterPair(..) => find_row(rows, AddrModeEnum::RegisterPair),
        AddrModeParseType::RegisterSet => find_row(rows, AddrModeEnum::RegisterSet),
    }
}

impl InstructionInfo {
    /// The first row with addressing mode `amode`.
    pub fn get_instruction(&self, amode: &AddrModeEnum) -> (res: Option<&Instruction>)
        ensures
            match res {
                Some(r) => find_row(self.rows@, *amode) == Some(*r),
                None => find_row(self.rows@, *amode) is None,
            },
    {
        let mut i: usize = 0;
        assert(self.rows@.skip(0) =~= self.rows@);
        while i < self.rows.len()
            invariant
                0 <= i <= self.rows.len(),
                find_row(self.rows@, *amode) == find_row(self.rows@.skip(i as int), *amode),
            decreases self.rows.len() - i,
        {
            let ghost rest = self.rows@.skip(i as int);
            assert(rest[0] == self.rows@[i as int]);
            if self.rows[i].addr_mode == *amode {
                return Some(&self.rows[i]);
            }
            assert(rest.drop_first() =~= self.rows@.skip(i + 1));
            i = i + 1;
        }
        None
    }

    /// The mnemonic has a row with addressing mode `amode`.
    pub fn supports_addr_mode(&self, amode: AddrModeEnum) -> (res: bool)
        ensures
            res == find_row(self.rows@, amode) is Some,
    {
        self.get_instruction(&amode).is_some()
    }
}

/// The instruction row for a parsed operand form (see `row_for`).
pub fn get_instruction(amode: AddrModeParseType, info: &InstructionInfo) -> (res: Option<&Instruction>)
    ensures
        match res {
            Some(r) => row_for(info.rows@, amode) == Some(*r),
            None => row_for(info.rows@, amode) is None,
        },
{
    match amode {
        AddrModeParseType::Indexed(..) => info.get_instruction(&AddrModeEnum::Indexed),
        AddrModeParseType::Direct => info.get_instruction(&AddrModeEnum::Direct),
        AddrModeParseType::Extended(_) => {
            let a = info.get_instruction(&AddrModeEnum::Extended);
            if a.is_some() {
                a
            } else {
                let b = info.get_instruction(&AddrModeEnum::Relative);
                if b.is_some() {
                    b
                } else {
                    info.get_instruction(&AddrModeEnum::Relative16)
                }
            }
        },
        AddrModeParseType::Relative => {
            let a = info.get_instruction(&AddrModeEnum::Relative);
            if a.is_some() {
                a
            } else {
                info.get_instruction(&AddrModeEnum::Relative16)
            }
        },
        AddrModeParseType::Inherent => info.get_instruction(&AddrModeEnum::Inherent),
        AddrModeParseType::Immediate => {
            let a = info.get_instruction(&AddrModeEnum::Immediate8);
            if a.is_some() {
                a
            } else {
                info.get_instruction(&AddrModeEnum::Immediate16)
            }
        },
        AddrModeParseType::RegisterPair(..) => info.get_instruction(&AddrModeEnum::RegisterPair),
        AddrModeParseType::RegisterSet => info.get_instruction(&AddrModeEnum::RegisterSet),
    }
}

/// The first row of a mode is a row of the mnemonic with that mode, and no
/// row before it has the mode; there is none only when no row has it.
pub proof fn lemma_find_row(rows: Seq<Instruction>, amode: AddrModeEnum)
    ensures
        find_row(rows, amode) matches Some(r) ==> r.addr_mode == amode && exists|k: int|
            0 <= k < rows.len() && rows[k] == r && forall|j: int| 0 <= j < k ==> rows[j].addr_mode != amode,
        find_row(rows, amode) is None <==> forall|j: int| 0 <= j < rows.len() ==> rows[j].addr_mode != amode,
    decreases rows.len(),
{
    if rows.len() > 0 {
        lemma_find_row(rows.drop_first(), amode);
        if rows[0].addr_mode == amode {
            assert(rows[0] == rows[0]);
        } else {
            if let Some(r) = find_row(rows.drop_first(), amode) {
                let k = choose|k: int|
                    0 <= k < rows.drop_first().len() && rows.drop_first()[k] == r && forall|j: int|
                        0 <= j < k ==> rows.drop_first()[j].addr_mode != amode;
                assert(rows[k + 1] == r);
                assert forall|j: int| 0 <= j < k + 1 implies rows[j].addr_mode != amode by {
                    if j > 0 {
                        assert(rows[j] == rows.drop_first()[j - 1]);
                    }
                }
            } else {
                assert forall|j: int| 0 <= j < rows.len() implies rows[j].addr_mode != amode by {
                    if j > 0 {
                        assert(rows[j] == rows.drop_first()[j - 1]);
                    }
                }
            }
        }
    }
}

/// The row modes an operand form may be assembled with.
pub open spec fn mode_fits(amode: AddrModeParseType, m: AddrModeEnum) -> bool {
    match amode {
        AddrModeParseType::Indexed(..) => m == AddrModeEnum::Indexed,
        AddrModeParseType::Direct => m == AddrModeEnum::Direct,
        AddrModeParseType::Extended(_) => m == AddrModeEnum::Extended || m == AddrModeEnum::Relative || m
            == AddrModeEnum::Relative16,
        AddrModeParseType::Relative => m == AddrModeEnum::Relative || m == AddrModeEnum::Relative16,
        AddrModeParseType::Inherent => m == AddrModeEnum::Inherent,
        AddrModeParseType::Immediate => m == AddrModeEnum::Immediate8 || m == AddrModeEnum::Immediate16,
        AddrModeParseType::RegisterPair(..) => m == AddrModeEnum::RegisterPair,
        AddrModeParseType::RegisterSet => m == AddrModeEnum::RegisterSet,
    }
}

/// The row chosen for an operand is a row of the mnemonic whose mode the
/// operand's form can be assembled with; an immediate operand takes an
/// 8-bit row where there is one, and an extended operand its extended row
/// where there is one. A mnemonic with a row of a fitting mode always has
/// a row chosen.
pub proof fn lemma_row_for_fits(rows: Seq<Instruction>, amode: AddrModeParseType)
    ensures
        row_for(rows, amode) matches Some(r) ==> rows.contains(r) && mode_fits(amode, r.addr_mode),
        (exists|j: int| 0 <= j < rows.len() && mode_fits(amode, #[trigger] rows[j].addr_mode)) ==> row_for(rows, amode)
            is Some,
        amode is Immediate && find_row(rows, AddrModeEnum::Immediate8) is Some ==> row_for(rows, amode)->0.addr_mode
            == AddrModeEnum::Immediate8,
        amode is Extended && find_row(rows, AddrModeEnum::Extended) is Some ==> row_for(rows, amode)->0.addr_mode
            == AddrModeEnum::Extended,
{
    lemma_find_row(rows, AddrModeEnum::Indexed);
    lemma_find_row(rows, AddrModeEnum::Immediate8);
    lemma_find_row(rows, AddrModeEnum::Immediate16);
    lemma_find_row(rows, AddrModeEnum::Direct);
    lemma_find_row(rows, AddrModeEnum::Extended);
    lemma_find_row(rows, AddrModeEnum::Relative);
    lemma_find_row(rows, AddrModeEnum::Relative16);
    lemma_find_row(rows, AddrModeEnum::Inherent);
    lemma_find_row(rows, AddrModeEnum::RegisterPair);
    lemma_find_row(rows, AddrModeEnum::RegisterSet);
}

} // verus!
