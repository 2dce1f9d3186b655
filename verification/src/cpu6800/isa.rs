//! Instruction rows of the 6800 and the choice of row for a parsed
//! operand.
use vstd::prelude::*;

verus! {

/// Addressing modes of 6800 instruction rows.
#[derive(Debug, PartialEq, Eq, Clone, Copy, Hash, Structural)]
pub enum AddrModeEnum {
    Indexed,
    Direct,
    Immediate8,
    Extended,
    Immediate16,
    Inherent,
    Relative,
    Illegal,
}

/// The operand forms of a 6800 instruction as parsed.
#[derive(PartialEq, Eq, Debug, Clone, Copy, Structural)]
pub enum AddrModeParseType {
    Indexed,
    Direct,
    /// `true` when extended mode was forced with `>`.
    Extended(bool),
    Relative,
    Inherent,
    Immediate,
}

/// One opcode row: id, opcode byte, size in bytes and addressing mode.
#[derive(Debug, PartialEq, Eq, Clone, Copy, Structural)]
pub struct OpcodeData {
    pub id: usize,
    pub opcode: usize,
    pub size: usize,
    pub addr_mode: AddrModeEnum,
}

/// All rows of one mnemonic.
#[derive(Debug, PartialEq, Eq, Clone)]
pub struct Instruction {
    pub rows: Vec<OpcodeData>,
}

/// The first row of `rows` with addressing mode `amode`.
pub open spec fn find_opcode(rows: Seq<OpcodeData>, amode: AddrModeEnum) -> Option<OpcodeData>
    decreases rows.len(),
{
    if rows.len() == 0 {
        None
    } else if rows[0].addr_mode == amode {
        Some(rows[0])
    } else {
        find_opcode(rows.drop_first(), amode)
    }
}

/// The row for a parsed operand form: an immediate operand takes the
/// 8-bit row, else the 16-bit one; every other form its own mode.
pub open spec fn opcode_for(rows: Seq<OpcodeData>, amode: AddrModeParseType) -> Option<OpcodeData> {
    match amode {
        AddrModeParseType::Indexed => find_opcode(rows, AddrModeEnum::Indexed),
        AddrModeParseType::Direct => find_opcode(rows, AddrModeEnum::Direct),
        AddrModeParseType::Extended(_) => find_opcode(rows, AddrModeEnum::Extended),
        AddrModeParseType::Relative => find_opcode(rows, AddrModeEnum::Relative),
        AddrModeParseType::Inherent => find_opcode(rows, AddrModeEnum::Inherent),
        AddrModeParseType::Immediate => match find_opcode(rows, AddrModeEnum::Immediate8) {
            Some(r) => Some(r),
            None => find_opcode(rows, AddrModeEnum::Immediate16),
        },
    }
}

/// The operand form and row an instruction is assembled with: a plain
/// address operand of a branch is relative; otherwise the parsed form's
/// row, if the mnemonic has one.
pub open spec fn choose_opcode(rows: Seq<OpcodeData>, amode: AddrModeParseType) -> Option<(AddrModeParseType, OpcodeData)> {
    if find_opcode(rows, AddrModeEnum::Relative) is Some && amode is Extended {
        Some((AddrModeParseType::Relative, find_opcode(rows, AddrModeEnum::Relative)->0))
    } else {
        match opcode_for(rows, amode) {
            Some(r) => Some((amode, r)),
            None => None,
        }
    }
}

impl Instruction {
    /// The first row with addressing mode `amode`.
    pub fn get_opcode_data(&self, amode: AddrModeEnum) -> (res: Option<OpcodeData>)
        ensures
            res == find_opcode(self.rows@, amode),
    {
        let mut i: usize = 0;
        assert(self.rows@.skip(0) =~= self.rows@);
        while i < self.rows.len()
            invariant
                0 <= i <= self.rows.len(),
                find_opcode(self.rows@, amode) == find_opcode(self.rows@.skip(i as int), amode),
            decreases self.rows.len() - i,
        {
            let ghost rest = self.rows@.skip(i as int);
            assert(rest[0] == self.rows@[i as int]);
            if self.rows[i].addr_mode == amode {
                return Some(self.rows[i]);
            }
            assert(rest.drop_first() =~= self.rows@.skip(i + 1));
            i = i + 1;
        }
        None
    }

    /// The mnemonic has a row with addressing mode `amode`.
    pub fn supports(&self, amode: AddrModeEnum) -> (res: bool)
        ensures
            res == find_opcode(self.rows@, amode) is Some,
    {
        self.get_opcode_data(amode).is_some()
    }
}

/// The row for a parsed operand form (see `opcode_for`).
pub fn get_instruction(amode: AddrModeParseType, info: &Instruction) -> (res: Option<OpcodeData>)
    ensures
        res == opcode_for(info.rows@, amode),
{
    match amode {
        AddrModeParseType::Indexed => info.get_opcode_data(AddrModeEnum::Indexed),
        AddrModeParseType::Direct => info.get_opcode_data(AddrModeEnum::Direct),
        AddrModeParseType::Extended(_) => info.get_opcode_data(AddrModeEnum::Extended),
        AddrModeParseType::Relative => info.get_opcode_data(AddrModeEnum::Relative),
        AddrModeParseType::Inherent => info.get_opcode_data(AddrModeEnum::Inherent),
        AddrModeParseType::Immediate => {
            let a = info.get_opcode_data(AddrModeEnum::Immediate8);
            if a.is_some() {
                a
            } else {
                info.get_opcode_data(AddrModeEnum::Immediate16)
            }
        },
    }
}

/// The operand form and row an instruction is assembled with (see
/// `choose_opcode`); `None` when the mnemonic has no row for the operand.
pub fn select_opcode(info: &Instruction, amode: AddrModeParseType) -> (res: Option<(AddrModeParseType, OpcodeData)>)
    ensures
        res == choose_opcode(info.rows@, amode),
{
    if info.supports(AddrModeEnum::Relative) && matches!(amode, AddrModeParseType::Extended(_)) {
        match get_instruction(AddrModeParseType::Relative, info) {
            Some(ins) => Some((AddrModeParseType::Relative, ins)),
            None => None,
        }
    } else {
        match get_instruction(amode, info) {
            Some(ins) => Some((amode, ins)),
            None => None,
        }
    }
}

/// The first row of a mode is a row with that mode, and no row before it
/// has the mode; there is none only when no row has it.
pub proof fn lemma_find_opcode(rows: Seq<OpcodeData>, amode: AddrModeEnum)
    ensures
        find_opcode(rows, amode) matches Some(r) ==> r.addr_mode == amode && exists|k: int|
            0 <= k < rows.len() && rows[k] == r && forall|j: int| 0 <= j < k ==> rows[j].addr_mode != amode,
        find_opcode(rows, amode) is None <==> forall|j: int| 0 <= j < rows.len() ==> rows[j].addr_mode != amode,
    decreases rows.len(),
{
    if rows.len() > 0 {
        lemma_find_opcode(rows.drop_first(), amode);
        if rows[0].addr_mode != amode {
            if let Some(r) = find_opcode(rows.drop_first(), amode) {
                let k = choose|k: int|
                    0 <= k < rows.drop_first().len() && rows.drop_first()[k] == r && forall|j: int|
                        0 <= j < k ==> rows.drop_first()[j].addr_mode != amode;
                assert(rows[k + 1] == r);
                assert forall|j: int| 0 <= j < k + 1 implies rows[j].addr_mode != amode by {
                    if j > 0 {
                        assert(rows[j] == rows.drop_first()[j - 1]);
                    }
                }
            } else {
                assert forall|j: int| 0 <= j < rows.len() implies rows[j].addr_mode != amode by {
                    if j > 0 {
                        assert(rows[j] == rows.drop_first()[j - 1]);
                    }
                }
            }
        }
    }
}

/// The row modes a 6800 operand form may be assembled with.
pub open spec fn mode_fits_6800(amode: AddrModeParseType, m: AddrModeEnum) -> bool {
    match amode {
        AddrModeParseType::Indexed => m == AddrModeEnum::Indexed,
        AddrModeParseType::Direct => m == AddrModeEnum::Direct,
        AddrModeParseType::Extended(_) => m == AddrModeEnum::Extended,
        AddrModeParseType::Relative => m == AddrModeEnum::Relative,
        AddrModeParseType::Inherent => m == AddrModeEnum::Inherent,
        AddrModeParseType::Immediate => m == AddrModeEnum::Immediate8 || m == AddrModeEnum::Immediate16,
    }
}

/// The form and row chosen for a 6800 operand: a row of the mnemonic whose
/// mode fits the chosen form; an address operand of a branch becomes
/// relative; otherwise the parsed form is kept. A mnemonic with a row of a
/// fitting mode always has one chosen.
pub proof fn lemma_choose_opcode_fits(rows: Seq<OpcodeData>, amode: AddrModeParseType)
    ensures
        choose_opcode(rows, amode) matches Some((form, r)) ==> rows.contains(r) && mode_fits_6800(form, r.addr_mode)
            && (form == amode || (form == AddrModeParseType::Relative && amode is Extended)),
        (exists|j: int| 0 <= j < rows.len() && mode_fits_6800(amode, #[trigger] rows[j].addr_mode)) ==> choose_opcode(
            rows,
            amode,
        ) is Some,
{
    lemma_find_opcode(rows, AddrModeEnum::Indexed);
    lemma_find_opcode(rows, AddrModeEnum::Direct);
    lemma_find_opcode(rows, AddrModeEnum::Immediate8);
    lemma_find_opcode(rows, AddrModeEnum::Extended);
    lemma_find_opcode(rows, AddrModeEnum::Immediate16);
    lemma_find_opcode(rows, AddrModeEnum::Inherent);
    lemma_find_opcode(rows, AddrModeEnum::Relative);
}

} // verus!
