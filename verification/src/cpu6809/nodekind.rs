//! Operand forms of the 6809 and the indexed postbyte encoding.
use vstd::prelude::*;
use super::regutils::RegEnum;

verus! {

/// The indirect bit of the indexed postbyte.
pub const INDEXED_IND: u8 = 0x10;

/// Width requested for a constant indexed offset (`<<`, `<`, `>`).
#[derive(Debug, PartialEq, Eq, Clone, Copy, Structural)]
pub enum IndexWidth {
    Auto,
    Bits5,
    Byte,
    Word,
}

/// The forms of an indexed operand.
#[derive(Debug, PartialEq, Eq, Clone, Copy, Structural)]
pub enum IndexParseType {
    /// `arg,R`, width not yet decided.
    ConstantOffset(RegEnum, IndexWidth),
    /// `,R+`
    PostInc(RegEnum),
    /// `,R++`
    PostIncInc(RegEnum),
    /// `,-R`
    PreDec(RegEnum),
    /// `,--R`
    PreDecDec(RegEnum),
    /// `,R`
    Zero(RegEnum),
    /// `B,R`
    AddB(RegEnum),
    /// `A,R`
    AddA(RegEnum),
    /// `D,R`
    AddD(RegEnum),
    /// `offset,PC`, width not yet decided.
    PCOffset,
    /// `[expr]`
    ExtendedIndirect,
    Constant5BitOffset(RegEnum, i8),
    ConstantByteOffset(RegEnum, i8),
    ConstantWordOffset(RegEnum, i16),
    PcOffsetWord(i16),
    PcOffsetByte(i8),
}

/// Register bits of the indexed postbyte (bits 6-5: X=0, Y=1, U=2, S=3).
pub open spec fn reg_bits(r: RegEnum) -> u8 {
    match r {
        RegEnum::Y => 0x20,
        RegEnum::U => 0x40,
        RegEnum::S => 0x60,
        _ => 0,
    }
}

/// Register bits of the indexed postbyte (bits 6-5: X=0, Y=1, U=2, S=3).
fn rbits(r: RegEnum) -> (res: u8)
    requires
        r.spec_valid_for_index(),
    ensures
        res == reg_bits(r),
{
    assert(1u8 << 5u8 == 0x20u8 && 2u8 << 5u8 == 0x40u8 && 3u8 << 5u8 == 0x60u8) by (bit_vector);
    match r {
        RegEnum::X => 0,
        RegEnum::Y => 1 << 5,
        RegEnum::U => 2 << 5,
        RegEnum::S => 3 << 5,
        _ => 0,
    }
}

impl IndexParseType {
    /// The form's offset width is decided and every register in it is an
    /// index register: the postbyte can be encoded.
    pub open spec fn is_encodable(self) -> bool {
        match self {
            IndexParseType::PCOffset | IndexParseType::ConstantOffset(..) => false,
            IndexParseType::PostInc(r) | IndexParseType::PostIncInc(r) | IndexParseType::PreDec(r)
            | IndexParseType::PreDecDec(r) | IndexParseType::Zero(r) | IndexParseType::AddA(r)
            | IndexParseType::AddB(r) | IndexParseType::AddD(r)
            | IndexParseType::Constant5BitOffset(r, _) | IndexParseType::ConstantByteOffset(r, _)
            | IndexParseType::ConstantWordOffset(r, _) => r.spec_valid_for_index(),
            _ => true,
        }
    }

    /// The indexed postbyte: a base value per form with the register
    /// (bits 6-5) and indirect (bit 4) fields ORed in. The single
    /// increment/decrement forms have no indirect variant.
    pub open spec fn index_byte(self, indirect: bool) -> u8 {
        let ind: u8 = if indirect { INDEXED_IND } else { 0 };
        match self {
            IndexParseType::PostInc(r) => 0x80 | reg_bits(r),
            IndexParseType::PostIncInc(r) => 0x81 | (reg_bits(r) | ind),
            IndexParseType::PreDec(r) => 0x82 | reg_bits(r),
            IndexParseType::PreDecDec(r) => 0x83 | (reg_bits(r) | ind),
            IndexParseType::Zero(r) => 0x84 | (reg_bits(r) | ind),
            IndexParseType::AddA(r) => 0x86 | (reg_bits(r) | ind),
            IndexParseType::AddB(r) => 0x85 | (reg_bits(r) | ind),
            IndexParseType::AddD(r) => 0x8b | (reg_bits(r) | ind),
            IndexParseType::PcOffsetByte(_) => 0x8c | ind,
            IndexParseType::PcOffsetWord(_) => 0x8d | ind,
            IndexParseType::ExtendedIndirect => 0x9f,
            IndexParseType::Constant5BitOffset(r, off) => (reg_bits(r) | ind) | (off as u8 & 0x1f),
            IndexParseType::ConstantByteOffset(r, _) => 0x88 | (reg_bits(r) | ind),
            IndexParseType::ConstantWordOffset(r, _) => 0x89 | (reg_bits(r) | ind),
            IndexParseType::PCOffset | IndexParseType::ConstantOffset(..) => 0,
        }
    }

    /// The indexed postbyte of this form.
    pub fn get_index_byte(&self, indirect: bool) -> (res: u8)
        requires
            self.is_encodable(),
        ensures
            res == self.index_byte(indirect),
    {
        let ind: u8 = if indirect {
            INDEXED_IND
        } else {
            0
        };
        match *self {
            IndexParseType::PostInc(r) => 0b1000_0000 | rbits(r),
            IndexParseType::PostIncInc(r) => 0b1000_0001 | (rbits(r) | ind),
            IndexParseType::PreDec(r) => 0b1000_0010 | rbits(r),
            IndexParseType::PreDecDec(r) => 0b1000_0011 | (rbits(r) | ind),
            IndexParseType::Zero(r) => 0b1000_0100 | (rbits(r) | ind),
            IndexParseType::AddA(r) => 0b1000_0110 | (rbits(r) | ind),
            IndexParseType::AddB(r) => 0b1000_0101 | (rbits(r) | ind),
            IndexParseType::AddD(r) => 0b1000_1011 | (rbits(r) | ind),
            IndexParseType::PcOffsetByte(_) => 0b1000_1100 | ind,
            IndexParseType::PcOffsetWord(_) => 0b1000_1101 | ind,
            IndexParseType::ExtendedIndirect => 0b1001_1111,
            IndexParseType::Constant5BitOffset(r, off) => (rbits(r) | ind) | (off as u8 & 0x1f),
            IndexParseType::ConstantByteOffset(r, _) => 0b1000_1000 | (rbits(r) | ind),
            IndexParseType::ConstantWordOffset(r, _) => 0b1000_1001 | (rbits(r) | ind),
            IndexParseType::PCOffset | IndexParseType::ConstantOffset(..) => 0,
        }
    }
}

/// The operand forms of a 6809 instruction as parsed.
#[derive(PartialEq, Eq, Debug, Clone, Copy, Structural)]
pub enum AddrModeParseType {
    Indexed(IndexParseType, bool),
    Direct,
    /// `true` when extended mode was forced, so no direct-page optimisation.
    Extended(bool),
    Relative,
    Inherent,
    Immediate,
    RegisterSet,
    RegisterPair(RegEnum, RegEnum),
}

} // verus!

verus! {

/// The register field of the indexed postbyte as the 6809 reads it: X 0,
/// Y 1, U 2, S 3.
pub open spec fn index_reg_code(r: RegEnum) -> u8 {
    match r {
        RegEnum::X => 0,
        RegEnum::Y => 1,
        RegEnum::U => 2,
        _ => 3,
    }
}

/// The register of an indexed form, where it names one.
pub open spec fn form_reg(f: IndexParseType) -> Option<RegEnum> {
    match f {
        IndexParseType::PostInc(r) | IndexParseType::PostIncInc(r) | IndexParseType::PreDec(r)
        | IndexParseType::PreDecDec(r) | IndexParseType::Zero(r) | IndexParseType::AddA(r)
        | IndexParseType::AddB(r) | IndexParseType::AddD(r) | IndexParseType::Constant5BitOffset(r, _)
        | IndexParseType::ConstantByteOffset(r, _) | IndexParseType::ConstantWordOffset(r, _) => Some(r),
        _ => None,
    }
}

/// The mode field (low four bits) of the indexed postbyte as the 6809
/// reads it, for the forms with bit 7 set.
pub open spec fn index_mode_code(f: IndexParseType) -> u8 {
    match f {
        IndexParseType::PostInc(_) => 0x0,
        IndexParseType::PostIncInc(_) => 0x1,
        IndexParseType::PreDec(_) => 0x2,
        IndexParseType::PreDecDec(_) => 0x3,
        IndexParseType::Zero(_) => 0x4,
        IndexParseType::AddB(_) => 0x5,
        IndexParseType::AddA(_) => 0x6,
        IndexParseType::ConstantByteOffset(..) => 0x8,
        IndexParseType::ConstantWordOffset(..) => 0x9,
        IndexParseType::AddD(_) => 0xb,
        IndexParseType::PcOffsetByte(_) => 0xc,
        IndexParseType::PcOffsetWord(_) => 0xd,
        _ => 0xf,
    }
}

/// The form has an indirect variant (all but `,R+`, `,-R` and the 5-bit
/// offset).
pub open spec fn has_indirect(f: IndexParseType) -> bool {
    !(f is PostInc || f is PreDec || f is Constant5BitOffset)
}

proof fn lemma_postbyte_fields(base: u8, rb: u8, ind: u8)
    by (bit_vector)
    requires
        0x80u8 <= base <= 0x8fu8,
        rb & 0x9fu8 == 0u8,
        ind == 0u8 || ind == 0x10u8,
    ensures
        (base | (rb | ind)) & 0x80u8 == 0x80u8,
        (base | (rb | ind)) & 0x0fu8 == base & 0x0fu8,
        ((base | (rb | ind)) >> 5u8) & 3u8 == rb >> 5u8,
        ((base | (rb | ind)) & 0x10u8 == 0x10u8) == (ind == 0x10u8),
        (base | rb) & 0x10u8 == 0u8,
        ((base | rb) >> 5u8) & 3u8 == rb >> 5u8,
        (base | rb) & 0x0fu8 == base & 0x0fu8,
        (base | rb) & 0x80u8 == 0x80u8,
        base & 0x0fu8 == (base - 0x80u8) as u8,
{
}

proof fn lemma_five_bit_fields(rb: u8, off: i8)
    by (bit_vector)
    requires
        rb & 0x9fu8 == 0u8,
        -16i8 <= off < 16i8,
    ensures
        (rb | (off as u8 & 0x1fu8)) & 0x80u8 == 0u8,
        ((rb | (off as u8 & 0x1fu8)) >> 5u8) & 3u8 == rb >> 5u8,
        (if (rb | (off as u8 & 0x1fu8)) & 0x1fu8 >= 16u8 {
            ((rb | (off as u8 & 0x1fu8)) & 0x1fu8) - 32
        } else {
            ((rb | (off as u8 & 0x1fu8)) & 0x1fu8) + 0
        }) == off,
{
}

/// The indexed postbyte says what the 6809 reads from it. For a form with
/// bit 7 set: bit 7 is set, the low four bits are the form's mode, bits 6-5
/// name its register, and bit 4 is set exactly for an indirect operand of a
/// form that has an indirect variant. `[n16]` is 0x9F. A 5-bit offset
/// (never indirect) has bit 7 clear, bits 6-5 naming its register and the
/// offset, sign-extended, in bits 4-0.
pub proof fn lemma_index_byte_fields(f: IndexParseType, indirect: bool)
    requires
        f.is_encodable(),
    ensures
        f is ExtendedIndirect ==> f.index_byte(indirect) == 0x9fu8,
        !(f is ExtendedIndirect) && !(f is Constant5BitOffset) ==> {
            &&& f.index_byte(indirect) & 0x80u8 == 0x80u8
            &&& f.index_byte(indirect) & 0x0fu8 == index_mode_code(f)
            &&& (f.index_byte(indirect) & 0x10u8 == 0x10u8) == (indirect && has_indirect(f))
            &&& form_reg(f) matches Some(r) ==> (f.index_byte(indirect) >> 5u8) & 3u8 == index_reg_code(r)
            &&& form_reg(f) is None ==> (f.index_byte(indirect) >> 5u8) & 3u8 == 0u8
        },
        f matches IndexParseType::Constant5BitOffset(r, off) ==> (!indirect && -16 <= off < 16 ==> {
            let b = f.index_byte(indirect);
            &&& b & 0x80u8 == 0u8
            &&& (b >> 5u8) & 3u8 == index_reg_code(r)
            &&& (if b & 0x1fu8 >= 16u8 {
                (b & 0x1fu8) - 32
            } else {
                (b & 0x1fu8) + 0
            }) == off
        }),
{
    let ind: u8 = if indirect { INDEXED_IND } else { 0 };
    let rb = match form_reg(f) {
        Some(r) => reg_bits(r),
        None => 0u8,
    };
    assert(rb & 0x9fu8 == 0u8 && rb >> 5u8 == (match form_reg(f) {
        Some(r) => index_reg_code(r),
        None => 0u8,
    })) by {
        assert(0u8 & 0x9fu8 == 0u8 && 0u8 >> 5u8 == 0u8) by (bit_vector);
        assert(0x20u8 & 0x9fu8 == 0u8 && 0x20u8 >> 5u8 == 1u8) by (bit_vector);
        assert(0x40u8 & 0x9fu8 == 0u8 && 0x40u8 >> 5u8 == 2u8) by (bit_vector);
        assert(0x60u8 & 0x9fu8 == 0u8 && 0x60u8 >> 5u8 == 3u8) by (bit_vector);
    }
    match f {
        IndexParseType::PostInc(_) => lemma_postbyte_fields(0x80, rb, ind),
        IndexParseType::PostIncInc(_) => lemma_postbyte_fields(0x81, rb, ind),
        IndexParseType::PreDec(_) => lemma_postbyte_fields(0x82, rb, ind),
        IndexParseType::PreDecDec(_) => lemma_postbyte_fields(0x83, rb, ind),
        IndexParseType::Zero(_) => lemma_postbyte_fields(0x84, rb, ind),
        IndexParseType::AddA(_) => lemma_postbyte_fields(0x86, rb, ind),
        IndexParseType::AddB(_) => lemma_postbyte_fields(0x85, rb, ind),
        IndexParseType::AddD(_) => lemma_postbyte_fields(0x8b, rb, ind),
        IndexParseType::PcOffsetByte(_) => {
            lemma_postbyte_fields(0x8c, 0, ind);
            assert(0x8cu8 | (0u8 | ind) == 0x8cu8 | ind) by (bit_vector);
        },
        IndexParseType::PcOffsetWord(_) => {
            lemma_postbyte_fields(0x8d, 0, ind);
            assert(0x8du8 | (0u8 | ind) == 0x8du8 | ind) by (bit_vector);
        },
        IndexParseType::ConstantByteOffset(..) => lemma_postbyte_fields(0x88, rb, ind),
        IndexParseType::ConstantWordOffset(..) => lemma_postbyte_fields(0x89, rb, ind),
        IndexParseType::Constant5BitOffset(_, off) => {
            if !indirect && -16 <= off < 16 {
                lemma_five_bit_fields(rb, off);
                assert((rb | 0u8) | (off as u8 & 0x1fu8) == rb | (off as u8 & 0x1fu8)) by (bit_vector);
            }
        },
        _ => {},
    }
}

} // verus!
