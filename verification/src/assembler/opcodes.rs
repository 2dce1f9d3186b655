//! Opcode and operand emission shared by the CPU backends.
//!
//! Each backend resolves an instruction row, writes its opcode, then its
//! operands; these writers are the common core.
use vstd::prelude::*;
use super::binary::{Binary, BinaryError, BinaryModel, word_bytes};
use super::error::{AsmError, binary_error_map, is_asm_does_not_fit, lift};

verus! {

/// The bytes of an opcode: one byte, or a big-endian word for prefixed
/// opcodes (above 0xff).
pub open spec fn opcode_bytes(opcode: usize) -> Seq<u8> {
    if opcode > 0xff {
        word_bytes(opcode as u16)
    } else {
        seq![opcode as u8]
    }
}

/// A range-checked byte write as an assembly step: the write when
/// `lo <= val < hi`, otherwise `DoesNotFit` with the image unchanged.
pub open spec fn byte_check_step(
    old_bin: BinaryModel,
    new_bin: BinaryModel,
    res: Result<(), AsmError>,
    val: i64,
    lo: int,
    hi: int,
    dest: Seq<char>,
) -> bool {
    if lo <= val < hi {
        let (m, r) = old_bin.write_byte_result(val as u8);
        new_bin == m && res == lift(r)
    } else {
        new_bin == old_bin && is_asm_does_not_fit(res, dest, val)
    }
}

/// A range-checked word write as an assembly step.
pub open spec fn word_check_step(
    old_bin: BinaryModel,
    new_bin: BinaryModel,
    res: Result<(), AsmError>,
    val: i64,
    lo: int,
    hi: int,
    dest: Seq<char>,
) -> bool {
    if lo <= val < hi {
        let (m, r) = old_bin.write_bytes_result(word_bytes(val as u16));
        new_bin == m && res == lift(r)
    } else {
        new_bin == old_bin && is_asm_does_not_fit(res, dest, val)
    }
}

/// Branch displacement from the address after an instruction of `size`
/// bytes at `pc` to `target`.
pub open spec fn branch_offset(target: i64, pc: usize, size: usize) -> int {
    target - (pc + size)
}

/// How far a byte displacement `val` is out of range.
pub open spec fn out_of_range_by(val: int) -> int {
    if val < 0 {
        if 128 + val < 0 {
            -(128 + val)
        } else {
            128 + val
        }
    } else {
        val - 127
    }
}

/// The displacement can be computed in `i64`.
pub open spec fn branch_computable(target: i64, pc: usize, size: usize) -> bool {
    &&& pc + size <= i64::MAX
    &&& i64::MIN <= target - (pc + size) <= i64::MAX
}

/// Write the opcode value: one byte, or a word for prefixed opcodes.
pub fn write_opcode(bin: &mut Binary, opcode: usize) -> (res: Result<(), AsmError>)
    requires
        old(bin)@.can_write_bytes(opcode_bytes(opcode)),
    ensures
        ({
            let (m, r) = old(bin)@.write_bytes_result(opcode_bytes(opcode));
            final(bin)@ == m && res == lift(r)
        }),
{
    reveal_with_fuel(BinaryModel::can_write_bytes, 2);
    reveal_with_fuel(BinaryModel::write_bytes_result, 2);
    if opcode > 0xff {
        binary_error_map(bin.write_word(opcode as u16))
    } else {
        assert(seq![opcode as u8].drop_first() =~= Seq::<u8>::empty());
        binary_error_map(bin.write_byte(opcode as u8))
    }
}

/// Write an evaluated operand as a byte (signed or unsigned).
pub fn write_eval_byte(bin: &mut Binary, arg: i64) -> (res: Result<(), AsmError>)
    requires
        -128 <= arg < 256 ==> old(bin)@.can_write_byte(),
    ensures
        byte_check_step(old(bin)@, final(bin)@, res, arg, -128, 256, "i8 or u8"@),
{
    binary_error_map(bin.write_byte_check_size(arg))
}

/// Write an evaluated operand as a word (signed or unsigned).
pub fn write_eval_word(bin: &mut Binary, arg: i64) -> (res: Result<(), AsmError>)
    requires
        -32768 <= arg < 65536 ==> old(bin)@.can_write_bytes(word_bytes(arg as u16)),
    ensures
        word_check_step(old(bin)@, final(bin)@, res, arg, -32768, 65536, "i16 or u16"@),
{
    binary_error_map(bin.write_word_check_size(arg))
}

/// Write a signed byte operand (indexed displacements etc.).
pub fn write_signed_byte(bin: &mut Binary, val: i64) -> (res: Result<(), AsmError>)
    requires
        -128 <= val < 128 ==> old(bin)@.can_write_byte(),
    ensures
        byte_check_step(old(bin)@, final(bin)@, res, val, -128, 128, "i8"@),
{
    binary_error_map(bin.write_ibyte_check_size(val))
}

/// Branch displacement: `target - (address after the instruction)`.
///
/// An out-of-range displacement writes 0 when `ignore_relative_offset_errors`
/// is set, and is a `BranchOutOfRange` error otherwise.
pub fn write_relative_byte(
    bin: &mut Binary,
    target: i64,
    pc: usize,
    size: usize,
    ignore_relative_offset_errors: bool,
) -> (res: Result<(), AsmError>)
    requires
        branch_computable(target, pc, size),
        (-128 <= branch_offset(target, pc, size) < 128 || ignore_relative_offset_errors)
            ==> old(bin)@.can_write_byte(),
    ensures
        ({
            let val = branch_offset(target, pc, size);
            if -128 <= val < 128 {
                let (m, r) = old(bin)@.write_byte_result(val as u8);
                final(bin)@ == m && res == lift(r)
            } else if ignore_relative_offset_errors {
                let (m, r) = old(bin)@.write_byte_result(0);
                final(bin)@ == m && res == lift(r)
            } else {
                &&& final(bin)@ == old(bin)@
                &&& res == Err::<(), AsmError>(
                    AsmError::BranchOutOfRange { by: out_of_range_by(val) as i64, val: val as i64 },
                )
            }
        }),
{
    let val = target - (pc as i64 + size as i64);

    match bin.write_ibyte_check_size(val) {
        Ok(_) => Ok(()),
        Err(BinaryError::DoesNotFit { .. }) => {
            if ignore_relative_offset_errors {
                binary_error_map(bin.write_ibyte_check_size(0))
            } else {
                let by = if val < 0 {
                    let x = 128 + val;
                    if x < 0 {
                        -x
                    } else {
                        x
                    }
                } else {
                    val - 127
                };
                Err(AsmError::BranchOutOfRange { by, val })
            }
        },
        Err(e) => Err(AsmError::Binary(e)),
    }
}

/// 16-bit branch displacement, wrapped to 16 bits.
pub fn write_relative_word(bin: &mut Binary, target: i64, pc: usize, size: usize) -> (res: Result<
    (),
    AsmError,
>)
    requires
        branch_computable(target, pc, size),
        old(bin)@.can_write_bytes(
            word_bytes(((branch_offset(target, pc, size) as i64) & 0xffff) as u16),
        ),
    ensures
        ({
            let (m, r) = old(bin)@.write_bytes_result(
                word_bytes(((branch_offset(target, pc, size) as i64) & 0xffff) as u16),
            );
            final(bin)@ == m && res == lift(r)
        }),
{
    let diff = target - (pc as i64 + size as i64);
    let val = diff & 0xffff;
    assert(0 <= diff & 0xffff < 65536) by (bit_vector);
    binary_error_map(bin.write_word_check_size(val))
}

/// The direct row chosen by the direct-page optimisation.
pub open spec fn direct_page_row(dp: Option<u8>, value: Option<i64>, direct: Option<(usize, usize)>) -> Option<
    (usize, usize),
> {
    if dp is Some && direct is Some && value is Some && ((value->0 >> 8) & 0xff) as u8 == dp->0 {
        direct
    } else {
        None
    }
}

/// The high byte of `v` taken as a 16-bit address: its page.
pub open spec fn page_of(v: i64) -> int {
    ((v as u16) / 256) as int
}

/// `(v >> 8) & 0xff` is the page of `v` as a 16-bit address.
pub proof fn lemma_high_byte_is_page(v: i64)
    ensures
        ((v >> 8) & 0xff) as u8 == page_of(v),
        ((v >> 8) & 0xff) as u8 == 0u8 <==> (v as u16) < 256,
{
    assert(((v >> 8) & 0xff) as u8 == ((v as u16) >> 8u16) as u8) by (bit_vector);
    assert(((v as u16) >> 8u16) == (v as u16) / 256) by (bit_vector);
    assert((((v as u16) >> 8u16) == 0u16) <==> ((v as u16) < 256u16)) by (bit_vector);
}

/// The direct-page optimisation takes the direct row exactly when there is
/// one, a direct page is set, the operand is known, and the operand, as a
/// 16-bit address, lies on the direct page.
pub proof fn lemma_direct_page_row(dp: Option<u8>, value: Option<i64>, direct: Option<(usize, usize)>)
    ensures
        direct_page_row(dp, value, direct) is Some <==> (dp is Some && direct is Some && value is Some
            && page_of(value->0) == dp->0),
        direct_page_row(dp, value, direct) is Some ==> direct_page_row(dp, value, direct) == direct,
{
    if value is Some {
        lemma_high_byte_is_page(value->0);
    }
}

/// Direct-page optimisation: when the instruction has a direct-mode row
/// (`direct`, as `(size, id)`), a direct page is set and the operand's high
/// byte equals it, the direct row to use instead.
pub fn try_direct_page(dp: Option<u8>, value: Option<i64>, direct: Option<(usize, usize)>) -> (res:
    Option<(usize, usize)>)
    ensures
        res == direct_page_row(dp, value, direct),
{
    let dp = dp?;
    let (new_size, new_id) = direct?;
    let value = value?;
    if ((value >> 8) & 0xff) as u8 == dp {
        Some((new_size, new_id))
    } else {
        None
    }
}

/// An opcode is written as itself: one byte for a one-byte opcode, and a
/// prefixed opcode as its prefix then its low byte.
pub proof fn lemma_opcode_bytes(opcode: usize)
    ensures
        opcode <= 0xff ==> opcode_bytes(opcode) =~= seq![opcode as u8],
        0xff < opcode <= 0xffff ==> opcode_bytes(opcode).len() == 2 && opcode_bytes(opcode)[0] as int * 256
            + opcode_bytes(opcode)[1] as int == opcode,
{
    if 0xff < opcode <= 0xffff {
        crate::assembler::binary::lemma_word_bytes_big_endian(opcode as u16);
    }
}

/// A branch lands on its target: the displacement written, read back as a
/// signed byte and added to the address after the instruction, is the
/// target.
pub proof fn lemma_branch_lands(target: i64, pc: usize, size: usize)
    requires
        branch_computable(target, pc, size),
        -128 <= branch_offset(target, pc, size) < 128,
    ensures
        pc + size + ((branch_offset(target, pc, size) as u8) as i8) == target,
{
    let v = branch_offset(target, pc, size) as i64;
    assert(-128 <= v < 128 ==> ((v as u8) as i8) as i64 == v) by (bit_vector);
}

} // verus!

verus! {

/// A value in a byte's range, signed or unsigned, is stored as itself
/// modulo 256.
pub proof fn lemma_low_byte(v: i64)
    requires
        -128 <= v < 256,
    ensures
        v as u8 == (v % 256) as u8,
{
    assert(0 <= v < 256 ==> (v as u8) as int == v) by (bit_vector);
    assert(-128 <= v < 0 ==> (v as u8) as int == v + 256) by (bit_vector);
}

/// A value in a word's range, signed or unsigned, is stored as itself
/// modulo 65536, high byte first.
pub proof fn lemma_low_word(v: i64)
    requires
        -32768 <= v < 65536,
    ensures
        (v as u16) as int == v % 65536,
        word_bytes(v as u16) == seq![((v % 65536) / 256) as u8, (v % 256) as u8],
{
    assert(0 <= v < 65536 ==> (v as u16) as int == v) by (bit_vector);
    assert(-32768 <= v < 0 ==> (v as u16) as int == v + 65536) by (bit_vector);
    assert(word_bytes(v as u16) =~= seq![((v % 65536) / 256) as u8, (v % 256) as u8]);
}

/// A range-checked byte operand: a value inside the field's range is
/// written as its low byte (the value modulo 256) at the write position and
/// the position moves on by one; a value outside it is refused with nothing
/// written.
pub proof fn lemma_checked_byte_write(
    old_bin: BinaryModel,
    new_bin: BinaryModel,
    res: Result<(), AsmError>,
    val: i64,
    lo: int,
    hi: int,
    dest: Seq<char>,
)
    requires
        byte_check_step(old_bin, new_bin, res, val, lo, hi, dest),
        -128 <= lo,
        hi <= 256,
    ensures
        res is Ok ==> {
            &&& lo <= val < hi
            &&& new_bin.data == old_bin.data.update(
                old_bin.location().physical as int,
                (val % 256) as u8,
            )
            &&& new_bin.write_address == (old_bin.write_address + 1) as usize
        },
        !(lo <= val < hi) ==> new_bin == old_bin && res is Err,
{
    if lo <= val < hi {
        lemma_low_byte(val);
    }
}

/// A range-checked word operand: a value inside the field's range is
/// written high byte first, as the two bytes of the value modulo 65536; a
/// value outside it is refused with nothing written.
pub proof fn lemma_checked_word_write(
    old_bin: BinaryModel,
    new_bin: BinaryModel,
    res: Result<(), AsmError>,
    val: i64,
    lo: int,
    hi: int,
    dest: Seq<char>,
)
    requires
        word_check_step(old_bin, new_bin, res, val, lo, hi, dest),
        -32768 <= lo,
        hi <= 65536,
    ensures
        lo <= val < hi ==> new_bin == old_bin.write_bytes_result(
            seq![((val % 65536) / 256) as u8, (val % 256) as u8],
        ).0,
        res is Ok ==> lo <= val < hi,
        !(lo <= val < hi) ==> new_bin == old_bin && res is Err,
{
    if lo <= val < hi {
        lemma_low_word(val);
    }
}

} // verus!
