//! Replaying the walk plan: emitting the bytes of each statement.
use vstd::prelude::*;
use super::asmout::{AsmOut, DataMapping};
use super::binary::{Binary, BinaryError, BinaryModel, word_bytes};
use super::error::{AsmError, binary_error_map, is_asm_does_not_fit, lift};
use super::opcodes::{lemma_low_byte, lemma_low_word};
use super::plan::{PlanEntry, PlanKind, next_pc};
use crate::cpu6809::compile::{
    compile_opcode, instruction_len, lemma_opcode_follows_layout, opcode_can, opcode_step, row_sized,
};
use crate::cpu6809::isa::{AddrModeEnum, Instruction};
use crate::cpu6809::nodekind::AddrModeParseType;
use crate::cpu6809::regutils::RegEnum;
use crate::cpu6800::compiler::{
    compile_opcode_6800, lemma_instruction_length_6800, opcode_can_6800, opcode_step_6800,
    row_consistent_6800,
};
use crate::cpu6800::isa::OpcodeData;

verus! {

/// A planned statement with its arguments evaluated, as the compiler emits
/// it.
#[derive(Debug, Clone)]
pub enum Directive {
    SetPc(usize),
    SetPutOffset(isize),
    Skip(usize),
    /// `fdb`: words.
    Fdb(Vec<i64>),
    /// `fcb`: bytes.
    Fcb(Vec<i64>),
    /// `fcc`: the bytes of a text.
    Fcc(Vec<u8>),
    /// `zmb`: this many zero bytes.
    Zmb(i64),
    /// `zmd`: this many zero words.
    Zmd(i64),
    /// `fill`: size, then the byte.
    Fill(i64, i64),
    /// `grabmem`: copy `size` bytes from physical `source` to the PC.
    GrabMem(i64, i64),
    /// `exec`: the execution address.
    Exec(i64),
    /// An included binary chunk: its bytes.
    IncBin(Vec<u8>),
    /// A 6809 instruction: its row, its operand form, its evaluated
    /// operand, its register list (for `pshs`/`puls`), and whether an
    /// out-of-range branch is written as zero rather than refused.
    Op6809(Instruction, AddrModeParseType, i64, Vec<RegEnum>, bool),
    /// A 6800 instruction: its row, its evaluated operand, and whether an
    /// out-of-range branch is written as zero rather than refused.
    Op6800(OpcodeData, i64, bool),
    /// A statement that emits nothing.
    Nothing,
}

/// Words written in order, each range-checked, stopping at the first error.
pub open spec fn words_can(m: BinaryModel, vals: Seq<i64>) -> bool
    decreases vals.len(),
{
    vals.len() == 0 || (-32768 <= vals[0] < 65536 ==> {
        &&& m.can_write_bytes(word_bytes(vals[0] as u16))
        &&& match m.write_bytes_result(word_bytes(vals[0] as u16)) {
            (m1, Ok(_)) => words_can(m1, vals.drop_first()),
            _ => true,
        }
    })
}

/// Words written in order, each range-checked, stopping at the first error.
pub open spec fn words_step(m: BinaryModel, new: BinaryModel, res: Result<(), AsmError>, vals: Seq<i64>) -> bool
    decreases vals.len(),
{
    if vals.len() == 0 {
        new == m && res is Ok
    } else if -32768 <= vals[0] < 65536 {
        match m.write_bytes_result(word_bytes(vals[0] as u16)) {
            (m1, Ok(_)) => words_step(m1, new, res, vals.drop_first()),
            (m1, Err(e)) => new == m1 && res == Err::<(), AsmError>(AsmError::Binary(e)),
        }
    } else {
        new == m && is_asm_does_not_fit(res, "i16 or u16"@, vals[0])
    }
}

/// Bytes written in order, each range-checked, stopping at the first error.
pub open spec fn bytes_can(m: BinaryModel, vals: Seq<i64>) -> bool
    decreases vals.len(),
{
    vals.len() == 0 || (-128 <= vals[0] < 256 ==> {
        &&& m.can_write_byte()
        &&& match m.write_byte_result(vals[0] as u8) {
            (m1, Ok(_)) => bytes_can(m1, vals.drop_first()),
            _ => true,
        }
    })
}

/// Bytes written in order, each range-checked, stopping at the first error.
pub open spec fn bytes_step(m: BinaryModel, new: BinaryModel, res: Result<(), AsmError>, vals: Seq<i64>) -> bool
    decreases vals.len(),
{
    if vals.len() == 0 {
        new == m && res is Ok
    } else if -128 <= vals[0] < 256 {
        match m.write_byte_result(vals[0] as u8) {
            (m1, Ok(_)) => bytes_step(m1, new, res, vals.drop_first()),
            (m1, Err(e)) => new == m1 && res == Err::<(), AsmError>(AsmError::Binary(e)),
        }
    } else {
        new == m && is_asm_does_not_fit(res, "i8 or u8"@, vals[0])
    }
}

/// `n` copies of `b` (none when `n` is not positive).
pub open spec fn repeated(n: int, b: u8) -> Seq<u8> {
    Seq::new(if n > 0 { n as nat } else { 0 }, |i: int| b)
}

/// `n` zero words (none when `n` is not positive).
pub open spec fn zero_words(n: int) -> Seq<i64> {
    Seq::new(if n > 0 { n as nat } else { 0 }, |i: int| 0i64)
}

/// The directive can be emitted without a panic.
pub open spec fn directive_can(m: BinaryModel, d: Directive) -> bool {
    match d {
        Directive::Skip(n) => m.write_address + n <= usize::MAX,
        Directive::Fdb(vals) => words_can(m, vals@),
        Directive::Fcb(vals) => bytes_can(m, vals@),
        Directive::Fcc(text) => m.can_write_bytes(text@),
        Directive::IncBin(data) => m.can_write_bytes(data@),
        Directive::Zmb(n) => m.can_write_bytes(repeated(n as int, 0)),
        Directive::Zmd(n) => words_can(m, zero_words(n as int)),
        Directive::Fill(size, byte) => size > 0 && 0 <= byte < 256 ==> m.can_write_bytes(
            repeated(size as int, byte as u8),
        ),
        Directive::GrabMem(source, size) => size as usize != 0 ==> {
            &&& source as usize + size as usize <= m.data.len()
            &&& m.can_write_bytes(
                m.data.subrange(source as usize as int, source as usize + size as usize),
            )
        },
        Directive::Op6809(ins, amode, arg, regs, ign) => opcode_can(m, ins, amode, arg, regs@, ign),
        Directive::Op6800(ins, arg, ign) => opcode_can_6800(m, ins, arg, ign),
        _ => true,
    }
}

/// The image after emitting a directive, and the result.
pub open spec fn directive_step(m: BinaryModel, new: BinaryModel, res: Result<(), AsmError>, d: Directive) -> bool {
    match d {
        Directive::SetPc(p) => new == (BinaryModel { write_address: p, write_offset: 0, ..m }) && res is Ok,
        Directive::SetPutOffset(o) => new == (BinaryModel { write_offset: o, ..m }) && res is Ok,
        Directive::Skip(n) => new == (BinaryModel {
            write_address: (m.write_address + n) as usize,
            ..m
        }) && res is Ok,
        Directive::Fdb(vals) => words_step(m, new, res, vals@),
        Directive::Fcb(vals) => bytes_step(m, new, res, vals@),
        Directive::Fcc(text) => {
            let (m1, r) = m.write_bytes_result(text@);
            new == m1 && res == lift(r)
        },
        Directive::IncBin(data) => {
            let (m1, r) = m.write_bytes_result(data@);
            new == m1 && res == lift(r)
        },
        Directive::Zmb(n) => {
            let (m1, r) = m.write_bytes_result(repeated(n as int, 0));
            new == m1 && res == lift(r)
        },
        Directive::Zmd(n) => words_step(m, new, res, zero_words(n as int)),
        Directive::Fill(size, byte) => if size <= 0 {
            new == m && res is Ok
        } else if 0 <= byte < 256 {
            let (m1, r) = m.write_bytes_result(repeated(size as int, byte as u8));
            new == m1 && res == lift(r)
        } else {
            new == m && is_asm_does_not_fit(res, "u8"@, byte)
        },
        Directive::GrabMem(source, size) => if size as usize == 0 {
            new == m && res == Err::<(), AsmError>(AsmError::Binary(BinaryError::AskedForZeroBytes))
        } else {
            let (m1, r) = m.write_bytes_result(
                m.data.subrange(source as usize as int, source as usize + size as usize),
            );
            new == m1 && res == lift(r)
        },
        Directive::Op6809(ins, amode, arg, regs, ign) => opcode_step(m, new, res, ins, amode, arg, regs@, ign),
        Directive::Op6800(ins, arg, ign) => opcode_step_6800(m, new, res, ins, arg, ign),
        Directive::Exec(_) | Directive::Nothing => new == m && res is Ok,
    }
}

fn compile_words(bin: &mut Binary, vals: &Vec<i64>) -> (res: Result<(), AsmError>)
    requires
        words_can(old(bin)@, vals@),
    ensures
        words_step(old(bin)@, final(bin)@, res, vals@),
{
    let mut i: usize = 0;
    assert(vals@.skip(0) =~= vals@);
    while i < vals.len()
        invariant
            0 <= i <= vals.len(),
            words_can(bin@, vals@.skip(i as int)),
            forall|n: BinaryModel, r: Result<(), AsmError>|
                words_step(bin@, n, r, vals@.skip(i as int)) ==> words_step(old(bin)@, n, r, vals@),
        decreases vals.len() - i,
    {
        let ghost rest = vals@.skip(i as int);
        assert(rest[0] == vals@[i as int]);
        assert(rest.drop_first() =~= vals@.skip(i + 1));
        let x = vals[i];
        binary_error_map(bin.write_word_check_size(x))?;
        i = i + 1;
    }
    assert(vals@.skip(i as int) =~= Seq::<i64>::empty());
    Ok(())
}

fn compile_bytes(bin: &mut Binary, vals: &Vec<i64>) -> (res: Result<(), AsmError>)
    requires
        bytes_can(old(bin)@, vals@),
    ensures
        bytes_step(old(bin)@, final(bin)@, res, vals@),
{
    let mut i: usize = 0;
    assert(vals@.skip(0) =~= vals@);
    while i < vals.len()
        invariant
            0 <= i <= vals.len(),
            bytes_can(bin@, vals@.skip(i as int)),
            forall|n: BinaryModel, r: Result<(), AsmError>|
                bytes_step(bin@, n, r, vals@.skip(i as int)) ==> bytes_step(old(bin)@, n, r, vals@),
        decreases vals.len() - i,
    {
        let ghost rest = vals@.skip(i as int);
        assert(rest[0] == vals@[i as int]);
        assert(rest.drop_first() =~= vals@.skip(i + 1));
        let x = vals[i];
        binary_error_map(bin.write_byte_check_size(x))?;
        i = i + 1;
    }
    assert(vals@.skip(i as int) =~= Seq::<i64>::empty());
    Ok(())
}

} // verus!

verus! {

fn compile_zero_words(bin: &mut Binary, n: i64) -> (res: Result<(), AsmError>)
    requires
        words_can(old(bin)@, zero_words(n as int)),
    ensures
        words_step(old(bin)@, final(bin)@, res, zero_words(n as int)),
{
    let ghost all = zero_words(n as int);
    let mut i: i64 = 0;
    assert(all.skip(0) =~= all);
    while i < n
        invariant
            0 <= i,
            i <= (if n > 0 { n } else { 0 }),
            all == zero_words(n as int),
            all.len() == (if n > 0 { n as int } else { 0 }),
            words_can(bin@, all.skip(i as int)),
            forall|nb: BinaryModel, r: Result<(), AsmError>|
                words_step(bin@, nb, r, all.skip(i as int)) ==> words_step(old(bin)@, nb, r, all),
        decreases n - i,
    {
        let ghost rest = all.skip(i as int);
        assert(rest[0] == 0i64);
        assert(rest.drop_first() =~= all.skip(i + 1));
        assert(word_bytes(0i64 as u16) == word_bytes(0u16));
        binary_error_map(bin.write_word(0))?;
        i = i + 1;
    }
    assert(all.skip(i as int).len() == 0);
    assert(all.skip(i as int) =~= Seq::<i64>::empty());
    Ok(())
}

/// Write `n` copies of `b` (none when `n` is not positive), stopping at the
/// first error.
fn compile_repeated(bin: &mut Binary, n: i64, b: u8) -> (res: Result<(), AsmError>)
    requires
        old(bin)@.can_write_bytes(repeated(n as int, b)),
    ensures
        ({
            let (m1, r) = old(bin)@.write_bytes_result(repeated(n as int, b));
            final(bin)@ == m1 && res == lift(r)
        }),
{
    let ghost all = repeated(n as int, b);
    let mut i: i64 = 0;
    assert(all.skip(0) =~= all);
    while i < n
        invariant
            0 <= i,
            i <= (if n > 0 { n } else { 0 }),
            all == repeated(n as int, b),
            all.len() == (if n > 0 { n as int } else { 0 }),
            bin@.can_write_bytes(all.skip(i as int)),
            old(bin)@.write_bytes_result(all) == bin@.write_bytes_result(all.skip(i as int)),
        decreases n - i,
    {
        let ghost rest = all.skip(i as int);
        assert(rest[0] == b);
        assert(rest.drop_first() =~= all.skip(i + 1));
        binary_error_map(bin.write_byte(b))?;
        i = i + 1;
    }
    assert(all.skip(i as int).len() == 0);
    assert(all.skip(i as int) =~= Seq::<u8>::empty());
    Ok(())
}

/// The range of a file of `data_len` bytes that an `incbin` with the
/// arguments `offset` and `size` takes: from `offset`, `size` bytes, all of
/// which must lie inside the file.
pub fn binary_extents(data_len: usize, offset: i64, size: i64) -> (res: Result<(usize, usize), AsmError>)
    requires
        1 <= (offset as usize) + (size as usize) <= usize::MAX,
    ensures
        ({
            let o = offset as usize;
            let last = (o + (size as usize)) - 1;
            if o < data_len && last < data_len {
                res == Ok::<(usize, usize), AsmError>((o, (o + (size as usize)) as usize))
            } else {
                res == Err::<(usize, usize), AsmError>(
                    AsmError::GrabOutOfRange { offset, size, file_size: data_len },
                )
            }
        }),
{
    let o = offset as usize;
    let s = size as usize;
    let last = (o + s) - 1;
    if !(o < data_len && last < data_len) {
        return Err(AsmError::GrabOutOfRange { offset, size, file_size: data_len });
    }
    Ok((o, o + s))
}

/// Emit one directive into the image (and the execution address).
pub fn compile_directive(asm_out: &mut AsmOut, d: &Directive) -> (res: Result<(), AsmError>)
    requires
        directive_can(old(asm_out).binary@, *d),
    ensures
        directive_step(old(asm_out).binary@, final(asm_out).binary@, res, *d),
        final(asm_out).direct_page == old(asm_out).direct_page,
        final(asm_out).exec_addr == (match *d {
            Directive::Exec(a) => Some(a as usize),
            _ => old(asm_out).exec_addr,
        }),
        final(asm_out).pc_symbol == old(asm_out).pc_symbol,
        final(asm_out).symbols@ == old(asm_out).symbols@,
        final(asm_out).data_map@ == old(asm_out).data_map@,
        final(asm_out).addr_map@ == old(asm_out).addr_map@,
{
    match d {
        Directive::SetPc(new_pc) => {
            asm_out.binary.set_write_address(*new_pc, 0);
            Ok(())
        },
        Directive::SetPutOffset(offset) => {
            asm_out.binary.set_write_offset(*offset);
            Ok(())
        },
        Directive::Skip(skip) => {
            asm_out.binary.skip(*skip);
            Ok(())
        },
        Directive::Fdb(vals) => compile_words(&mut asm_out.binary, vals),
        Directive::Fcb(vals) => compile_bytes(&mut asm_out.binary, vals),
        Directive::Fcc(text) => binary_error_map(asm_out.binary.write_bytes(text.as_slice())),
        Directive::IncBin(data) => binary_error_map(asm_out.binary.write_bytes(data.as_slice())),
        Directive::Zmb(bytes) => compile_repeated(&mut asm_out.binary, *bytes, 0),
        Directive::Zmd(words) => compile_zero_words(&mut asm_out.binary, *words),
        Directive::Fill(size, byte) => {
            if *size <= 0 {
                Ok(())
            } else if !(0 <= *byte && *byte < 256) {
                binary_error_map(asm_out.binary.write_ubyte_check_size(*byte))
            } else {
                compile_repeated(&mut asm_out.binary, *size, *byte as u8)
            }
        },
        Directive::GrabMem(source, size) => {
            let bytes = match asm_out.binary.get_bytes(*source as usize, *size as usize) {
                Ok(b) => vstd::slice::slice_to_vec(b),
                Err(e) => {
                    return Err(AsmError::Binary(e));
                },
            };
            binary_error_map(asm_out.binary.write_bytes(bytes.as_slice()))
        },
        Directive::Exec(exec_addr) => {
            asm_out.exec_addr = Some(*exec_addr as usize);
            Ok(())
        },
        Directive::Op6809(ins, amode, arg, regs, ign) => compile_opcode(
            &mut asm_out.binary,
            ins,
            *amode,
            *arg,
            regs,
            *ign,
        ),
        Directive::Op6800(ins, arg, ign) => compile_opcode_6800(&mut asm_out.binary, ins, *arg, *ign),
        Directive::Nothing => Ok(()),
    }
}

/// The directive emits what the plan entry's kind laid out: the same number
/// of words, bytes or text bytes, the same skip, zero-fill, copy or fill
/// size, and the same PC.
pub open spec fn directive_matches(kind: PlanKind, d: Directive) -> bool {
    match kind {
        PlanKind::SetPc(p) => d == Directive::SetPc(p),
        PlanKind::SetPutOffset(o) => d == Directive::SetPutOffset(o),
        PlanKind::Skip(n) => d == Directive::Skip(n),
        PlanKind::EmitWords(n) => d matches Directive::Fdb(v) && v@.len() == n,
        PlanKind::EmitBytes(n) => d matches Directive::Fcb(v) && v@.len() == n,
        PlanKind::EmitString(n) => d matches Directive::Fcc(t) && t@.len() == n,
        PlanKind::ZeroWords(n) => d matches Directive::Zmd(w) && w >= 0 && w == n,
        PlanKind::Fill(n) => d matches Directive::Fill(size, _) && size >= 0 && size == n,
        PlanKind::GrabMem(n) => d matches Directive::GrabMem(_, size) && size as usize == n,
        PlanKind::Exec => d is Exec,
        PlanKind::IncBinResolved(st, e) => d matches Directive::IncBin(data) && data@.len() == (if e
            >= st {
            e - st
        } else {
            0
        }),
        PlanKind::TargetSpecific(n) => match d {
            Directive::Op6809(ins, amode, _, _, _) => {
                &&& row_sized(ins)
                &&& ins.addr_mode == AddrModeEnum::Indexed ==> amode is Indexed
                &&& n == instruction_len(ins, amode)
            },
            Directive::Op6800(ins, _, _) => row_consistent_6800(ins) && n == ins.size,
            _ => false,
        },
        _ => d is Nothing,
    }
}

/// Emit a planned statement with the directive that its kind laid out.
/// The image's write address must be the PC the sizer planned for it:
/// sizing and emission agree on the layout. Before the directive is
/// emitted, `*` is set to that PC and the entry's loop indices are set, in
/// order. After a successful emission a data statement's range of the image
/// is mapped to it, and every statement but a macro call's record is mapped
/// to its address.
pub fn compile_entry(asm_out: &mut AsmOut, entry: &PlanEntry, d: &Directive) -> (res: Result<(), AsmError>)
    requires
        old(asm_out).binary@.write_address == entry.pc,
        directive_matches(entry.kind, *d),
        directive_can(old(asm_out).binary@, *d),
    ensures
        directive_step(old(asm_out).binary@, final(asm_out).binary@, res, *d),
        entry.kind matches PlanKind::SetPc(n) ==> final(asm_out).binary@.write_address == n
            && final(asm_out).binary@.write_offset == 0,
        res is Ok ==> final(asm_out).binary@.write_address == next_pc(entry.kind, entry.pc as int),
        final(asm_out).pc_symbol == entry.pc,
        final(asm_out).symbols@ == old(asm_out).symbols@ + entry@.bindings,
        res is Ok ==> final(asm_out).data_map@ == old(asm_out).data_map@ + (if maps_data(entry.kind) {
            seq![
                DataMapping {
                    node_id: entry.node_id,
                    start: entry.pc,
                    end: final(asm_out).binary@.write_address,
                    offset: final(asm_out).binary@.write_offset,
                },
            ]
        } else {
            Seq::empty()
        }),
        res is Ok ==> final(asm_out).addr_map@ == old(asm_out).addr_map@ + (if entry.kind is MacroCallProcessed {
            Seq::empty()
        } else {
            seq![(entry.node_id, entry.pc)]
        }),
        res is Err ==> final(asm_out).data_map@ == old(asm_out).data_map@ && final(asm_out).addr_map@ == old(
            asm_out,
        ).addr_map@,
        final(asm_out).direct_page == old(asm_out).direct_page,
        final(asm_out).exec_addr == (match *d {
            Directive::Exec(a) => Some(a as usize),
            _ => old(asm_out).exec_addr,
        }),
{
    asm_out.pc_symbol = entry.pc;
    let ghost before = asm_out.symbols@;
    let mut i: usize = 0;
    while i < entry.bindings.len()
        invariant
            i <= entry.bindings@.len(),
            asm_out.symbols@ == before + entry.bindings@.subrange(0, i as int),
            asm_out.binary@ == old(asm_out).binary@,
            asm_out.pc_symbol == entry.pc,
            asm_out.direct_page == old(asm_out).direct_page,
            asm_out.exec_addr == old(asm_out).exec_addr,
            asm_out.data_map@ == old(asm_out).data_map@,
            asm_out.addr_map@ == old(asm_out).addr_map@,
        decreases entry.bindings@.len() - i,
    {
        asm_out.symbols.push(entry.bindings[i]);
        i = i + 1;
        assert(asm_out.symbols@ =~= before + entry.bindings@.subrange(0, i as int));
    }
    assert(entry.bindings@.subrange(0, i as int) =~= entry.bindings@);
    let res = compile_directive(asm_out, d);
    proof {
        if res is Ok {
            lemma_emission_follows_layout(entry.kind, *d, old(asm_out).binary@, asm_out.binary@, res);
        }
    }
    if res.is_ok() {
        let data = match entry.kind {
            PlanKind::EmitWords(_) | PlanKind::EmitBytes(_) | PlanKind::EmitString(_) | PlanKind::ZeroWords(_)
            | PlanKind::Fill(_) => true,
            _ => false,
        };
        if data {
            let m = DataMapping {
                node_id: entry.node_id,
                start: entry.pc,
                end: asm_out.binary.get_write_address(),
                offset: asm_out.binary.get_write_offset(),
            };
            asm_out.data_map.push(m);
        }
        let macro_call = match entry.kind {
            PlanKind::MacroCallProcessed => true,
            _ => false,
        };
        if !macro_call {
            asm_out.addr_map.push((entry.node_id, entry.pc));
        }
    }
    res
}

/// The statements whose emission maps a range of the image: the data
/// statements.
pub open spec fn maps_data(kind: PlanKind) -> bool {
    kind is EmitWords || kind is EmitBytes || kind is EmitString || kind is ZeroWords || kind is Fill
}

} // verus!

verus! {

/// Successful checked words advance the write address by two per word.
pub proof fn lemma_words_advance(m: BinaryModel, new: BinaryModel, res: Result<(), AsmError>, vals: Seq<i64>)
    requires
        words_can(m, vals),
        words_step(m, new, res, vals),
        res is Ok,
    ensures
        new.write_address == m.write_address + 2 * vals.len(),
    decreases vals.len(),
{
    if vals.len() > 0 {
        let bs = word_bytes(vals[0] as u16);
        let (m1, r) = m.write_bytes_result(bs);
        super::binary::lemma_write_bytes_advances(m, bs);
        lemma_words_advance(m1, new, res, vals.drop_first());
    }
}

/// Successful checked bytes advance the write address by one per byte.
pub proof fn lemma_bytes_advance(m: BinaryModel, new: BinaryModel, res: Result<(), AsmError>, vals: Seq<i64>)
    requires
        bytes_can(m, vals),
        bytes_step(m, new, res, vals),
        res is Ok,
    ensures
        new.write_address == m.write_address + vals.len(),
    decreases vals.len(),
{
    if vals.len() > 0 {
        let (m1, r) = m.write_byte_result(vals[0] as u8);
        lemma_bytes_advance(m1, new, res, vals.drop_first());
    }
}

/// Emission agrees with layout: a directive that matches a planned kind
/// and is emitted without error leaves the write address at the PC the
/// sizer computes after that kind.
pub proof fn lemma_emission_follows_layout(
    kind: PlanKind,
    d: Directive,
    m: BinaryModel,
    new: BinaryModel,
    res: Result<(), AsmError>,
)
    requires
        directive_matches(kind, d),
        directive_can(m, d),
        directive_step(m, new, res, d),
        res is Ok,
    ensures
        new.write_address == next_pc(kind, m.write_address as int),
{
    match d {
        Directive::Fdb(vals) => lemma_words_advance(m, new, res, vals@),
        Directive::Fcb(vals) => lemma_bytes_advance(m, new, res, vals@),
        Directive::Fcc(text) => super::binary::lemma_write_bytes_advances(m, text@),
        Directive::IncBin(data) => super::binary::lemma_write_bytes_advances(m, data@),
        Directive::Zmd(n) => lemma_words_advance(m, new, res, zero_words(n as int)),
        Directive::Fill(size, byte) => {
            if size > 0 {
                super::binary::lemma_write_bytes_advances(m, repeated(size as int, byte as u8));
            }
        },
        Directive::GrabMem(source, size) => {
            super::binary::lemma_write_bytes_advances(
                m,
                m.data.subrange(source as usize as int, source as usize + size as usize),
            );
        },
        Directive::Op6809(ins, amode, arg, regs, ign) => {
            lemma_opcode_follows_layout(m, new, res, ins, amode, arg, regs@, ign);
        },
        Directive::Op6800(ins, arg, ign) => {
            lemma_instruction_length_6800(m, new, res, ins, arg, ign);
        },
        _ => {},
    }
}

} // verus!

verus! {

/// Replaying the plan never drifts: when the sizer records a statement at
/// PC `p` and the compiler, at write address `p`, emits a directive that
/// matches the recorded kind without error, the write address ends where
/// the sizer's PC went, which is where the next planned statement starts.
pub proof fn lemma_no_layout_drift(
    m: super::sizer::SizerModel,
    id: usize,
    item: super::sizer::SizeItem,
    bin: BinaryModel,
    new_bin: BinaryModel,
    d: Directive,
)
    requires
        super::sizer::size_item_ok(m, item),
        super::sizer::size_item_result(m, id, item) is Ok,
        bin.write_address == m.pc,
        directive_matches(super::sizer::size_item_result(m, id, item)->Ok_0.plan.last().kind, d),
        directive_can(bin, d),
        directive_step(bin, new_bin, Ok::<(), AsmError>(()), d),
    ensures
        new_bin.write_address == super::sizer::size_item_result(m, id, item)->Ok_0.pc,
{
    super::sizer::lemma_sizing_records_layout(m, id, item);
    lemma_emission_follows_layout(
        super::sizer::size_item_result(m, id, item)->Ok_0.plan.last().kind,
        d,
        bin,
        new_bin,
        Ok::<(), AsmError>(()),
    );
}

} // verus!

verus! {

/// Replaying a contiguous plan never drifts: a directive that matches entry
/// `i`, emitted without error at that entry's PC, leaves the write address
/// where entry `i + 1` starts (or, after the last entry, at the sizer's
/// final PC).
pub proof fn lemma_replay_reaches_next_entry(
    plan: Seq<super::plan::PlanEntryModel>,
    pc: usize,
    i: int,
    d: Directive,
    bin: BinaryModel,
    new_bin: BinaryModel,
)
    requires
        super::sizer::contiguous(plan, pc),
        0 <= i < plan.len(),
        bin.write_address == plan[i].pc,
        directive_matches(plan[i].kind, d),
        directive_can(bin, d),
        directive_step(bin, new_bin, Ok::<(), AsmError>(()), d),
    ensures
        new_bin.write_address == (if i + 1 < plan.len() {
            plan[i + 1].pc as int
        } else {
            pc as int
        }),
{
    lemma_emission_follows_layout(plan[i].kind, d, bin, new_bin, Ok::<(), AsmError>(()));
    if i + 1 < plan.len() {
        assert(plan[i + 1].pc == next_pc(plan[i + 1 - 1].kind, plan[i + 1 - 1].pc as int));
    }
}

} // verus!

verus! {

/// The value of operand `i` of a planned statement.
pub open spec fn operand(entry: PlanEntry, ops: Seq<super::sizer::Expr>, i: int, syms: Seq<(u64, i64)>) -> Result<
    i64,
    AsmError,
> {
    super::sizer::eval_expr(ops[i], entry.pc, entry.bindings@, syms)
}

/// What building the directive of a planned data statement gives.
pub open spec fn directive_built(
    entry: PlanEntry,
    ops: Seq<super::sizer::Expr>,
    syms: Seq<(u64, i64)>,
    data: Seq<u8>,
    res: Result<Directive, AsmError>,
) -> bool {
    match entry.kind {
        PlanKind::SetPc(p) => res == Ok::<Directive, AsmError>(Directive::SetPc(p)),
        PlanKind::SetPutOffset(o) => res == Ok::<Directive, AsmError>(Directive::SetPutOffset(o)),
        PlanKind::Skip(n) => res == Ok::<Directive, AsmError>(Directive::Skip(n)),
        PlanKind::EmitBytes(n) | PlanKind::EmitWords(n) => if ops.len() != n {
            res == Err::<Directive, AsmError>(AsmError::MissingArgument)
        } else {
            match super::sizer::eval_all(ops, ops.len() as int, entry.pc, entry.bindings@, syms) {
                Ok(vs) => if entry.kind is EmitBytes {
                    res matches Ok(Directive::Fcb(v)) && v@ == vs
                } else {
                    res matches Ok(Directive::Fdb(v)) && v@ == vs
                },
                Err(e) => res == Err::<Directive, AsmError>(e),
            }
        },
        PlanKind::EmitString(n) => if data.len() != n {
            res == Err::<Directive, AsmError>(AsmError::MissingArgument)
        } else {
            res matches Ok(Directive::Fcc(t)) && t@ == data
        },
        PlanKind::IncBinResolved(s, e) => if data.len() != (if e >= s { e - s } else { 0 }) {
            res == Err::<Directive, AsmError>(AsmError::MissingArgument)
        } else {
            res matches Ok(Directive::IncBin(t)) && t@ == data
        },
        PlanKind::ZeroWords(n) => if n > i64::MAX {
            res == Err::<Directive, AsmError>(AsmError::ArithmeticOverflow)
        } else {
            res == Ok::<Directive, AsmError>(Directive::Zmd(n as i64))
        },
        PlanKind::Fill(n) => if n > i64::MAX {
            res == Err::<Directive, AsmError>(AsmError::ArithmeticOverflow)
        } else if ops.len() < 2 {
            res == Err::<Directive, AsmError>(AsmError::MissingArgument)
        } else {
            match operand(entry, ops, 1, syms) {
                Ok(b) => res == Ok::<Directive, AsmError>(Directive::Fill(n as i64, b)),
                Err(e) => res == Err::<Directive, AsmError>(e),
            }
        },
        PlanKind::GrabMem(n) => if n > i64::MAX {
            res == Err::<Directive, AsmError>(AsmError::ArithmeticOverflow)
        } else if ops.len() < 1 {
            res == Err::<Directive, AsmError>(AsmError::MissingArgument)
        } else {
            match operand(entry, ops, 0, syms) {
                Ok(src) => res == Ok::<Directive, AsmError>(Directive::GrabMem(src, n as i64)),
                Err(e) => res == Err::<Directive, AsmError>(e),
            }
        },
        PlanKind::Exec => if ops.len() < 1 {
            res == Err::<Directive, AsmError>(AsmError::MissingArgument)
        } else {
            match operand(entry, ops, 0, syms) {
                Ok(a) => res == Ok::<Directive, AsmError>(Directive::Exec(a)),
                Err(e) => res == Err::<Directive, AsmError>(e),
            }
        },
        PlanKind::TargetSpecific(_) => res == Err::<Directive, AsmError>(AsmError::UnableToSize),
        _ => res == Ok::<Directive, AsmError>(Directive::Nothing),
    }
}

/// The directive that replays a planned statement: its operands `ops`
/// evaluated at its PC with its loop indices and the symbol values `syms`
/// (the first error stops the work), and, for `fcc` and an included
/// binary, its bytes `data`. Operands or bytes that do not agree with the
/// layout are refused. The compiler replays every such directive: it
/// matches the entry's kind. An instruction's directive is built by its
/// CPU, with its row, and is refused here.
pub fn directive_for(entry: &PlanEntry, ops: &Vec<super::sizer::Expr>, syms: &Vec<(u64, i64)>, data: &Vec<u8>) -> (res:
    Result<Directive, AsmError>)
    ensures
        directive_built(*entry, ops@, syms@, data@, res),
        res matches Ok(d) ==> directive_matches(entry.kind, d),
{
    match entry.kind {
        PlanKind::SetPc(p) => Ok(Directive::SetPc(p)),
        PlanKind::SetPutOffset(o) => Ok(Directive::SetPutOffset(o)),
        PlanKind::Skip(n) => Ok(Directive::Skip(n)),
        PlanKind::EmitBytes(n) | PlanKind::EmitWords(n) => {
            if ops.len() != n {
                return Err(AsmError::MissingArgument);
            }
            let vals = match super::sizer::eval_operands(entry, ops, syms) {
                Ok(v) => v,
                Err(e) => {
                    return Err(e);
                },
            };
            proof {
                super::sizer::lemma_eval_all_len(ops@, ops@.len() as int, entry.pc, entry.bindings@, syms@);
            }
            if let PlanKind::EmitBytes(_) = entry.kind {
                Ok(Directive::Fcb(vals))
            } else {
                Ok(Directive::Fdb(vals))
            }
        },
        PlanKind::EmitString(n) => {
            if data.len() != n {
                return Err(AsmError::MissingArgument);
            }
            Ok(Directive::Fcc(super::plan::copy_bytes(data)))
        },
        PlanKind::IncBinResolved(s, e) => {
            let len = if e >= s {
                e - s
            } else {
                0
            };
            if data.len() != len {
                return Err(AsmError::MissingArgument);
            }
            Ok(Directive::IncBin(super::plan::copy_bytes(data)))
        },
        PlanKind::ZeroWords(n) => {
            if (n as u64) > 9223372036854775807u64 {
                return Err(AsmError::ArithmeticOverflow);
            }
            Ok(Directive::Zmd(n as i64))
        },
        PlanKind::Fill(n) => {
            if (n as u64) > 9223372036854775807u64 {
                return Err(AsmError::ArithmeticOverflow);
            }
            if ops.len() < 2 {
                return Err(AsmError::MissingArgument);
            }
            match super::sizer::eval_in(&ops[1], entry.pc, &entry.bindings, syms) {
                Ok(b) => Ok(Directive::Fill(n as i64, b)),
                Err(e) => Err(e),
            }
        },
        PlanKind::GrabMem(n) => {
            if (n as u64) > 9223372036854775807u64 {
                return Err(AsmError::ArithmeticOverflow);
            }
            if ops.len() < 1 {
                return Err(AsmError::MissingArgument);
            }
            match super::sizer::eval_in(&ops[0], entry.pc, &entry.bindings, syms) {
                Ok(src) => Ok(Directive::GrabMem(src, n as i64)),
                Err(e) => Err(e),
            }
        },
        PlanKind::Exec => {
            if ops.len() < 1 {
                return Err(AsmError::MissingArgument);
            }
            match super::sizer::eval_in(&ops[0], entry.pc, &entry.bindings, syms) {
                Ok(a) => Ok(Directive::Exec(a)),
                Err(e) => Err(e),
            }
        },
        PlanKind::TargetSpecific(_) => Err(AsmError::UnableToSize),
        _ => Ok(Directive::Nothing),
    }
}

} // verus!

verus! {

/// After `put v` is laid out at PC `pc` and replayed at write address `pc`,
/// the next write goes to physical address `v`, at the same logical
/// address.
pub proof fn lemma_put_writes_at_target(
    m: super::sizer::SizerModel,
    id: usize,
    v: i64,
    bin: BinaryModel,
    new_bin: BinaryModel,
    d: Directive,
)
    requires
        super::sizer::size_item_ok(m, super::sizer::SizeItem::Put(v)),
        isize::MIN <= v - m.pc <= isize::MAX,
        0 <= v,
        bin.write_address == m.pc,
        directive_matches(super::sizer::size_item_result(m, id, super::sizer::SizeItem::Put(v))->Ok_0.plan.last().kind, d),
        directive_step(bin, new_bin, Ok::<(), AsmError>(()), d),
    ensures
        new_bin.write_address == m.pc,
        new_bin.location().physical == v,
{
    super::sizer::lemma_put_targets_address(m, id, v);
}

} // verus!

verus! {

/// The low bytes of `vals`, each value modulo 256.
pub open spec fn low_bytes(vals: Seq<i64>) -> Seq<u8> {
    Seq::new(vals.len(), |k: int| (vals[k] % 256) as u8)
}

/// The words of `vals`, each value modulo 65536, high byte first.
pub open spec fn word_stream(vals: Seq<i64>) -> Seq<u8>
    decreases vals.len(),
{
    if vals.len() == 0 {
        Seq::empty()
    } else {
        seq![((vals[0] % 65536) / 256) as u8, (vals[0] % 256) as u8] + word_stream(vals.drop_first())
    }
}

/// Writing two runs of bytes is writing the first, then, if that went
/// well, the second.
proof fn lemma_write_concat(m: BinaryModel, a: Seq<u8>, b: Seq<u8>)
    ensures
        m.write_bytes_result(a + b) == match m.write_bytes_result(a) {
            (m1, Ok(_)) => m1.write_bytes_result(b),
            (m1, Err(e)) => (m1, Err(e)),
        },
    decreases a.len(),
{
    if a.len() == 0 {
        assert(a + b =~= b);
    } else {
        assert((a + b)[0] == a[0]);
        assert((a + b).drop_first() =~= a.drop_first() + b);
        match m.write_byte_result(a[0]) {
            (next, Ok(_)) => lemma_write_concat(next, a.drop_first(), b),
            _ => {},
        }
    }
}

/// `fcb`: values inside a byte's range are written as their low bytes, in
/// order, exactly as writing those bytes; a value outside the range makes
/// the statement fail.
pub proof fn lemma_fcb_writes_values(m: BinaryModel, new: BinaryModel, res: Result<(), AsmError>, vals: Seq<i64>)
    requires
        bytes_step(m, new, res, vals),
    ensures
        (forall|k: int| 0 <= k < vals.len() ==> -128 <= #[trigger] vals[k] < 256) ==> {
            &&& new == m.write_bytes_result(low_bytes(vals)).0
            &&& res == lift(m.write_bytes_result(low_bytes(vals)).1)
        },
        (exists|k: int| 0 <= k < vals.len() && !(-128 <= #[trigger] vals[k] < 256)) ==> res is Err,
    decreases vals.len(),
{
    if vals.len() > 0 {
        let v = vals[0];
        let rest = vals.drop_first();
        assert(low_bytes(vals).drop_first() =~= low_bytes(rest));
        if -128 <= v < 256 {
            lemma_low_byte(v);
            assert(low_bytes(vals)[0] == v as u8);
            match m.write_byte_result(v as u8) {
                (m1, Ok(_)) => {
                    lemma_fcb_writes_values(m1, new, res, rest);
                    if exists|k: int| 0 <= k < vals.len() && !(-128 <= #[trigger] vals[k] < 256) {
                        let k = choose|k: int| 0 <= k < vals.len() && !(-128 <= #[trigger] vals[k] < 256);
                        assert(rest[k - 1] == vals[k]);
                    }
                    if forall|k: int| 0 <= k < vals.len() ==> -128 <= #[trigger] vals[k] < 256 {
                        assert forall|k: int| 0 <= k < rest.len() implies -128 <= #[trigger] rest[k] < 256 by {
                            assert(rest[k] == vals[k + 1]);
                        }
                    }
                },
                _ => {},
            }
        }
    } else {
        assert(low_bytes(vals) =~= Seq::<u8>::empty());
        let u: () = res->Ok_0;
        assert(res == Ok::<(), AsmError>(u));
    }
}

/// `fdb`: values inside a word's range are written as their words, high
/// byte first, in order, exactly as writing those bytes; a value outside
/// the range makes the statement fail.
pub proof fn lemma_fdb_writes_values(m: BinaryModel, new: BinaryModel, res: Result<(), AsmError>, vals: Seq<i64>)
    requires
        words_step(m, new, res, vals),
    ensures
        (forall|k: int| 0 <= k < vals.len() ==> -32768 <= #[trigger] vals[k] < 65536) ==> {
            &&& new == m.write_bytes_result(word_stream(vals)).0
            &&& res == lift(m.write_bytes_result(word_stream(vals)).1)
        },
        (exists|k: int| 0 <= k < vals.len() && !(-32768 <= #[trigger] vals[k] < 65536)) ==> res is Err,
    decreases vals.len(),
{
    if vals.len() > 0 {
        let v = vals[0];
        let rest = vals.drop_first();
        if -32768 <= v < 65536 {
            lemma_low_word(v);
            let first = seq![((v % 65536) / 256) as u8, (v % 256) as u8];
            lemma_write_concat(m, first, word_stream(rest));
            match m.write_bytes_result(first) {
                (m1, Ok(_)) => {
                    lemma_fdb_writes_values(m1, new, res, rest);
                    if exists|k: int| 0 <= k < vals.len() && !(-32768 <= #[trigger] vals[k] < 65536) {
                        let k = choose|k: int| 0 <= k < vals.len() && !(-32768 <= #[trigger] vals[k] < 65536);
                        assert(rest[k - 1] == vals[k]);
                    }
                    if forall|k: int| 0 <= k < vals.len() ==> -32768 <= #[trigger] vals[k] < 65536 {
                        assert forall|k: int| 0 <= k < rest.len() implies -32768 <= #[trigger] rest[k] < 65536 by {
                            assert(rest[k] == vals[k + 1]);
                        }
                    }
                },
                _ => {},
            }
        }
    } else {
        let u: () = res->Ok_0;
        assert(res == Ok::<(), AsmError>(u));
    }
}

} // verus!
