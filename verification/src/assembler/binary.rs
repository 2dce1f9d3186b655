//! The memory image an assembly is written into.
//!
//! A `Binary` holds the bytes of the target's memory, a logical write
//! address (the PC as the program sees it) and a signed offset that maps
//! logical addresses onto physical positions in the image. Every write goes
//! through `write_byte`, which tracks the lowest and highest physical address
//! touched, refuses writes to read-only images and stops at watched
//! locations.
use vstd::prelude::*;
use vstd::slice::slice_subrange;

verus! {

/// Whether an image accepts writes.
#[derive(Debug, Clone, Copy, PartialEq, Eq, Structural)]
pub enum AccessType {
    ReadWrite,
    ReadOnly,
}

/// A reference binary: `size` bytes of `file`, starting at `start`, that
/// are expected at physical address `dest` of the image.
#[derive(Debug, PartialEq, Eq, Clone)]
pub struct BinRef {
    pub file: String,
    pub start: usize,
    pub size: usize,
    pub dest: usize,
}

impl BinRef {
    /// A reference covering `r` of `file`, expected at `dest`.
    pub fn new(file: String, r: std::ops::Range<usize>, dest: usize) -> (res: BinRef)
        requires
            r.start <= r.end,
        ensures
            res.file@ == file@,
            res.start == r.start,
            res.size == r.end - r.start,
            res.dest == dest,
    {
        BinRef { file, start: r.start, size: r.end - r.start, dest }
    }
}

/// A reference binary held against the image: the physical range it
/// covers and the bytes expected there.
#[derive(Debug, Clone)]
struct BinRefChunk {
    physical_start: usize,
    physical_end: usize,
    ref_data: Vec<u8>,
}

/// A write location: the logical address and where it lands in the image.
#[derive(Debug, Clone, Copy, PartialEq, Eq, Structural)]
pub struct MemoryLocation {
    pub physical: usize,
    pub logical: usize,
}

/// Why a write or a read of the image failed.
#[derive(Debug, Clone, PartialEq, Eq)]
#[allow(inconsistent_fields)]
pub enum BinaryError {
    DoesNotMatchReference { addr: usize, logical_addr: usize, val: usize, expected: usize },
    InvalidWriteAddress(usize),
    DoesNotFit { dest_type: String, val: i64 },
    Halt(MemoryLocation),
    IllegalWrite(MemoryLocation),
    AskedForZeroBytes,
}

/// Whether a write was checked against a reference.
#[derive(Debug, PartialEq, Eq, Clone, Copy, Structural)]
pub enum WriteStatus {
    Checked,
    NoCheck,
}

/// A physical address range that stops assembly when written to.
#[derive(Debug, Clone, Copy)]
pub struct Watch {
    start: usize,
    end: usize,
}

/// The abstract state of a `Binary`.
pub struct BinaryModel {
    pub write_address: usize,
    pub range: Option<(usize, usize)>,
    pub data: Seq<u8>,
    pub write_offset: isize,
    /// Watched physical ranges, `[start, end)`.
    pub watches: Seq<(usize, usize)>,
    pub access_type: AccessType,
    /// Reference chunks: physical `[start, end)` and the expected bytes.
    pub bin_refs: Seq<(usize, usize, Seq<u8>)>,
    pub unchecked_writes: Seq<MemoryLocation>,
}

/// Physical address of a logical address under an offset, as a machine
/// `usize` (negative results wrap, as the cast does).
pub open spec fn phys_of(addr: usize, offset: isize) -> usize {
    (addr + offset) as usize
}

/// A physical/logical address pair can be computed without overflow.
pub open spec fn addr_computable(addr: usize, offset: isize) -> bool {
    &&& addr <= isize::MAX
    &&& isize::MIN <= addr + offset <= isize::MAX
}

} // verus!

verus! {

impl BinaryModel {
    /// The physical position of the current write address.
    pub open spec fn write_phys(self) -> int {
        self.write_address + self.write_offset
    }

    /// The current write location.
    pub open spec fn location(self) -> MemoryLocation {
        MemoryLocation {
            logical: self.write_address,
            physical: phys_of(self.write_address, self.write_offset),
        }
    }

    /// Some watch covers physical address `p`.
    pub open spec fn is_watched(self, p: int) -> bool {
        exists|i: int| 0 <= i < self.watches.len() && (#[trigger] self.watches[i]).0 <= p < self.watches[i].1
    }

    /// The written range after a write to physical address `p`.
    pub open spec fn widened_range(self, p: usize) -> Option<(usize, usize)> {
        match self.range {
            Some((lo, hi)) => Some(
                (if p < lo { p } else { lo }, if p > hi { p } else { hi }),
            ),
            None => Some((p, p)),
        }
    }

    /// A byte write can be attempted: the location is computable, and a
    /// writable image has the location inside its data.
    pub open spec fn can_write_byte(self) -> bool {
        &&& addr_computable(self.write_address, self.write_offset)
        &&& (self.access_type == AccessType::ReadOnly || (0 <= self.write_phys() < self.data.len()
            && self.write_address < usize::MAX))
    }

    /// State and result of writing one byte.
    pub open spec fn write_byte_result(self, val: u8) -> (BinaryModel, Result<WriteStatus, BinaryError>) {
        let loc = self.location();
        if self.access_type == AccessType::ReadOnly {
            (self, Err(BinaryError::IllegalWrite(loc)))
        } else {
            let widened = BinaryModel { range: self.widened_range(loc.physical), ..self };
            if self.is_watched(loc.physical as int) {
                (widened, Err(BinaryError::Halt(loc)))
            } else {
                (
                    BinaryModel {
                        data: self.data.update(loc.physical as int, val),
                        write_address: (self.write_address + 1) as usize,
                        ..widened
                    },
                    Ok(WriteStatus::Checked),
                )
            }
        }
    }

    /// Every byte of `bytes` that a sequential write reaches can be attempted.
    pub open spec fn can_write_bytes(self, bytes: Seq<u8>) -> bool
        decreases bytes.len(),
    {
        bytes.len() == 0 || (self.can_write_byte() && match self.write_byte_result(bytes[0]) {
            (next, Ok(_)) => next.can_write_bytes(bytes.drop_first()),
            (_, Err(_)) => true,
        })
    }

    /// State and result of writing `bytes` in order, stopping at the first
    /// error.
    pub open spec fn write_bytes_result(self, bytes: Seq<u8>) -> (BinaryModel, Result<WriteStatus, BinaryError>)
        decreases bytes.len(),
    {
        if bytes.len() == 0 {
            (self, Ok(WriteStatus::Checked))
        } else {
            match self.write_byte_result(bytes[0]) {
                (next, Ok(_)) => next.write_bytes_result(bytes.drop_first()),
                (next, Err(e)) => (next, Err(e)),
            }
        }
    }

    /// Every reference chunk holds at least as many bytes as its range.
    pub open spec fn refs_ok(self) -> bool {
        forall|i: int|
            0 <= i < self.bin_refs.len() ==> {
                let c = #[trigger] self.bin_refs[i];
                c.0 <= c.1 && c.1 - c.0 <= c.2.len()
            }
    }
}

/// The big-endian bytes of a word.
pub open spec fn word_bytes(val: u16) -> Seq<u8> {
    seq![(val / 256) as u8, (val % 256) as u8]
}

/// The byte expected at physical address `addr`: from the first reference
/// chunk that covers it.
pub open spec fn expected_at(refs: Seq<(usize, usize, Seq<u8>)>, addr: int) -> Option<u8>
    decreases refs.len(),
{
    if refs.len() == 0 {
        None
    } else if refs[0].0 <= addr < refs[0].1 {
        Some(refs[0].2[addr - refs[0].0])
    } else {
        expected_at(refs.drop_first(), addr)
    }
}

/// Physical addresses below `n` whose byte differs from the reference.
pub open spec fn mismatches_below(m: BinaryModel, n: nat) -> Seq<usize>
    decreases n,
{
    if n == 0 {
        Seq::empty()
    } else {
        let prev = mismatches_below(m, (n - 1) as nat);
        match expected_at(m.bin_refs, n - 1) {
            Some(b) => if m.data[n - 1] != b {
                prev.push((n - 1) as usize)
            } else {
                prev
            },
            None => prev,
        }
    }
}

/// The running state while grouping mismatched addresses into runs.
pub struct RunState {
    pub last: int,
    pub run: (usize, usize),
    pub runs: Seq<(usize, usize)>,
}

/// Group addresses into `(start, length)` runs of consecutive addresses.
/// The scan starts with an empty run at address 0 that is flushed when the
/// first address does not follow 0.
pub open spec fn runs_state(addrs: Seq<usize>) -> RunState
    decreases addrs.len(),
{
    if addrs.len() == 0 {
        RunState { last: 0, run: (0, 0), runs: Seq::empty() }
    } else {
        let st = runs_state(addrs.drop_last());
        let a = addrs.last();
        if a != st.last + 1 {
            RunState { last: a as int, run: (a, 1), runs: st.runs.push(st.run) }
        } else {
            RunState { last: a as int, run: (st.run.0, (st.run.1 + 1) as usize), runs: st.runs }
        }
    }
}

/// The runs reported for a sequence of mismatched addresses.
pub open spec fn runs_of(addrs: Seq<usize>) -> Seq<(usize, usize)> {
    let st = runs_state(addrs);
    if st.run.1 != 0 {
        st.runs.push(st.run)
    } else {
        st.runs
    }
}

/// Where `x` is inserted into `s`: after the last element whose logical
/// address is not greater than its own.
pub open spec fn insert_pos(s: Seq<MemoryLocation>, x: MemoryLocation) -> int
    decreases s.len(),
{
    if s.len() == 0 {
        0
    } else if s.last().logical > x.logical {
        insert_pos(s.drop_last(), x)
    } else {
        s.len() as int
    }
}

/// Insert `x` into `s` at `insert_pos`.
pub open spec fn insert_by_logical(s: Seq<MemoryLocation>, x: MemoryLocation) -> Seq<MemoryLocation> {
    s.insert(insert_pos(s, x), x)
}

/// `s` stably sorted by logical address (insertion order kept for ties).
pub open spec fn sorted_by_logical(s: Seq<MemoryLocation>) -> Seq<MemoryLocation>
    decreases s.len(),
{
    if s.len() == 0 {
        s
    } else {
        insert_by_logical(sorted_by_logical(s.drop_last()), s.last())
    }
}

} // verus!

verus! {

/// A memory image being assembled into.
#[derive(Debug, Clone)]
pub struct Binary {
    write_address: usize,
    range: Option<(usize, usize)>,
    data: Vec<u8>,
    write_offset: isize,
    watches: Vec<Watch>,
    access_type: AccessType,
    bin_refs: Vec<BinRefChunk>,
    unchecked_writes: Vec<MemoryLocation>,
}

impl View for Binary {
    type V = BinaryModel;

    closed spec fn view(&self) -> BinaryModel {
        BinaryModel {
            write_address: self.write_address,
            range: self.range,
            data: self.data@,
            write_offset: self.write_offset,
            watches: self.watches@.map_values(|w: Watch| (w.start, w.end)),
            access_type: self.access_type,
            bin_refs: self.bin_refs@.map_values(
                |c: BinRefChunk| (c.physical_start, c.physical_end, c.ref_data@),
            ),
            unchecked_writes: self.unchecked_writes@,
        }
    }
}

impl Default for Binary {
    /// A 64K read/write image.
    fn default() -> (res: Binary)
        ensures
            res@.data == Seq::new(0x10000, |i: int| 0u8),
            res@.write_address == 0,
            res@.write_offset == 0,
            res@.range is None,
            res@.watches.len() == 0,
            res@.access_type == AccessType::ReadWrite,
            res@.bin_refs.len() == 0,
            res@.unchecked_writes.len() == 0,
    {
        Self::new(0x10000, AccessType::ReadWrite)
    }
}

impl Binary {
    /// A zero-filled image of `size` bytes.
    pub fn new(size: usize, access_type: AccessType) -> (res: Binary)
        requires
            size <= isize::MAX,
        ensures
            res@.data == Seq::new(size as nat, |i: int| 0u8),
            res@.write_address == 0,
            res@.write_offset == 0,
            res@.range is None,
            res@.watches.len() == 0,
            res@.access_type == access_type,
            res@.bin_refs.len() == 0,
            res@.unchecked_writes.len() == 0,
    {
        let data = vec![0u8; size];
        let res = Binary {
            write_address: 0,
            range: None,
            data,
            write_offset: 0,
            watches: Vec::new(),
            access_type,
            bin_refs: Vec::new(),
            unchecked_writes: Vec::new(),
        };
        assert(res@.data =~= Seq::new(size as nat, |i: int| 0u8));
        assert(res@.watches =~= Seq::empty());
        assert(res@.bin_refs =~= Seq::empty());
        res
    }

    /// The bytes of the image.
    pub fn data(&self) -> (res: &Vec<u8>)
        ensures
            res@ == self@.data,
    {
        &self.data
    }

    /// Logical address of the next write.
    pub fn get_write_address(&self) -> (res: usize)
        ensures
            res == self@.write_address,
    {
        self.write_address
    }

    /// The offset from logical to physical addresses.
    pub fn get_write_offset(&self) -> (res: isize)
        ensures
            res == self@.write_offset,
    {
        self.write_offset
    }

    /// Lowest and highest physical address written so far.
    pub fn get_range(&self) -> (res: Option<(usize, usize)>)
        ensures
            res == self@.range,
    {
        self.range
    }

    /// Physical position of logical address `addr`.
    pub fn logical_to_physical(&self, addr: usize) -> (res: usize)
        requires
            addr_computable(addr, self@.write_offset),
        ensures
            res == phys_of(addr, self@.write_offset),
    {
        (addr as isize + self.write_offset) as usize
    }

    /// Physical position of the write address.
    pub fn get_write_address_with_offset(&self) -> (res: usize)
        requires
            addr_computable(self@.write_address, self@.write_offset),
        ensures
            res == phys_of(self@.write_address, self@.write_offset),
    {
        self.logical_to_physical(self.write_address)
    }

    /// The current write location, logical and physical.
    pub fn get_write_location(&self) -> (res: MemoryLocation)
        requires
            addr_computable(self@.write_address, self@.write_offset),
        ensures
            res == self@.location(),
    {
        MemoryLocation {
            logical: self.get_write_address(),
            physical: self.get_write_address_with_offset(),
        }
    }

    /// The logical range from `pc` to the write address and the physical
    /// range it maps to: `(logical, physical)`.
    pub fn range_to_write_address(&self, pc: usize) -> (res: (
        std::ops::Range<usize>,
        std::ops::Range<usize>,
    ))
        requires
            addr_computable(pc, self@.write_offset),
            addr_computable(self@.write_address, self@.write_offset),
        ensures
            res.0.start == pc,
            res.0.end == self@.write_address,
            res.1.start == phys_of(pc, self@.write_offset),
            res.1.end == phys_of(self@.write_address, self@.write_offset),
    {
        let start = pc;
        let end = self.get_write_address();
        let phys_start = self.logical_to_physical(start);
        let phys_end = self.logical_to_physical(end);
        (start..end, phys_start..phys_end)
    }

    /// Stop assembly when anything is written into `range` (physical).
    pub fn add_watch(&mut self, range: std::ops::Range<usize>)
        ensures
            final(self)@ == (BinaryModel {
                watches: old(self)@.watches.push((range.start, range.end)),
                ..old(self)@
            }),
    {
        self.watches.push(Watch { start: range.start, end: range.end });
        assert(self@.watches =~= old(self)@.watches.push((range.start, range.end)));
        assert(self@.bin_refs =~= old(self)@.bin_refs);
    }

    /// Hold the image against `m`, the reference bytes of `bin_ref`.
    pub fn bin_reference(&mut self, bin_ref: &BinRef, m: &[u8])
        requires
            bin_ref.dest + bin_ref.size <= usize::MAX,
        ensures
            final(self)@ == (BinaryModel {
                bin_refs: old(self)@.bin_refs.push(
                    (bin_ref.dest, (bin_ref.dest + bin_ref.size) as usize, m@),
                ),
                ..old(self)@
            }),
    {
        let chunk = BinRefChunk {
            physical_start: bin_ref.dest,
            physical_end: bin_ref.dest + bin_ref.size,
            ref_data: vstd::slice::slice_to_vec(m),
        };
        self.bin_refs.push(chunk);
        assert(self@.bin_refs =~= old(self)@.bin_refs.push(
            (bin_ref.dest, (bin_ref.dest + bin_ref.size) as usize, m@),
        ));
        assert(self@.watches =~= old(self)@.watches);
    }

    /// Advance the write address by `n` without writing.
    pub fn bump_write_address(&mut self, n: usize)
        requires
            old(self)@.write_address + n <= usize::MAX,
        ensures
            final(self)@ == (BinaryModel {
                write_address: (old(self)@.write_address + n) as usize,
                ..old(self)@
            }),
    {
        self.write_address = self.write_address + n;
    }

    /// Skip `skip` bytes without writing.
    pub fn skip(&mut self, skip: usize)
        requires
            old(self)@.write_address + skip <= usize::MAX,
        ensures
            final(self)@ == (BinaryModel {
                write_address: (old(self)@.write_address + skip) as usize,
                ..old(self)@
            }),
    {
        self.write_address = self.write_address + skip;
    }

    /// Move the write address to `pc` and set the physical offset.
    pub fn set_write_address(&mut self, pc: usize, offset: isize)
        ensures
            final(self)@ == (BinaryModel { write_address: pc, write_offset: offset, ..old(self)@ }),
    {
        self.write_address = pc;
        self.set_write_offset(offset)
    }

    /// Set the offset from logical to physical addresses.
    pub fn set_write_offset(&mut self, offset: isize)
        ensures
            final(self)@ == (BinaryModel { write_offset: offset, ..old(self)@ }),
    {
        self.write_offset = offset
    }
}

} // verus!

verus! {

impl Binary {
    /// Some watch covers physical address `physical`.
    fn is_watched(&self, physical: usize) -> (res: bool)
        ensures
            res == self@.is_watched(physical as int),
    {
        let mut i: usize = 0;
        while i < self.watches.len()
            invariant
                0 <= i <= self.watches.len(),
                forall|k: int|
                    0 <= k < i ==> !((#[trigger] self.watches@[k]).start <= physical < self.watches@[k].end),
            decreases self.watches.len() - i,
        {
            let w = self.watches[i];
            if w.start <= physical && physical < w.end {
                proof {
                    let ws = self@.watches;
                    assert(ws[i as int] == (w.start, w.end));
                }
                return true;
            }
            i = i + 1;
        }
        proof {
            let ws = self@.watches;
            assert forall|k: int| 0 <= k < ws.len() implies !((#[trigger] ws[k]).0 <= physical && physical < ws[k].1) by {
                assert(ws[k] == (self.watches@[k].start, self.watches@[k].end));
            }
        }
        false
    }

    /// Write one byte at the write address and advance it.
    ///
    /// A read-only image refuses the write; a write into a watched range
    /// stops with `Halt` (the written range is still widened).
    pub fn write_byte(&mut self, val: u8) -> (res: Result<WriteStatus, BinaryError>)
        requires
            old(self)@.can_write_byte(),
        ensures
            (final(self)@, res) == old(self)@.write_byte_result(val),
    {
        let loc = self.get_write_location();
        let physical = loc.physical;

        if self.access_type == AccessType::ReadOnly {
            return Err(BinaryError::IllegalWrite(loc));
        }
        let watched = self.is_watched(physical);
        if let Some((mut low, mut high)) = self.range {
            if physical < low {
                low = physical
            }
            if physical > high {
                high = physical
            }
            self.range = Some((low, high))
        } else {
            self.range = Some((physical, physical))
        }

        if watched {
            return Err(BinaryError::Halt(loc));
        }
        self.data.set(physical, val);
        self.write_address = self.write_address + 1;
        Ok(WriteStatus::Checked)
    }

    /// Write `bytes` in order, stopping at the first error.
    pub fn write_bytes(&mut self, bytes: &[u8]) -> (res: Result<WriteStatus, BinaryError>)
        requires
            old(self)@.can_write_bytes(bytes@),
        ensures
            (final(self)@, res) == old(self)@.write_bytes_result(bytes@),
    {
        let mut did_check = WriteStatus::Checked;
        let mut i: usize = 0;
        assert(bytes@.skip(0) =~= bytes@);
        while i < bytes.len()
            invariant
                0 <= i <= bytes@.len(),
                self@.can_write_bytes(bytes@.skip(i as int)),
                old(self)@.write_bytes_result(bytes@) == self@.write_bytes_result(bytes@.skip(i as int)),
                did_check == WriteStatus::Checked,
            decreases bytes@.len() - i,
        {
            let ghost rest = bytes@.skip(i as int);
            assert(rest[0] == bytes@[i as int]);
            assert(rest.drop_first() =~= bytes@.skip(i + 1));
            let ch = self.write_byte(bytes[i])?;
            if ch == WriteStatus::NoCheck {
                did_check = ch
            }
            i = i + 1;
        }
        assert(bytes@.skip(i as int) =~= Seq::<u8>::empty());
        Ok(did_check)
    }

    /// Write `count` copies of `byte`, stopping at the first error.
    pub fn fill(&mut self, count: usize, byte: u8) -> (res: Result<(), BinaryError>)
        requires
            old(self)@.can_write_bytes(Seq::new(count as nat, |i: int| byte)),
        ensures
            ({
                let (m, r) = old(self)@.write_bytes_result(Seq::new(count as nat, |i: int| byte));
                &&& final(self)@ == m
                &&& match r {
                    Ok(_) => res is Ok,
                    Err(e) => res == Err::<(), BinaryError>(e),
                }
            }),
    {
        let ghost all = Seq::new(count as nat, |i: int| byte);
        let mut i: usize = 0;
        assert(all.skip(0) =~= all);
        while i < count
            invariant
                0 <= i <= count,
                all == Seq::new(count as nat, |i: int| byte),
                self@.can_write_bytes(all.skip(i as int)),
                old(self)@.write_bytes_result(all) == self@.write_bytes_result(all.skip(i as int)),
            decreases count - i,
        {
            let ghost rest = all.skip(i as int);
            assert(rest[0] == byte);
            assert(rest.drop_first() =~= all.skip(i + 1));
            self.write_byte(byte)?;
            i = i + 1;
        }
        assert(all.skip(i as int) =~= Seq::<u8>::empty());
        Ok(())
    }

    /// Write a word, high byte first.
    pub fn write_word(&mut self, val: u16) -> (res: Result<WriteStatus, BinaryError>)
        requires
            old(self)@.can_write_bytes(word_bytes(val)),
        ensures
            (final(self)@, res) == old(self)@.write_bytes_result(word_bytes(val)),
    {
        let hi = val >> 8;
        let lo = val & 0xff;
        assert(val >> 8 == val / 256) by (bit_vector);
        assert(val & 0xff == val % 256) by (bit_vector);
        let ghost bs = word_bytes(val);
        reveal_with_fuel(BinaryModel::can_write_bytes, 3);
        reveal_with_fuel(BinaryModel::write_bytes_result, 3);
        assert(bs.drop_first() =~= seq![lo as u8]);
        assert(bs.drop_first().drop_first() =~= Seq::<u8>::empty());
        self.write_byte(hi as u8)?;
        self.write_byte(lo as u8)
    }
}

} // verus!

verus! {

/// `res` is the error for `val` not fitting a `dest`-typed field.
pub open spec fn is_does_not_fit(res: Result<WriteStatus, BinaryError>, dest: Seq<char>, val: i64) -> bool {
    res matches Err(BinaryError::DoesNotFit { dest_type, val: v }) && dest_type@ == dest && v == val
}

/// Result of a range-checked byte write: the write when `lo <= val < hi`,
/// otherwise `DoesNotFit` with the image unchanged.
pub open spec fn checked_byte_write(
    old_bin: BinaryModel,
    new_bin: BinaryModel,
    res: Result<WriteStatus, BinaryError>,
    val: i64,
    lo: int,
    hi: int,
    dest: Seq<char>,
) -> bool {
    if lo <= val < hi {
        (new_bin, res) == old_bin.write_byte_result(val as u8)
    } else {
        new_bin == old_bin && is_does_not_fit(res, dest, val)
    }
}

/// Result of a range-checked word write, as for bytes.
pub open spec fn checked_word_write(
    old_bin: BinaryModel,
    new_bin: BinaryModel,
    res: Result<WriteStatus, BinaryError>,
    val: i64,
    lo: int,
    hi: int,
    dest: Seq<char>,
) -> bool {
    if lo <= val < hi {
        (new_bin, res) == old_bin.write_bytes_result(word_bytes(val as u16))
    } else {
        new_bin == old_bin && is_does_not_fit(res, dest, val)
    }
}

/// A byte write of a value that fits an `i8`.
pub open spec fn signed_byte_write(o: BinaryModel, n: BinaryModel, res: Result<WriteStatus, BinaryError>, val: i64) -> bool {
    checked_byte_write(o, n, res, val, -128, 128, "i8"@)
}

/// A byte write of a value that fits an `i8` or a `u8`.
pub open spec fn any_byte_write(o: BinaryModel, n: BinaryModel, res: Result<WriteStatus, BinaryError>, val: i64) -> bool {
    checked_byte_write(o, n, res, val, -128, 256, "i8 or u8"@)
}

/// A byte write of a value that fits a `u8`.
pub open spec fn unsigned_byte_write(o: BinaryModel, n: BinaryModel, res: Result<WriteStatus, BinaryError>, val: i64) -> bool {
    checked_byte_write(o, n, res, val, 0, 256, "u8"@)
}

/// A word write of a value that fits an `i16`.
pub open spec fn signed_word_write(o: BinaryModel, n: BinaryModel, res: Result<WriteStatus, BinaryError>, val: i64) -> bool {
    checked_word_write(o, n, res, val, -32768, 32768, "i16"@)
}

/// A word write of a value that fits an `i16` or a `u16`.
pub open spec fn any_word_write(o: BinaryModel, n: BinaryModel, res: Result<WriteStatus, BinaryError>, val: i64) -> bool {
    checked_word_write(o, n, res, val, -32768, 65536, "i16 or u16"@)
}

/// A word write of a value that fits a `u16`.
pub open spec fn unsigned_word_write(o: BinaryModel, n: BinaryModel, res: Result<WriteStatus, BinaryError>, val: i64) -> bool {
    checked_word_write(o, n, res, val, 0, 65536, "u16"@)
}

impl Binary {
    fn write_byte_check(&mut self, val: i64, lo: i64, hi: i64, dest_type: &str) -> (res: Result<
        WriteStatus,
        BinaryError,
    >)
        requires
            lo <= val < hi ==> old(self)@.can_write_byte(),
        ensures
            checked_byte_write(old(self)@, final(self)@, res, val, lo as int, hi as int, dest_type@),
    {
        if lo <= val && val < hi {
            self.write_byte(val as u8)
        } else {
            Err(BinaryError::DoesNotFit { dest_type: dest_type.to_owned(), val })
        }
    }

    fn write_word_check(&mut self, val: i64, lo: i64, hi: i64, dest_type: &str) -> (res: Result<
        WriteStatus,
        BinaryError,
    >)
        requires
            lo <= val < hi ==> old(self)@.can_write_bytes(word_bytes(val as u16)),
        ensures
            checked_word_write(old(self)@, final(self)@, res, val, lo as int, hi as int, dest_type@),
    {
        if lo <= val && val < hi {
            self.write_word(val as u16)
        } else {
            Err(BinaryError::DoesNotFit { dest_type: dest_type.to_owned(), val })
        }
    }

    /// Write a signed byte (-128..128).
    pub fn write_ibyte_check_size(&mut self, val: i64) -> (res: Result<WriteStatus, BinaryError>)
        requires
            -128 <= val < 128 ==> old(self)@.can_write_byte(),
        ensures
            signed_byte_write(old(self)@, final(self)@, res, val),
    {
        let x: i64 = 1 << 7;
        assert(x == 128) by (bit_vector)
            requires
                x == 1i64 << 7,
        ;
        self.write_byte_check(val, -x, x, "i8")
    }

    /// Write a signed or unsigned byte (-128..256).
    pub fn write_byte_check_size(&mut self, val: i64) -> (res: Result<WriteStatus, BinaryError>)
        requires
            -128 <= val < 256 ==> old(self)@.can_write_byte(),
        ensures
            any_byte_write(old(self)@, final(self)@, res, val),
    {
        self.write_byte_check(val, -128, 256, "i8 or u8")
    }

    /// Write an unsigned byte (0..256).
    pub fn write_ubyte_check_size(&mut self, val: i64) -> (res: Result<WriteStatus, BinaryError>)
        requires
            0 <= val < 256 ==> old(self)@.can_write_byte(),
        ensures
            unsigned_byte_write(old(self)@, final(self)@, res, val),
    {
        self.write_byte_check(val, 0, 256, "u8")
    }

    /// Write a signed word (-32768..32768).
    pub fn write_iword_check_size(&mut self, val: i64) -> (res: Result<WriteStatus, BinaryError>)
        requires
            -32768 <= val < 32768 ==> old(self)@.can_write_bytes(word_bytes(val as u16)),
        ensures
            signed_word_write(old(self)@, final(self)@, res, val),
    {
        self.write_word_check(val, -32768, 32768, "i16")
    }

    /// Write a signed or unsigned word (-32768..65536).
    pub fn write_word_check_size(&mut self, val: i64) -> (res: Result<WriteStatus, BinaryError>)
        requires
            -32768 <= val < 65536 ==> old(self)@.can_write_bytes(word_bytes(val as u16)),
        ensures
            any_word_write(old(self)@, final(self)@, res, val),
    {
        self.write_word_check(val, -32768, 65536, "i16 or u16")
    }

    /// Write an unsigned word (0..65536).
    pub fn write_uword_check_size(&mut self, val: i64) -> (res: Result<WriteStatus, BinaryError>)
        requires
            0 <= val < 65536 ==> old(self)@.can_write_bytes(word_bytes(val as u16)),
        ensures
            unsigned_word_write(old(self)@, final(self)@, res, val),
    {
        self.write_word_check(val, 0, 65536, "u16")
    }

    /// `count` bytes of the image from `physical_address`.
    pub fn get_bytes(&self, physical_address: usize, count: usize) -> (res: Result<&[u8], BinaryError>)
        requires
            count == 0 || physical_address + count <= self@.data.len(),
        ensures
            count == 0 ==> res == Err::<&[u8], BinaryError>(BinaryError::AskedForZeroBytes),
            count != 0 ==> (res matches Ok(b) && b@ == self@.data.subrange(
                physical_address as int,
                physical_address + count,
            )),
    {
        if count == 0 {
            return Err(BinaryError::AskedForZeroBytes);
        }
        let len = self.data.len();
        assert(physical_address + count <= len);
        Ok(slice_subrange(self.data.as_slice(), physical_address, physical_address + count))
    }

    /// The bytes of the image in the physical range `r`, which must not be
    /// empty.
    pub fn get_bytes_range(&self, r: std::ops::Range<usize>) -> (res: &[u8])
        requires
            r.start < r.end <= self@.data.len(),
        ensures
            res@ == self@.data.subrange(r.start as int, r.end as int),
    {
        slice_subrange(self.data.as_slice(), r.start, r.end)
    }
}

} // verus!

verus! {

impl Binary {
    /// The reference byte expected at physical address `addr`, if any.
    fn get_expected(&self, addr: usize) -> (res: Option<u8>)
        requires
            self@.refs_ok(),
        ensures
            res == expected_at(self@.bin_refs, addr as int),
    {
        let ghost refs = self@.bin_refs;
        let mut i: usize = 0;
        assert(refs.skip(0) =~= refs);
        while i < self.bin_refs.len()
            invariant
                0 <= i <= self.bin_refs.len(),
                refs == self@.bin_refs,
                refs.len() == self.bin_refs.len(),
                self@.refs_ok(),
                expected_at(refs, addr as int) == expected_at(refs.skip(i as int), addr as int),
            decreases self.bin_refs.len() - i,
        {
            let c = &self.bin_refs[i];
            let ghost rest = refs.skip(i as int);
            assert(rest[0] == refs[i as int]);
            assert(refs[i as int] == (c.physical_start, c.physical_end, c.ref_data@));
            if c.physical_start <= addr && addr < c.physical_end {
                return Some(c.ref_data[addr - c.physical_start]);
            }
            assert(rest.drop_first() =~= refs.skip(i + 1));
            i = i + 1;
        }
        None
    }

    /// Physical addresses whose byte differs from the reference binaries,
    /// grouped into `(start, length)` runs of consecutive addresses.
    pub fn check_against_referece(&self) -> (res: Vec<(usize, usize)>)
        requires
            self@.refs_ok(),
            self@.data.len() <= isize::MAX,
        ensures
            res@ == runs_of(mismatches_below(self@, self@.data.len())),
    {
        let mut last: isize = 0;
        let mut runs: Vec<(usize, usize)> = Vec::new();
        let mut run: (usize, usize) = (0, 0);
        let mut addr: usize = 0;
        let n = self.data.len();
        while addr < n
            invariant
                n == self@.data.len(),
                n <= isize::MAX,
                0 <= addr <= n,
                self@.refs_ok(),
                ({
                    let mism = mismatches_below(self@, addr as nat);
                    let st = runs_state(mism);
                    &&& st.last == last as int
                    &&& st.run == run
                    &&& st.runs == runs@
                    &&& mism.len() <= addr
                    &&& run.1 <= mism.len()
                    &&& 0 <= last <= addr
                }),
            decreases n - addr,
        {
            let ghost prev = mismatches_below(self@, addr as nat);
            if let Some(b) = self.get_expected(addr) {
                let a = self.data[addr];
                if a != b {
                    let ghost now = mismatches_below(self@, (addr + 1) as nat);
                    assert(now == prev.push(addr));
                    assert(now.drop_last() =~= prev);
                    if addr as isize != last + 1 {
                        runs.push(run);
                        run = (addr, 1)
                    } else {
                        run.1 = run.1 + 1;
                    }
                    last = addr as isize;
                }
            }
            addr = addr + 1;
        }
        if run.1 != 0 {
            runs.push(run)
        }
        runs
    }

    /// Writes that were not checked against a reference, stably sorted by
    /// logical address.
    pub fn get_unchecked_writes(&self) -> (res: Vec<MemoryLocation>)
        ensures
            res@ == sorted_by_logical(self@.unchecked_writes),
    {
        let src = &self.unchecked_writes;
        let mut out: Vec<MemoryLocation> = Vec::new();
        let mut i: usize = 0;
        while i < src.len()
            invariant
                0 <= i <= src.len(),
                out@ == sorted_by_logical(src@.take(i as int)),
                out@.len() == i,
            decreases src.len() - i,
        {
            let x = src[i];
            let mut j: usize = out.len();
            assert(out@.take(j as int) =~= out@);
            while j > 0 && out[j - 1].logical > x.logical
                invariant
                    0 <= j <= out@.len(),
                    insert_pos(out@, x) == insert_pos(out@.take(j as int), x),
                decreases j,
            {
                assert(out@.take(j as int).drop_last() =~= out@.take(j - 1));
                j = j - 1;
            }
            assert(insert_pos(out@.take(j as int), x) == j);
            out.insert(j, x);
            assert(src@.take(i + 1).drop_last() =~= src@.take(i as int));
            i = i + 1;
        }
        assert(src@.take(i as int) =~= src@);
        out
    }
}

} // verus!

verus! {

/// No watch covers a physical address in `[start, end)`.
pub open spec fn unwatched(m: BinaryModel, start: int, end: int) -> bool {
    forall|p: int| start <= p < end ==> !m.is_watched(p)
}

/// Writing bytes into a writable image whose target span is inside the
/// image and unwatched succeeds, leaves exactly those bytes at the physical
/// write position, advances the write address by their number and keeps
/// every other byte, the offset, the watches and the references.
pub proof fn lemma_write_then_read(m: BinaryModel, bytes: Seq<u8>)
    requires
        m.access_type == AccessType::ReadWrite,
        m.write_address + bytes.len() <= isize::MAX,
        isize::MIN <= m.write_phys(),
        0 <= m.write_phys(),
        m.write_phys() + bytes.len() <= m.data.len(),
        m.write_phys() + bytes.len() <= isize::MAX,
        unwatched(m, m.write_phys(), m.write_phys() + bytes.len()),
    ensures
        m.can_write_bytes(bytes),
        ({
            let (m2, r) = m.write_bytes_result(bytes);
            let p = m.write_phys();
            &&& r == Ok::<WriteStatus, BinaryError>(WriteStatus::Checked)
            &&& m2.data.subrange(p, p + bytes.len()) == bytes
            &&& m2.data.len() == m.data.len()
            &&& forall|q: int|
                0 <= q < m.data.len() && !(p <= q < p + bytes.len()) ==> m2.data[q] == m.data[q]
            &&& m2.write_address == m.write_address + bytes.len()
            &&& m2.write_offset == m.write_offset
            &&& m2.watches == m.watches
            &&& m2.access_type == m.access_type
            &&& m2.bin_refs == m.bin_refs
        }),
    decreases bytes.len(),
{
    if bytes.len() > 0 {
        let p = m.write_phys();
        let (next, r1) = m.write_byte_result(bytes[0]);
        assert(!m.is_watched(p));
        assert(phys_of(m.write_address, m.write_offset) == p);
        assert(r1 is Ok);
        let rest = bytes.drop_first();
        assert(next.write_phys() == p + 1);
        assert forall|q: int| p + 1 <= q < p + 1 + rest.len() implies !next.is_watched(q) by {
            assert(!m.is_watched(q));
        }
        lemma_write_then_read(next, rest);
        let (m2, r) = next.write_bytes_result(rest);
        assert(m.write_bytes_result(bytes) == (m2, r));
        assert(m2.data.subrange(p, p + bytes.len()) =~= bytes) by {
            assert forall|k: int| 0 <= k < bytes.len() implies m2.data.subrange(p, p + bytes.len())[k]
                == bytes[k] by {
                if k == 0 {
                    assert(!(p + 1 <= p && p < p + 1 + rest.len()));
                } else {
                    assert(m2.data.subrange(p + 1, p + 1 + rest.len())[k - 1] == rest[k - 1]);
                }
            }
        }
    }
}

/// A read-only image refuses every write and stays unchanged.
pub proof fn lemma_read_only_unchanged(m: BinaryModel, bytes: Seq<u8>)
    requires
        m.access_type == AccessType::ReadOnly,
        bytes.len() > 0,
    ensures
        m.write_bytes_result(bytes) == (m, Err::<WriteStatus, BinaryError>(
            BinaryError::IllegalWrite(m.location()),
        )),
{
}

} // verus!

verus! {

/// A successful sequence of writes advances the write address by the
/// number of bytes and keeps the image's size.
pub proof fn lemma_write_bytes_advances(m: BinaryModel, bytes: Seq<u8>)
    requires
        m.can_write_bytes(bytes),
        m.write_bytes_result(bytes).1 is Ok,
    ensures
        m.write_bytes_result(bytes).0.write_address == m.write_address + bytes.len(),
        m.write_bytes_result(bytes).0.data.len() == m.data.len(),
        m.write_bytes_result(bytes).0.write_offset == m.write_offset,
    decreases bytes.len(),
{
    if bytes.len() > 0 {
        let (next, r) = m.write_byte_result(bytes[0]);
        lemma_write_bytes_advances(next, bytes.drop_first());
    }
}

/// `s` is in ascending order of logical address.
pub open spec fn sorted_logical(s: Seq<MemoryLocation>) -> bool {
    forall|i: int, j: int| 0 <= i < j < s.len() ==> #[trigger] s[i].logical <= #[trigger] s[j].logical
}

/// In a sorted sequence, `x` goes after every location not above it and
/// before every location above it.
proof fn lemma_insert_pos(s: Seq<MemoryLocation>, x: MemoryLocation)
    requires
        sorted_logical(s),
    ensures
        0 <= insert_pos(s, x) <= s.len(),
        forall|j: int| 0 <= j < insert_pos(s, x) ==> #[trigger] s[j].logical <= x.logical,
        forall|j: int| insert_pos(s, x) <= j < s.len() ==> #[trigger] s[j].logical > x.logical,
    decreases s.len(),
{
    if s.len() > 0 && s.last().logical > x.logical {
        let rest = s.drop_last();
        assert forall|i: int, j: int| 0 <= i < j < rest.len() implies #[trigger] rest[i].logical
            <= #[trigger] rest[j].logical by {
            assert(rest[i] == s[i] && rest[j] == s[j]);
        }
        lemma_insert_pos(rest, x);
        assert forall|j: int| 0 <= j < insert_pos(s, x) implies #[trigger] s[j].logical
            <= x.logical by {
            assert(rest[j] == s[j]);
        }
        assert forall|j: int| insert_pos(s, x) <= j < s.len() implies #[trigger] s[j].logical
            > x.logical by {
            if j < s.len() - 1 {
                assert(rest[j] == s[j]);
            }
        }
    } else if s.len() > 0 {
        assert forall|j: int| 0 <= j < s.len() implies #[trigger] s[j].logical <= x.logical by {
            if j < s.len() - 1 {
                assert(s[j].logical <= s[s.len() - 1].logical);
            }
        }
    }
}

/// Inserting by logical address keeps a sorted sequence sorted.
proof fn lemma_insert_sorted(s: Seq<MemoryLocation>, x: MemoryLocation)
    requires
        sorted_logical(s),
    ensures
        sorted_logical(insert_by_logical(s, x)),
        insert_by_logical(s, x).to_multiset() == s.to_multiset().insert(x),
{
    lemma_insert_pos(s, x);
    let p = insert_pos(s, x);
    let r = s.insert(p, x);
    assert forall|i: int, j: int| 0 <= i < j < r.len() implies #[trigger] r[i].logical
        <= #[trigger] r[j].logical by {
        if i < p && j < p {
            assert(r[i] == s[i] && r[j] == s[j]);
        } else if i < p && j == p {
            assert(r[i] == s[i]);
        } else if i < p {
            assert(r[i] == s[i] && r[j] == s[j - 1]);
        } else if i == p {
            assert(r[j] == s[j - 1]);
        } else {
            assert(r[i] == s[i - 1] && r[j] == s[j - 1]);
        }
    }
    vstd::seq_lib::to_multiset_insert(s, p, x);
}

/// The writes that were not checked come out in ascending order of logical
/// address, each of them exactly as often as it was made.
pub proof fn lemma_unchecked_writes_sorted(s: Seq<MemoryLocation>)
    ensures
        sorted_logical(sorted_by_logical(s)),
        sorted_by_logical(s).to_multiset() == s.to_multiset(),
    decreases s.len(),
{
    if s.len() > 0 {
        lemma_unchecked_writes_sorted(s.drop_last());
        lemma_insert_sorted(sorted_by_logical(s.drop_last()), s.last());
        vstd::seq_lib::to_multiset_build(s.drop_last(), s.last());
        assert(s.drop_last().push(s.last()) =~= s);
    } else {
        assert(sorted_by_logical(s) =~= s);
    }
}

/// A word is written high byte first: its two bytes read back, big-endian,
/// as the word.
pub proof fn lemma_word_bytes_big_endian(w: u16)
    ensures
        word_bytes(w).len() == 2,
        word_bytes(w)[0] as int * 256 + word_bytes(w)[1] as int == w,
{
}

} // verus!

verus! {

/// The range-checked writes take exactly the values their types hold: a
/// value is written when converting it to the type and back gives it again
/// (for "i8 or u8", to either type), and it is written as its two's
/// complement bits, that is, as the value modulo 256 (a byte) or modulo
/// 65536 (a word, high byte first); any other value is refused as not
/// fitting, with the image unchanged.
pub proof fn lemma_checked_writes_fit_types(
    o: BinaryModel,
    n: BinaryModel,
    res: Result<WriteStatus, BinaryError>,
    val: i64,
)
    ensures
        signed_byte_write(o, n, res, val) ==> if val == (val as i8) as i64 {
            (n, res) == o.write_byte_result((val % 256) as u8)
        } else {
            n == o && res is Err
        },
        unsigned_byte_write(o, n, res, val) ==> if val == (val as u8) as i64 {
            (n, res) == o.write_byte_result((val % 256) as u8)
        } else {
            n == o && res is Err
        },
        any_byte_write(o, n, res, val) ==> if val == (val as i8) as i64 || val == (val as u8) as i64 {
            (n, res) == o.write_byte_result((val % 256) as u8)
        } else {
            n == o && res is Err
        },
        signed_word_write(o, n, res, val) ==> if val == (val as i16) as i64 {
            (n, res) == o.write_bytes_result(seq![((val % 65536) / 256) as u8, (val % 256) as u8])
        } else {
            n == o && res is Err
        },
        unsigned_word_write(o, n, res, val) ==> if val == (val as u16) as i64 {
            (n, res) == o.write_bytes_result(seq![((val % 65536) / 256) as u8, (val % 256) as u8])
        } else {
            n == o && res is Err
        },
        any_word_write(o, n, res, val) ==> if val == (val as i16) as i64 || val == (val as u16) as i64 {
            (n, res) == o.write_bytes_result(seq![((val % 65536) / 256) as u8, (val % 256) as u8])
        } else {
            n == o && res is Err
        },
{
    assert((val == (val as i8) as i64) == (-128 <= val < 128) && (val == (val as u8) as i64) == (0
        <= val < 256) && (val == (val as i16) as i64) == (-32768 <= val < 32768) && (val == (val as u16)
        as i64) == (0 <= val < 65536)) by (bit_vector);
    if -128 <= val < 256 {
        crate::assembler::opcodes::lemma_low_byte(val);
    }
    if -32768 <= val < 65536 {
        crate::assembler::opcodes::lemma_low_word(val);
    }
}

} // verus!

verus! {

/// Address `a` holds a byte other than the reference byte expected there.
pub open spec fn differs_at(m: BinaryModel, a: int) -> bool {
    0 <= a < m.data.len() && (expected_at(m.bin_refs, a) matches Some(b) && m.data[a] != b)
}

/// The addresses found to differ from the reference below `n` are exactly
/// those where the image differs from it, each once, in increasing order.
pub proof fn lemma_mismatches_exact(m: BinaryModel, n: nat)
    requires
        n <= m.data.len(),
        n <= usize::MAX,
    ensures
        mismatches_below(m, n).len() <= n,
        forall|k: int| 0 <= k < mismatches_below(m, n).len() ==> #[trigger] mismatches_below(m, n)[k] < n
            && differs_at(m, mismatches_below(m, n)[k] as int),
        forall|i: int, j: int|
            0 <= i < j < mismatches_below(m, n).len() ==> #[trigger] mismatches_below(m, n)[i]
                < #[trigger] mismatches_below(m, n)[j],
        forall|a: int| 0 <= a < n && #[trigger] differs_at(m, a) ==> mismatches_below(m, n).contains(a as usize),
    decreases n,
{
    if n > 0 {
        let p = (n - 1) as nat;
        lemma_mismatches_exact(m, p);
        let prev = mismatches_below(m, p);
        let cur = mismatches_below(m, n);
        if differs_at(m, p as int) {
            assert(cur == prev.push(p as usize));
            assert forall|k: int| 0 <= k < cur.len() implies #[trigger] cur[k] < n && differs_at(m, cur[k] as int) by {
                if k < prev.len() {
                    assert(cur[k] == prev[k]);
                }
            }
            assert forall|i: int, j: int| 0 <= i < j < cur.len() implies #[trigger] cur[i] < #[trigger] cur[j] by {
                assert(cur[i] == prev[i]);
                if j < prev.len() {
                    assert(cur[j] == prev[j]);
                }
            }
            assert forall|a: int| 0 <= a < n && #[trigger] differs_at(m, a) implies cur.contains(a as usize) by {
                if a < p {
                    let k = choose|k: int| 0 <= k < prev.len() && prev[k] == a as usize;
                    assert(cur[k] == prev[k]);
                } else {
                    assert(cur[prev.len() as int] == a as usize);
                }
            }
        } else {
            assert(cur == prev);
        }
    }
}

} // verus!

verus! {

/// The addresses a run `(start, length)` covers.
pub open spec fn run_span(r: (usize, usize)) -> Seq<int> {
    Seq::new(r.1 as nat, |i: int| r.0 + i)
}

/// The addresses that runs cover, run after run.
pub open spec fn runs_span(runs: Seq<(usize, usize)>) -> Seq<int>
    decreases runs.len(),
{
    if runs.len() == 0 {
        Seq::empty()
    } else {
        runs_span(runs.drop_last()) + run_span(runs.last())
    }
}

/// Of two runs in a row that are not empty, the second starts after a
/// gap past the end of the first.
pub open spec fn runs_apart(runs: Seq<(usize, usize)>) -> bool {
    forall|i: int, j: int|
        0 <= i < j < runs.len() && #[trigger] runs[i].1 > 0 && #[trigger] runs[j].1 > 0 ==> runs[i].0
            + runs[i].1 < runs[j].0
}

proof fn lemma_runs_state(addrs: Seq<usize>)
    requires
        forall|i: int, j: int| 0 <= i < j < addrs.len() ==> #[trigger] addrs[i] < #[trigger] addrs[j],
        addrs.len() > 0 ==> addrs[0] != 1,
        addrs.len() < usize::MAX,
    ensures
        ({
            let st = runs_state(addrs);
            &&& runs_span(st.runs) + run_span(st.run) == addrs.map_values(|a: usize| a as int)
            &&& addrs.len() == 0 ==> st.run == (0usize, 0usize) && st.runs.len() == 0
            &&& addrs.len() > 0 ==> st.last == addrs.last() && st.run.1 >= 1 && st.run.0 + st.run.1 - 1
                == st.last
            &&& runs_apart(st.runs.push(st.run))
        }),
    decreases addrs.len(),
{
    if addrs.len() > 0 {
        let prev = addrs.drop_last();
        lemma_runs_state(prev);
        let st = runs_state(prev);
        let a = addrs.last();
        let ints = addrs.map_values(|x: usize| x as int);
        let pints = prev.map_values(|x: usize| x as int);
        assert(ints =~= pints.push(a as int));
        if prev.len() > 0 {
            assert(prev.last() == addrs[addrs.len() - 2]);
            assert(prev.last() < a);
        }
        let st2 = runs_state(addrs);
        if a != st.last + 1 {
            assert(st2.runs == st.runs.push(st.run));
            assert(runs_span(st2.runs) =~= runs_span(st.runs) + run_span(st.run)) by {
                assert(st.runs.push(st.run).drop_last() =~= st.runs);
            }
            assert(run_span((a, 1usize)) =~= seq![a as int]);
            assert(runs_span(st2.runs) + run_span(st2.run) =~= ints);
            let all = st2.runs.push(st2.run);
            let old_all = st.runs.push(st.run);
            assert forall|i: int, j: int|
                0 <= i < j < all.len() && #[trigger] all[i].1 > 0 && #[trigger] all[j].1 > 0 implies all[i].0
                + all[i].1 < all[j].0 by {
                assert(all[i] == old_all[i]);
                if j < all.len() - 1 {
                    assert(all[j] == old_all[j]);
                } else if i < old_all.len() - 1 {
                    assert(old_all[i].0 + old_all[i].1 < old_all[old_all.len() - 1].0);
                }
            }
        } else {
            assert(prev.len() > 0);
            assert(st2.runs == st.runs);
            assert(run_span(st2.run) =~= run_span(st.run).push(a as int));
            assert(runs_span(st2.runs) + run_span(st2.run) =~= ints);
            let all = st2.runs.push(st2.run);
            let old_all = st.runs.push(st.run);
            assert forall|i: int, j: int|
                0 <= i < j < all.len() && #[trigger] all[i].1 > 0 && #[trigger] all[j].1 > 0 implies all[i].0
                + all[i].1 < all[j].0 by {
                assert(all[i] == old_all[i]);
                if j < all.len() - 1 {
                    assert(all[j] == old_all[j]);
                } else {
                    assert(old_all[i].0 + old_all[i].1 < old_all[j].0);
                }
            }
        }
    } else {
        assert(run_span((0usize, 0usize)) =~= Seq::<int>::empty());
        assert(addrs.map_values(|a: usize| a as int) =~= Seq::<int>::empty());
        assert(runs_span(Seq::<(usize, usize)>::empty()) =~= Seq::<int>::empty());
    }
}

/// The runs reported for increasing addresses cover exactly those
/// addresses, in order, and no two runs could be joined: each run ends
/// before a gap. (An address list starting at 1 is left out: the scan's
/// starting run at 0 absorbs it.)
pub proof fn lemma_runs_cover(addrs: Seq<usize>)
    requires
        forall|i: int, j: int| 0 <= i < j < addrs.len() ==> #[trigger] addrs[i] < #[trigger] addrs[j],
        addrs.len() > 0 ==> addrs[0] != 1,
        addrs.len() < usize::MAX,
    ensures
        runs_span(runs_of(addrs)) == addrs.map_values(|a: usize| a as int),
        runs_apart(runs_of(addrs)),
{
    lemma_runs_state(addrs);
    let st = runs_state(addrs);
    if st.run.1 != 0 {
        assert(st.runs.push(st.run).drop_last() =~= st.runs);
    } else {
        assert(run_span(st.run) =~= Seq::<int>::empty());
        assert(runs_span(st.runs) + run_span(st.run) =~= runs_span(st.runs));
        let all = st.runs.push(st.run);
        assert forall|i: int, j: int|
            0 <= i < j < st.runs.len() && #[trigger] st.runs[i].1 > 0 && #[trigger] st.runs[j].1 > 0 implies st.runs[i].0
            + st.runs[i].1 < st.runs[j].0 by {
            assert(all[i] == st.runs[i]);
            assert(all[j] == st.runs[j]);
        }
    }
}

} // verus!

verus! {

/// The runs a reference check reports cover exactly the addresses where
/// the image differs from the reference binaries, and no two of them could
/// be joined. (An image whose first difference is at address 1 is left
/// out: the scan's starting run at 0 absorbs it.)
pub proof fn lemma_reference_runs(m: BinaryModel)
    requires
        m.data.len() < usize::MAX,
        !(differs_at(m, 1) && !differs_at(m, 0)),
    ensures
        forall|a: int|
            runs_span(runs_of(mismatches_below(m, m.data.len()))).contains(a) <==> #[trigger] differs_at(m, a),
        runs_apart(runs_of(mismatches_below(m, m.data.len()))),
{
    let n = m.data.len();
    let mism = mismatches_below(m, n);
    lemma_mismatches_exact(m, n);
    if mism.len() > 0 && mism[0] == 1 {
        assert(differs_at(m, 1));
        if differs_at(m, 0) {
            assert(mism.contains(0usize));
            let k = choose|k: int| 0 <= k < mism.len() && mism[k] == 0usize;
            if k > 0 {
                assert(mism[0] < mism[k]);
            }
        }
    }
    lemma_runs_cover(mism);
    let ints = mism.map_values(|x: usize| x as int);
    assert forall|a: int| ints.contains(a) <==> #[trigger] differs_at(m, a) by {
        if ints.contains(a) {
            let k = choose|k: int| 0 <= k < ints.len() && ints[k] == a;
            assert(mism[k] as int == a);
        }
        if differs_at(m, a) {
            assert(mism.contains(a as usize));
            let k = choose|k: int| 0 <= k < mism.len() && mism[k] == a as usize;
            assert(ints[k] == a);
        }
    }
}

} // verus!
