//! The output of an assembly and the records it keeps.
use vstd::prelude::*;
use super::binary::{AccessType, BinRef, Binary, BinaryError, BinaryModel};
use super::error::AsmError;
use super::plan::{lookup, lookup_binding};

verus! {

/// The set of CPU backends an assembly can be run with; it carries no state.
#[derive(Debug, Clone, Copy, PartialEq, Eq)]
pub struct Assemblers {}

/// A reference binary named in the options: a file expected at `addr`.
#[derive(Debug, Clone, PartialEq, Eq)]
pub struct BinReference {
    pub file: String,
    pub addr: usize,
}

impl BinRef {
    /// The reference for `r` of the file named by `bin_reference`, expected
    /// at its address.
    pub fn from_bin_reference(bin_reference: BinReference, r: std::ops::Range<usize>) -> (res: BinRef)
        requires
            r.start <= r.end,
        ensures
            res.file@ == bin_reference.file@,
            res.start == r.start,
            res.size == r.end - r.start,
            res.dest == bin_reference.addr,
    {
        let BinReference { file, addr } = bin_reference;
        BinRef::new(file, r, addr)
    }
}

/// The output of a project being assembled: the image, the direct page in
/// force and the execution address.
#[derive(Debug, Clone)]
pub struct AsmOut {
    /// Direct page value.
    pub direct_page: Option<u8>,
    /// The output binary.
    pub binary: Binary,
    /// The execution address.
    pub exec_addr: Option<usize>,
    /// Ranges of the image to be written to files.
    pub bin_to_write_chunks: Vec<BinToWrite>,
    /// The value of `*`: the PC of the statement being processed.
    pub pc_symbol: usize,
    /// Symbol values set while emitting, in the order set; the latest
    /// value of a symbol is the one in force.
    pub symbols: Vec<(u64, i64)>,
    /// The ranges of the image that data statements filled, in order.
    pub data_map: Vec<DataMapping>,
    /// The address of each statement emitted, in order: `(node, pc)`.
    pub addr_map: Vec<(usize, usize)>,
}

/// The part of the image a data statement filled: its node, the logical
/// addresses from `start` up to `end`, and the offset from logical to
/// physical addresses it was written with.
#[derive(Debug, Clone, Copy, PartialEq, Eq)]
pub struct DataMapping {
    pub node_id: usize,
    pub start: usize,
    pub end: usize,
    pub offset: isize,
}

/// A range of the image to be written to a file: the bytes, the file and
/// the physical range they came from.
#[derive(Debug, Clone)]
pub struct BinToWrite {
    pub data: Vec<u8>,
    pub file: String,
    pub start: usize,
    pub end: usize,
}

impl AsmOut {
    /// Output into `binary`, with no direct page and no execution address.
    pub fn new(binary: Binary) -> (res: AsmOut)
        ensures
            res.binary@ == binary@,
            res.direct_page is None,
            res.exec_addr is None,
            res.bin_to_write_chunks@.len() == 0,
            res.pc_symbol == 0,
            res.symbols@.len() == 0,
            res.data_map@.len() == 0,
            res.addr_map@.len() == 0,
    {
        AsmOut {
            direct_page: None,
            binary,
            exec_addr: None,
            bin_to_write_chunks: Vec::new(),
            pc_symbol: 0,
            symbols: Vec::new(),
            data_map: Vec::new(),
            addr_map: Vec::new(),
        }
    }

    /// The value in force of the symbol `id`, if it has one.
    pub fn symbol_value(&self, id: u64) -> (res: Option<i64>)
        ensures
            res == lookup(self.symbols@, id),
    {
        lookup_binding(&self.symbols, id)
    }

    /// Set the direct page.
    pub fn set_dp(&mut self, val: u8)
        ensures
            final(self).direct_page == Some(val),
            final(self).binary@ == old(self).binary@,
            final(self).exec_addr == old(self).exec_addr,
            final(self).bin_to_write_chunks@ == old(self).bin_to_write_chunks@,
    {
        self.direct_page = Some(val)
    }

    /// Set the direct page from an evaluated `setdp` operand: none for a
    /// negative value, else its low byte.
    pub fn set_dp_value(&mut self, dp: i64)
        ensures
            final(self).direct_page == (if dp < 0 {
                None
            } else {
                Some((dp as u64 % 256) as u8)
            }),
            final(self).binary@ == old(self).binary@,
            final(self).exec_addr == old(self).exec_addr,
            final(self).bin_to_write_chunks@ == old(self).bin_to_write_chunks@,
    {
        if dp < 0 {
            self.direct_page = None;
        } else {
            self.direct_page = Some(((dp as u64) % 256) as u8);
        }
    }

    /// Clear the direct page.
    pub fn reset_dp(&mut self)
        ensures
            final(self).direct_page is None,
            final(self).binary@ == old(self).binary@,
            final(self).exec_addr == old(self).exec_addr,
            final(self).bin_to_write_chunks@ == old(self).bin_to_write_chunks@,
    {
        self.direct_page = None;
    }

    /// The output of an assembly into a zero-filled, writable image of
    /// `mem_size` bytes, held against the reference binaries that could be
    /// read: each is expected, whole, at its address.
    pub fn from_opts(mem_size: usize, references: Vec<(BinReference, Vec<u8>)>) -> (res: AsmOut)
        requires
            mem_size <= isize::MAX,
            forall|i: int|
                0 <= i < references@.len() ==> #[trigger] references@[i].0.addr
                    + references@[i].1@.len() <= usize::MAX,
        ensures
            res.binary@.data == Seq::new(mem_size as nat, |i: int| 0u8),
            res.binary@.write_address == 0,
            res.binary@.write_offset == 0,
            res.binary@.range is None,
            res.binary@.access_type == AccessType::ReadWrite,
            res.binary@.bin_refs.len() == references@.len(),
            forall|i: int|
                0 <= i < references@.len() ==> #[trigger] res.binary@.bin_refs[i] == (
                    references@[i].0.addr,
                    (references@[i].0.addr + references@[i].1@.len()) as usize,
                    references@[i].1@,
                ),
            res.direct_page is None,
            res.exec_addr is None,
            res.bin_to_write_chunks@.len() == 0,
    {
        let mut binary = Binary::new(mem_size, AccessType::ReadWrite);
        let mut i: usize = 0;
        while i < references.len()
            invariant
                i <= references@.len(),
                forall|j: int|
                    0 <= j < references@.len() ==> #[trigger] references@[j].0.addr
                        + references@[j].1@.len() <= usize::MAX,
                binary@.data == Seq::new(mem_size as nat, |i: int| 0u8),
                binary@.write_address == 0,
                binary@.write_offset == 0,
                binary@.range is None,
                binary@.access_type == AccessType::ReadWrite,
                binary@.bin_refs.len() == i,
                forall|j: int|
                    0 <= j < i ==> #[trigger] binary@.bin_refs[j] == (
                        references@[j].0.addr,
                        (references@[j].0.addr + references@[j].1@.len()) as usize,
                        references@[j].1@,
                    ),
            decreases references@.len() - i,
        {
            let (r, data) = &references[i];
            let bin_ref = BinRef::from_bin_reference(
                BinReference { file: r.file.clone(), addr: r.addr },
                0..data.len(),
            );
            binary.bin_reference(&bin_ref, data.as_slice());
            i = i + 1;
        }
        AsmOut::new(binary)
    }

    /// Record that the image's bytes in the physical range from `start` up
    /// to `end` are to be written to `file`. An empty range is refused.
    pub fn add_bin_to_write(&mut self, file: String, start: usize, end: usize) -> (res: Result<
        (),
        AsmError,
    >)
        requires
            start <= end <= old(self).binary@.data.len(),
        ensures
            start == end ==> res == Err::<(), AsmError>(
                AsmError::Binary(BinaryError::AskedForZeroBytes),
            ) && final(self).bin_to_write_chunks@ == old(self).bin_to_write_chunks@,
            start < end ==> res is Ok,
            start < end ==> final(self).bin_to_write_chunks@.len() == old(self).bin_to_write_chunks@.len() + 1,
            start < end ==> final(self).bin_to_write_chunks@.drop_last() == old(self).bin_to_write_chunks@,
            start < end ==> final(self).bin_to_write_chunks@.last().data@ == old(self).binary@.data.subrange(start as int, end as int),
            start < end ==> final(self).bin_to_write_chunks@.last().file == file,
            start < end ==> final(self).bin_to_write_chunks@.last().start == start,
            start < end ==> final(self).bin_to_write_chunks@.last().end == end,
            final(self).binary@ == old(self).binary@,
            final(self).direct_page == old(self).direct_page,
            final(self).exec_addr == old(self).exec_addr,
    {
        let data = match self.binary.get_bytes(start, end - start) {
            Ok(b) => vstd::slice::slice_to_vec(b),
            Err(e) => {
                return Err(AsmError::Binary(e));
            },
        };
        self.bin_to_write_chunks.push(BinToWrite { data, file, start, end });
        Ok(())
    }

    /// Hold the image against the file `file` of contents `data`, expected
    /// at `args[0]`: the whole of it, or its first `args[1]` bytes where a
    /// size is given.
    pub fn inc_bin_ref(&mut self, file: String, data: &[u8], args: &Vec<i64>)
        requires
            args@.len() >= 1,
            args@.len() >= 2 ==> (args@[1] as usize) <= data@.len(),
            (args@[0] as usize) + (if args@.len() >= 2 {
                args@[1] as usize
            } else {
                data@.len() as usize
            }) <= usize::MAX,
        ensures
            final(self).binary@ == (BinaryModel {
                bin_refs: old(self).binary@.bin_refs.push(
                    (
                        args@[0] as usize,
                        ((args@[0] as usize) + (if args@.len() >= 2 {
                            args@[1] as usize
                        } else {
                            data@.len() as usize
                        })) as usize,
                        data@,
                    ),
                ),
                ..old(self).binary@
            }),
            final(self).bin_to_write_chunks@ == old(self).bin_to_write_chunks@,
            final(self).direct_page == old(self).direct_page,
            final(self).exec_addr == old(self).exec_addr,
    {
        let dest = args[0] as usize;
        let size = if args.len() >= 2 {
            args[1] as usize
        } else {
            data.len()
        };
        let bin_ref = BinRef { file, start: 0, size, dest };
        self.binary.bin_reference(&bin_ref, data);
    }

    /// The output image.
    pub fn get_binary(&self) -> (res: &Binary)
        ensures
            res@ == self.binary@,
    {
        &self.binary
    }
}

/// Lines of an assembly listing.
#[derive(Debug, Clone)]
pub struct LstFile {
    pub lines: Vec<String>,
}

impl LstFile {
    /// An empty listing.
    pub fn new() -> (res: LstFile)
        ensures
            res.lines@.len() == 0,
    {
        LstFile { lines: Vec::new() }
    }

    /// Append a line.
    pub fn add(&mut self, line: &str)
        ensures
            final(self).lines@.len() == old(self).lines@.len() + 1,
            forall|i: int| 0 <= i < old(self).lines@.len() ==> final(self).lines@[i] == old(self).lines@[i],
            final(self).lines@.last()@ == line@,
    {
        self.lines.push(line.to_owned())
    }
}

} // verus!
