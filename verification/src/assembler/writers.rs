//! The envelope that metadata artifacts are written in: a magic number, a
//! version, flags, the length of the body, then the body, which holds an
//! optional length-prefixed header block before the payload. All numbers
//! are little endian.
use vstd::prelude::*;
use super::asmout::BinReference;
use super::binary::AccessType;
use super::sizer::{AddrRange, SectionDescriptor};
use crate::cli::cpukind::CpuKind;
use crate::opts::{CheckSum, Opts};

verus! {

/// The version of an artifact without a header.
pub const ARTIFACT_VERSION: u16 = 3;

/// The version of an artifact whose header was written positionally; it is
/// still read, and no longer written.
pub const ARTIFACT_VERSION_WITH_HEADER: u16 = 4;

/// The version of an artifact whose header is a named map.
pub const ARTIFACT_VERSION_NAMED_HEADER: u16 = 5;

/// The flag that says a header block is present.
pub const FLAG_HAS_TARGET_INFO: u16 = 1;

/// The number of bytes before the body.
pub const ENVELOPE_PREFIX_LEN: usize = 16;

/// 256 to the power `n`.
pub open spec fn pow256(n: nat) -> nat
    decreases n,
{
    if n == 0 {
        1
    } else {
        256 * pow256((n - 1) as nat)
    }
}

/// The `n` low bytes of `x`, least significant first.
pub open spec fn le_bytes(x: nat, n: nat) -> Seq<u8>
    decreases n,
{
    if n == 0 {
        Seq::empty()
    } else {
        seq![(x % 256) as u8] + le_bytes(x / 256, (n - 1) as nat)
    }
}

/// The number whose bytes, least significant first, are `s`.
pub open spec fn le_value(s: Seq<u8>) -> nat
    decreases s.len(),
{
    if s.len() == 0 {
        0
    } else {
        (s[0] + 256 * le_value(s.subrange(1, s.len() as int))) as nat
    }
}

/// The body of an artifact: the header block, if any, then the payload.
pub open spec fn artifact_body(header: Option<Seq<u8>>, payload: Seq<u8>) -> Seq<u8> {
    match header {
        Some(h) => le_bytes(h.len(), 8) + h + payload,
        None => payload,
    }
}

/// The version an artifact is written with.
pub open spec fn artifact_version(header: Option<Seq<u8>>) -> u16 {
    if header is Some {
        ARTIFACT_VERSION_NAMED_HEADER
    } else {
        ARTIFACT_VERSION
    }
}

/// The flags an artifact is written with.
pub open spec fn artifact_flags(header: Option<Seq<u8>>) -> u16 {
    if header is Some {
        FLAG_HAS_TARGET_INFO
    } else {
        0
    }
}

/// The bytes of an artifact with magic number `magic`, header `header` and
/// payload `payload`.
pub open spec fn envelope(magic: Seq<u8>, header: Option<Seq<u8>>, payload: Seq<u8>) -> Seq<u8> {
    let body = artifact_body(header, payload);
    magic + le_bytes(artifact_version(header) as nat, 2) + le_bytes(
        artifact_flags(header) as nat,
        2,
    ) + le_bytes(body.len(), 8) + body
}

/// Why bytes could not be read as an artifact.
#[derive(Debug, Clone, Copy, PartialEq, Eq, Structural)]
pub enum EnvelopeError {
    /// Fewer bytes than the envelope or its header block needs.
    Truncated,
    /// Another magic number than the one asked for.
    WrongMagic,
    /// A body length that is not the number of bytes that follow.
    LengthMismatch,
}

/// What an artifact is read as: version, flags, header and payload.
pub open spec fn parse_envelope(bytes: Seq<u8>, magic: Seq<u8>) -> Result<
    (u16, u16, Option<Seq<u8>>, Seq<u8>),
    EnvelopeError,
> {
    if bytes.len() < 16 {
        Err(EnvelopeError::Truncated)
    } else if bytes.subrange(0, 4) != magic {
        Err(EnvelopeError::WrongMagic)
    } else if le_value(bytes.subrange(8, 16)) != bytes.len() - 16 {
        Err(EnvelopeError::LengthMismatch)
    } else {
        let version = le_value(bytes.subrange(4, 6)) as u16;
        let flags = le_value(bytes.subrange(6, 8)) as u16;
        let body = bytes.subrange(16, bytes.len() as int);
        if flags % 2 == 1 {
            if body.len() < 8 {
                Err(EnvelopeError::Truncated)
            } else if le_value(body.subrange(0, 8)) > body.len() - 8 {
                Err(EnvelopeError::Truncated)
            } else {
                let hl = le_value(body.subrange(0, 8)) as int;
                Ok(
                    (
                        version,
                        flags,
                        Some(body.subrange(8, 8 + hl)),
                        body.subrange(8 + hl, body.len() as int),
                    ),
                )
            }
        } else {
            Ok((version, flags, None, body))
        }
    }
}

/// `n` bytes give a number below 256 to the power `n`.
pub proof fn lemma_le_value_bound(s: Seq<u8>)
    ensures
        le_value(s) < pow256(s.len()),
    decreases s.len(),
{
    if s.len() > 0 {
        let rest = s.subrange(1, s.len() as int);
        lemma_le_value_bound(rest);
        let v = le_value(rest);
        let p = pow256(rest.len());
        assert(s[0] + 256 * v < 256 * p) by (nonlinear_arith)
            requires
                v < p,
                s[0] < 256,
        ;
    }
}

/// `le_bytes` gives `n` bytes.
pub proof fn lemma_le_bytes_len(x: nat, n: nat)
    ensures
        le_bytes(x, n).len() == n,
    decreases n,
{
    if n > 0 {
        lemma_le_bytes_len(x / 256, (n - 1) as nat);
    }
}

/// Reading back the `n` low bytes of a number below 256 to the power `n`
/// gives the number.
pub proof fn lemma_le_round_trip(x: nat, n: nat)
    requires
        x < pow256(n),
    ensures
        le_value(le_bytes(x, n)) == x,
    decreases n,
{
    lemma_le_bytes_len(x, n);
    if n > 0 {
        let s = le_bytes(x, n);
        let tail = le_bytes(x / 256, (n - 1) as nat);
        assert(s.subrange(1, s.len() as int) =~= tail);
        assert(x / 256 < pow256((n - 1) as nat)) by (nonlinear_arith)
            requires
                x < 256 * pow256((n - 1) as nat),
        ;
        lemma_le_round_trip(x / 256, (n - 1) as nat);
    }
}

/// A `u64` is below 256 to the eighth.
pub proof fn lemma_pow256_facts()
    ensures
        pow256(2) == 0x10000,
        pow256(8) == 0x1_0000_0000_0000_0000,
{
    reveal_with_fuel(pow256, 9);
}

/// Append the `n` low bytes of `x` to `out`.
fn push_le(out: &mut Vec<u8>, x: u64, n: usize)
    ensures
        final(out)@ == old(out)@ + le_bytes(x as nat, n as nat),
    decreases n,
{
    if n > 0 {
        out.push((x % 256) as u8);
        push_le(out, x / 256, n - 1);
        proof {
            assert(final(out)@ =~= old(out)@ + le_bytes(x as nat, n as nat));
        }
    }
}

/// Append `s` to `out`.
fn push_all(out: &mut Vec<u8>, s: &[u8])
    ensures
        final(out)@ == old(out)@ + s@,
{
    let mut i: usize = 0;
    while i < s.len()
        invariant
            i <= s@.len(),
            out@ == old(out)@ + s@.subrange(0, i as int),
        decreases s@.len() - i,
    {
        out.push(s[i]);
        proof {
            assert(out@ =~= old(out)@ + s@.subrange(0, i as int + 1));
        }
        i = i + 1;
    }
    proof {
        assert(s@.subrange(0, s@.len() as int) =~= s@);
    }
}

/// The number held by the `n` bytes of `bytes` from `start`, least
/// significant first.
fn read_le(bytes: &[u8], start: usize, n: usize) -> (res: u64)
    requires
        start + n <= bytes@.len(),
        n <= 8,
    ensures
        res == le_value(bytes@.subrange(start as int, start + n)),
    decreases n,
{
    if n == 0 {
        0
    } else {
        let len = bytes.len();
        assert(start + 1 <= len);
        let rest = read_le(bytes, start + 1, n - 1);
        proof {
            let s = bytes@.subrange(start as int, start + n);
            assert(s.subrange(1, s.len() as int) =~= bytes@.subrange(start + 1, start + n));
            lemma_le_value_bound(bytes@.subrange(start + 1, start + n));
            lemma_pow256_facts();
            assert(pow256(7) == 0x100_0000_0000_0000) by {
                reveal_with_fuel(pow256, 8);
            }
            assert(pow256((n - 1) as nat) <= pow256(7)) by {
                lemma_pow256_mono((n - 1) as nat, 7);
            }
        }
        bytes[start] as u64 + 256 * rest
    }
}

/// `pow256` grows with its exponent.
proof fn lemma_pow256_mono(a: nat, b: nat)
    requires
        a <= b,
    ensures
        pow256(a) <= pow256(b),
    decreases b,
{
    if a < b {
        lemma_pow256_mono(a, (b - 1) as nat);
    }
}

/// An artifact as read: version, flags, header and payload.
#[derive(Debug, Clone)]
pub struct Artifact {
    pub version: u16,
    pub flags: u16,
    pub header: Option<Vec<u8>>,
    pub payload: Vec<u8>,
}

/// The bytes of an optional header.
pub open spec fn header_view(h: Option<Vec<u8>>) -> Option<Seq<u8>> {
    match h {
        Some(v) => Some(v@),
        None => None,
    }
}

/// The bytes of an optional header slice.
pub open spec fn header_slice_view(h: Option<&[u8]>) -> Option<Seq<u8>> {
    match h {
        Some(v) => Some(v@),
        None => None,
    }
}

/// The artifact with magic number `magic`, header block `header` (when
/// given) and payload `payload`: version 5 with flag bit 0 set where there
/// is a header, else version 3 with no flags.
pub fn encode_artifact(magic: &[u8; 4], header: Option<&[u8]>, payload: &[u8]) -> (res: Vec<u8>)
    requires
        match header {
            Some(h) => h@.len() + payload@.len() + 8 <= u64::MAX,
            None => payload@.len() <= u64::MAX,
        },
    ensures
        res@ == envelope(magic@, header_slice_view(header), payload@),
{
    let mut body: Vec<u8> = Vec::new();
    let (version, flags): (u16, u16) = match header {
        Some(h) => {
            push_le(&mut body, h.len() as u64, 8);
            push_all(&mut body, h);
            (ARTIFACT_VERSION_NAMED_HEADER, FLAG_HAS_TARGET_INFO)
        },
        None => (ARTIFACT_VERSION, 0),
    };
    push_all(&mut body, payload);
    proof {
        lemma_le_bytes_len(0, 8);
        if let Some(h) = header {
            lemma_le_bytes_len(h@.len(), 8);
            assert(body@ =~= artifact_body(header_slice_view(header), payload@));
        } else {
            assert(body@ =~= artifact_body(header_slice_view(header), payload@));
        }
    }
    let mut output: Vec<u8> = Vec::new();
    push_all(&mut output, magic.as_slice());
    push_le(&mut output, version as u64, 2);
    push_le(&mut output, flags as u64, 2);
    push_le(&mut output, body.len() as u64, 8);
    push_all(&mut output, body.as_slice());
    proof {
        assert(output@ =~= envelope(magic@, header_slice_view(header), payload@));
    }
    output
}

/// The artifact held by `bytes`, which must carry the magic number
/// `magic`: its version, flags, header block (where flag bit 0 is set) and
/// payload.
pub fn decode_artifact(bytes: &[u8], magic: &[u8; 4]) -> (res: Result<Artifact, EnvelopeError>)
    ensures
        match res {
            Ok(a) => parse_envelope(bytes@, magic@) == Ok::<_, EnvelopeError>(
                (a.version, a.flags, header_view(a.header), a.payload@),
            ),
            Err(e) => parse_envelope(bytes@, magic@) == Err::<(u16, u16, Option<Seq<u8>>, Seq<u8>), _>(e),
        },
{
    if bytes.len() < ENVELOPE_PREFIX_LEN {
        return Err(EnvelopeError::Truncated);
    }
    let mut k: usize = 0;
    while k < 4
        invariant
            k <= 4,
            bytes@.len() >= 16,
            magic@.len() == 4,
            forall|j: int| 0 <= j < k ==> bytes@[j] == magic@[j],
        decreases 4 - k,
    {
        if bytes[k] != magic[k] {
            proof {
                assert(bytes@.subrange(0, 4)[k as int] != magic@[k as int]);
            }
            return Err(EnvelopeError::WrongMagic);
        }
        k = k + 1;
    }
    proof {
        assert(bytes@.subrange(0, 4) =~= magic@);
    }
    let body_len = read_le(bytes, 8, 8);
    if body_len as u128 != (bytes.len() - ENVELOPE_PREFIX_LEN) as u128 {
        return Err(EnvelopeError::LengthMismatch);
    }
    let version = read_le(bytes, 4, 2);
    let flags = read_le(bytes, 6, 2);
    proof {
        lemma_pow256_facts();
        lemma_le_value_bound(bytes@.subrange(4, 6));
        lemma_le_value_bound(bytes@.subrange(6, 8));
    }
    let version = version as u16;
    let flags = flags as u16;
    let ghost body = bytes@.subrange(16, bytes@.len() as int);
    if flags % 2 == 1 {
        if bytes.len() - ENVELOPE_PREFIX_LEN < 8 {
            return Err(EnvelopeError::Truncated);
        }
        let hl = read_le(bytes, 16, 8);
        proof {
            assert(body.subrange(0, 8) =~= bytes@.subrange(16, 24));
        }
        if hl as u128 > (bytes.len() - ENVELOPE_PREFIX_LEN - 8) as u128 {
            return Err(EnvelopeError::Truncated);
        }
        let hl = hl as usize;
        let header = bytes_between(bytes, 24, 24 + hl);
        let payload = bytes_between(bytes, 24 + hl, bytes.len());
        proof {
            assert(header@ =~= body.subrange(8, 8 + hl));
            assert(payload@ =~= body.subrange(8 + hl, body.len() as int));
        }
        Ok(Artifact { version, flags, header: Some(header), payload })
    } else {
        let payload = bytes_between(bytes, 16, bytes.len());
        Ok(Artifact { version, flags, header: None, payload })
    }
}

/// A copy of the bytes of `bytes` from `from` up to `to`.
fn bytes_between(bytes: &[u8], from: usize, to: usize) -> (res: Vec<u8>)
    requires
        from <= to <= bytes@.len(),
    ensures
        res@ == bytes@.subrange(from as int, to as int),
{
    let mut out: Vec<u8> = Vec::new();
    let mut i: usize = from;
    while i < to
        invariant
            from <= i <= to <= bytes@.len(),
            out@ == bytes@.subrange(from as int, i as int),
        decreases to - i,
    {
        out.push(bytes[i]);
        proof {
            assert(out@ =~= bytes@.subrange(from as int, i as int + 1));
        }
        i = i + 1;
    }
    out
}

/// Reading an artifact gives back what it was written from: the version and
/// flags it was written with, its header and its payload.
pub proof fn lemma_envelope_round_trip(magic: Seq<u8>, header: Option<Seq<u8>>, payload: Seq<u8>)
    requires
        magic.len() == 4,
        match header {
            Some(h) => h.len() + payload.len() + 8 <= u64::MAX,
            None => payload.len() <= u64::MAX,
        },
    ensures
        parse_envelope(envelope(magic, header, payload), magic) == Ok::<_, EnvelopeError>(
            (artifact_version(header), artifact_flags(header), header, payload),
        ),
{
    let body = artifact_body(header, payload);
    let v = artifact_version(header);
    let f = artifact_flags(header);
    lemma_pow256_facts();
    lemma_le_bytes_len(v as nat, 2);
    lemma_le_bytes_len(f as nat, 2);
    lemma_le_bytes_len(body.len(), 8);
    let bytes = envelope(magic, header, payload);
    if let Some(h) = header {
        lemma_le_bytes_len(h.len(), 8);
        lemma_le_round_trip(h.len(), 8);
    }
    lemma_le_round_trip(v as nat, 2);
    lemma_le_round_trip(f as nat, 2);
    lemma_le_round_trip(body.len(), 8);
    assert(bytes.subrange(0, 4) =~= magic);
    assert(bytes.subrange(4, 6) =~= le_bytes(v as nat, 2));
    assert(bytes.subrange(6, 8) =~= le_bytes(f as nat, 2));
    assert(bytes.subrange(8, 16) =~= le_bytes(body.len(), 8));
    assert(bytes.subrange(16, bytes.len() as int) =~= body);
    if let Some(h) = header {
        assert(body.subrange(0, 8) =~= le_bytes(h.len(), 8));
        assert(body.subrange(8, 8 + h.len() as int) =~= h);
        assert(body.subrange(8 + h.len() as int, body.len() as int) =~= payload);
    }
}

/// How a section may be accessed, in the order the metadata reader numbers
/// the cases.
#[derive(Debug, Clone, Copy, PartialEq, Eq, Structural)]
pub enum SectionAccess {
    Read,
    Write,
    ReadWrite,
}

/// The metadata access of a section of the assembler's access `a`.
pub open spec fn access_of(a: AccessType) -> SectionAccess {
    match a {
        AccessType::ReadWrite => SectionAccess::ReadWrite,
        AccessType::ReadOnly => SectionAccess::Read,
    }
}

/// The metadata access of a section of the assembler's access `a`.
pub fn section_access(a: AccessType) -> (res: SectionAccess)
    ensures
        res == access_of(a),
{
    match a {
        AccessType::ReadWrite => SectionAccess::ReadWrite,
        AccessType::ReadOnly => SectionAccess::Read,
    }
}

/// A section as the metadata describes it.
#[derive(Debug, Clone)]
pub struct Section {
    pub name: String,
    pub logical_range: AddrRange,
    pub physical_range: AddrRange,
    pub access: SectionAccess,
}

/// A checksum as the metadata describes it.
#[derive(Debug, Clone)]
pub struct RomChecksum {
    pub name: String,
    pub addr: usize,
    pub size: usize,
    pub sha1: String,
}

/// The size in bytes of a named struct.
#[derive(Debug, Clone)]
pub struct StructSize {
    pub name: String,
    pub size: usize,
}

/// What the header of a metadata artifact says of the build.
#[derive(Debug, Clone)]
pub struct TargetInfo {
    pub target_name: String,
    pub cpu: CpuKind,
    pub mem_size: usize,
    pub exec_addr: Option<usize>,
    pub bin_references: Vec<BinReference>,
    pub checksums: Vec<RomChecksum>,
    pub sections: Vec<Section>,
    pub tool_version: String,
    pub struct_sizes: Vec<StructSize>,
}

/// The sizes among `sizes` whose struct has a name, with that name.
pub open spec fn named_sizes(sizes: Seq<(Option<String>, usize)>) -> Seq<(Seq<char>, usize)>
    decreases sizes.len(),
{
    if sizes.len() == 0 {
        Seq::empty()
    } else {
        let rest = named_sizes(sizes.drop_last());
        match sizes.last().0 {
            Some(n) => rest.push((n@, sizes.last().1)),
            None => rest,
        }
    }
}

/// The metadata's view of the checksum `c` named `name`.
pub open spec fn rom_checksum_of(r: RomChecksum, name: String, c: CheckSum) -> bool {
    r.name == name && r.addr == c.addr && r.size == c.size && r.sha1 == c.sha1
}

/// The metadata's view of the section `d`.
pub open spec fn section_of(s: Section, d: SectionDescriptor) -> bool {
    &&& s.name == d.name
    &&& s.logical_range == d.logical_range
    &&& s.physical_range == d.physical_range
    &&& s.access == access_of(d.access_type)
}

/// The header of the metadata of the build of target `target_name` with
/// options `opts`: its CPU, image size, execution address, reference
/// binaries, checksums and sections, the version of the tool, and the sizes
/// of those structs in `struct_sizes` that have a name.
pub fn target_info(
    target_name: String,
    opts: &Opts,
    exec_addr: Option<usize>,
    sections: &Vec<SectionDescriptor>,
    struct_sizes: &Vec<(Option<String>, usize)>,
    tool_version: String,
) -> (res: TargetInfo)
    ensures
        res.target_name == target_name,
        res.cpu == opts.cpu,
        res.mem_size == opts.mem_size,
        res.exec_addr == exec_addr,
        res.bin_references@ == opts.bin_references@,
        res.checksums@.len() == opts.checksums@.len(),
        forall|i: int|
            0 <= i < res.checksums@.len() ==> rom_checksum_of(
                #[trigger] res.checksums@[i],
                opts.checksums@[i].0,
                opts.checksums@[i].1,
            ),
        res.sections@.len() == sections@.len(),
        forall|i: int|
            0 <= i < res.sections@.len() ==> section_of(#[trigger] res.sections@[i], sections@[i]),
        res.tool_version == tool_version,
        res.struct_sizes@.map_values(|s: StructSize| (s.name@, s.size)) == named_sizes(
            struct_sizes@,
        ),
{
    let mut checksums: Vec<RomChecksum> = Vec::new();
    let mut i: usize = 0;
    while i < opts.checksums.len()
        invariant
            i <= opts.checksums@.len(),
            checksums@.len() == i,
            forall|j: int|
                0 <= j < i ==> rom_checksum_of(
                    #[trigger] checksums@[j],
                    opts.checksums@[j].0,
                    opts.checksums@[j].1,
                ),
        decreases opts.checksums@.len() - i,
    {
        let (name, c) = &opts.checksums[i];
        checksums.push(
            RomChecksum { name: name.clone(), addr: c.addr, size: c.size, sha1: c.sha1.clone() },
        );
        i = i + 1;
    }
    let mut secs: Vec<Section> = Vec::new();
    let mut i: usize = 0;
    while i < sections.len()
        invariant
            i <= sections@.len(),
            secs@.len() == i,
            forall|j: int| 0 <= j < i ==> section_of(#[trigger] secs@[j], sections@[j]),
        decreases sections@.len() - i,
    {
        let d = &sections[i];
        secs.push(
            Section {
                name: d.name.clone(),
                logical_range: d.logical_range,
                physical_range: d.physical_range,
                access: section_access(d.access_type),
            },
        );
        i = i + 1;
    }
    let mut sizes: Vec<StructSize> = Vec::new();
    let mut i: usize = 0;
    while i < struct_sizes.len()
        invariant
            i <= struct_sizes@.len(),
            sizes@.map_values(|s: StructSize| (s.name@, s.size)) == named_sizes(
                struct_sizes@.subrange(0, i as int),
            ),
        decreases struct_sizes@.len() - i,
    {
        let (name, size) = &struct_sizes[i];
        proof {
            assert(struct_sizes@.subrange(0, i as int + 1).drop_last() =~= struct_sizes@.subrange(
                0,
                i as int,
            ));
        }
        match name {
            Some(n) => {
                let ghost before = sizes@;
                sizes.push(StructSize { name: n.clone(), size: *size });
                proof {
                    assert(sizes@.map_values(|s: StructSize| (s.name@, s.size)) =~= before.map_values(
                        |s: StructSize| (s.name@, s.size),
                    ).push((n@, *size)));
                }
            },
            None => {},
        }
        i = i + 1;
    }
    proof {
        assert(struct_sizes@.subrange(0, struct_sizes@.len() as int) =~= struct_sizes@);
    }
    TargetInfo {
        target_name,
        cpu: opts.cpu,
        mem_size: opts.mem_size,
        exec_addr,
        bin_references: crate::opts::copy_bin_references(&opts.bin_references),
        checksums,
        sections: secs,
        tool_version,
        struct_sizes: sizes,
    }
}

/// The name of the target a metadata file is written for: the configured
/// target name, else the stem of the project file, else `gazm`.
pub fn metadata_target(target_name: &Option<String>, project_stem: Option<String>) -> (res: String)
    ensures
        res@ == match target_name {
            Some(t) => t@,
            None => match project_stem {
                Some(s) => s@,
                None => "gazm"@,
            },
        },
{
    match target_name {
        Some(t) => t.clone(),
        None => match project_stem {
            Some(s) => s,
            None => "gazm".to_owned(),
        },
    }
}

/// The name of the metadata file of target `target`: `<target>.meta`.
pub fn metadata_file_name(target: &str) -> (res: String)
    ensures
        res@ == target@ + ".meta"@,
{
    target.to_owned().concat(".meta")
}

/// The metadata bundle: the source-map artifact followed by the symbols
/// artifact.
pub fn metadata_bundle(source: &[u8], symbols: &[u8]) -> (res: Vec<u8>)
    ensures
        res@ == source@ + symbols@,
{
    let mut data: Vec<u8> = Vec::new();
    push_all(&mut data, source);
    push_all(&mut data, symbols);
    proof {
        assert(data@ =~= source@ + symbols@);
    }
    data
}

} // verus!

verus! {

/// An artifact read with another magic number than it was written with is
/// refused as such.
pub proof fn lemma_envelope_wrong_magic(magic: Seq<u8>, other: Seq<u8>, header: Option<Seq<u8>>, payload: Seq<u8>)
    requires
        magic.len() == 4,
        other != magic,
    ensures
        parse_envelope(envelope(magic, header, payload), other) == Err::<(u16, u16, Option<Seq<u8>>, Seq<u8>), EnvelopeError>(
            EnvelopeError::WrongMagic,
        ),
{
    let body = artifact_body(header, payload);
    lemma_le_bytes_len(artifact_version(header) as nat, 2);
    lemma_le_bytes_len(artifact_flags(header) as nat, 2);
    lemma_le_bytes_len(body.len(), 8);
    let bytes = envelope(magic, header, payload);
    assert(bytes.subrange(0, 4) =~= magic);
}

} // verus!

verus! {

/// Numbers are written least significant byte first: byte `k` of the `n`
/// bytes of `x` is the `k`th base-256 digit of `x`.
pub proof fn lemma_le_bytes_digits(x: nat, n: nat, k: nat)
    requires
        k < n,
    ensures
        le_bytes(x, n)[k as int] == (x / pow256(k)) % 256,
    decreases k,
{
    lemma_le_bytes_len(x, n);
    if k > 0 {
        lemma_le_bytes_digits(x / 256, (n - 1) as nat, (k - 1) as nat);
        lemma_le_bytes_len(x / 256, (n - 1) as nat);
        assert(le_bytes(x, n)[k as int] == le_bytes(x / 256, (n - 1) as nat)[k - 1]);
        let p = pow256((k - 1) as nat);
        assert(p > 0) by {
            lemma_pow256_positive((k - 1) as nat);
        }
        assert((x / 256) / p == x / (256 * p)) by {
            vstd::arithmetic::div_mod::lemma_div_denominator(x as int, 256, p as int);
        }
        assert(pow256(k) == 256 * p);
    } else {
        assert(pow256(0) == 1);
        assert(x / 1 == x);
    }
}

proof fn lemma_pow256_positive(n: nat)
    ensures
        pow256(n) > 0,
    decreases n,
{
    if n > 0 {
        lemma_pow256_positive((n - 1) as nat);
    }
}

} // verus!
