use gazm::assembler::binary::AccessType;
use gazm::assembler::asmout::BinReference;
use gazm::assembler::sizer::{AddrRange, SectionDescriptor};
use gazm::assembler::writers::{
    decode_artifact, encode_artifact, metadata_bundle, metadata_file_name, metadata_target,
    section_access, target_info, EnvelopeError, SectionAccess, TargetInfo, ARTIFACT_VERSION,
    ARTIFACT_VERSION_NAMED_HEADER, FLAG_HAS_TARGET_INFO,
};
use gazm::cli::cpukind::CpuKind;
use gazm::opts::{CheckSum, Opts};

/// No header: version 3, flags 0, no header block.
#[test]
fn artifact_without_header_round_trips_as_v3() {
    let payload: Vec<u32> = vec![1, 2, 3];
    let encoded = bincode::serialize(&payload).unwrap();
    let bytes = encode_artifact(b"GZMP", None, &encoded);

    let art = decode_artifact(&bytes, b"GZMP").unwrap();
    assert_eq!(art.version, ARTIFACT_VERSION);
    assert_eq!(art.flags, 0);
    assert!(art.header.is_none());

    let decoded: Vec<u32> = bincode::deserialize(&art.payload).unwrap();
    assert_eq!(decoded, payload);
}

/// The header fields of `info` as written into an artifact.
type HeaderFields = (
    String,
    String,
    usize,
    Option<usize>,
    Vec<(String, usize)>,
    Vec<(String, usize, usize, String)>,
    Vec<(String, (usize, usize), (usize, usize), String)>,
    String,
);

fn header_fields(info: &TargetInfo) -> HeaderFields {
    (
        info.target_name.clone(),
        format!("{:?}", info.cpu),
        info.mem_size,
        info.exec_addr,
        info.bin_references.iter().map(|b| (b.file.clone(), b.addr)).collect(),
        info.checksums.iter().map(|c| (c.name.clone(), c.addr, c.size, c.sha1.clone())).collect(),
        info.sections
            .iter()
            .map(|s| {
                (
                    s.name.clone(),
                    (s.logical_range.start, s.logical_range.end),
                    (s.physical_range.start, s.physical_range.end),
                    format!("{:?}", s.access),
                )
            })
            .collect(),
        info.tool_version.clone(),
    )
}

fn sample_target_info() -> TargetInfo {
    let mut opts = Opts::new();
    opts.mem_size = 94208;
    opts.bin_references.push(BinReference { file: "orig/roms/01".to_string(), addr: 0x0000 });
    opts.checksums.push((
        "rom_1".to_string(),
        CheckSum { addr: 0x0000, size: 0x1000, sha1: "f003a5a9319c4eb8991fa2aae3f10c72d6b8e81a".to_string() },
    ));
    let sections = vec![SectionDescriptor {
        name: "lo_rom".to_string(),
        logical_range: AddrRange { start: 0x0000, end: 0x9000 },
        physical_range: AddrRange { start: 0x0000, end: 0x9000 },
        access_type: AccessType::ReadOnly,
    }];
    let sizes = vec![(Some("Proc".to_string()), 15usize)];
    target_info("stargate".to_string(), &opts, Some(0xE000), &sections, &sizes, "test".to_string())
}

/// With header: version 5 (named map), flag bit 0, and every field of the
/// target info decodes back with identical values.
#[test]
fn artifact_with_header_round_trips_through_reader() {
    let info = sample_target_info();
    let header = rmp_serde::to_vec_named(&header_fields(&info)).unwrap();
    let payload: Vec<u32> = vec![7, 8];
    let encoded = bincode::serialize(&payload).unwrap();
    let bytes = encode_artifact(b"GZSY", Some(&header), &encoded);

    let art = decode_artifact(&bytes, b"GZSY").unwrap();
    assert_eq!(art.version, ARTIFACT_VERSION_NAMED_HEADER);
    assert_eq!(art.flags, FLAG_HAS_TARGET_INFO);

    let got_header = art.header.expect("header present");
    let got: HeaderFields = rmp_serde::from_slice(&got_header).unwrap();
    assert_eq!(got.0, "stargate");
    assert_eq!(got.1, format!("{:?}", CpuKind::Cpu6809));
    assert_eq!(got.2, 94208);
    assert_eq!(got.3, Some(0xE000));
    assert_eq!(got.4.len(), 1);
    assert_eq!(got.4[0].0, "orig/roms/01");
    assert_eq!(got.4[0].1, 0x0000);
    assert_eq!(got.5.len(), 1);
    assert_eq!(got.5[0].0, "rom_1");
    assert_eq!(got.5[0].3, "f003a5a9319c4eb8991fa2aae3f10c72d6b8e81a");
    assert_eq!(got.6.len(), 1);
    assert_eq!(got.6[0].0, "lo_rom");
    assert_eq!(got.6[0].1, (0x0000, 0x9000));
    assert_eq!(got.6[0].3, format!("{:?}", SectionAccess::Read));
    assert_eq!(got.7, "test");

    let decoded: Vec<u32> = bincode::deserialize(&art.payload).unwrap();
    assert_eq!(decoded, payload);
}

#[test]
fn envelope_layout_is_little_endian() {
    let bytes = encode_artifact(b"GZMP", Some(&[0xaa, 0xbb]), &[1, 2, 3]);
    let expected: Vec<u8> = vec![
        b'G', b'Z', b'M', b'P', 5, 0, 1, 0, 13, 0, 0, 0, 0, 0, 0, 0, 2, 0, 0, 0, 0, 0, 0, 0, 0xaa,
        0xbb, 1, 2, 3,
    ];
    assert_eq!(bytes, expected);
    let plain = encode_artifact(b"GZMP", None, &[]);
    assert_eq!(plain, vec![b'G', b'Z', b'M', b'P', 3, 0, 0, 0, 0, 0, 0, 0, 0, 0, 0, 0]);
}

#[test]
fn malformed_artifacts_are_refused() {
    let bytes = encode_artifact(b"GZMP", None, &[1, 2, 3]);
    assert_eq!(decode_artifact(&bytes[..10], b"GZMP").unwrap_err(), EnvelopeError::Truncated);
    assert_eq!(decode_artifact(&bytes, b"GZSY").unwrap_err(), EnvelopeError::WrongMagic);
    assert_eq!(
        decode_artifact(&bytes[..bytes.len() - 1], b"GZMP").unwrap_err(),
        EnvelopeError::LengthMismatch
    );
    let mut bad_header = encode_artifact(b"GZMP", Some(&[1, 2]), &[]);
    bad_header[16] = 9;
    assert_eq!(decode_artifact(&bad_header, b"GZMP").unwrap_err(), EnvelopeError::Truncated);
}

#[test]
fn metadata_names_and_bundle() {
    assert_eq!(metadata_target(&Some("mytest".to_string()), Some("prog".to_string())), "mytest");
    assert_eq!(metadata_target(&None, Some("prog".to_string())), "prog");
    assert_eq!(metadata_target(&None, None), "gazm");
    assert_eq!(metadata_file_name("mytest"), "mytest.meta");
    assert_eq!(metadata_bundle(&[1, 2], &[3]), vec![1, 2, 3]);
}

#[test]
fn target_info_describes_the_build() {
    let mut opts = Opts::new();
    opts.mem_size = 94208;
    opts.bin_references.push(BinReference { file: "orig/roms/01".to_string(), addr: 0 });
    opts.checksums.push((
        "rom_1".to_string(),
        CheckSum { addr: 0, size: 0x1000, sha1: "f003a5a9319c4eb8991fa2aae3f10c72d6b8e81a".to_string() },
    ));
    let sections = vec![SectionDescriptor {
        name: "lo_rom".to_string(),
        logical_range: AddrRange { start: 0, end: 0x9000 },
        physical_range: AddrRange { start: 0, end: 0x9000 },
        access_type: AccessType::ReadOnly,
    }];
    let sizes = vec![(Some("Proc".to_string()), 15usize), (None, 3usize)];
    let info = target_info(
        "stargate".to_string(),
        &opts,
        Some(0xE000),
        &sections,
        &sizes,
        "test".to_string(),
    );
    assert_eq!(info.target_name, "stargate");
    assert_eq!(info.cpu, CpuKind::Cpu6809);
    assert_eq!(info.mem_size, 94208);
    assert_eq!(info.exec_addr, Some(0xE000));
    assert_eq!(info.bin_references.len(), 1);
    assert_eq!(info.checksums.len(), 1);
    assert_eq!(info.checksums[0].name, "rom_1");
    assert_eq!(info.checksums[0].size, 0x1000);
    assert_eq!(info.sections.len(), 1);
    assert_eq!(info.sections[0].name, "lo_rom");
    assert_eq!(info.sections[0].access, SectionAccess::Read);
    assert_eq!(info.sections[0].logical_range.end, 0x9000);
    assert_eq!(info.tool_version, "test");
    assert_eq!(info.struct_sizes.len(), 1);
    assert_eq!(info.struct_sizes[0].name, "Proc");
    assert_eq!(info.struct_sizes[0].size, 15);
    assert_eq!(section_access(AccessType::ReadWrite), SectionAccess::ReadWrite);
}
