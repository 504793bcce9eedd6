use kmod_patch::codec::{decode_version_table, DecodeError, TableOutcome};
use kmod_patch::elf::SectionHeader;
use kmod_patch::patch::{apply_patch, PatchError};
use kmod_patch::records::VersionTable;

/// One 64-byte version record: 8 checksum bytes little-endian, then the
/// zero-padded name field.
fn record(name: &str, crc: u64) -> Vec<u8> {
    let mut r = vec![0u8; 64];
    r[0..8].copy_from_slice(&crc.to_le_bytes());
    let nb = name.as_bytes();
    r[8..8 + nb.len()].copy_from_slice(nb);
    r
}

/// A module image whose `__versions` section starts at `sec_off` and holds
/// `recs`, together with matching section headers.
fn image_with_records(sec_off: usize, recs: &[Vec<u8>]) -> (Vec<u8>, Vec<SectionHeader>) {
    let mut buf = vec![0x5Au8; sec_off];
    for r in recs {
        buf.extend_from_slice(r);
    }
    buf.extend_from_slice(&[0x7Fu8; 10]);
    let sections = vec![
        SectionHeader {
            name: b".text".to_vec(),
            offset: 0,
            size: 4,
        },
        SectionHeader {
            name: b"__versions".to_vec(),
            offset: sec_off,
            size: 64 * recs.len(),
        },
    ];
    (buf, sections)
}

fn decode_table(sections: &Vec<SectionHeader>, buf: &Vec<u8>) -> VersionTable {
    match decode_version_table(sections, buf) {
        Ok(TableOutcome::Present(t)) => t,
        other => panic!("expected a decoded table, got {:?}", other),
    }
}

#[test]
fn decode_counts_records() {
    let (buf, sections) = image_with_records(
        32,
        &[record("foo", 0x1234), record("bar", 0x5678), record("baz", 0x9abc)],
    );
    let t = decode_table(&sections, &buf);
    assert_eq!(t.records.len(), 3);
    assert_eq!(t.records[0].name, b"foo".to_vec());
    assert_eq!(t.records[0].crc, 0x1234);
    assert_eq!(t.records[0].offset, 32);
    assert_eq!(t.records[1].name, b"bar".to_vec());
    assert_eq!(t.records[1].offset, 32 + 64);
    assert_eq!(t.records[2].name, b"baz".to_vec());
    assert_eq!(t.records[2].offset, 32 + 128);
}

#[test]
fn decode_rejects_unaligned_size() {
    let (buf, mut sections) = image_with_records(32, &[record("foo", 1)]);
    sections[1].size = 65;
    // the image holds enough bytes past the section for the odd size
    assert!(matches!(
        decode_version_table(&sections, &buf),
        Err(DecodeError::MalformedTable)
    ));
}

#[test]
fn decode_rejects_section_past_end() {
    let (buf, mut sections) = image_with_records(32, &[record("foo", 1)]);
    sections[1].offset = buf.len() - 32; // 64-byte section no longer fits
    assert!(matches!(
        decode_version_table(&sections, &buf),
        Err(DecodeError::MalformedTable)
    ));
}

#[test]
fn decode_absent_section_is_not_an_error() {
    let buf = vec![0u8; 128];
    let sections = vec![SectionHeader {
        name: b".text".to_vec(),
        offset: 0,
        size: 4,
    }];
    assert!(matches!(
        decode_version_table(&sections, &buf),
        Ok(TableOutcome::Absent)
    ));
    let no_sections: Vec<SectionHeader> = Vec::new();
    assert!(matches!(
        decode_version_table(&no_sections, &buf),
        Ok(TableOutcome::Absent)
    ));
}

#[test]
fn decode_name_without_zero_byte_takes_whole_field() {
    let long = "x".repeat(56);
    let (buf, sections) = image_with_records(0, &[record(&long, 7)]);
    let t = decode_table(&sections, &buf);
    assert_eq!(t.records[0].name, long.as_bytes().to_vec());
}

#[test]
fn checksum_reencoding_reproduces_original_bytes() {
    let (buf, sections) = image_with_records(16, &[record("foo", 0xDEADBEEF01020304)]);
    let t = decode_table(&sections, &buf);
    let rec = &t.records[0];
    let mut copy = buf.clone();
    copy[rec.offset..rec.offset + 8].copy_from_slice(&rec.crc.to_le_bytes());
    assert_eq!(copy, buf);
}

#[test]
fn patch_from_source_copies_shared_and_keeps_rest() {
    let (mut buf, sections) = image_with_records(
        32,
        &[record("foo", 0xAAAAAAAAAAAAAAAA), record("bar", 0xBBBBBBBBBBBBBBBB)],
    );
    let (sbuf, ssections) = image_with_records(8, &[record("foo", 0xCCCCCCCCCCCCCCCC)]);
    let target = decode_table(&sections, &buf);
    let source = decode_table(&ssections, &sbuf);
    let before = buf.clone();
    assert!(target.in_bounds_of(buf.len()));
    apply_patch(&target, &mut buf, Some(&source), None).unwrap();
    assert_eq!(&buf[32..40], &0xCCCCCCCCCCCCCCCCu64.to_le_bytes());
    assert_eq!(&buf[96..104], &0xBBBBBBBBBBBBBBBBu64.to_le_bytes());
    // only foo's 8 checksum bytes changed
    let diff = buf
        .iter()
        .zip(before.iter())
        .filter(|(a, b)| a != b)
        .count();
    assert_eq!(diff, 8);
    for i in 0..buf.len() {
        if !(32..40).contains(&i) {
            assert_eq!(buf[i], before[i]);
        }
    }
}

#[test]
fn patch_diff_is_eight_bytes_per_patched_symbol() {
    let (mut buf, sections) = image_with_records(
        0,
        &[record("foo", 0x1111111111111111), record("bar", 0x1111111111111111)],
    );
    let (sbuf, ssections) = image_with_records(
        0,
        &[record("foo", 0xCCCCCCCCCCCCCCCC), record("bar", 0xDDDDDDDDDDDDDDDD)],
    );
    let target = decode_table(&sections, &buf);
    let source = decode_table(&ssections, &sbuf);
    let before = buf.clone();
    apply_patch(&target, &mut buf, Some(&source), None).unwrap();
    let diff = buf
        .iter()
        .zip(before.iter())
        .filter(|(a, b)| a != b)
        .count();
    assert_eq!(diff, 16);
}

#[test]
fn override_takes_precedence_over_source() {
    let (mut buf, sections) =
        image_with_records(32, &[record("module_layout", 0x1111111111111111)]);
    let (sbuf, ssections) =
        image_with_records(8, &[record("module_layout", 0xCCCCCCCCCCCCCCCC)]);
    let target = decode_table(&sections, &buf);
    let source = decode_table(&ssections, &sbuf);
    apply_patch(
        &target,
        &mut buf,
        Some(&source),
        Some(0x2222222222222222),
    )
    .unwrap();
    assert_eq!(&buf[32..40], &0x2222222222222222u64.to_le_bytes());
}

#[test]
fn override_without_module_layout_fails() {
    let (mut buf, sections) = image_with_records(0, &[record("foo", 1)]);
    let target = decode_table(&sections, &buf);
    let before = buf.clone();
    assert_eq!(
        apply_patch(&target, &mut buf, None, Some(0x2222222222222222)),
        Err(PatchError::MissingModuleLayout)
    );
    assert_eq!(buf, before);
}

#[test]
fn override_patches_record_at_offset_100() {
    let (mut buf, sections) =
        image_with_records(100, &[record("module_layout", 0x1111111111111111)]);
    let before = buf.clone();
    let target = decode_table(&sections, &buf);
    apply_patch(&target, &mut buf, None, Some(0x2222222222222222)).unwrap();
    assert_eq!(&buf[100..108], &[0x22u8; 8]);
    assert_eq!(buf.len(), before.len());
    for i in 0..buf.len() {
        if !(100..108).contains(&i) {
            assert_eq!(buf[i], before[i]);
        }
    }
}

#[test]
fn patch_without_source_and_without_override_changes_nothing() {
    let (mut buf, sections) = image_with_records(0, &[record("foo", 1)]);
    let target = decode_table(&sections, &buf);
    let before = buf.clone();
    apply_patch(&target, &mut buf, None, None).unwrap();
    assert_eq!(buf, before);
}

#[test]
fn table_get_prefers_latest_duplicate() {
    let (buf, sections) = image_with_records(
        0,
        &[record("dup", 0x00000000000000AA), record("dup", 0x00000000000000BB)],
    );
    let t = decode_table(&sections, &buf);
    let (crc, off) = t.get(b"dup").unwrap();
    assert_eq!(crc, 0xBB);
    assert_eq!(off, 64);
    assert!(t.get(b"absent").is_none());
}

#[test]
fn table_bounds_check_detects_overrun() {
    let t = VersionTable {
        records: vec![kmod_patch::records::VersionRecord {
            name: b"foo".to_vec(),
            crc: 1,
            offset: 100,
        }],
    };
    assert!(t.in_bounds_of(164));
    assert!(!t.in_bounds_of(163));
}
