use jinfu_search::ntfs::{
    is_deleted, is_directory, parse_usn_buffer, resolve_relative_paths, NtfsError, UsnRecord,
};

fn usn_v2_record(frn: u64, parent: u64, name: &str, attributes: u32) -> Vec<u8> {
    let utf16: Vec<u16> = name.encode_utf16().collect();
    let record_length = 60 + utf16.len() * 2;
    let mut record = vec![0_u8; record_length];
    record[0..4].copy_from_slice(&(record_length as u32).to_le_bytes());
    record[4..6].copy_from_slice(&2_u16.to_le_bytes());
    record[8..16].copy_from_slice(&frn.to_le_bytes());
    record[16..24].copy_from_slice(&parent.to_le_bytes());
    record[52..56].copy_from_slice(&attributes.to_le_bytes());
    record[56..58].copy_from_slice(&((utf16.len() * 2) as u16).to_le_bytes());
    record[58..60].copy_from_slice(&60_u16.to_le_bytes());
    for (index, unit) in utf16.into_iter().enumerate() {
        let start = 60 + index * 2;
        record[start..start + 2].copy_from_slice(&unit.to_le_bytes());
    }
    record
}

fn record(frn: u64, parent: u64, name: &str) -> UsnRecord {
    UsnRecord {
        file_reference_number: frn,
        parent_file_reference_number: parent,
        usn: 0,
        timestamp_filetime: 0,
        reason: 0,
        file_attributes: 0,
        name: name.to_owned(),
    }
}

#[test]
fn ntfs_usn_parser_resolves_variable_length_unicode_names() {
    let mut buffer = 99_i64.to_le_bytes().to_vec();
    buffer.extend(usn_v2_record(10, 5, "资料", 0x10));
    buffer.extend(usn_v2_record(11, 10, "季度报告.TXT", 0));

    let records = parse_usn_buffer(&buffer).unwrap();
    assert_eq!(records.len(), 2);
    assert_eq!(records[1].name, "季度报告.TXT");

    let paths = resolve_relative_paths(&records);
    assert_eq!(paths.get(&11).unwrap(), "资料/季度报告.TXT");
}

#[test]
fn ntfs_paths_ignore_the_sequence_bits_in_file_references() {
    const SEQUENCE: u64 = 7_u64 << 48;
    let mut buffer = 99_i64.to_le_bytes().to_vec();
    buffer.extend(usn_v2_record(SEQUENCE | 10, SEQUENCE | 5, "资料", 0x10));
    buffer.extend(usn_v2_record(
        SEQUENCE | 11,
        SEQUENCE | 10,
        "金福验收.pdf",
        0,
    ));

    let records = parse_usn_buffer(&buffer).unwrap();
    let paths = resolve_relative_paths(&records);

    assert_eq!(paths.get(&11).unwrap(), "资料/金福验收.pdf");
}

#[test]
fn written_records_are_read_up_to_their_sequence_bits() {
    let longest = "长".repeat(32_767);
    for (frn, parent, attributes, name) in [
        (0, 0, 0, ""),
        (10, 5, 0x10, "资料"),
        (u64::MAX, 7 << 48 | 9, u32::MAX, "a😀b"),
        (1 << 48, (1 << 48) - 1, 0x20, longest.as_str()),
    ] {
        let mut buffer = vec![0xff; 8];
        buffer.extend(usn_v2_record(frn, parent, name, attributes));
        assert_eq!(
            parse_usn_buffer(&buffer).unwrap(),
            vec![UsnRecord {
                file_attributes: attributes,
                ..record(frn & ((1 << 48) - 1), parent & ((1 << 48) - 1), name)
            }]
        );
    }
}

#[test]
fn every_field_of_a_record_is_read_from_its_place() {
    let mut raw = usn_v2_record(10, 5, "a", 0x21);
    raw[24..32].copy_from_slice(&(-7_i64).to_le_bytes());
    raw[32..40].copy_from_slice(&123_456_789_i64.to_le_bytes());
    raw[40..44].copy_from_slice(&0x8000_0200_u32.to_le_bytes());
    let mut buffer = vec![0_u8; 8];
    buffer.extend(raw);
    let records = parse_usn_buffer(&buffer).unwrap();
    assert_eq!(
        records,
        vec![UsnRecord {
            file_reference_number: 10,
            parent_file_reference_number: 5,
            usn: -7,
            timestamp_filetime: 123_456_789,
            reason: 0x8000_0200,
            file_attributes: 0x21,
            name: "a".to_owned(),
        }]
    );
    assert!(is_deleted(&records[0]));
    assert!(!is_directory(&records[0]));
}

#[test]
fn damaged_responses_are_reported() {
    assert_eq!(
        parse_usn_buffer(&[0; 7]).unwrap_err(),
        NtfsError::Malformed("缺少下一 USN")
    );
    assert_eq!(
        parse_usn_buffer(&[0; 10]).unwrap_err(),
        NtfsError::Malformed("USN 字段越界")
    );
    assert_eq!(
        parse_usn_buffer(&[0; 80]).unwrap_err(),
        NtfsError::Malformed("USN_RECORD_V2 长度不足")
    );

    let mut long = vec![0_u8; 8];
    long.extend(usn_v2_record(10, 5, "a", 0));
    long[8..12].copy_from_slice(&200_u32.to_le_bytes());
    assert_eq!(
        parse_usn_buffer(&long).unwrap_err(),
        NtfsError::Malformed("USN 记录超出缓冲区")
    );

    let mut version = vec![0_u8; 8];
    version.extend(usn_v2_record(10, 5, "a", 0));
    version[12..14].copy_from_slice(&3_u16.to_le_bytes());
    let error = parse_usn_buffer(&version).unwrap_err();
    assert_eq!(error, NtfsError::UnsupportedVersion(3));
    assert_eq!(error.message(), "不支持的 USN 主版本：3");

    let mut name = vec![0_u8; 8];
    name.extend(usn_v2_record(10, 5, "a", 0));
    name[8 + 56..8 + 58].copy_from_slice(&3_u16.to_le_bytes());
    let error = parse_usn_buffer(&name).unwrap_err();
    assert_eq!(error, NtfsError::Malformed("文件名范围无效"));
    assert_eq!(error.message(), "USN 缓冲区不完整：文件名范围无效");
}

#[test]
fn unpaired_surrogates_become_replacement_characters() {
    let mut raw = usn_v2_record(10, 5, "ab", 0);
    raw[60..62].copy_from_slice(&0xD800_u16.to_le_bytes());
    let mut buffer = vec![0_u8; 8];
    buffer.extend(raw);
    assert_eq!(parse_usn_buffer(&buffer).unwrap()[0].name, "\u{FFFD}b");
}

#[test]
fn records_without_a_way_to_the_root_have_no_path() {
    let records = vec![
        record(10, 11, "a"),
        record(11, 10, "b"),
        record(12, 99, "orphan"),
        record(13, 5, "top"),
        record(5, 5, "."),
    ];
    let paths = resolve_relative_paths(&records);
    assert_eq!(paths.len(), 1);
    assert_eq!(paths.get(&13).unwrap(), "top");
}

#[test]
fn the_last_record_of_a_number_names_it() {
    let records = vec![record(10, 5, "old"), record(11, 10, "x"), record(10, 5, "new")];
    let paths = resolve_relative_paths(&records);
    assert_eq!(paths.get(&11).unwrap(), "new/x");
}
