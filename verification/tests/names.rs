use coff_section::section_table::{Error, SectionTable};

/// A record whose 8-byte name field holds `name`, followed by a string table
/// whose bytes are `table`. The string table begins right after the record,
/// at offset 40.
fn record_with_table(name: &[u8], table: &[u8]) -> Vec<u8> {
    assert!(name.len() <= 8);
    let mut buf = vec![0u8; 40];
    buf[..name.len()].copy_from_slice(name);
    buf.extend_from_slice(table);
    buf
}

#[test]
fn direct_name_is_trimmed_at_nul() {
    let buf = record_with_table(b".data\0\0\0", b"");
    let mut offset = 0usize;
    let t = SectionTable::parse(&buf, &mut offset, 40).unwrap();
    assert_eq!(t.real_name, None);
    assert_eq!(t.name().unwrap(), ".data");
}

#[test]
fn direct_name_may_use_all_eight_bytes() {
    let buf = record_with_table(b".abcdefg", b"");
    let mut offset = 0usize;
    let t = SectionTable::parse(&buf, &mut offset, 40).unwrap();
    assert_eq!(t.real_name, None);
    assert_eq!(t.name().unwrap(), ".abcdefg");
}

#[test]
fn decimal_index_resolves_from_string_table() {
    // String table bytes "\0\0\0\0section_name\0" and raw name "/4": the
    // resolved name starts 4 bytes after the string table base.
    let buf = record_with_table(b"/4\0\0\0\0\0\0", b"\0\0\0\0section_name\0");
    let mut offset = 0usize;
    let t = SectionTable::parse(&buf, &mut offset, 40).unwrap();
    assert_eq!(t.real_name.as_deref(), Some("section_name"));
    assert_eq!(t.name().unwrap(), "section_name");
}

#[test]
fn base64_index_resolves_from_string_table() {
    // "//AAAAAB" encodes index 1.
    let buf = record_with_table(b"//AAAAAB", b"x.debug_info\0");
    let mut offset = 0usize;
    let t = SectionTable::parse(&buf, &mut offset, 40).unwrap();
    assert_eq!(t.real_name.as_deref(), Some(".debug_info"));
    assert_eq!(t.name().unwrap(), ".debug_info");
}

#[test]
fn non_digit_in_decimal_index_is_malformed() {
    let buf = record_with_table(b"/12x\0\0\0\0", b"irrelevant\0");
    let mut offset = 0usize;
    let r = SectionTable::parse(&buf, &mut offset, 40);
    match r {
        Err(Error::Malformed(bytes)) => assert_eq!(bytes, b"12x".to_vec()),
        other => panic!("expected a malformed-name error, got {:?}", other),
    }
}

#[test]
fn empty_decimal_index_is_malformed() {
    let buf = record_with_table(b"/\0\0\0\0\0\0\0", b"irrelevant\0");
    let mut offset = 0usize;
    let r = SectionTable::parse(&buf, &mut offset, 40);
    match r {
        Err(Error::Malformed(bytes)) => assert_eq!(bytes, Vec::<u8>::new()),
        other => panic!("expected a malformed-name error, got {:?}", other),
    }
}

#[test]
fn bad_alphabet_byte_in_base64_index_is_malformed() {
    let buf = record_with_table(b"//AA!A\0\0", b"irrelevant\0");
    let mut offset = 0usize;
    let r = SectionTable::parse(&buf, &mut offset, 40);
    match r {
        Err(Error::Malformed(bytes)) => assert_eq!(bytes, b"AA!A".to_vec()),
        other => panic!("expected a malformed-name error, got {:?}", other),
    }
}

#[test]
fn index_past_string_table_is_out_of_bounds() {
    let buf = record_with_table(b"/100\0\0\0\0", b"short\0");
    let mut offset = 0usize;
    let r = SectionTable::parse(&buf, &mut offset, 40);
    assert!(matches!(r, Err(Error::OutOfBounds)));
}

#[test]
fn missing_terminator_is_out_of_bounds() {
    // The indexed string runs to the end of the buffer without a NUL.
    let buf = record_with_table(b"/0\0\0\0\0\0\0", b"unterminated");
    let mut offset = 0usize;
    let r = SectionTable::parse(&buf, &mut offset, 40);
    assert!(matches!(r, Err(Error::OutOfBounds)));
}

#[test]
fn non_ascii_table_string_is_malformed() {
    let buf = record_with_table(b"/0\0\0\0\0\0\0", &[0xC3, 0xA9, 0x00]);
    let mut offset = 0usize;
    let r = SectionTable::parse(&buf, &mut offset, 40);
    match r {
        Err(Error::Malformed(bytes)) => assert_eq!(bytes, vec![0xC3, 0xA9]),
        other => panic!("expected a malformed-name error, got {:?}", other),
    }
}

#[test]
fn utf8_direct_name_is_returned_as_text() {
    // 0xC3 0xA9 is the two-byte UTF-8 encoding of e-acute: valid text.
    let buf = record_with_table(&[0xC3, 0xA9, 0, 0, 0, 0, 0, 0], b"");
    let mut offset = 0usize;
    let t = SectionTable::parse(&buf, &mut offset, 40).unwrap();
    assert_eq!(t.real_name, None);
    assert_eq!(t.name().unwrap(), "\u{e9}");
}

#[test]
fn invalid_utf8_direct_name_is_encoding_error() {
    // 0xFF can begin no UTF-8 sequence.
    let buf = record_with_table(&[0xFF, 0xFE, 0, 0, 0, 0, 0, 0], b"");
    let mut offset = 0usize;
    let t = SectionTable::parse(&buf, &mut offset, 40).unwrap();
    assert_eq!(t.real_name, None);
    match t.name() {
        Err(Error::Encoding(bytes)) => assert_eq!(bytes, vec![0xFF, 0xFE]),
        other => panic!("expected an encoding error, got {:?}", other),
    }
}

#[test]
fn empty_base64_index_resolves_to_index_zero() {
    let buf = record_with_table(b"//\0\0\0\0\0\0", b"at_base\0");
    let mut offset = 0usize;
    let t = SectionTable::parse(&buf, &mut offset, 40).unwrap();
    assert_eq!(t.real_name.as_deref(), Some("at_base"));
}
