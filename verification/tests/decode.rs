use coff_section::section_table::{Error, SectionTable, SIZEOF_SECTION_TABLE};

/// A 40-byte record for a section named ".text" with distinctive field values.
fn fixture_record() -> Vec<u8> {
    let mut buf = Vec::new();
    buf.extend_from_slice(b".text\0\0\0");
    buf.extend_from_slice(&0x10u32.to_le_bytes()); // virtual_size
    buf.extend_from_slice(&0x1000u32.to_le_bytes()); // virtual_address
    buf.extend_from_slice(&0x1234u32.to_le_bytes()); // size_of_raw_data
    buf.extend_from_slice(&0x200u32.to_le_bytes()); // pointer_to_raw_data
    buf.extend_from_slice(&0x300u32.to_le_bytes()); // pointer_to_relocations
    buf.extend_from_slice(&0x400u32.to_le_bytes()); // pointer_to_linenumbers
    buf.extend_from_slice(&5u16.to_le_bytes()); // number_of_relocations
    buf.extend_from_slice(&7u16.to_le_bytes()); // number_of_linenumbers
    buf.extend_from_slice(&0x60000020u32.to_le_bytes()); // characteristics
    buf
}

#[test]
fn decode_reproduces_every_field() {
    let buf = fixture_record();
    assert_eq!(buf.len(), SIZEOF_SECTION_TABLE);
    let mut offset = 0usize;
    let t = SectionTable::parse(&buf, &mut offset, 0).unwrap();
    assert_eq!(t.name, *b".text\0\0\0");
    assert_eq!(t.real_name, None);
    assert_eq!(t.virtual_size, 0x10);
    assert_eq!(t.virtual_address, 0x1000);
    assert_eq!(t.size_of_raw_data, 0x1234);
    assert_eq!(t.pointer_to_raw_data, 0x200);
    assert_eq!(t.pointer_to_relocations, 0x300);
    assert_eq!(t.pointer_to_linenumbers, 0x400);
    assert_eq!(t.number_of_relocations, 5);
    assert_eq!(t.number_of_linenumbers, 7);
    assert_eq!(t.characteristics, 0x60000020);
    assert_eq!(offset, 40);
}

#[test]
fn decode_advances_cursor_from_nonzero_start() {
    let mut buf = vec![0xAAu8; 12];
    buf.extend_from_slice(&fixture_record());
    let mut offset = 12usize;
    let t = SectionTable::parse(&buf, &mut offset, 0).unwrap();
    assert_eq!(offset, 52);
    assert_eq!(t.virtual_size, 0x10);
    assert_eq!(t.characteristics, 0x60000020);
}

#[test]
fn fields_are_little_endian() {
    let mut buf = vec![0u8; 40];
    buf[8] = 0x01; // least significant byte of virtual_size
    buf[11] = 0x80; // most significant byte of virtual_size
    buf[32] = 0x02; // least significant byte of number_of_relocations
    buf[33] = 0x01;
    let mut offset = 0usize;
    let t = SectionTable::parse(&buf, &mut offset, 0).unwrap();
    assert_eq!(t.virtual_size, 0x80000001);
    assert_eq!(t.number_of_relocations, 0x0102);
}

#[test]
fn equal_records_decode_to_equal_entries() {
    let buf = fixture_record();
    let mut first_offset = 0usize;
    let first = SectionTable::parse(&buf, &mut first_offset, 0).unwrap();
    let mut second_offset = 0usize;
    let second = SectionTable::parse(&buf, &mut second_offset, 0).unwrap();
    assert_eq!(first, second);
    assert_ne!(first, SectionTable::default());
}

#[test]
fn default_entry_is_zeroed_with_blank_name() {
    let t = SectionTable::default();
    assert_eq!(t.name, [0u8; 8]);
    assert_eq!(t.real_name, None);
    assert_eq!(t.virtual_size, 0);
    assert_eq!(t.characteristics, 0);
    assert_eq!(t.name().unwrap(), "");
}

#[test]
fn short_buffer_is_out_of_bounds() {
    let buf = fixture_record();
    let mut offset = 0usize;
    let r = SectionTable::parse(&buf[..39], &mut offset, 0);
    assert!(matches!(r, Err(Error::OutOfBounds)));
}

#[test]
fn cursor_past_end_is_out_of_bounds() {
    let buf = fixture_record();
    let mut offset = 1usize;
    let r = SectionTable::parse(&buf, &mut offset, 0);
    assert!(matches!(r, Err(Error::OutOfBounds)));
}

#[test]
fn empty_buffer_is_out_of_bounds() {
    let buf: Vec<u8> = Vec::new();
    let mut offset = 0usize;
    let r = SectionTable::parse(&buf, &mut offset, 0);
    assert!(matches!(r, Err(Error::OutOfBounds)));
}
