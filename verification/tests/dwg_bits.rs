use acadrust::dwg_bits::DwgBitReader;
use acadrust::dwg_bit_writer::DwgBitWriter;
use acadrust::field::{read_field_list, write_field_list, DwgMergedReader, FieldList};
use acadrust::types::Handle;

#[test]
fn bits_read_most_significant_first() {
    let mut r = DwgBitReader::new(vec![0b1010_0000, 0xFF]);
    assert!(r.read_bit());
    assert!(!r.read_bit());
    assert_eq!(r.read_bits(4), 0b1000);
    assert_eq!(r.read_raw_char(), 0x3F);
    assert_eq!(r.pos, 14);
}

#[test]
fn bit_short_codes() {
    // 01 + byte 7, then 10 (zero), then 11 (256)
    let mut r = DwgBitReader::new(vec![0b0100_0001, 0b1110_1100]);
    assert_eq!(r.read_bit_short(), 7);
    assert_eq!(r.read_bit_short(), 0);
    assert_eq!(r.read_bit_short(), 256);
    assert_eq!(r.pos, 14);
}

#[test]
fn bit_short_raw_is_little_endian_and_signed() {
    // 00 + 0x34 0x12, then 00 + 0xFF 0xFF
    let mut r = DwgBitReader::new(vec![0x0D, 0x04, 0x8F, 0xFF, 0xF0]);
    assert_eq!(r.read_bit_short(), 0x1234);
    assert_eq!(r.read_bit_short(), -1);
}

#[test]
fn bit_long_raw_minus_one() {
    let mut r = DwgBitReader::new(vec![0x3F, 0xFF, 0xFF, 0xFF, 0xC0]);
    assert_eq!(r.read_bit_long(), -1);
    assert_eq!(r.pos, 34);
}

#[test]
fn bit_double_codes_give_bit_patterns() {
    // 01 (1.0), 10 (0.0)
    let mut r = DwgBitReader::new(vec![0b0110_0000]);
    assert_eq!(r.read_bit_double_bits(), 1.0f64.to_bits());
    assert_eq!(r.read_bit_double_bits(), 0.0f64.to_bits());
    // 00 + the eight little-endian bytes of 2.5
    let bytes = 2.5f64.to_bits().to_le_bytes();
    let mut data = Vec::new();
    let mut acc: u16 = 0;
    let mut have: u32 = 2;
    for b in bytes {
        acc = (acc << 8) | b as u16;
        have += 8;
        while have >= 8 {
            data.push((acc >> (have - 8)) as u8);
            have -= 8;
            acc &= (1u16 << have) - 1;
        }
    }
    data.push((acc << (8 - have)) as u8);
    let mut r = DwgBitReader::new(data);
    assert_eq!(r.read_bit_double_bits(), 2.5f64.to_bits());
    assert_eq!(r.pos, 66);
}

#[test]
fn handle_references() {
    // code 5, one byte 0x1F; code 3, two bytes 0x01 0x02; code 6 (next)
    let mut r = DwgBitReader::new(vec![0x51, 0x1F, 0x32, 0x01, 0x02, 0x60]);
    assert_eq!(r.read_handle_reference(0), 0x1F);
    assert_eq!(r.read_handle_reference(0), 0x102);
    assert_eq!(r.read_handle_reference(0x40), 0x41);
    // code 12: reference less the offset
    let mut r = DwgBitReader::new(vec![0xC1, 0x02]);
    assert_eq!(r.read_handle_reference(0x40), 0x3E);
}

#[test]
fn reading_past_the_end_gives_zero() {
    let mut r = DwgBitReader::new(vec![]);
    assert!(!r.read_bit());
    assert_eq!(r.read_bit_long(), 0);
    assert_eq!(r.read_handle_reference(0), 0);
    assert_eq!(r.pos, 0);
}

#[test]
fn field_list_reads_count_flag_and_handles() {
    let mut reader = DwgMergedReader::new(vec![0x40, 0xA0], vec![0x51, 0x1F, 0x32, 0x01, 0x02]);
    let list = read_field_list(&mut reader);
    assert!(list.unknown);
    assert_eq!(list.fields, vec![Handle(0x1F), Handle(0x102)]);
    assert_eq!(reader.main.pos, 11);
    assert_eq!(reader.handles.pos, 40);
}

#[test]
fn field_list_negative_count_reads_no_handles() {
    let mut reader = DwgMergedReader::new(vec![0x3F, 0xFF, 0xFF, 0xFF, 0xE0], vec![0x51, 0x1F]);
    let list = read_field_list(&mut reader);
    assert!(list.unknown);
    assert!(list.fields.is_empty());
    assert_eq!(reader.handles.pos, 0);
}

#[test]
fn written_bit_longs_read_back() {
    let values = [0, 1, 255, 256, -1, i32::MIN, i32::MAX, 0x1234_5678];
    let mut w = DwgBitWriter::new();
    for v in values {
        w.write_bit_long(v);
    }
    // zero takes two bits, a byte-sized value ten, any other thirty-four
    assert_eq!(w.len, 2 + 10 + 10 + 34 * 5);
    let mut r = DwgBitReader::new(w.data.clone());
    for v in values {
        assert_eq!(r.read_bit_long(), v);
    }
}

#[test]
fn written_handles_have_the_expected_bytes() {
    let mut w = DwgBitWriter::new();
    w.write_handle(5, 0x1F);
    w.write_handle(3, 0x102);
    w.write_handle(4, 0);
    assert_eq!(w.data, vec![0x51, 0x1F, 0x32, 0x01, 0x02, 0x40]);
    assert_eq!(w.len, 48);
}

#[test]
fn written_field_list_reads_back() {
    let list = FieldList { unknown: true, fields: vec![Handle(0x1F), Handle(0xABCDEF), Handle(u64::MAX)] };
    let mut main = DwgBitWriter::new();
    let mut handles = DwgBitWriter::new();
    main.write_bit(false);
    write_field_list(&list, &mut main, &mut handles);
    let mut reader = DwgMergedReader::new(main.data.clone(), handles.data.clone());
    assert!(!reader.read_bit());
    let back = read_field_list(&mut reader);
    assert_eq!(back.unknown, list.unknown);
    assert_eq!(back.fields, list.fields);
    assert_eq!(reader.main.pos, main.len);
    assert_eq!(reader.handles.pos, handles.len);
}
