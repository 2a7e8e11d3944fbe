use acadrust::loft::{loft_curve_entries, loft_curves, loft_reference_entries, loft_references, EmbeddedBody};
use acadrust::objects::{XRecordEntry, XRecordValue};
use acadrust::types::Handle;

fn body(type_code: i32, bits: usize, fill: u8) -> EmbeddedBody {
    EmbeddedBody { type_code, bit_length: bits, bytes: vec![fill; (bits + 7) / 8] }
}

#[test]
fn references_round_trip() {
    let sections = [Handle(0x10), Handle(0x11)];
    let guides = [Handle(0x20)];
    let entries = loft_reference_entries(&sections, &guides, Some(Handle(0x30)));
    assert_eq!(entries.len(), 8);
    assert_eq!(entries[0], XRecordEntry::int32(90, 1));
    assert_eq!(entries[1], XRecordEntry::int32(91, 2));
    assert_eq!(entries[3], XRecordEntry::int32(93, 1));
    assert_eq!(entries[7], XRecordEntry::handle(330, Handle(0x30)));
    let (s, g, p) = loft_references(&entries).expect("references");
    assert_eq!(s, sections.to_vec());
    assert_eq!(g, guides.to_vec());
    assert_eq!(p, Some(Handle(0x30)));
}

#[test]
fn references_with_wrong_counts_are_refused() {
    let mut entries = loft_reference_entries(&[Handle(1)], &[], None);
    assert_eq!(loft_references(&entries), Some((vec![Handle(1)], vec![], None)));
    entries.push(XRecordEntry::handle(330, Handle(9)));
    assert_eq!(loft_references(&entries), None);
    let mut bad_format = loft_reference_entries(&[], &[], None);
    bad_format[0] = XRecordEntry::int32(90, 2);
    assert_eq!(loft_references(&bad_format), None);
    let mut negative = loft_reference_entries(&[], &[], None);
    negative[1] = XRecordEntry::int32(91, -1);
    assert_eq!(loft_references(&negative), None);
    assert_eq!(loft_references(&vec![]), None);
}

#[test]
fn curves_round_trip_with_chunking() {
    let sections = vec![body(17, 2000, 0xAB), body(18, 9, 0x01)];
    let guides = vec![body(19, 8 * 127, 0x7F)];
    let path = body(20, 1, 0x80);
    let entries = loft_curve_entries(&sections, &guides, Some(&path));
    // 250 bytes are split into chunks of 127 and 123 bytes.
    assert_eq!(entries[4].code, 310);
    match &entries[4].value {
        XRecordValue::Chunk(c) => assert_eq!(c.len(), 127),
        other => panic!("unexpected {:?}", other),
    }
    let (s, g, p) = loft_curves(&entries).expect("curves");
    assert_eq!(s, sections);
    assert_eq!(g, guides);
    assert_eq!(p, Some(path));
}

#[test]
fn curves_with_wrong_byte_count_are_refused() {
    let mut b = body(17, 16, 0xFF);
    b.bytes.push(0);
    let entries = loft_curve_entries(&[b], &[], None);
    assert_eq!(loft_curves(&entries), None);
    let entries = loft_curve_entries(&[], &[], Some(&body(1, 8, 1)));
    let mut doubled = entries.clone();
    doubled.extend(entries[1..].iter().cloned());
    assert_eq!(loft_curves(&doubled), None);
    assert_eq!(loft_curves(&vec![XRecordEntry::int32(90, 1)]), Some((vec![], vec![], None)));
}
