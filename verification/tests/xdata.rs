use acadrust::types::Handle;
use acadrust::xdata::{ExtendedData, ExtendedDataRecord, XDataValue};

fn record(name: &str, value: i16) -> ExtendedDataRecord {
    let mut r = ExtendedDataRecord::new(name);
    r.values.push(XDataValue::Integer16(value));
    r
}

#[test]
fn records_are_found_ignoring_case() {
    let mut data = ExtendedData::new();
    assert_eq!(data.find_record("ACAD"), None);
    data.add_record(record("ACAD", 1));
    data.add_record(record("MyApp", 2));
    data.add_record(record("acad", 3));
    assert_eq!(data.find_record("acad"), Some(0));
    assert_eq!(data.find_record("MYAPP"), Some(1));
    assert_eq!(data.find_record("Other"), None);
    assert_eq!(data.records().len(), 3);
}

#[test]
fn upsert_replaces_the_first_record_of_the_application() {
    let mut data = ExtendedData::new();
    data.add_record(record("ACAD", 1));
    data.add_record(record("MyApp", 2));
    data.upsert_record(record("myapp", 9));
    assert_eq!(data.records().len(), 2);
    assert_eq!(data.records()[1].application_name, "myapp");
    assert_eq!(data.records()[1].values, vec![XDataValue::Integer16(9)]);
    assert_eq!(data.records()[0].values, vec![XDataValue::Integer16(1)]);

    let mut h = ExtendedDataRecord::new("Links");
    h.values.push(XDataValue::Handle(Handle(0x2a)));
    data.upsert_record(h.clone());
    assert_eq!(data.records().len(), 3);
    assert_eq!(data.find_record("LINKS"), Some(2));
    assert_eq!(data.records()[2], h);
}
