use acadrust::code_page::LegacyEncoding;
use acadrust::dxf_reader::{
    estimated_entities, is_binary_prefix, section_kind_of, DxfReader, DxfReaderConfiguration, NoticeKind, ReadAction, ReadEvent, ReadPhase,
    ReadProgress, ReadStage, SectionKind,
};

fn pair(code: i32, value: &str) -> ReadEvent {
    ReadEvent::PairRead { code, value: value.to_string() }
}

fn section(name: &str, decoded: usize, error: Option<&str>) -> ReadEvent {
    ReadEvent::SectionRead { name: name.to_string(), decoded, error: error.map(str::to_string) }
}

#[test]
fn configuration_defaults_and_encoding() {
    let config = DxfReaderConfiguration::default();
    assert!(!config.failsafe);
    assert_eq!(config.default_encoding, None);
    assert_eq!(config.starting_encoding(), None);
    let config = DxfReaderConfiguration { failsafe: true, default_encoding: Some("ANSI_1251".into()) };
    assert_eq!(config.starting_encoding(), Some(LegacyEncoding::Windows1251));
    let config = DxfReaderConfiguration { failsafe: false, default_encoding: Some("UTF-8".into()) };
    assert_eq!(config.starting_encoding(), None);
}

#[test]
fn a_complete_stream_reads_its_sections() {
    let mut p = ReadProgress::start(&DxfReaderConfiguration::default());
    assert_eq!(p.step(pair(0, "SECTION")).0, ReadAction::ReadPair);
    assert_eq!(p.phase, ReadPhase::SectionName);
    assert_eq!(
        p.step(pair(2, "ENTITIES")).0,
        ReadAction::ReadSection { name: "ENTITIES".into(), kind: SectionKind::Entities }
    );
    assert_eq!(p.step(section("ENTITIES", 12, None)).0, ReadAction::ReadPair);
    assert_eq!(p.step(pair(0, "SECTION")).0, ReadAction::ReadPair);
    assert_eq!(
        p.step(pair(2, "HEADER")).0,
        ReadAction::ReadSection { name: "HEADER".into(), kind: SectionKind::Header }
    );
    assert_eq!(p.step(section("HEADER", 0, None)).0, ReadAction::ReadPair);
    assert_eq!(p.step(pair(999, "comment")).0, ReadAction::ReadPair);
    assert_eq!(p.step(pair(0, "EOF")).0, ReadAction::Stop);
    assert!(p.stream_completed);
    assert_eq!(p.source_sections, 1);
    assert_eq!(p.source_records, 12);
    assert_eq!(p.decoded_source_records, 12);
    assert!(p.record_stream_read);
    assert_eq!(p.reported_source_records(), 12);
    assert_eq!(p.step(pair(0, "SECTION")).0, ReadAction::Stop);
}

#[test]
fn strict_reads_fail_where_failsafe_reads_stop() {
    let mut strict = ReadProgress::start(&DxfReaderConfiguration::default());
    let (action, notice) = strict.step(ReadEvent::StreamEnded);
    assert_eq!(action, ReadAction::Fail { message: "drawing stream ended before the EOF marker".into() });
    assert!(notice.is_none());

    let config = DxfReaderConfiguration { failsafe: true, default_encoding: None };
    let mut lenient = ReadProgress::start(&config);
    // Nothing decoded yet: a failsafe read still fails.
    let (action, _) = lenient.clone().step(ReadEvent::ReadFailed { message: "io".into() });
    assert_eq!(action, ReadAction::Fail { message: "io".into() });
    lenient.step(pair(0, "SECTION"));
    lenient.step(pair(2, "TABLES"));
    lenient.step(section("TABLES", 3, None));
    let (action, notice) = lenient.step(ReadEvent::ReadFailed { message: "bad byte".into() });
    assert_eq!(action, ReadAction::Stop);
    let notice = notice.unwrap();
    assert_eq!(notice.kind, NoticeKind::Error);
    assert_eq!(notice.message, "Error reading drawing stream: bad byte");
    assert_eq!(notice.diagnostic, Some(("stream-read-failed".to_string(), ReadStage::RecordStream)));
    assert!(!lenient.stream_completed);
}

#[test]
fn failed_sections_are_skipped_in_failsafe_mode() {
    let config = DxfReaderConfiguration { failsafe: true, default_encoding: None };
    let mut p = ReadProgress::start(&config);
    p.step(pair(0, "SECTION"));
    p.step(pair(2, "OBJECTS"));
    let (action, notice) = p.step(section("OBJECTS", 2, Some("broken dictionary")));
    assert_eq!(action, ReadAction::SkipSection);
    let notice = notice.unwrap();
    assert_eq!(notice.message, "Error reading OBJECTS section: broken dictionary");
    assert_eq!(notice.section, Some("OBJECTS".to_string()));
    assert_eq!(p.skipped_source_records, 1);
    assert_eq!(p.source_records, 2);
    assert_eq!(p.reported_source_records(), 3);

    let mut strict = ReadProgress::start(&DxfReaderConfiguration::default());
    strict.step(pair(0, "SECTION"));
    strict.step(pair(2, "OBJECTS"));
    let (action, _) = strict.step(section("OBJECTS", 0, Some("broken")));
    assert_eq!(action, ReadAction::Fail { message: "broken".into() });
}

#[test]
fn thumbnails_are_reported_and_names_compared_exactly() {
    let mut p = ReadProgress::start(&DxfReaderConfiguration::default());
    p.step(pair(0, "SECTION"));
    let (action, notice) = p.step(pair(2, "THUMBNAILIMAGE"));
    assert_eq!(action, ReadAction::ReadSection { name: "THUMBNAILIMAGE".into(), kind: SectionKind::ThumbnailImage });
    assert_eq!(notice.unwrap().kind, NoticeKind::NotImplemented);
    assert_eq!(section_kind_of("entities"), SectionKind::Other);
    assert_eq!(section_kind_of("ACDSDATA"), SectionKind::AcdsData);
    // A section opener not followed by a name goes back to records.
    let mut q = ReadProgress::start(&DxfReaderConfiguration::default());
    q.step(pair(0, "SECTION"));
    assert_eq!(q.step(pair(5, "1A")).0, ReadAction::ReadPair);
    assert_eq!(q.phase, ReadPhase::Records);
}

#[test]
fn binary_sentinel_and_entity_estimate() {
    let sentinel = b"AutoCAD Binary DXF".to_vec();
    assert!(is_binary_prefix(&sentinel, 18));
    assert!(!is_binary_prefix(&sentinel, 17));
    let text = b"  0\nSECTION\n  2\nHEA".to_vec();
    assert!(!is_binary_prefix(&text[..18], 18));
    let mut lower = sentinel.clone();
    lower[0] = b'a';
    assert!(!is_binary_prefix(&lower, 18));
    assert_eq!(estimated_entities(0), 16);
    assert_eq!(estimated_entities(4_799), 16);
    assert_eq!(estimated_entities(5_100), 17);
    assert_eq!(estimated_entities(3_000_000), 10_000);
}

#[test]
fn reader_keeps_stream_and_takes_configuration() {
    let reader = DxfReader::new(vec![(0, "SECTION".to_string())], 40);
    assert!(!reader.configuration().failsafe);
    assert_eq!(reader.estimated_entities(), 40);
    let config = DxfReaderConfiguration { failsafe: true, default_encoding: Some("ANSI_1251".to_string()) };
    let reader = reader.with_configuration(config);
    assert!(reader.configuration().failsafe);
    assert_eq!(reader.configuration().default_encoding.as_deref(), Some("ANSI_1251"));
    assert_eq!(reader.estimated_entities(), 40);
    let progress = reader.start_read();
    assert!(progress.failsafe);
    assert_eq!(progress.phase, ReadPhase::Records);
    assert_eq!(progress.reported_source_records(), 0);
}
