//! Settings of the DXF reader.
use vstd::prelude::*;

use crate::code_page::{code_page_encoding, legacy_encoding_for_code_page, LegacyEncoding};
use crate::text::{owned, push_text, same_text};

verus! {

/// Configuration for the DXF reader.
#[derive(Clone, Debug)]
pub struct DxfReaderConfiguration {
    /// When set, errors within individual entities, objects or sections are
    /// reported as notifications instead of ending the read.
    pub failsafe: bool,
    /// The code page of drawings before AC1021 that do not name one with
    /// `$DWGCODEPAGE`.
    pub default_encoding: Option<String>,
}

impl Default for DxfReaderConfiguration {
    /// Strict reading, no default code page.
    fn default() -> (r: Self)
        ensures
            !r.failsafe,
            r.default_encoding is None,
    {
        DxfReaderConfiguration { failsafe: false, default_encoding: None }
    }
}

/// The encoding a configuration makes the reader start with: the one its
/// default code page selects, if it names one that needs transcoding.
pub open spec fn configured_encoding(c: DxfReaderConfiguration) -> Option<LegacyEncoding> {
    match c.default_encoding {
        Some(name) => code_page_encoding(name@),
        None => None,
    }
}

impl DxfReaderConfiguration {
    /// The encoding the reader starts with under this configuration.
    pub fn starting_encoding(&self) -> (r: Option<LegacyEncoding>)
        ensures
            r == configured_encoding(*self),
    {
        match &self.default_encoding {
            Some(name) => legacy_encoding_for_code_page(name.as_str()),
            None => None,
        }
    }
}

/// What the reader expects next from the stream of group codes and values.
#[derive(Clone, Copy, Debug, PartialEq, Eq, Structural)]
pub enum ReadPhase {
    /// The next record (a `SECTION` or the `EOF` marker).
    Records,
    /// The name of the section just opened.
    SectionName,
    /// Nothing: the read has ended.
    Done,
}

/// The kind of section a section name selects.
#[derive(Clone, Copy, Debug, PartialEq, Eq, Structural)]
pub enum SectionKind {
    Header,
    Classes,
    Tables,
    Blocks,
    Entities,
    Objects,
    AcdsData,
    ThumbnailImage,
    Other,
}

/// Where a problem was noticed.
#[derive(Clone, Copy, Debug, PartialEq, Eq, Structural)]
pub enum ReadStage {
    RecordStream,
    Section,
}

/// The kind of a notification.
#[derive(Clone, Copy, Debug, PartialEq, Eq, Structural)]
pub enum NoticeKind {
    Error,
    NotImplemented,
}

/// The progress of a read: what comes next and the source statistics.
#[derive(Clone, Copy, Debug, PartialEq, Eq, Structural)]
pub struct ReadProgress {
    pub failsafe: bool,
    pub phase: ReadPhase,
    pub source_sections: usize,
    pub source_records: usize,
    pub decoded_source_records: usize,
    pub skipped_source_records: usize,
    pub record_stream_read: bool,
    pub stream_completed: bool,
}

/// What happened since the last step.
#[derive(Clone, Debug)]
pub enum ReadEvent {
    /// A group code and its value were read.
    PairRead { code: i32, value: String },
    /// The stream has no more pairs.
    StreamEnded,
    /// Reading the stream failed, with the error's text.
    ReadFailed { message: String },
    /// The reader of a section finished: the records it decoded, and the
    /// error's text if it failed.
    SectionRead { name: String, decoded: usize, error: Option<String> },
}

/// What to do next.
#[derive(Clone, Debug, PartialEq, Eq)]
pub enum ReadAction {
    /// Read the next pair.
    ReadPair,
    /// Run the reader of the section with this name (or skip it) and report
    /// how that went.
    ReadSection { name: String, kind: SectionKind },
    /// Skip to the end of the current section, then read the next pair.
    SkipSection,
    /// The read is over: the statistics are final.
    Stop,
    /// The read fails with this message.
    Fail { message: String },
}

/// A notification, with the diagnostic that goes with it.
#[derive(Clone, Debug, PartialEq, Eq)]
pub struct ReadNotice {
    pub kind: NoticeKind,
    pub message: String,
    /// The diagnostic's code and stage, where one is recorded.
    pub diagnostic: Option<(String, ReadStage)>,
    /// The section the diagnostic is about.
    pub section: Option<String>,
}

/// The content of a [`ReadEvent`].
pub enum EventView {
    PairRead { code: i32, value: Seq<char> },
    StreamEnded,
    ReadFailed { message: Seq<char> },
    SectionRead { name: Seq<char>, decoded: usize, error: Option<Seq<char>> },
}

impl View for ReadEvent {
    type V = EventView;

    open spec fn view(&self) -> EventView {
        match self {
            ReadEvent::PairRead { code, value } => EventView::PairRead { code: *code, value: value@ },
            ReadEvent::StreamEnded => EventView::StreamEnded,
            ReadEvent::ReadFailed { message } => EventView::ReadFailed { message: message@ },
            ReadEvent::SectionRead { name, decoded, error } => EventView::SectionRead {
                name: name@,
                decoded: *decoded,
                error: match error {
                    Some(e) => Some(e@),
                    None => None,
                },
            },
        }
    }
}

/// The content of a [`ReadAction`].
pub enum ActionView {
    ReadPair,
    ReadSection { name: Seq<char>, kind: SectionKind },
    SkipSection,
    Stop,
    Fail { message: Seq<char> },
}

impl View for ReadAction {
    type V = ActionView;

    open spec fn view(&self) -> ActionView {
        match self {
            ReadAction::ReadPair => ActionView::ReadPair,
            ReadAction::ReadSection { name, kind } => ActionView::ReadSection { name: name@, kind: *kind },
            ReadAction::SkipSection => ActionView::SkipSection,
            ReadAction::Stop => ActionView::Stop,
            ReadAction::Fail { message } => ActionView::Fail { message: message@ },
        }
    }
}

/// The content of a [`ReadNotice`].
pub struct NoticeView {
    pub kind: NoticeKind,
    pub message: Seq<char>,
    pub diagnostic: Option<(Seq<char>, ReadStage)>,
    pub section: Option<Seq<char>>,
}

impl View for ReadNotice {
    type V = NoticeView;

    open spec fn view(&self) -> NoticeView {
        NoticeView {
            kind: self.kind,
            message: self.message@,
            diagnostic: match self.diagnostic {
                Some((c, st)) => Some((c@, st)),
                None => None,
            },
            section: match self.section {
                Some(s) => Some(s@),
                None => None,
            },
        }
    }
}

/// The kind of section a name selects (names compared exactly).
pub open spec fn section_kind(name: Seq<char>) -> SectionKind {
    if name == "HEADER"@ {
        SectionKind::Header
    } else if name == "CLASSES"@ {
        SectionKind::Classes
    } else if name == "TABLES"@ {
        SectionKind::Tables
    } else if name == "BLOCKS"@ {
        SectionKind::Blocks
    } else if name == "ENTITIES"@ {
        SectionKind::Entities
    } else if name == "OBJECTS"@ {
        SectionKind::Objects
    } else if name == "ACDSDATA"@ {
        SectionKind::AcdsData
    } else if name == "THUMBNAILIMAGE"@ {
        SectionKind::ThumbnailImage
    } else {
        SectionKind::Other
    }
}

/// The section holds records of the drawing database.
pub open spec fn carries_records(k: SectionKind) -> bool {
    k == SectionKind::Tables || k == SectionKind::Blocks || k == SectionKind::Entities || k
        == SectionKind::Objects || k == SectionKind::AcdsData
}

/// A notification of kind error with a diagnostic.
pub open spec fn error_notice(message: Seq<char>, code: Seq<char>, stage: ReadStage, section: Option<
    Seq<char>,
>) -> NoticeView {
    NoticeView { kind: NoticeKind::Error, message, diagnostic: Some((code, stage)), section }
}

/// `p` in phase `phase`.
pub open spec fn in_phase(p: ReadProgress, phase: ReadPhase) -> ReadProgress {
    ReadProgress { phase, ..p }
}

/// The read may end early after a failure: failsafe mode, and some records
/// were decoded.
pub open spec fn may_end_early(p: ReadProgress) -> bool {
    p.failsafe && p.decoded_source_records > 0
}

/// One step of a read: from the progress and what happened, the next
/// progress, what to do, and what to report.
pub open spec fn read_step(p: ReadProgress, e: EventView) -> (ReadProgress, ActionView, Option<NoticeView>) {
    match p.phase {
        ReadPhase::Done => (p, ActionView::Stop, None),
        ReadPhase::Records => match e {
            EventView::PairRead { code, value } => if code == 0 && value == "SECTION"@ {
                (in_phase(p, ReadPhase::SectionName), ActionView::ReadPair, None)
            } else if code == 0 && value == "EOF"@ {
                (
                    ReadProgress { phase: ReadPhase::Done, stream_completed: true, ..p },
                    ActionView::Stop,
                    None,
                )
            } else {
                (p, ActionView::ReadPair, None)
            },
            EventView::StreamEnded => if may_end_early(p) {
                (
                    in_phase(p, ReadPhase::Done),
                    ActionView::Stop,
                    Some(
                        error_notice(
                            "Drawing stream ended before the EOF marker"@,
                            "stream-ended-early"@,
                            ReadStage::RecordStream,
                            None,
                        ),
                    ),
                )
            } else {
                (
                    in_phase(p, ReadPhase::Done),
                    ActionView::Fail { message: "drawing stream ended before the EOF marker"@ },
                    None,
                )
            },
            EventView::ReadFailed { message } => if may_end_early(p) {
                (
                    in_phase(p, ReadPhase::Done),
                    ActionView::Stop,
                    Some(
                        error_notice(
                            "Error reading drawing stream: "@ + message,
                            "stream-read-failed"@,
                            ReadStage::RecordStream,
                            None,
                        ),
                    ),
                )
            } else {
                (in_phase(p, ReadPhase::Done), ActionView::Fail { message }, None)
            },
            EventView::SectionRead { name, decoded, error } => {
                let k = section_kind(name);
                let q = ReadProgress {
                    decoded_source_records: p.decoded_source_records.saturating_add(decoded),
                    source_sections: if carries_records(k) {
                        p.source_sections.saturating_add(1)
                    } else {
                        p.source_sections
                    },
                    record_stream_read: p.record_stream_read || carries_records(k),
                    source_records: if carries_records(k) {
                        p.source_records.saturating_add(decoded)
                    } else {
                        p.source_records
                    },
                    ..p
                };
                match error {
                    None => (q, ActionView::ReadPair, None),
                    Some(m) => if p.failsafe {
                        (
                            ReadProgress {
                                skipped_source_records: q.skipped_source_records.saturating_add(1),
                                ..q
                            },
                            ActionView::SkipSection,
                            Some(
                                error_notice(
                                    "Error reading "@ + name + " section: "@ + m,
                                    "section-read-failed"@,
                                    ReadStage::Section,
                                    Some(name),
                                ),
                            ),
                        )
                    } else {
                        (in_phase(q, ReadPhase::Done), ActionView::Fail { message: m }, None)
                    },
                }
            },
        },
        ReadPhase::SectionName => match e {
            EventView::PairRead { code, value } => if code == 2 {
                let k = section_kind(value);
                (
                    in_phase(p, ReadPhase::Records),
                    ActionView::ReadSection { name: value, kind: k },
                    if k == SectionKind::ThumbnailImage {
                        Some(
                            NoticeView {
                                kind: NoticeKind::NotImplemented,
                                message: "THUMBNAILIMAGE section skipped"@,
                                diagnostic: None,
                                section: None,
                            },
                        )
                    } else {
                        None
                    },
                )
            } else {
                (in_phase(p, ReadPhase::Records), ActionView::ReadPair, None)
            },
            EventView::StreamEnded => if may_end_early(p) {
                (
                    in_phase(p, ReadPhase::Done),
                    ActionView::Stop,
                    Some(
                        error_notice(
                            "Drawing stream ended before the section name"@,
                            "section-name-missing"@,
                            ReadStage::Section,
                            None,
                        ),
                    ),
                )
            } else {
                (
                    in_phase(p, ReadPhase::Done),
                    ActionView::Fail { message: "drawing stream ended before the section name"@ },
                    None,
                )
            },
            EventView::ReadFailed { message } => if may_end_early(p) {
                (
                    in_phase(p, ReadPhase::Done),
                    ActionView::Stop,
                    Some(
                        error_notice(
                            "Error reading section name: "@ + message,
                            "section-name-read-failed"@,
                            ReadStage::Section,
                            None,
                        ),
                    ),
                )
            } else {
                (in_phase(p, ReadPhase::Done), ActionView::Fail { message }, None)
            },
            EventView::SectionRead { .. } => (p, ActionView::ReadPair, None),
        },
    }
}

/// The kind of section a name selects.
pub fn section_kind_of(name: &str) -> (r: SectionKind)
    ensures
        r == section_kind(name@),
{
    if same_text(name, "HEADER") {
        SectionKind::Header
    } else if same_text(name, "CLASSES") {
        SectionKind::Classes
    } else if same_text(name, "TABLES") {
        SectionKind::Tables
    } else if same_text(name, "BLOCKS") {
        SectionKind::Blocks
    } else if same_text(name, "ENTITIES") {
        SectionKind::Entities
    } else if same_text(name, "OBJECTS") {
        SectionKind::Objects
    } else if same_text(name, "ACDSDATA") {
        SectionKind::AcdsData
    } else if same_text(name, "THUMBNAILIMAGE") {
        SectionKind::ThumbnailImage
    } else {
        SectionKind::Other
    }
}

fn carries_records_of(k: SectionKind) -> (r: bool)
    ensures
        r == carries_records(k),
{
    match k {
        SectionKind::Tables | SectionKind::Blocks | SectionKind::Entities | SectionKind::Objects
        | SectionKind::AcdsData => true,
        _ => false,
    }
}

/// `prefix` followed by `rest`.
fn joined(prefix: &str, rest: &str) -> (r: String)
    ensures
        r@ == prefix@ + rest@,
{
    let mut out = owned(prefix);
    push_text(&mut out, rest);
    out
}

fn error_notice_of(message: String, code: &str, stage: ReadStage, section: Option<String>) -> (r:
    ReadNotice)
    ensures
        r@ == error_notice(
            message@,
            code@,
            stage,
            match section {
                Some(s) => Some(s@),
                None => None,
            },
        ),
{
    ReadNotice { kind: NoticeKind::Error, message, diagnostic: Some((owned(code), stage)), section }
}

impl ReadProgress {
    /// The progress at the start of a read.
    pub fn start(config: &DxfReaderConfiguration) -> (r: Self)
        ensures
            r == (ReadProgress {
                failsafe: config.failsafe,
                phase: ReadPhase::Records,
                source_sections: 0,
                source_records: 0,
                decoded_source_records: 0,
                skipped_source_records: 0,
                record_stream_read: false,
                stream_completed: false,
            }),
    {
        ReadProgress {
            failsafe: config.failsafe,
            phase: ReadPhase::Records,
            source_sections: 0,
            source_records: 0,
            decoded_source_records: 0,
            skipped_source_records: 0,
            record_stream_read: false,
            stream_completed: false,
        }
    }

    /// One step of a read: update the progress for what happened and say
    /// what to do next and what to report.
    pub fn step(&mut self, event: ReadEvent) -> (r: (ReadAction, Option<ReadNotice>))
        ensures
            ({
                let (q, a, n) = read_step(*old(self), event@);
                &&& *final(self) == q
                &&& r.0@ == a
                &&& match r.1 {
                    Some(x) => n == Some(x@),
                    None => n is None,
                }
            }),
    {
        match self.phase {
            ReadPhase::Done => (ReadAction::Stop, None),
            ReadPhase::Records => match event {
                ReadEvent::PairRead { code, value } => {
                    if code == 0 && same_text(value.as_str(), "SECTION") {
                        self.phase = ReadPhase::SectionName;
                        (ReadAction::ReadPair, None)
                    } else if code == 0 && same_text(value.as_str(), "EOF") {
                        self.phase = ReadPhase::Done;
                        self.stream_completed = true;
                        (ReadAction::Stop, None)
                    } else {
                        (ReadAction::ReadPair, None)
                    }
                },
                ReadEvent::StreamEnded => {
                    self.phase = ReadPhase::Done;
                    if self.failsafe && self.decoded_source_records > 0 {
                        let notice = error_notice_of(
                            owned("Drawing stream ended before the EOF marker"),
                            "stream-ended-early",
                            ReadStage::RecordStream,
                            None,
                        );
                        (ReadAction::Stop, Some(notice))
                    } else {
                        (
                            ReadAction::Fail {
                                message: owned("drawing stream ended before the EOF marker"),
                            },
                            None,
                        )
                    }
                },
                ReadEvent::ReadFailed { message } => {
                    self.phase = ReadPhase::Done;
                    if self.failsafe && self.decoded_source_records > 0 {
                        let text = joined("Error reading drawing stream: ", message.as_str());
                        let notice = error_notice_of(
                            text,
                            "stream-read-failed",
                            ReadStage::RecordStream,
                            None,
                        );
                        (ReadAction::Stop, Some(notice))
                    } else {
                        (ReadAction::Fail { message }, None)
                    }
                },
                ReadEvent::SectionRead { name, decoded, error } => {
                    let kind = section_kind_of(name.as_str());
                    let records = carries_records_of(kind);
                    self.decoded_source_records = self.decoded_source_records.saturating_add(
                        decoded,
                    );
                    if records {
                        self.source_sections = self.source_sections.saturating_add(1);
                        self.record_stream_read = true;
                        self.source_records = self.source_records.saturating_add(decoded);
                    }
                    match error {
                        None => (ReadAction::ReadPair, None),
                        Some(m) => {
                            if self.failsafe {
                                self.skipped_source_records = self.skipped_source_records.saturating_add(
                                    1,
                                );
                                let mut text = joined("Error reading ", name.as_str());
                                push_text(&mut text, " section: ");
                                push_text(&mut text, m.as_str());
                                let notice = error_notice_of(
                                    text,
                                    "section-read-failed",
                                    ReadStage::Section,
                                    Some(name),
                                );
                                (ReadAction::SkipSection, Some(notice))
                            } else {
                                self.phase = ReadPhase::Done;
                                (ReadAction::Fail { message: m }, None)
                            }
                        },
                    }
                },
            },
            ReadPhase::SectionName => match event {
                ReadEvent::PairRead { code, value } => {
                    self.phase = ReadPhase::Records;
                    if code == 2 {
                        let kind = section_kind_of(value.as_str());
                        let notice = if kind == SectionKind::ThumbnailImage {
                            Some(
                                ReadNotice {
                                    kind: NoticeKind::NotImplemented,
                                    message: owned("THUMBNAILIMAGE section skipped"),
                                    diagnostic: None,
                                    section: None,
                                },
                            )
                        } else {
                            None
                        };
                        (ReadAction::ReadSection { name: value, kind }, notice)
                    } else {
                        (ReadAction::ReadPair, None)
                    }
                },
                ReadEvent::StreamEnded => {
                    self.phase = ReadPhase::Done;
                    if self.failsafe && self.decoded_source_records > 0 {
                        let notice = error_notice_of(
                            owned("Drawing stream ended before the section name"),
                            "section-name-missing",
                            ReadStage::Section,
                            None,
                        );
                        (ReadAction::Stop, Some(notice))
                    } else {
                        (
                            ReadAction::Fail {
                                message: owned("drawing stream ended before the section name"),
                            },
                            None,
                        )
                    }
                },
                ReadEvent::ReadFailed { message } => {
                    self.phase = ReadPhase::Done;
                    if self.failsafe && self.decoded_source_records > 0 {
                        let text = joined("Error reading section name: ", message.as_str());
                        let notice = error_notice_of(
                            text,
                            "section-name-read-failed",
                            ReadStage::Section,
                            None,
                        );
                        (ReadAction::Stop, Some(notice))
                    } else {
                        (ReadAction::Fail { message }, None)
                    }
                },
                ReadEvent::SectionRead { .. } => (ReadAction::ReadPair, None),
            },
        }
    }

    /// The number of source records the statistics report once the read is
    /// over: the decoded ones of record-carrying sections, and one for each
    /// section that failed.
    pub fn reported_source_records(&self) -> (r: usize)
        ensures
            r == self.source_records.saturating_add(self.skipped_source_records),
    {
        self.source_records.saturating_add(self.skipped_source_records)
    }
}

} // verus!

verus! {

/// A strict read (not failsafe) stops only at the `EOF` marker, with the
/// stream complete; a failure ends it with a failure, not a stop.
pub proof fn lemma_strict_read_stops_only_at_eof(p: ReadProgress, e: EventView)
    requires
        !p.failsafe,
        p.phase != ReadPhase::Done,
    ensures
        read_step(p, e).1 is Stop ==> read_step(p, e).0.stream_completed && (e matches EventView::PairRead { code, value } && code == 0 && value == "EOF"@),
{
}

/// The counts of a read never go down, a finished read stays finished,
/// and the mode never changes.
pub proof fn lemma_read_counts_grow(p: ReadProgress, e: EventView)
    ensures
        ({
            let q = read_step(p, e).0;
            &&& q.source_sections >= p.source_sections
            &&& q.source_records >= p.source_records
            &&& q.decoded_source_records >= p.decoded_source_records
            &&& q.skipped_source_records >= p.skipped_source_records
            &&& q.failsafe == p.failsafe
            &&& p.phase == ReadPhase::Done ==> q == p
            &&& p.stream_completed ==> q.stream_completed
        }),
{
}

} // verus!

verus! {

/// The bytes that open a binary DXF file: `AutoCAD Binary DXF`.
pub open spec fn binary_sentinel() -> Seq<u8> {
    seq![65u8, 117, 116, 111, 67, 65, 68, 32, 66, 105, 110, 97, 114, 121, 32, 68, 88, 70]
}

/// Whether the first bytes of a stream, of which `bytes_read` were read
/// into `buffer` (as long as the sentinel), mark a binary DXF file.
pub fn is_binary_prefix(buffer: &[u8], bytes_read: usize) -> (r: bool)
    ensures
        r == (bytes_read >= binary_sentinel().len() && buffer@ == binary_sentinel()),
{
    let sentinel: [u8; 18] = [65, 117, 116, 111, 67, 65, 68, 32, 66, 105, 110, 97, 114, 121, 32, 68, 88, 70];
    assert(sentinel@ == binary_sentinel());
    if bytes_read < 18 {
        return false;
    }
    if buffer.len() != 18 {
        return false;
    }
    let mut i: usize = 0;
    while i < 18
        invariant
            i <= 18,
            buffer@.len() == 18,
            sentinel@ == binary_sentinel(),
            forall|k: int| 0 <= k < i ==> buffer@[k] == binary_sentinel()[k],
        decreases 18 - i,
    {
        if buffer[i] != sentinel[i] {
            return false;
        }
        i = i + 1;
    }
    assert(buffer@ =~= binary_sentinel());
    true
}

/// The number of entities to make room for in a stream of `stream_size`
/// bytes: one per 300 bytes, at least 16.
pub fn estimated_entities(stream_size: u64) -> (r: usize)
    ensures
        r == if (stream_size as usize) / 300 > 16 {
            (stream_size as usize) / 300
        } else {
            16
        },
{
    let n = (stream_size as usize) / 300;
    if n > 16 {
        n
    } else {
        16
    }
}

} // verus!

verus! {

/// A DXF reader over the stream of group codes and values `S` (text or
/// binary): the stream, the configuration, and the number of entities to
/// make room for.
pub struct DxfReader<S> {
    reader: S,
    config: DxfReaderConfiguration,
    estimated_entities: usize,
}

impl<S> DxfReader<S> {
    pub closed spec fn stream(&self) -> S {
        self.reader
    }

    pub closed spec fn settings(&self) -> DxfReaderConfiguration {
        self.config
    }

    pub closed spec fn entity_estimate(&self) -> usize {
        self.estimated_entities
    }

    /// A reader over `reader` with the default configuration.
    pub fn new(reader: S, estimated_entities: usize) -> (r: Self)
        ensures
            r.stream() == reader,
            !r.settings().failsafe,
            r.settings().default_encoding is None,
            r.entity_estimate() == estimated_entities,
    {
        DxfReader { reader, config: DxfReaderConfiguration::default(), estimated_entities }
    }

    /// Set the reader configuration.
    pub fn with_configuration(self, config: DxfReaderConfiguration) -> (r: Self)
        ensures
            r.stream() == self.stream(),
            r.settings() == config,
            r.entity_estimate() == self.entity_estimate(),
    {
        DxfReader { reader: self.reader, config, estimated_entities: self.estimated_entities }
    }

    /// The reader's configuration.
    pub fn configuration(&self) -> (r: &DxfReaderConfiguration)
        ensures
            *r == self.settings(),
    {
        &self.config
    }

    /// The number of entities to make room for.
    pub fn estimated_entities(&self) -> (r: usize)
        ensures
            r == self.entity_estimate(),
    {
        self.estimated_entities
    }

    /// The progress of a read that starts now, under the reader's
    /// configuration.
    pub fn start_read(&self) -> (r: ReadProgress)
        ensures
            r.failsafe == self.settings().failsafe,
            r.phase == ReadPhase::Records,
            r.source_sections == 0 && r.source_records == 0,
            r.decoded_source_records == 0 && r.skipped_source_records == 0,
            !r.record_stream_read && !r.stream_completed,
    {
        ReadProgress::start(&self.config)
    }
}

} // verus!
