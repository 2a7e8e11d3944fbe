//! Non-graphical drawing objects: dictionaries and extension records
//! (XRecords) with their typed group-code entries.
use vstd::prelude::*;

use crate::types::Handle;

verus! {

/// A typed value of one XRecord entry.
#[derive(Clone, Debug, PartialEq, Eq)]
pub enum XRecordValue {
    Str(String),
    Int16(i16),
    Int32(i32),
    Int64(i64),
    Bool(bool),
    Handle(Handle),
    Chunk(Vec<u8>),
    /// A double, held as its IEEE-754 bit pattern.
    Real(u64),
}

impl XRecordValue {
    /// The value as a 32-bit integer (16- and 32-bit integers).
    pub open spec fn spec_as_i32(&self) -> Option<i32> {
        match self {
            XRecordValue::Int16(v) => Some(*v as i32),
            XRecordValue::Int32(v) => Some(*v),
            _ => None,
        }
    }

    pub fn as_i32(&self) -> (r: Option<i32>)
        ensures
            r == self.spec_as_i32(),
    {
        match self {
            XRecordValue::Int16(v) => Some(*v as i32),
            XRecordValue::Int32(v) => Some(*v),
            _ => None,
        }
    }

    pub fn as_bool(&self) -> (r: Option<bool>)
        ensures
            r == (match self {
                XRecordValue::Bool(b) => Some(*b),
                _ => None,
            }),
    {
        match self {
            XRecordValue::Bool(b) => Some(*b),
            _ => None,
        }
    }

    pub fn as_handle(&self) -> (r: Option<Handle>)
        ensures
            r == (match self {
                XRecordValue::Handle(h) => Some(*h),
                _ => None,
            }),
    {
        match self {
            XRecordValue::Handle(h) => Some(*h),
            _ => None,
        }
    }

    pub fn as_string(&self) -> (r: Option<&str>)
        ensures
            r matches Some(s) ==> (self matches XRecordValue::Str(t) && s@ == t@),
            r is None ==> !(self is Str),
    {
        match self {
            XRecordValue::Str(s) => Some(s.as_str()),
            _ => None,
        }
    }
}

/// The content of an XRecord value, with texts and chunks as sequences.
pub enum ValueView {
    Str(Seq<char>),
    Int16(i16),
    Int32(i32),
    Int64(i64),
    Bool(bool),
    Handle(Handle),
    Chunk(Seq<u8>),
    Real(u64),
}

impl View for XRecordValue {
    type V = ValueView;

    open spec fn view(&self) -> ValueView {
        match self {
            XRecordValue::Str(s) => ValueView::Str(s@),
            XRecordValue::Int16(v) => ValueView::Int16(*v),
            XRecordValue::Int32(v) => ValueView::Int32(*v),
            XRecordValue::Int64(v) => ValueView::Int64(*v),
            XRecordValue::Bool(b) => ValueView::Bool(*b),
            XRecordValue::Handle(h) => ValueView::Handle(*h),
            XRecordValue::Chunk(c) => ValueView::Chunk(c@),
            XRecordValue::Real(r) => ValueView::Real(*r),
        }
    }
}

/// The value as a 32-bit integer (16- and 32-bit integers).
pub open spec fn view_as_i32(v: ValueView) -> Option<i32> {
    match v {
        ValueView::Int16(x) => Some(x as i32),
        ValueView::Int32(x) => Some(x),
        _ => None,
    }
}

/// The content of an XRecord entry.
pub struct EntryView {
    pub code: i32,
    pub value: ValueView,
}

/// The contents of a list of entries.
pub open spec fn entries_view(es: Seq<XRecordEntry>) -> Seq<EntryView> {
    es.map_values(|e: XRecordEntry| EntryView { code: e.code, value: e.value@ })
}

/// One group-code / value pair of an XRecord.
#[derive(Clone, Debug, PartialEq, Eq)]
pub struct XRecordEntry {
    pub code: i32,
    pub value: XRecordValue,
}

impl XRecordEntry {
    pub fn int16(code: i32, value: i16) -> (r: Self)
        ensures
            r.code == code,
            r.value == XRecordValue::Int16(value),
    {
        XRecordEntry { code, value: XRecordValue::Int16(value) }
    }

    pub fn int32(code: i32, value: i32) -> (r: Self)
        ensures
            r.code == code,
            r.value == XRecordValue::Int32(value),
    {
        XRecordEntry { code, value: XRecordValue::Int32(value) }
    }

    pub fn bool(code: i32, value: bool) -> (r: Self)
        ensures
            r.code == code,
            r.value == XRecordValue::Bool(value),
    {
        XRecordEntry { code, value: XRecordValue::Bool(value) }
    }

    pub fn handle(code: i32, value: Handle) -> (r: Self)
        ensures
            r.code == code,
            r.value == XRecordValue::Handle(value),
    {
        XRecordEntry { code, value: XRecordValue::Handle(value) }
    }

    pub fn string(code: i32, value: &str) -> (r: Self)
        ensures
            r.code == code,
            r.value matches XRecordValue::Str(s) && s@ == value@,
    {
        XRecordEntry { code, value: XRecordValue::Str(String::from_str(value)) }
    }
}

/// How a dictionary entry behaves when it is cloned into another drawing.
#[derive(Clone, Copy, Debug, PartialEq, Eq, Structural)]
pub enum DictionaryCloningFlags {
    NotApplicable,
    KeepExisting,
    UseClone,
    XrefValueName,
    ValueName,
    UnmangleName,
}

/// An extension record: a list of group-code values owned by a dictionary.
#[derive(Clone, Debug, PartialEq, Eq)]
pub struct XRecord {
    pub handle: Handle,
    pub owner: Handle,
    pub reactors: Vec<Handle>,
    pub name: String,
    pub cloning_flags: DictionaryCloningFlags,
    pub entries: Vec<XRecordEntry>,
    /// Verbatim bytes kept from a binary source, re-emitted on save.
    pub raw_data: Vec<u8>,
}

impl XRecord {
    /// An empty record with the given name.
    pub fn named(name: &str) -> (r: Self)
        ensures
            r.name@ == name@,
            r.entries@.len() == 0,
            r.handle.0 == 0,
    {
        XRecord {
            handle: Handle(0),
            owner: Handle(0),
            reactors: Vec::new(),
            name: String::from_str(name),
            cloning_flags: DictionaryCloningFlags::NotApplicable,
            entries: Vec::new(),
            raw_data: Vec::new(),
        }
    }
}

/// A named-object dictionary: an ordered list of (key, handle) entries.
#[derive(Clone, Debug, PartialEq, Eq)]
pub struct Dictionary {
    pub handle: Handle,
    pub owner: Handle,
    pub reactors: Vec<Handle>,
    pub hard_owner: bool,
    pub entries: Vec<(String, Handle)>,
}

impl Dictionary {
    pub fn new() -> (r: Self)
        ensures
            r.entries@.len() == 0,
            r.reactors@.len() == 0,
            r.handle.0 == 0,
            r.owner.0 == 0,
            !r.hard_owner,
    {
        Dictionary {
            handle: Handle(0),
            owner: Handle(0),
            reactors: Vec::new(),
            hard_owner: false,
            entries: Vec::new(),
        }
    }
}

/// A non-graphical object of the drawing database.
#[derive(Clone, Debug, PartialEq, Eq)]
pub enum ObjectType {
    Dictionary(Dictionary),
    XRecord(XRecord),
    /// Any other object, kept by its DXF class name.
    Other(String),
}

} // verus!
