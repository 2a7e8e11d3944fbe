//! Extended entity data: values that applications attach to an entity,
//! grouped in one record per registered application.
use vstd::prelude::*;

use crate::seqs::{first_index, first_match, lemma_first_index_facts, lemma_first_index_is};
use crate::text::{eq_ignore_ascii_case, eq_ignore_case, owned};
use crate::types::{Handle, Vector3};

verus! {

/// One extended-data value. Reals are carried as IEEE-754 `f64` bit
/// patterns.
#[derive(Clone, Debug, PartialEq)]
pub enum XDataValue {
    String(String),
    ControlString(String),
    LayerName(String),
    Handle(Handle),
    Point3D(Vector3),
    Real(u64),
    Integer16(i16),
    Integer32(i32),
}

/// The mathematical value of an extended-data value.
pub enum XValue {
    String(Seq<char>),
    ControlString(Seq<char>),
    LayerName(Seq<char>),
    Handle(Handle),
    Point3D(Vector3),
    Real(u64),
    Integer16(i16),
    Integer32(i32),
}

impl View for XDataValue {
    type V = XValue;

    open spec fn view(&self) -> XValue {
        match self {
            XDataValue::String(s) => XValue::String(s@),
            XDataValue::ControlString(s) => XValue::ControlString(s@),
            XDataValue::LayerName(s) => XValue::LayerName(s@),
            XDataValue::Handle(h) => XValue::Handle(*h),
            XDataValue::Point3D(p) => XValue::Point3D(*p),
            XDataValue::Real(r) => XValue::Real(*r),
            XDataValue::Integer16(i) => XValue::Integer16(*i),
            XDataValue::Integer32(i) => XValue::Integer32(*i),
        }
    }
}

/// The values of a value list.
pub open spec fn values_view(vs: Seq<XDataValue>) -> Seq<XValue> {
    vs.map_values(|v: XDataValue| v@)
}

impl XDataValue {
    /// A value with the same content.
    pub fn copy_value(&self) -> (r: Self)
        ensures
            r@ == self@,
    {
        match self {
            XDataValue::String(s) => XDataValue::String(owned(s.as_str())),
            XDataValue::ControlString(s) => XDataValue::ControlString(owned(s.as_str())),
            XDataValue::LayerName(s) => XDataValue::LayerName(owned(s.as_str())),
            XDataValue::Handle(h) => XDataValue::Handle(*h),
            XDataValue::Point3D(p) => XDataValue::Point3D(*p),
            XDataValue::Real(r) => XDataValue::Real(*r),
            XDataValue::Integer16(i) => XDataValue::Integer16(*i),
            XDataValue::Integer32(i) => XDataValue::Integer32(*i),
        }
    }
}

/// Append copies of `src[from..to]` to `out`.
pub fn extend_copies(out: &mut Vec<XDataValue>, src: &Vec<XDataValue>, from: usize, to: usize)
    requires
        from <= to <= src.len(),
    ensures
        values_view(final(out)@) == values_view(old(out)@) + values_view(src@).subrange(
            from as int,
            to as int,
        ),
{
    let mut i: usize = from;
    while i < to
        invariant
            from <= i <= to <= src.len(),
            values_view(out@) == values_view(old(out)@) + values_view(src@).subrange(
                from as int,
                i as int,
            ),
        decreases to - i,
    {
        let ghost prev = out@;
        let v = src[i].copy_value();
        out.push(v);
        assert(values_view(out@) =~= values_view(prev).push(src@[i as int]@));
        assert(values_view(src@).subrange(from as int, i + 1) =~= values_view(src@).subrange(
            from as int,
            i as int,
        ).push(values_view(src@)[i as int]));
        assert(values_view(out@) =~= values_view(old(out)@) + values_view(src@).subrange(
            from as int,
            i + 1,
        ));
        i = i + 1;
    }
}

/// The values one application attached to an entity.
#[derive(Clone, Debug, PartialEq)]
pub struct ExtendedDataRecord {
    pub application_name: String,
    pub values: Vec<XDataValue>,
}

impl ExtendedDataRecord {
    /// An empty record for the application `name`.
    pub fn new(name: &str) -> (r: Self)
        ensures
            r.application_name@ == name@,
            r.values@.len() == 0,
    {
        ExtendedDataRecord { application_name: owned(name), values: Vec::new() }
    }
}

/// The records whose application name equals `name` ignoring ASCII case.
pub open spec fn record_for(name: Seq<char>) -> spec_fn(ExtendedDataRecord) -> bool {
    |r: ExtendedDataRecord| eq_ignore_case(r.application_name@, name)
}

/// The extended data of an entity: its records, in the order they were
/// added.
#[derive(Clone, Debug, PartialEq)]
pub struct ExtendedData {
    pub records: Vec<ExtendedDataRecord>,
}

impl ExtendedData {
    pub fn new() -> (r: Self)
        ensures
            r.records@.len() == 0,
    {
        ExtendedData { records: Vec::new() }
    }

    pub fn records(&self) -> (r: &Vec<ExtendedDataRecord>)
        ensures
            r@ == self.records@,
    {
        &self.records
    }

    /// Append a record.
    pub fn add_record(&mut self, record: ExtendedDataRecord)
        ensures
            final(self).records@ == old(self).records@.push(record),
    {
        self.records.push(record);
    }

    /// Position of the first record of the application `name` (ASCII case
    /// ignored).
    pub fn find_record(&self, name: &str) -> (r: Option<usize>)
        ensures
            match r {
                Some(i) => i as int == first_index(self.records@, record_for(name@)),
                None => first_index(self.records@, record_for(name@)) < 0,
            },
    {
        let mut i: usize = 0;
        while i < self.records.len()
            invariant
                i <= self.records@.len(),
                forall|j: int| 0 <= j < i ==> !(#[trigger] record_for(name@)(self.records@[j])),
            decreases self.records@.len() - i,
        {
            if eq_ignore_ascii_case(self.records[i].application_name.as_str(), name) {
                proof {
                    lemma_first_index_is(self.records@, record_for(name@), i as int);
                }
                return Some(i);
            }
            i = i + 1;
        }
        proof {
            lemma_first_index_facts(self.records@, record_for(name@));
            if first_index(self.records@, record_for(name@)) >= 0 {
                let k = first_index(self.records@, record_for(name@));
                assert(record_for(name@)(self.records@[k]));
            }
        }
        None
    }

    /// Replace the first record of the same application (ASCII case
    /// ignored), or append the record when there is none.
    pub fn upsert_record(&mut self, record: ExtendedDataRecord)
        ensures
            final(self).records@ == (if first_index(
                old(self).records@,
                record_for(record.application_name@),
            ) >= 0 {
                old(self).records@.update(
                    first_index(old(self).records@, record_for(record.application_name@)),
                    record,
                )
            } else {
                old(self).records@.push(record)
            }),
    {
        let found = self.find_record(record.application_name.as_str());
        proof {
            lemma_first_index_facts(self.records@, record_for(record.application_name@));
        }
        match found {
            Some(i) => {
                self.records.set(i, record);
            },
            None => {
                self.records.push(record);
            },
        }
    }
}

/// The first record of the application `name`, if any.
pub open spec fn first_record(records: Seq<ExtendedDataRecord>, name: Seq<char>) -> Option<
    ExtendedDataRecord,
> {
    first_match(records, record_for(name))
}

} // verus!

verus! {

/// After a record is upserted, looking up its application finds exactly
/// that record; the records of other applications are untouched.
pub proof fn lemma_upsert_then_find(records: Seq<ExtendedDataRecord>, r: ExtendedDataRecord, other: Seq<char>)
    requires
        !eq_ignore_case(other, r.application_name@),
    ensures
        ({
            let fi = first_index(records, record_for(r.application_name@));
            let after = if fi >= 0 {
                records.update(fi, r)
            } else {
                records.push(r)
            };
            &&& first_record(after, r.application_name@) == Some(r)
            &&& first_record(after, other) == first_record(records, other)
        }),
{
    let name = r.application_name@;
    let p = record_for(name);
    let q = record_for(other);
    lemma_first_index_facts(records, p);
    let fi = first_index(records, p);
    crate::text::lemma_eq_ignore_case_equiv(name, name, name);
    crate::text::lemma_eq_ignore_case_equiv(other, name, other);
    if fi >= 0 {
        let after = records.update(fi, r);
        assert forall|j: int| 0 <= j < fi implies !(#[trigger] p(after[j])) by {
            assert(after[j] == records[j]);
        }
        lemma_first_index_is(after, p, fi);
        assert(!q(r));
        assert(q(records[fi]) == q(r)) by {
            crate::text::lemma_eq_ignore_case_equiv(records[fi].application_name@, name, other);
            crate::text::lemma_eq_ignore_case_equiv(other, records[fi].application_name@, name);
            crate::text::lemma_eq_ignore_case_equiv(name, records[fi].application_name@, other);
        }
        crate::seqs::lemma_first_match_update(records, q, fi, r);
    } else {
        let after = records.push(r);
        assert forall|j: int| 0 <= j < records.len() implies !(#[trigger] p(after[j])) by {
            assert(after[j] == records[j]);
        }
        lemma_first_index_is(after, p, records.len() as int);
        crate::seqs::lemma_first_match_push(records, q, r);
    }
}

} // verus!
