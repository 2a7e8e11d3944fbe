//! Lofted surfaces keep the curves they were made from in XRecords of their
//! extension dictionary: the database references of the cross sections,
//! guides and path, and their embedded copies as DWG entity bodies. This
//! module writes those records and reads them back.
use vstd::prelude::*;

use crate::objects::{entries_view, view_as_i32, EntryView, ValueView, XRecordEntry, XRecordValue};
use crate::seqs::{first_index, first_match, lemma_first_index_facts, lemma_first_index_is};
use crate::types::Handle;

verus! {

/// The dictionary key of the record of curve references.
pub const REFERENCE_KEY: &'static str = "CADCODEC_LOFT_REFERENCES_V1";

/// The dictionary key of the record of embedded curve bodies.
pub const CURVES_KEY: &'static str = "CADCODEC_LOFT_CURVES_V1";

/// The entry with group code `code` holding `value`.
pub open spec fn entry_of(code: i32, value: ValueView) -> EntryView {
    EntryView { code, value }
}

/// The handles of an optional path.
pub open spec fn path_seq(p: Option<Handle>) -> Seq<Handle> {
    match p {
        Some(h) => seq![h],
        None => seq![],
    }
}

/// The entries of the reference record: format 1, the three counts, and
/// every referenced handle in order (sections, guides, path).
pub open spec fn reference_entries(s: Seq<Handle>, g: Seq<Handle>, p: Option<Handle>) -> Seq<
    EntryView,
> {
    seq![
        entry_of(90, ValueView::Int32(1)),
        entry_of(91, ValueView::Int32(s.len() as i32)),
        entry_of(92, ValueView::Int32(g.len() as i32)),
        entry_of(93, ValueView::Int32(if p is Some { 1 } else { 0 })),
    ] + (s + g + path_seq(p)).map_values(|h: Handle| entry_of(330, ValueView::Handle(h)))
}

/// The entry has group code `code`.
pub open spec fn has_code(code: i32) -> spec_fn(EntryView) -> bool {
    |e: EntryView| e.code == code
}

/// The integer value of the first entry with group code `code`, if that
/// entry holds one.
pub open spec fn first_int(es: Seq<EntryView>, code: i32) -> Option<i32> {
    match first_match(es, has_code(code)) {
        Some(e) => view_as_i32(e.value),
        None => None,
    }
}

/// The handles of the entries with group code 330, in order.
pub open spec fn handles_330(es: Seq<EntryView>) -> Seq<Handle>
    decreases es.len(),
{
    if es.len() == 0 {
        seq![]
    } else {
        let rest = handles_330(es.drop_last());
        match es.last().value {
            ValueView::Handle(h) if es.last().code == 330 => rest.push(h),
            _ => rest,
        }
    }
}

/// The references a record holds: its format must be 1, its counts
/// non-negative, the path count at most 1, and the counts must add up to
/// the number of handles.
pub open spec fn references_of(es: Seq<EntryView>) -> Option<(Seq<Handle>, Seq<Handle>, Option<Handle>)> {
    match (first_int(es, 90), first_int(es, 91), first_int(es, 92), first_int(es, 93)) {
        (Some(format), Some(s), Some(g), Some(p)) => {
            let hs = handles_330(es);
            if format != 1 || s < 0 || g < 0 || p < 0 || p > 1 || s + g + p > usize::MAX || s
                + g + p != hs.len() {
                None
            } else {
                Some(
                    (
                        hs.subrange(0, s as int),
                        hs.subrange(s as int, s + g),
                        if p == 1 {
                            Some(hs[s + g])
                        } else {
                            None
                        },
                    ),
                )
            }
        },
        _ => None,
    }
}

/// Append the entries of `hs` under group code 330.
fn push_handles(out: &mut Vec<XRecordEntry>, hs: &[Handle])
    ensures
        entries_view(final(out)@) == entries_view(old(out)@) + hs@.map_values(
            |h: Handle| entry_of(330, ValueView::Handle(h)),
        ),
{
    let mut i: usize = 0;
    while i < hs.len()
        invariant
            i <= hs@.len(),
            entries_view(out@) == entries_view(old(out)@) + hs@.take(i as int).map_values(
                |h: Handle| entry_of(330, ValueView::Handle(h)),
            ),
        decreases hs@.len() - i,
    {
        let ghost before = entries_view(out@);
        out.push(XRecordEntry::handle(330, hs[i]));
        assert(entries_view(out@) =~= before.push(entry_of(330, ValueView::Handle(hs@[i as int]))));
        assert(hs@.take(i + 1).map_values(|h: Handle| entry_of(330, ValueView::Handle(h)))
            =~= hs@.take(i as int).map_values(|h: Handle| entry_of(330, ValueView::Handle(h))).push(
            entry_of(330, ValueView::Handle(hs@[i as int])),
        ));
        i = i + 1;
    }
    assert(hs@.take(hs@.len() as int) =~= hs@);
}

/// The entries of the record that keeps a lofted surface's curve
/// references.
pub fn loft_reference_entries(sections: &[Handle], guides: &[Handle], path: Option<Handle>) -> (r:
    Vec<XRecordEntry>)
    ensures
        entries_view(r@) == reference_entries(sections@, guides@, path),
{
    let mut out: Vec<XRecordEntry> = Vec::new();
    out.push(XRecordEntry::int32(90, 1));
    out.push(XRecordEntry::int32(91, sections.len() as i32));
    out.push(XRecordEntry::int32(92, guides.len() as i32));
    let has_path: i32 = if path.is_some() {
        1
    } else {
        0
    };
    out.push(XRecordEntry::int32(93, has_path));
    let ghost head = entries_view(out@);
    assert(head =~= seq![
        entry_of(90, ValueView::Int32(1)),
        entry_of(91, ValueView::Int32(sections@.len() as i32)),
        entry_of(92, ValueView::Int32(guides@.len() as i32)),
        entry_of(93, ValueView::Int32(if path is Some { 1 } else { 0 })),
    ]);
    push_handles(&mut out, sections);
    push_handles(&mut out, guides);
    let mut last: Vec<Handle> = Vec::new();
    match path {
        Some(h) => {
            last.push(h);
        },
        None => {},
    }
    assert(last@ =~= path_seq(path));
    push_handles(&mut out, last.as_slice());
    let ghost f = |h: Handle| entry_of(330, ValueView::Handle(h));
    assert((sections@ + guides@ + path_seq(path)).map_values(f) =~= sections@.map_values(f)
        + guides@.map_values(f) + path_seq(path).map_values(f));
    assert(entries_view(out@) =~= reference_entries(sections@, guides@, path));
    out
}

/// Position of the first entry with group code `code`.
fn find_code(entries: &Vec<XRecordEntry>, code: i32) -> (r: Option<usize>)
    ensures
        match r {
            Some(i) => i as int == first_index(entries_view(entries@), has_code(code)),
            None => first_index(entries_view(entries@), has_code(code)) < 0,
        },
{
    let ghost es = entries_view(entries@);
    let mut i: usize = 0;
    while i < entries.len()
        invariant
            es == entries_view(entries@),
            i <= entries@.len(),
            forall|j: int| 0 <= j < i ==> !(#[trigger] has_code(code)(es[j])),
        decreases entries@.len() - i,
    {
        assert(es[i as int].code == entries@[i as int].code);
        if entries[i].code == code {
            proof {
                lemma_first_index_is(es, has_code(code), i as int);
            }
            return Some(i);
        }
        i = i + 1;
    }
    proof {
        lemma_first_index_facts(es, has_code(code));
        if first_index(es, has_code(code)) >= 0 {
            let k = first_index(es, has_code(code));
            assert(has_code(code)(es[k]));
        }
    }
    None
}

/// The integer value of the first entry with group code `code`.
fn first_int_of(entries: &Vec<XRecordEntry>, code: i32) -> (r: Option<i32>)
    ensures
        r == first_int(entries_view(entries@), code),
{
    let ghost es = entries_view(entries@);
    proof {
        lemma_first_index_facts(es, has_code(code));
    }
    match find_code(entries, code) {
        Some(i) => {
            assert(es[i as int].value == entries@[i as int].value@);
            entries[i].value.as_i32()
        },
        None => None,
    }
}

/// The handles of the entries with group code 330.
fn collect_handles(entries: &Vec<XRecordEntry>) -> (r: Vec<Handle>)
    ensures
        r@ == handles_330(entries_view(entries@)),
{
    let ghost es = entries_view(entries@);
    let mut out: Vec<Handle> = Vec::new();
    let mut i: usize = 0;
    while i < entries.len()
        invariant
            es == entries_view(entries@),
            i <= entries@.len(),
            out@ == handles_330(es.take(i as int)),
        decreases entries@.len() - i,
    {
        proof {
            assert(es.take(i + 1).drop_last() =~= es.take(i as int));
            assert(es.take(i + 1).last() == es[i as int]);
        }
        if entries[i].code == 330 {
            match &entries[i].value {
                XRecordValue::Handle(h) => {
                    out.push(*h);
                },
                _ => {},
            }
        }
        i = i + 1;
    }
    assert(es.take(entries@.len() as int) =~= es);
    out
}

/// The handles `hs[from..to]`.
fn handles_between(hs: &Vec<Handle>, from: usize, to: usize) -> (r: Vec<Handle>)
    requires
        from <= to <= hs@.len(),
    ensures
        r@ == hs@.subrange(from as int, to as int),
{
    let mut out: Vec<Handle> = Vec::new();
    let mut i: usize = from;
    while i < to
        invariant
            from <= i <= to <= hs@.len(),
            out@ == hs@.subrange(from as int, i as int),
        decreases to - i,
    {
        out.push(hs[i]);
        assert(out@ =~= hs@.subrange(from as int, i + 1));
        i = i + 1;
    }
    out
}

/// Read a lofted surface's curve references back from the entries of its
/// reference record.
pub fn loft_references(entries: &Vec<XRecordEntry>) -> (r: Option<
    (Vec<Handle>, Vec<Handle>, Option<Handle>),
>)
    ensures
        match r {
            Some((s, g, p)) => references_of(entries_view(entries@)) == Some((s@, g@, p)),
            None => references_of(entries_view(entries@)) is None,
        },
{
    let format = match first_int_of(entries, 90) {
        Some(v) => v,
        None => {
            return None;
        },
    };
    if format != 1 {
        return None;
    }
    let s = match first_int_of(entries, 91) {
        Some(v) => v,
        None => {
            return None;
        },
    };
    let g = match first_int_of(entries, 92) {
        Some(v) => v,
        None => {
            return None;
        },
    };
    let p = match first_int_of(entries, 93) {
        Some(v) => v,
        None => {
            return None;
        },
    };
    if s < 0 || g < 0 || p < 0 {
        return None;
    }
    let sections = s as usize;
    let guides = g as usize;
    let path = p as usize;
    let handles = collect_handles(entries);
    if path > 1 {
        return None;
    }
    let total = match sections.checked_add(guides) {
        Some(t) => match t.checked_add(path) {
            Some(t) => t,
            None => {
                return None;
            },
        },
        None => {
            return None;
        },
    };
    if total != handles.len() {
        return None;
    }
    let first = handles_between(&handles, 0, sections);
    let second = handles_between(&handles, sections, sections + guides);
    let last = if path == 1 {
        Some(handles[sections + guides])
    } else {
        None
    };
    Some((first, second, last))
}

proof fn lemma_handles_330_tail(head: Seq<EntryView>, hs: Seq<Handle>)
    requires
        forall|i: int| 0 <= i < head.len() ==> (#[trigger] head[i]).code != 330,
    ensures
        handles_330(head + hs.map_values(|h: Handle| entry_of(330, ValueView::Handle(h)))) == hs,
    decreases hs.len(),
{
    let f = |h: Handle| entry_of(330, ValueView::Handle(h));
    if hs.len() == 0 {
        assert(head + hs.map_values(f) =~= head);
        lemma_handles_330_none(head);
    } else {
        lemma_handles_330_tail(head, hs.drop_last());
        assert((head + hs.map_values(f)).drop_last() =~= head + hs.drop_last().map_values(f));
        assert(hs.drop_last().push(hs.last()) =~= hs);
    }
}

proof fn lemma_handles_330_none(es: Seq<EntryView>)
    requires
        forall|i: int| 0 <= i < es.len() ==> (#[trigger] es[i]).code != 330,
    ensures
        handles_330(es) == Seq::<Handle>::empty(),
    decreases es.len(),
{
    if es.len() > 0 {
        assert(es.last() == es[es.len() - 1]);
        lemma_handles_330_none(es.drop_last());
    }
}

/// Reading back the entries written for curve references gives the
/// references, for fewer than 2^31 sections and guides each.
pub proof fn lemma_references_round_trip(s: Seq<Handle>, g: Seq<Handle>, p: Option<Handle>)
    requires
        s.len() <= i32::MAX,
        g.len() <= i32::MAX,
    ensures
        references_of(reference_entries(s, g, p)) == Some((s, g, p)),
{
    let es = reference_entries(s, g, p);
    let all = s + g + path_seq(p);
    let head = seq![
        entry_of(90, ValueView::Int32(1)),
        entry_of(91, ValueView::Int32(s.len() as i32)),
        entry_of(92, ValueView::Int32(g.len() as i32)),
        entry_of(93, ValueView::Int32(if p is Some { 1 } else { 0 })),
    ];
    assert(es == head + all.map_values(|h: Handle| entry_of(330, ValueView::Handle(h))));
    assert(forall|i: int| 0 <= i < 4 ==> #[trigger] es[i] == head[i]);
    lemma_first_index_is(es, has_code(90), 0);
    lemma_first_index_is(es, has_code(91), 1);
    lemma_first_index_is(es, has_code(92), 2);
    lemma_first_index_is(es, has_code(93), 3);
    lemma_handles_330_tail(head, all);
    assert(all.subrange(0, s.len() as int) =~= s);
    assert(all.subrange(s.len() as int, (s.len() + g.len()) as int) =~= g);
    if p is Some {
        assert(all[(s.len() + g.len()) as int] == p->0);
    }
}

} // verus!

verus! {

/// The largest body length in bits that a curve record may declare.
pub const MAX_BODY_BITS: usize = 0x400_0000;

/// An embedded entity body: its DWG type code, its length in bits, and its
/// bytes.
#[derive(Clone, Debug, PartialEq, Eq)]
pub struct EmbeddedBody {
    pub type_code: i32,
    pub bit_length: usize,
    pub bytes: Vec<u8>,
}

/// The content of an [`EmbeddedBody`].
pub struct BodyView {
    pub type_code: i32,
    pub bit_length: nat,
    pub bytes: Seq<u8>,
}

impl View for EmbeddedBody {
    type V = BodyView;

    open spec fn view(&self) -> BodyView {
        BodyView { type_code: self.type_code, bit_length: self.bit_length as nat, bytes: self.bytes@ }
    }
}

/// The contents of a list of bodies.
pub open spec fn bodies_view(bs: Seq<EmbeddedBody>) -> Seq<BodyView> {
    bs.map_values(|b: EmbeddedBody| b@)
}

/// The bodies of an optional path.
pub open spec fn opt_bodies(p: Option<BodyView>) -> Seq<BodyView> {
    match p {
        Some(b) => seq![b],
        None => seq![],
    }
}

/// Bytes needed for `bits` bits.
pub open spec fn bytes_for(bits: int) -> int {
    (bits + 7) / 8
}

/// The chunk entries (group code 310) of `bytes`: pieces of 127 bytes,
/// the last one possibly shorter.
pub open spec fn chunk_entries(bytes: Seq<u8>) -> Seq<EntryView>
    decreases bytes.len(),
{
    if bytes.len() == 0 {
        seq![]
    } else if bytes.len() <= 127 {
        seq![entry_of(310, ValueView::Chunk(bytes))]
    } else {
        seq![entry_of(310, ValueView::Chunk(bytes.take(127)))] + chunk_entries(bytes.skip(127))
    }
}

/// The entries of one body in role `role` (0 cross section, 1 guide,
/// 2 path): the role, the type code, the bit length, and the chunks.
pub open spec fn body_entries(role: i16, b: BodyView) -> Seq<EntryView> {
    seq![
        entry_of(70, ValueView::Int16(role)),
        entry_of(91, ValueView::Int32(b.type_code)),
        entry_of(92, ValueView::Int32(b.bit_length as i32)),
    ] + chunk_entries(b.bytes)
}

/// The entries of all bodies of one role, in order.
pub open spec fn role_entries(role: i16, bs: Seq<BodyView>) -> Seq<EntryView>
    decreases bs.len(),
{
    if bs.len() == 0 {
        seq![]
    } else {
        role_entries(role, bs.drop_last()) + body_entries(role, bs.last())
    }
}

/// The entries of the curve record: format 1, then the cross sections,
/// the guides and the path.
pub open spec fn curve_entries(s: Seq<BodyView>, g: Seq<BodyView>, p: Option<BodyView>) -> Seq<
    EntryView,
> {
    seq![entry_of(90, ValueView::Int32(1))] + role_entries(0, s) + role_entries(1, g)
        + role_entries(2, opt_bodies(p))
}

/// The curves read so far: cross sections, guides and path.
pub type Curves = (Seq<BodyView>, Seq<BodyView>, Option<BodyView>);

/// The chunks from position `i` on, appended to `acc`, as long as they do
/// not exceed `want` bytes: the bytes and the position after the chunks.
pub open spec fn read_chunks(es: Seq<EntryView>, i: int, acc: Seq<u8>, want: int) -> Option<
    (Seq<u8>, int),
>
    decreases es.len() - i,
{
    if 0 <= i < es.len() && es[i].code == 310 {
        match es[i].value {
            ValueView::Chunk(c) => if acc.len() + c.len() > want {
                None
            } else {
                read_chunks(es, i + 1, acc + c, want)
            },
            _ => None,
        }
    } else {
        Some((acc, i))
    }
}

/// `acc` with a body of role `role` added, if the role is known (and, for
/// the path, the first one).
pub open spec fn add_body(acc: Curves, role: i32, b: BodyView) -> Option<Curves> {
    if role == 0 {
        Some((acc.0.push(b), acc.1, acc.2))
    } else if role == 1 {
        Some((acc.0, acc.1.push(b), acc.2))
    } else if role == 2 && acc.2 is None {
        Some((acc.0, acc.1, Some(b)))
    } else {
        None
    }
}

/// The bodies from position `i` on, added to `acc`.
pub open spec fn read_bodies(es: Seq<EntryView>, i: int, acc: Curves) -> Option<Curves>
    decreases es.len() - i,
{
    if i < 0 || i >= es.len() {
        Some(acc)
    } else if es[i].code != 70 || i + 1 >= es.len() || es[i + 1].code != 91 || i + 2 >= es.len()
        || es[i + 2].code != 92 {
        None
    } else {
        match (view_as_i32(es[i].value), view_as_i32(es[i + 1].value), view_as_i32(es[i + 2].value)) {
            (Some(role), Some(type_code), Some(bits)) => if bits <= 0 || bits > MAX_BODY_BITS {
                None
            } else {
                match read_chunks(es, i + 3, seq![], bytes_for(bits as int)) {
                    Some((bytes, next)) => if bytes.len() != bytes_for(bits as int) {
                        None
                    } else {
                        match add_body(
                            acc,
                            role,
                            BodyView { type_code, bit_length: bits as nat, bytes },
                        ) {
                            Some(acc2) => if i < next <= es.len() {
                                read_bodies(es, next, acc2)
                            } else {
                                None
                            },
                            None => None,
                        }
                    },
                    None => None,
                }
            },
            _ => None,
        }
    }
}

/// The curves a curve record holds: its first entry must be format 1.
pub open spec fn curves_of(es: Seq<EntryView>) -> Option<Curves> {
    if es.len() == 0 || es[0].code != 90 || view_as_i32(es[0].value) != Some(1i32) {
        None
    } else {
        read_bodies(es, 1, (seq![], seq![], None))
    }
}

} // verus!

verus! {

/// The bytes `bytes[from..to]`.
fn bytes_between(bytes: &Vec<u8>, from: usize, to: usize) -> (r: Vec<u8>)
    requires
        from <= to <= bytes@.len(),
    ensures
        r@ == bytes@.subrange(from as int, to as int),
{
    let mut out: Vec<u8> = Vec::new();
    let mut i: usize = from;
    while i < to
        invariant
            from <= i <= to <= bytes@.len(),
            out@ == bytes@.subrange(from as int, i as int),
        decreases to - i,
    {
        out.push(bytes[i]);
        assert(out@ =~= bytes@.subrange(from as int, i + 1));
        i = i + 1;
    }
    out
}

/// Append the chunk entries of `bytes`.
fn write_chunks(out: &mut Vec<XRecordEntry>, bytes: &Vec<u8>)
    ensures
        entries_view(final(out)@) == entries_view(old(out)@) + chunk_entries(bytes@),
{
    let mut pos: usize = 0;
    assert(bytes@.skip(0) =~= bytes@);
    assert(entries_view(out@) + chunk_entries(bytes@.skip(0)) =~= entries_view(old(out)@)
        + chunk_entries(bytes@));
    while pos < bytes.len()
        invariant
            pos <= bytes@.len(),
            entries_view(out@) + chunk_entries(bytes@.skip(pos as int)) == entries_view(old(out)@)
                + chunk_entries(bytes@),
        decreases bytes@.len() - pos,
    {
        let rest = bytes.len() - pos;
        let take: usize = if rest > 127 {
            127
        } else {
            rest
        };
        let ghost tail = bytes@.skip(pos as int);
        let piece = bytes_between(bytes, pos, pos + take);
        let ghost before = entries_view(out@);
        out.push(XRecordEntry { code: 310, value: XRecordValue::Chunk(piece) });
        assert(entries_view(out@) =~= before.push(entry_of(310, ValueView::Chunk(piece@))));
        if rest > 127 {
            assert(piece@ =~= tail.take(127));
            assert(tail.skip(127) =~= bytes@.skip(pos + 127));
            assert(chunk_entries(tail) == seq![entry_of(310, ValueView::Chunk(tail.take(127)))]
                + chunk_entries(tail.skip(127)));
            assert(entries_view(out@) + chunk_entries(bytes@.skip(pos + 127)) =~= before
                + chunk_entries(tail));
        } else {
            assert(piece@ =~= tail);
            assert(bytes@.skip(pos + take) =~= Seq::<u8>::empty());
            assert(chunk_entries(tail) == seq![entry_of(310, ValueView::Chunk(tail))]);
            assert(entries_view(out@) + chunk_entries(bytes@.skip(pos + take)) =~= before
                + chunk_entries(tail));
        }
        pos = pos + take;
    }
    assert(bytes@.skip(pos as int) =~= Seq::<u8>::empty());
    assert(entries_view(out@) + chunk_entries(bytes@.skip(pos as int)) =~= entries_view(out@));
}

/// Append the entries of one body.
fn write_body(out: &mut Vec<XRecordEntry>, role: i16, body: &EmbeddedBody)
    ensures
        entries_view(final(out)@) == entries_view(old(out)@) + body_entries(role, body@),
{
    let ghost start = entries_view(out@);
    out.push(XRecordEntry::int16(70, role));
    out.push(XRecordEntry::int32(91, body.type_code));
    out.push(XRecordEntry::int32(92, body.bit_length as i32));
    assert(entries_view(out@) =~= start + seq![
        entry_of(70, ValueView::Int16(role)),
        entry_of(91, ValueView::Int32(body.type_code)),
        entry_of(92, ValueView::Int32(body@.bit_length as i32)),
    ]);
    write_chunks(out, &body.bytes);
    assert(entries_view(out@) =~= start + body_entries(role, body@));
}

/// Append the entries of all bodies of one role.
fn write_role(out: &mut Vec<XRecordEntry>, role: i16, bodies: &[EmbeddedBody])
    ensures
        entries_view(final(out)@) == entries_view(old(out)@) + role_entries(
            role,
            bodies_view(bodies@),
        ),
{
    let ghost bv = bodies_view(bodies@);
    let mut i: usize = 0;
    assert(bv.take(0) =~= Seq::<BodyView>::empty());
    assert(entries_view(out@) =~= entries_view(old(out)@) + role_entries(role, bv.take(0)));
    while i < bodies.len()
        invariant
            i <= bodies@.len(),
            bv == bodies_view(bodies@),
            entries_view(out@) == entries_view(old(out)@) + role_entries(role, bv.take(i as int)),
        decreases bodies@.len() - i,
    {
        write_body(out, role, &bodies[i]);
        assert(bv.take(i + 1).drop_last() =~= bv.take(i as int));
        assert(bv.take(i + 1).last() == bodies@[i as int]@);
        assert(entries_view(out@) =~= entries_view(old(out)@) + role_entries(role, bv.take(i + 1)));
        i = i + 1;
    }
    assert(bv.take(bodies@.len() as int) =~= bv);
}

/// The content of an optional body.
pub open spec fn opt_body(p: Option<&EmbeddedBody>) -> Option<BodyView> {
    match p {
        Some(b) => Some(b@),
        None => None,
    }
}

/// The entries of the record that keeps a lofted surface's embedded
/// cross sections, guides and path.
pub fn loft_curve_entries(
    sections: &[EmbeddedBody],
    guides: &[EmbeddedBody],
    path: Option<&EmbeddedBody>,
) -> (r: Vec<XRecordEntry>)
    ensures
        entries_view(r@) == curve_entries(bodies_view(sections@), bodies_view(guides@), opt_body(path)),
{
    let mut out: Vec<XRecordEntry> = Vec::new();
    out.push(XRecordEntry::int32(90, 1));
    assert(entries_view(out@) =~= seq![entry_of(90, ValueView::Int32(1))]);
    write_role(&mut out, 0, sections);
    write_role(&mut out, 1, guides);
    match path {
        Some(b) => {
            let ghost before = entries_view(out@);
            write_body(&mut out, 2, b);
            let ghost one = opt_bodies(opt_body(path));
            assert(one.drop_last() =~= Seq::<BodyView>::empty());
            assert(one.last() == b@);
            assert(role_entries(2, Seq::<BodyView>::empty()) == Seq::<EntryView>::empty());
            assert(role_entries(2, one) == role_entries(2, one.drop_last()) + body_entries(
                2,
                one.last(),
            ));
            assert(role_entries(2, one) =~= body_entries(2, b@));
        },
        None => {
            assert(role_entries(2, opt_bodies(opt_body(path))) =~= Seq::<EntryView>::empty());
        },
    }
    assert(entries_view(out@) =~= curve_entries(
        bodies_view(sections@),
        bodies_view(guides@),
        opt_body(path),
    ));
    out
}

} // verus!

verus! {

/// The bytes of the chunk entries from position `start` on, as long as they
/// do not exceed `want` bytes, and the position after them.
fn read_chunk_bytes(entries: &Vec<XRecordEntry>, start: usize, want: usize) -> (r: Option<
    (Vec<u8>, usize),
>)
    requires
        start <= entries@.len(),
    ensures
        match r {
            Some((b, n)) => read_chunks(entries_view(entries@), start as int, seq![], want as int)
                == Some((b@, n as int)) && start <= n <= entries@.len(),
            None => read_chunks(entries_view(entries@), start as int, seq![], want as int) is None,
        },
{
    let ghost es = entries_view(entries@);
    let mut bytes: Vec<u8> = Vec::new();
    let mut j: usize = start;
    while j < entries.len() && entries[j].code == 310
        invariant
            es == entries_view(entries@),
            start <= j <= entries@.len(),
            bytes@.len() <= want,
            read_chunks(es, start as int, seq![], want as int) == read_chunks(
                es,
                j as int,
                bytes@,
                want as int,
            ),
        decreases entries@.len() - j,
    {
        assert(es[j as int].code == entries@[j as int].code);
        assert(es[j as int].value == entries@[j as int].value@);
        match &entries[j].value {
            XRecordValue::Chunk(c) => {
                if c.len() > want - bytes.len() {
                    return None;
                }
                let ghost before = bytes@;
                let mut k: usize = 0;
                while k < c.len()
                    invariant
                        k <= c@.len(),
                        bytes@ == before + c@.take(k as int),
                    decreases c@.len() - k,
                {
                    bytes.push(c[k]);
                    assert(bytes@ =~= before + c@.take(k + 1));
                    k = k + 1;
                }
                assert(c@.take(c@.len() as int) =~= c@);
            },
            _ => {
                return None;
            },
        }
        j = j + 1;
    }
    assert(!(0 <= j < es.len() && es[j as int].code == 310)) by {
        if j < entries@.len() {
            assert(es[j as int].code == entries@[j as int].code);
        }
    }
    Some((bytes, j))
}

/// The content of an optional body.
pub open spec fn opt_body_view(p: Option<EmbeddedBody>) -> Option<BodyView> {
    match p {
        Some(b) => Some(b@),
        None => None,
    }
}

/// Read a lofted surface's embedded cross sections, guides and path back
/// from the entries of its curve record.
pub fn loft_curves(entries: &Vec<XRecordEntry>) -> (r: Option<
    (Vec<EmbeddedBody>, Vec<EmbeddedBody>, Option<EmbeddedBody>),
>)
    ensures
        match r {
            Some((s, g, p)) => curves_of(entries_view(entries@)) == Some(
                (bodies_view(s@), bodies_view(g@), opt_body_view(p)),
            ),
            None => curves_of(entries_view(entries@)) is None,
        },
{
    let ghost es = entries_view(entries@);
    if entries.len() == 0 || entries[0].code != 90 {
        return None;
    }
    assert(es[0].value == entries@[0].value@);
    match entries[0].value.as_i32() {
        Some(1) => {},
        _ => {
            return None;
        },
    }
    let mut sections: Vec<EmbeddedBody> = Vec::new();
    let mut guides: Vec<EmbeddedBody> = Vec::new();
    let mut path: Option<EmbeddedBody> = None;
    let mut index: usize = 1;
    assert(bodies_view(sections@) =~= Seq::<BodyView>::empty());
    assert(bodies_view(guides@) =~= Seq::<BodyView>::empty());
    while index < entries.len()
        invariant
            es == entries_view(entries@),
            1 <= index <= entries@.len(),
            curves_of(es) == read_bodies(
                es,
                index as int,
                (bodies_view(sections@), bodies_view(guides@), opt_body_view(path)),
            ),
        decreases entries@.len() - index,
    {
        let ghost acc = (bodies_view(sections@), bodies_view(guides@), opt_body_view(path));
        assert(es[index as int].code == entries@[index as int].code);
        if entries[index].code != 70 || index + 1 >= entries.len() || entries[index + 1].code != 91
            || index + 2 >= entries.len() || entries[index + 2].code != 92 {
            proof {
                if index + 1 < entries@.len() {
                    assert(es[index + 1].code == entries@[index + 1].code);
                }
                if index + 2 < entries@.len() {
                    assert(es[index + 2].code == entries@[index + 2].code);
                }
            }
            return None;
        }
        assert(es[index + 1].code == entries@[index + 1].code);
        assert(es[index + 2].code == entries@[index + 2].code);
        assert(es[index as int].value == entries@[index as int].value@);
        assert(es[index + 1].value == entries@[index + 1].value@);
        assert(es[index + 2].value == entries@[index + 2].value@);
        let role = match entries[index].value.as_i32() {
            Some(v) => v,
            None => {
                return None;
            },
        };
        let type_code = match entries[index + 1].value.as_i32() {
            Some(v) => v,
            None => {
                return None;
            },
        };
        let bits_value = match entries[index + 2].value.as_i32() {
            Some(v) => v,
            None => {
                return None;
            },
        };
        if bits_value <= 0 || bits_value > 0x400_0000 {
            return None;
        }
        let bits = bits_value as usize;
        let want = (bits + 7) / 8;
        let (bytes, next) = match read_chunk_bytes(entries, index + 3, want) {
            Some(found) => found,
            None => {
                return None;
            },
        };
        if bytes.len() != want {
            return None;
        }
        let body = EmbeddedBody { type_code, bit_length: bits, bytes };
        let ghost bv = body@;
        if role == 0 {
            sections.push(body);
            assert(bodies_view(sections@) =~= acc.0.push(bv));
        } else if role == 1 {
            guides.push(body);
            assert(bodies_view(guides@) =~= acc.1.push(bv));
        } else if role == 2 && path.is_none() {
            path = Some(body);
        } else {
            return None;
        }
        index = next;
    }
    Some((sections, guides, path))
}

} // verus!

verus! {

/// A body that a curve record can hold: a positive length of at most
/// 2^26 bits, and exactly the bytes it needs.
pub open spec fn valid_body(b: BodyView) -> bool {
    &&& 0 < b.bit_length <= MAX_BODY_BITS
    &&& b.bytes.len() == bytes_for(b.bit_length as int)
}

proof fn lemma_read_chunks_over(es: Seq<EntryView>, j: int, bytes: Seq<u8>, acc: Seq<u8>, want: int)
    requires
        0 <= j,
        j + chunk_entries(bytes).len() <= es.len(),
        es.subrange(j, j + chunk_entries(bytes).len()) == chunk_entries(bytes),
        j + chunk_entries(bytes).len() == es.len() || es[j + chunk_entries(bytes).len()].code
            != 310,
        acc.len() + bytes.len() <= want,
    ensures
        read_chunks(es, j, acc, want) == Some((acc + bytes, j + chunk_entries(bytes).len())),
    decreases bytes.len(),
{
    let ce = chunk_entries(bytes);
    if bytes.len() == 0 {
        assert(acc + bytes =~= acc);
    } else if bytes.len() <= 127 {
        assert(es[j] == ce[0]);
        assert(read_chunks(es, j + 1, acc + bytes, want) == Some((acc + bytes, j + 1)));
    } else {
        let rest = bytes.skip(127);
        let cr = chunk_entries(rest);
        assert(es[j] == ce[0]);
        assert(es.subrange(j + 1, j + 1 + cr.len()) =~= ce.subrange(1, ce.len() as int));
        assert(ce.subrange(1, ce.len() as int) =~= cr);
        lemma_read_chunks_over(es, j + 1, rest, acc + bytes.take(127), want);
        assert(acc + bytes.take(127) + rest =~= acc + bytes);
    }
}

/// The curves `acc` with the bodies `bs` of role `role` added.
pub open spec fn add_all(acc: Curves, role: i16, bs: Seq<BodyView>) -> Curves {
    if role == 0 {
        (acc.0 + bs, acc.1, acc.2)
    } else if role == 1 {
        (acc.0, acc.1 + bs, acc.2)
    } else {
        (acc.0, acc.1, if bs.len() > 0 {
            Some(bs.last())
        } else {
            acc.2
        })
    }
}

proof fn lemma_read_body(es: Seq<EntryView>, i: int, role: i16, b: BodyView, acc: Curves)
    requires
        0 <= i,
        0 <= role <= 2,
        role == 2 ==> acc.2 is None,
        valid_body(b),
        i + body_entries(role, b).len() <= es.len(),
        es.subrange(i, i + body_entries(role, b).len()) == body_entries(role, b),
        i + body_entries(role, b).len() == es.len() || es[i + body_entries(role, b).len()].code
            == 70,
    ensures
        read_bodies(es, i, acc) == read_bodies(
            es,
            i + body_entries(role, b).len(),
            add_all(acc, role, seq![b]),
        ),
{
    let be = body_entries(role, b);
    let n = be.len() as int;
    let ce = chunk_entries(b.bytes);
    assert(es[i] == be[0]);
    assert(es[i + 1] == be[1]);
    assert(es[i + 2] == be[2]);
    assert((b.bit_length as i32) as int == b.bit_length);
    assert(es.subrange(i + 3, i + 3 + ce.len()) =~= be.subrange(3, n));
    assert(be.subrange(3, n) =~= ce);
    lemma_read_chunks_over(es, i + 3, b.bytes, seq![], bytes_for(b.bit_length as int));
    assert(Seq::<u8>::empty() + b.bytes =~= b.bytes);
    let body = BodyView { type_code: b.type_code, bit_length: ((b.bit_length as i32) as int) as nat, bytes: b.bytes };
    assert(body == b);
    if role == 0 {
        assert(acc.0.push(b) =~= acc.0 + seq![b]);
    } else if role == 1 {
        assert(acc.1.push(b) =~= acc.1 + seq![b]);
    }
}

proof fn lemma_read_role(es: Seq<EntryView>, i: int, role: i16, bs: Seq<BodyView>, acc: Curves)
    requires
        0 <= i,
        0 <= role <= 2,
        role == 2 ==> acc.2 is None && bs.len() <= 1,
        forall|k: int| 0 <= k < bs.len() ==> valid_body(#[trigger] bs[k]),
        i + role_entries(role, bs).len() <= es.len(),
        es.subrange(i, i + role_entries(role, bs).len()) == role_entries(role, bs),
        i + role_entries(role, bs).len() == es.len() || es[i + role_entries(role, bs).len()].code
            == 70,
    ensures
        read_bodies(es, i, acc) == read_bodies(
            es,
            i + role_entries(role, bs).len(),
            add_all(acc, role, bs),
        ),
    decreases bs.len(),
{
    if bs.len() == 0 {
        assert(acc.0 + bs =~= acc.0);
        assert(acc.1 + bs =~= acc.1);
    } else {
        let front = bs.drop_last();
        let b = bs.last();
        let rf = role_entries(role, front);
        let be = body_entries(role, b);
        let m = rf.len() as int;
        assert(role_entries(role, bs) == rf + be);
        let whole = es.subrange(i, i + m + be.len());
        assert(whole == rf + be);
        assert forall|k: int| 0 <= k < m implies es[i + k] == #[trigger] rf[k] by {
            assert(es[i + k] == whole[k]);
            assert(whole[k] == (rf + be)[k]);
        }
        assert forall|k: int| 0 <= k < be.len() implies es[i + m + k] == #[trigger] be[k] by {
            assert(es[i + m + k] == whole[m + k]);
            assert(whole[m + k] == (rf + be)[m + k]);
        }
        assert(es.subrange(i, i + m) =~= rf);
        assert(es.subrange(i + m, i + m + be.len()) =~= be);
        assert(es[i + m] == be[0]);
        assert forall|k: int| 0 <= k < front.len() implies valid_body(#[trigger] front[k]) by {
            assert(front[k] == bs[k]);
        }
        lemma_read_role(es, i, role, front, acc);
        assert(valid_body(bs[bs.len() - 1]));
        let mid = add_all(acc, role, front);
        lemma_read_body(es, i + m, role, b, mid);
        if role == 0 {
            assert(mid.0 + seq![b] =~= acc.0 + bs);
        } else if role == 1 {
            assert(mid.1 + seq![b] =~= acc.1 + bs);
        }
    }
}

proof fn lemma_role_entries_start(role: i16, bs: Seq<BodyView>)
    ensures
        role_entries(role, bs).len() == 0 || role_entries(role, bs)[0].code == 70,
    decreases bs.len(),
{
    if bs.len() > 0 {
        lemma_role_entries_start(role, bs.drop_last());
        let rf = role_entries(role, bs.drop_last());
        let be = body_entries(role, bs.last());
        assert(role_entries(role, bs) == rf + be);
        if rf.len() == 0 {
            assert(role_entries(role, bs)[0] == be[0]);
        } else {
            assert(role_entries(role, bs)[0] == rf[0]);
        }
    }
}

/// Reading back the entries written for embedded curves gives the curves,
/// for bodies of a positive length of at most 2^26 bits that hold exactly
/// the bytes they need.
pub proof fn lemma_curves_round_trip(s: Seq<BodyView>, g: Seq<BodyView>, p: Option<BodyView>)
    requires
        forall|k: int| 0 <= k < s.len() ==> valid_body(#[trigger] s[k]),
        forall|k: int| 0 <= k < g.len() ==> valid_body(#[trigger] g[k]),
        p matches Some(b) ==> valid_body(b),
    ensures
        curves_of(curve_entries(s, g, p)) == Some((s, g, p)),
{
    let es = curve_entries(s, g, p);
    let ps = opt_bodies(p);
    let r0 = role_entries(0, s);
    let r1 = role_entries(1, g);
    let r2 = role_entries(2, ps);
    let a: int = 1 + r0.len() as int;
    let b: int = a + r1.len();
    let c: int = b + r2.len();
    assert(es =~= seq![entry_of(90, ValueView::Int32(1))] + r0 + r1 + r2);
    assert(es.len() == c);
    lemma_role_entries_start(1, g);
    lemma_role_entries_start(2, ps);
    assert(es.subrange(1, a) =~= r0);
    assert(es.subrange(a, b) =~= r1);
    assert(es.subrange(b, c) =~= r2);
    assert(a < es.len() ==> es[a] == (if r1.len() > 0 { r1[0] } else { r2[0] }));
    assert(b < es.len() ==> es[b] == r2[0]);
    assert forall|k: int| 0 <= k < ps.len() implies valid_body(#[trigger] ps[k]) by {
        assert(ps[k] == p->0);
    }
    let acc0: Curves = (seq![], seq![], None);
    lemma_read_role(es, 1, 0, s, acc0);
    let acc1 = add_all(acc0, 0, s);
    lemma_read_role(es, a, 1, g, acc1);
    let acc2 = add_all(acc1, 1, g);
    lemma_read_role(es, b, 2, ps, acc2);
    assert(Seq::<BodyView>::empty() + s =~= s);
    assert(Seq::<BodyView>::empty() + g =~= g);
}

} // verus!
