//! Reading field lists from DWG object data: a count and a flag from the
//! object's main stream, and the fields' handles from its handle stream.
use vstd::prelude::*;
use crate::dwg_bits::{advance, bit_at, bit_long, handle_ref, DwgBitReader};
use crate::dwg_bit_writer::{bit_long_bits, bits_match, handle_bits, lemma_bit_long_round_trip,
    lemma_handle_round_trip, lemma_match_concat, DwgBitWriter};
use crate::types::Handle;

verus! {

/// An object record read from two streams: the bit-coded data, and the
/// handle references that follow it.
pub struct DwgMergedReader {
    pub main: DwgBitReader,
    pub handles: DwgBitReader,
}

impl DwgMergedReader {
    pub open spec fn wf(&self) -> bool {
        self.main.wf() && self.handles.wf()
    }

    pub fn new(main: Vec<u8>, handles: Vec<u8>) -> (r: Self)
        requires
            main.len() * 8 <= usize::MAX,
            handles.len() * 8 <= usize::MAX,
        ensures
            r.main.data@ == main@,
            r.main.pos == 0,
            r.handles.data@ == handles@,
            r.handles.pos == 0,
            r.wf(),
    {
        DwgMergedReader { main: DwgBitReader::new(main), handles: DwgBitReader::new(handles) }
    }

    pub fn read_bit(&mut self) -> (r: bool)
        requires
            old(self).wf(),
        ensures
            r == bit_at(old(self).main.data@, old(self).main.pos as int),
            final(self).main.data@ == old(self).main.data@,
            final(self).main.pos == advance(old(self).main.data@, old(self).main.pos as int, 1),
            final(self).handles == old(self).handles,
            final(self).wf(),
    {
        self.main.read_bit()
    }

    pub fn read_bit_long(&mut self) -> (r: i32)
        requires
            old(self).wf(),
        ensures
            r == bit_long(old(self).main.data@, old(self).main.pos as int).0,
            final(self).main.data@ == old(self).main.data@,
            final(self).main.pos == advance(
                old(self).main.data@,
                old(self).main.pos as int,
                bit_long(old(self).main.data@, old(self).main.pos as int).1,
            ),
            final(self).handles == old(self).handles,
            final(self).wf(),
    {
        self.main.read_bit_long()
    }

    /// The next handle reference of the handle stream, resolved against the
    /// null handle.
    pub fn read_handle(&mut self) -> (r: u64)
        requires
            old(self).wf(),
        ensures
            r == handle_ref(old(self).handles.data@, old(self).handles.pos as int, 0).0,
            final(self).handles.data@ == old(self).handles.data@,
            final(self).handles.pos == advance(
                old(self).handles.data@,
                old(self).handles.pos as int,
                handle_ref(old(self).handles.data@, old(self).handles.pos as int, 0).1,
            ),
            final(self).main == old(self).main,
            final(self).wf(),
    {
        self.handles.read_handle_reference(0)
    }
}

/// The handles of a field list, in stream order.
pub struct FieldList {
    pub unknown: bool,
    pub fields: Vec<Handle>,
}

impl View for FieldList {
    type V = (bool, Seq<u64>);

    open spec fn view(&self) -> (bool, Seq<u64>) {
        (self.unknown, self.fields@.map_values(|h: Handle| h.0))
    }
}

/// A stored count, kept between zero and 20000.
pub open spec fn safe_count(value: int) -> nat {
    if value < 0 {
        0
    } else if value > 20000 {
        20000
    } else {
        value as nat
    }
}

/// `n` consecutive handle references from `pos`, each against the null
/// handle, and the position after them.
pub open spec fn handles_from(data: Seq<u8>, pos: int, n: nat) -> (Seq<u64>, int)
    decreases n,
{
    if n == 0 {
        (Seq::empty(), pos)
    } else {
        let (hs, p) = handles_from(data, pos, (n - 1) as nat);
        let (h, k) = handle_ref(data, p, 0);
        (hs.push(h as u64), advance(data, p, k))
    }
}

/// A field list read from a main stream at `mpos` and a handle stream at
/// `hpos`: the list, and where each stream stops.
pub open spec fn field_list_read(main: Seq<u8>, mpos: int, handles: Seq<u8>, hpos: int) -> (
    (bool, Seq<u64>),
    int,
    int,
) {
    let (count, k) = bit_long(main, mpos);
    let p = advance(main, mpos, k);
    let (hs, hp) = handles_from(handles, hpos, safe_count(count));
    ((bit_at(main, p), hs), advance(main, p, 1), hp)
}

fn clamp_count(value: i32) -> (r: usize)
    ensures
        r == safe_count(value as int),
{
    if value < 0 {
        0
    } else if value > 20000 {
        20000
    } else {
        value as usize
    }
}

pub fn read_field_list(reader: &mut DwgMergedReader) -> (r: FieldList)
    requires
        old(reader).wf(),
    ensures
        (r@, final(reader).main.pos as int, final(reader).handles.pos as int) == field_list_read(
            old(reader).main.data@,
            old(reader).main.pos as int,
            old(reader).handles.data@,
            old(reader).handles.pos as int,
        ),
        final(reader).main.data@ == old(reader).main.data@,
        final(reader).handles.data@ == old(reader).handles.data@,
        final(reader).wf(),
{
    let count = clamp_count(reader.read_bit_long());
    let unknown = reader.read_bit();
    let ghost m = reader.main;
    let ghost hd = reader.handles.data@;
    let ghost hpos = reader.handles.pos as int;
    let mut fields: Vec<Handle> = Vec::new();
    let mut i: usize = 0;
    while i < count
        invariant
            i <= count,
            reader.wf(),
            reader.handles.data@ == hd,
            reader.main == m,
            (fields@.map_values(|h: Handle| h.0), reader.handles.pos as int) == handles_from(
                hd,
                hpos,
                i as nat,
            ),
        decreases count - i,
    {
        let h = reader.read_handle();
        fields.push(Handle(h));
        proof {
            assert(fields@.map_values(|h: Handle| h.0) =~= handles_from(hd, hpos, (i + 1) as nat).0);
        }
        i = i + 1;
    }
    FieldList { unknown, fields }
}

/// The main-stream bits of a field list: the handle count, then the flag.
pub open spec fn field_list_main_bits(list: (bool, Seq<u64>)) -> Seq<bool> {
    bit_long_bits(list.1.len() as i32).push(list.0)
}

/// Handles written one after another as soft-pointer references.
pub open spec fn soft_pointer_bits(hs: Seq<u64>) -> Seq<bool>
    decreases hs.len(),
{
    if hs.len() == 0 {
        Seq::empty()
    } else {
        soft_pointer_bits(hs.drop_last()) + handle_bits(5, hs.last() as nat)
    }
}

/// The reference code of a soft pointer.
pub const SOFT_POINTER: u8 = 5;

/// Writes a field list's count and flag to the main stream and its handles,
/// as soft pointers, to the handle stream.
pub fn write_field_list(value: &FieldList, main: &mut DwgBitWriter, handles: &mut DwgBitWriter)
    requires
        old(main).wf(),
        old(handles).wf(),
        old(main).len + 35 <= usize::MAX,
        old(handles).len + 72 * value.fields.len() <= usize::MAX,
    ensures
        final(main).wf(),
        final(handles).wf(),
        final(main).written() == old(main).written() + field_list_main_bits(value@),
        final(handles).written() == old(handles).written() + soft_pointer_bits(value@.1),
{
    let count = #[verifier::truncate] (value.fields.len() as i32);
    main.write_bit_long(count);
    proof {
        lemma_bit_long_bits_len(count);
    }
    main.write_bit(value.unknown);
    let mut i: usize = 0;
    while i < value.fields.len()
        invariant
            i <= value.fields.len(),
            handles.wf(),
            handles.len + 72 * (value.fields.len() - i) <= usize::MAX,
            handles.written() == old(handles).written() + soft_pointer_bits(value@.1.take(i as int)),
        decreases value.fields.len() - i,
    {
        let h = value.fields[i].0;
        handles.write_handle(SOFT_POINTER, h);
        proof {
            let hs = value@.1.take(i as int + 1);
            assert(hs.drop_last() =~= value@.1.take(i as int));
            assert(hs.last() == h);
            lemma_handle_bits_len(h as nat);
        }
        i = i + 1;
    }
    proof {
        assert(value@.1.take(value.fields.len() as int) =~= value@.1);
        assert(main.written() =~= old(main).written() + field_list_main_bits(value@));
    }
}

proof fn lemma_bit_long_bits_len(v: i32)
    ensures
        bit_long_bits(v).len() <= 34,
{
    crate::dwg_bit_writer::lemma_num_bits_len(v as nat, 8);
    let u: nat = if v < 0 { (v + 4294967296) as nat } else { v as nat };
    crate::dwg_bit_writer::lemma_num_bits_len(u % 256, 8);
    crate::dwg_bit_writer::lemma_num_bits_len((u / 256) % 256, 8);
    crate::dwg_bit_writer::lemma_num_bits_len((u / 65536) % 256, 8);
    crate::dwg_bit_writer::lemma_num_bits_len(u / 16777216, 8);
}

proof fn lemma_handle_bits_len(h: nat)
    requires
        h < 0x1_0000_0000_0000_0000,
    ensures
        handle_bits(5, h).len() <= 72,
{
    crate::dwg_bit_writer::lemma_num_bits_len(5, 4);
    crate::dwg_bit_writer::lemma_num_bits_len(crate::dwg_bit_writer::byte_count(h), 4);
    crate::dwg_bit_writer::lemma_be_byte_bits_len(h, crate::dwg_bit_writer::byte_count(h));
    vstd::arithmetic::power2::lemma2_to64_rest();
    crate::dwg_bit_writer::lemma_byte_count_at_most(h, 8);
}

proof fn lemma_handles_round_trip(data: Seq<u8>, pos: int, hs: Seq<u64>)
    requires
        0 <= pos,
        bits_match(data, pos, soft_pointer_bits(hs)),
        pos + soft_pointer_bits(hs).len() <= data.len() * 8,
    ensures
        handles_from(data, pos, hs.len()) == (hs, pos + soft_pointer_bits(hs).len()),
    decreases hs.len(),
{
    if hs.len() > 0 {
        let front = hs.drop_last();
        let b = soft_pointer_bits(front);
        let last = handle_bits(5, hs.last() as nat);
        lemma_match_concat(data, pos, b, last);
        lemma_handles_round_trip(data, pos, front);
        lemma_handle_round_trip(data, pos + b.len(), 5, hs.last(), 0);
        assert(front.push(hs.last()) =~= hs);
    }
}

/// Reading a field list from where `write_field_list` wrote it gives the
/// list back, and stops both streams where the writing stopped.
pub proof fn lemma_field_list_round_trip(
    m0: DwgBitWriter,
    m1: DwgBitWriter,
    h0: DwgBitWriter,
    h1: DwgBitWriter,
    list: (bool, Seq<u64>),
)
    requires
        m1.wf(),
        h1.wf(),
        list.1.len() <= 20000,
        m1.written() == m0.written() + field_list_main_bits(list),
        h1.written() == h0.written() + soft_pointer_bits(list.1),
    ensures
        field_list_read(m1.data@, m0.written().len() as int, h1.data@, h0.written().len() as int)
            == (list, m1.len as int, h1.len as int),
{
    let mpos = m0.written().len() as int;
    let hpos = h0.written().len() as int;
    let mb = field_list_main_bits(list);
    let hb = soft_pointer_bits(list.1);
    assert(bits_match(m1.data@, mpos, mb)) by {
        assert forall|i: int| 0 <= i < mb.len() implies bit_at(m1.data@, mpos + i) == #[trigger] mb[i] by {
            assert(m1.written().len() == m1.len);
            assert(0 <= mpos + i < m1.len);
            assert((m0.written() + mb)[mpos + i] == mb[i]);
            assert(m1.written()[mpos + i] == bit_at(m1.data@, mpos + i));
        }
    }
    assert(bits_match(h1.data@, hpos, hb)) by {
        assert forall|i: int| 0 <= i < hb.len() implies bit_at(h1.data@, hpos + i) == #[trigger] hb[i] by {
            assert(h1.written().len() == h1.len);
            assert(0 <= hpos + i < h1.len);
            assert((h0.written() + hb)[hpos + i] == hb[i]);
            assert(h1.written()[hpos + i] == bit_at(h1.data@, hpos + i));
        }
    }
    let bl = bit_long_bits(list.1.len() as i32);
    lemma_match_concat(m1.data@, mpos, bl, seq![list.0]);
    assert(mb =~= bl + seq![list.0]);
    lemma_bit_long_round_trip(m1.data@, mpos, list.1.len() as i32);
    assert(m1.len <= m1.data.len() * 8);
    assert(h1.len <= h1.data.len() * 8);
    assert(h1.written().len() == h1.len);
    assert(seq![list.0][0] == list.0);
    lemma_handles_round_trip(h1.data@, hpos, list.1);
    assert((list.1.len() as i32) as int == list.1.len());
    assert(safe_count(list.1.len() as int) == list.1.len());
    assert(m1.written().len() == m1.len);
    assert(mb.len() == bl.len() + 1);
    assert(bits_match(m1.data@, mpos + bl.len(), seq![list.0]));
    assert(bit_at(m1.data@, mpos + bl.len() + 0) == list.0);
    assert(advance(m1.data@, mpos, bl.len()) == mpos + bl.len());
    assert(advance(m1.data@, mpos + bl.len(), 1) == m1.len);
}

} // verus!
