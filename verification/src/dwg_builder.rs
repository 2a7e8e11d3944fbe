//! The DWG document builder's own state: the failsafe switch and the
//! notifications it collects, the name lookups by handle that it builds
//! from the table entries, and the translation of class-based object type
//! codes.
use vstd::prelude::*;

use std::collections::HashMap;

use crate::defaults::follow;
use crate::document::{
    object_at, BlockRecord, CadDocument, DimStyle, DxfClass, EntityKind, EntityRecord, Header,
};
use crate::objects::ObjectType;
use crate::types::Handle;
use crate::dxf_reader::ReadNotice;
use crate::seqs::{first_index, is_first, lemma_first_index_is, lemma_first_index_none};
use crate::text::{digit_char, digits_text, owned, push_digits64, push_text, same_text};

verus! {

broadcast use vstd::std_specs::hash::group_hash_axioms;

/// Table-entry names by handle: layers, blocks, text styles, line types
/// and dimension styles.
pub struct HandleMaps {
    pub layers: HashMap<u64, String>,
    pub blocks: HashMap<u64, String>,
    pub text_styles: HashMap<u64, String>,
    pub linetypes: HashMap<u64, String>,
    pub dim_styles: HashMap<u64, String>,
}

/// The name stored under `handle`, or `default`.
pub open spec fn name_or(m: Map<u64, String>, handle: u64, default: Seq<char>) -> Seq<char> {
    if m.contains_key(handle) {
        m[handle]@
    } else {
        default
    }
}

pub(crate) fn lookup(m: &HashMap<u64, String>, handle: u64) -> (r: Option<String>)
    ensures
        match r {
            Some(s) => m@.contains_key(handle) && s@ == m@[handle]@,
            None => !m@.contains_key(handle),
        },
{
    match m.get(&handle) {
        Some(s) => Some(owned(s.as_str())),
        None => None,
    }
}

impl HandleMaps {
    pub fn new() -> (r: Self)
        ensures
            r.layers@ == Map::<u64, String>::empty(),
            r.blocks@ == Map::<u64, String>::empty(),
            r.text_styles@ == Map::<u64, String>::empty(),
            r.linetypes@ == Map::<u64, String>::empty(),
            r.dim_styles@ == Map::<u64, String>::empty(),
    {
        HandleMaps {
            layers: HashMap::new(),
            blocks: HashMap::new(),
            text_styles: HashMap::new(),
            linetypes: HashMap::new(),
            dim_styles: HashMap::new(),
        }
    }

    /// The layer name of `handle`, `0` when it is not known.
    pub fn layer_name(&self, handle: u64) -> (r: String)
        ensures
            r@ == name_or(self.layers@, handle, "0"@),
    {
        match lookup(&self.layers, handle) {
            Some(s) => s,
            None => owned("0"),
        }
    }

    /// The block name of `handle`, `*U` and the handle's decimal number
    /// when it is not known.
    pub fn block_name(&self, handle: u64) -> (r: String)
        ensures
            r@ == name_or(self.blocks@, handle, "*U"@ + digits_text(handle as nat)),
    {
        match lookup(&self.blocks, handle) {
            Some(s) => s,
            None => {
                let mut out = owned("*U");
                push_digits64(&mut out, handle);
                out
            },
        }
    }

    /// The text style name of `handle`, `STANDARD` when it is not known.
    pub fn style_name(&self, handle: u64) -> (r: String)
        ensures
            r@ == name_or(self.text_styles@, handle, "STANDARD"@),
    {
        match lookup(&self.text_styles, handle) {
            Some(s) => s,
            None => owned("STANDARD"),
        }
    }

    /// The dimension style name of `handle`, `Standard` when it is not
    /// known.
    pub fn dimstyle_name(&self, handle: u64) -> (r: String)
        ensures
            r@ == name_or(self.dim_styles@, handle, "Standard"@),
    {
        match lookup(&self.dim_styles, handle) {
            Some(s) => s,
            None => owned("Standard"),
        }
    }
}

/// The internal type code of a raw DWG type code: class-based codes (500
/// and up) through the class map where it knows them, fixed codes as they
/// are.
pub open spec fn resolved_type_code(raw: i16, class_map: Map<i16, i16>) -> i16 {
    if raw >= 500 && class_map.contains_key(raw) {
        class_map[raw]
    } else {
        raw
    }
}

/// Resolve a raw DWG type code to the internal one.
pub fn resolve_type_code(raw: i16, class_map: &HashMap<i16, i16>) -> (r: i16)
    ensures
        r == resolved_type_code(raw, class_map@),
{
    if raw >= 500 {
        match class_map.get(&raw) {
            Some(code) => *code,
            None => raw,
        }
    } else {
        raw
    }
}

/// The DXF names of the classes, in order.
pub open spec fn class_names(classes: Seq<DxfClass>) -> Seq<Seq<char>> {
    classes.map_values(|c: DxfClass| c.dxf_name@)
}

/// `r` is an internal type code that `f` may give for some text equal to
/// `name`.
pub open spec fn code_answered<F: Fn(&str) -> Option<i16>>(
    f: F,
    name: Seq<char>,
    r: Option<i16>,
) -> bool {
    exists|s: &str| s@ == name && #[trigger] call_ensures(f, (s,), r)
}

/// `codes` holds, for each name of `names`, an internal type code that `f`
/// may give for that name.
pub open spec fn code_answers<F: Fn(&str) -> Option<i16>>(
    f: F,
    names: Seq<Seq<char>>,
    codes: Seq<Option<i16>>,
) -> bool {
    &&& codes.len() == names.len()
    &&& forall|i: int| 0 <= i < codes.len() ==> #[trigger] code_answered(f, names[i], codes[i])
}

/// The class map of `classes` whose internal type codes are `codes`: each
/// class numbered 500 or more that has a code maps its number to that
/// code; of two classes with one number, the later one wins.
pub open spec fn class_type_map(classes: Seq<DxfClass>, codes: Seq<Option<i16>>) -> Map<i16, i16>
    decreases classes.len(),
{
    if classes.len() == 0 {
        Map::empty()
    } else {
        let m = class_type_map(classes.drop_last(), codes.take(classes.len() - 1));
        match codes[classes.len() - 1] {
            Some(c) => if classes.last().class_number >= 500 {
                m.insert(classes.last().class_number, c)
            } else {
                m
            },
            None => m,
        }
    }
}

/// Builds a drawing from the records of a DWG object reader `R`.
pub struct DwgDocumentBuilder<R> {
    obj_reader: R,
    /// Whether skipped records are reported as notifications.
    failsafe: bool,
    /// Notifications collected during building.
    notifications: Vec<ReadNotice>,
}

impl<R> DwgDocumentBuilder<R> {
    /// A builder over the object reader, strict, with no notifications.
    pub fn new(obj_reader: R) -> (r: Self)
        ensures
            r.reader() == obj_reader,
            !r.is_failsafe(),
            r.notice_count() == 0,
    {
        DwgDocumentBuilder { obj_reader, failsafe: false, notifications: Vec::new() }
    }

    pub closed spec fn reader(&self) -> R {
        self.obj_reader
    }

    pub closed spec fn is_failsafe(&self) -> bool {
        self.failsafe
    }

    pub closed spec fn notice_count(&self) -> nat {
        self.notifications@.len()
    }

    /// Enable or disable failsafe mode: with it, skipped records are
    /// reported as notifications instead of being silently lost.
    pub fn set_failsafe(&mut self, failsafe: bool)
        ensures
            final(self).is_failsafe() == failsafe,
            final(self).reader() == old(self).reader(),
            final(self).notice_count() == old(self).notice_count(),
    {
        self.failsafe = failsafe;
    }

    /// Whether failsafe mode is on.
    pub fn failsafe(&self) -> (r: bool)
        ensures
            r == self.is_failsafe(),
    {
        self.failsafe
    }
}

impl<R> DwgDocumentBuilder<R> {
    /// The map from class numbers (500 and up) to internal object
    /// type codes, for the classes of `document` whose DXF name
    /// `type_code` knows.
    pub fn build_class_type_map(
        document: &CadDocument,
        type_code: impl Fn(&str) -> Option<i16>,
    ) -> (r: HashMap<i16, i16>)
        requires
            forall|s: &str| call_requires(type_code, (s,)),
        ensures
            exists|codes: Seq<Option<i16>>|
                #[trigger] code_answers(type_code, class_names(document.classes@), codes) && r@
                    == class_type_map(document.classes@, codes),
    {
        let mut map: HashMap<i16, i16> = HashMap::new();
        let ghost mut codes: Seq<Option<i16>> = seq![];
        let ghost classes = document.classes@;
        let mut i: usize = 0;
        while i < document.classes.len()
            invariant
                i <= classes.len(),
                classes == document.classes@,
                forall|s: &str| call_requires(type_code, (s,)),
                code_answers(type_code, class_names(classes.take(i as int)), codes),
                map@ == class_type_map(classes.take(i as int), codes),
            decreases classes.len() - i,
        {
            let class = &document.classes[i];
            let found = type_code(class.dxf_name.as_str());
            match found {
                Some(internal) => {
                    if class.class_number >= 500 {
                        map.insert(class.class_number, internal);
                    }
                },
                None => {},
            }
            proof {
                let prev = codes;
                codes = codes.push(found);
                assert(classes.take(i + 1).drop_last() =~= classes.take(i as int));
                assert(codes.take(i as int) =~= prev);
                assert(class_names(classes.take(i + 1)) =~= class_names(classes.take(i as int)).push(
                    class.dxf_name@,
                ));
                assert(code_answered(type_code, class.dxf_name@, found));
                assert forall|j: int| 0 <= j < codes.len() implies #[trigger] code_answered(
                    type_code,
                    class_names(classes.take(i + 1))[j],
                    codes[j],
                ) by {
                    if j < i {
                        assert(class_names(classes.take(i + 1))[j] == class_names(
                            classes.take(i as int),
                        )[j]);
                    }
                }
            }
            i = i + 1;
        }
        assert(classes.take(classes.len() as int) =~= classes);
        map
    }
}

} // verus!

verus! {

/// The handle values of the block records.
pub open spec fn block_handle_values(brs: Seq<BlockRecord>) -> Seq<u64> {
    brs.map_values(|b: BlockRecord| b.handle.0)
}

/// The handle values of the dimension styles that a block record also
/// has, in table order.
pub open spec fn colliding_dim_handles(ds: Seq<DimStyle>, brs: Seq<BlockRecord>) -> Seq<u64>
    decreases ds.len(),
{
    if ds.len() == 0 {
        seq![]
    } else {
        let rest = colliding_dim_handles(ds.drop_last(), brs);
        if block_handle_values(brs).contains(ds.last().handle.0) {
            rest.push(ds.last().handle.0)
        } else {
            rest
        }
    }
}

/// The dimension styles with handle `stale` given handle `new`.
pub open spec fn rehome_dim_style(ds: Seq<DimStyle>, stale: u64, new: Handle) -> Seq<DimStyle> {
    ds.map_values(|d: DimStyle| if d.handle.0 == stale {
        DimStyle { handle: new, ..d }
    } else {
        d
    })
}

/// The dimension styles and header after each handle of `cs` in turn is
/// replaced by the next handle, the header's current dimension style and
/// dimension text style following.
pub open spec fn rehomed(ds: Seq<DimStyle>, hd: Header, cs: Seq<u64>) -> (Seq<DimStyle>, Header)
    decreases cs.len(),
{
    if cs.len() == 0 {
        (ds, hd)
    } else {
        let (d1, h1) = rehomed(ds, hd, cs.drop_last());
        let new = Handle(h1.handle_seed);
        let stale = cs.last();
        (
            rehome_dim_style(d1, stale, new),
            Header {
                handle_seed: (h1.handle_seed + 1) as u64,
                current_dimstyle_handle: follow(h1.current_dimstyle_handle, stale, new),
                dim_text_style_handle: follow(h1.dim_text_style_handle, stale, new),
                ..h1
            },
        )
    }
}

proof fn lemma_colliding_len(ds: Seq<DimStyle>, brs: Seq<BlockRecord>)
    ensures
        colliding_dim_handles(ds, brs).len() <= ds.len(),
    decreases ds.len(),
{
    if ds.len() > 0 {
        lemma_colliding_len(ds.drop_last(), brs);
    }
}

/// Give the dimension styles that share their handle with a block record
/// fresh handles, the header's current dimension style and dimension text
/// style following; a drawing's seeded standard entries can otherwise end
/// up at a handle that one of the file's block records owns.
pub fn repair_dim_style_handle_collisions(document: &mut CadDocument)
    requires
        old(document).header.handle_seed + old(document).dim_styles@.len() < u64::MAX,
    ensures
        (final(document).dim_styles@, final(document).header) == rehomed(
            old(document).dim_styles@,
            old(document).header,
            colliding_dim_handles(old(document).dim_styles@, old(document).block_records@),
        ),
        *final(document) == (CadDocument {
            dim_styles: final(document).dim_styles,
            header: final(document).header,
            ..*old(document)
        }),
{
    let ghost ds0 = document.dim_styles@;
    let ghost brs = document.block_records@;
    let mut colliding: Vec<u64> = Vec::new();
    let mut i: usize = 0;
    while i < document.dim_styles.len()
        invariant
            i <= ds0.len(),
            document.dim_styles@ == ds0,
            document.block_records@ == brs,
            colliding@ == colliding_dim_handles(ds0.take(i as int), brs),
        decreases ds0.len() - i,
    {
        let h = document.dim_styles[i].handle.0;
        proof {
            assert(ds0.take(i + 1).drop_last() =~= ds0.take(i as int));
        }
        let mut j: usize = 0;
        let mut found = false;
        while j < document.block_records.len()
            invariant
                j <= brs.len(),
                document.block_records@ == brs,
                found == exists|k: int| 0 <= k < j && #[trigger] brs[k].handle.0 == h,
            decreases brs.len() - j,
        {
            if document.block_records[j].handle.0 == h {
                found = true;
            }
            j = j + 1;
        }
        proof {
            if found {
                let k = choose|k: int| 0 <= k < brs.len() && #[trigger] brs[k].handle.0 == h;
                assert(block_handle_values(brs)[k] == h);
            }
            if block_handle_values(brs).contains(h) {
                let k = choose|k: int| 0 <= k < block_handle_values(brs).len() && block_handle_values(brs)[k] == h;
                assert(brs[k].handle.0 == h);
            }
        }
        if found {
            colliding.push(h);
        }
        i = i + 1;
    }
    assert(ds0.take(ds0.len() as int) =~= ds0);
    proof {
        lemma_colliding_len(ds0, brs);
    }
    let ghost cs = colliding@;
    let ghost doc0 = *document;
    let mut k: usize = 0;
    while k < colliding.len()
        invariant
            k <= cs.len(),
            cs == colliding@,
            cs.len() <= ds0.len(),
            doc0.header.handle_seed + ds0.len() < u64::MAX,
            document.header.handle_seed == doc0.header.handle_seed + k,
            (document.dim_styles@, document.header) == rehomed(ds0, doc0.header, cs.take(k as int)),
            *document == (CadDocument {
                dim_styles: document.dim_styles,
                header: document.header,
                ..doc0
            }),
        decreases cs.len() - k,
    {
        let stale = colliding[k];
        proof {
            assert(cs.take(k + 1).drop_last() =~= cs.take(k as int));
        }
        let ghost before = document.dim_styles@;
        let new = document.allocate_handle();
        let ghost mid = *document;
        let mut m: usize = 0;
        while m < document.dim_styles.len()
            invariant
                *document == (CadDocument { dim_styles: document.dim_styles, ..mid }),
                m <= before.len(),
                document.dim_styles@.len() == before.len(),
                forall|x: int| 0 <= x < m ==> #[trigger] document.dim_styles@[x] == rehome_dim_style(before, stale, new)[x],
                forall|x: int| m <= x < before.len() ==> #[trigger] document.dim_styles@[x] == before[x],
            decreases before.len() - m,
        {
            if document.dim_styles[m].handle.0 == stale {
                let mut d = document.dim_styles.remove(m);
                d.handle = new;
                document.dim_styles.insert(m, d);
            }
            m = m + 1;
        }
        assert(document.dim_styles@ =~= rehome_dim_style(before, stale, new));
        if document.header.current_dimstyle_handle.0 == stale {
            document.header.current_dimstyle_handle = new;
        }
        if document.header.dim_text_style_handle.0 == stale {
            document.header.dim_text_style_handle = new;
        }
        k = k + 1;
    }
    assert(cs.take(cs.len() as int) =~= cs);
}

} // verus!

verus! {

proof fn lemma_colliding_covers(ds: Seq<DimStyle>, brs: Seq<BlockRecord>, i: int)
    requires
        0 <= i < ds.len(),
        block_handle_values(brs).contains(ds[i].handle.0),
    ensures
        colliding_dim_handles(ds, brs).contains(ds[i].handle.0),
    decreases ds.len(),
{
    let rest = colliding_dim_handles(ds.drop_last(), brs);
    if i == ds.len() - 1 {
        assert(colliding_dim_handles(ds, brs).last() == ds[i].handle.0);
    } else {
        assert(ds.drop_last()[i] == ds[i]);
        lemma_colliding_covers(ds.drop_last(), brs, i);
        let k = choose|k: int| 0 <= k < rest.len() && rest[k] == ds[i].handle.0;
        assert(colliding_dim_handles(ds, brs)[k] == rest[k]);
    }
}

proof fn lemma_colliding_below(ds: Seq<DimStyle>, brs: Seq<BlockRecord>, b: u64)
    requires
        forall|i: int| 0 <= i < ds.len() ==> (#[trigger] ds[i]).handle.0 < b,
    ensures
        forall|j: int|
            0 <= j < colliding_dim_handles(ds, brs).len() ==> #[trigger] colliding_dim_handles(ds, brs)[j]
                < b,
    decreases ds.len(),
{
    if ds.len() > 0 {
        assert forall|i: int| 0 <= i < ds.drop_last().len() implies (#[trigger] ds.drop_last()[i]).handle.0
            < b by {
            assert(ds.drop_last()[i] == ds[i]);
        }
        lemma_colliding_below(ds.drop_last(), brs, b);
        assert(ds[ds.len() - 1].handle.0 < b);
        let rest = colliding_dim_handles(ds.drop_last(), brs);
        let all = colliding_dim_handles(ds, brs);
        assert forall|j: int| 0 <= j < all.len() implies #[trigger] all[j] < b by {
            if j < rest.len() {
                assert(all[j] == rest[j]);
            }
        }
    }
}

proof fn lemma_rehomed_progress(ds: Seq<DimStyle>, hd: Header, cs: Seq<u64>, brs: Seq<BlockRecord>, k: int)
    requires
        0 <= k <= cs.len(),
        hd.handle_seed + cs.len() <= u64::MAX,
        forall|j: int| 0 <= j < cs.len() ==> #[trigger] cs[j] < hd.handle_seed,
        forall|i: int|
            0 <= i < ds.len() && block_handle_values(brs).contains((#[trigger] ds[i]).handle.0)
                ==> cs.contains(ds[i].handle.0),
    ensures
        ({
            let (d, h) = rehomed(ds, hd, cs.take(k));
            &&& h.handle_seed == hd.handle_seed + k
            &&& d.len() == ds.len()
            &&& forall|i: int|
                0 <= i < ds.len() ==> {
                    ||| ((#[trigger] d[i]).handle == ds[i].handle && (!block_handle_values(brs).contains(
                        ds[i].handle.0,
                    ) || exists|j: int| k <= j < cs.len() && cs[j] == ds[i].handle.0))
                    ||| (hd.handle_seed <= d[i].handle.0 < hd.handle_seed + k)
                }
        }),
    decreases k,
{
    if k == 0 {
        assert(cs.take(0) =~= Seq::<u64>::empty());
        assert forall|i: int| 0 <= i < ds.len() && block_handle_values(brs).contains(
            (#[trigger] ds[i]).handle.0,
        ) implies exists|j: int| 0 <= j < cs.len() && cs[j] == ds[i].handle.0 by {
            assert(cs.contains(ds[i].handle.0));
        }
    } else {
        lemma_rehomed_progress(ds, hd, cs, brs, k - 1);
        assert(cs.take(k).drop_last() =~= cs.take(k - 1));
        assert(cs.take(k).last() == cs[k - 1]);
        let (d0, h0) = rehomed(ds, hd, cs.take(k - 1));
        let (d, h) = rehomed(ds, hd, cs.take(k));
        let stale = cs[k - 1];
        assert(stale < hd.handle_seed);
        assert forall|i: int| 0 <= i < ds.len() implies {
            ||| ((#[trigger] d[i]).handle == ds[i].handle && (!block_handle_values(brs).contains(
                ds[i].handle.0,
            ) || exists|j: int| k <= j < cs.len() && cs[j] == ds[i].handle.0))
            ||| (hd.handle_seed <= d[i].handle.0 < hd.handle_seed + k)
        } by {
            assert(d0[i] == d0[i]);
            if d0[i].handle.0 == stale {
                assert(d[i].handle.0 == h0.handle_seed);
            } else {
                assert(d[i] == d0[i]);
                if d0[i].handle == ds[i].handle && block_handle_values(brs).contains(ds[i].handle.0) {
                    let j = choose|j: int| k - 1 <= j < cs.len() && cs[j] == ds[i].handle.0;
                    assert(j != k - 1);
                }
            }
        }
    }
}

/// When every dimension-style and block-record handle is below the handle
/// seed, after the repair no dimension style shares its handle with a
/// block record.
pub proof fn lemma_repaired_dim_styles_clear(ds: Seq<DimStyle>, brs: Seq<BlockRecord>, hd: Header)
    requires
        forall|i: int| 0 <= i < ds.len() ==> (#[trigger] ds[i]).handle.0 < hd.handle_seed,
        forall|j: int| 0 <= j < brs.len() ==> (#[trigger] brs[j]).handle.0 < hd.handle_seed,
        hd.handle_seed + ds.len() < u64::MAX,
    ensures
        ({
            let d = rehomed(ds, hd, colliding_dim_handles(ds, brs)).0;
            &&& d.len() == ds.len()
            &&& forall|i: int, j: int|
                0 <= i < d.len() && 0 <= j < brs.len() ==> (#[trigger] d[i]).handle.0 != (
                #[trigger] brs[j]).handle.0
        }),
{
    let cs = colliding_dim_handles(ds, brs);
    lemma_colliding_len(ds, brs);
    lemma_colliding_below(ds, brs, hd.handle_seed);
    assert forall|i: int|
        0 <= i < ds.len() && block_handle_values(brs).contains((#[trigger] ds[i]).handle.0) implies cs.contains(
        ds[i].handle.0,
    ) by {
        lemma_colliding_covers(ds, brs, i);
    }
    lemma_rehomed_progress(ds, hd, cs, brs, cs.len() as int);
    assert(cs.take(cs.len() as int) =~= cs);
    let d = rehomed(ds, hd, cs).0;
    assert forall|i: int, j: int| 0 <= i < d.len() && 0 <= j < brs.len() implies (#[trigger] d[i]).handle.0
        != (#[trigger] brs[j]).handle.0 by {
        if d[i].handle.0 == brs[j].handle.0 {
            assert(block_handle_values(brs)[j] == brs[j].handle.0);
            assert(block_handle_values(brs).contains(brs[j].handle.0));
        }
    }
}

} // verus!

verus! {

/// Parsed block headers as handle and name.
pub open spec fn block_views(bs: Seq<(u64, String)>) -> Seq<(u64, Seq<char>)> {
    bs.map_values(|b: (u64, String)| (b.0, b.1@))
}

/// A block header named `name`.
pub open spec fn has_name(name: Seq<char>) -> spec_fn((u64, Seq<char>)) -> bool {
    |b: (u64, Seq<char>)| b.1 == name
}

/// The handle of the active block of this name: the header's model space
/// for `*Model_Space`, its paper space for `*Paper_Space`, else null.
pub open spec fn active_block(name: Seq<char>, model: Handle, paper: Handle) -> Handle {
    if name == "*Model_Space"@ {
        model
    } else if name == "*Paper_Space"@ {
        paper
    } else {
        Handle(0)
    }
}

/// A block header named `name` whose handle is `active` (not null).
pub open spec fn is_active_block(name: Seq<char>, active: Handle) -> spec_fn((u64, Seq<char>)) -> bool {
    |b: (u64, Seq<char>)| b.1 == name && active.0 != 0 && b.0 == active.0
}

/// The block header of name `name` that keeps it: the active one, else the
/// first one.
pub open spec fn canonical_block(bs: Seq<(u64, Seq<char>)>, name: Seq<char>, model: Handle, paper: Handle) -> int {
    let a = first_index(bs, is_active_block(name, active_block(name, model, paper)));
    if a >= 0 {
        a
    } else {
        first_index(bs, has_name(name))
    }
}

/// How many of the first `i` block headers are named `name`.
pub open spec fn named_before(bs: Seq<(u64, Seq<char>)>, name: Seq<char>, i: int) -> nat
    decreases i,
{
    if i <= 0 {
        0
    } else {
        named_before(bs, name, i - 1) + if bs[i - 1].1 == name {
            1nat
        } else {
            0nat
        }
    }
}

/// How many of the first `i` block headers are named `name` and are not
/// the one at `canon`.
pub open spec fn rank_before(bs: Seq<(u64, Seq<char>)>, name: Seq<char>, canon: int, i: int) -> nat
    decreases i,
{
    if i <= 0 {
        0
    } else {
        rank_before(bs, name, canon, i - 1) + if bs[i - 1].1 == name && i - 1 != canon {
            1nat
        } else {
            0nat
        }
    }
}

/// The new name of block header `i`, when it has to give up its name: of
/// several headers of one name, all but the canonical one take the name
/// followed by a counter, 0, 1, 2, ... in order.
pub open spec fn deduped_name(bs: Seq<(u64, Seq<char>)>, i: int, model: Handle, paper: Handle) -> Option<
    Seq<char>,
> {
    let name = bs[i].1;
    let canon = canonical_block(bs, name, model, paper);
    if named_before(bs, name, bs.len() as int) <= 1 || i == canon {
        None
    } else {
        Some(name + digits_text(rank_before(bs, name, canon, i)))
    }
}

/// The name of block header `i` after renaming.
pub open spec fn final_block_name(bs: Seq<(u64, Seq<char>)>, i: int, model: Handle, paper: Handle) -> Seq<char> {
    match deduped_name(bs, i, model, paper) {
        Some(n) => n,
        None => bs[i].1,
    }
}

/// The block-name map after the renamed headers of the first `k` are
/// stored under their handles.
pub open spec fn renamed_blocks(
    m: Map<u64, Seq<char>>,
    bs: Seq<(u64, Seq<char>)>,
    model: Handle,
    paper: Handle,
    k: int,
) -> Map<u64, Seq<char>>
    decreases k,
{
    if k <= 0 {
        m
    } else {
        let prev = renamed_blocks(m, bs, model, paper, k - 1);
        match deduped_name(bs, k - 1, model, paper) {
            Some(n) => prev.insert(bs[k - 1].0, n),
            None => prev,
        }
    }
}

/// The new name of block header `i`, if it has to give up its name.
fn block_rename(blocks: &Vec<(u64, String)>, i: usize, model: Handle, paper: Handle) -> (r: Option<String>)
    requires
        i < blocks@.len(),
    ensures
        match r {
            Some(s) => deduped_name(block_views(blocks@), i as int, model, paper) == Some(s@),
            None => deduped_name(block_views(blocks@), i as int, model, paper) is None,
        },
{
    let ghost bs = block_views(blocks@);
    let n = blocks.len();
    let name = blocks[i].1.as_str();
    assert(bs[i as int].1 == name@);
    let active = if same_text(name, "*Model_Space") {
        model
    } else if same_text(name, "*Paper_Space") {
        paper
    } else {
        Handle(0)
    };
    assert(active == active_block(name@, model, paper));
    let mut count: usize = 0;
    let mut first: usize = n;
    let mut first_active: usize = n;
    let mut j: usize = 0;
    while j < n
        invariant
            n == blocks@.len(),
            bs == block_views(blocks@),
            j <= n,
            count == named_before(bs, name@, j as int),
            count <= j,
            first <= n,
            first_active <= n,
            first == n ==> forall|k: int| 0 <= k < j ==> !(#[trigger] has_name(name@)(bs[k])),
            first < n ==> first < j && is_first(bs, has_name(name@), first as int),
            first_active == n ==> forall|k: int|
                0 <= k < j ==> !(#[trigger] is_active_block(name@, active)(bs[k])),
            first_active < n ==> first_active < j && is_first(
                bs,
                is_active_block(name@, active),
                first_active as int,
            ),
        decreases n - j,
    {
        assert(bs[j as int] == (blocks@[j as int].0, blocks@[j as int].1@));
        if same_text(blocks[j].1.as_str(), name) {
            count = count + 1;
            if first == n {
                first = j;
            }
            if first_active == n && active.0 != 0 && blocks[j].0 == active.0 {
                first_active = j;
            }
        }
        j = j + 1;
    }
    proof {
        if first < n {
            lemma_first_index_is(bs, has_name(name@), first as int);
        }
        if first_active < n {
            lemma_first_index_is(bs, is_active_block(name@, active), first_active as int);
        } else {
            lemma_first_index_none(bs, is_active_block(name@, active));
        }
        assert(has_name(name@)(bs[i as int]));
    }
    let canon = if first_active < n {
        first_active
    } else {
        first
    };
    assert(canon as int == canonical_block(bs, name@, model, paper));
    if count <= 1 || i == canon {
        return None;
    }
    let mut rank: usize = 0;
    let mut k: usize = 0;
    while k < i
        invariant
            i < n,
            n == blocks@.len(),
            bs == block_views(blocks@),
            k <= i,
            rank == rank_before(bs, name@, canon as int, k as int),
            rank <= k,
        decreases i - k,
    {
        assert(bs[k as int] == (blocks@[k as int].0, blocks@[k as int].1@));
        if same_text(blocks[k].1.as_str(), name) && k != canon {
            rank = rank + 1;
        }
        k = k + 1;
    }
    let mut out = owned(name);
    push_digits64(&mut out, rank as u64);
    Some(out)
}

/// Rename the block headers that share a name: the one whose handle is
/// the header's active model (or paper) space keeps `*Model_Space` (or
/// `*Paper_Space`), else the first one keeps the name; the others take
/// the name followed by 0, 1, 2, ... in order, and the block-name map
/// records each new name under its handle.
pub fn dedup_block_names(
    blocks: &mut Vec<(u64, String)>,
    model: Handle,
    paper: Handle,
    maps: &mut HandleMaps,
)
    ensures
        final(blocks)@.len() == old(blocks)@.len(),
        forall|i: int|
            0 <= i < old(blocks)@.len() ==> (#[trigger] final(blocks)@[i]).0 == old(blocks)@[i].0
                && final(blocks)@[i].1@ == final_block_name(block_views(old(blocks)@), i, model, paper),
        final(maps).blocks@.map_values(|s: String| s@) == renamed_blocks(
            old(maps).blocks@.map_values(|s: String| s@),
            block_views(old(blocks)@),
            model,
            paper,
            old(blocks)@.len() as int,
        ),
        final(maps).layers == old(maps).layers,
        final(maps).text_styles == old(maps).text_styles,
        final(maps).linetypes == old(maps).linetypes,
        final(maps).dim_styles == old(maps).dim_styles,
{
    let ghost bs = block_views(blocks@);
    let ghost start = blocks@;
    let n = blocks.len();
    let mut renames: Vec<Option<String>> = Vec::new();
    let mut i: usize = 0;
    while i < n
        invariant
            n == blocks@.len(),
            blocks@ == start,
            bs == block_views(start),
            i <= n,
            renames@.len() == i,
            forall|k: int|
                0 <= k < i ==> match #[trigger] renames@[k] {
                    Some(s) => deduped_name(bs, k, model, paper) == Some(s@),
                    None => deduped_name(bs, k, model, paper) is None,
                },
        decreases n - i,
    {
        let r = block_rename(blocks, i, model, paper);
        renames.push(r);
        i = i + 1;
    }
    let ghost m0 = maps.blocks@.map_values(|s: String| s@);
    let ghost maps0 = *maps;
    let mut k: usize = 0;
    while k < n
        invariant
            n == blocks@.len(),
            n == start.len(),
            bs == block_views(start),
            k <= n,
            renames@.len() == n,
            forall|x: int|
                0 <= x < n ==> match #[trigger] renames@[x] {
                    Some(s) => deduped_name(bs, x, model, paper) == Some(s@),
                    None => deduped_name(bs, x, model, paper) is None,
                },
            forall|x: int|
                0 <= x < n ==> (#[trigger] blocks@[x]).0 == start[x].0,
            forall|x: int|
                0 <= x < k ==> (#[trigger] blocks@[x]).1@ == final_block_name(bs, x, model, paper),
            forall|x: int| k <= x < n ==> (#[trigger] blocks@[x]).1 == start[x].1,
            maps.blocks@.map_values(|s: String| s@) == renamed_blocks(m0, bs, model, paper, k as int),
            maps.layers == maps0.layers,
            maps.text_styles == maps0.text_styles,
            maps.linetypes == maps0.linetypes,
            maps.dim_styles == maps0.dim_styles,
        decreases n - k,
    {
        assert(bs[k as int] == (start[k as int].0, start[k as int].1@));
        match &renames[k] {
            Some(name) => {
                let h = blocks[k].0;
                let ghost before = maps.blocks@;
                blocks.set(k, (h, name.clone()));
                maps.blocks.insert(h, name.clone());
                proof {
                    assert(maps.blocks@.map_values(|s: String| s@) =~= before.map_values(
                        |s: String| s@,
                    ).insert(h, name@));
                }
            },
            None => {},
        }
        k = k + 1;
    }
}

} // verus!

verus! {

proof fn lemma_named_two(bs: Seq<(u64, Seq<char>)>, name: Seq<char>, i: int, j: int, k: int)
    requires
        0 <= i < j < bs.len(),
        bs[i].1 == name,
        bs[j].1 == name,
        0 <= k <= bs.len(),
    ensures
        named_before(bs, name, k) >= (if i < k {
            1int
        } else {
            0int
        }) + (if j < k {
            1int
        } else {
            0int
        }),
    decreases k,
{
    if k > 0 {
        lemma_named_two(bs, name, i, j, k - 1);
    }
}

proof fn lemma_rank_mono(bs: Seq<(u64, Seq<char>)>, name: Seq<char>, canon: int, a: int, b: int)
    requires
        0 <= a <= b,
    ensures
        rank_before(bs, name, canon, a) <= rank_before(bs, name, canon, b),
    decreases b,
{
    if a < b {
        lemma_rank_mono(bs, name, canon, a, b - 1);
    }
}

proof fn lemma_digit_char_injective(a: nat, b: nat)
    requires
        a < 10,
        b < 10,
        digit_char(a) == digit_char(b),
    ensures
        a == b,
{
    assert(digit_char(a) as u32 == (a + 48) as u32);
    assert(digit_char(b) as u32 == (b + 48) as u32);
}

proof fn lemma_digits_len(n: nat)
    ensures
        digits_text(n).len() >= 1,
        n >= 10 ==> digits_text(n).len() >= 2,
    decreases n,
{
    if n >= 10 {
        lemma_digits_len(n / 10);
    }
}

proof fn lemma_digits_injective(a: nat, b: nat)
    requires
        digits_text(a) == digits_text(b),
    ensures
        a == b,
    decreases a,
{
    lemma_digits_len(a);
    lemma_digits_len(b);
    if a < 10 && b < 10 {
        assert(digits_text(a) == seq![digit_char(a)]);
        assert(digits_text(b) == seq![digit_char(b)]);
        assert(seq![digit_char(a)][0] == digit_char(a));
        assert(seq![digit_char(b)][0] == digit_char(b));
        assert(digits_text(a)[0] == digits_text(b)[0]);
        lemma_digit_char_injective(a, b);
    } else if a >= 10 && b >= 10 {
        let da = digits_text(a);
        let db = digits_text(b);
        assert(da.last() == digit_char(a % 10));
        assert(db.last() == digit_char(b % 10));
        lemma_digit_char_injective(a % 10, b % 10);
        assert(da.drop_last() =~= digits_text(a / 10));
        assert(db.drop_last() =~= digits_text(b / 10));
        lemma_digits_injective(a / 10, b / 10);
        assert(a == (a / 10) * 10 + a % 10);
        assert(b == (b / 10) * 10 + b % 10);
    }
}

/// Block headers that shared a name end up with different names.
pub proof fn lemma_dedup_names_distinct(
    bs: Seq<(u64, Seq<char>)>,
    model: Handle,
    paper: Handle,
    i: int,
    j: int,
)
    requires
        0 <= i < j < bs.len(),
        bs[i].1 == bs[j].1,
    ensures
        final_block_name(bs, i, model, paper) != final_block_name(bs, j, model, paper),
{
    let name = bs[i].1;
    let canon = canonical_block(bs, name, model, paper);
    lemma_named_two(bs, name, i, j, bs.len() as int);
    let ri = rank_before(bs, name, canon, i);
    let rj = rank_before(bs, name, canon, j);
    lemma_digits_len(ri);
    lemma_digits_len(rj);
    if i == canon {
        assert(final_block_name(bs, j, model, paper).len() > name.len());
    } else if j == canon {
        assert(final_block_name(bs, i, model, paper).len() > name.len());
    } else {
        lemma_rank_mono(bs, name, canon, i + 1, j);
        assert(ri < rj);
        if final_block_name(bs, i, model, paper) == final_block_name(bs, j, model, paper) {
            let a = name + digits_text(ri);
            let b = name + digits_text(rj);
            assert(a.subrange(name.len() as int, a.len() as int) =~= digits_text(ri));
            assert(b.subrange(name.len() as int, b.len() as int) =~= digits_text(rj));
            lemma_digits_injective(ri, rj);
        }
    }
}

} // verus!

verus! {

/// The best root-dictionary candidate among `objs`, with its entry count:
/// an owner-less dictionary with the most entries, the larger handle among
/// equals; the null handle when there is none.
pub open spec fn root_candidate(objs: Seq<(Handle, ObjectType)>) -> (Handle, nat)
    decreases objs.len(),
{
    if objs.len() == 0 {
        (Handle(0), 0)
    } else {
        let (best, count) = root_candidate(objs.drop_last());
        let h = objs.last().0;
        match objs.last().1 {
            ObjectType::Dictionary(d) => if d.owner.0 == 0 && (d.entries@.len() > count || (
            d.entries@.len() == count && h.0 > best.0)) {
                (h, d.entries@.len())
            } else {
                (best, count)
            },
            _ => (best, count),
        }
    }
}

/// The root dictionary handle of `doc` after resolving: kept when it names
/// a stored object, else the best candidate when there is one.
pub open spec fn resolved_root(doc: CadDocument) -> Handle {
    let nod = doc.header.named_objects_dict_handle;
    if nod.0 == 0 || object_at(doc.objects@, nod) is None {
        let best = root_candidate(doc.objects@).0;
        if best.0 != 0 {
            best
        } else {
            nod
        }
    } else {
        nod
    }
}

/// Point the header's root dictionary at the owner-less dictionary with
/// the most entries when the handle it holds is null or names no object.
pub fn resolve_root_dictionary(document: &mut CadDocument)
    ensures
        *final(document) == (CadDocument {
            header: Header { named_objects_dict_handle: resolved_root(*old(document)), ..old(document).header },
            ..*old(document)
        }),
{
    let nod = document.header.named_objects_dict_handle;
    if nod.0 == 0 || !document.contains_object(nod) {
        let ghost objs = document.objects@;
        let mut best = Handle(0);
        let mut best_count: usize = 0;
        let mut i: usize = 0;
        while i < document.objects.len()
            invariant
                i <= objs.len(),
                objs == document.objects@,
                (best, best_count as nat) == root_candidate(objs.take(i as int)),
            decreases objs.len() - i,
        {
            proof {
                assert(objs.take(i + 1).drop_last() =~= objs.take(i as int));
                assert(objs.take(i + 1).last() == objs[i as int]);
            }
            let h = document.objects[i].0;
            match &document.objects[i].1 {
                ObjectType::Dictionary(dict) => {
                    if dict.owner.0 == 0 {
                        let n = dict.entries.len();
                        if n > best_count || (n == best_count && h.0 > best.0) {
                            best = h;
                            best_count = n;
                        }
                    }
                },
                _ => {},
            }
            i = i + 1;
        }
        assert(objs.take(objs.len() as int) =~= objs);
        if best.0 != 0 {
            document.header.named_objects_dict_handle = best;
        }
    }
}

/// The largest of the handles, 0 when there are none.
pub open spec fn max_handle(hs: Seq<u64>) -> u64
    decreases hs.len(),
{
    if hs.len() == 0 {
        0
    } else {
        let m = max_handle(hs.drop_last());
        if hs.last() > m {
            hs.last()
        } else {
            m
        }
    }
}

proof fn lemma_max_handle(hs: Seq<u64>)
    ensures
        forall|i: int| 0 <= i < hs.len() ==> #[trigger] hs[i] <= max_handle(hs),
    decreases hs.len(),
{
    if hs.len() > 0 {
        lemma_max_handle(hs.drop_last());
        assert forall|i: int| 0 <= i < hs.len() implies #[trigger] hs[i] <= max_handle(hs) by {
            if i < hs.len() - 1 {
                assert(hs[i] == hs.drop_last()[i]);
            }
        }
    }
}

/// Raise the handle seed past every handle of the file's handle section.
pub fn raise_handle_seed(document: &mut CadDocument, handles: &Vec<u64>)
    requires
        forall|i: int| 0 <= i < handles@.len() ==> #[trigger] handles@[i] < u64::MAX,
    ensures
        final(document).header.handle_seed == if max_handle(handles@) + 1 > old(document).header.handle_seed {
            (max_handle(handles@) + 1) as u64
        } else {
            old(document).header.handle_seed
        },
        forall|i: int| 0 <= i < handles@.len() ==> #[trigger] handles@[i] < final(document).header.handle_seed,
        *final(document) == (CadDocument {
            header: Header { handle_seed: final(document).header.handle_seed, ..old(document).header },
            ..*old(document)
        }),
{
    let mut max: u64 = 0;
    let mut i: usize = 0;
    while i < handles.len()
        invariant
            i <= handles@.len(),
            max == max_handle(handles@.take(i as int)),
            forall|k: int| 0 <= k < handles@.len() ==> #[trigger] handles@[k] < u64::MAX,
            handles@.len() == 0 || max < u64::MAX,
        decreases handles@.len() - i,
    {
        proof {
            assert(handles@.take(i + 1).drop_last() =~= handles@.take(i as int));
        }
        if handles[i] > max {
            max = handles[i];
        }
        i = i + 1;
    }
    assert(handles@.take(handles@.len() as int) =~= handles@);
    proof {
        lemma_max_handle(handles@);
        if handles@.len() > 0 {
            assert(max_handle(handles@) < u64::MAX) by {
                lemma_max_handle_member(handles@);
            }
        }
    }
    if max + 1 > document.header.handle_seed {
        document.header.handle_seed = max + 1;
    }
}

proof fn lemma_max_handle_member(hs: Seq<u64>)
    requires
        hs.len() > 0,
    ensures
        exists|i: int| 0 <= i < hs.len() && hs[i] == max_handle(hs),
    decreases hs.len(),
{
    if hs.len() > 1 {
        lemma_max_handle_member(hs.drop_last());
        let i = choose|i: int| 0 <= i < hs.drop_last().len() && hs.drop_last()[i] == max_handle(hs.drop_last());
        if hs.last() <= max_handle(hs.drop_last()) {
            assert(hs[i] == max_handle(hs));
        } else {
            assert(hs[hs.len() - 1] == max_handle(hs));
        }
    } else {
        assert(hs.drop_last() =~= Seq::<u64>::empty());
        assert(max_handle(hs.drop_last()) == 0);
        assert(hs[0] == max_handle(hs));
    }
}

} // verus!

verus! {

/// The entity with its owner taken from the binary block records' lists,
/// where they name one.
pub open spec fn corrected_owner(e: EntityRecord, owners: Map<u64, u64>) -> EntityRecord {
    if owners.contains_key(e.handle.0) {
        EntityRecord { owner_handle: Handle(owners[e.handle.0]), ..e }
    } else {
        e
    }
}

/// The handles of the block records.
pub open spec fn record_handles(brs: Seq<BlockRecord>) -> Seq<Handle> {
    brs.map_values(|b: BlockRecord| b.handle)
}

/// The handle equal to `h`.
pub open spec fn is_handle(h: Handle) -> spec_fn(Handle) -> bool {
    |x: Handle| x == h
}

/// The block record (by position among `hs`, the block records' handles)
/// whose list an entity goes into: the one of its owner, else the model
/// space; -1 for markers and attributes, and where neither is a block
/// record.
pub open spec fn route(hs: Seq<Handle>, ms: Handle, e: EntityRecord) -> int {
    if e.kind != EntityKind::Other {
        -1
    } else {
        let o = if e.owner_handle.0 != 0 {
            first_index(hs, is_handle(e.owner_handle))
        } else {
            -1
        };
        if o >= 0 {
            o
        } else if ms.0 != 0 {
            first_index(hs, is_handle(ms))
        } else {
            -1
        }
    }
}

/// The handles of the entities that go into the list of block record `b`,
/// in drawing order.
pub open spec fn routed_to(ents: Seq<EntityRecord>, hs: Seq<Handle>, ms: Handle, b: int) -> Seq<Handle>
    decreases ents.len(),
{
    if ents.len() == 0 {
        seq![]
    } else {
        let rest = routed_to(ents.drop_last(), hs, ms, b);
        if route(hs, ms, ents.last()) == b {
            rest.push(ents.last().handle)
        } else {
            rest
        }
    }
}

/// The block records keep everything but their entity lists.
pub open spec fn same_records_but_lists(a: Seq<BlockRecord>, b: Seq<BlockRecord>) -> bool {
    &&& a.len() == b.len()
    &&& forall|i: int|
        0 <= i < a.len() ==> (#[trigger] a[i]).handle == b[i].handle && a[i].name == b[i].name
            && a[i].block_entity_handle == b[i].block_entity_handle && a[i].block_end_handle
            == b[i].block_end_handle
}

/// Position of the first block record with handle `h`.
fn find_record(brs: &Vec<BlockRecord>, h: Handle) -> (r: Option<usize>)
    ensures
        match r {
            Some(i) => i as int == first_index(record_handles(brs@), is_handle(h)) && i < brs@.len(),
            None => first_index(record_handles(brs@), is_handle(h)) == -1,
        },
{
    let ghost hs = record_handles(brs@);
    let mut i: usize = 0;
    while i < brs.len()
        invariant
            i <= brs@.len(),
            hs == record_handles(brs@),
            forall|j: int| 0 <= j < i ==> !(#[trigger] is_handle(h)(hs[j])),
        decreases brs@.len() - i,
    {
        assert(hs[i as int] == brs@[i as int].handle);
        if brs[i].handle == h {
            proof {
                lemma_first_index_is(hs, is_handle(h), i as int);
            }
            return Some(i);
        }
        i = i + 1;
    }
    proof {
        lemma_first_index_none(hs, is_handle(h));
    }
    None
}

/// Append `h` to the list of block record `b`.
fn push_listed(brs: &mut Vec<BlockRecord>, b: usize, h: Handle)
    requires
        b < old(brs)@.len(),
    ensures
        same_records_but_lists(final(brs)@, old(brs)@),
        final(brs)@[b as int].entity_handles@ == old(brs)@[b as int].entity_handles@.push(h),
        forall|i: int|
            0 <= i < old(brs)@.len() && i != b ==> (#[trigger] final(brs)@[i]) == old(brs)@[i],
{
    let mut br = brs.remove(b);
    br.entity_handles.push(h);
    brs.insert(b, br);
}

/// Put right the owners of the entities from the block records' own lists
/// in the binary file (`owners`: entity handle to owner handle), then
/// rebuild every block record's list from the owners: each entity that is
/// not a marker or an attribute goes to its owner's block record, else to
/// the model space's. With no binary lists, nothing changes.
pub fn correct_entity_ownership(document: &mut CadDocument, owners: &HashMap<u64, u64>)
    ensures
        owners@.len() == 0 ==> *final(document) == *old(document),
        owners@.len() != 0 ==> {
            let ents = old(document).entities@.map_values(|e: EntityRecord| corrected_owner(e, owners@));
            let hs = record_handles(old(document).block_records@);
            let ms = old(document).header.model_space_block_handle;
            &&& final(document).entities@ == ents
            &&& same_records_but_lists(final(document).block_records@, old(document).block_records@)
            &&& forall|b: int|
                0 <= b < hs.len() ==> (#[trigger] final(document).block_records@[b]).entity_handles@
                    == routed_to(ents, hs, ms, b)
            &&& *final(document) == (CadDocument {
                entities: final(document).entities,
                block_records: final(document).block_records,
                ..*old(document)
            })
        },
{
    if owners.len() == 0 {
        return;
    }
    let ghost doc0 = *document;
    let ghost ents = doc0.entities@.map_values(|e: EntityRecord| corrected_owner(e, owners@));
    let mut i: usize = 0;
    while i < document.entities.len()
        invariant
            i <= doc0.entities@.len(),
            document.entities@.len() == doc0.entities@.len(),
            forall|k: int| 0 <= k < i ==> #[trigger] document.entities@[k] == ents[k],
            forall|k: int| i <= k < doc0.entities@.len() ==> #[trigger] document.entities@[k] == doc0.entities@[k],
            *document == (CadDocument { entities: document.entities, ..doc0 }),
            ents == doc0.entities@.map_values(|e: EntityRecord| corrected_owner(e, owners@)),
        decreases doc0.entities@.len() - i,
    {
        let e = document.entities[i];
        match owners.get(&e.handle.0) {
            Some(o) => {
                if e.owner_handle.0 != *o {
                    document.entities.set(i, EntityRecord { owner_handle: Handle(*o), ..e });
                }
            },
            None => {},
        }
        i = i + 1;
    }
    assert(document.entities@ =~= ents);
    let ghost hs = record_handles(doc0.block_records@);
    let mut b: usize = 0;
    while b < document.block_records.len()
        invariant
            b <= doc0.block_records@.len(),
            same_records_but_lists(document.block_records@, doc0.block_records@),
            forall|k: int| 0 <= k < b ==> (#[trigger] document.block_records@[k]).entity_handles@.len() == 0,
            *document == (CadDocument { block_records: document.block_records, entities: document.entities, ..doc0 }),
            document.entities@ == ents,
        decreases doc0.block_records@.len() - b,
    {
        let mut br = document.block_records.remove(b);
        br.entity_handles.clear();
        document.block_records.insert(b, br);
        b = b + 1;
    }
    let ms = document.header.model_space_block_handle;
    let mut k: usize = 0;
    while k < document.entities.len()
        invariant
            k <= ents.len(),
            document.entities@ == ents,
            ms == doc0.header.model_space_block_handle,
            same_records_but_lists(document.block_records@, doc0.block_records@),
            hs == record_handles(doc0.block_records@),
            record_handles(document.block_records@) == hs,
            forall|x: int|
                0 <= x < hs.len() ==> (#[trigger] document.block_records@[x]).entity_handles@
                    == routed_to(ents.take(k as int), hs, ms, x),
            *document == (CadDocument { block_records: document.block_records, entities: document.entities, ..doc0 }),
        decreases ents.len() - k,
    {
        let e = document.entities[k];
        proof {
            assert(ents.take(k + 1).drop_last() =~= ents.take(k as int));
            assert(ents.take(k + 1).last() == e);
        }
        if e.kind == EntityKind::Other {
            let mut added = false;
            if e.owner_handle.0 != 0 {
                match find_record(&document.block_records, e.owner_handle) {
                    Some(j) => {
                        push_listed(&mut document.block_records, j, e.handle);
                        added = true;
                        proof {
                            assert(record_handles(document.block_records@) =~= hs);
                        }
                    },
                    None => {},
                }
            }
            if !added && ms.0 != 0 {
                match find_record(&document.block_records, ms) {
                    Some(j) => {
                        push_listed(&mut document.block_records, j, e.handle);
                        proof {
                            assert(record_handles(document.block_records@) =~= hs);
                        }
                    },
                    None => {},
                }
            }
        }
        k = k + 1;
    }
    assert(ents.take(ents.len() as int) =~= ents);
}

/// The handles of the entities owned by `owner` that a block record lists
/// (neither markers nor attributes), in drawing order.
pub open spec fn owned_list(ents: Seq<EntityRecord>, owner: Handle) -> Seq<Handle>
    decreases ents.len(),
{
    if ents.len() == 0 {
        seq![]
    } else {
        let rest = owned_list(ents.drop_last(), owner);
        let e = ents.last();
        if e.kind == EntityKind::Other && e.owner_handle.0 != 0 && e.owner_handle == owner {
            rest.push(e.handle)
        } else {
            rest
        }
    }
}

/// Fill the empty entity list of every block record with the entities
/// that name it as owner, in drawing order.
pub fn fill_empty_block_lists(document: &mut CadDocument)
    ensures
        same_records_but_lists(final(document).block_records@, old(document).block_records@),
        forall|b: int|
            0 <= b < old(document).block_records@.len() ==> (#[trigger] final(document).block_records@[b]).entity_handles@
                == if old(document).block_records@[b].entity_handles@.len() == 0 {
                owned_list(old(document).entities@, old(document).block_records@[b].handle)
            } else {
                old(document).block_records@[b].entity_handles@
            },
        *final(document) == (CadDocument { block_records: final(document).block_records, ..*old(document) }),
{
    let ghost doc0 = *document;
    let ghost ents = doc0.entities@;
    let mut b: usize = 0;
    while b < document.block_records.len()
        invariant
            b <= doc0.block_records@.len(),
            same_records_but_lists(document.block_records@, doc0.block_records@),
            forall|x: int|
                0 <= x < b ==> (#[trigger] document.block_records@[x]).entity_handles@ == if doc0.block_records@[x].entity_handles@.len() == 0 {
                    owned_list(ents, doc0.block_records@[x].handle)
                } else {
                    doc0.block_records@[x].entity_handles@
                },
            forall|x: int|
                b <= x < doc0.block_records@.len() ==> #[trigger] document.block_records@[x]
                    == doc0.block_records@[x],
            *document == (CadDocument { block_records: document.block_records, ..doc0 }),
            ents == doc0.entities@,
        decreases doc0.block_records@.len() - b,
    {
        if document.block_records[b].entity_handles.len() == 0 {
            let owner = document.block_records[b].handle;
            let mut list: Vec<Handle> = Vec::new();
            let mut k: usize = 0;
            while k < document.entities.len()
                invariant
                    k <= ents.len(),
                    document.entities@ == ents,
                    list@ == owned_list(ents.take(k as int), owner),
                decreases ents.len() - k,
            {
                let e = document.entities[k];
                proof {
                    assert(ents.take(k + 1).drop_last() =~= ents.take(k as int));
                    assert(ents.take(k + 1).last() == e);
                }
                if e.kind == EntityKind::Other && e.owner_handle.0 != 0 && e.owner_handle == owner {
                    list.push(e.handle);
                }
                k = k + 1;
            }
            assert(ents.take(ents.len() as int) =~= ents);
            let mut br = document.block_records.remove(b);
            br.entity_handles = list;
            document.block_records.insert(b, br);
        }
        b = b + 1;
    }
}

} // verus!

verus! {

proof fn lemma_routed_contains(ents: Seq<EntityRecord>, hs: Seq<Handle>, ms: Handle, b: int, h: Handle)
    ensures
        routed_to(ents, hs, ms, b).contains(h) <==> exists|i: int|
            0 <= i < ents.len() && (#[trigger] ents[i]).handle == h && route(hs, ms, ents[i]) == b,
    decreases ents.len(),
{
    if ents.len() > 0 {
        let d = ents.drop_last();
        lemma_routed_contains(d, hs, ms, b, h);
        let rest = routed_to(d, hs, ms, b);
        let all = routed_to(ents, hs, ms, b);
        if all.contains(h) {
            let k = choose|k: int| 0 <= k < all.len() && all[k] == h;
            if k < rest.len() {
                assert(rest[k] == all[k]);
                assert(rest.contains(h));
                let i = choose|i: int| 0 <= i < d.len() && (#[trigger] d[i]).handle == h && route(hs, ms, d[i]) == b;
                assert(ents[i] == d[i]);
            } else {
                assert(ents[ents.len() - 1].handle == h);
            }
        }
        if exists|i: int| 0 <= i < ents.len() && (#[trigger] ents[i]).handle == h && route(hs, ms, ents[i]) == b {
            let i = choose|i: int| 0 <= i < ents.len() && (#[trigger] ents[i]).handle == h && route(hs, ms, ents[i]) == b;
            if i < ents.len() - 1 {
                assert(d[i] == ents[i]);
                assert(rest.contains(h));
                let k = choose|k: int| 0 <= k < rest.len() && rest[k] == h;
                assert(all[k] == h);
            } else {
                assert(all[all.len() - 1] == h);
            }
        }
    }
}

/// With distinct entity handles, an entity's handle is in the list of a
/// block record exactly when the entity goes to that block record: no
/// entity is listed twice, nor in a block record it does not belong to.
pub proof fn lemma_routed_once(ents: Seq<EntityRecord>, hs: Seq<Handle>, ms: Handle, i: int, b: int)
    requires
        0 <= i < ents.len(),
        forall|x: int, y: int|
            0 <= x < y < ents.len() ==> (#[trigger] ents[x]).handle != (#[trigger] ents[y]).handle,
    ensures
        routed_to(ents, hs, ms, b).contains(ents[i].handle) <==> route(hs, ms, ents[i]) == b,
{
    lemma_routed_contains(ents, hs, ms, b, ents[i].handle);
    if routed_to(ents, hs, ms, b).contains(ents[i].handle) {
        let j = choose|j: int| 0 <= j < ents.len() && (#[trigger] ents[j]).handle == ents[i].handle && route(hs, ms, ents[j]) == b;
        if j < i {
            assert(ents[j].handle != ents[i].handle);
        } else if j > i {
            assert(ents[i].handle != ents[j].handle);
        }
    }
}

} // verus!

verus! {

/// The object is a dictionary without owner.
pub open spec fn ownerless_dictionary(o: ObjectType) -> bool {
    o matches ObjectType::Dictionary(d) && d.owner.0 == 0
}

/// The number of entries of a dictionary object (0 for other objects).
pub open spec fn entry_count(o: ObjectType) -> nat {
    match o {
        ObjectType::Dictionary(d) => d.entries@.len(),
        _ => 0,
    }
}

/// The root-dictionary candidate has the most entries of all owner-less
/// dictionaries, and, when it is not null, is itself an owner-less
/// dictionary stored under its handle.
pub proof fn lemma_root_candidate_is_largest(objs: Seq<(Handle, ObjectType)>)
    ensures
        forall|i: int|
            0 <= i < objs.len() && ownerless_dictionary(#[trigger] objs[i].1) ==> entry_count(objs[i].1)
                <= root_candidate(objs).1,
        root_candidate(objs).0.0 != 0 ==> exists|i: int|
            0 <= i < objs.len() && (#[trigger] objs[i]).0 == root_candidate(objs).0 && ownerless_dictionary(
                objs[i].1,
            ) && entry_count(objs[i].1) == root_candidate(objs).1,
    decreases objs.len(),
{
    if objs.len() > 0 {
        let d = objs.drop_last();
        lemma_root_candidate_is_largest(d);
        assert forall|i: int|
            0 <= i < objs.len() && ownerless_dictionary(#[trigger] objs[i].1) implies entry_count(objs[i].1)
            <= root_candidate(objs).1 by {
            if i < objs.len() - 1 {
                assert(objs[i] == d[i]);
            }
        }
        if root_candidate(objs).0.0 != 0 && root_candidate(objs) == root_candidate(d) {
            let i = choose|i: int|
                0 <= i < d.len() && (#[trigger] d[i]).0 == root_candidate(d).0 && ownerless_dictionary(d[i].1)
                    && entry_count(d[i].1) == root_candidate(d).1;
            assert(objs[i] == d[i]);
        }
        if root_candidate(objs) != root_candidate(d) {
            assert(objs[objs.len() - 1].0 == root_candidate(objs).0);
        }
    }
}

/// The class numbers (500 and up) of the registered classes whose objects
/// are entities, in class order.
pub open spec fn entity_class_numbers_of(classes: Seq<DxfClass>) -> Seq<i16>
    decreases classes.len(),
{
    if classes.len() == 0 {
        Seq::empty()
    } else {
        let c = classes.last();
        entity_class_numbers_of(classes.drop_last()) + if c.is_an_entity && c.class_number >= 500 {
            seq![c.class_number]
        } else {
            Seq::empty()
        }
    }
}

/// The class numbers that stand for entities, which pass 2 uses to tell
/// entity records from object records among the class-based type codes.
pub fn entity_class_numbers(classes: &Vec<DxfClass>) -> (r: Vec<i16>)
    ensures
        r@ == entity_class_numbers_of(classes@),
{
    let mut out: Vec<i16> = Vec::new();
    let mut i: usize = 0;
    while i < classes.len()
        invariant
            i <= classes.len(),
            out@ == entity_class_numbers_of(classes@.take(i as int)),
        decreases classes.len() - i,
    {
        proof {
            assert(classes@.take(i + 1).drop_last() =~= classes@.take(i as int));
        }
        if classes[i].is_an_entity && classes[i].class_number >= 500 {
            out.push(classes[i].class_number);
        }
        i = i + 1;
        assert(out@ =~= entity_class_numbers_of(classes@.take(i as int)));
    }
    assert(classes@.take(classes.len() as int) =~= classes@);
    out
}

/// The style flags of a multiline style as the document holds them.
#[derive(Clone, Copy, Debug, PartialEq, Eq)]
pub struct MLineStyleFlags {
    pub display_joints: bool,
    pub fill_on: bool,
    pub start_square_cap: bool,
    pub start_round_cap: bool,
    pub start_inner_arcs_cap: bool,
    pub end_square_cap: bool,
    pub end_round_cap: bool,
    pub end_inner_arcs_cap: bool,
}

/// The flags of a multiline style from the DWG flag word, whose bits differ
/// from the DXF ones: 1 display joints, 2 fill on, 0x10, 0x20 and 0x40 the
/// start's square, round and inner-arc caps, 0x100, 0x200 and 0x400 the
/// end's.
pub fn mline_style_flags(f: i16) -> (r: MLineStyleFlags)
    ensures
        r.display_joints == (f & 1 != 0),
        r.fill_on == (f & 2 != 0),
        r.start_square_cap == (f & 0x10 != 0),
        r.start_round_cap == (f & 0x20 != 0),
        r.start_inner_arcs_cap == (f & 0x40 != 0),
        r.end_square_cap == (f & 0x100 != 0),
        r.end_round_cap == (f & 0x200 != 0),
        r.end_inner_arcs_cap == (f & 0x400 != 0),
{
    MLineStyleFlags {
        display_joints: f & 1 != 0,
        fill_on: f & 2 != 0,
        start_square_cap: f & 0x10 != 0,
        start_round_cap: f & 0x20 != 0,
        start_inner_arcs_cap: f & 0x40 != 0,
        end_square_cap: f & 0x100 != 0,
        end_round_cap: f & 0x200 != 0,
        end_inner_arcs_cap: f & 0x400 != 0,
    }
}

/// The decimal text of an integer, with a minus sign when it is negative.
pub open spec fn int_text(v: int) -> Seq<char> {
    if v < 0 {
        "-"@ + digits_text((-v) as nat)
    } else {
        digits_text(v as nat)
    }
}

/// The type name of an entity record whose type code has no reader:
/// `DWG_TYPE_` and the code.
pub fn unknown_entity_type_name(type_code: i16) -> (r: String)
    ensures
        r@ == "DWG_TYPE_"@ + int_text(type_code as int),
{
    let mut out = owned("DWG_TYPE_");
    if type_code < 0 {
        push_text(&mut out, "-");
        let magnitude: i32 = -(type_code as i32);
        push_digits64(&mut out, magnitude as u64);
        assert(out@ =~= "DWG_TYPE_"@ + int_text(type_code as int));
    } else {
        push_digits64(&mut out, type_code as u64);
    }
    out
}

} // verus!
