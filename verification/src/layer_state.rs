//! Native AutoCAD layer-state storage.
//!
//! AutoCAD keeps named layer states as XRecords in the `ACAD_LAYERSTATES`
//! dictionary attached to the layer table's extension dictionary. This module
//! exposes that object graph as semantic data and provides capture, restore,
//! rename, and delete operations.
use vstd::prelude::*;

use crate::document::{
    Header,
    entries_set, handles_below, has_handle, lemma_object_at_member, lemma_refs_below_insert_remove,
    object_refs_below, refs_below, layer_with_handle, lemma_fresh_handle,
    lemma_insert_keeps_handles, lemma_object_at_insert, lemma_object_at_remove,
    lemma_remove_keeps_handles, line_type_named, line_type_with_handle, objects_insert,
    objects_remove, unique_handles, CadDocument, Layer, LineType,
};
use crate::objects::{Dictionary, DictionaryCloningFlags, ObjectType, XRecord, XRecordEntry, XRecordValue};
use crate::seqs::{
    first_index, first_match, is_first, lemma_first_index_concat, lemma_first_index_facts,
    lemma_first_index_is, lemma_first_index_none, lemma_first_match_concat,
    lemma_first_match_single,
};
use crate::text::{eq_ignore_ascii_case, eq_ignore_case, owned};
use crate::types::{Color, Handle, LineWeight, Transparency};

verus! {

/// Layer properties selected for restoration from a named state.
#[derive(Clone, Copy, Debug, PartialEq, Eq, Default, Structural)]
pub struct LayerStateMask(pub u32);

impl LayerStateMask {
    // Bit values of the individual properties.
    pub const NONE: u32 = 0;
    pub const ON: u32 = 0x0001;
    pub const FROZEN: u32 = 0x0002;
    pub const LOCKED: u32 = 0x0004;
    pub const PLOT: u32 = 0x0008;
    pub const NEW_VIEWPORT: u32 = 0x0010;
    pub const COLOR: u32 = 0x0020;
    pub const LINE_TYPE: u32 = 0x0040;
    pub const LINE_WEIGHT: u32 = 0x0080;
    pub const PLOT_STYLE: u32 = 0x0100;
    pub const CURRENT_VIEWPORT: u32 = 0x0200;
    pub const TRANSPARENCY: u32 = 0x0400;
    pub const LAST_RESTORED: u32 = 0x1_0000;
    /// Properties represented by [`Layer`]: every standard property but the
    /// current-viewport one.
    pub const SUPPORTED: u32 = 0x05ff;
    /// All standard AutoCAD layer-state properties.
    pub const ALL: u32 = 0x07ff;

    pub fn from_bits(bits: u32) -> (r: Self)
        ensures
            r.0 == bits,
    {
        LayerStateMask(bits)
    }

    pub fn bits(self) -> (r: u32)
        ensures
            r == self.0,
    {
        self.0
    }

    /// Every property selected by `other` is selected by `self`.
    pub open spec fn spec_contains(self, other: Self) -> bool {
        (self.0 & other.0) == other.0
    }

    pub fn contains(self, other: Self) -> (r: bool)
        ensures
            r == self.spec_contains(other),
    {
        (self.0 & other.0) == other.0
    }

    /// The properties selected by either mask.
    pub fn bitor(self, rhs: Self) -> (r: Self)
        ensures
            r.0 == self.0 | rhs.0,
    {
        LayerStateMask(self.0 | rhs.0)
    }

    /// Add the properties selected by `rhs`.
    pub fn bitor_assign(&mut self, rhs: Self)
        ensures
            final(self).0 == old(self).0 | rhs.0,
    {
        self.0 = self.0 | rhs.0;
    }
}

/// The union of two masks selects everything either selects.
pub proof fn lemma_mask_union_contains(a: LayerStateMask, b: LayerStateMask)
    ensures
        LayerStateMask(a.0 | b.0).spec_contains(a),
        LayerStateMask(a.0 | b.0).spec_contains(b),
{
    let x = a.0;
    let y = b.0;
    assert((x | y) & x == x && (x | y) & y == y) by (bit_vector);
}

/// Containment of masks is a partial order, and every mask contains the
/// empty one.
pub proof fn lemma_mask_contains_order(a: LayerStateMask, b: LayerStateMask, c: LayerStateMask)
    ensures
        a.spec_contains(a),
        a.spec_contains(LayerStateMask(0)),
        a.spec_contains(b) && b.spec_contains(c) ==> a.spec_contains(c),
        a.spec_contains(b) && b.spec_contains(a) ==> a == b,
{
    let x = a.0;
    let y = b.0;
    let z = c.0;
    assert(x & x == x && x & 0 == 0) by (bit_vector);
    assert((x & y == y && y & z == z) ==> x & z == z) by (bit_vector);
    assert((x & y == y && y & x == x) ==> x == y) by (bit_vector);
}

/// Every supported property is a standard property.
pub proof fn lemma_all_contains_supported()
    ensures
        LayerStateMask(0x07ff).spec_contains(LayerStateMask(0x05ff)),
{
    assert(0x07ffu32 & 0x05ffu32 == 0x05ffu32) by (bit_vector);
}

/// Saved properties for one layer.
#[derive(Clone, Debug, PartialEq)]
pub struct LayerStateLayer {
    pub layer_handle: Handle,
    pub layer_name: String,
    pub off: bool,
    pub frozen: bool,
    pub locked: bool,
    pub plottable: bool,
    pub new_viewport_frozen: bool,
    pub color: Color,
    pub line_type: String,
    pub line_weight: LineWeight,
    pub plot_style: String,
    pub transparency: Option<Transparency>,
}

/// The content of a [`LayerStateLayer`], with texts as character sequences.
pub struct LayerStateLayerView {
    pub layer_handle: Handle,
    pub layer_name: Seq<char>,
    pub off: bool,
    pub frozen: bool,
    pub locked: bool,
    pub plottable: bool,
    pub new_viewport_frozen: bool,
    pub color: Color,
    pub line_type: Seq<char>,
    pub line_weight: LineWeight,
    pub plot_style: Seq<char>,
    pub transparency: Option<Transparency>,
}

impl View for LayerStateLayer {
    type V = LayerStateLayerView;

    open spec fn view(&self) -> LayerStateLayerView {
        LayerStateLayerView {
            layer_handle: self.layer_handle,
            layer_name: self.layer_name@,
            off: self.off,
            frozen: self.frozen,
            locked: self.locked,
            plottable: self.plottable,
            new_viewport_frozen: self.new_viewport_frozen,
            color: self.color,
            line_type: self.line_type@,
            line_weight: self.line_weight,
            plot_style: self.plot_style@,
            transparency: self.transparency,
        }
    }
}

/// A named layer state stored in a drawing.
#[derive(Clone, Debug, PartialEq)]
pub struct LayerState {
    pub name: String,
    pub description: String,
    pub mask: LayerStateMask,
    pub hidden: bool,
    pub current_layer: String,
    pub layers: Vec<LayerStateLayer>,
}

/// The content of a [`LayerState`], with texts as character sequences.
pub struct LayerStateView {
    pub name: Seq<char>,
    pub description: Seq<char>,
    pub mask: u32,
    pub hidden: bool,
    pub current_layer: Seq<char>,
    pub layers: Seq<LayerStateLayerView>,
}

impl View for LayerState {
    type V = LayerStateView;

    open spec fn view(&self) -> LayerStateView {
        LayerStateView {
            name: self.name@,
            description: self.description@,
            mask: self.mask.0,
            hidden: self.hidden,
            current_layer: self.current_layer@,
            layers: self.layers@.map_values(|l: LayerStateLayer| l@),
        }
    }
}

// ---------------------------------------------------------------------------
// Where layer states live.

/// The key of the layer-states dictionary in the layer table's extension
/// dictionary (the singular spelling is accepted on read).
pub open spec fn is_states_key(k: Seq<char>) -> bool {
    eq_ignore_case(k, "ACAD_LAYERSTATES"@) || eq_ignore_case(k, "ACAD_LAYERSTATE"@)
}

/// A dictionary entry whose key names the layer-states dictionary.
pub open spec fn states_key_entry() -> spec_fn((String, Handle)) -> bool {
    |e: (String, Handle)| is_states_key(e.0@)
}

/// A dictionary entry whose key equals `name` ignoring ASCII case.
pub open spec fn entry_named(name: Seq<char>) -> spec_fn((String, Handle)) -> bool {
    |e: (String, Handle)| eq_ignore_case(e.0@, name)
}

/// A stored object that is a dictionary owned by `owner`.
pub open spec fn dictionary_owned_by(owner: Handle) -> spec_fn((Handle, ObjectType)) -> bool {
    |e: (Handle, ObjectType)|
        match e.1 {
            ObjectType::Dictionary(d) => d.owner == owner,
            _ => false,
        }
}

/// The extension dictionary of the layer table: the registered one when it
/// is stored, otherwise the first stored dictionary that the table owns.
pub open spec fn layer_extension_dictionary(doc: CadDocument) -> Option<Handle> {
    let table = doc.layer_table_handle;
    match doc.spec_xdic(table) {
        Some(h) if doc.spec_object(h) is Some => Some(h),
        _ => match first_match(doc.objects@, dictionary_owned_by(table)) {
            Some(e) => Some(e.0),
            None => None,
        },
    }
}

/// The dictionary stored under `h`.
pub open spec fn dictionary_at(doc: CadDocument, h: Handle) -> Option<Dictionary> {
    match doc.spec_object(h) {
        Some(ObjectType::Dictionary(d)) => Some(d),
        _ => None,
    }
}

/// The handle of the layer-states dictionary.
pub open spec fn layer_states_dictionary(doc: CadDocument) -> Option<Handle> {
    match layer_extension_dictionary(doc) {
        Some(x) => match dictionary_at(doc, x) {
            Some(ext) => match first_match(ext.entries@, states_key_entry()) {
                Some(e) => Some(e.1),
                None => None,
            },
            None => None,
        },
        None => None,
    }
}

// ---------------------------------------------------------------------------
// Reading a layer state out of its XRecord.

/// An XRecord entry with group code `code`.
pub open spec fn with_code(code: i32) -> spec_fn(XRecordEntry) -> bool {
    |e: XRecordEntry| e.code == code
}

/// The first entry with group code `code`, as a 32-bit integer.
pub open spec fn entry_i32_of(s: Seq<XRecordEntry>, code: i32) -> Option<i32> {
    match first_match(s, with_code(code)) {
        Some(e) => e.value.spec_as_i32(),
        None => None,
    }
}

/// The first entry with group code `code`, as a handle.
pub open spec fn entry_handle_of(s: Seq<XRecordEntry>, code: i32) -> Option<Handle> {
    match first_match(s, with_code(code)) {
        Some(e) => match e.value {
            XRecordValue::Handle(h) => Some(h),
            _ => None,
        },
        None => None,
    }
}

/// The first entry with group code `code`, as text.
pub open spec fn entry_text_of(s: Seq<XRecordEntry>, code: i32) -> Option<Seq<char>> {
    match first_match(s, with_code(code)) {
        Some(e) => match e.value {
            XRecordValue::Str(t) => Some(t@),
            _ => None,
        },
        None => None,
    }
}

/// The first entry with group code `code`, as a boolean.
pub open spec fn entry_bool_of(s: Seq<XRecordEntry>, code: i32) -> Option<bool> {
    match first_match(s, with_code(code)) {
        Some(e) => match e.value {
            XRecordValue::Bool(b) => Some(b),
            _ => None,
        },
        None => None,
    }
}

pub open spec fn text_or_empty(t: Option<Seq<char>>) -> Seq<char> {
    match t {
        Some(t) => t,
        None => Seq::empty(),
    }
}

/// The name of the layer with handle `h`, or the empty text.
pub open spec fn layer_name_of(doc: CadDocument, h: Handle) -> Seq<char> {
    match first_match(doc.layers@, layer_with_handle(h)) {
        Some(l) => l.name@,
        None => Seq::empty(),
    }
}

/// The name of the line type with handle `h`, or the empty text.
pub open spec fn line_type_name_of(doc: CadDocument, h: Handle) -> Seq<char> {
    match first_match(doc.line_types@, line_type_with_handle(h)) {
        Some(l) => l.name@,
        None => Seq::empty(),
    }
}

/// One layer's saved properties, read from its group of entries (which
/// starts with the layer handle under code 330).
pub open spec fn decoded_layer(doc: CadDocument, g: Seq<XRecordEntry>) -> Option<LayerStateLayerView> {
    if g.len() == 0 || g[0].code != 330 {
        None
    } else {
        match g[0].value {
            XRecordValue::Handle(h) => {
                let flags = match entry_i32_of(g, 90) {
                    Some(v) => v,
                    None => 0i32,
                };
                let index = match entry_i32_of(g, 62) {
                    Some(v) => v,
                    None => 7i32,
                };
                let line_type_handle = match entry_handle_of(g, 331) {
                    Some(h) => h,
                    None => Handle(0),
                };
                let weight = match entry_i32_of(g, 370) {
                    Some(v) => v,
                    None => -3i32,
                };
                Some(
                    LayerStateLayerView {
                        layer_handle: h,
                        layer_name: layer_name_of(doc, h),
                        off: flags & 0x01 != 0,
                        frozen: flags & 0x02 != 0,
                        locked: flags & 0x04 != 0,
                        plottable: flags & 0x08 != 0,
                        new_viewport_frozen: flags & 0x10 != 0,
                        color: Color { index: index as i16, true_color: entry_i32_of(g, 420) },
                        line_type: line_type_name_of(doc, line_type_handle),
                        line_weight: LineWeight(weight as i16),
                        plot_style: text_or_empty(entry_text_of(g, 1)),
                        transparency: match entry_i32_of(g, 440) {
                            Some(v) => Some(Transparency(v as u32)),
                            None => None,
                        },
                    },
                )
            },
            _ => None,
        }
    }
}

/// Length of the group that starts `s`: up to the next code 330 after the
/// first entry, or the whole sequence.
pub open spec fn group_len(s: Seq<XRecordEntry>) -> int {
    let k = first_index(s.skip(1), with_code(330));
    if k >= 0 {
        k + 1
    } else {
        s.len() as int
    }
}

/// The layers of a state, read group by group; groups that do not start
/// with a layer handle are skipped.
pub open spec fn decoded_layers(doc: CadDocument, s: Seq<XRecordEntry>) -> Seq<LayerStateLayerView>
    decreases s.len(),
{
    if s.len() == 0 {
        Seq::empty()
    } else {
        let n = group_len(s);
        if 0 < n <= s.len() {
            let rest = decoded_layers(doc, s.skip(n));
            match decoded_layer(doc, s.take(n)) {
                Some(l) => seq![l] + rest,
                None => rest,
            }
        } else {
            Seq::empty()
        }
    }
}

/// Position of the first layer group (the first entry with code 330).
pub open spec fn first_layer_pos(s: Seq<XRecordEntry>) -> int {
    let k = first_index(s, with_code(330));
    if k >= 0 {
        k
    } else {
        s.len() as int
    }
}

/// A layer state read from its XRecord entries: the header before the first
/// layer group holds the mask (91), description (301), hidden flag (290) and
/// current layer (302); the layer groups follow.
pub open spec fn decoded_state(doc: CadDocument, name: Seq<char>, s: Seq<XRecordEntry>) -> LayerStateView {
    let first = first_layer_pos(s);
    let header = s.take(first);
    LayerStateView {
        name: name,
        description: text_or_empty(entry_text_of(header, 301)),
        mask: match entry_i32_of(header, 91) {
            Some(v) => v as u32,
            None => 0x07ff,
        },
        hidden: match entry_bool_of(header, 290) {
            Some(b) => b,
            None => false,
        },
        current_layer: text_or_empty(entry_text_of(header, 302)),
        layers: decoded_layers(doc, s.skip(first)),
    }
}

/// The states stored by the dictionary entries, in entry order; entries
/// that do not refer to an XRecord are skipped.
pub open spec fn decoded_entries(doc: CadDocument, es: Seq<(String, Handle)>) -> Seq<LayerStateView>
    decreases es.len(),
{
    if es.len() == 0 {
        Seq::empty()
    } else {
        let before = decoded_entries(doc, es.drop_last());
        match doc.spec_object(es.last().1) {
            Some(ObjectType::XRecord(x)) => before.push(decoded_state(doc, es.last().0@, x.entries@)),
            _ => before,
        }
    }
}

/// Every layer state stored in the drawing, in dictionary order.
pub open spec fn stored_layer_states(doc: CadDocument) -> Seq<LayerStateView> {
    match layer_states_dictionary(doc) {
        Some(h) => match dictionary_at(doc, h) {
            Some(d) => decoded_entries(doc, d.entries@),
            None => Seq::empty(),
        },
        None => Seq::empty(),
    }
}

/// A state whose name equals `name` ignoring ASCII case.
pub open spec fn state_named(name: Seq<char>) -> spec_fn(LayerStateView) -> bool {
    |s: LayerStateView| eq_ignore_case(s.name, name)
}

/// The first stored layer state named `name` (ASCII case ignored).
pub open spec fn stored_layer_state(doc: CadDocument, name: Seq<char>) -> Option<LayerStateView> {
    first_match(stored_layer_states(doc), state_named(name))
}

// ---------------------------------------------------------------------------
// Executable lookups.

/// Position of the first entry in `entries[start..end]` with group code
/// `code`.
fn find_code(entries: &Vec<XRecordEntry>, start: usize, end: usize, code: i32) -> (r: Option<usize>)
    requires
        start <= end <= entries@.len(),
    ensures
        r matches Some(i) ==> start <= i < end && first_index(
            entries@.subrange(start as int, end as int),
            with_code(code),
        ) == i - start,
        r is None ==> first_index(entries@.subrange(start as int, end as int), with_code(code))
            == -1,
{
    let ghost s = entries@.subrange(start as int, end as int);
    let mut i = start;
    while i < end
        invariant
            start <= i <= end <= entries@.len(),
            s == entries@.subrange(start as int, end as int),
            forall|j: int| 0 <= j < i - start ==> !(#[trigger] with_code(code)(s[j])),
        decreases end - i,
    {
        if entries[i].code == code {
            proof {
                assert(s[i - start] == entries@[i as int]);
                lemma_first_index_is(s, with_code(code), i - start);
            }
            return Some(i);
        }
        assert(s[i - start] == entries@[i as int]);
        i = i + 1;
    }
    proof {
        lemma_first_index_none(s, with_code(code));
    }
    None
}

fn entry_i32(entries: &Vec<XRecordEntry>, start: usize, end: usize, code: i32) -> (r: Option<i32>)
    requires
        start <= end <= entries@.len(),
    ensures
        r == entry_i32_of(entries@.subrange(start as int, end as int), code),
{
    match find_code(entries, start, end, code) {
        Some(i) => entries[i].value.as_i32(),
        None => None,
    }
}

fn entry_handle(entries: &Vec<XRecordEntry>, start: usize, end: usize, code: i32) -> (r: Option<Handle>)
    requires
        start <= end <= entries@.len(),
    ensures
        r == entry_handle_of(entries@.subrange(start as int, end as int), code),
{
    match find_code(entries, start, end, code) {
        Some(i) => entries[i].value.as_handle(),
        None => None,
    }
}

fn entry_string(entries: &Vec<XRecordEntry>, start: usize, end: usize, code: i32) -> (r: Option<&str>)
    requires
        start <= end <= entries@.len(),
    ensures
        r matches Some(t) ==> entry_text_of(entries@.subrange(start as int, end as int), code)
            == Some(t@),
        r is None ==> entry_text_of(entries@.subrange(start as int, end as int), code) is None,
{
    match find_code(entries, start, end, code) {
        Some(i) => entries[i].value.as_string(),
        None => None,
    }
}

fn entry_bool(entries: &Vec<XRecordEntry>, start: usize, end: usize, code: i32) -> (r: Option<bool>)
    requires
        start <= end <= entries@.len(),
    ensures
        r == entry_bool_of(entries@.subrange(start as int, end as int), code),
{
    match find_code(entries, start, end, code) {
        Some(i) => entries[i].value.as_bool(),
        None => None,
    }
}

fn text_or_default(t: Option<&str>) -> (r: String)
    ensures
        r@ == (match t {
            Some(s) => s@,
            None => Seq::<char>::empty(),
        }),
{
    match t {
        Some(s) => owned(s),
        None => String::new(),
    }
}

impl CadDocument {
    fn layer_name_for_handle(&self, h: Handle) -> (r: String)
        ensures
            r@ == layer_name_of(*self, h),
    {
        match self.layer_index_by_handle(h) {
            Some(i) => {
                proof {
                    lemma_first_index_is(self.layers@, layer_with_handle(h), i as int);
                }
                self.layers[i].name.clone()
            },
            None => String::new(),
        }
    }

    fn line_type_name_for_handle(&self, h: Handle) -> (r: String)
        ensures
            r@ == line_type_name_of(*self, h),
    {
        match self.line_type_index_by_handle(h) {
            Some(i) => {
                proof {
                    lemma_first_index_is(self.line_types@, line_type_with_handle(h), i as int);
                }
                self.line_types[i].name.clone()
            },
            None => String::new(),
        }
    }

    /// Decode one layer group `entries[start..end]`.
    fn decode_layer_state_layer(&self, entries: &Vec<XRecordEntry>, start: usize, end: usize) -> (r:
        Option<LayerStateLayer>)
        requires
            start <= end <= entries@.len(),
        ensures
            match r {
                Some(l) => decoded_layer(*self, entries@.subrange(start as int, end as int)) == Some(
                    l@,
                ),
                None => decoded_layer(*self, entries@.subrange(start as int, end as int)) is None,
            },
    {
        let ghost g = entries@.subrange(start as int, end as int);
        if start == end || entries[start].code != 330 {
            return None;
        }
        assert(g[0] == entries@[start as int]);
        let layer_handle = match entries[start].value.as_handle() {
            Some(h) => h,
            None => {
                return None;
            },
        };
        let flags = match entry_i32(entries, start, end, 90) {
            Some(v) => v,
            None => 0,
        };
        let index = match entry_i32(entries, start, end, 62) {
            Some(v) => v,
            None => 7,
        };
        let true_color = entry_i32(entries, start, end, 420);
        let line_type_handle = match entry_handle(entries, start, end, 331) {
            Some(h) => h,
            None => Handle(0),
        };
        let weight = match entry_i32(entries, start, end, 370) {
            Some(v) => v,
            None => -3,
        };
        let transparency = match entry_i32(entries, start, end, 440) {
            Some(v) => Some(Transparency::from_alpha_value(v as u32)),
            None => None,
        };
        let layer_name = self.layer_name_for_handle(layer_handle);
        let line_type = self.line_type_name_for_handle(line_type_handle);
        let plot_style = text_or_default(entry_string(entries, start, end, 1));
        Some(
            LayerStateLayer {
                layer_handle,
                layer_name,
                off: flags & 0x01 != 0,
                frozen: flags & 0x02 != 0,
                locked: flags & 0x04 != 0,
                plottable: flags & 0x08 != 0,
                new_viewport_frozen: flags & 0x10 != 0,
                color: Color { index: index as i16, true_color },
                line_type,
                line_weight: LineWeight::from_value(weight as i16),
                plot_style,
                transparency,
            },
        )
    }
}

/// The views of a list of saved layers.
pub open spec fn layer_views(ls: Seq<LayerStateLayer>) -> Seq<LayerStateLayerView> {
    ls.map_values(|l: LayerStateLayer| l@)
}

proof fn lemma_decoded_layers_step(doc: CadDocument, s: Seq<XRecordEntry>, start: int, end: int)
    requires
        0 <= start < end <= s.len(),
        end < s.len() ==> first_index(s.subrange(start + 1, s.len() as int), with_code(330)) == end
            - start - 1,
        end == s.len() ==> first_index(s.subrange(start + 1, s.len() as int), with_code(330)) == -1,
    ensures
        decoded_layers(doc, s.skip(start)) == (match decoded_layer(doc, s.subrange(start, end)) {
            Some(l) => seq![l] + decoded_layers(doc, s.skip(end)),
            None => decoded_layers(doc, s.skip(end)),
        }),
{
    let t = s.skip(start);
    assert(t.skip(1) =~= s.subrange(start + 1, s.len() as int));
    assert(group_len(t) == end - start);
    assert(t.take(end - start) =~= s.subrange(start, end));
    assert(t.skip(end - start) =~= s.skip(end));
}

impl CadDocument {
    /// Read a layer state out of the entries of its XRecord.
    fn decode_layer_state(&self, name: &str, xrecord: &XRecord) -> (r: LayerState)
        ensures
            r@ == decoded_state(*self, name@, xrecord.entries@),
    {
        let entries = &xrecord.entries;
        let ghost s = entries@;
        let len = entries.len();
        let first_layer = match find_code(entries, 0, len, 330) {
            Some(i) => i,
            None => len,
        };
        proof {
            assert(s.subrange(0, len as int) =~= s);
            assert(first_layer as int == first_layer_pos(s));
            assert(s.subrange(0, first_layer as int) =~= s.take(first_layer as int));
        }
        let mask = match entry_i32(entries, 0, first_layer, 91) {
            Some(v) => LayerStateMask::from_bits(v as u32),
            None => LayerStateMask::from_bits(0x07ff),
        };
        let description = text_or_default(entry_string(entries, 0, first_layer, 301));
        let hidden = match entry_bool(entries, 0, first_layer, 290) {
            Some(b) => b,
            None => false,
        };
        let current_layer = text_or_default(entry_string(entries, 0, first_layer, 302));
        let mut layers: Vec<LayerStateLayer> = Vec::new();
        let mut start = first_layer;
        while start < len
            invariant
                s == entries@,
                len == s.len(),
                first_layer <= start <= len,
                layer_views(layers@) + decoded_layers(*self, s.skip(start as int)) == decoded_layers(
                    *self,
                    s.skip(first_layer as int),
                ),
            decreases len - start,
        {
            let end = match find_code(entries, start + 1, len, 330) {
                Some(i) => i,
                None => len,
            };
            proof {
                lemma_decoded_layers_step(*self, s, start as int, end as int);
            }
            let ghost before = layers@;
            match self.decode_layer_state_layer(entries, start, end) {
                Some(layer) => {
                    layers.push(layer);
                    proof {
                        assert(layer_views(layers@) =~= layer_views(before) + seq![layer@]);
                    }
                },
                None => {},
            }
            start = end;
        }
        proof {
            assert(s.skip(len as int) =~= Seq::<XRecordEntry>::empty());
            assert(layer_views(layers@) + Seq::<LayerStateLayerView>::empty() =~= layer_views(layers@));
        }
        LayerState {
            name: owned(name),
            description,
            mask,
            hidden,
            current_layer,
            layers,
        }
    }
}

/// The views of a list of layer states.
pub open spec fn state_views(v: Seq<LayerState>) -> Seq<LayerStateView> {
    v.map_values(|s: LayerState| s@)
}

impl CadDocument {
    /// The extension dictionary of the layer table.
    fn layer_extension_dictionary_handle(&self) -> (r: Option<Handle>)
        ensures
            r == layer_extension_dictionary(*self),
    {
        let table = self.layer_table_handle;
        match self.xdic(table) {
            Some(h) => {
                if self.contains_object(h) {
                    return Some(h);
                }
            },
            None => {},
        }
        let mut i: usize = 0;
        while i < self.objects.len()
            invariant
                i <= self.objects@.len(),
                table == self.layer_table_handle,
                !(self.spec_xdic(table) matches Some(h) && self.spec_object(h) is Some),
                forall|j: int|
                    0 <= j < i ==> !(#[trigger] dictionary_owned_by(table)(self.objects@[j])),
            decreases self.objects@.len() - i,
        {
            let owned_by_table = match &self.objects[i].1 {
                ObjectType::Dictionary(d) => d.owner == table,
                _ => false,
            };
            if owned_by_table {
                proof {
                    lemma_first_index_is(self.objects@, dictionary_owned_by(table), i as int);
                }
                return Some(self.objects[i].0);
            }
            i = i + 1;
        }
        proof {
            lemma_first_index_none(self.objects@, dictionary_owned_by(table));
        }
        None
    }

    /// Position of the first entry of `d` keyed by the layer-states name.
    fn find_states_key(d: &Dictionary) -> (r: Option<usize>)
        ensures
            r matches Some(i) ==> is_first(d.entries@, states_key_entry(), i as int),
            r is None ==> first_index(d.entries@, states_key_entry()) == -1,
    {
        let mut i: usize = 0;
        while i < d.entries.len()
            invariant
                i <= d.entries@.len(),
                forall|j: int| 0 <= j < i ==> !(#[trigger] states_key_entry()(d.entries@[j])),
            decreases d.entries@.len() - i,
        {
            let key = d.entries[i].0.as_str();
            if eq_ignore_ascii_case(key, "ACAD_LAYERSTATES") || eq_ignore_ascii_case(
                key,
                "ACAD_LAYERSTATE",
            ) {
                return Some(i);
            }
            i = i + 1;
        }
        proof {
            lemma_first_index_none(d.entries@, states_key_entry());
        }
        None
    }

    /// Position of the first entry of `d` keyed by `name` (case ignored).
    fn find_entry_named(d: &Dictionary, name: &str) -> (r: Option<usize>)
        ensures
            r matches Some(i) ==> is_first(d.entries@, entry_named(name@), i as int),
            r matches Some(i) ==> first_index(d.entries@, entry_named(name@)) == i,
            r is None ==> first_index(d.entries@, entry_named(name@)) == -1,
    {
        let mut i: usize = 0;
        while i < d.entries.len()
            invariant
                i <= d.entries@.len(),
                forall|j: int| 0 <= j < i ==> !(#[trigger] entry_named(name@)(d.entries@[j])),
            decreases d.entries@.len() - i,
        {
            if eq_ignore_ascii_case(d.entries[i].0.as_str(), name) {
                proof {
                    lemma_first_index_is(d.entries@, entry_named(name@), i as int);
                }
                return Some(i);
            }
            i = i + 1;
        }
        proof {
            lemma_first_index_none(d.entries@, entry_named(name@));
        }
        None
    }

    /// The handle of the layer-states dictionary.
    fn layer_states_dictionary_handle(&self) -> (r: Option<Handle>)
        ensures
            r == layer_states_dictionary(*self),
    {
        let extension_handle = match self.layer_extension_dictionary_handle() {
            Some(h) => h,
            None => {
                return None;
            },
        };
        match self.get_object(extension_handle) {
            Some(ObjectType::Dictionary(extension)) => {
                match Self::find_states_key(extension) {
                    Some(i) => {
                        proof {
                            lemma_first_index_is(extension.entries@, states_key_entry(), i as int);
                        }
                        Some(extension.entries[i].1)
                    },
                    None => None,
                }
            },
            _ => None,
        }
    }

    /// Return every native layer state stored in the drawing.
    pub fn layer_states(&self) -> (r: Vec<LayerState>)
        ensures
            state_views(r@) == stored_layer_states(*self),
    {
        let dictionary_handle = match self.layer_states_dictionary_handle() {
            Some(h) => h,
            None => {
                return Vec::new();
            },
        };
        let dictionary = match self.get_object(dictionary_handle) {
            Some(ObjectType::Dictionary(d)) => d,
            _ => {
                return Vec::new();
            },
        };
        let mut states: Vec<LayerState> = Vec::new();
        let mut i: usize = 0;
        while i < dictionary.entries.len()
            invariant
                i <= dictionary.entries@.len(),
                state_views(states@) == decoded_entries(
                    *self,
                    dictionary.entries@.take(i as int),
                ),
            decreases dictionary.entries@.len() - i,
        {
            let ghost before = states@;
            let ghost es = dictionary.entries@.take(i + 1);
            proof {
                assert(es.drop_last() =~= dictionary.entries@.take(i as int));
                assert(es.last() == dictionary.entries@[i as int]);
            }
            let (name, handle) = (&dictionary.entries[i].0, dictionary.entries[i].1);
            match self.get_object(handle) {
                Some(ObjectType::XRecord(xrecord)) => {
                    let state = self.decode_layer_state(name.as_str(), xrecord);
                    states.push(state);
                    proof {
                        assert(state_views(states@) =~= state_views(before).push(state@));
                    }
                },
                _ => {},
            }
            i = i + 1;
        }
        proof {
            assert(dictionary.entries@.take(dictionary.entries@.len() as int)
                =~= dictionary.entries@);
        }
        states
    }

    /// Return one native layer state by name (case-insensitive).
    pub fn layer_state(&self, name: &str) -> (r: Option<LayerState>)
        ensures
            match r {
                Some(s) => stored_layer_state(*self, name@) == Some(s@),
                None => stored_layer_state(*self, name@) is None,
            },
    {
        let mut states = self.layer_states();
        let ghost views = state_views(states@);
        let mut i: usize = 0;
        while i < states.len()
            invariant
                i <= states@.len(),
                views == state_views(states@),
                views == stored_layer_states(*self),
                forall|j: int| 0 <= j < i ==> !(#[trigger] state_named(name@)(views[j])),
            decreases states@.len() - i,
        {
            if eq_ignore_ascii_case(states[i].name.as_str(), name) {
                proof {
                    assert(views[i as int] == states@[i as int]@);
                    lemma_first_index_is(views, state_named(name@), i as int);
                    assert(first_match(views, state_named(name@)) == Some(views[i as int]));
                }
                let found = states.swap_remove(i);
                return Some(found);
            }
            assert(views[i as int] == states@[i as int]@);
            i = i + 1;
        }
        proof {
            lemma_first_index_none(views, state_named(name@));
        }
        None
    }

    /// The first entry of dictionary `dictionary_handle` keyed by `name`
    /// (case ignored).
    fn dictionary_entry(&self, dictionary_handle: Handle, name: &str) -> (r: Option<(String, Handle)>)
        ensures
            match dictionary_at(*self, dictionary_handle) {
                Some(d) => match first_match(d.entries@, entry_named(name@)) {
                    Some(e) => r matches Some(x) && x.0@ == e.0@ && x.1 == e.1,
                    None => r is None,
                },
                None => r is None,
            },
    {
        match self.get_object(dictionary_handle) {
            Some(ObjectType::Dictionary(dictionary)) => {
                match Self::find_entry_named(dictionary, name) {
                    Some(i) => {
                        proof {
                            lemma_first_index_is(dictionary.entries@, entry_named(name@), i as int);
                        }
                        Some((dictionary.entries[i].0.clone(), dictionary.entries[i].1))
                    },
                    None => None,
                }
            },
            _ => None,
        }
    }
}

// ---------------------------------------------------------------------------
// Writing a layer state into XRecord entries.

pub open spec fn entry(code: i32, value: XRecordValue) -> XRecordEntry {
    XRecordEntry { code, value }
}

/// The saved on/frozen/locked/plot/new-viewport flags as the bits of code 90.
pub open spec fn layer_flags_of(l: LayerStateLayer) -> i32 {
    ((if l.off {
        1i32
    } else {
        0i32
    }) + (if l.frozen {
        2i32
    } else {
        0i32
    }) + (if l.locked {
        4i32
    } else {
        0i32
    }) + (if l.plottable {
        8i32
    } else {
        0i32
    }) + (if l.new_viewport_frozen {
        16i32
    } else {
        0i32
    })) as i32
}

/// The layer a saved entry refers to: its handle, or, when that is null,
/// the handle of the layer with its name (null when there is none).
pub open spec fn resolved_layer_handle(doc: CadDocument, l: LayerStateLayerView) -> Handle {
    if l.layer_handle.0 == 0 {
        match first_match(doc.layers@, crate::document::layer_named(l.layer_name)) {
            Some(x) => x.handle,
            None => Handle(0),
        }
    } else {
        l.layer_handle
    }
}

/// The line type written for a saved line-type name: the one with that name,
/// else `Continuous`, else none (null).
pub open spec fn line_type_handle_for(doc: CadDocument, name: Seq<char>) -> Handle {
    match first_match(doc.line_types@, line_type_named(name)) {
        Some(t) => t.handle,
        None => match first_match(doc.line_types@, line_type_named("Continuous"@)) {
            Some(t) => t.handle,
            None => Handle(0),
        },
    }
}

/// The entries of one saved layer, referring to layer `h`.
pub open spec fn layer_group(doc: CadDocument, l: LayerStateLayer, h: Handle) -> Seq<XRecordEntry> {
    seq![
        entry(330, XRecordValue::Handle(h)),
        entry(90, XRecordValue::Int32(layer_flags_of(l))),
        entry(62, XRecordValue::Int16(l.color.index)),
    ] + match l.color.true_color {
        Some(tc) => seq![entry(420, XRecordValue::Int32(tc))],
        None => Seq::empty(),
    } + seq![
        entry(370, XRecordValue::Int16(l.line_weight.0)),
        entry(331, XRecordValue::Handle(line_type_handle_for(doc, l.line_type@))),
        entry(1, XRecordValue::Str(l.plot_style)),
    ] + match l.transparency {
        Some(t) => seq![entry(440, XRecordValue::Int32(t.0 as i32))],
        None => Seq::empty(),
    }
}

/// The entries of the saved layers, in order; layers that resolve to no
/// layer of the drawing are left out.
pub open spec fn encoded_layers(doc: CadDocument, ls: Seq<LayerStateLayer>) -> Seq<XRecordEntry>
    decreases ls.len(),
{
    if ls.len() == 0 {
        Seq::empty()
    } else {
        let h = resolved_layer_handle(doc, ls.last()@);
        encoded_layers(doc, ls.drop_last()) + if h.0 == 0 {
            Seq::empty()
        } else {
            layer_group(doc, ls.last(), h)
        }
    }
}

/// The header entries of a state: mask, description, hidden flag, current
/// layer.
pub open spec fn state_header(st: LayerState) -> Seq<XRecordEntry> {
    seq![
        entry(91, XRecordValue::Int32(st.mask.0 as i32)),
        entry(301, XRecordValue::Str(st.description)),
        entry(290, XRecordValue::Bool(st.hidden)),
        entry(302, XRecordValue::Str(st.current_layer)),
    ]
}

/// All entries of the XRecord that stores a state.
pub open spec fn encoded_state(doc: CadDocument, st: LayerState) -> Seq<XRecordEntry> {
    state_header(st) + encoded_layers(doc, st.layers@)
}

impl CadDocument {
    /// The handle written for a saved layer entry (see
    /// [`resolved_layer_handle`]).
    fn resolve_saved_layer(&self, l: &LayerStateLayer) -> (r: Handle)
        ensures
            r == resolved_layer_handle(*self, l@),
    {
        if l.layer_handle.is_null() {
            match self.layer_index_by_name(l.layer_name.as_str()) {
                Some(i) => {
                    proof {
                        lemma_first_index_is(
                            self.layers@,
                            crate::document::layer_named(l.layer_name@),
                            i as int,
                        );
                    }
                    self.layers[i].handle
                },
                None => Handle(0),
            }
        } else {
            l.layer_handle
        }
    }

    /// The line type written for a saved line-type name.
    fn line_type_handle_for_name(&self, name: &str) -> (r: Handle)
        ensures
            r == line_type_handle_for(*self, name@),
    {
        match self.line_type_index_by_name(name) {
            Some(i) => {
                proof {
                    lemma_first_index_is(self.line_types@, line_type_named(name@), i as int);
                }
                self.line_types[i].handle
            },
            None => match self.line_type_index_by_name("Continuous") {
                Some(i) => {
                    proof {
                        lemma_first_index_is(
                            self.line_types@,
                            line_type_named("Continuous"@),
                            i as int,
                        );
                    }
                    self.line_types[i].handle
                },
                None => Handle(0),
            },
        }
    }

    /// Append the entries of one saved layer referring to `layer_handle`.
    fn push_layer_group(&self, entries: &mut Vec<XRecordEntry>, layer: &LayerStateLayer, layer_handle: Handle)
        ensures
            final(entries)@ == old(entries)@ + layer_group(*self, *layer, layer_handle),
    {
        let ghost before = entries@;
        let mut flags: i32 = 0;
        if layer.off {
            flags = flags + 1;
        }
        if layer.frozen {
            flags = flags + 2;
        }
        if layer.locked {
            flags = flags + 4;
        }
        if layer.plottable {
            flags = flags + 8;
        }
        if layer.new_viewport_frozen {
            flags = flags + 16;
        }
        assert(flags == layer_flags_of(*layer));
        let line_type_handle = self.line_type_handle_for_name(layer.line_type.as_str());
        entries.push(XRecordEntry::handle(330, layer_handle));
        entries.push(XRecordEntry::int32(90, flags));
        entries.push(XRecordEntry::int16(62, layer.color.approximate_index()));
        match layer.color.to_true_color_value() {
            Some(true_color) => {
                entries.push(XRecordEntry::int32(420, true_color));
            },
            None => {},
        }
        entries.push(XRecordEntry::int16(370, layer.line_weight.value()));
        entries.push(XRecordEntry::handle(331, line_type_handle));
        entries.push(XRecordEntry { code: 1, value: XRecordValue::Str(layer.plot_style.clone()) });
        match layer.transparency {
            Some(transparency) => {
                entries.push(XRecordEntry::int32(440, transparency.to_dxf_value()));
            },
            None => {},
        }
        assert(entries@ =~= before + layer_group(*self, *layer, layer_handle));
    }

    /// The XRecord entries that store `state`.
    fn encode_layer_state(&self, state: &LayerState) -> (r: Vec<XRecordEntry>)
        ensures
            r@ == encoded_state(*self, *state),
    {
        let mut entries: Vec<XRecordEntry> = Vec::new();
        entries.push(XRecordEntry::int32(91, state.mask.bits() as i32));
        entries.push(XRecordEntry { code: 301, value: XRecordValue::Str(state.description.clone()) });
        entries.push(XRecordEntry::bool(290, state.hidden));
        entries.push(
            XRecordEntry { code: 302, value: XRecordValue::Str(state.current_layer.clone()) },
        );
        assert(entries@ =~= state_header(*state));
        let mut i: usize = 0;
        while i < state.layers.len()
            invariant
                i <= state.layers@.len(),
                entries@ == state_header(*state) + encoded_layers(
                    *self,
                    state.layers@.take(i as int),
                ),
            decreases state.layers@.len() - i,
        {
            let layer = &state.layers[i];
            let ghost before = entries@;
            proof {
                assert(state.layers@.take(i + 1).drop_last() =~= state.layers@.take(i as int));
                assert(state.layers@.take(i + 1).last() == state.layers@[i as int]);
            }
            let layer_handle = self.resolve_saved_layer(layer);
            if !layer_handle.is_null() {
                self.push_layer_group(&mut entries, layer, layer_handle);
            } else {
                assert(entries@ =~= before + Seq::<XRecordEntry>::empty());
            }
            assert(entries@ =~= state_header(*state) + encoded_layers(
                *self,
                state.layers@.take(i + 1),
            ));
            i = i + 1;
        }
        assert(state.layers@.take(state.layers@.len() as int) =~= state.layers@);
        entries
    }
}

// ---------------------------------------------------------------------------
// What reading back a stored state gives.

/// One saved layer as a reader sees it after it was stored for layer `h`:
/// the layer and line-type names are the ones the drawing's tables give
/// for the written handles.
pub open spec fn stored_layer(doc: CadDocument, l: LayerStateLayerView, h: Handle) -> LayerStateLayerView {
    LayerStateLayerView {
        layer_handle: h,
        layer_name: layer_name_of(doc, h),
        off: l.off,
        frozen: l.frozen,
        locked: l.locked,
        plottable: l.plottable,
        new_viewport_frozen: l.new_viewport_frozen,
        color: l.color,
        line_type: line_type_name_of(doc, line_type_handle_for(doc, l.line_type)),
        line_weight: l.line_weight,
        plot_style: l.plot_style,
        transparency: l.transparency,
    }
}

/// The saved layers as a reader sees them: those that resolve to a layer of
/// the drawing, in order.
pub open spec fn stored_layers(doc: CadDocument, ls: Seq<LayerStateLayerView>) -> Seq<LayerStateLayerView>
    decreases ls.len(),
{
    if ls.len() == 0 {
        Seq::empty()
    } else {
        let h = resolved_layer_handle(doc, ls.last());
        stored_layers(doc, ls.drop_last()) + if h.0 == 0 {
            Seq::empty()
        } else {
            seq![stored_layer(doc, ls.last(), h)]
        }
    }
}

/// A state as a reader sees it after it was stored under `name`.
pub open spec fn stored_form(doc: CadDocument, st: LayerStateView, name: Seq<char>) -> LayerStateView {
    LayerStateView {
        name: name,
        description: st.description,
        mask: st.mask,
        hidden: st.hidden,
        current_layer: st.current_layer,
        layers: stored_layers(doc, st.layers),
    }
}

proof fn lemma_flag_bits(a: bool, b: bool, c: bool, d: bool, e: bool)
    ensures
        ({
            let f = ((if a {
                1i32
            } else {
                0i32
            }) + (if b {
                2i32
            } else {
                0i32
            }) + (if c {
                4i32
            } else {
                0i32
            }) + (if d {
                8i32
            } else {
                0i32
            }) + (if e {
                16i32
            } else {
                0i32
            })) as i32;
            &&& (f & 0x01 != 0) == a
            &&& (f & 0x02 != 0) == b
            &&& (f & 0x04 != 0) == c
            &&& (f & 0x08 != 0) == d
            &&& (f & 0x10 != 0) == e
        }),
{
    let a1: i32 = if a { 1 } else { 0 };
    let b1: i32 = if b { 2 } else { 0 };
    let c1: i32 = if c { 4 } else { 0 };
    let d1: i32 = if d { 8 } else { 0 };
    let e1: i32 = if e { 16 } else { 0 };
    let f: i32 = (a1 + b1 + c1 + d1 + e1) as i32;
    assert((a1 == 0 || a1 == 1) && (b1 == 0 || b1 == 2) && (c1 == 0 || c1 == 4) && (d1 == 0 || d1
        == 8) && (e1 == 0 || e1 == 16) && f == a1 + b1 + c1 + d1 + e1 ==> ((f & 0x01 != 0) == (a1
        == 1) && (f & 0x02 != 0) == (b1 == 2) && (f & 0x04 != 0) == (c1 == 4) && (f & 0x08 != 0)
        == (d1 == 8) && (f & 0x10 != 0) == (e1 == 16))) by (bit_vector);
}

proof fn lemma_u32_i32_roundtrip(x: u32)
    ensures
        ((x as i32) as u32) == x,
{
    assert(((x as i32) as u32) == x) by (bit_vector);
}

/// Reading the group of one stored layer gives the stored layer.
proof fn lemma_decode_group(doc1: CadDocument, doc2: CadDocument, l: LayerStateLayer, h: Handle)
    requires
        doc1.layers == doc2.layers,
        doc1.line_types == doc2.line_types,
        h.0 != 0,
    ensures
        decoded_layer(doc2, layer_group(doc1, l, h)) == Some(stored_layer(doc1, l@, h)),
        layer_group(doc1, l, h)[0].code == 330,
        first_index(layer_group(doc1, l, h).skip(1), with_code(330)) == -1,
{
    let g = layer_group(doc1, l, h);
    let lt = line_type_handle_for(doc1, l.line_type@);
    let has_tc = l.color.true_color is Some;
    let has_tr = l.transparency is Some;
    // positions of the entries after the optional true color
    let o: int = if has_tc {
        1
    } else {
        0
    };
    assert(g[0] == entry(330, XRecordValue::Handle(h)));
    assert(g[1] == entry(90, XRecordValue::Int32(layer_flags_of(l))));
    assert(g[2] == entry(62, XRecordValue::Int16(l.color.index)));
    assert(g[3 + o] == entry(370, XRecordValue::Int16(l.line_weight.0)));
    assert(g[4 + o] == entry(331, XRecordValue::Handle(lt)));
    assert(g[5 + o] == entry(1, XRecordValue::Str(l.plot_style)));
    assert(g.len() == 6 + o + (if has_tr {
        1int
    } else {
        0
    }));
    if has_tc {
        assert(g[3] == entry(420, XRecordValue::Int32(l.color.true_color->0)));
    }
    if has_tr {
        let tr = l.transparency->0;
        assert(g[6 + o] == entry(440, XRecordValue::Int32(tr.0 as i32)));
    }
    lemma_first_index_is(g, with_code(90), 1);
    lemma_first_index_is(g, with_code(62), 2);
    lemma_first_index_is(g, with_code(370), 3 + o);
    lemma_first_index_is(g, with_code(331), 4 + o);
    lemma_first_index_is(g, with_code(1), 5 + o);
    if has_tc {
        lemma_first_index_is(g, with_code(420), 3);
    } else {
        lemma_first_index_none(g, with_code(420));
    }
    if has_tr {
        lemma_first_index_is(g, with_code(440), 6 + o);
        let tr = l.transparency->0;
        lemma_u32_i32_roundtrip(tr.0);
    } else {
        lemma_first_index_none(g, with_code(440));
    }
    lemma_flag_bits(l.off, l.frozen, l.locked, l.plottable, l.new_viewport_frozen);
    let t = g.skip(1);
    assert forall|j: int| 0 <= j < t.len() implies !(#[trigger] with_code(330)(t[j])) by {
        assert(t[j] == g[j + 1]);
    }
    lemma_first_index_none(t, with_code(330));
    let d = decoded_layer(doc2, g).unwrap();
    let expected = stored_layer(doc1, l@, h);
    assert(d.color == expected.color);
    assert(d.transparency == expected.transparency);
}

/// Appending whole groups after a sequence does not change how the
/// sequence's own groups are read.
proof fn lemma_decoded_layers_concat(doc: CadDocument, a: Seq<XRecordEntry>, b: Seq<XRecordEntry>)
    requires
        b.len() == 0 || b[0].code == 330,
    ensures
        decoded_layers(doc, a + b) == decoded_layers(doc, a) + decoded_layers(doc, b),
    decreases a.len(),
{
    if a.len() == 0 {
        assert(a + b =~= b);
        assert(decoded_layers(doc, a) =~= Seq::<LayerStateLayerView>::empty());
        assert(Seq::<LayerStateLayerView>::empty() + decoded_layers(doc, b) =~= decoded_layers(
            doc,
            b,
        ));
    } else if b.len() == 0 {
        assert(a + b =~= a);
        assert(decoded_layers(doc, b) =~= Seq::<LayerStateLayerView>::empty());
        assert(decoded_layers(doc, a) + Seq::<LayerStateLayerView>::empty() =~= decoded_layers(
            doc,
            a,
        ));
    } else {
        let t = a + b;
        assert(t.skip(1) =~= a.skip(1) + b);
        lemma_first_index_concat(a.skip(1), b, with_code(330));
        lemma_first_index_facts(a.skip(1), with_code(330));
        assert(is_first(b, with_code(330), 0));
        lemma_first_index_is(b, with_code(330), 0);
        let n = group_len(a);
        assert(group_len(t) == n);
        assert(0 < n <= a.len());
        assert(t.take(n) =~= a.take(n));
        assert(t.skip(n) =~= a.skip(n) + b);
        lemma_decoded_layers_concat(doc, a.skip(n), b);
        match decoded_layer(doc, a.take(n)) {
            Some(l) => {
                assert(decoded_layers(doc, t) =~= seq![l] + (decoded_layers(doc, a.skip(n))
                    + decoded_layers(doc, b)));
            },
            None => {},
        }
    }
}

/// The stored layers' entries are empty or start with a layer handle.
proof fn lemma_encoded_layers_start(doc: CadDocument, ls: Seq<LayerStateLayer>)
    ensures
        encoded_layers(doc, ls).len() == 0 || encoded_layers(doc, ls)[0].code == 330,
    decreases ls.len(),
{
    if ls.len() > 0 {
        lemma_encoded_layers_start(doc, ls.drop_last());
        let h = resolved_layer_handle(doc, ls.last()@);
        if h.0 != 0 {
            let g = layer_group(doc, ls.last(), h);
            assert(g[0].code == 330);
            let e = encoded_layers(doc, ls.drop_last());
            if e.len() == 0 {
                assert(e + g =~= g);
            } else {
                assert((e + g)[0] == e[0]);
            }
        } else {
            assert(encoded_layers(doc, ls.drop_last()) + Seq::<XRecordEntry>::empty()
                =~= encoded_layers(doc, ls.drop_last()));
        }
    }
}

/// Reading the stored layers' entries gives the stored layers.
proof fn lemma_decode_layers(doc1: CadDocument, doc2: CadDocument, ls: Seq<LayerStateLayer>)
    requires
        doc1.layers == doc2.layers,
        doc1.line_types == doc2.line_types,
    ensures
        decoded_layers(doc2, encoded_layers(doc1, ls)) == stored_layers(doc1, layer_views(ls)),
    decreases ls.len(),
{
    if ls.len() == 0 {
        assert(decoded_layers(doc2, encoded_layers(doc1, ls)) =~= Seq::<LayerStateLayerView>::empty());
        assert(layer_views(ls) =~= Seq::<LayerStateLayerView>::empty());
    } else {
        lemma_decode_layers(doc1, doc2, ls.drop_last());
        assert(layer_views(ls).drop_last() =~= layer_views(ls.drop_last()));
        assert(layer_views(ls).last() == ls.last()@);
        let h = resolved_layer_handle(doc1, ls.last()@);
        let e = encoded_layers(doc1, ls.drop_last());
        if h.0 == 0 {
            assert(e + Seq::<XRecordEntry>::empty() =~= e);
            assert(stored_layers(doc1, layer_views(ls.drop_last())) + Seq::<LayerStateLayerView>::empty()
                =~= stored_layers(doc1, layer_views(ls.drop_last())));
        } else {
            let g = layer_group(doc1, ls.last(), h);
            lemma_decode_group(doc1, doc2, ls.last(), h);
            lemma_decoded_layers_concat(doc2, e, g);
            assert(group_len(g) == g.len());
            assert(g.take(g.len() as int) =~= g);
            assert(g.skip(g.len() as int) =~= Seq::<XRecordEntry>::empty());
            assert(decoded_layers(doc2, g.skip(g.len() as int)) =~= Seq::<LayerStateLayerView>::empty());
            assert(decoded_layers(doc2, g) =~= seq![stored_layer(doc1, ls.last()@, h)]);
        }
    }
}

/// Reading the entries written for a state gives the stored form of the
/// state: the same description, mask, hidden flag and current layer, and
/// the saved layers that resolve to a layer of the drawing.
pub proof fn lemma_encode_then_decode(
    doc1: CadDocument,
    doc2: CadDocument,
    st: LayerState,
    name: Seq<char>,
)
    requires
        doc1.layers == doc2.layers,
        doc1.line_types == doc2.line_types,
    ensures
        decoded_state(doc2, name, encoded_state(doc1, st)) == stored_form(doc1, st@, name),
{
    let hd = state_header(st);
    let ls = encoded_layers(doc1, st.layers@);
    let s = encoded_state(doc1, st);
    lemma_encoded_layers_start(doc1, st.layers@);
    assert forall|j: int| 0 <= j < hd.len() implies !(#[trigger] with_code(330)(hd[j])) by {}
    lemma_first_index_none(hd, with_code(330));
    lemma_first_index_concat(hd, ls, with_code(330));
    if ls.len() > 0 {
        assert(is_first(ls, with_code(330), 0));
        lemma_first_index_is(ls, with_code(330), 0);
    } else {
        lemma_first_index_none(ls, with_code(330));
    }
    assert(first_layer_pos(s) == 4);
    assert(s.take(4) =~= hd);
    assert(s.skip(4) =~= ls);
    lemma_first_index_is(hd, with_code(91), 0);
    lemma_first_index_is(hd, with_code(301), 1);
    lemma_first_index_is(hd, with_code(290), 2);
    lemma_first_index_is(hd, with_code(302), 3);
    lemma_u32_i32_roundtrip(st.mask.0);
    lemma_decode_layers(doc1, doc2, st.layers@);
}

// ---------------------------------------------------------------------------
// Creating the storage and storing a state.

/// The layer table's extension dictionary, where there is one, is a
/// dictionary, and the layer-states entry in it does not point back at it.
pub open spec fn extension_sound(doc: CadDocument) -> bool {
    layer_extension_dictionary(doc) matches Some(e) ==> {
        &&& doc.spec_dictionary(e) is Some
        &&& layer_states_dictionary(doc) != Some(e)
    }
}

/// The extension dictionary is registered for the layer table and stored.
pub open spec fn extension_registered(doc: CadDocument) -> bool {
    doc.spec_xdic(doc.layer_table_handle) matches Some(x) && doc.spec_object(x) is Some
}

/// With the same registered extension dictionary and the same objects at
/// it, the layer-states dictionary is the same.
proof fn lemma_states_dictionary_same(d1: CadDocument, d2: CadDocument)
    requires
        extension_registered(d1),
        extension_registered(d2),
        d1.layer_table_handle == d2.layer_table_handle,
        d1.spec_xdic(d1.layer_table_handle) == d2.spec_xdic(d2.layer_table_handle),
        d1.spec_object(d1.spec_xdic(d1.layer_table_handle).unwrap()) == d2.spec_object(
            d2.spec_xdic(d2.layer_table_handle).unwrap(),
        ),
    ensures
        layer_extension_dictionary(d1) == layer_extension_dictionary(d2),
        layer_states_dictionary(d1) == layer_states_dictionary(d2),
{
}

/// After replacing (or adding) the first layer-states entry, the entry
/// found is the new one.
proof fn lemma_states_entry_set(es: Seq<(String, Handle)>, index: Option<usize>, e: (String, Handle))
    requires
        is_states_key(e.0@),
        index matches Some(i) ==> is_first(es, states_key_entry(), i as int),
        index is None ==> first_index(es, states_key_entry()) == -1,
    ensures
        first_match(entries_set(es, index, e), states_key_entry()) == Some(e),
{
    let t = entries_set(es, index, e);
    match index {
        Some(i) => {
            assert(is_first(t, states_key_entry(), i as int)) by {
                assert forall|j: int| 0 <= j < i implies !(#[trigger] states_key_entry()(t[j])) by {
                    assert(t[j] == es[j]);
                }
            }
            lemma_first_index_is(t, states_key_entry(), i as int);
        },
        None => {
            crate::seqs::lemma_first_match_push(es, states_key_entry(), e);
        },
    }
}

/// The extension dictionary that is found is stored.
proof fn lemma_extension_stored(doc: CadDocument)
    ensures
        layer_extension_dictionary(doc) matches Some(e) ==> doc.spec_object(e) is Some,
{
    let table = doc.layer_table_handle;
    if !(doc.spec_xdic(table) matches Some(h) && doc.spec_object(h) is Some) {
        lemma_first_index_facts(doc.objects@, dictionary_owned_by(table));
        let i = first_index(doc.objects@, dictionary_owned_by(table));
        if i >= 0 {
            let e = doc.objects@[i].0;
            assert(has_handle(e)(doc.objects@[i]));
            crate::seqs::lemma_some_first(doc.objects@, has_handle(e), i);
            lemma_first_index_facts(doc.objects@, has_handle(e));
        }
    }
}

impl CadDocument {
    /// Find or create the layer-states dictionary, creating the layer
    /// table's extension dictionary first where there is none.
    fn ensure_layer_states_dictionary(&mut self) -> (r: Handle)
        requires
            old(self).wf(),
            old(self).header.handle_seed < u64::MAX - 2,
        ensures
            *final(self) == (CadDocument {
                header: Header { handle_seed: final(self).header.handle_seed, ..old(self).header },
                objects: final(self).objects,
                xdic_by_handle: final(self).xdic_by_handle,
                ..*old(self)
            }),
            final(self).wf(),
            final(self).layers == old(self).layers,
            final(self).line_types == old(self).line_types,
            final(self).layer_table_handle == old(self).layer_table_handle,
            final(self).header.current_layer_name == old(self).header.current_layer_name,
            final(self).header.current_layer_handle == old(self).header.current_layer_handle,
            old(self).header.handle_seed <= final(self).header.handle_seed <= old(
                self,
            ).header.handle_seed + 2,
            extension_registered(*final(self)),
            layer_extension_dictionary(*old(self)) is Some ==> final(self).spec_xdic(
                final(self).layer_table_handle,
            ) == layer_extension_dictionary(*old(self)),
            layer_extension_dictionary(*old(self)) is None ==> layer_states_dictionary(*old(self))
                is None,
            extension_dictionary_ok(*old(self)) ==> (layer_states_dictionary(*old(self)) matches Some(
                h,
            ) ==> (old(self).spec_dictionary(h) is Some ==> r == h && final(self).objects == old(
                self,
            ).objects && layer_states_dictionary(*final(self)) == Some(h))),
            extension_sound(*old(self)) ==> {
                &&& layer_states_dictionary(*final(self)) == Some(r)
                &&& final(self).spec_dictionary(r) is Some
                &&& layer_extension_dictionary(*final(self)) != Some(r)
                &&& (layer_states_dictionary(*old(self)) == Some(r) && old(self).spec_dictionary(r)
                    is Some) ==> final(self).spec_dictionary(r) == old(self).spec_dictionary(r)
                &&& !(layer_states_dictionary(*old(self)) == Some(r) && old(self).spec_dictionary(r)
                    is Some) ==> final(self).spec_dictionary(r).unwrap().entries@.len() == 0
                &&& layer_states_dictionary(*old(self)) matches Some(h) ==> (old(self).spec_dictionary(h)
                    is Some ==> r == h && final(self).objects == old(self).objects)
            },
    {
        let table = self.layer_table_handle;
        let ghost old_doc = *self;
        let extension_handle = match self.layer_extension_dictionary_handle() {
            Some(h) => h,
            None => {
                let ghost seed = self.header.handle_seed;
                let handle = self.allocate_handle();
                let mut dictionary = Dictionary::new();
                dictionary.handle = handle;
                dictionary.owner = table;
                dictionary.hard_owner = true;
                proof {
                    lemma_fresh_handle(self.objects@, seed);
                    lemma_insert_keeps_handles(
                        self.objects@,
                        handle,
                        ObjectType::Dictionary(dictionary),
                        self.header.handle_seed,
                    );
                }
                self.insert_object(handle, ObjectType::Dictionary(dictionary));
                proof {
                    lemma_object_at_insert(
                        old_doc.objects@,
                        handle,
                        ObjectType::Dictionary(dictionary),
                        handle,
                    );
                }
                handle
            },
        };
        proof {
            lemma_extension_stored(old_doc);
        }
        self.set_xdic(table, extension_handle);
        let ghost doc1 = *self;
        proof {
            assert(extension_registered(doc1));
            if extension_dictionary_ok(old_doc) && layer_extension_dictionary(old_doc) is Some {
                // the extension dictionary and its object are the same as before
                assert(doc1.spec_object(extension_handle) == old_doc.spec_object(extension_handle));
                assert(layer_states_dictionary(doc1) == layer_states_dictionary(old_doc));
            }
        }
        match self.layer_states_dictionary_handle() {
            Some(handle) => {
                match self.get_object(handle) {
                    Some(ObjectType::Dictionary(_)) => {
                        return handle;
                    },
                    _ => {},
                }
            },
            None => {},
        }
        let ghost seed = self.header.handle_seed;
        let dictionary_handle = self.allocate_handle();
        let mut dictionary = Dictionary::new();
        dictionary.handle = dictionary_handle;
        dictionary.owner = extension_handle;
        dictionary.reactors = vec![extension_handle];
        proof {
            lemma_fresh_handle(self.objects@, seed);
            lemma_insert_keeps_handles(
                self.objects@,
                dictionary_handle,
                ObjectType::Dictionary(dictionary),
                self.header.handle_seed,
            );
            lemma_object_at_insert(
                doc1.objects@,
                dictionary_handle,
                ObjectType::Dictionary(dictionary),
                extension_handle,
            );
            lemma_object_at_insert(
                doc1.objects@,
                dictionary_handle,
                ObjectType::Dictionary(dictionary),
                dictionary_handle,
            );
        }
        self.insert_object(dictionary_handle, ObjectType::Dictionary(dictionary));
        let ghost doc2 = *self;
        let index = match self.get_object(extension_handle) {
            Some(ObjectType::Dictionary(extension)) => {
                let found = Self::find_states_key(extension);
                Some(found)
            },
            _ => None,
        };
        match index {
            Some(index) => {
                let key = owned("ACAD_LAYERSTATES");
                proof {
                    crate::text::lemma_eq_ignore_case_equiv(key@, key@, key@);
                    assert(is_states_key(key@));
                    lemma_states_entry_set(
                        doc2.spec_dictionary(extension_handle).unwrap().entries@,
                        index,
                        (key, dictionary_handle),
                    );
                    assert(extension_handle.0 < self.header.handle_seed);
                }
                self.set_dictionary_entry(extension_handle, index, key, dictionary_handle);
                proof {
                    let d2 = choose|d2: Dictionary|
                        {
                            &&& self.objects@ == objects_insert(
                                doc2.objects@,
                                extension_handle,
                                ObjectType::Dictionary(d2),
                            )
                            &&& d2.entries@ == entries_set(
                                doc2.spec_dictionary(extension_handle).unwrap().entries@,
                                index,
                                (key, dictionary_handle),
                            )
                            &&& d2.handle == doc2.spec_dictionary(extension_handle).unwrap().handle
                            &&& d2.owner == doc2.spec_dictionary(extension_handle).unwrap().owner
                            &&& d2.reactors == doc2.spec_dictionary(
                                extension_handle,
                            ).unwrap().reactors
                            &&& d2.hard_owner == doc2.spec_dictionary(
                                extension_handle,
                            ).unwrap().hard_owner
                        };
                    lemma_insert_keeps_handles(
                        doc2.objects@,
                        extension_handle,
                        ObjectType::Dictionary(d2),
                        self.header.handle_seed,
                    );
                    lemma_object_at_insert(
                        doc2.objects@,
                        extension_handle,
                        ObjectType::Dictionary(d2),
                        extension_handle,
                    );
                    lemma_object_at_insert(
                        doc2.objects@,
                        extension_handle,
                        ObjectType::Dictionary(d2),
                        dictionary_handle,
                    );
                    assert(extension_registered(*self));
                    assert(layer_states_dictionary(*self) == Some(dictionary_handle));
                }
            },
            None => {},
        }
        dictionary_handle
    }
}

/// The encoding spec reads only the layer and line-type tables of the
/// drawing.
proof fn lemma_same_tables(d1: CadDocument, d2: CadDocument, ls: Seq<LayerStateLayer>)
    requires
        d1.layers == d2.layers,
        d1.line_types == d2.line_types,
    ensures
        encoded_layers(d1, ls) == encoded_layers(d2, ls),
    decreases ls.len(),
{
    if ls.len() > 0 {
        lemma_same_tables(d1, d2, ls.drop_last());
        assert(resolved_layer_handle(d1, ls.last()@) == resolved_layer_handle(d2, ls.last()@));
        assert(line_type_handle_for(d1, ls.last().line_type@) == line_type_handle_for(
            d2,
            ls.last().line_type@,
        ));
    }
}

/// The stored-form spec reads only the layer and line-type tables of the
/// drawing.
proof fn lemma_stored_same_tables(d1: CadDocument, d2: CadDocument, ls: Seq<LayerStateLayerView>)
    requires
        d1.layers == d2.layers,
        d1.line_types == d2.line_types,
    ensures
        stored_layers(d1, ls) == stored_layers(d2, ls),
    decreases ls.len(),
{
    if ls.len() > 0 {
        lemma_stored_same_tables(d1, d2, ls.drop_last());
        assert(resolved_layer_handle(d1, ls.last()) == resolved_layer_handle(d2, ls.last()));
        assert(line_type_handle_for(d1, ls.last().line_type) == line_type_handle_for(
            d2,
            ls.last().line_type,
        ));
    }
}

/// Decoding dictionary entries distributes over concatenation.
proof fn lemma_decoded_entries_concat(doc: CadDocument, a: Seq<(String, Handle)>, b: Seq<(String, Handle)>)
    ensures
        decoded_entries(doc, a + b) == decoded_entries(doc, a) + decoded_entries(doc, b),
    decreases b.len(),
{
    if b.len() == 0 {
        assert(a + b =~= a);
        assert(decoded_entries(doc, b) =~= Seq::<LayerStateView>::empty());
        assert(decoded_entries(doc, a) + Seq::<LayerStateView>::empty() =~= decoded_entries(
            doc,
            a,
        ));
    } else {
        lemma_decoded_entries_concat(doc, a, b.drop_last());
        assert((a + b).drop_last() =~= a + b.drop_last());
        assert((a + b).last() == b.last());
        match doc.spec_object(b.last().1) {
            Some(ObjectType::XRecord(x)) => {
                let st = decoded_state(doc, b.last().0@, x.entries@);
                assert(decoded_entries(doc, a + b) =~= decoded_entries(doc, a) + decoded_entries(
                    doc,
                    b.drop_last(),
                ).push(st));
            },
            _ => {},
        }
    }
}

/// Entries whose keys all differ from `name` decode to states that all
/// differ from `name`.
proof fn lemma_decoded_entries_unnamed(doc: CadDocument, es: Seq<(String, Handle)>, name: Seq<char>)
    requires
        forall|j: int| 0 <= j < es.len() ==> !(#[trigger] entry_named(name)(es[j])),
    ensures
        first_match(decoded_entries(doc, es), state_named(name)) is None,
    decreases es.len(),
{
    if es.len() > 0 {
        assert forall|j: int| 0 <= j < es.drop_last().len() implies !(#[trigger] entry_named(name)(
            es.drop_last()[j],
        )) by {
            assert(es.drop_last()[j] == es[j]);
        }
        lemma_decoded_entries_unnamed(doc, es.drop_last(), name);
        assert(!entry_named(name)(es[es.len() - 1]));
        match doc.spec_object(es.last().1) {
            Some(ObjectType::XRecord(x)) => {
                let st = decoded_state(doc, es.last().0@, x.entries@);
                crate::seqs::lemma_first_match_push(decoded_entries(doc, es.drop_last()), state_named(name), st);
            },
            _ => {},
        }
    }
}

/// After the entry named `name` is set to (`name`, `xh`) where `xh` holds
/// an XRecord, the state found by that name is read from that XRecord.
proof fn lemma_find_set_entry(
    doc: CadDocument,
    es: Seq<(String, Handle)>,
    index: Option<usize>,
    key: String,
    xh: Handle,
    x: XRecord,
)
    requires
        eq_ignore_case(key@, key@),
        index matches Some(i) ==> is_first(es, entry_named(key@), i as int),
        index is None ==> first_index(es, entry_named(key@)) == -1,
        doc.spec_object(xh) == Some(ObjectType::XRecord(x)),
    ensures
        first_match(decoded_entries(doc, entries_set(es, index, (key, xh))), state_named(key@))
            == Some(decoded_state(doc, key@, x.entries@)),
{
    let t = entries_set(es, index, (key, xh));
    let k: int = match index {
        Some(i) => i as int,
        None => es.len() as int,
    };
    let a = t.take(k);
    let mid = seq![(key, xh)];
    let b = t.skip(k + 1);
    assert(t =~= a + (mid + b));
    lemma_first_index_facts(es, entry_named(key@));
    assert forall|j: int| 0 <= j < a.len() implies !(#[trigger] entry_named(key@)(a[j])) by {
        assert(a[j] == es[j]);
    }
    lemma_decoded_entries_unnamed(doc, a, key@);
    lemma_decoded_entries_concat(doc, a, mid + b);
    lemma_decoded_entries_concat(doc, mid, b);
    let st = decoded_state(doc, key@, x.entries@);
    assert(mid.drop_last() =~= Seq::<(String, Handle)>::empty());
    assert(decoded_entries(doc, Seq::<(String, Handle)>::empty()) =~= Seq::<LayerStateView>::empty());
    assert(decoded_entries(doc, mid) =~= seq![st]);
    lemma_first_match_concat(decoded_entries(doc, a), decoded_entries(doc, mid + b), state_named(key@));
    lemma_first_match_concat(seq![st], decoded_entries(doc, b), state_named(key@));
    lemma_first_match_single(st, state_named(key@));
}

/// The entries of the layer-states dictionary: none where there is no
/// such dictionary.
pub open spec fn states_entries(doc: CadDocument) -> Seq<(String, Handle)> {
    match layer_states_dictionary(doc) {
        Some(h) => match dictionary_at(doc, h) {
            Some(d) => d.entries@,
            None => Seq::empty(),
        },
        None => Seq::empty(),
    }
}

/// `es` with the first entry named `name` (ASCII case ignored) replaced by
/// `e`, or `e` appended when there is none.
pub open spec fn entries_put(es: Seq<(String, Handle)>, name: Seq<char>, e: (String, Handle)) -> Seq<
    (String, Handle),
> {
    let i = first_index(es, entry_named(name));
    if i >= 0 {
        es.update(i, e)
    } else {
        es.push(e)
    }
}

/// `store_ok` where, besides, the layer-states dictionary is not the
/// extension dictionary itself: the case the proofs take first.
pub open spec fn store_sound(doc: CadDocument, name: Seq<char>) -> bool {
    &&& extension_sound(doc)
    &&& layer_states_dictionary(doc) matches Some(dh) ==> (doc.spec_dictionary(dh) matches Some(d)
        ==> (first_match(d.entries@, entry_named(name)) matches Some(e) ==> {
        &&& e.1 != dh
        &&& Some(e.1) != layer_extension_dictionary(doc)
    }))
}

/// A rename from `old_name` to `new_name` can be read back: as for a store
/// under `old_name`, and where the layer-states dictionary is the extension
/// dictionary itself, the new name is not a layer-states key given to an
/// entry that comes before that dictionary's own entry.
pub open spec fn rename_ok(doc: CadDocument, old_name: Seq<char>, new_name: Seq<char>) -> bool {
    &&& store_ok(doc, old_name)
    &&& (layer_extension_dictionary(doc) is Some && layer_states_dictionary(doc)
        == layer_extension_dictionary(doc)) ==> !(is_states_key(new_name) && first_index(
        states_entries(doc),
        entry_named(old_name),
    ) < first_index(states_entries(doc), states_key_entry()))
}

/// The layer table's extension dictionary, where there is one, is a
/// dictionary.
pub open spec fn extension_dictionary_ok(doc: CadDocument) -> bool {
    layer_extension_dictionary(doc) matches Some(e) ==> doc.spec_dictionary(e) is Some
}

/// A store under `name` can be read back: the extension dictionary, where
/// there is one, is a dictionary, and the entry already named `name` refers
/// neither to the layer-states dictionary nor to the extension dictionary.
/// (The layer-states dictionary may be the extension dictionary itself.)
pub open spec fn store_ok(doc: CadDocument, name: Seq<char>) -> bool {
    &&& extension_dictionary_ok(doc)
    &&& layer_states_dictionary(doc) matches Some(dh) ==> (doc.spec_dictionary(dh) matches Some(d)
        ==> (first_match(d.entries@, entry_named(name)) matches Some(e) ==> {
        &&& e.1 != dh
        &&& Some(e.1) != layer_extension_dictionary(doc)
    }))
}

/// Writing an entry named `key` into a dictionary whose first layer-states
/// entry refers to another handle keeps that first layer-states entry.
proof fn lemma_set_keeps_states_entry(
    es: Seq<(String, Handle)>,
    i: Option<usize>,
    key: String,
    xh: Handle,
    dh: Handle,
)
    requires
        first_match(es, states_key_entry()) matches Some(f) && f.1 == dh,
        i matches Some(k) ==> is_first(es, entry_named(key@), k as int) && es[k as int].1 != dh,
    ensures
        first_match(entries_set(es, i, (key, xh)), states_key_entry()) == first_match(
            es,
            states_key_entry(),
        ),
{
    match i {
        Some(k) => {
            let k = k as int;
            lemma_first_index_facts(es, states_key_entry());
            let f = first_index(es, states_key_entry());
            assert(f != k);
            assert(eq_ignore_case(es[k].0@, key@));
            crate::text::lemma_eq_ignore_case_equiv(es[k].0@, key@, "ACAD_LAYERSTATES"@);
            crate::text::lemma_eq_ignore_case_equiv(es[k].0@, key@, "ACAD_LAYERSTATE"@);
            crate::text::lemma_eq_ignore_case_equiv(key@, es[k].0@, "ACAD_LAYERSTATES"@);
            crate::text::lemma_eq_ignore_case_equiv(key@, es[k].0@, "ACAD_LAYERSTATE"@);
            assert(is_states_key(es[k].0@) == is_states_key(key@));
            crate::seqs::lemma_first_match_update_other(es, states_key_entry(), k, (key, xh));
        },
        None => {
            crate::seqs::lemma_first_match_push(es, states_key_entry(), (key, xh));
        },
    }
}

/// The read-back law of a store where the layer-states dictionary is the
/// extension dictionary itself.
proof fn lemma_store_read_back_alias(
    old_doc: CadDocument,
    doc1: CadDocument,
    doc_removed: CadDocument,
    doc2: CadDocument,
    fin: CadDocument,
    dh: Handle,
    xh: Handle,
    x: XRecord,
    d1: Dictionary,
    d2: Dictionary,
    i: Option<usize>,
    key: String,
    state: LayerState,
)
    requires
        doc1.layers == old_doc.layers,
        doc1.line_types == old_doc.line_types,
        fin.layers == old_doc.layers,
        fin.line_types == old_doc.line_types,
        fin.layer_table_handle == doc1.layer_table_handle,
        fin.xdic_by_handle == doc1.xdic_by_handle,
        doc1.spec_xdic(doc1.layer_table_handle) == Some(dh),
        layer_states_dictionary(doc1) == Some(dh),
        doc1.spec_dictionary(dh) == Some(d1),
        xh != dh,
        unique_handles(doc1.objects@),
        doc_removed.objects@ == objects_remove(doc1.objects@, xh),
        doc2.objects@ == objects_insert(doc_removed.objects@, xh, ObjectType::XRecord(x)),
        fin.objects@ == objects_insert(doc2.objects@, dh, ObjectType::Dictionary(d2)),
        d2.entries@ == entries_set(d1.entries@, i, (key, xh)),
        i matches Some(k) ==> is_first(d1.entries@, entry_named(key@), k as int) && d1.entries@[k as int].1
            != dh,
        i is None ==> first_index(d1.entries@, entry_named(key@)) == -1,
        x.entries@ == encoded_state(old_doc, state),
        key@ == state.name@,
    ensures
        stored_layer_state(fin, key@) == Some(stored_form(old_doc, state@, key@)),
        fin.spec_object(xh) == Some(ObjectType::XRecord(x)),
        layer_states_dictionary(fin) == Some(dh),
        dictionary_at(fin, dh) == Some(d2),
{
    lemma_object_at_insert(doc_removed.objects@, xh, ObjectType::XRecord(x), xh);
    lemma_object_at_insert(doc2.objects@, dh, ObjectType::Dictionary(d2), dh);
    lemma_object_at_insert(doc2.objects@, dh, ObjectType::Dictionary(d2), xh);
    lemma_object_at_member(doc1.objects@, dh);
    assert(layer_extension_dictionary(doc1) == Some(dh));
    assert(dictionary_at(doc1, dh) == Some(d1));
    lemma_set_keeps_states_entry(d1.entries@, i, key, xh, dh);
    assert(fin.spec_xdic(fin.layer_table_handle) == Some(dh));
    assert(fin.spec_object(dh) == Some(ObjectType::Dictionary(d2)));
    assert(layer_extension_dictionary(fin) == Some(dh));
    assert(dictionary_at(fin, dh) == Some(d2));
    assert(layer_states_dictionary(fin) == Some(dh));
    crate::text::lemma_eq_ignore_case_equiv(key@, key@, key@);
    lemma_find_set_entry(fin, d1.entries@, i, key, xh, x);
    lemma_encode_then_decode(old_doc, fin, state, key@);
}

/// The facts about the steps of `store_layer_state` give the read-back law.
proof fn lemma_store_read_back(
    old_doc: CadDocument,
    doc1: CadDocument,
    doc_removed: CadDocument,
    doc2: CadDocument,
    fin: CadDocument,
    dh: Handle,
    xh: Handle,
    x: XRecord,
    d1: Dictionary,
    d2: Dictionary,
    i: Option<usize>,
    key: String,
    state: LayerState,
)
    requires
        doc1.layers == old_doc.layers,
        doc1.line_types == old_doc.line_types,
        fin.layers == old_doc.layers,
        fin.line_types == old_doc.line_types,
        extension_registered(doc1),
        fin.layer_table_handle == doc1.layer_table_handle,
        fin.xdic_by_handle == doc1.xdic_by_handle,
        layer_states_dictionary(doc1) == Some(dh),
        doc1.spec_dictionary(dh) == Some(d1),
        layer_extension_dictionary(doc1) != Some(dh),
        xh != dh,
        Some(xh) != doc1.spec_xdic(doc1.layer_table_handle),
        unique_handles(doc1.objects@),
        doc_removed.objects@ == objects_remove(doc1.objects@, xh),
        doc2.objects@ == objects_insert(doc_removed.objects@, xh, ObjectType::XRecord(x)),
        fin.objects@ == objects_insert(doc2.objects@, dh, ObjectType::Dictionary(d2)),
        d2.entries@ == entries_set(d1.entries@, i, (key, xh)),
        i matches Some(k) ==> is_first(d1.entries@, entry_named(key@), k as int),
        i is None ==> first_index(d1.entries@, entry_named(key@)) == -1,
        x.entries@ == encoded_state(old_doc, state),
        key@ == state.name@,
    ensures
        stored_layer_state(fin, key@) == Some(stored_form(old_doc, state@, key@)),
        fin.spec_object(xh) == Some(ObjectType::XRecord(x)),
        layer_states_dictionary(fin) == Some(dh),
        dictionary_at(fin, dh) == Some(d2),
{
    let e = doc1.spec_xdic(doc1.layer_table_handle).unwrap();
    lemma_object_at_remove(doc1.objects@, xh, e);
    lemma_object_at_insert(doc_removed.objects@, xh, ObjectType::XRecord(x), e);
    lemma_object_at_insert(doc_removed.objects@, xh, ObjectType::XRecord(x), xh);
    lemma_object_at_insert(doc2.objects@, dh, ObjectType::Dictionary(d2), e);
    lemma_object_at_insert(doc2.objects@, dh, ObjectType::Dictionary(d2), dh);
    lemma_object_at_insert(doc2.objects@, dh, ObjectType::Dictionary(d2), xh);
    assert(e != dh);
    assert(fin.spec_object(e) == doc1.spec_object(e));
    assert(extension_registered(fin));
    lemma_states_dictionary_same(doc1, fin);
    assert(layer_states_dictionary(fin) == Some(dh));
    assert(dictionary_at(fin, dh) == Some(d2));
    crate::text::lemma_eq_ignore_case_equiv(key@, key@, key@);
    lemma_find_set_entry(fin, d1.entries@, i, key, xh, x);
    lemma_encode_then_decode(old_doc, fin, state, key@);
}

/// The entry list of the layer-states dictionary after a store: the entry
/// named like the state is replaced (or the pair appended), and the stored
/// handle is the one that entry had.
proof fn lemma_store_entries(
    old_doc: CadDocument,
    doc1: CadDocument,
    fin: CadDocument,
    dh: Handle,
    d1: Dictionary,
    d2: Dictionary,
    i: Option<usize>,
    key: String,
    xh: Handle,
)
    requires
        layer_states_dictionary(old_doc) matches Some(h) ==> (old_doc.spec_dictionary(h) is Some
            ==> dh == h),
        (layer_states_dictionary(old_doc) == Some(dh) && old_doc.spec_dictionary(dh) is Some)
            ==> doc1.spec_dictionary(dh) == old_doc.spec_dictionary(dh),
        !(layer_states_dictionary(old_doc) == Some(dh) && old_doc.spec_dictionary(dh) is Some)
            ==> d1.entries@.len() == 0,
        doc1.spec_dictionary(dh) == Some(d1),
        layer_states_dictionary(fin) == Some(dh),
        dictionary_at(fin, dh) == Some(d2),
        d2.entries@ == entries_set(d1.entries@, i, (key, xh)),
        i matches Some(k) ==> is_first(d1.entries@, entry_named(key@), k as int),
        i is None ==> first_index(d1.entries@, entry_named(key@)) == -1,
        i matches Some(k) ==> xh == d1.entries@[k as int].1,
    ensures
        states_entries(fin) == entries_put(states_entries(old_doc), key@, (key, xh)),
        first_index(states_entries(old_doc), entry_named(key@)) >= 0 ==> xh == states_entries(
            old_doc,
        )[first_index(states_entries(old_doc), entry_named(key@))].1,
{
    assert(states_entries(fin) == d2.entries@);
    if layer_states_dictionary(old_doc) == Some(dh) && old_doc.spec_dictionary(dh) is Some {
        assert(states_entries(old_doc) == d1.entries@);
    } else {
        assert(states_entries(old_doc) =~= Seq::<(String, Handle)>::empty());
        assert(d1.entries@ =~= Seq::<(String, Handle)>::empty());
    }
    let es = states_entries(old_doc);
    match i {
        Some(k) => {
            lemma_first_index_is(es, entry_named(key@), k as int);
        },
        None => {},
    }
    assert(entries_set(d1.entries@, i, (key, xh)) == entries_put(es, key@, (key, xh)));
}

/// The object under `h` is an XRecord.
pub open spec fn holds_xrecord(doc: CadDocument, h: Handle) -> bool {
    doc.spec_object(h) matches Some(ObjectType::XRecord(_))
}

/// Reading states from dictionary entries gives the same where the two
/// drawings share their tables and, for every entry, either the object the
/// entry refers to or that it is no XRecord.
proof fn lemma_decoded_entries_same(d1: CadDocument, d2: CadDocument, es: Seq<(String, Handle)>)
    requires
        d1.layers == d2.layers,
        d1.line_types == d2.line_types,
        forall|j: int|
            0 <= j < es.len() ==> d1.spec_object((#[trigger] es[j]).1) == d2.spec_object(es[j].1)
                || (!holds_xrecord(d1, es[j].1) && !holds_xrecord(d2, es[j].1)),
    ensures
        decoded_entries(d1, es) == decoded_entries(d2, es),
    decreases es.len(),
{
    if es.len() > 0 {
        let d = es.drop_last();
        assert forall|j: int| 0 <= j < d.len() implies d1.spec_object((#[trigger] d[j]).1)
            == d2.spec_object(d[j].1) || (!holds_xrecord(d1, d[j].1) && !holds_xrecord(d2, d[j].1)) by {
            assert(d[j] == es[j]);
        }
        lemma_decoded_entries_same(d1, d2, d);
        let h = es[es.len() - 1].1;
        match d1.spec_object(h) {
            Some(ObjectType::XRecord(x)) => {
                lemma_decoded_layers_same_tables(d1, d2, x.entries@.skip(first_layer_pos(x.entries@)));
            },
            _ => {},
        }
    }
}

/// The stored states are read from the entries of the layer-states
/// dictionary.
proof fn lemma_stored_from_entries(doc: CadDocument)
    ensures
        stored_layer_states(doc) == decoded_entries(doc, states_entries(doc)),
{
    if states_entries(doc).len() == 0 {
        assert(decoded_entries(doc, states_entries(doc)) =~= Seq::<LayerStateView>::empty());
    }
}

/// No matching state is read from entries none of which is named `n`.
proof fn lemma_decoded_entries_not_named(doc: CadDocument, es: Seq<(String, Handle)>, n: Seq<char>)
    requires
        forall|j: int| 0 <= j < es.len() ==> !eq_ignore_case((#[trigger] es[j]).0@, n),
    ensures
        first_match(decoded_entries(doc, es), state_named(n)) is None,
{
    assert forall|j: int| 0 <= j < es.len() implies !(#[trigger] entry_named(n)(es[j])) by {}
    lemma_decoded_entries_unnamed(doc, es, n);
}

/// The first state named `n` is unchanged when the entries before and
/// after one position read the same and neither the old nor the new entry
/// there is named `n`.
proof fn lemma_first_state_around(
    d1: CadDocument,
    d2: CadDocument,
    a: Seq<(String, Handle)>,
    m1: Seq<(String, Handle)>,
    m2: Seq<(String, Handle)>,
    b: Seq<(String, Handle)>,
    n: Seq<char>,
)
    requires
        decoded_entries(d1, a) == decoded_entries(d2, a),
        decoded_entries(d1, b) == decoded_entries(d2, b),
        forall|j: int| 0 <= j < m1.len() ==> !eq_ignore_case((#[trigger] m1[j]).0@, n),
        forall|j: int| 0 <= j < m2.len() ==> !eq_ignore_case((#[trigger] m2[j]).0@, n),
    ensures
        first_match(decoded_entries(d2, a + m2 + b), state_named(n)) == first_match(
            decoded_entries(d1, a + m1 + b),
            state_named(n),
        ),
{
    lemma_decoded_entries_concat(d1, a + m1, b);
    lemma_decoded_entries_concat(d1, a, m1);
    lemma_decoded_entries_concat(d2, a + m2, b);
    lemma_decoded_entries_concat(d2, a, m2);
    lemma_decoded_entries_not_named(d1, m1, n);
    lemma_decoded_entries_not_named(d2, m2, n);
    let p = state_named(n);
    lemma_first_match_concat(decoded_entries(d1, a) + decoded_entries(d1, m1), decoded_entries(d1, b), p);
    lemma_first_match_concat(decoded_entries(d1, a), decoded_entries(d1, m1), p);
    lemma_first_match_concat(decoded_entries(d2, a) + decoded_entries(d2, m2), decoded_entries(d2, b), p);
    lemma_first_match_concat(decoded_entries(d2, a), decoded_entries(d2, m2), p);
}

/// No two entries refer to the same object.
pub open spec fn distinct_targets(es: Seq<(String, Handle)>) -> bool {
    forall|i: int, j: int| 0 <= i < j < es.len() ==> (#[trigger] es[i]).1 != (#[trigger] es[j]).1
}

/// The entries of a stored dictionary refer to handles below `seed`.
proof fn lemma_dictionary_refs_below(doc: CadDocument, dh: Handle, d: Dictionary, seed: u64)
    requires
        refs_below(doc.objects@, seed),
        doc.spec_dictionary(dh) == Some(d),
    ensures
        forall|j: int| 0 <= j < d.entries@.len() ==> (#[trigger] d.entries@[j]).1.0 < seed,
{
    lemma_object_at_member(doc.objects@, dh);
    let i = choose|i: int|
        0 <= i < doc.objects@.len() && doc.objects@[i].1 == ObjectType::Dictionary(d) && doc.objects@[i].0
            == dh;
    assert(object_refs_below(doc.objects@[i].1, seed));
}

/// Storing under `key` leaves the state of every other name as it was,
/// where the entries refer to different objects.
proof fn lemma_store_keeps_others(
    old_doc: CadDocument,
    doc1: CadDocument,
    doc_removed: CadDocument,
    doc2: CadDocument,
    fin: CadDocument,
    dh: Handle,
    xh: Handle,
    x: XRecord,
    d2: Dictionary,
    key: String,
)
    requires
        fin.layers == old_doc.layers,
        fin.line_types == old_doc.line_types,
        states_entries(fin) == entries_put(states_entries(old_doc), key@, (key, xh)),
        first_index(states_entries(old_doc), entry_named(key@)) >= 0 ==> xh == states_entries(
            old_doc,
        )[first_index(states_entries(old_doc), entry_named(key@))].1,
        first_index(states_entries(old_doc), entry_named(key@)) < 0 ==> forall|j: int|
            0 <= j < states_entries(old_doc).len() ==> (#[trigger] states_entries(old_doc)[j]).1 != xh,
        distinct_targets(states_entries(old_doc)),
        unique_handles(doc1.objects@),
        doc_removed.objects@ == objects_remove(doc1.objects@, xh),
        doc2.objects@ == objects_insert(doc_removed.objects@, xh, ObjectType::XRecord(x)),
        fin.objects@ == objects_insert(doc2.objects@, dh, ObjectType::Dictionary(d2)),
        states_entries(old_doc).len() > 0 ==> doc1.objects == old_doc.objects,
        states_entries(old_doc).len() > 0 ==> old_doc.spec_dictionary(dh) is Some,
    ensures
        forall|n: Seq<char>|
            !eq_ignore_case(n, key@) ==> #[trigger] stored_layer_state(fin, n) == stored_layer_state(
                old_doc,
                n,
            ),
{
    let es = states_entries(old_doc);
    let ki = first_index(es, entry_named(key@));
    let t = entries_put(es, key@, (key, xh));
    lemma_stored_from_entries(fin);
    lemma_stored_from_entries(old_doc);
    lemma_first_index_facts(es, entry_named(key@));
    assert forall|j: int|
        0 <= j < es.len() && j != ki implies fin.spec_object((#[trigger] es[j]).1)
        == old_doc.spec_object(es[j].1) || (!holds_xrecord(fin, es[j].1) && !holds_xrecord(
        old_doc,
        es[j].1,
    )) by {
        let hj = es[j].1;
        if ki >= 0 {
            if j < ki {
                assert(es[j].1 != es[ki].1);
            } else {
                assert(es[ki].1 != es[j].1);
            }
        }
        assert(hj != xh);
        lemma_object_at_remove(doc1.objects@, xh, hj);
        lemma_object_at_insert(doc_removed.objects@, xh, ObjectType::XRecord(x), hj);
        lemma_object_at_insert(doc2.objects@, dh, ObjectType::Dictionary(d2), hj);
    }
    assert forall|n: Seq<char>| !eq_ignore_case(n, key@) implies #[trigger] stored_layer_state(fin, n)
        == stored_layer_state(old_doc, n) by {
        crate::text::lemma_eq_ignore_case_equiv(n, key@, key@);
        crate::text::lemma_eq_ignore_case_equiv(key@, n, n);
        let m2 = seq![(key, xh)];
        if ki >= 0 {
            let a = es.take(ki);
            let b = es.skip(ki + 1);
            let m1 = seq![es[ki]];
            assert(es =~= a + m1 + b);
            assert(t =~= a + m2 + b);
            crate::text::lemma_eq_ignore_case_equiv(es[ki].0@, key@, n);
            crate::text::lemma_eq_ignore_case_equiv(n, es[ki].0@, key@);
            crate::text::lemma_eq_ignore_case_equiv(es[ki].0@, n, key@);
            assert(entry_named(key@)(es[ki]));
            assert(!eq_ignore_case(m1[0].0@, n));
            assert forall|j: int| 0 <= j < a.len() implies fin.spec_object((#[trigger] a[j]).1)
                == old_doc.spec_object(a[j].1) || (!holds_xrecord(fin, a[j].1) && !holds_xrecord(
                old_doc,
                a[j].1,
            )) by {
                assert(a[j] == es[j]);
            }
            assert forall|j: int| 0 <= j < b.len() implies fin.spec_object((#[trigger] b[j]).1)
                == old_doc.spec_object(b[j].1) || (!holds_xrecord(fin, b[j].1) && !holds_xrecord(
                old_doc,
                b[j].1,
            )) by {
                let jj = ki + 1 + j;
                assert(b[j] == es[jj]);
            }
            lemma_decoded_entries_same(fin, old_doc, a);
            lemma_decoded_entries_same(fin, old_doc, b);
            lemma_first_state_around(old_doc, fin, a, m1, m2, b, n);
        } else {
            let e = Seq::<(String, Handle)>::empty();
            assert(es =~= es + e + e);
            assert(t =~= es + m2 + e);
            assert(decoded_entries(fin, e) =~= Seq::<LayerStateView>::empty());
            assert(decoded_entries(old_doc, e) =~= Seq::<LayerStateView>::empty());
            lemma_decoded_entries_same(fin, old_doc, es);
            lemma_first_state_around(old_doc, fin, es, e, m2, e, n);
        }
    }
}

impl CadDocument {
    /// Store a semantic layer state in the native AutoCAD dictionary/XRecord
    /// form. An existing state with the same name (case ignored) is updated
    /// in place; the returned handle is the state's XRecord.
    #[verifier::rlimit(60)]
    pub fn store_layer_state(&mut self, state: LayerState) -> (r: Handle)
        requires
            old(self).wf(),
            old(self).header.handle_seed < u64::MAX - 3,
        ensures
            *final(self) == (CadDocument {
                header: Header { handle_seed: final(self).header.handle_seed, ..old(self).header },
                objects: final(self).objects,
                xdic_by_handle: final(self).xdic_by_handle,
                ..*old(self)
            }),
            final(self).wf(),
            final(self).layers == old(self).layers,
            final(self).line_types == old(self).line_types,
            final(self).layer_table_handle == old(self).layer_table_handle,
            final(self).header.current_layer_name == old(self).header.current_layer_name,
            final(self).header.current_layer_handle == old(self).header.current_layer_handle,
            final(self).spec_object(r) matches Some(ObjectType::XRecord(x)) && x.entries@
                == encoded_state(*old(self), state) && x.name@ == state.name@,
            store_ok(*old(self), state.name@) ==> {
                &&& stored_layer_state(*final(self), state.name@) == Some(
                    stored_form(*old(self), state@, state.name@),
                )
                &&& final(self).spec_object(r) matches Some(ObjectType::XRecord(x)) && x.entries@
                    == encoded_state(*old(self), state) && x.name@ == state.name@
                &&& states_entries(*final(self)) == entries_put(
                    states_entries(*old(self)),
                    state.name@,
                    (state.name, r),
                )
                &&& first_index(states_entries(*old(self)), entry_named(state.name@)) >= 0 ==> r
                    == states_entries(*old(self))[first_index(
                    states_entries(*old(self)),
                    entry_named(state.name@),
                )].1
                &&& distinct_targets(states_entries(*old(self))) ==> forall|n: Seq<char>|
                    !eq_ignore_case(n, state.name@) ==> #[trigger] stored_layer_state(*final(self), n)
                        == stored_layer_state(*old(self), n)
            },
    {
        let ghost old_doc = *self;
        let ghost name = state.name@;
        let dictionary_handle = self.ensure_layer_states_dictionary();
        let ghost doc1 = *self;
        let existing = self.dictionary_entry(dictionary_handle, state.name.as_str());
        let ghost seed = self.header.handle_seed;
        let xrecord_handle = match existing {
            Some((_, handle)) => handle,
            None => self.allocate_handle(),
        };
        proof {
            lemma_extension_stored(doc1);
            if existing is None {
                lemma_fresh_handle(doc1.objects@, seed);
            } else {
                // an existing entry refers to a stored handle or to none; either way it is
                // below the seed or not stored at all
            }
        }
        let entries = self.encode_layer_state(&state);
        let ghost doc_enc = *self;
        proof {
            lemma_same_tables(doc_enc, old_doc, state.layers@);
        }
        let mut xrecord = match self.remove_object(xrecord_handle) {
            Some(ObjectType::XRecord(x)) => x,
            _ => XRecord::named(state.name.as_str()),
        };
        let ghost doc_removed = *self;
        proof {
            lemma_remove_keeps_handles(doc_enc.objects@, xrecord_handle, self.header.handle_seed);
        }
        xrecord.handle = xrecord_handle;
        xrecord.owner = dictionary_handle;
        xrecord.reactors = vec![dictionary_handle];
        xrecord.name = state.name.clone();
        xrecord.cloning_flags = DictionaryCloningFlags::KeepExisting;
        xrecord.entries = entries;
        xrecord.raw_data = Vec::new();
        let ghost x = xrecord;
        proof {
            if existing is None {
                assert(xrecord_handle.0 < self.header.handle_seed);
            } else {
                let d = doc1.spec_dictionary(dictionary_handle).unwrap();
                lemma_object_at_member(doc1.objects@, dictionary_handle);
                lemma_first_index_facts(d.entries@, entry_named(name));
                let k = first_index(d.entries@, entry_named(name));
                assert(d.entries@[k].1 == xrecord_handle);
                assert(xrecord_handle.0 < self.header.handle_seed);
            }
            lemma_insert_keeps_handles(
                doc_removed.objects@,
                xrecord_handle,
                ObjectType::XRecord(xrecord),
                self.header.handle_seed,
            );
        }
        self.insert_object(xrecord_handle, ObjectType::XRecord(xrecord));
        let ghost doc2 = *self;
        let index = match self.get_object(dictionary_handle) {
            Some(ObjectType::Dictionary(dictionary)) => {
                Some(Self::find_entry_named(dictionary, state.name.as_str()))
            },
            _ => None,
        };
        let ghost key = state.name;
        match index {
            Some(index) => {
                self.set_dictionary_entry(dictionary_handle, index, state.name, xrecord_handle);
            },
            None => {},
        }
        proof {
            lemma_object_at_insert(doc_removed.objects@, xrecord_handle, ObjectType::XRecord(x), xrecord_handle);
            if index is Some {
                let d2 = choose|d2: Dictionary|
                    {
                        &&& self.objects@ == objects_insert(
                            doc2.objects@,
                            dictionary_handle,
                            ObjectType::Dictionary(d2),
                        )
                    };
                lemma_object_at_insert(doc2.objects@, dictionary_handle, ObjectType::Dictionary(d2), xrecord_handle);
                assert(dictionary_handle != xrecord_handle);
            }
            let table = old_doc.layer_table_handle;
            if store_sound(old_doc, name) {
                let e = doc1.spec_xdic(table).unwrap();
                lemma_object_at_member(doc1.objects@, e);
                lemma_object_at_member(doc1.objects@, dictionary_handle);
                let d1 = doc1.spec_dictionary(dictionary_handle).unwrap();
                lemma_object_at_remove(doc_enc.objects@, xrecord_handle, dictionary_handle);
                lemma_object_at_insert(
                    doc_removed.objects@,
                    xrecord_handle,
                    ObjectType::XRecord(x),
                    dictionary_handle,
                );
                let i = index.unwrap();
                let d2 = choose|d2: Dictionary|
                    {
                        &&& self.objects@ == objects_insert(
                            doc2.objects@,
                            dictionary_handle,
                            ObjectType::Dictionary(d2),
                        )
                        &&& d2.entries@ == entries_set(d1.entries@, i, (key, xrecord_handle))
                        &&& d2.handle == d1.handle
                        &&& d2.owner == d1.owner
                        &&& d2.reactors == d1.reactors
                        &&& d2.hard_owner == d1.hard_owner
                    };
                lemma_store_read_back(
                    old_doc,
                    doc1,
                    doc_removed,
                    doc2,
                    *self,
                    dictionary_handle,
                    xrecord_handle,
                    x,
                    d1,
                    d2,
                    i,
                    key,
                    state,
                );
                if i is Some {
                    lemma_first_index_facts(d1.entries@, entry_named(name));
                }
                lemma_store_entries(
                    old_doc,
                    doc1,
                    *self,
                    dictionary_handle,
                    d1,
                    d2,
                    i,
                    key,
                    xrecord_handle,
                );
                if distinct_targets(states_entries(old_doc)) {
                    let es = states_entries(old_doc);
                    if es.len() > 0 {
                        assert(es == d1.entries@);
                    }
                    if first_index(es, entry_named(name)) < 0 && es.len() > 0 {
                        lemma_dictionary_refs_below(doc1, dictionary_handle, d1, seed);
                        assert forall|j: int| 0 <= j < es.len() implies (#[trigger] es[j]).1
                            != xrecord_handle by {
                            assert(es[j].1.0 < seed);
                        }
                    }
                    lemma_store_keeps_others(
                        old_doc,
                        doc1,
                        doc_removed,
                        doc2,
                        *self,
                        dictionary_handle,
                        xrecord_handle,
                        x,
                        d2,
                        key,
                    );
                }
            } else if store_ok(old_doc, name) {
                assert(layer_states_dictionary(old_doc) == layer_extension_dictionary(old_doc));
                assert(dictionary_handle == doc1.spec_xdic(table).unwrap());
                assert(doc1.objects == old_doc.objects);
                let e = doc1.spec_xdic(table).unwrap();
                lemma_object_at_member(doc1.objects@, e);
                lemma_object_at_member(doc1.objects@, dictionary_handle);
                let d1 = doc1.spec_dictionary(dictionary_handle).unwrap();
                lemma_object_at_remove(doc_enc.objects@, xrecord_handle, dictionary_handle);
                lemma_object_at_insert(
                    doc_removed.objects@,
                    xrecord_handle,
                    ObjectType::XRecord(x),
                    dictionary_handle,
                );
                let i = index.unwrap();
                let d2 = choose|d2: Dictionary|
                    {
                        &&& self.objects@ == objects_insert(
                            doc2.objects@,
                            dictionary_handle,
                            ObjectType::Dictionary(d2),
                        )
                        &&& d2.entries@ == entries_set(d1.entries@, i, (key, xrecord_handle))
                        &&& d2.handle == d1.handle
                        &&& d2.owner == d1.owner
                        &&& d2.reactors == d1.reactors
                        &&& d2.hard_owner == d1.hard_owner
                    };
                lemma_store_read_back_alias(
                    old_doc,
                    doc1,
                    doc_removed,
                    doc2,
                    *self,
                    dictionary_handle,
                    xrecord_handle,
                    x,
                    d1,
                    d2,
                    i,
                    key,
                    state,
                );
                if i is Some {
                    lemma_first_index_facts(d1.entries@, entry_named(name));
                }
                lemma_store_entries(
                    old_doc,
                    doc1,
                    *self,
                    dictionary_handle,
                    d1,
                    d2,
                    i,
                    key,
                    xrecord_handle,
                );
                if distinct_targets(states_entries(old_doc)) {
                    let es = states_entries(old_doc);
                    if es.len() > 0 {
                        assert(es == d1.entries@);
                    }
                    if first_index(es, entry_named(name)) < 0 && es.len() > 0 {
                        lemma_dictionary_refs_below(doc1, dictionary_handle, d1, seed);
                        assert forall|j: int| 0 <= j < es.len() implies (#[trigger] es[j]).1
                            != xrecord_handle by {
                            assert(es[j].1.0 < seed);
                        }
                    }
                    lemma_store_keeps_others(
                        old_doc,
                        doc1,
                        doc_removed,
                        doc2,
                        *self,
                        dictionary_handle,
                        xrecord_handle,
                        x,
                        d2,
                        key,
                    );
                }
            }
        }
        xrecord_handle
    }
}

// ---------------------------------------------------------------------------
// Renaming and deleting.

/// Removing an object other than the extension dictionary keeps where the
/// extension dictionary is found and what it holds.
proof fn lemma_locate_after_remove(a: CadDocument, b: CadDocument, xh: Handle)
    requires
        unique_handles(a.objects@),
        b.objects@ == objects_remove(a.objects@, xh),
        b.layer_table_handle == a.layer_table_handle,
        b.xdic_by_handle == a.xdic_by_handle,
        layer_extension_dictionary(a) matches Some(e) && e != xh,
    ensures
        layer_extension_dictionary(b) == layer_extension_dictionary(a),
        b.spec_object(layer_extension_dictionary(a).unwrap()) == a.spec_object(
            layer_extension_dictionary(a).unwrap(),
        ),
{
    let e = layer_extension_dictionary(a).unwrap();
    let table = a.layer_table_handle;
    lemma_object_at_remove(a.objects@, xh, e);
    match a.spec_xdic(table) {
        Some(h) => {
            lemma_object_at_remove(a.objects@, xh, h);
        },
        None => {},
    }
    if !(a.spec_xdic(table) matches Some(h) && a.spec_object(h) is Some) {
        lemma_first_index_facts(a.objects@, dictionary_owned_by(table));
        lemma_first_index_facts(a.objects@, has_handle(xh));
        let i = first_index(a.objects@, has_handle(xh));
        if i >= 0 {
            crate::seqs::lemma_first_match_remove_other(a.objects@, dictionary_owned_by(table), i);
        }
    }
}

/// Replacing the extension dictionary itself by a dictionary with the same
/// owner keeps it the extension dictionary.
proof fn lemma_locate_after_self_update(a: CadDocument, b: CadDocument, dh: Handle, d2: Dictionary)
    requires
        unique_handles(a.objects@),
        b.objects@ == objects_insert(a.objects@, dh, ObjectType::Dictionary(d2)),
        a.spec_dictionary(dh) matches Some(d) && d.owner == d2.owner,
        b.layer_table_handle == a.layer_table_handle,
        b.xdic_by_handle == a.xdic_by_handle,
        layer_extension_dictionary(a) == Some(dh),
    ensures
        layer_extension_dictionary(b) == Some(dh),
        b.spec_object(dh) == Some(ObjectType::Dictionary(d2)),
{
    let table = a.layer_table_handle;
    lemma_object_at_insert(a.objects@, dh, ObjectType::Dictionary(d2), dh);
    match a.spec_xdic(table) {
        Some(h) => {
            lemma_object_at_insert(a.objects@, dh, ObjectType::Dictionary(d2), h);
        },
        None => {},
    }
    if !(a.spec_xdic(table) matches Some(h) && a.spec_object(h) is Some) {
        lemma_first_index_facts(a.objects@, dictionary_owned_by(table));
        lemma_first_index_facts(a.objects@, has_handle(dh));
        let f = first_index(a.objects@, dictionary_owned_by(table));
        let i = first_index(a.objects@, has_handle(dh));
        assert(f >= 0);
        assert(a.objects@[f].0 == dh);
        assert(i >= 0);
        assert(i == f) by {
            if i < f {
                assert(a.objects@[i].0 == a.objects@[f].0);
            } else if f < i {
                assert(has_handle(dh)(a.objects@[f]));
            }
        }
        let t = a.objects@.update(i, (dh, ObjectType::Dictionary(d2)));
        assert(t == b.objects@);
        assert(dictionary_owned_by(table)((dh, ObjectType::Dictionary(d2))));
        assert(is_first(t, dictionary_owned_by(table), i)) by {
            assert forall|j: int| 0 <= j < i implies !dictionary_owned_by(table)(#[trigger] t[j]) by {
                assert(t[j] == a.objects@[j]);
            }
        }
        lemma_first_index_is(t, dictionary_owned_by(table), i);
    }
}

/// Replacing a dictionary other than the extension dictionary by one with
/// the same owner keeps where the extension dictionary is found and what it
/// holds.
proof fn lemma_locate_after_update(a: CadDocument, b: CadDocument, dh: Handle, d2: Dictionary)
    requires
        b.objects@ == objects_insert(a.objects@, dh, ObjectType::Dictionary(d2)),
        a.spec_dictionary(dh) matches Some(d) && d.owner == d2.owner,
        b.layer_table_handle == a.layer_table_handle,
        b.xdic_by_handle == a.xdic_by_handle,
        layer_extension_dictionary(a) matches Some(e) && e != dh,
    ensures
        layer_extension_dictionary(b) == layer_extension_dictionary(a),
        b.spec_object(layer_extension_dictionary(a).unwrap()) == a.spec_object(
            layer_extension_dictionary(a).unwrap(),
        ),
{
    let e = layer_extension_dictionary(a).unwrap();
    let table = a.layer_table_handle;
    lemma_object_at_insert(a.objects@, dh, ObjectType::Dictionary(d2), e);
    match a.spec_xdic(table) {
        Some(h) => {
            lemma_object_at_insert(a.objects@, dh, ObjectType::Dictionary(d2), h);
        },
        None => {},
    }
    if !(a.spec_xdic(table) matches Some(h) && a.spec_object(h) is Some) {
        lemma_first_index_facts(a.objects@, dictionary_owned_by(table));
        lemma_first_index_facts(a.objects@, has_handle(dh));
        let i = first_index(a.objects@, has_handle(dh));
        assert(i >= 0);
        assert(a.objects@[i].1 == ObjectType::Dictionary(a.spec_dictionary(dh).unwrap()));
        crate::seqs::lemma_first_match_update_other(
            a.objects@,
            dictionary_owned_by(table),
            i,
            (dh, ObjectType::Dictionary(d2)),
        );
    }
}

/// Replacing an XRecord other than the extension dictionary by another
/// XRecord keeps where the extension dictionary is found and what it holds.
proof fn lemma_locate_after_record(a: CadDocument, b: CadDocument, h: Handle, x2: XRecord)
    requires
        b.objects@ == objects_insert(a.objects@, h, ObjectType::XRecord(x2)),
        a.spec_object(h) matches Some(ObjectType::XRecord(_)),
        b.layer_table_handle == a.layer_table_handle,
        b.xdic_by_handle == a.xdic_by_handle,
        layer_extension_dictionary(a) matches Some(e) && e != h,
    ensures
        layer_extension_dictionary(b) == layer_extension_dictionary(a),
        b.spec_object(layer_extension_dictionary(a).unwrap()) == a.spec_object(
            layer_extension_dictionary(a).unwrap(),
        ),
{
    let e = layer_extension_dictionary(a).unwrap();
    let table = a.layer_table_handle;
    lemma_object_at_insert(a.objects@, h, ObjectType::XRecord(x2), e);
    match a.spec_xdic(table) {
        Some(k) => {
            lemma_object_at_insert(a.objects@, h, ObjectType::XRecord(x2), k);
        },
        None => {},
    }
    if !(a.spec_xdic(table) matches Some(k) && a.spec_object(k) is Some) {
        lemma_first_index_facts(a.objects@, dictionary_owned_by(table));
        lemma_first_index_facts(a.objects@, has_handle(h));
        let i = first_index(a.objects@, has_handle(h));
        assert(i >= 0);
        crate::seqs::lemma_first_match_update(
            a.objects@,
            dictionary_owned_by(table),
            i,
            (h, ObjectType::XRecord(x2)),
        );
    }
}

/// The entry of the layer-states dictionary that `name` selects.
pub open spec fn named_entry(doc: CadDocument, name: Seq<char>) -> Option<(String, Handle)> {
    match layer_states_dictionary(doc) {
        Some(dh) => match dictionary_at(doc, dh) {
            Some(d) => first_match(d.entries@, entry_named(name)),
            None => None,
        },
        None => None,
    }
}

/// At most one entry of the layer-states dictionary is named `name`.
pub open spec fn uniquely_named(doc: CadDocument, name: Seq<char>) -> bool {
    layer_states_dictionary(doc) matches Some(dh) ==> (dictionary_at(doc, dh) matches Some(d)
        ==> forall|j: int, k: int|
        0 <= j < d.entries@.len() && 0 <= k < d.entries@.len() && entry_named(name)(
            #[trigger] d.entries@[j],
        ) && entry_named(name)(#[trigger] d.entries@[k]) ==> j == k)
}

/// Deleting the state `name` leaves the states of other names as they
/// were, where the entries refer to different objects.
proof fn lemma_delete_keeps_others(
    a: CadDocument,
    b: CadDocument,
    fin: CadDocument,
    dh: Handle,
    h: Handle,
    d2: Dictionary,
    k: int,
    name: Seq<char>,
)
    requires
        fin.layers == a.layers,
        fin.line_types == a.line_types,
        0 <= k < states_entries(a).len(),
        is_first(states_entries(a), entry_named(name), k),
        states_entries(a)[k].1 == h,
        states_entries(fin) == states_entries(a).remove(k),
        distinct_targets(states_entries(a)),
        unique_handles(b.objects@),
        b.objects@ == objects_insert(a.objects@, dh, ObjectType::Dictionary(d2)),
        fin.objects@ == objects_remove(b.objects@, h),
        a.spec_dictionary(dh) is Some,
    ensures
        forall|n: Seq<char>|
            !eq_ignore_case(n, name) ==> #[trigger] stored_layer_state(fin, n) == stored_layer_state(
                a,
                n,
            ),
{
    let es = states_entries(a);
    lemma_stored_from_entries(fin);
    lemma_stored_from_entries(a);
    let pa = es.take(k);
    let pb = es.skip(k + 1);
    let m1 = seq![es[k]];
    let e = Seq::<(String, Handle)>::empty();
    assert(es =~= pa + m1 + pb);
    assert(states_entries(fin) =~= pa + e + pb);
    assert(decoded_entries(fin, e) =~= Seq::<LayerStateView>::empty());
    assert forall|j: int| 0 <= j < es.len() && j != k implies fin.spec_object((#[trigger] es[j]).1)
        == a.spec_object(es[j].1) || (!holds_xrecord(fin, es[j].1) && !holds_xrecord(a, es[j].1)) by {
        let hj = es[j].1;
        if j < k {
            assert(es[j].1 != es[k].1);
        } else {
            assert(es[k].1 != es[j].1);
        }
        lemma_object_at_insert(a.objects@, dh, ObjectType::Dictionary(d2), hj);
        lemma_object_at_remove(b.objects@, h, hj);
    }
    assert forall|j: int| 0 <= j < pa.len() implies fin.spec_object((#[trigger] pa[j]).1)
        == a.spec_object(pa[j].1) || (!holds_xrecord(fin, pa[j].1) && !holds_xrecord(a, pa[j].1)) by {
        assert(pa[j] == es[j]);
    }
    assert forall|j: int| 0 <= j < pb.len() implies fin.spec_object((#[trigger] pb[j]).1)
        == a.spec_object(pb[j].1) || (!holds_xrecord(fin, pb[j].1) && !holds_xrecord(a, pb[j].1)) by {
        assert(pb[j] == es[k + 1 + j]);
    }
    lemma_decoded_entries_same(fin, a, pa);
    lemma_decoded_entries_same(fin, a, pb);
    assert forall|n: Seq<char>| !eq_ignore_case(n, name) implies #[trigger] stored_layer_state(fin, n)
        == stored_layer_state(a, n) by {
        crate::text::lemma_eq_ignore_case_equiv(es[k].0@, n, name);
        crate::text::lemma_eq_ignore_case_equiv(n, es[k].0@, name);
        assert(entry_named(name)(es[k]));
        assert(!eq_ignore_case(m1[0].0@, n));
        lemma_first_state_around(a, fin, pa, m1, e, pb, n);
    }
}

impl CadDocument {
    /// Delete a native layer state (the first entry with the name, case
    /// ignored, and its record). Returns `false` when there is none.
    pub fn delete_layer_state(&mut self, name: &str) -> (r: bool)
        ensures
            *final(self) == (CadDocument { objects: final(self).objects, ..*old(self) }),
            old(self).wf() ==> final(self).wf(),
            final(self).layers == old(self).layers,
            final(self).line_types == old(self).line_types,
            final(self).header == old(self).header,
            final(self).layer_table_handle == old(self).layer_table_handle,
            r == named_entry(*old(self), name@) is Some,
            !r ==> final(self).objects == old(self).objects,
            r && old(self).wf() && store_ok(*old(self), name@) && uniquely_named(*old(self), name@)
                ==> stored_layer_state(*final(self), name@) is None,
            r && old(self).wf() && store_ok(*old(self), name@) ==> {
                let es = states_entries(*old(self));
                let k = first_index(es, entry_named(name@));
                &&& 0 <= k < es.len()
                &&& states_entries(*final(self)) == es.remove(k)
                &&& final(self).spec_object(es[k].1) is None
                &&& distinct_targets(es) ==> forall|n: Seq<char>|
                    !eq_ignore_case(n, name@) ==> #[trigger] stored_layer_state(*final(self), n)
                        == stored_layer_state(*old(self), n)
            },
    {
        let ghost a = *self;
        let dictionary_handle = match self.layer_states_dictionary_handle() {
            Some(h) => h,
            None => {
                return false;
            },
        };
        let index = match self.get_object(dictionary_handle) {
            Some(ObjectType::Dictionary(dictionary)) => Self::find_entry_named(dictionary, name),
            _ => {
                return false;
            },
        };
        let index = match index {
            Some(i) => i,
            None => {
                return false;
            },
        };
        let ghost d = a.spec_dictionary(dictionary_handle).unwrap();
        proof {
            lemma_first_index_is(d.entries@, entry_named(name@), index as int);
        }
        let handle = self.remove_dictionary_entry(dictionary_handle, index);
        let ghost b = *self;
        let ghost d2 = choose|d2: Dictionary|
            {
                &&& b.objects@ == objects_insert(
                    a.objects@,
                    dictionary_handle,
                    ObjectType::Dictionary(d2),
                )
                &&& d2.entries@ == d.entries@.remove(index as int)
                &&& d2.handle == d.handle
                &&& d2.owner == d.owner
                &&& d2.reactors == d.reactors
                &&& d2.hard_owner == d.hard_owner
            };
        proof {
            if a.wf() {
                lemma_object_at_member(a.objects@, dictionary_handle);
                lemma_insert_keeps_handles(
                    a.objects@,
                    dictionary_handle,
                    ObjectType::Dictionary(d2),
                    a.header.handle_seed,
                );
                assert(object_refs_below(ObjectType::Dictionary(d2), a.header.handle_seed)) by {
                    assert forall|j: int| 0 <= j < d2.entries@.len() implies (
                    #[trigger] d2.entries@[j]).1.0 < a.header.handle_seed by {
                        let j1 = if j < index { j } else { j + 1 };
                        assert(d2.entries@[j] == d.entries@[j1]);
                    }
                }
                lemma_refs_below_insert_remove(
                    a.objects@,
                    dictionary_handle,
                    ObjectType::Dictionary(d2),
                    a.header.handle_seed,
                );
                lemma_refs_below_insert_remove(b.objects@, handle, ObjectType::Dictionary(d2), b.header.handle_seed);
                lemma_remove_keeps_handles(b.objects@, handle, b.header.handle_seed);
            }
        }
        let _ = self.remove_object(handle);
        proof {
            if a.wf() && store_sound(a, name@) {
                lemma_locate_after_update(a, b, dictionary_handle, d2);
                lemma_object_at_insert(a.objects@, dictionary_handle, ObjectType::Dictionary(d2), dictionary_handle);
                lemma_locate_after_remove(b, *self, handle);
                lemma_object_at_remove(b.objects@, handle, dictionary_handle);
                lemma_object_at_remove(b.objects@, handle, handle);
                assert(layer_states_dictionary(*self) == Some(dictionary_handle));
                assert(dictionary_at(*self, dictionary_handle) == Some(d2));
                assert(states_entries(a) == d.entries@);
                assert(states_entries(*self) == d2.entries@);
                if distinct_targets(states_entries(a)) {
                    lemma_delete_keeps_others(a, b, *self, dictionary_handle, handle, d2, index as int, name@);
                }
            }
            if a.wf() && store_sound(a, name@) && uniquely_named(a, name@) {
                let e = layer_extension_dictionary(a).unwrap();
                lemma_locate_after_update(a, b, dictionary_handle, d2);
                lemma_object_at_insert(a.objects@, dictionary_handle, ObjectType::Dictionary(d2), dictionary_handle);
                lemma_locate_after_remove(b, *self, handle);
                lemma_object_at_remove(b.objects@, handle, dictionary_handle);
                assert(layer_states_dictionary(*self) == Some(dictionary_handle));
                assert(dictionary_at(*self, dictionary_handle) == Some(d2));
                assert forall|j: int| 0 <= j < d2.entries@.len() implies !(#[trigger] entry_named(
                    name@,
                )(d2.entries@[j])) by {
                    let j1 = if j < index { j } else { j + 1 };
                    assert(d2.entries@[j] == d.entries@[j1]);
                    if entry_named(name@)(d.entries@[j1]) {
                        assert(j1 == index);
                    }
                }
                lemma_decoded_entries_unnamed(*self, d2.entries@, name@);
            }
            if a.wf() && store_ok(a, name@) && !store_sound(a, name@) {
                assert(layer_extension_dictionary(a) == Some(dictionary_handle));
                lemma_locate_after_self_update(a, b, dictionary_handle, d2);
                lemma_first_index_facts(d.entries@, states_key_entry());
                lemma_first_index_facts(d.entries@, entry_named(name@));
                assert(d.entries@[index as int].1 != dictionary_handle);
                crate::seqs::lemma_first_match_remove_other(d.entries@, states_key_entry(), index as int);
                assert(layer_states_dictionary(b) == Some(dictionary_handle));
                lemma_locate_after_remove(b, *self, handle);
                lemma_object_at_remove(b.objects@, handle, dictionary_handle);
                lemma_object_at_remove(b.objects@, handle, handle);
                assert(layer_states_dictionary(*self) == Some(dictionary_handle));
                assert(dictionary_at(*self, dictionary_handle) == Some(d2));
                assert(states_entries(a) == d.entries@);
                assert(states_entries(*self) == d2.entries@);
                if distinct_targets(states_entries(a)) {
                    lemma_delete_keeps_others(a, b, *self, dictionary_handle, handle, d2, index as int, name@);
                }
                if uniquely_named(a, name@) {
                    assert forall|j: int| 0 <= j < d2.entries@.len() implies !(#[trigger] entry_named(
                        name@,
                    )(d2.entries@[j])) by {
                        let j1 = if j < index { j } else { j + 1 };
                        assert(d2.entries@[j] == d.entries@[j1]);
                        if entry_named(name@)(d.entries@[j1]) {
                            assert(j1 == index);
                        }
                    }
                    lemma_decoded_entries_unnamed(*self, d2.entries@, name@);
                }
            }
        }
        true
    }
}

/// The first state found by `name` is read from the first entry with that
/// name, when that entry refers to an XRecord.
proof fn lemma_find_at(doc: CadDocument, es: Seq<(String, Handle)>, k: int, name: Seq<char>, x: XRecord)
    requires
        0 <= k < es.len(),
        forall|j: int| 0 <= j < k ==> !(#[trigger] entry_named(name)(es[j])),
        entry_named(name)(es[k]),
        doc.spec_object(es[k].1) == Some(ObjectType::XRecord(x)),
    ensures
        first_match(decoded_entries(doc, es), state_named(name)) == Some(
            decoded_state(doc, es[k].0@, x.entries@),
        ),
{
    let a = es.take(k);
    let mid = seq![es[k]];
    let b = es.skip(k + 1);
    assert(es =~= a + (mid + b));
    assert forall|j: int| 0 <= j < a.len() implies !(#[trigger] entry_named(name)(a[j])) by {
        assert(a[j] == es[j]);
    }
    lemma_decoded_entries_unnamed(doc, a, name);
    lemma_decoded_entries_concat(doc, a, mid + b);
    lemma_decoded_entries_concat(doc, mid, b);
    let st = decoded_state(doc, es[k].0@, x.entries@);
    assert(mid.drop_last() =~= Seq::<(String, Handle)>::empty());
    assert(decoded_entries(doc, Seq::<(String, Handle)>::empty()) =~= Seq::<LayerStateView>::empty());
    assert(decoded_entries(doc, mid) =~= seq![st]);
    lemma_first_match_concat(decoded_entries(doc, a), decoded_entries(doc, mid + b), state_named(name));
    lemma_first_match_concat(seq![st], decoded_entries(doc, b), state_named(name));
    lemma_first_match_single(st, state_named(name));
}

/// Reading layers needs only the layer and line-type tables.
proof fn lemma_decoded_layers_same_tables(d1: CadDocument, d2: CadDocument, s: Seq<XRecordEntry>)
    requires
        d1.layers == d2.layers,
        d1.line_types == d2.line_types,
    ensures
        decoded_layers(d1, s) == decoded_layers(d2, s),
    decreases s.len(),
{
    if s.len() > 0 {
        let n = group_len(s);
        if 0 < n <= s.len() {
            lemma_decoded_layers_same_tables(d1, d2, s.skip(n));
        }
    }
}

/// A state found by its old name, under a new name.
pub open spec fn renamed(s: Option<LayerStateView>, name: Seq<char>) -> Option<LayerStateView> {
    match s {
        Some(v) => Some(LayerStateView { name: name, ..v }),
        None => None,
    }
}

/// The first entry named `old_name` exists, and no entry is named
/// `new_name` unless the two names differ only in ASCII case.
pub open spec fn renamable(doc: CadDocument, old_name: Seq<char>, new_name: Seq<char>) -> bool {
    &&& layer_states_dictionary(doc) matches Some(dh)
    &&& dictionary_at(doc, dh) matches Some(d)
    &&& !(first_match(d.entries@, entry_named(new_name)) is Some && !eq_ignore_case(old_name, new_name))
    &&& first_match(d.entries@, entry_named(old_name)) is Some
}

impl CadDocument {
    /// Give the XRecord stored under `h` a new name.
    fn rename_xrecord(&mut self, h: Handle, name: String)
        requires
            old(self).spec_object(h) matches Some(ObjectType::XRecord(_)),
        ensures
            exists|x2: XRecord|
                {
                    &&& final(self).objects@ == objects_insert(
                        old(self).objects@,
                        h,
                        ObjectType::XRecord(x2),
                    )
                    &&& old(self).spec_object(h) matches Some(ObjectType::XRecord(x))
                        && x2.entries == x.entries
                },
            *final(self) == (CadDocument { objects: final(self).objects, ..*old(self) }),
    {
        let i = match self.find_object(h) {
            Some(i) => i,
            None => {
                return;
            },
        };
        proof {
            lemma_first_index_is(self.objects@, has_handle(h), i as int);
        }
        let (k, object) = self.objects.remove(i);
        match object {
            ObjectType::XRecord(mut x) => {
                x.name = name;
                self.objects.insert(i, (k, ObjectType::XRecord(x)));
                assert(self.objects@ =~= objects_insert(
                    old(self).objects@,
                    h,
                    ObjectType::XRecord(x),
                ));
            },
            other => {
                self.objects.insert(i, (k, other));
            },
        }
    }

    /// Rename a native layer state. Returns `false` when the source is
    /// missing or the destination already exists (names compared ignoring
    /// ASCII case).
    pub fn rename_layer_state(&mut self, old_name: &str, new_name: &str) -> (r: bool)
        ensures
            *final(self) == (CadDocument { objects: final(self).objects, ..*old(self) }),
            old(self).wf() ==> final(self).wf(),
            final(self).layers == old(self).layers,
            final(self).line_types == old(self).line_types,
            final(self).header == old(self).header,
            final(self).layer_table_handle == old(self).layer_table_handle,
            r == renamable(*old(self), old_name@, new_name@),
            !r ==> final(self).objects == old(self).objects,
            r && old(self).wf() && rename_ok(*old(self), old_name@, new_name@) && (named_entry(*old(self), old_name@) matches Some(
                e,
            ) && old(self).spec_object(e.1) matches Some(ObjectType::XRecord(_)))
                ==> stored_layer_state(*final(self), new_name@) == renamed(
                stored_layer_state(*old(self), old_name@),
                new_name@,
            ),
            r && old(self).wf() && rename_ok(*old(self), old_name@, new_name@) && (named_entry(*old(self), old_name@) matches Some(
                e,
            ) && old(self).spec_object(e.1) matches Some(ObjectType::XRecord(_))) ==> {
                let es = states_entries(*old(self));
                let k = first_index(es, entry_named(old_name@));
                &&& 0 <= k < es.len()
                &&& exists|key: String|
                    key@ == new_name@ && states_entries(*final(self)) == es.update(k, (key, es[k].1))
                &&& uniquely_named(*old(self), old_name@) && !eq_ignore_case(old_name@, new_name@)
                    ==> stored_layer_state(*final(self), old_name@) is None
                &&& distinct_targets(es) ==> forall|n: Seq<char>|
                    !eq_ignore_case(n, old_name@) && !eq_ignore_case(n, new_name@)
                        ==> #[trigger] stored_layer_state(*final(self), n) == stored_layer_state(
                        *old(self),
                        n,
                    )
            },
    {
        let ghost a = *self;
        let dictionary_handle = match self.layer_states_dictionary_handle() {
            Some(h) => h,
            None => {
                return false;
            },
        };
        let clash = self.dictionary_entry(dictionary_handle, new_name).is_some();
        if clash && !eq_ignore_ascii_case(old_name, new_name) {
            return false;
        }
        let index = match self.get_object(dictionary_handle) {
            Some(ObjectType::Dictionary(dictionary)) => Self::find_entry_named(
                dictionary,
                old_name,
            ),
            _ => {
                return false;
            },
        };
        let index = match index {
            Some(i) => i,
            None => {
                return false;
            },
        };
        let ghost d = a.spec_dictionary(dictionary_handle).unwrap();
        proof {
            lemma_first_index_is(d.entries@, entry_named(old_name@), index as int);
        }
        let key = owned(new_name);
        let ghost key_value = key;
        let handle = self.rename_dictionary_entry(dictionary_handle, index, key);
        let ghost b = *self;
        let ghost d2 = choose|d2: Dictionary|
            {
                &&& b.objects@ == objects_insert(
                    a.objects@,
                    dictionary_handle,
                    ObjectType::Dictionary(d2),
                )
                &&& d2.entries@ == d.entries@.update(index as int, (key_value, handle))
                &&& d2.handle == d.handle
                &&& d2.owner == d.owner
                &&& d2.reactors == d.reactors
                &&& d2.hard_owner == d.hard_owner
            };
        proof {
            if a.wf() {
                lemma_object_at_member(a.objects@, dictionary_handle);
                assert(object_refs_below(ObjectType::Dictionary(d2), a.header.handle_seed)) by {
                    assert forall|j: int| 0 <= j < d2.entries@.len() implies (
                    #[trigger] d2.entries@[j]).1.0 < a.header.handle_seed by {
                        assert(d2.entries@[j].1 == d.entries@[j].1);
                    }
                }
                lemma_insert_keeps_handles(
                    a.objects@,
                    dictionary_handle,
                    ObjectType::Dictionary(d2),
                    a.header.handle_seed,
                );
                lemma_refs_below_insert_remove(
                    a.objects@,
                    dictionary_handle,
                    ObjectType::Dictionary(d2),
                    a.header.handle_seed,
                );
            }
        }
        let is_record = match self.get_object(handle) {
            Some(ObjectType::XRecord(_)) => true,
            _ => false,
        };
        if is_record {
            proof {
                lemma_object_at_member(b.objects@, handle);
            }
            self.rename_xrecord(handle, owned(new_name));
            proof {
                let x2 = choose|x2: XRecord|
                    {
                        &&& self.objects@ == objects_insert(
                            b.objects@,
                            handle,
                            ObjectType::XRecord(x2),
                        )
                        &&& b.spec_object(handle) matches Some(ObjectType::XRecord(x))
                            && x2.entries == x.entries
                    };
                if a.wf() {
                    lemma_insert_keeps_handles(
                        b.objects@,
                        handle,
                        ObjectType::XRecord(x2),
                        b.header.handle_seed,
                    );
                    lemma_refs_below_insert_remove(
                        b.objects@,
                        handle,
                        ObjectType::XRecord(x2),
                        b.header.handle_seed,
                    );
                }
                if a.wf() && store_sound(a, old_name@) && a.spec_object(handle) matches Some(
                    ObjectType::XRecord(_),
                ) {
                    lemma_rename_read_back(a, b, *self, dictionary_handle, handle, d, d2, x2, index as int, key_value, old_name@, new_name@);
                    assert(states_entries(a) == d.entries@);
                    assert(states_entries(*self) == d2.entries@);
                    assert(handle != dictionary_handle);
                    lemma_rename_keeps_others(a, b, *self, dictionary_handle, handle, x2, index as int, key_value, old_name@, new_name@);
                }
                if a.wf() && !store_sound(a, old_name@) && rename_ok(a, old_name@, new_name@) && a.spec_object(
                    handle,
                ) matches Some(ObjectType::XRecord(_)) {
                    assert(layer_extension_dictionary(a) == Some(dictionary_handle));
                    assert(states_entries(a) == d.entries@);
                    lemma_rename_read_back_alias(a, b, *self, dictionary_handle, handle, d, d2, x2, index as int, key_value, old_name@, new_name@);
                    assert(states_entries(*self) == d2.entries@);
                    assert(handle != dictionary_handle);
                    lemma_rename_keeps_others(a, b, *self, dictionary_handle, handle, x2, index as int, key_value, old_name@, new_name@);
                }
            }
        } else {
            proof {
                if a.wf() && rename_ok(a, old_name@, new_name@) {
                    lemma_object_at_insert(a.objects@, dictionary_handle, ObjectType::Dictionary(d2), handle);
                    assert(handle != dictionary_handle);
                    assert(!(a.spec_object(handle) matches Some(ObjectType::XRecord(_))));
                }
            }
        }
        true
    }
}

/// Renaming leaves the states of other names as they were, where the
/// entries refer to different objects; with one entry of the old name, no
/// state keeps the old name when it differs from the new one.
proof fn lemma_rename_keeps_others(
    a: CadDocument,
    b: CadDocument,
    c: CadDocument,
    dh: Handle,
    h: Handle,
    x2: XRecord,
    k: int,
    key: String,
    old_name: Seq<char>,
    new_name: Seq<char>,
)
    requires
        c.layers == a.layers,
        c.line_types == a.line_types,
        0 <= k < states_entries(a).len(),
        is_first(states_entries(a), entry_named(old_name), k),
        states_entries(a)[k].1 == h,
        key@ == new_name,
        states_entries(c) == states_entries(a).update(k, (key, h)),
        c.objects@ == objects_insert(b.objects@, h, ObjectType::XRecord(x2)),
        exists|d2: Dictionary| b.objects@ == objects_insert(a.objects@, dh, ObjectType::Dictionary(d2)),
        a.spec_dictionary(dh) is Some,
        h != dh,
    ensures
        distinct_targets(states_entries(a)) ==> forall|n: Seq<char>|
            !eq_ignore_case(n, old_name) && !eq_ignore_case(n, new_name) ==> #[trigger] stored_layer_state(
                c,
                n,
            ) == stored_layer_state(a, n),
        uniquely_named(a, old_name) && !eq_ignore_case(old_name, new_name) ==> stored_layer_state(
            c,
            old_name,
        ) is None,
{
    let es = states_entries(a);
    let t = states_entries(c);
    let d2 = choose|d2: Dictionary| b.objects@ == objects_insert(a.objects@, dh, ObjectType::Dictionary(d2));
    lemma_stored_from_entries(c);
    lemma_stored_from_entries(a);
    if distinct_targets(es) {
        let pa = es.take(k);
        let pb = es.skip(k + 1);
        let m1 = seq![es[k]];
        let m2 = seq![(key, h)];
        assert(es =~= pa + m1 + pb);
        assert(t =~= pa + m2 + pb);
        assert forall|j: int| 0 <= j < es.len() && j != k implies c.spec_object((#[trigger] es[j]).1)
            == a.spec_object(es[j].1) || (!holds_xrecord(c, es[j].1) && !holds_xrecord(a, es[j].1)) by {
            let hj = es[j].1;
            if j < k {
                assert(es[j].1 != es[k].1);
            } else {
                assert(es[k].1 != es[j].1);
            }
            lemma_object_at_insert(a.objects@, dh, ObjectType::Dictionary(d2), hj);
            lemma_object_at_insert(b.objects@, h, ObjectType::XRecord(x2), hj);
        }
        assert forall|j: int| 0 <= j < pa.len() implies c.spec_object((#[trigger] pa[j]).1)
            == a.spec_object(pa[j].1) || (!holds_xrecord(c, pa[j].1) && !holds_xrecord(a, pa[j].1)) by {
            assert(pa[j] == es[j]);
        }
        assert forall|j: int| 0 <= j < pb.len() implies c.spec_object((#[trigger] pb[j]).1)
            == a.spec_object(pb[j].1) || (!holds_xrecord(c, pb[j].1) && !holds_xrecord(a, pb[j].1)) by {
            assert(pb[j] == es[k + 1 + j]);
        }
        lemma_decoded_entries_same(c, a, pa);
        lemma_decoded_entries_same(c, a, pb);
        assert forall|n: Seq<char>|
            !eq_ignore_case(n, old_name) && !eq_ignore_case(n, new_name) implies #[trigger] stored_layer_state(
            c,
            n,
        ) == stored_layer_state(a, n) by {
            crate::text::lemma_eq_ignore_case_equiv(es[k].0@, n, old_name);
            crate::text::lemma_eq_ignore_case_equiv(n, es[k].0@, old_name);
            crate::text::lemma_eq_ignore_case_equiv(key@, n, new_name);
            crate::text::lemma_eq_ignore_case_equiv(n, key@, key@);
            assert(entry_named(old_name)(es[k]));
            assert(!eq_ignore_case(m1[0].0@, n));
            assert(!eq_ignore_case(m2[0].0@, n));
            lemma_first_state_around(a, c, pa, m1, m2, pb, n);
        }
    }
    if uniquely_named(a, old_name) && !eq_ignore_case(old_name, new_name) {
        assert forall|j: int| 0 <= j < t.len() implies !(#[trigger] entry_named(old_name)(t[j])) by {
            if j == k {
                crate::text::lemma_eq_ignore_case_equiv(new_name, old_name, old_name);
                crate::text::lemma_eq_ignore_case_equiv(old_name, new_name, new_name);
            } else {
                assert(t[j] == es[j]);
                assert(entry_named(old_name)(es[k]));
            }
        }
        lemma_decoded_entries_unnamed(c, t, old_name);
    }
}

/// The facts about the steps of `rename_layer_state` give the read-back law.
proof fn lemma_rename_read_back(
    a: CadDocument,
    b: CadDocument,
    c: CadDocument,
    dh: Handle,
    h: Handle,
    d: Dictionary,
    d2: Dictionary,
    x2: XRecord,
    k: int,
    key: String,
    old_name: Seq<char>,
    new_name: Seq<char>,
)
    requires
        store_sound(a, old_name),
        unique_handles(a.objects@),
        unique_handles(b.objects@),
        layer_states_dictionary(a) == Some(dh),
        dictionary_at(a, dh) == Some(d),
        is_first(d.entries@, entry_named(old_name), k),
        d.entries@[k].1 == h,
        !(first_match(d.entries@, entry_named(new_name)) is Some && !eq_ignore_case(old_name, new_name)),
        key@ == new_name,
        b.objects@ == objects_insert(a.objects@, dh, ObjectType::Dictionary(d2)),
        d2.entries@ == d.entries@.update(k, (key, h)),
        d2.owner == d.owner,
        c.objects@ == objects_insert(b.objects@, h, ObjectType::XRecord(x2)),
        a.spec_object(h) matches Some(ObjectType::XRecord(x)) && x2.entries == x.entries,
        b.layer_table_handle == a.layer_table_handle,
        c.layer_table_handle == a.layer_table_handle,
        b.xdic_by_handle == a.xdic_by_handle,
        c.xdic_by_handle == a.xdic_by_handle,
        c.layers == a.layers,
        c.line_types == a.line_types,
    ensures
        stored_layer_state(c, new_name) == renamed(stored_layer_state(a, old_name), new_name),
        layer_states_dictionary(c) == Some(dh),
        dictionary_at(c, dh) == Some(d2),
{
    let e = layer_extension_dictionary(a).unwrap();
    let x = match a.spec_object(h) {
        Some(ObjectType::XRecord(x)) => x,
        _ => arbitrary(),
    };
    lemma_first_index_is(d.entries@, entry_named(old_name), k);
    assert(e != dh);
    assert(h != dh && h != e);
    lemma_locate_after_update(a, b, dh, d2);
    lemma_object_at_insert(a.objects@, dh, ObjectType::Dictionary(d2), dh);
    lemma_object_at_insert(a.objects@, dh, ObjectType::Dictionary(d2), h);
    lemma_locate_after_record(b, c, h, x2);
    lemma_object_at_insert(b.objects@, h, ObjectType::XRecord(x2), dh);
    lemma_object_at_insert(b.objects@, h, ObjectType::XRecord(x2), h);
    assert(layer_states_dictionary(c) == Some(dh));
    assert(dictionary_at(c, dh) == Some(d2));
    // the old side
    lemma_find_at(a, d.entries@, k, old_name, x);
    // the new side: no earlier entry is named `new_name`
    crate::text::lemma_eq_ignore_case_equiv(key@, key@, key@);
    assert forall|j: int| 0 <= j < k implies !(#[trigger] entry_named(new_name)(d2.entries@[j])) by {
        assert(d2.entries@[j] == d.entries@[j]);
        assert(!entry_named(old_name)(d.entries@[j]));
        if entry_named(new_name)(d.entries@[j]) {
            lemma_first_index_facts(d.entries@, entry_named(new_name));
            crate::seqs::lemma_some_first(d.entries@, entry_named(new_name), j);
            lemma_first_index_facts(d.entries@, entry_named(new_name));
            crate::text::lemma_eq_ignore_case_equiv(d.entries@[j].0@, new_name, old_name);
            crate::text::lemma_eq_ignore_case_equiv(old_name, new_name, d.entries@[j].0@);
            crate::text::lemma_eq_ignore_case_equiv(new_name, old_name, d.entries@[j].0@);
        }
    }
    lemma_find_at(c, d2.entries@, k, new_name, x2);
    lemma_decoded_layers_same_tables(a, c, x.entries@.skip(first_layer_pos(x.entries@)));
}

/// Replacing an element after the first match keeps the first match.
proof fn lemma_first_match_update_after<A>(s: Seq<A>, p: spec_fn(A) -> bool, i: int, x: A)
    requires
        0 <= first_index(s, p) < i < s.len(),
    ensures
        first_match(s.update(i, x), p) == first_match(s, p),
{
    lemma_first_index_facts(s, p);
    let f = first_index(s, p);
    let t = s.update(i, x);
    assert(is_first(t, p, f)) by {
        assert forall|j: int| 0 <= j < f implies !p(#[trigger] t[j]) by {
            assert(t[j] == s[j]);
        }
        assert(t[f] == s[f]);
    }
    lemma_first_index_is(t, p, f);
}

/// The read-back law of a rename where the layer-states dictionary is the
/// extension dictionary itself.
proof fn lemma_rename_read_back_alias(
    a: CadDocument,
    b: CadDocument,
    c: CadDocument,
    dh: Handle,
    h: Handle,
    d: Dictionary,
    d2: Dictionary,
    x2: XRecord,
    k: int,
    key: String,
    old_name: Seq<char>,
    new_name: Seq<char>,
)
    requires
        store_ok(a, old_name),
        layer_extension_dictionary(a) == Some(dh),
        !(is_states_key(new_name) && k < first_index(d.entries@, states_key_entry())),
        unique_handles(a.objects@),
        unique_handles(b.objects@),
        layer_states_dictionary(a) == Some(dh),
        dictionary_at(a, dh) == Some(d),
        is_first(d.entries@, entry_named(old_name), k),
        d.entries@[k].1 == h,
        !(first_match(d.entries@, entry_named(new_name)) is Some && !eq_ignore_case(old_name, new_name)),
        key@ == new_name,
        b.objects@ == objects_insert(a.objects@, dh, ObjectType::Dictionary(d2)),
        d2.entries@ == d.entries@.update(k, (key, h)),
        d2.owner == d.owner,
        c.objects@ == objects_insert(b.objects@, h, ObjectType::XRecord(x2)),
        a.spec_object(h) matches Some(ObjectType::XRecord(x)) && x2.entries == x.entries,
        b.layer_table_handle == a.layer_table_handle,
        c.layer_table_handle == a.layer_table_handle,
        b.xdic_by_handle == a.xdic_by_handle,
        c.xdic_by_handle == a.xdic_by_handle,
        c.layers == a.layers,
        c.line_types == a.line_types,
    ensures
        stored_layer_state(c, new_name) == renamed(stored_layer_state(a, old_name), new_name),
        layer_states_dictionary(c) == Some(dh),
        dictionary_at(c, dh) == Some(d2),
{
    let x = match a.spec_object(h) {
        Some(ObjectType::XRecord(x)) => x,
        _ => arbitrary(),
    };
    lemma_first_index_is(d.entries@, entry_named(old_name), k);
    assert(h != dh);
    lemma_object_at_member(a.objects@, dh);
    lemma_locate_after_self_update(a, b, dh, d2);
    lemma_first_index_facts(d.entries@, states_key_entry());
    let f = first_index(d.entries@, states_key_entry());
    assert(f >= 0 && d.entries@[f].1 == dh);
    assert(f != k);
    crate::text::lemma_eq_ignore_case_equiv(d.entries@[k].0@, old_name, "ACAD_LAYERSTATES"@);
    crate::text::lemma_eq_ignore_case_equiv(d.entries@[k].0@, old_name, "ACAD_LAYERSTATE"@);
    if is_states_key(key@) == is_states_key(d.entries@[k].0@) {
        crate::seqs::lemma_first_match_update_other(d.entries@, states_key_entry(), k, (key, h));
    } else {
        assert(f < k);
        lemma_first_match_update_after(d.entries@, states_key_entry(), k, (key, h));
    }
    assert(layer_states_dictionary(b) == Some(dh));
    lemma_object_at_insert(a.objects@, dh, ObjectType::Dictionary(d2), dh);
    lemma_object_at_insert(a.objects@, dh, ObjectType::Dictionary(d2), h);
    lemma_locate_after_record(b, c, h, x2);
    lemma_object_at_insert(b.objects@, h, ObjectType::XRecord(x2), dh);
    lemma_object_at_insert(b.objects@, h, ObjectType::XRecord(x2), h);
    assert(layer_states_dictionary(c) == Some(dh));
    assert(dictionary_at(c, dh) == Some(d2));
    // the old side
    lemma_find_at(a, d.entries@, k, old_name, x);
    // the new side: no earlier entry is named `new_name`
    crate::text::lemma_eq_ignore_case_equiv(key@, key@, key@);
    assert forall|j: int| 0 <= j < k implies !(#[trigger] entry_named(new_name)(d2.entries@[j])) by {
        assert(d2.entries@[j] == d.entries@[j]);
        assert(!entry_named(old_name)(d.entries@[j]));
        if entry_named(new_name)(d.entries@[j]) {
            lemma_first_index_facts(d.entries@, entry_named(new_name));
            crate::seqs::lemma_some_first(d.entries@, entry_named(new_name), j);
            lemma_first_index_facts(d.entries@, entry_named(new_name));
            crate::text::lemma_eq_ignore_case_equiv(d.entries@[j].0@, new_name, old_name);
            crate::text::lemma_eq_ignore_case_equiv(old_name, new_name, d.entries@[j].0@);
            crate::text::lemma_eq_ignore_case_equiv(new_name, old_name, d.entries@[j].0@);
        }
    }
    lemma_find_at(c, d2.entries@, k, new_name, x2);
    lemma_decoded_layers_same_tables(a, c, x.entries@.skip(first_layer_pos(x.entries@)));
}

// ---------------------------------------------------------------------------
// Capturing the layer table and restoring a state into it.

/// The content of a [`Layer`], with texts as character sequences.
pub struct LayerView {
    pub handle: Handle,
    pub name: Seq<char>,
    pub flags: crate::document::LayerFlags,
    pub is_plottable: bool,
    pub color: Color,
    pub line_type: Seq<char>,
    pub line_weight: LineWeight,
    pub plot_style: Seq<char>,
    pub transparency: Transparency,
}

pub open spec fn layer_view(l: Layer) -> LayerView {
    LayerView {
        handle: l.handle,
        name: l.name@,
        flags: l.flags,
        is_plottable: l.is_plottable,
        color: l.color,
        line_type: l.line_type@,
        line_weight: l.line_weight,
        plot_style: l.plot_style@,
        transparency: l.transparency,
    }
}

/// The views of the layer table.
pub open spec fn table_views(ls: Seq<Layer>) -> Seq<LayerView> {
    ls.map_values(|l: Layer| layer_view(l))
}

/// The name of the current layer as a captured state records it: the
/// header's name, or, when that is empty, the name of the layer with the
/// header's current-layer handle, or `0`.
pub open spec fn captured_current_layer(doc: CadDocument) -> Seq<char> {
    if doc.header.current_layer_name@.len() == 0 {
        match first_match(doc.layers@, layer_with_handle(doc.header.current_layer_handle)) {
            Some(l) => l.name@,
            None => "0"@,
        }
    } else {
        doc.header.current_layer_name@
    }
}

/// One layer as a captured state records it; an empty plot style is
/// recorded as `Color_<palette index>`.
pub open spec fn captured_layer(l: Layer) -> LayerStateLayerView {
    LayerStateLayerView {
        layer_handle: l.handle,
        layer_name: l.name@,
        off: l.flags.off,
        frozen: l.flags.frozen,
        locked: l.flags.locked,
        plottable: l.is_plottable,
        new_viewport_frozen: l.flags.frozen_in_new_viewport,
        color: l.color,
        line_type: l.line_type@,
        line_weight: l.line_weight,
        plot_style: if l.plot_style@.len() == 0 {
            "Color_"@ + crate::text::decimal_text(l.color.index as int)
        } else {
            l.plot_style@
        },
        transparency: Some(l.transparency),
    }
}

/// The state that capturing the layer table records.
pub open spec fn captured_state(doc: CadDocument, name: Seq<char>, description: Seq<char>) -> LayerStateView {
    LayerStateView {
        name: name,
        description: description,
        mask: 0x05ff,
        hidden: false,
        current_layer: captured_current_layer(doc),
        layers: doc.layers@.map_values(|l: Layer| captured_layer(l)),
    }
}

/// The mask selects property `bit`.
pub open spec fn selects(mask: u32, bit: u32) -> bool {
    mask & bit == bit
}

/// A layer with the properties that `mask` selects taken from `s`. A line
/// type is only taken when the saved one is not empty, a transparency only
/// when one was saved.
pub open spec fn restored_layer(l: LayerView, mask: u32, s: LayerStateLayerView) -> LayerView {
    LayerView {
        handle: l.handle,
        name: l.name,
        flags: crate::document::LayerFlags {
            off: if selects(mask, 0x0001) {
                s.off
            } else {
                l.flags.off
            },
            frozen: if selects(mask, 0x0002) {
                s.frozen
            } else {
                l.flags.frozen
            },
            locked: if selects(mask, 0x0004) {
                s.locked
            } else {
                l.flags.locked
            },
            frozen_in_new_viewport: if selects(mask, 0x0010) {
                s.new_viewport_frozen
            } else {
                l.flags.frozen_in_new_viewport
            },
        },
        is_plottable: if selects(mask, 0x0008) {
            s.plottable
        } else {
            l.is_plottable
        },
        color: if selects(mask, 0x0020) {
            s.color
        } else {
            l.color
        },
        line_type: if selects(mask, 0x0040) && s.line_type.len() > 0 {
            s.line_type
        } else {
            l.line_type
        },
        line_weight: if selects(mask, 0x0080) {
            s.line_weight
        } else {
            l.line_weight
        },
        plot_style: if selects(mask, 0x0100) {
            s.plot_style
        } else {
            l.plot_style
        },
        transparency: if selects(mask, 0x0400) && s.transparency is Some {
            s.transparency->0
        } else {
            l.transparency
        },
    }
}

/// A layer view whose name equals `name` ignoring ASCII case.
pub open spec fn view_named(name: Seq<char>) -> spec_fn(LayerView) -> bool {
    |l: LayerView| eq_ignore_case(l.name, name)
}

/// A layer view with handle `h`.
pub open spec fn view_with_handle(h: Handle) -> spec_fn(LayerView) -> bool {
    |l: LayerView| l.handle == h
}

/// The name under which a saved layer is looked up: the name of the layer
/// with its handle when it has one that is found, else its saved name.
pub open spec fn restore_target(ls: Seq<LayerView>, s: LayerStateLayerView) -> Seq<char> {
    if s.layer_handle.0 != 0 {
        match first_match(ls, view_with_handle(s.layer_handle)) {
            Some(l) => l.name,
            None => s.layer_name,
        }
    } else {
        s.layer_name
    }
}

/// The layer table after restoring the saved layers one after the other,
/// and how many of them found a layer.
pub open spec fn restored_table(ls: Seq<LayerView>, mask: u32, saved: Seq<LayerStateLayerView>) -> (
    Seq<LayerView>,
    nat,
)
    decreases saved.len(),
{
    if saved.len() == 0 {
        (ls, 0)
    } else {
        let (before, count) = restored_table(ls, mask, saved.drop_last());
        let s = saved.last();
        let i = first_index(before, view_named(restore_target(before, s)));
        if i >= 0 {
            (before.update(i, restored_layer(before[i], mask, s)), count + 1)
        } else {
            (before, count)
        }
    }
}

/// A state whose mask selects no property restores nothing: every layer
/// keeps its properties.
pub proof fn lemma_empty_mask_restores_nothing(ls: Seq<LayerView>, saved: Seq<LayerStateLayerView>)
    ensures
        restored_table(ls, 0, saved).0 == ls,
    decreases saved.len(),
{
    if saved.len() > 0 {
        lemma_empty_mask_restores_nothing(ls, saved.drop_last());
        let s = saved.last();
        assert(forall|bit: u32| !selects(0, bit) || bit == 0) by {
            assert forall|bit: u32| !selects(0, bit) || bit == 0 by {
                assert(0u32 & bit == 0) by (bit_vector);
            }
        }
        let (before, count) = restored_table(ls, 0, saved.drop_last());
        let i = first_index(before, view_named(restore_target(before, s)));
        if i >= 0 {
            lemma_first_index_facts(before, view_named(restore_target(before, s)));
            assert(restored_layer(before[i], 0, s) == before[i]);
            assert(before.update(i, restored_layer(before[i], 0, s)) =~= before);
        }
    }
}

proof fn lemma_restored_count(ls: Seq<LayerView>, mask: u32, saved: Seq<LayerStateLayerView>)
    ensures
        restored_table(ls, mask, saved).1 <= saved.len(),
        restored_table(ls, mask, saved).0.len() == ls.len(),
    decreases saved.len(),
{
    if saved.len() > 0 {
        lemma_restored_count(ls, mask, saved.drop_last());
    }
}

impl CadDocument {
    /// Capture the current layer table and store it under `name`.
    ///
    /// An existing state with the same name (case ignored) is updated in
    /// place; the returned handle is the state's XRecord.
    pub fn capture_layer_state(&mut self, name: &str, description: &str) -> (r: Handle)
        requires
            old(self).wf(),
            old(self).header.handle_seed < u64::MAX - 3,
        ensures
            *final(self) == (CadDocument {
                header: Header { handle_seed: final(self).header.handle_seed, ..old(self).header },
                objects: final(self).objects,
                xdic_by_handle: final(self).xdic_by_handle,
                ..*old(self)
            }),
            final(self).wf(),
            final(self).layers == old(self).layers,
            final(self).line_types == old(self).line_types,
            final(self).layer_table_handle == old(self).layer_table_handle,
            final(self).header.current_layer_name == old(self).header.current_layer_name,
            final(self).header.current_layer_handle == old(self).header.current_layer_handle,
            final(self).spec_object(r) matches Some(ObjectType::XRecord(x)) && x.name@ == name@,
            store_ok(*old(self), name@) ==> {
                &&& stored_layer_state(*final(self), name@) == Some(
                    stored_form(*old(self), captured_state(*old(self), name@, description@), name@),
                )
                &&& exists|key: String|
                    key@ == name@ && states_entries(*final(self)) == entries_put(
                        states_entries(*old(self)),
                        name@,
                        (key, r),
                    )
                &&& first_index(states_entries(*old(self)), entry_named(name@)) >= 0 ==> r
                    == states_entries(*old(self))[first_index(
                    states_entries(*old(self)),
                    entry_named(name@),
                )].1
                &&& distinct_targets(states_entries(*old(self))) ==> forall|n: Seq<char>|
                    !eq_ignore_case(n, name@) ==> #[trigger] stored_layer_state(*final(self), n)
                        == stored_layer_state(*old(self), n)
            },
    {
        let current_layer = if crate::text::is_empty_text(self.header.current_layer_name.as_str()) {
            match self.layer_index_by_handle(self.header.current_layer_handle) {
                Some(i) => {
                    proof {
                        lemma_first_index_is(
                            self.layers@,
                            layer_with_handle(self.header.current_layer_handle),
                            i as int,
                        );
                    }
                    self.layers[i].name.clone()
                },
                None => owned("0"),
            }
        } else {
            self.header.current_layer_name.clone()
        };
        let mut layers: Vec<LayerStateLayer> = Vec::new();
        let mut i: usize = 0;
        while i < self.layers.len()
            invariant
                i <= self.layers@.len(),
                layer_views(layers@) == self.layers@.take(i as int).map_values(
                    |l: Layer| captured_layer(l),
                ),
            decreases self.layers@.len() - i,
        {
            let layer = &self.layers[i];
            let plot_style = if crate::text::is_empty_text(layer.plot_style.as_str()) {
                let mut text = owned("Color_");
                crate::text::push_decimal(&mut text, layer.color.approximate_index());
                text
            } else {
                layer.plot_style.clone()
            };
            let saved = LayerStateLayer {
                layer_handle: layer.handle,
                layer_name: layer.name.clone(),
                off: layer.flags.off,
                frozen: layer.flags.frozen,
                locked: layer.flags.locked,
                plottable: layer.is_plottable,
                new_viewport_frozen: layer.flags.frozen_in_new_viewport,
                color: layer.color,
                line_type: layer.line_type.clone(),
                line_weight: layer.line_weight,
                plot_style,
                transparency: Some(layer.transparency),
            };
            let ghost before = layers@;
            layers.push(saved);
            proof {
                assert(saved@ == captured_layer(self.layers@[i as int]));
                assert(layer_views(layers@) =~= layer_views(before).push(saved@));
                assert(self.layers@.take(i + 1).map_values(|l: Layer| captured_layer(l))
                    =~= self.layers@.take(i as int).map_values(|l: Layer| captured_layer(l)).push(
                    captured_layer(self.layers@[i as int]),
                ));
            }
            i = i + 1;
        }
        proof {
            assert(self.layers@.take(self.layers@.len() as int) =~= self.layers@);
        }
        let state = LayerState {
            name: owned(name),
            description: owned(description),
            mask: LayerStateMask::from_bits(0x05ff),
            hidden: false,
            current_layer,
            layers,
        };
        proof {
            assert(state@ == captured_state(*self, name@, description@));
        }
        let ghost key = state.name;
        let r = self.store_layer_state(state);
        proof {
            if store_ok(*old(self), name@) {
                assert(states_entries(*self) == entries_put(states_entries(*old(self)), name@, (key, r)));
            }
        }
        r
    }

    /// Restore the properties that a named state selects onto the layers it
    /// saved. Returns `None` when there is no state with that name, else
    /// how many saved layers were found in the layer table.
    pub fn restore_layer_state(&mut self, name: &str) -> (r: Option<usize>)
        ensures
            *final(self) == (CadDocument {
                header: Header {
                    current_layer_name: final(self).header.current_layer_name,
                    current_layer_handle: final(self).header.current_layer_handle,
                    ..old(self).header
                },
                layers: final(self).layers,
                ..*old(self)
            }),
            final(self).objects == old(self).objects,
            final(self).line_types == old(self).line_types,
            final(self).layer_table_handle == old(self).layer_table_handle,
            final(self).xdic_by_handle == old(self).xdic_by_handle,
            final(self).header.handle_seed == old(self).header.handle_seed,
            match stored_layer_state(*old(self), name@) {
                None => r is None && *final(self) == *old(self),
                Some(st) => {
                    let (table, count) = restored_table(table_views(old(self).layers@), st.mask, st.layers);
                    &&& r == Some(count as usize)
                    &&& table_views(final(self).layers@) == table
                    &&& match first_match(table, view_named(st.current_layer)) {
                        Some(l) => final(self).header.current_layer_handle == l.handle
                            && final(self).header.current_layer_name@ == l.name,
                        None => final(self).header.current_layer_handle == old(self).header.current_layer_handle
                            && final(self).header.current_layer_name == old(self).header.current_layer_name,
                    }
                },
            },
    {
        let state = match self.layer_state(name) {
            Some(s) => s,
            None => {
                return None;
            },
        };
        let ghost start = table_views(self.layers@);
        let ghost saved_views = layer_views(state.layers@);
        let mut restored: usize = 0;
        let mut i: usize = 0;
        while i < state.layers.len()
            invariant
                i <= state.layers@.len(),
                saved_views == layer_views(state.layers@),
                (table_views(self.layers@), restored as nat) == restored_table(
                    start,
                    state.mask.0,
                    saved_views.take(i as int),
                ),
                *self == (CadDocument { layers: self.layers, ..*old(self) }),
            decreases state.layers@.len() - i,
        {
            let saved = &state.layers[i];
            proof {
                assert(saved_views.take(i + 1).drop_last() =~= saved_views.take(i as int));
                assert(saved_views.take(i + 1).last() == saved@);
                lemma_restored_count(start, state.mask.0, saved_views.take(i as int));
            }
            let ghost before = table_views(self.layers@);
            let target = if !saved.layer_handle.is_null() {
                match self.layer_index_by_handle(saved.layer_handle) {
                    Some(j) => {
                        proof {
                            lemma_first_index_is(self.layers@, layer_with_handle(saved.layer_handle), j as int);
                            lemma_views_first_handle(self.layers@, saved.layer_handle);
                        }
                        self.layers[j].name.clone()
                    },
                    None => {
                        proof {
                            lemma_views_first_handle(self.layers@, saved.layer_handle);
                        }
                        saved.layer_name.clone()
                    },
                }
            } else {
                saved.layer_name.clone()
            };
            assert(target@ == restore_target(before, saved@));
            match self.layer_index_by_name(target.as_str()) {
                Some(j) => {
                    proof {
                        lemma_views_first_name(self.layers@, target@);
                    }
                    let mut layer = self.layers.remove(j);
                    let mask = state.mask;
                    apply_saved_layer(&mut layer, mask, saved);
                    self.layers.insert(j, layer);
                    restored = restored + 1;
                    proof {
                        assert(table_views(self.layers@) =~= before.update(
                            j as int,
                            restored_layer(before[j as int], mask.0, saved@),
                        ));
                    }
                },
                None => {
                    proof {
                        lemma_views_first_name(self.layers@, target@);
                    }
                },
            }
            i = i + 1;
        }
        proof {
            assert(saved_views.take(state.layers@.len() as int) =~= saved_views);
        }
        let ghost table = table_views(self.layers@);
        match self.layer_index_by_name(state.current_layer.as_str()) {
            Some(j) => {
                proof {
                    lemma_views_first_name(self.layers@, state.current_layer@);
                }
                self.header.current_layer_handle = self.layers[j].handle;
                self.header.current_layer_name = self.layers[j].name.clone();
            },
            None => {
                proof {
                    lemma_views_first_name(self.layers@, state.current_layer@);
                }
            },
        }
        Some(restored)
    }
}

/// Take from a saved layer the properties that `mask` selects.
fn apply_saved_layer(layer: &mut Layer, mask: LayerStateMask, saved: &LayerStateLayer)
    ensures
        layer_view(*final(layer)) == restored_layer(layer_view(*old(layer)), mask.0, saved@),
{
    apply_saved_flags(layer, mask, saved);
    apply_saved_style(layer, mask, saved);
}

/// The visibility and plotting flags of `apply_saved_layer`.
fn apply_saved_flags(layer: &mut Layer, mask: LayerStateMask, saved: &LayerStateLayer)
    ensures
        final(layer).flags == restored_layer(layer_view(*old(layer)), mask.0, saved@).flags,
        final(layer).is_plottable == restored_layer(layer_view(*old(layer)), mask.0, saved@).is_plottable,
        final(layer).handle == old(layer).handle,
        final(layer).name == old(layer).name,
        final(layer).color == old(layer).color,
        final(layer).line_type == old(layer).line_type,
        final(layer).line_weight == old(layer).line_weight,
        final(layer).plot_style == old(layer).plot_style,
        final(layer).transparency == old(layer).transparency,
{
    let off = if mask.contains(LayerStateMask::from_bits(LayerStateMask::ON)) {
        saved.off
    } else {
        layer.flags.off
    };
    let frozen = if mask.contains(LayerStateMask::from_bits(LayerStateMask::FROZEN)) {
        saved.frozen
    } else {
        layer.flags.frozen
    };
    let locked = if mask.contains(LayerStateMask::from_bits(LayerStateMask::LOCKED)) {
        saved.locked
    } else {
        layer.flags.locked
    };
    let new_viewport = if mask.contains(LayerStateMask::from_bits(LayerStateMask::NEW_VIEWPORT)) {
        saved.new_viewport_frozen
    } else {
        layer.flags.frozen_in_new_viewport
    };
    let plottable = if mask.contains(LayerStateMask::from_bits(LayerStateMask::PLOT)) {
        saved.plottable
    } else {
        layer.is_plottable
    };
    layer.flags = crate::document::LayerFlags {
        off,
        frozen,
        locked,
        frozen_in_new_viewport: new_viewport,
    };
    layer.is_plottable = plottable;
}

/// The colour, line and transparency properties of `apply_saved_layer`.
fn apply_saved_style(layer: &mut Layer, mask: LayerStateMask, saved: &LayerStateLayer)
    ensures
        final(layer).color == restored_layer(layer_view(*old(layer)), mask.0, saved@).color,
        final(layer).line_type@ == restored_layer(layer_view(*old(layer)), mask.0, saved@).line_type,
        final(layer).line_weight == restored_layer(layer_view(*old(layer)), mask.0, saved@).line_weight,
        final(layer).plot_style@ == restored_layer(layer_view(*old(layer)), mask.0, saved@).plot_style,
        final(layer).transparency == restored_layer(layer_view(*old(layer)), mask.0, saved@).transparency,
        final(layer).handle == old(layer).handle,
        final(layer).name == old(layer).name,
        final(layer).flags == old(layer).flags,
        final(layer).is_plottable == old(layer).is_plottable,
{
    if mask.contains(LayerStateMask::from_bits(LayerStateMask::COLOR)) {
        layer.color = saved.color;
    }
    if mask.contains(LayerStateMask::from_bits(LayerStateMask::LINE_TYPE))
        && !crate::text::is_empty_text(saved.line_type.as_str()) {
        layer.line_type = saved.line_type.clone();
    }
    if mask.contains(LayerStateMask::from_bits(LayerStateMask::LINE_WEIGHT)) {
        layer.line_weight = saved.line_weight;
    }
    if mask.contains(LayerStateMask::from_bits(LayerStateMask::PLOT_STYLE)) {
        layer.plot_style = saved.plot_style.clone();
    }
    if mask.contains(LayerStateMask::from_bits(LayerStateMask::TRANSPARENCY)) {
        match saved.transparency {
            Some(transparency) => {
                layer.transparency = transparency;
            },
            None => {},
        }
    }
}

/// Looking a layer up by handle in the views finds the view of the layer
/// found in the table.
proof fn lemma_views_first_handle(ls: Seq<Layer>, h: Handle)
    ensures
        first_index(table_views(ls), view_with_handle(h)) == first_index(ls, layer_with_handle(h)),
        first_match(table_views(ls), view_with_handle(h)) == match first_match(ls, layer_with_handle(h)) {
            Some(l) => Some(layer_view(l)),
            None => None,
        },
{
    let vs = table_views(ls);
    lemma_first_index_facts(ls, layer_with_handle(h));
    let i = first_index(ls, layer_with_handle(h));
    if i >= 0 {
        assert(is_first(vs, view_with_handle(h), i)) by {
            assert forall|j: int| 0 <= j < i implies !(#[trigger] view_with_handle(h)(vs[j])) by {
                assert(vs[j] == layer_view(ls[j]));
                assert(!layer_with_handle(h)(ls[j]));
            }
        }
        lemma_first_index_is(vs, view_with_handle(h), i);
    } else {
        assert forall|j: int| 0 <= j < vs.len() implies !(#[trigger] view_with_handle(h)(vs[j])) by {
            assert(vs[j] == layer_view(ls[j]));
            assert(!layer_with_handle(h)(ls[j]));
        }
        lemma_first_index_none(vs, view_with_handle(h));
    }
}

/// Looking a layer up by name in the views finds the view of the layer
/// found in the table.
proof fn lemma_views_first_name(ls: Seq<Layer>, name: Seq<char>)
    ensures
        first_index(table_views(ls), view_named(name)) == first_index(ls, crate::document::layer_named(name)),
        first_match(table_views(ls), view_named(name)) == match first_match(ls, crate::document::layer_named(name)) {
            Some(l) => Some(layer_view(l)),
            None => None,
        },
{
    let vs = table_views(ls);
    let p = crate::document::layer_named(name);
    lemma_first_index_facts(ls, p);
    let i = first_index(ls, p);
    if i >= 0 {
        assert(is_first(vs, view_named(name), i)) by {
            assert forall|j: int| 0 <= j < i implies !(#[trigger] view_named(name)(vs[j])) by {
                assert(vs[j] == layer_view(ls[j]));
                assert(!p(ls[j]));
            }
        }
        lemma_first_index_is(vs, view_named(name), i);
    } else {
        assert forall|j: int| 0 <= j < vs.len() implies !(#[trigger] view_named(name)(vs[j])) by {
            assert(vs[j] == layer_view(ls[j]));
            assert(!p(ls[j]));
        }
        lemma_first_index_none(vs, view_named(name));
    }
}

} // verus!

verus! {

/// A layer table that a captured state restores exactly: every layer has
/// its own non-null handle and its own name (ASCII case ignored), a plot
/// style, and a line type that the line-type table holds under the same
/// spelling.
pub open spec fn restores_exactly(doc: CadDocument) -> bool {
    let ls = doc.layers@;
    &&& forall|i: int| 0 <= i < ls.len() ==> (#[trigger] ls[i]).handle.0 != 0
    &&& forall|i: int, j: int|
        0 <= i < j < ls.len() ==> (#[trigger] ls[i]).handle != (#[trigger] ls[j]).handle
            && !eq_ignore_case(ls[i].name@, ls[j].name@)
    &&& forall|i: int| 0 <= i < ls.len() ==> (#[trigger] ls[i]).plot_style@.len() > 0
    &&& forall|i: int|
        0 <= i < ls.len() ==> line_type_name_of(
            doc,
            line_type_handle_for(doc, (#[trigger] ls[i]).line_type@),
        ) == ls[i].line_type@
}

/// The layers as a capture records them.
spec fn captures(doc: CadDocument) -> Seq<LayerStateLayerView> {
    doc.layers@.map_values(|l: Layer| captured_layer(l))
}

/// The captured layers as a reader sees them once stored.
spec fn stored_captures(doc: CadDocument) -> Seq<LayerStateLayerView> {
    stored_layers(doc, captures(doc))
}

proof fn lemma_layer_by_handle(doc: CadDocument, i: int)
    requires
        restores_exactly(doc),
        0 <= i < doc.layers@.len(),
    ensures
        first_match(doc.layers@, layer_with_handle(doc.layers@[i].handle)) == Some(doc.layers@[i]),
        first_match(table_views(doc.layers@), view_with_handle(doc.layers@[i].handle)) == Some(
            layer_view(doc.layers@[i]),
        ),
        layer_name_of(doc, doc.layers@[i].handle) == doc.layers@[i].name@,
{
    let ls = doc.layers@;
    let h = ls[i].handle;
    assert forall|j: int| 0 <= j < i implies !(#[trigger] layer_with_handle(h)(ls[j])) by {
        assert(ls[j].handle != ls[i].handle);
    }
    lemma_first_index_is(ls, layer_with_handle(h), i);
    lemma_views_first_handle(ls, h);
}

proof fn lemma_stored_captures(doc: CadDocument, k: int)
    requires
        restores_exactly(doc),
        0 <= k <= doc.layers@.len(),
    ensures
        stored_layers(doc, captures(doc).take(k)).len() == k,
        forall|i: int|
            0 <= i < k ==> #[trigger] stored_layers(
                doc,
                captures(doc).take(k),
            )[i] == stored_layer(doc, captured_layer(doc.layers@[i]), doc.layers@[i].handle),
    decreases k,
{
    let cs = captures(doc);
    if k == 0 {
        assert(cs.take(0) =~= Seq::<LayerStateLayerView>::empty());
    } else {
        lemma_stored_captures(doc, k - 1);
        assert(cs.take(k).drop_last() =~= cs.take(k - 1));
        assert(cs.take(k).last() == captured_layer(doc.layers@[k - 1]));
        assert(doc.layers@[k - 1].handle.0 != 0);
        let prev = stored_layers(doc, cs.take(k - 1));
        let now = stored_layers(doc, cs.take(k));
        assert(now == prev + seq![
            stored_layer(doc, captured_layer(doc.layers@[k - 1]), doc.layers@[k - 1].handle),
        ]);
        assert forall|i: int| 0 <= i < k implies #[trigger] now[i] == stored_layer(
            doc,
            captured_layer(doc.layers@[i]),
            doc.layers@[i].handle,
        ) by {
            if i < k - 1 {
                assert(now[i] == prev[i]);
            }
        }
    }
}

/// Restoring a layer from its own stored capture changes nothing.
proof fn lemma_restore_own_capture(doc: CadDocument, i: int)
    requires
        restores_exactly(doc),
        0 <= i < doc.layers@.len(),
    ensures
        restored_layer(
            layer_view(doc.layers@[i]),
            0x05ff,
            stored_layer(doc, captured_layer(doc.layers@[i]), doc.layers@[i].handle),
        ) == layer_view(doc.layers@[i]),
{
    assert(0x05ffu32 & 0x1u32 == 0x1u32 && 0x05ffu32 & 0x2u32 == 0x2u32 && 0x05ffu32 & 0x4u32
        == 0x4u32 && 0x05ffu32 & 0x8u32 == 0x8u32 && 0x05ffu32 & 0x10u32 == 0x10u32 && 0x05ffu32
        & 0x20u32 == 0x20u32 && 0x05ffu32 & 0x40u32 == 0x40u32 && 0x05ffu32 & 0x80u32 == 0x80u32
        && 0x05ffu32 & 0x100u32 == 0x100u32 && 0x05ffu32 & 0x400u32 == 0x400u32) by (bit_vector);
    let l = doc.layers@[i];
    assert(l.plot_style@.len() > 0);
    assert(line_type_name_of(doc, line_type_handle_for(doc, l.line_type@)) == l.line_type@);
}

/// After restoring the first `k` stored captures the table is unchanged,
/// and each of them found its layer.
proof fn lemma_restore_captures_prefix(doc: CadDocument, k: int)
    requires
        restores_exactly(doc),
        0 <= k <= doc.layers@.len(),
    ensures
        restored_table(table_views(doc.layers@), 0x05ff, stored_captures(doc).take(k)) == (
            table_views(doc.layers@),
            k as nat,
        ),
    decreases k,
{
    let ls = doc.layers@;
    let vs = table_views(ls);
    let saved = stored_captures(doc);
    lemma_stored_captures(doc, ls.len() as int);
    assert(captures(doc).take(ls.len() as int) =~= captures(doc));
    if k == 0 {
        assert(saved.take(0) =~= Seq::<LayerStateLayerView>::empty());
    } else {
        lemma_restore_captures_prefix(doc, k - 1);
        let i = k - 1;
        assert(saved.take(k).drop_last() =~= saved.take(i));
        let s = saved.take(k).last();
        assert(s == saved[i]);
        assert(s == stored_layer(doc, captured_layer(ls[i]), ls[i].handle));
        lemma_layer_by_handle(doc, i);
        assert(s.layer_handle == ls[i].handle);
        assert(ls[i].handle.0 != 0);
        assert(restore_target(vs, s) == ls[i].name@);
        let p = view_named(ls[i].name@);
        crate::text::lemma_eq_ignore_case_equiv(ls[i].name@, ls[i].name@, ls[i].name@);
        assert forall|j: int| 0 <= j < i implies !(#[trigger] p(vs[j])) by {
            assert(vs[j] == layer_view(ls[j]));
            assert(!eq_ignore_case(ls[j].name@, ls[i].name@));
        }
        assert(vs[i] == layer_view(ls[i]));
        lemma_first_index_is(vs, p, i);
        lemma_restore_own_capture(doc, i);
        assert(vs.update(i, restored_layer(vs[i], 0x05ff, s)) =~= vs);
    }
}

/// Capturing the layer table into a state and restoring that state at once
/// leaves every layer as it was, and every saved layer finds its layer.
pub proof fn lemma_capture_then_restore(doc: CadDocument, name: Seq<char>, description: Seq<char>)
    requires
        restores_exactly(doc),
    ensures
        ({
            let st = stored_form(doc, captured_state(doc, name, description), name);
            restored_table(table_views(doc.layers@), st.mask, st.layers) == (
                table_views(doc.layers@),
                doc.layers@.len(),
            )
        }),
{
    let st = stored_form(doc, captured_state(doc, name, description), name);
    lemma_stored_captures(doc, doc.layers@.len() as int);
    let cs = captures(doc);
    assert(cs.take(doc.layers@.len() as int) =~= cs);
    assert(captured_state(doc, name, description).layers =~= cs);
    assert(st.layers == stored_captures(doc));
    lemma_restore_captures_prefix(doc, doc.layers@.len() as int);
    assert(stored_captures(doc).take(doc.layers@.len() as int) =~= stored_captures(doc));
}

} // verus!
