//! The drawing database: header, layer and line-type tables, and the store
//! of non-graphical objects keyed by handle.
use vstd::prelude::*;

use crate::objects::{Dictionary, ObjectType};
use crate::seqs::{
    first_index, first_match, is_first, lemma_first_index_facts, lemma_first_index_is,
    lemma_first_index_none, lemma_first_match_push, lemma_first_match_remove,
    lemma_first_match_update,
};
use crate::text::{eq_ignore_ascii_case, eq_ignore_case};
use crate::types::{Color, Handle, LineWeight, Transparency};

verus! {

/// Visibility and editing flags of a layer.
#[derive(Clone, Copy, Debug, PartialEq, Eq, Structural)]
pub struct LayerFlags {
    pub off: bool,
    pub frozen: bool,
    pub locked: bool,
    pub frozen_in_new_viewport: bool,
}

/// A LAYER table entry.
#[derive(Clone, Debug, PartialEq, Eq)]
pub struct Layer {
    pub handle: Handle,
    pub name: String,
    pub flags: LayerFlags,
    pub is_plottable: bool,
    pub color: Color,
    pub line_type: String,
    pub line_weight: LineWeight,
    pub plot_style: String,
    pub transparency: Transparency,
}

/// A LTYPE table entry.
#[derive(Clone, Debug, PartialEq, Eq)]
pub struct LineType {
    pub handle: Handle,
    pub name: String,
}

/// An entry of the text-style, application-id, view, viewport, UCS or
/// VX table: what the reader adjusts of it is its handle.
#[derive(Clone, Debug, PartialEq, Eq)]
pub struct NamedEntry {
    pub handle: Handle,
    pub name: String,
}

/// A DIMSTYLE table entry and the text style it refers to.
#[derive(Clone, Debug, PartialEq, Eq)]
pub struct DimStyle {
    pub handle: Handle,
    pub name: String,
    /// The text style of the dimension text (group 340).
    pub dimtxsty_handle: Handle,
}

/// A BLOCK_RECORD table entry with the handles of its BLOCK and ENDBLK
/// placeholders and of the entities it lists, in drawing order.
#[derive(Clone, Debug, PartialEq, Eq)]
pub struct BlockRecord {
    pub handle: Handle,
    pub name: String,
    pub block_entity_handle: Handle,
    pub block_end_handle: Handle,
    pub entity_handles: Vec<Handle>,
}

/// The kinds of entities that ownership tells apart: the BLOCK and ENDBLK
/// markers and the attributes of inserts, which no block record lists,
/// and all others.
#[derive(Clone, Copy, Debug, PartialEq, Eq, Structural)]
pub enum EntityKind {
    BlockBegin,
    BlockEnd,
    Attribute,
    Other,
}

/// What the drawing keeps of an entity for its ownership: its handle, the
/// block record that owns it, and its kind.
#[derive(Clone, Copy, Debug, PartialEq, Eq, Structural)]
pub struct EntityRecord {
    pub handle: Handle,
    pub owner_handle: Handle,
    pub kind: EntityKind,
}

/// The header variables: the current layer, the references into the
/// symbol tables, and the handle seed.
#[derive(Clone, Debug, PartialEq, Eq)]
pub struct Header {
    pub current_layer_name: String,
    pub current_layer_handle: Handle,
    pub continuous_linetype_handle: Handle,
    pub bylayer_linetype_handle: Handle,
    pub current_linetype_handle: Handle,
    pub byblock_linetype_handle: Handle,
    pub current_text_style_handle: Handle,
    pub dim_text_style_handle: Handle,
    pub current_dimstyle_handle: Handle,
    pub model_space_block_handle: Handle,
    pub paper_space_block_handle: Handle,
    pub dim_linetype_handle: Handle,
    pub dim_linetype1_handle: Handle,
    pub dim_linetype2_handle: Handle,
    /// The root dictionary of named objects.
    pub named_objects_dict_handle: Handle,
    /// The next handle the drawing hands out.
    pub handle_seed: u64,
}

/// What every symbol-table entry offers: its handle and name, and a way to
/// give it another handle.
pub trait TableEntry: Sized {
    spec fn entry_name(&self) -> Seq<char>;

    spec fn entry_handle(&self) -> Handle;

    /// The entry with handle `h` and nothing else changed.
    spec fn with_handle(&self, h: Handle) -> Self;

    proof fn lemma_with_handle(&self, h: Handle)
        ensures
            self.with_handle(h).entry_handle() == h,
            self.with_handle(h).entry_name() == self.entry_name(),
    ;

    fn handle(&self) -> (r: Handle)
        ensures
            r == self.entry_handle(),
    ;

    fn name(&self) -> (r: &str)
        ensures
            r@ == self.entry_name(),
    ;

    fn set_handle(&mut self, h: Handle)
        ensures
            *final(self) == old(self).with_handle(h),
    ;
}

impl TableEntry for Layer {
    open spec fn entry_name(&self) -> Seq<char> {
        self.name@
    }

    open spec fn entry_handle(&self) -> Handle {
        self.handle
    }

    open spec fn with_handle(&self, h: Handle) -> Self {
        Layer { handle: h, ..*self }
    }

    proof fn lemma_with_handle(&self, h: Handle) {
    }

    fn handle(&self) -> (r: Handle) {
        self.handle
    }

    fn name(&self) -> (r: &str) {
        self.name.as_str()
    }

    fn set_handle(&mut self, h: Handle) {
        self.handle = h;
    }
}

impl TableEntry for LineType {
    open spec fn entry_name(&self) -> Seq<char> {
        self.name@
    }

    open spec fn entry_handle(&self) -> Handle {
        self.handle
    }

    open spec fn with_handle(&self, h: Handle) -> Self {
        LineType { handle: h, ..*self }
    }

    proof fn lemma_with_handle(&self, h: Handle) {
    }

    fn handle(&self) -> (r: Handle) {
        self.handle
    }

    fn name(&self) -> (r: &str) {
        self.name.as_str()
    }

    fn set_handle(&mut self, h: Handle) {
        self.handle = h;
    }
}

impl TableEntry for NamedEntry {
    open spec fn entry_name(&self) -> Seq<char> {
        self.name@
    }

    open spec fn entry_handle(&self) -> Handle {
        self.handle
    }

    open spec fn with_handle(&self, h: Handle) -> Self {
        NamedEntry { handle: h, ..*self }
    }

    proof fn lemma_with_handle(&self, h: Handle) {
    }

    fn handle(&self) -> (r: Handle) {
        self.handle
    }

    fn name(&self) -> (r: &str) {
        self.name.as_str()
    }

    fn set_handle(&mut self, h: Handle) {
        self.handle = h;
    }
}

impl TableEntry for DimStyle {
    open spec fn entry_name(&self) -> Seq<char> {
        self.name@
    }

    open spec fn entry_handle(&self) -> Handle {
        self.handle
    }

    open spec fn with_handle(&self, h: Handle) -> Self {
        DimStyle { handle: h, ..*self }
    }

    proof fn lemma_with_handle(&self, h: Handle) {
    }

    fn handle(&self) -> (r: Handle) {
        self.handle
    }

    fn name(&self) -> (r: &str) {
        self.name.as_str()
    }

    fn set_handle(&mut self, h: Handle) {
        self.handle = h;
    }
}

impl TableEntry for BlockRecord {
    open spec fn entry_name(&self) -> Seq<char> {
        self.name@
    }

    open spec fn entry_handle(&self) -> Handle {
        self.handle
    }

    open spec fn with_handle(&self, h: Handle) -> Self {
        BlockRecord { handle: h, ..*self }
    }

    proof fn lemma_with_handle(&self, h: Handle) {
    }

    fn handle(&self) -> (r: Handle) {
        self.handle
    }

    fn name(&self) -> (r: &str) {
        self.name.as_str()
    }

    fn set_handle(&mut self, h: Handle) {
        self.handle = h;
    }
}

/// A class registered in the drawing: the name DXF files know it by and
/// the number that DWG object records use for it.
#[derive(Clone, Debug, PartialEq, Eq)]
pub struct DxfClass {
    pub dxf_name: String,
    pub class_number: i16,
    /// The class's objects are graphical entities.
    pub is_an_entity: bool,
}

/// A drawing: its header, the symbol tables, the registered classes, the
/// handles of its entities, and the non-graphical objects.
#[derive(Clone, Debug, PartialEq, Eq)]
pub struct CadDocument {
    pub header: Header,
    /// Handle of the LAYER table record.
    pub layer_table_handle: Handle,
    pub layers: Vec<Layer>,
    pub line_types: Vec<LineType>,
    pub text_styles: Vec<NamedEntry>,
    pub dim_styles: Vec<DimStyle>,
    pub app_ids: Vec<NamedEntry>,
    pub views: Vec<NamedEntry>,
    pub vports: Vec<NamedEntry>,
    pub ucss: Vec<NamedEntry>,
    pub vx_table: Vec<NamedEntry>,
    pub block_records: Vec<BlockRecord>,
    pub classes: Vec<DxfClass>,
    /// The entities, in drawing order.
    pub entities: Vec<EntityRecord>,
    /// Non-graphical objects in insertion order, one per handle.
    pub objects: Vec<(Handle, ObjectType)>,
    /// Extension dictionary of each owner that has one: (owner, dictionary).
    pub xdic_by_handle: Vec<(Handle, Handle)>,
}

/// The object entry stored under handle `h`.
pub open spec fn has_handle(h: Handle) -> spec_fn((Handle, ObjectType)) -> bool {
    |e: (Handle, ObjectType)| e.0 == h
}

/// The layer whose name equals `name` ignoring ASCII case.
pub open spec fn layer_named(name: Seq<char>) -> spec_fn(Layer) -> bool {
    |l: Layer| eq_ignore_case(l.name@, name)
}

/// The layer with handle `h`.
pub open spec fn layer_with_handle(h: Handle) -> spec_fn(Layer) -> bool {
    |l: Layer| l.handle == h
}

/// The line type whose name equals `name` ignoring ASCII case.
pub open spec fn line_type_named(name: Seq<char>) -> spec_fn(LineType) -> bool {
    |l: LineType| eq_ignore_case(l.name@, name)
}

/// The line type with handle `h`.
pub open spec fn line_type_with_handle(h: Handle) -> spec_fn(LineType) -> bool {
    |l: LineType| l.handle == h
}

/// The extension-dictionary entry of owner `h`.
pub open spec fn xdic_of(h: Handle) -> spec_fn((Handle, Handle)) -> bool {
    |e: (Handle, Handle)| e.0 == h
}

/// The object stored under `h`.
pub open spec fn object_at(objects: Seq<(Handle, ObjectType)>, h: Handle) -> Option<ObjectType> {
    match first_match(objects, has_handle(h)) {
        Some(e) => Some(e.1),
        None => None,
    }
}

/// `objects` with `o` stored under `h`, in place of an existing object there.
pub open spec fn objects_insert(objects: Seq<(Handle, ObjectType)>, h: Handle, o: ObjectType) -> Seq<
    (Handle, ObjectType),
> {
    let i = first_index(objects, has_handle(h));
    if i >= 0 {
        objects.update(i, (h, o))
    } else {
        objects.push((h, o))
    }
}

/// `objects` without the object stored under `h`.
pub open spec fn objects_remove(objects: Seq<(Handle, ObjectType)>, h: Handle) -> Seq<
    (Handle, ObjectType),
> {
    let i = first_index(objects, has_handle(h));
    if i >= 0 {
        objects.remove(i)
    } else {
        objects
    }
}

/// No handle is stored twice.
pub open spec fn unique_handles(s: Seq<(Handle, ObjectType)>) -> bool {
    forall|i: int, j: int| 0 <= i < j < s.len() ==> #[trigger] s[i].0 != #[trigger] s[j].0
}

/// Every stored handle is below `seed`.
pub open spec fn handles_below(s: Seq<(Handle, ObjectType)>, seed: u64) -> bool {
    forall|i: int| 0 <= i < s.len() ==> (#[trigger] s[i].0).0 < seed
}

/// Storing under `h` changes the object at `h` only.
pub proof fn lemma_object_at_insert(s: Seq<(Handle, ObjectType)>, h: Handle, o: ObjectType, k: Handle)
    ensures
        object_at(objects_insert(s, h, o), k) == (if k == h {
            Some(o)
        } else {
            object_at(s, k)
        }),
{
    lemma_first_index_facts(s, has_handle(h));
    let i = first_index(s, has_handle(h));
    if i >= 0 {
        if k == h {
            let t = s.update(i, (h, o));
            assert(is_first(t, has_handle(h), i)) by {
                assert forall|j: int| 0 <= j < i implies !(#[trigger] has_handle(h)(t[j])) by {
                    assert(t[j] == s[j]);
                }
            }
            lemma_first_index_is(t, has_handle(h), i);
        } else {
            lemma_first_match_update(s, has_handle(k), i, (h, o));
        }
    } else {
        lemma_first_match_push(s, has_handle(k), (h, o));
    }
}

/// Removing the object at `h` leaves the others in place.
pub proof fn lemma_object_at_remove(s: Seq<(Handle, ObjectType)>, h: Handle, k: Handle)
    requires
        unique_handles(s),
    ensures
        object_at(objects_remove(s, h), k) == (if k == h {
            None
        } else {
            object_at(s, k)
        }),
{
    lemma_first_index_facts(s, has_handle(h));
    let i = first_index(s, has_handle(h));
    if i >= 0 {
        if k == h {
            let t = s.remove(i);
            assert forall|j: int| 0 <= j < t.len() implies !(#[trigger] has_handle(h)(t[j])) by {
                if j < i {
                    assert(t[j] == s[j]);
                } else {
                    assert(t[j] == s[j + 1]);
                }
            }
            lemma_first_index_none(t, has_handle(h));
        } else {
            lemma_first_match_remove(s, has_handle(k), i);
        }
    } else {
        if k == h {
            lemma_first_index_none(s, has_handle(h));
        }
    }
}

/// Storing under a handle keeps handles distinct and below a seed above
/// the handle.
pub proof fn lemma_insert_keeps_handles(s: Seq<(Handle, ObjectType)>, h: Handle, o: ObjectType, seed: u64)
    requires
        unique_handles(s),
        handles_below(s, seed),
        h.0 < seed,
    ensures
        unique_handles(objects_insert(s, h, o)),
        handles_below(objects_insert(s, h, o), seed),
{
    lemma_first_index_facts(s, has_handle(h));
    let i = first_index(s, has_handle(h));
    let t = objects_insert(s, h, o);
    if i >= 0 {
        assert forall|a: int, b: int| 0 <= a < b < t.len() implies #[trigger] t[a].0 != #[trigger] t[b].0 by {
            assert(t[a].0 == s[a].0);
            assert(t[b].0 == s[b].0);
        }
        assert forall|a: int| 0 <= a < t.len() implies (#[trigger] t[a].0).0 < seed by {
            assert(t[a].0 == s[a].0);
        }
    } else {
        assert forall|a: int, b: int| 0 <= a < b < t.len() implies #[trigger] t[a].0 != #[trigger] t[b].0 by {
            if b == s.len() {
                assert(!has_handle(h)(s[a]));
            } else {
                assert(t[a] == s[a] && t[b] == s[b]);
            }
        }
        assert forall|a: int| 0 <= a < t.len() implies (#[trigger] t[a].0).0 < seed by {
            if a < s.len() {
                assert(t[a] == s[a]);
            }
        }
    }
}

/// Removing keeps handles distinct and below the seed.
pub proof fn lemma_remove_keeps_handles(s: Seq<(Handle, ObjectType)>, h: Handle, seed: u64)
    requires
        unique_handles(s),
        handles_below(s, seed),
    ensures
        unique_handles(objects_remove(s, h)),
        handles_below(objects_remove(s, h), seed),
{
    let i = first_index(s, has_handle(h));
    let t = objects_remove(s, h);
    if i >= 0 {
        lemma_first_index_facts(s, has_handle(h));
        assert forall|a: int, b: int| 0 <= a < b < t.len() implies #[trigger] t[a].0 != #[trigger] t[b].0 by {
            let a1 = if a < i { a } else { a + 1 };
            let b1 = if b < i { b } else { b + 1 };
            assert(t[a] == s[a1]);
            assert(t[b] == s[b1]);
        }
        assert forall|a: int| 0 <= a < t.len() implies (#[trigger] t[a].0).0 < seed by {
            let a1 = if a < i { a } else { a + 1 };
            assert(t[a] == s[a1]);
        }
    }
}

/// Every handle that a stored dictionary refers to is below `seed`.
pub open spec fn object_refs_below(o: ObjectType, seed: u64) -> bool {
    match o {
        ObjectType::Dictionary(d) => forall|j: int|
            0 <= j < d.entries@.len() ==> (#[trigger] d.entries@[j]).1.0 < seed,
        _ => true,
    }
}

/// Every handle that a stored dictionary refers to is below `seed`.
pub open spec fn refs_below(s: Seq<(Handle, ObjectType)>, seed: u64) -> bool {
    forall|i: int| 0 <= i < s.len() ==> object_refs_below(#[trigger] s[i].1, seed)
}

/// Storing an object whose references are below the seed keeps all
/// references below it; so does removing one.
pub proof fn lemma_refs_below_insert_remove(s: Seq<(Handle, ObjectType)>, h: Handle, o: ObjectType, seed: u64)
    requires
        refs_below(s, seed),
    ensures
        object_refs_below(o, seed) ==> refs_below(objects_insert(s, h, o), seed),
        refs_below(objects_remove(s, h), seed),
{
    let i = first_index(s, has_handle(h));
    if object_refs_below(o, seed) {
        let t = objects_insert(s, h, o);
        assert forall|a: int| 0 <= a < t.len() implies object_refs_below(#[trigger] t[a].1, seed) by {
            if i >= 0 && a == i {
            } else if a < s.len() {
                assert(t[a] == s[a]);
            }
        }
    }
    let t = objects_remove(s, h);
    if i >= 0 {
        lemma_first_index_facts(s, has_handle(h));
        assert forall|a: int| 0 <= a < t.len() implies object_refs_below(#[trigger] t[a].1, seed) by {
            let a1 = if a < i { a } else { a + 1 };
            assert(t[a] == s[a1]);
        }
    }
}

/// A stored object is one of the stored entries.
pub proof fn lemma_object_at_member(s: Seq<(Handle, ObjectType)>, h: Handle)
    ensures
        object_at(s, h) matches Some(o) ==> exists|i: int| 0 <= i < s.len() && s[i].1 == o && s[i].0 == h,
{
    lemma_first_index_facts(s, has_handle(h));
    let i = first_index(s, has_handle(h));
    if i >= 0 {
        assert(s[i].1 == object_at(s, h).unwrap());
    }
}

/// A handle at or above every stored handle is not stored.
pub proof fn lemma_fresh_handle(s: Seq<(Handle, ObjectType)>, seed: u64)
    requires
        handles_below(s, seed),
    ensures
        object_at(s, Handle(seed)) is None,
        first_index(s, has_handle(Handle(seed))) == -1,
{
    assert forall|j: int| 0 <= j < s.len() implies !(#[trigger] has_handle(Handle(seed))(s[j])) by {
        assert(s[j].0.0 < seed);
    }
    lemma_first_index_none(s, has_handle(Handle(seed)));
}

impl CadDocument {
    /// An empty drawing: the layer `0` (white, continuous, plotted), the
    /// line types ByBlock, ByLayer and Continuous, `0` as current layer,
    /// and no objects.
    pub fn new() -> (r: Self)
        ensures
            r.wf(),
            r.objects@.len() == 0,
            r.xdic_by_handle@.len() == 0,
            r.layers@.len() == 1,
            r.layers@[0].name@ == "0"@,
            r.line_types@.len() == 3,
            r.classes@.len() == 0,
            r.text_styles@.len() == 0 && r.dim_styles@.len() == 0 && r.app_ids@.len() == 0,
            r.views@.len() == 0 && r.vports@.len() == 0 && r.ucss@.len() == 0,
            r.vx_table@.len() == 0 && r.block_records@.len() == 0,
            r.entities@.len() == 0,
            r.header.current_layer_name@ == "0"@,
            r.header.current_layer_handle == r.layers@[0].handle,
    {
        let layer = Layer {
            handle: Handle(0x10),
            name: crate::text::owned("0"),
            flags: LayerFlags { off: false, frozen: false, locked: false, frozen_in_new_viewport: false },
            is_plottable: true,
            color: Color::from_index(7),
            line_type: crate::text::owned("Continuous"),
            line_weight: LineWeight(-3),
            plot_style: String::new(),
            transparency: Transparency(0),
        };
        let mut layers: Vec<Layer> = Vec::new();
        layers.push(layer);
        let mut line_types: Vec<LineType> = Vec::new();
        line_types.push(LineType { handle: Handle(0x14), name: crate::text::owned("ByBlock") });
        line_types.push(LineType { handle: Handle(0x15), name: crate::text::owned("ByLayer") });
        line_types.push(LineType { handle: Handle(0x16), name: crate::text::owned("Continuous") });
        CadDocument {
            header: Header {
                current_layer_name: crate::text::owned("0"),
                current_layer_handle: Handle(0x10),
                continuous_linetype_handle: Handle(0x16),
                bylayer_linetype_handle: Handle(0x15),
                current_linetype_handle: Handle(0x15),
                byblock_linetype_handle: Handle(0x14),
                current_text_style_handle: Handle(0),
                dim_text_style_handle: Handle(0),
                current_dimstyle_handle: Handle(0),
                model_space_block_handle: Handle(0),
                paper_space_block_handle: Handle(0),
                dim_linetype_handle: Handle(0),
                dim_linetype1_handle: Handle(0),
                dim_linetype2_handle: Handle(0),
                named_objects_dict_handle: Handle(0),
                handle_seed: 0x20,
            },
            layer_table_handle: Handle(0x2),
            layers,
            line_types,
            text_styles: Vec::new(),
            dim_styles: Vec::new(),
            app_ids: Vec::new(),
            views: Vec::new(),
            vports: Vec::new(),
            ucss: Vec::new(),
            vx_table: Vec::new(),
            block_records: Vec::new(),
            classes: Vec::new(),
            entities: Vec::new(),
            objects: Vec::new(),
            xdic_by_handle: Vec::new(),
        }
    }
}

impl CadDocument {
    /// No handle is stored twice, and every stored handle is below the
    /// handle seed (so that the next handle handed out is fresh).
    pub open spec fn wf(&self) -> bool {
        &&& unique_handles(self.objects@)
        &&& handles_below(self.objects@, self.header.handle_seed)
        &&& refs_below(self.objects@, self.header.handle_seed)
        &&& self.header.handle_seed > 0
    }

    /// The object stored under `h`.
    pub open spec fn spec_object(&self, h: Handle) -> Option<ObjectType> {
        object_at(self.objects@, h)
    }

    /// The extension dictionary registered for owner `h`.
    pub open spec fn spec_xdic(&self, h: Handle) -> Option<Handle> {
        match first_match(self.xdic_by_handle@, xdic_of(h)) {
            Some(e) => Some(e.1),
            None => None,
        }
    }

    /// Position of the object stored under `h`.
    pub fn find_object(&self, h: Handle) -> (r: Option<usize>)
        ensures
            r matches Some(i) ==> is_first(self.objects@, has_handle(h), i as int),
            r is None ==> first_index(self.objects@, has_handle(h)) == -1,
            r is None <==> first_index(self.objects@, has_handle(h)) == -1,
            r matches Some(i) ==> first_index(self.objects@, has_handle(h)) == i,
    {
        let mut i: usize = 0;
        while i < self.objects.len()
            invariant
                i <= self.objects@.len(),
                forall|j: int| 0 <= j < i ==> !(#[trigger] has_handle(h)(self.objects@[j])),
            decreases self.objects@.len() - i,
        {
            if self.objects[i].0 == h {
                proof {
                    lemma_first_index_is(self.objects@, has_handle(h), i as int);
                }
                return Some(i);
            }
            i = i + 1;
        }
        proof {
            lemma_first_index_none(self.objects@, has_handle(h));
        }
        None
    }

    /// The object stored under `h`.
    pub fn get_object(&self, h: Handle) -> (r: Option<&ObjectType>)
        ensures
            r matches Some(o) ==> self.spec_object(h) == Some(*o),
            r is None ==> self.spec_object(h) is None,
    {
        match self.find_object(h) {
            Some(i) => {
                proof {
                    lemma_first_index_is(self.objects@, has_handle(h), i as int);
                }
                Some(&self.objects[i].1)
            },
            None => None,
        }
    }

    /// Whether an object is stored under `h`.
    pub fn contains_object(&self, h: Handle) -> (r: bool)
        ensures
            r == self.spec_object(h) is Some,
    {
        self.find_object(h).is_some()
    }

    /// Store `o` under `h`, replacing the object stored there.
    pub fn insert_object(&mut self, h: Handle, o: ObjectType)
        ensures
            final(self).objects@ == objects_insert(old(self).objects@, h, o),
            *final(self) == (CadDocument { objects: final(self).objects, ..*old(self) }),
    {
        match self.find_object(h) {
            Some(i) => {
                let _ = self.objects.remove(i);
                self.objects.insert(i, (h, o));
                assert(self.objects@ =~= old(self).objects@.update(i as int, (h, o)));
            },
            None => {
                self.objects.push((h, o));
            },
        }
    }

    /// Remove and return the object stored under `h`.
    pub fn remove_object(&mut self, h: Handle) -> (r: Option<ObjectType>)
        ensures
            final(self).objects@ == objects_remove(old(self).objects@, h),
            r == old(self).spec_object(h),
            *final(self) == (CadDocument { objects: final(self).objects, ..*old(self) }),
    {
        match self.find_object(h) {
            Some(i) => {
                proof {
                    lemma_first_index_is(self.objects@, has_handle(h), i as int);
                }
                let (_, o) = self.objects.remove(i);
                Some(o)
            },
            None => None,
        }
    }

    /// Hand out the next free handle.
    pub fn allocate_handle(&mut self) -> (r: Handle)
        requires
            old(self).header.handle_seed < u64::MAX,
        ensures
            r.0 == old(self).header.handle_seed,
            *final(self) == (CadDocument {
                header: Header { handle_seed: (old(self).header.handle_seed + 1) as u64, ..old(self).header },
                ..*old(self)
            }),
    {
        let h = self.header.handle_seed;
        self.header.handle_seed = h + 1;
        Handle(h)
    }

    /// The extension dictionary registered for owner `h`.
    pub fn xdic(&self, h: Handle) -> (r: Option<Handle>)
        ensures
            r == self.spec_xdic(h),
    {
        let mut i: usize = 0;
        while i < self.xdic_by_handle.len()
            invariant
                i <= self.xdic_by_handle@.len(),
                forall|j: int| 0 <= j < i ==> !(#[trigger] xdic_of(h)(self.xdic_by_handle@[j])),
            decreases self.xdic_by_handle@.len() - i,
        {
            if self.xdic_by_handle[i].0 == h {
                proof {
                    lemma_first_index_is(self.xdic_by_handle@, xdic_of(h), i as int);
                }
                return Some(self.xdic_by_handle[i].1);
            }
            i = i + 1;
        }
        proof {
            lemma_first_index_none(self.xdic_by_handle@, xdic_of(h));
        }
        None
    }

    /// Register `dictionary` as the extension dictionary of `owner`.
    pub fn set_xdic(&mut self, owner: Handle, dictionary: Handle)
        ensures
            final(self).spec_xdic(owner) == Some(dictionary),
            *final(self) == (CadDocument { xdic_by_handle: final(self).xdic_by_handle, ..*old(self) }),
    {
        let mut i: usize = 0;
        while i < self.xdic_by_handle.len()
            invariant
                i <= self.xdic_by_handle@.len(),
                *self == *old(self),
                forall|j: int| 0 <= j < i ==> !(#[trigger] xdic_of(owner)(self.xdic_by_handle@[j])),
            decreases self.xdic_by_handle@.len() - i,
        {
            if self.xdic_by_handle[i].0 == owner {
                self.xdic_by_handle.set(i, (owner, dictionary));
                proof {
                    lemma_first_index_is(self.xdic_by_handle@, xdic_of(owner), i as int);
                }
                return;
            }
            i = i + 1;
        }
        self.xdic_by_handle.push((owner, dictionary));
        proof {
            let s = self.xdic_by_handle@;
            assert forall|j: int| 0 <= j < s.len() - 1 implies !(#[trigger] xdic_of(owner)(s[j])) by {
                assert(s[j] == old(self).xdic_by_handle@[j]);
            }
            assert(is_first(s, xdic_of(owner), s.len() - 1));
            lemma_first_index_is(s, xdic_of(owner), s.len() - 1);
        }
    }

    /// Position of the layer named `name` (ASCII case ignored).
    pub fn layer_index_by_name(&self, name: &str) -> (r: Option<usize>)
        ensures
            r matches Some(i) ==> first_index(self.layers@, layer_named(name@)) == i && i
                < self.layers@.len(),
            r is None ==> first_index(self.layers@, layer_named(name@)) == -1,
    {
        let mut i: usize = 0;
        while i < self.layers.len()
            invariant
                i <= self.layers@.len(),
                forall|j: int| 0 <= j < i ==> !(#[trigger] layer_named(name@)(self.layers@[j])),
            decreases self.layers@.len() - i,
        {
            if eq_ignore_ascii_case(self.layers[i].name.as_str(), name) {
                proof {
                    lemma_first_index_is(self.layers@, layer_named(name@), i as int);
                }
                return Some(i);
            }
            i = i + 1;
        }
        proof {
            lemma_first_index_none(self.layers@, layer_named(name@));
        }
        None
    }

    /// Position of the layer with handle `h`.
    pub fn layer_index_by_handle(&self, h: Handle) -> (r: Option<usize>)
        ensures
            r matches Some(i) ==> first_index(self.layers@, layer_with_handle(h)) == i && i
                < self.layers@.len(),
            r is None ==> first_index(self.layers@, layer_with_handle(h)) == -1,
    {
        let mut i: usize = 0;
        while i < self.layers.len()
            invariant
                i <= self.layers@.len(),
                forall|j: int| 0 <= j < i ==> !(#[trigger] layer_with_handle(h)(self.layers@[j])),
            decreases self.layers@.len() - i,
        {
            if self.layers[i].handle == h {
                proof {
                    lemma_first_index_is(self.layers@, layer_with_handle(h), i as int);
                }
                return Some(i);
            }
            i = i + 1;
        }
        proof {
            lemma_first_index_none(self.layers@, layer_with_handle(h));
        }
        None
    }

    /// Position of the line type named `name` (ASCII case ignored).
    pub fn line_type_index_by_name(&self, name: &str) -> (r: Option<usize>)
        ensures
            r matches Some(i) ==> first_index(self.line_types@, line_type_named(name@)) == i && i
                < self.line_types@.len(),
            r is None ==> first_index(self.line_types@, line_type_named(name@)) == -1,
    {
        let mut i: usize = 0;
        while i < self.line_types.len()
            invariant
                i <= self.line_types@.len(),
                forall|j: int|
                    0 <= j < i ==> !(#[trigger] line_type_named(name@)(self.line_types@[j])),
            decreases self.line_types@.len() - i,
        {
            if eq_ignore_ascii_case(self.line_types[i].name.as_str(), name) {
                proof {
                    lemma_first_index_is(self.line_types@, line_type_named(name@), i as int);
                }
                return Some(i);
            }
            i = i + 1;
        }
        proof {
            lemma_first_index_none(self.line_types@, line_type_named(name@));
        }
        None
    }

    /// Position of the line type with handle `h`.
    pub fn line_type_index_by_handle(&self, h: Handle) -> (r: Option<usize>)
        ensures
            r matches Some(i) ==> first_index(self.line_types@, line_type_with_handle(h)) == i
                && i < self.line_types@.len(),
            r is None ==> first_index(self.line_types@, line_type_with_handle(h)) == -1,
    {
        let mut i: usize = 0;
        while i < self.line_types.len()
            invariant
                i <= self.line_types@.len(),
                forall|j: int|
                    0 <= j < i ==> !(#[trigger] line_type_with_handle(h)(self.line_types@[j])),
            decreases self.line_types@.len() - i,
        {
            if self.line_types[i].handle == h {
                proof {
                    lemma_first_index_is(self.line_types@, line_type_with_handle(h), i as int);
                }
                return Some(i);
            }
            i = i + 1;
        }
        proof {
            lemma_first_index_none(self.line_types@, line_type_with_handle(h));
        }
        None
    }
}

/// Dictionary entries with entry `i` replaced by `e`, or `e` appended.
pub open spec fn entries_set(es: Seq<(String, Handle)>, i: Option<usize>, e: (String, Handle)) -> Seq<
    (String, Handle),
> {
    match i {
        Some(i) => es.update(i as int, e),
        None => es.push(e),
    }
}

impl CadDocument {
    /// The dictionary stored under `h`.
    pub open spec fn spec_dictionary(&self, h: Handle) -> Option<Dictionary> {
        match self.spec_object(h) {
            Some(ObjectType::Dictionary(d)) => Some(d),
            _ => None,
        }
    }

    /// Set an entry of the dictionary stored under `dict`: entry `index`
    /// becomes (`key`, `target`), or the pair is appended when `index` is
    /// `None`.
    pub fn set_dictionary_entry(&mut self, dict: Handle, index: Option<usize>, key: String, target: Handle)
        requires
            old(self).spec_dictionary(dict) matches Some(d) && (index matches Some(i) ==> i
                < d.entries@.len()),
        ensures
            exists|d2: Dictionary|
                {
                    &&& final(self).objects@ == objects_insert(
                        old(self).objects@,
                        dict,
                        ObjectType::Dictionary(d2),
                    )
                    &&& d2.entries@ == entries_set(
                        old(self).spec_dictionary(dict).unwrap().entries@,
                        index,
                        (key, target),
                    )
                    &&& d2.handle == old(self).spec_dictionary(dict).unwrap().handle
                    &&& d2.owner == old(self).spec_dictionary(dict).unwrap().owner
                    &&& d2.reactors == old(self).spec_dictionary(dict).unwrap().reactors
                    &&& d2.hard_owner == old(self).spec_dictionary(dict).unwrap().hard_owner
                },
            *final(self) == (CadDocument { objects: final(self).objects, ..*old(self) }),
    {
        let i = match self.find_object(dict) {
            Some(i) => i,
            None => {
                return;
            },
        };
        proof {
            lemma_first_index_is(self.objects@, has_handle(dict), i as int);
        }
        let (h, object) = self.objects.remove(i);
        match object {
            ObjectType::Dictionary(mut d) => {
                let ghost d0 = d;
                match index {
                    Some(k) => {
                        d.entries.set(k, (key, target));
                    },
                    None => {
                        d.entries.push((key, target));
                    },
                }
                proof {
                    assert(d.entries@ =~= entries_set(d0.entries@, index, (key, target)));
                }
                self.objects.insert(i, (h, ObjectType::Dictionary(d)));
                assert(self.objects@ =~= objects_insert(
                    old(self).objects@,
                    dict,
                    ObjectType::Dictionary(d),
                ));
            },
            other => {
                self.objects.insert(i, (h, other));
            },
        }
    }
}

impl CadDocument {
    /// Remove entry `index` of the dictionary stored under `dict`; returns
    /// the handle the entry referred to.
    pub fn remove_dictionary_entry(&mut self, dict: Handle, index: usize) -> (r: Handle)
        requires
            old(self).spec_dictionary(dict) matches Some(d) && index < d.entries@.len(),
        ensures
            r == old(self).spec_dictionary(dict).unwrap().entries@[index as int].1,
            exists|d2: Dictionary|
                {
                    &&& final(self).objects@ == objects_insert(
                        old(self).objects@,
                        dict,
                        ObjectType::Dictionary(d2),
                    )
                    &&& d2.entries@ == old(self).spec_dictionary(dict).unwrap().entries@.remove(
                        index as int,
                    )
                    &&& d2.handle == old(self).spec_dictionary(dict).unwrap().handle
                    &&& d2.owner == old(self).spec_dictionary(dict).unwrap().owner
                    &&& d2.reactors == old(self).spec_dictionary(dict).unwrap().reactors
                    &&& d2.hard_owner == old(self).spec_dictionary(dict).unwrap().hard_owner
                },
            *final(self) == (CadDocument { objects: final(self).objects, ..*old(self) }),
    {
        let i = match self.find_object(dict) {
            Some(i) => i,
            None => {
                return Handle(0);
            },
        };
        proof {
            lemma_first_index_is(self.objects@, has_handle(dict), i as int);
        }
        let (h, object) = self.objects.remove(i);
        match object {
            ObjectType::Dictionary(mut d) => {
                let (_, target) = d.entries.remove(index);
                self.objects.insert(i, (h, ObjectType::Dictionary(d)));
                assert(self.objects@ =~= objects_insert(
                    old(self).objects@,
                    dict,
                    ObjectType::Dictionary(d),
                ));
                target
            },
            other => {
                self.objects.insert(i, (h, other));
                Handle(0)
            },
        }
    }

    /// Rename the key of entry `index` of the dictionary stored under
    /// `dict`; returns the handle the entry refers to.
    pub fn rename_dictionary_entry(&mut self, dict: Handle, index: usize, key: String) -> (r: Handle)
        requires
            old(self).spec_dictionary(dict) matches Some(d) && index < d.entries@.len(),
        ensures
            r == old(self).spec_dictionary(dict).unwrap().entries@[index as int].1,
            exists|d2: Dictionary|
                {
                    &&& final(self).objects@ == objects_insert(
                        old(self).objects@,
                        dict,
                        ObjectType::Dictionary(d2),
                    )
                    &&& d2.entries@ == old(self).spec_dictionary(dict).unwrap().entries@.update(
                        index as int,
                        (key, r),
                    )
                    &&& d2.handle == old(self).spec_dictionary(dict).unwrap().handle
                    &&& d2.owner == old(self).spec_dictionary(dict).unwrap().owner
                    &&& d2.reactors == old(self).spec_dictionary(dict).unwrap().reactors
                    &&& d2.hard_owner == old(self).spec_dictionary(dict).unwrap().hard_owner
                },
            *final(self) == (CadDocument { objects: final(self).objects, ..*old(self) }),
    {
        let i = match self.find_object(dict) {
            Some(i) => i,
            None => {
                return Handle(0);
            },
        };
        proof {
            lemma_first_index_is(self.objects@, has_handle(dict), i as int);
        }
        let (h, object) = self.objects.remove(i);
        match object {
            ObjectType::Dictionary(mut d) => {
                let target = d.entries[index].1;
                d.entries.set(index, (key, target));
                self.objects.insert(i, (h, ObjectType::Dictionary(d)));
                assert(self.objects@ =~= objects_insert(
                    old(self).objects@,
                    dict,
                    ObjectType::Dictionary(d),
                ));
                target
            },
            other => {
                self.objects.insert(i, (h, other));
                Handle(0)
            },
        }
    }
}

} // verus!
