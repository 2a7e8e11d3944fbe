//! The properties every DWG entity record carries, and how the document
//! builder turns them into an entity's common data: owner from the entity
//! mode, layer and line type names from the table handles, and the line
//! weight from its DWG index.
use vstd::prelude::*;

use crate::dwg_builder::{lookup, name_or, HandleMaps};
use crate::text::owned;
use crate::types::{Color, Handle, LineWeight, Transparency};

verus! {

broadcast use vstd::std_specs::hash::group_hash_axioms;

/// An entity's common data as the object stream holds it: handles as raw
/// values, the line weight as its DWG index, the line type as two flag bits
/// and a handle, and the line type scale as the bit pattern of an `f64`.
pub struct EntityCommonData {
    pub handle: u64,
    pub owner_handle: u64,
    pub entity_mode: u8,
    pub color: Color,
    pub transparency: Transparency,
    pub invisible: bool,
    pub linetype_scale: u64,
    pub layer_handle: u64,
    pub line_weight: u8,
    pub reactors: Vec<u64>,
    pub xdictionary_handle: Option<u64>,
    pub linetype_flags: u8,
    pub linetype_handle: u64,
    pub eed_raw: Vec<u8>,
    pub graphic_data: Option<Vec<u8>>,
    pub material_flags: u8,
    pub material_handle: Option<u64>,
    pub shadow_flags: u8,
    pub plotstyle_flags: u8,
    pub plotstyle_handle: Option<u64>,
    pub has_ds_data: bool,
}

/// An entity's common data in the document: owner, layer and line type by
/// name, with what a DWG write-back needs kept alongside.
pub struct EntityCommon {
    pub handle: Handle,
    pub owner_handle: Handle,
    pub color: Color,
    pub transparency: Transparency,
    pub invisible: bool,
    pub linetype_scale: u64,
    pub layer: String,
    pub line_weight: LineWeight,
    pub reactors: Vec<Handle>,
    pub xdictionary_handle: Option<Handle>,
    pub linetype: String,
    pub raw_dwg_eed: Vec<u8>,
    pub graphic_data: Option<Vec<u8>>,
    pub entity_mode: Option<u8>,
    pub material_flags: u8,
    pub material_handle: Option<Handle>,
    pub shadow_flags: u8,
    pub plotstyle_flags: u8,
    pub plotstyle_handle: Option<Handle>,
    pub has_ds_data: bool,
}

/// The line weights that DWG indices 0 to 23 stand for, in hundredths of a
/// millimetre.
pub open spec fn indexed_line_weights() -> Seq<i16> {
    seq![0, 5, 9, 13, 15, 18, 20, 25, 30, 35, 40, 50, 53, 60, 70, 80, 90, 100, 106, 120, 140, 158,
        200, 211]
}

/// The line weight of a DWG index: the table above, 28 and 29 ByLayer (-1),
/// 30 ByBlock (-2), and anything else Default (-3).
pub open spec fn dwg_index_weight(index: u8) -> i16 {
    if index < 24 {
        indexed_line_weights()[index as int]
    } else if index == 28 || index == 29 {
        -1i16
    } else if index == 30 {
        -2i16
    } else {
        -3i16
    }
}

/// The owner an entity mode gives: 1 paper space, 2 model space, and the
/// stored owner otherwise.
pub open spec fn mode_owner(mode: u8, owner: u64, model_space: Handle, paper_space: Handle) -> Handle {
    if mode == 1 {
        paper_space
    } else if mode == 2 {
        model_space
    } else {
        Handle(owner)
    }
}

/// The line type name of the flag bits: empty for ByLayer (0), `ByBlock`
/// (1), `Continuous` (2), and for 3 the name of the line type handle, empty
/// when it is unknown.
pub open spec fn linetype_of(flags: u8, handle: u64, linetypes: Map<u64, String>) -> Seq<char> {
    if flags == 1 {
        "ByBlock"@
    } else if flags == 2 {
        "Continuous"@
    } else if flags == 3 {
        name_or(linetypes, handle, ""@)
    } else {
        ""@
    }
}

pub open spec fn handle_of(h: Option<u64>) -> Option<Handle> {
    match h {
        Some(v) => Some(Handle(v)),
        None => None,
    }
}

impl LineWeight {
    pub fn from_dwg_index(index: u8) -> (r: LineWeight)
        ensures
            r.0 == dwg_index_weight(index),
    {
        let table: [i16; 24] = [
            0, 5, 9, 13, 15, 18, 20, 25, 30, 35, 40, 50, 53, 60, 70, 80, 90, 100, 106, 120, 140,
            158, 200, 211,
        ];
        if index < 24 {
            assert(table@ =~= indexed_line_weights());
            LineWeight(table[index as usize])
        } else if index == 28 || index == 29 {
            LineWeight(-1)
        } else if index == 30 {
            LineWeight(-2)
        } else {
            LineWeight(-3)
        }
    }
}

fn copy_bytes(v: &Vec<u8>) -> (r: Vec<u8>)
    ensures
        r@ == v@,
{
    let mut out: Vec<u8> = Vec::new();
    let mut i: usize = 0;
    while i < v.len()
        invariant
            i <= v.len(),
            out@ == v@.take(i as int),
        decreases v.len() - i,
    {
        out.push(v[i]);
        i = i + 1;
        assert(out@ =~= v@.take(i as int));
    }
    assert(v@.take(v.len() as int) =~= v@);
    out
}

fn option_handle(h: Option<u64>) -> (r: Option<Handle>)
    ensures
        r == handle_of(h),
{
    match h {
        Some(v) => Some(Handle(v)),
        None => None,
    }
}

/// An entity's common data with owner, names and line weight resolved.
pub fn map_entity_common(
    data: &EntityCommonData,
    maps: &HandleMaps,
    model_space_handle: Handle,
    paper_space_handle: Handle,
) -> (r: EntityCommon)
    ensures
        r.handle == Handle(data.handle),
        r.owner_handle == mode_owner(
            data.entity_mode,
            data.owner_handle,
            model_space_handle,
            paper_space_handle,
        ),
        r.color == data.color,
        r.transparency == data.transparency,
        r.invisible == data.invisible,
        r.linetype_scale == data.linetype_scale,
        r.layer@ == name_or(maps.layers@, data.layer_handle, "0"@),
        r.line_weight.0 == dwg_index_weight(data.line_weight),
        r.reactors@ == data.reactors@.map_values(|h: u64| Handle(h)),
        r.xdictionary_handle == handle_of(data.xdictionary_handle),
        r.linetype@ == linetype_of(data.linetype_flags, data.linetype_handle, maps.linetypes@),
        r.raw_dwg_eed@ == data.eed_raw@,
        r.graphic_data is Some <==> data.graphic_data is Some,
        data.graphic_data matches Some(g) ==> r.graphic_data.unwrap()@ == g@,
        r.entity_mode == Some(data.entity_mode),
        r.material_flags == data.material_flags,
        r.material_handle == handle_of(data.material_handle),
        r.shadow_flags == data.shadow_flags,
        r.plotstyle_flags == data.plotstyle_flags,
        r.plotstyle_handle == handle_of(data.plotstyle_handle),
        r.has_ds_data == data.has_ds_data,
{
    let owner_handle = match data.entity_mode {
        1 => paper_space_handle,
        2 => model_space_handle,
        _ => Handle(data.owner_handle),
    };
    let mut reactors: Vec<Handle> = Vec::new();
    let mut i: usize = 0;
    while i < data.reactors.len()
        invariant
            i <= data.reactors.len(),
            reactors@ == data.reactors@.take(i as int).map_values(|h: u64| Handle(h)),
        decreases data.reactors.len() - i,
    {
        reactors.push(Handle(data.reactors[i]));
        i = i + 1;
        assert(reactors@ =~= data.reactors@.take(i as int).map_values(|h: u64| Handle(h)));
    }
    assert(data.reactors@.take(data.reactors.len() as int) =~= data.reactors@);
    let linetype = match data.linetype_flags {
        0 => owned(""),
        1 => owned("ByBlock"),
        2 => owned("Continuous"),
        3 => match lookup(&maps.linetypes, data.linetype_handle) {
            Some(s) => s,
            None => owned(""),
        },
        _ => owned(""),
    };
    let graphic_data = match &data.graphic_data {
        Some(g) => Some(copy_bytes(g)),
        None => None,
    };
    EntityCommon {
        handle: Handle(data.handle),
        owner_handle,
        color: data.color,
        transparency: data.transparency,
        invisible: data.invisible,
        linetype_scale: data.linetype_scale,
        layer: maps.layer_name(data.layer_handle),
        line_weight: LineWeight::from_dwg_index(data.line_weight),
        reactors,
        xdictionary_handle: option_handle(data.xdictionary_handle),
        linetype,
        raw_dwg_eed: copy_bytes(&data.eed_raw),
        graphic_data,
        entity_mode: Some(data.entity_mode),
        material_flags: data.material_flags,
        material_handle: option_handle(data.material_handle),
        shadow_flags: data.shadow_flags,
        plotstyle_flags: data.plotstyle_flags,
        plotstyle_handle: option_handle(data.plotstyle_handle),
        has_ds_data: data.has_ds_data,
    }
}

} // verus!
