//! Releases before R2000 keep a viewport's view parameters in the ACAD
//! extended data, inside a group that starts with the string `MVIEW`.
//! `record` writes that group from a viewport and `restore` reads it back.
use vstd::prelude::*;

use crate::document::{CadDocument, Layer};
use crate::seqs::{first_index, first_match};
use crate::text::{owned, same_text};
use crate::types::{Handle, Vector3};
use crate::viewport::{flag_bit, status_bits, status_from_bits, Viewport, ViewportStatusFlags};
use crate::xdata::{
    extend_copies, first_record, values_view, ExtendedDataRecord, XDataValue, XValue,
};

verus! {

/// The value is the control string `{`.
pub open spec fn opens(v: XValue) -> bool {
    v == XValue::ControlString("{"@)
}

/// The value is the control string `}`.
pub open spec fn closes(v: XValue) -> bool {
    v == XValue::ControlString("}"@)
}

/// An MVIEW group starts at `i`: the string `MVIEW` followed by `{`.
pub open spec fn starts_mview(vals: Seq<XValue>, i: int) -> bool {
    &&& vals[i] == XValue::String("MVIEW"@)
    &&& opens(vals[i + 1])
}

/// Scanning from `i` with `depth` groups open, the index of the value that
/// closes the outermost one.
pub open spec fn closing_index(vals: Seq<XValue>, i: int, depth: int) -> Option<int>
    decreases vals.len() - i,
{
    if i >= vals.len() {
        None
    } else if opens(vals[i]) {
        closing_index(vals, i + 1, depth + 1)
    } else if closes(vals[i]) {
        if depth - 1 == 0 {
            Some(i)
        } else {
            closing_index(vals, i + 1, depth - 1)
        }
    } else {
        closing_index(vals, i + 1, depth)
    }
}

/// The first complete MVIEW group at or after `start`, as the range from
/// its `MVIEW` string to just past its closing `}`.
pub open spec fn mview_range_from(vals: Seq<XValue>, start: int) -> Option<(int, int)>
    decreases vals.len() - start,
{
    if start + 1 >= vals.len() {
        None
    } else if starts_mview(vals, start) {
        match closing_index(vals, start + 1, 0) {
            Some(j) => Some((start, j + 1)),
            None => mview_range_from(vals, start + 1),
        }
    } else {
        mview_range_from(vals, start + 1)
    }
}

/// The value is the control string `{`.
fn is_open(v: &XDataValue) -> (r: bool)
    ensures
        r == opens(v@),
{
    match v {
        XDataValue::ControlString(s) => same_text(s.as_str(), "{"),
        _ => false,
    }
}

/// The value is the control string `}`.
fn is_close(v: &XDataValue) -> (r: bool)
    ensures
        r == closes(v@),
{
    match v {
        XDataValue::ControlString(s) => same_text(s.as_str(), "}"),
        _ => false,
    }
}

/// The value is the string `MVIEW`.
fn is_mview_name(v: &XDataValue) -> (r: bool)
    ensures
        r == (v@ == XValue::String("MVIEW"@)),
{
    match v {
        XDataValue::String(s) => same_text(s.as_str(), "MVIEW"),
        _ => false,
    }
}

/// The index of the `}` that closes the group opened at `from`.
fn closing_after(values: &Vec<XDataValue>, from: usize) -> (r: Option<usize>)
    requires
        from < values@.len(),
        opens(values@[from as int]@),
    ensures
        match r {
            Some(j) => closing_index(values_view(values@), from as int, 0) == Some(j as int),
            None => closing_index(values_view(values@), from as int, 0) is None,
        },
{
    let ghost vals = values_view(values@);
    let mut depth: usize = 0;
    let mut index: usize = from;
    while index < values.len()
        invariant
            vals == values_view(values@),
            from < values@.len(),
            opens(vals[from as int]),
            from <= index <= values@.len(),
            index == from ==> depth == 0,
            index > from ==> depth >= 1,
            depth <= index - from,
            closing_index(vals, from as int, 0) == closing_index(vals, index as int, depth as int),
        decreases values@.len() - index,
    {
        assert(vals[index as int] == values@[index as int]@);
        if is_open(&values[index]) {
            depth = depth + 1;
        } else if is_close(&values[index]) {
            if depth - 1 == 0 {
                return Some(index);
            }
            depth = depth - 1;
        }
        index = index + 1;
    }
    None
}

/// The first complete MVIEW group of `values`: from the index of its
/// `MVIEW` string to just past its closing `}`.
pub fn mview_range(values: &Vec<XDataValue>) -> (r: Option<(usize, usize)>)
    ensures
        match r {
            Some((a, b)) => mview_range_from(values_view(values@), 0) == Some((a as int, b as int)),
            None => mview_range_from(values_view(values@), 0) is None,
        },
{
    let ghost vals = values_view(values@);
    if values.len() < 2 {
        return None;
    }
    let mut start: usize = 0;
    while start < values.len() - 1
        invariant
            vals == values_view(values@),
            values@.len() >= 2,
            start <= values@.len() - 1,
            mview_range_from(vals, 0) == mview_range_from(vals, start as int),
        decreases values@.len() - start,
    {
        assert(vals[start as int] == values@[start as int]@);
        assert(vals[start + 1] == values@[start + 1]@);
        if is_mview_name(&values[start]) && is_open(&values[start + 1]) {
            match closing_after(values, start + 1) {
                Some(j) => {
                    proof {
                        lemma_closing_bounds(vals, start + 1, 0);
                    }
                    return Some((start, j + 1));
                },
                None => {},
            }
        }
        start = start + 1;
    }
    None
}

/// The ACAD record of the viewport, if it has one.
pub open spec fn acad_record(v: Viewport) -> Option<ExtendedDataRecord> {
    first_record(v.common.extended_data.records@, "ACAD"@)
}

/// The names of the layers of `layers` that `frozen` lists, in table order.
pub open spec fn frozen_layer_names(layers: Seq<Layer>, frozen: Seq<Handle>) -> Seq<Seq<char>>
    decreases layers.len(),
{
    if layers.len() == 0 {
        seq![]
    } else {
        let rest = frozen_layer_names(layers.drop_last(), frozen);
        if frozen.contains(layers.last().handle) {
            rest.push(layers.last().name@)
        } else {
            rest
        }
    }
}

/// 1 for a set flag, 0 otherwise.
pub open spec fn int_flag(b: bool) -> i16 {
    if b {
        1
    } else {
        0
    }
}

/// The isometric snap plane: 2 right, 1 top, 0 left.
pub open spec fn iso_pair(s: ViewportStatusFlags) -> i16 {
    if s.iso_pair_right {
        2
    } else if s.iso_pair_top {
        1
    } else {
        0
    }
}

/// The start of the MVIEW group: its name, the opening `{`, the version
/// and the view geometry.
pub open spec fn mview_view_part(v: Viewport) -> Seq<XValue> {
    seq![
        XValue::String("MVIEW"@),
        XValue::ControlString("{"@),
        XValue::Integer16(16),
        XValue::Point3D(v.view_target),
        XValue::Point3D(v.view_direction),
        XValue::Real(v.twist_angle_degrees),
        XValue::Real(v.view_height),
        XValue::Real(v.view_center.x),
        XValue::Real(v.view_center.y),
        XValue::Real(v.lens_length),
        XValue::Real(v.front_clip_z),
        XValue::Real(v.back_clip_z),
    ]
}

/// The flags of the MVIEW group.
pub open spec fn mview_flags_part(v: Viewport) -> Seq<XValue> {
    seq![
        XValue::Integer16((status_bits(v.status) & 0x1f) as i16),
        XValue::Integer16(v.circle_sides),
        XValue::Integer16(int_flag(v.status.fast_zoom)),
        XValue::Integer16((int_flag(v.ucs_icon_visible) + 2 * int_flag(v.ucs_at_origin)) as i16),
        XValue::Integer16(int_flag(v.status.snap_on)),
        XValue::Integer16(int_flag(v.status.grid_on)),
        XValue::Integer16(int_flag(v.status.isometric_snap)),
        XValue::Integer16(iso_pair(v.status)),
    ]
}

/// The snap and grid settings of the MVIEW group, and the `{` that opens
/// its frozen-layer list.
pub open spec fn mview_snap_part(v: Viewport) -> Seq<XValue> {
    seq![
        XValue::Real(v.snap_angle_degrees),
        XValue::Real(v.snap_base.x),
        XValue::Real(v.snap_base.y),
        XValue::Real(v.snap_spacing.x),
        XValue::Real(v.snap_spacing.y),
        XValue::Real(v.grid_spacing.x),
        XValue::Real(v.grid_spacing.y),
        XValue::Integer16(int_flag(v.status.hide_plot)),
        XValue::ControlString("{"@),
    ]
}

/// The MVIEW group of a viewport up to the `{` that opens the frozen-layer
/// list.
pub open spec fn mview_head(v: Viewport) -> Seq<XValue> {
    mview_view_part(v) + mview_flags_part(v) + mview_snap_part(v)
}

/// The whole MVIEW group of a viewport whose frozen layers are named
/// `names`.
pub open spec fn mview_block(v: Viewport, names: Seq<Seq<char>>) -> Seq<XValue> {
    mview_head(v) + names.map_values(|n: Seq<char>| XValue::LayerName(n)) + seq![
        XValue::ControlString("}"@),
        XValue::ControlString("}"@),
    ]
}

/// The values of the viewport's ACAD record, or none.
pub open spec fn acad_values(v: Viewport) -> Seq<XValue> {
    match acad_record(v) {
        Some(r) => values_view(r.values@),
        None => seq![],
    }
}

/// The ACAD values with the MVIEW group written in place of the first
/// complete one, or appended when there is none.
pub open spec fn recorded_values(v: Viewport, layers: Seq<Layer>) -> Seq<XValue> {
    let vals = acad_values(v);
    let block = mview_block(v, frozen_layer_names(layers, v.frozen_layers@));
    match mview_range_from(vals, 0) {
        Some((a, b)) => vals.subrange(0, a) + block + vals.subrange(b, vals.len() as int),
        None => vals + block,
    }
}

fn flag16(b: bool) -> (r: i16)
    ensures
        r == int_flag(b),
{
    if b {
        1
    } else {
        0
    }
}

fn push_value(out: &mut Vec<XDataValue>, v: XDataValue)
    ensures
        values_view(final(out)@) == values_view(old(out)@).push(v@),
{
    out.push(v);
    assert(values_view(out@) =~= values_view(old(out)@).push(v@));
}

fn empty_values() -> (r: Vec<XDataValue>)
    ensures
        values_view(r@) == Seq::<XValue>::empty(),
{
    let r: Vec<XDataValue> = Vec::new();
    assert(values_view(r@) =~= Seq::<XValue>::empty());
    r
}

fn mview_view_values(v: &Viewport) -> (r: Vec<XDataValue>)
    ensures
        values_view(r@) == mview_view_part(*v),
{
    let mut out = empty_values();
    push_value(&mut out, XDataValue::String(owned("MVIEW")));
    push_value(&mut out, XDataValue::ControlString(owned("{")));
    push_value(&mut out, XDataValue::Integer16(16));
    push_value(&mut out, XDataValue::Point3D(v.view_target));
    push_value(&mut out, XDataValue::Point3D(v.view_direction));
    push_value(&mut out, XDataValue::Real(v.twist_angle_degrees));
    push_value(&mut out, XDataValue::Real(v.view_height));
    push_value(&mut out, XDataValue::Real(v.view_center.x));
    push_value(&mut out, XDataValue::Real(v.view_center.y));
    push_value(&mut out, XDataValue::Real(v.lens_length));
    push_value(&mut out, XDataValue::Real(v.front_clip_z));
    push_value(&mut out, XDataValue::Real(v.back_clip_z));
    out
}

fn mview_flag_values(v: &Viewport) -> (r: Vec<XDataValue>)
    ensures
        values_view(r@) == mview_flags_part(*v),
{
    let mut out = empty_values();
    push_value(&mut out, XDataValue::Integer16((v.status.to_bits() & 0x1f) as i16));
    push_value(&mut out, XDataValue::Integer16(v.circle_sides));
    push_value(&mut out, XDataValue::Integer16(flag16(v.status.fast_zoom)));
    push_value(
        &mut out,
        XDataValue::Integer16(flag16(v.ucs_icon_visible) + 2 * flag16(v.ucs_at_origin)),
    );
    push_value(&mut out, XDataValue::Integer16(flag16(v.status.snap_on)));
    push_value(&mut out, XDataValue::Integer16(flag16(v.status.grid_on)));
    push_value(&mut out, XDataValue::Integer16(flag16(v.status.isometric_snap)));
    let pair: i16 = if v.status.iso_pair_right {
        2
    } else if v.status.iso_pair_top {
        1
    } else {
        0
    };
    push_value(&mut out, XDataValue::Integer16(pair));
    out
}

fn mview_snap_values(v: &Viewport) -> (r: Vec<XDataValue>)
    ensures
        values_view(r@) == mview_snap_part(*v),
{
    let mut out = empty_values();
    push_value(&mut out, XDataValue::Real(v.snap_angle_degrees));
    push_value(&mut out, XDataValue::Real(v.snap_base.x));
    push_value(&mut out, XDataValue::Real(v.snap_base.y));
    push_value(&mut out, XDataValue::Real(v.snap_spacing.x));
    push_value(&mut out, XDataValue::Real(v.snap_spacing.y));
    push_value(&mut out, XDataValue::Real(v.grid_spacing.x));
    push_value(&mut out, XDataValue::Real(v.grid_spacing.y));
    push_value(&mut out, XDataValue::Integer16(flag16(v.status.hide_plot)));
    push_value(&mut out, XDataValue::ControlString(owned("{")));
    out
}

/// The MVIEW group up to the `{` of the frozen-layer list.
fn mview_head_values(v: &Viewport) -> (r: Vec<XDataValue>)
    ensures
        values_view(r@) == mview_head(*v),
{
    let mut out = mview_view_values(v);
    append_values(&mut out, mview_flag_values(v));
    append_values(&mut out, mview_snap_values(v));
    out
}

/// Whether `frozen` lists `h`.
fn lists_handle(frozen: &Vec<Handle>, h: Handle) -> (r: bool)
    ensures
        r == frozen@.contains(h),
{
    let mut i: usize = 0;
    while i < frozen.len()
        invariant
            i <= frozen@.len(),
            forall|j: int| 0 <= j < i ==> frozen@[j] != h,
        decreases frozen@.len() - i,
    {
        if frozen[i] == h {
            return true;
        }
        i = i + 1;
    }
    false
}

/// The whole MVIEW group of `v`, naming the layers of `layers` that the
/// viewport freezes.
fn mview_block_values(v: &Viewport, layers: &Vec<Layer>) -> (r: Vec<XDataValue>)
    ensures
        values_view(r@) == mview_block(*v, frozen_layer_names(layers@, v.frozen_layers@)),
{
    let mut out = mview_head_values(v);
    let mut i: usize = 0;
    while i < layers.len()
        invariant
            i <= layers@.len(),
            values_view(out@) == mview_head(*v) + frozen_layer_names(
                layers@.take(i as int),
                v.frozen_layers@,
            ).map_values(|n: Seq<char>| XValue::LayerName(n)),
        decreases layers@.len() - i,
    {
        let ghost names = frozen_layer_names(layers@.take(i as int), v.frozen_layers@);
        proof {
            assert(layers@.take(i + 1).drop_last() =~= layers@.take(i as int));
            assert(layers@.take(i + 1).last() == layers@[i as int]);
        }
        if lists_handle(&v.frozen_layers, layers[i].handle) {
            push_value(&mut out, XDataValue::LayerName(owned(layers[i].name.as_str())));
            assert(names.push(layers@[i as int].name@).map_values(
                |n: Seq<char>| XValue::LayerName(n),
            ) =~= names.map_values(|n: Seq<char>| XValue::LayerName(n)).push(
                XValue::LayerName(layers@[i as int].name@),
            ));
        }
        i = i + 1;
    }
    assert(layers@.take(layers@.len() as int) =~= layers@);
    push_value(&mut out, XDataValue::ControlString(owned("}")));
    push_value(&mut out, XDataValue::ControlString(owned("}")));
    assert(values_view(out@) =~= mview_block(*v, frozen_layer_names(layers@, v.frozen_layers@)));
    out
}

/// Move the values of `more` to the end of `out`.
fn append_values(out: &mut Vec<XDataValue>, more: Vec<XDataValue>)
    ensures
        values_view(final(out)@) == values_view(old(out)@) + values_view(more@),
{
    let ghost added = more@;
    let mut more = more;
    out.append(&mut more);
    assert(values_view(out@) =~= values_view(old(out)@) + values_view(added));
}

/// The ACAD extended-data record of `v` with its MVIEW group rewritten
/// from the viewport: the group replaces the first complete MVIEW group of
/// the viewport's ACAD record, or is appended to it; a viewport without
/// one gets a new ACAD record. The layers of `document` that the viewport
/// freezes are listed by name.
pub fn record(v: &Viewport, document: &CadDocument) -> (r: ExtendedDataRecord)
    ensures
        r.application_name@ == match acad_record(*v) {
            Some(a) => a.application_name@,
            None => "ACAD"@,
        },
        values_view(r.values@) == recorded_values(*v, document.layers@),
{
    let mut values: Vec<XDataValue> = Vec::new();
    let found = v.common.extended_data.find_record("ACAD");
    match found {
        Some(k) => {
            let existing = &v.common.extended_data.records[k];
            proof {
                crate::seqs::lemma_first_index_facts(
                    v.common.extended_data.records@,
                    crate::xdata::record_for("ACAD"@),
                );
                let fi = first_index(v.common.extended_data.records@, crate::xdata::record_for("ACAD"@));
                assert(fi >= 0);
                assert(fi == k as int);
                assert(acad_record(*v) == Some(v.common.extended_data.records@[k as int]));
            }
            let name = owned(existing.application_name.as_str());
            match mview_range(&existing.values) {
                Some((a, b)) => {
                    proof {
                        lemma_range_bounds(values_view(existing.values@), 0);
                    }
                    extend_copies(&mut values, &existing.values, 0, a);
                    append_values(&mut values, mview_block_values(v, &document.layers));
                    extend_copies(&mut values, &existing.values, b, existing.values.len());
                    proof {
                        assert(values_view(existing.values@).subrange(0, a as int) == values_view(
                            existing.values@,
                        ).subrange(0, a as int));
                    }
                },
                None => {
                    extend_copies(&mut values, &existing.values, 0, existing.values.len());
                    proof {
                        assert(values_view(existing.values@).subrange(
                            0,
                            existing.values@.len() as int,
                        ) =~= values_view(existing.values@));
                    }
                    append_values(&mut values, mview_block_values(v, &document.layers));
                },
            }
            ExtendedDataRecord { application_name: name, values }
        },
        None => {
            proof {
                assert(acad_record(*v) is None);
                assert(acad_values(*v) =~= Seq::<XValue>::empty());
            }
            append_values(&mut values, mview_block_values(v, &document.layers));
            proof {
                assert(values_view(values@) =~= recorded_values(*v, document.layers@));
            }
            ExtendedDataRecord { application_name: owned("ACAD"), values }
        },
    }
}

/// A group found by `mview_range_from` lies inside the values, starts
/// with `MVIEW` and `{`, and spans at least those two values.
proof fn lemma_range_bounds(vals: Seq<XValue>, start: int)
    requires
        0 <= start,
    ensures
        mview_range_from(vals, start) matches Some((a, b)) ==> start <= a && a + 2 <= b
            <= vals.len() && starts_mview(vals, a) && closing_index(vals, a + 1, 0) == Some(b - 1),
    decreases vals.len() - start,
{
    if start + 1 >= vals.len() {
    } else if starts_mview(vals, start) {
        match closing_index(vals, start + 1, 0) {
            Some(j) => {
                lemma_closing_bounds(vals, start + 1, 0);
            },
            None => {
                lemma_range_bounds(vals, start + 1);
            },
        }
    } else {
        lemma_range_bounds(vals, start + 1);
    }
}

proof fn lemma_closing_bounds(vals: Seq<XValue>, i: int, depth: int)
    ensures
        closing_index(vals, i, depth) matches Some(j) ==> i <= j < vals.len() && closes(vals[j]),
    decreases vals.len() - i,
{
    if i >= vals.len() {
    } else if opens(vals[i]) {
        lemma_closing_bounds(vals, i + 1, depth + 1);
    } else if closes(vals[i]) {
        if depth - 1 != 0 {
            lemma_closing_bounds(vals, i + 1, depth - 1);
        }
    } else {
        lemma_closing_bounds(vals, i + 1, depth);
    }
}

/// The values of the viewport's first complete MVIEW group after its
/// `MVIEW` string, up to and including its closing `}`.
pub open spec fn mview_payload(v: Viewport) -> Option<Seq<XValue>> {
    match acad_record(v) {
        Some(r) => {
            let vals = values_view(r.values@);
            match mview_range_from(vals, 0) {
                Some((a, b)) => Some(vals.subrange(a + 1, b)),
                None => None,
            }
        },
        None => None,
    }
}

/// The payload has the shape `record` writes: `{`, the version 16, two
/// points, seven reals, eight integers, seven reals, one integer and the
/// `{` of the frozen-layer list.
pub open spec fn mview_well_formed(w: Seq<XValue>) -> bool {
    &&& w.len() >= 30
    &&& opens(w[0])
    &&& w[1] == XValue::Integer16(16)
    &&& w[2] is Point3D
    &&& w[3] is Point3D
    &&& opens(w[27])
    &&& forall|i: int| 4 <= i < 11 ==> #[trigger] w[i] is Real
    &&& forall|i: int| 11 <= i < 19 ==> #[trigger] w[i] is Integer16
    &&& forall|i: int| 19 <= i < 26 ==> #[trigger] w[i] is Real
    &&& w[26] is Integer16
}

/// The payload a viewport is restored from: the MVIEW payload when it is
/// well formed.
pub open spec fn restorable(v: Viewport) -> Option<Seq<XValue>> {
    match mview_payload(v) {
        Some(w) => if mview_well_formed(w) {
            Some(w)
        } else {
            None
        },
        None => None,
    }
}

/// The `i`-th parameter of a payload as a real (0 when it is not one).
pub open spec fn real_at(w: Seq<XValue>, i: int) -> u64 {
    match w[i + 2] {
        XValue::Real(x) => x,
        _ => 0,
    }
}

/// The `i`-th parameter of a payload as an integer (0 when it is not one).
pub open spec fn int_at(w: Seq<XValue>, i: int) -> i16 {
    match w[i + 2] {
        XValue::Integer16(x) => x,
        _ => 0,
    }
}

/// The `i`-th parameter of a payload as a point (the origin when it is not
/// one).
pub open spec fn point_at(w: Seq<XValue>, i: int) -> Vector3 {
    match w[i + 2] {
        XValue::Point3D(p) => p,
        _ => Vector3 { x: 0, y: 0, z: 0 },
    }
}

/// The status flags a payload restores: the low flags from its status
/// word (with the always-enabled bit), the others from their own values.
pub open spec fn restored_status(w: Seq<XValue>) -> ViewportStatusFlags {
    let s = status_from_bits((int_at(w, 9) as i32) | 0x8000);
    ViewportStatusFlags {
        fast_zoom: int_at(w, 11) != 0,
        snap_on: int_at(w, 13) != 0,
        grid_on: int_at(w, 14) != 0,
        isometric_snap: int_at(w, 15) != 0,
        iso_pair_top: int_at(w, 16) == 1,
        iso_pair_right: int_at(w, 16) == 2,
        hide_plot: int_at(w, 24) != 0,
        ..s
    }
}

/// The viewport with the view parameters of payload `w` and the frozen
/// layers `frozen`.
pub open spec fn restored_viewport(v: Viewport, w: Seq<XValue>, frozen: Vec<Handle>) -> Viewport {
    Viewport {
        common: v.common,
        view_target: point_at(w, 0),
        view_direction: point_at(w, 1),
        twist_angle_degrees: real_at(w, 2),
        view_height: real_at(w, 3),
        view_center: Vector3 { x: real_at(w, 4), y: real_at(w, 5), z: 0 },
        lens_length: real_at(w, 6),
        front_clip_z: real_at(w, 7),
        back_clip_z: real_at(w, 8),
        status: restored_status(w),
        circle_sides: int_at(w, 10),
        ucs_icon_visible: int_at(w, 12) & 1 != 0,
        ucs_at_origin: int_at(w, 12) & 2 != 0,
        snap_angle_degrees: real_at(w, 17),
        snap_base: Vector3 { x: real_at(w, 18), y: real_at(w, 19), z: 0 },
        snap_spacing: Vector3 { x: real_at(w, 20), y: real_at(w, 21), z: 0 },
        grid_spacing: Vector3 { x: real_at(w, 22), y: real_at(w, 23), z: 0 },
        frozen_layers: frozen,
    }
}

/// The layer names listed from position `k` of a payload up to the next
/// `}`.
pub open spec fn listed_layer_names(w: Seq<XValue>, k: int) -> Seq<Seq<char>>
    decreases w.len() - k,
{
    if k < 0 || k >= w.len() || closes(w[k]) {
        seq![]
    } else {
        match w[k] {
            XValue::LayerName(n) => seq![n] + listed_layer_names(w, k + 1),
            _ => listed_layer_names(w, k + 1),
        }
    }
}

/// The handles that were found, in order.
pub open spec fn found_handles(rs: Seq<Option<Handle>>) -> Seq<Handle>
    decreases rs.len(),
{
    if rs.len() == 0 {
        seq![]
    } else {
        let rest = found_handles(rs.drop_last());
        match rs.last() {
            Some(h) => rest.push(h),
            None => rest,
        }
    }
}

/// `r` is an answer that `f` may give for some text equal to `name`.
pub open spec fn answered<F: Fn(&str) -> Option<Handle>>(
    f: F,
    name: Seq<char>,
    r: Option<Handle>,
) -> bool {
    exists|s: &str| s@ == name && #[trigger] call_ensures(f, (s,), r)
}

/// `rs` holds, for each name of `names`, an answer that `f` may give for
/// that name.
pub open spec fn answers<F: Fn(&str) -> Option<Handle>>(
    f: F,
    names: Seq<Seq<char>>,
    rs: Seq<Option<Handle>>,
) -> bool {
    &&& rs.len() == names.len()
    &&& forall|i: int| 0 <= i < rs.len() ==> #[trigger] answered(f, names[i], rs[i])
}

fn real_of(v: &XDataValue) -> (r: u64)
    ensures
        r == match v@ {
            XValue::Real(x) => x,
            _ => 0u64,
        },
{
    match v {
        XDataValue::Real(x) => *x,
        _ => 0,
    }
}

fn int_of(v: &XDataValue) -> (r: i16)
    ensures
        r == match v@ {
            XValue::Integer16(x) => x,
            _ => 0i16,
        },
{
    match v {
        XDataValue::Integer16(x) => *x,
        _ => 0,
    }
}

fn point_of(v: &XDataValue) -> (r: Vector3)
    ensures
        r == match v@ {
            XValue::Point3D(p) => p,
            _ => Vector3 { x: 0, y: 0, z: 0 },
        },
{
    match v {
        XDataValue::Point3D(p) => *p,
        _ => Vector3::zero(),
    }
}

/// Every value of `values[lo..hi]` is a real.
fn all_real(values: &Vec<XDataValue>, lo: usize, hi: usize) -> (r: bool)
    requires
        lo <= hi <= values@.len(),
    ensures
        r == forall|i: int| lo <= i < hi ==> #[trigger] values_view(values@)[i] is Real,
{
    let mut i: usize = lo;
    while i < hi
        invariant
            lo <= i <= hi <= values@.len(),
            forall|j: int| lo <= j < i ==> #[trigger] values_view(values@)[j] is Real,
        decreases hi - i,
    {
        assert(values_view(values@)[i as int] == values@[i as int]@);
        match &values[i] {
            XDataValue::Real(_) => {},
            _ => {
                return false;
            },
        }
        i = i + 1;
    }
    true
}

/// Every value of `values[lo..hi]` is a 16-bit integer.
fn all_int16(values: &Vec<XDataValue>, lo: usize, hi: usize) -> (r: bool)
    requires
        lo <= hi <= values@.len(),
    ensures
        r == forall|i: int| lo <= i < hi ==> #[trigger] values_view(values@)[i] is Integer16,
{
    let mut i: usize = lo;
    while i < hi
        invariant
            lo <= i <= hi <= values@.len(),
            forall|j: int| lo <= j < i ==> #[trigger] values_view(values@)[j] is Integer16,
        decreases hi - i,
    {
        assert(values_view(values@)[i as int] == values@[i as int]@);
        match &values[i] {
            XDataValue::Integer16(_) => {},
            _ => {
                return false;
            },
        }
        i = i + 1;
    }
    true
}

/// Whether `values[from..to]` is a well-formed MVIEW payload.
fn payload_well_formed(values: &Vec<XDataValue>, from: usize, to: usize) -> (r: bool)
    requires
        from <= to <= values@.len(),
    ensures
        r == mview_well_formed(values_view(values@).subrange(from as int, to as int)),
{
    let ghost vv = values_view(values@);
    let ghost w = vv.subrange(from as int, to as int);
    if to - from < 30 {
        return false;
    }
    assert(forall|i: int| 0 <= i < w.len() ==> w[i] == #[trigger] values@[from + i]@);
    let ok = is_open(&values[from]) && match &values[from + 1] {
        XDataValue::Integer16(16) => true,
        _ => false,
    } && match &values[from + 2] {
        XDataValue::Point3D(_) => true,
        _ => false,
    } && match &values[from + 3] {
        XDataValue::Point3D(_) => true,
        _ => false,
    } && is_open(&values[from + 27]) && match &values[from + 26] {
        XDataValue::Integer16(_) => true,
        _ => false,
    };
    if !ok {
        return false;
    }
    let reals_a = all_real(values, from + 4, from + 11);
    let ints = all_int16(values, from + 11, from + 19);
    let reals_b = all_real(values, from + 19, from + 26);
    proof {
        assert((forall|i: int| 4 <= i < 11 ==> #[trigger] w[i] is Real) == (forall|i: int|
            from + 4 <= i < from + 11 ==> #[trigger] vv[i] is Real)) by {
            assert forall|i: int| 4 <= i < 11 implies (#[trigger] w[i] is Real) == (vv[from + i] is Real) by {}
            assert forall|i: int| from + 4 <= i < from + 11 implies (#[trigger] vv[i] is Real) == (w[i - from] is Real) by {}
        }
        assert((forall|i: int| 11 <= i < 19 ==> #[trigger] w[i] is Integer16) == (forall|i: int|
            from + 11 <= i < from + 19 ==> #[trigger] vv[i] is Integer16)) by {
            assert forall|i: int| 11 <= i < 19 implies (#[trigger] w[i] is Integer16) == (vv[from + i] is Integer16) by {}
            assert forall|i: int| from + 11 <= i < from + 19 implies (#[trigger] vv[i] is Integer16) == (w[i - from] is Integer16) by {}
        }
        assert((forall|i: int| 19 <= i < 26 ==> #[trigger] w[i] is Real) == (forall|i: int|
            from + 19 <= i < from + 26 ==> #[trigger] vv[i] is Real)) by {
            assert forall|i: int| 19 <= i < 26 implies (#[trigger] w[i] is Real) == (vv[from + i] is Real) by {}
            assert forall|i: int| from + 19 <= i < from + 26 implies (#[trigger] vv[i] is Real) == (w[i - from] is Real) by {}
        }
    }
    reals_a && ints && reals_b
}

/// Look up the layers that payload `payload` lists from position 28 up to
/// its next `}`.
fn listed_layers(payload: &Vec<XDataValue>, layer_handle: &impl Fn(&str) -> Option<Handle>) -> (r:
    Vec<Handle>)
    requires
        forall|s: &str| call_requires(*layer_handle, (s,)),
    ensures
        exists|rs: Seq<Option<Handle>>|
            #[trigger] answers(*layer_handle, listed_layer_names(values_view(payload@), 28), rs)
                && r@ == found_handles(rs),
{
    let ghost w = values_view(payload@);
    let mut frozen: Vec<Handle> = Vec::new();
    let ghost mut rs: Seq<Option<Handle>> = seq![];
    let ghost mut done: Seq<Seq<char>> = seq![];
    let mut i: usize = 28;
    if payload.len() < 28 {
        proof {
            assert(listed_layer_names(w, 28) =~= Seq::<Seq<char>>::empty());
            assert(answers(*layer_handle, listed_layer_names(w, 28), rs));
        }
        return frozen;
    }
    proof {
        assert(done + listed_layer_names(w, 28) =~= listed_layer_names(w, 28));
    }
    while i < payload.len() && !is_close(&payload[i])
        invariant
            28 <= i <= payload@.len(),
            w == values_view(payload@),
            forall|s: &str| call_requires(*layer_handle, (s,)),
            done + listed_layer_names(w, i as int) == listed_layer_names(w, 28),
            answers(*layer_handle, done, rs),
            frozen@ == found_handles(rs),
        decreases payload@.len() - i,
    {
        assert(w[i as int] == payload@[i as int]@);
        match &payload[i] {
            XDataValue::LayerName(name) => {
                let name_str = name.as_str();
                let r = layer_handle(name_str);
                proof {
                    let prev_rs = rs;
                    let prev_done = done;
                    rs = rs.push(r);
                    done = done.push(name@);
                    assert(done + listed_layer_names(w, i + 1) =~= prev_done + listed_layer_names(
                        w,
                        i as int,
                    ));
                    assert(rs.drop_last() =~= prev_rs);
                    assert(answered(*layer_handle, name@, r));
                    assert forall|j: int| 0 <= j < rs.len() implies #[trigger] answered(
                        *layer_handle,
                        done[j],
                        rs[j],
                    ) by {
                        if j < prev_rs.len() {
                            assert(rs[j] == prev_rs[j]);
                            assert(done[j] == prev_done[j]);
                        }
                    }
                    assert(rs.len() == done.len());
                    assert(answers(*layer_handle, done, rs));
                }
                match r {
                    Some(h) => {
                        frozen.push(h);
                    },
                    None => {},
                }
            },
            _ => {
                proof {
                    assert(listed_layer_names(w, i as int) == listed_layer_names(w, i + 1));
                }
            },
        }
        i = i + 1;
    }
    proof {
        assert(listed_layer_names(w, i as int) =~= Seq::<Seq<char>>::empty());
        assert(done =~= listed_layer_names(w, 28));
    }
    frozen
}

/// The status flags of a well-formed payload.
fn payload_status(payload: &Vec<XDataValue>) -> (r: ViewportStatusFlags)
    requires
        mview_well_formed(values_view(payload@)),
    ensures
        r == restored_status(values_view(payload@)),
{
    let ghost w = values_view(payload@);
    let mut status = ViewportStatusFlags::from_bits((int_of(&payload[11]) as i32) | 0x8000);
    status.fast_zoom = int_of(&payload[13]) != 0;
    status.snap_on = int_of(&payload[15]) != 0;
    status.grid_on = int_of(&payload[16]) != 0;
    status.isometric_snap = int_of(&payload[17]) != 0;
    let pair = int_of(&payload[18]);
    status.iso_pair_top = pair == 1;
    status.iso_pair_right = pair == 2;
    status.hide_plot = int_of(&payload[26]) != 0;
    status
}

/// Set the view parameters of `v` from a well-formed payload.
fn apply_payload(v: &mut Viewport, payload: &Vec<XDataValue>, frozen: Vec<Handle>)
    requires
        mview_well_formed(values_view(payload@)),
    ensures
        *final(v) == restored_viewport(*old(v), values_view(payload@), frozen),
{
    let status = payload_status(payload);
    let icon = int_of(&payload[14]);
    v.view_target = point_of(&payload[2]);
    v.view_direction = point_of(&payload[3]);
    v.twist_angle_degrees = real_of(&payload[4]);
    v.view_height = real_of(&payload[5]);
    v.view_center = Vector3::new(real_of(&payload[6]), real_of(&payload[7]), 0);
    v.lens_length = real_of(&payload[8]);
    v.front_clip_z = real_of(&payload[9]);
    v.back_clip_z = real_of(&payload[10]);
    v.status = status;
    v.circle_sides = int_of(&payload[12]);
    v.ucs_icon_visible = icon & 1 != 0;
    v.ucs_at_origin = icon & 2 != 0;
    v.snap_angle_degrees = real_of(&payload[19]);
    v.snap_base = Vector3::new(real_of(&payload[20]), real_of(&payload[21]), 0);
    v.snap_spacing = Vector3::new(real_of(&payload[22]), real_of(&payload[23]), 0);
    v.grid_spacing = Vector3::new(real_of(&payload[24]), real_of(&payload[25]), 0);
    v.frozen_layers = frozen;
}

/// Set the view parameters of `v` from its ACAD MVIEW data. Nothing changes
/// when the viewport has no ACAD record, the record no complete MVIEW
/// group, or the group not the shape that `record` writes. The frozen
/// layers are looked up by name with `layer_handle`; names it does not know
/// are dropped.
pub fn restore(v: &mut Viewport, layer_handle: impl Fn(&str) -> Option<Handle>)
    requires
        forall|s: &str| call_requires(layer_handle, (s,)),
    ensures
        match restorable(*old(v)) {
            Some(w) => {
                &&& *final(v) == restored_viewport(*old(v), w, final(v).frozen_layers)
                &&& exists|rs: Seq<Option<Handle>>|
                    #[trigger] answers(layer_handle, listed_layer_names(w, 28), rs)
                        && final(v).frozen_layers@ == found_handles(rs)
            },
            None => *final(v) == *old(v),
        },
{
    let found = v.common.extended_data.find_record("ACAD");
    let k = match found {
        Some(k) => k,
        None => {
            return;
        },
    };
    proof {
        crate::seqs::lemma_first_index_facts(
            v.common.extended_data.records@,
            crate::xdata::record_for("ACAD"@),
        );
    }
    let values = &v.common.extended_data.records[k].values;
    let ghost vv = values_view(values@);
    assert(acad_record(*v) == Some(v.common.extended_data.records@[k as int]));
    let (a, b) = match mview_range(values) {
        Some(range) => range,
        None => {
            return;
        },
    };
    proof {
        lemma_range_bounds(vv, 0);
    }
    if !payload_well_formed(values, a + 1, b) {
        return;
    }
    let mut payload: Vec<XDataValue> = Vec::new();
    extend_copies(&mut payload, values, a + 1, b);
    assert(values_view(payload@) =~= vv.subrange(a + 1, b as int));
    let frozen = listed_layers(&payload, &layer_handle);
    apply_payload(v, &payload, frozen);
}

} // verus!

verus! {

/// How a value moves the group depth: `{` opens, `}` closes.
spec fn delta(v: XValue) -> int {
    if opens(v) {
        1
    } else if closes(v) {
        -1
    } else {
        0
    }
}

/// `closing_index` restricted to the values before `e`.
spec fn closing_in(s: Seq<XValue>, i: int, e: int, d: int) -> Option<int>
    decreases e - i,
{
    if i >= e {
        None
    } else if opens(s[i]) {
        closing_in(s, i + 1, e, d + 1)
    } else if closes(s[i]) {
        if d - 1 == 0 {
            Some(i)
        } else {
            closing_in(s, i + 1, e, d - 1)
        }
    } else {
        closing_in(s, i + 1, e, d)
    }
}

/// The depth after the values from `i` up to `e`, starting at `d`.
spec fn depth_in(s: Seq<XValue>, i: int, e: int, d: int) -> int
    decreases e - i,
{
    if i >= e {
        d
    } else {
        depth_in(s, i + 1, e, d + delta(s[i]))
    }
}

proof fn lemma_closing_whole(s: Seq<XValue>, i: int, d: int)
    ensures
        closing_index(s, i, d) == closing_in(s, i, s.len() as int, d),
    decreases s.len() - i,
{
    if i < s.len() {
        lemma_closing_whole(s, i + 1, d + 1);
        lemma_closing_whole(s, i + 1, d - 1);
        lemma_closing_whole(s, i + 1, d);
    }
}

proof fn lemma_closing_in_bounds(s: Seq<XValue>, i: int, e: int, d: int)
    ensures
        closing_in(s, i, e, d) matches Some(j) ==> i <= j < e,
    decreases e - i,
{
    if i < e {
        lemma_closing_in_bounds(s, i + 1, e, d + 1);
        lemma_closing_in_bounds(s, i + 1, e, d - 1);
        lemma_closing_in_bounds(s, i + 1, e, d);
    }
}

/// Scanning up to `e` is scanning up to `m`, then on from `m` when no
/// group closed before it.
proof fn lemma_closing_split(s: Seq<XValue>, i: int, m: int, e: int, d: int)
    requires
        i <= m <= e,
    ensures
        closing_in(s, i, e, d) == match closing_in(s, i, m, d) {
            Some(j) => Some(j),
            None => closing_in(s, m, e, depth_in(s, i, m, d)),
        },
    decreases m - i,
{
    if i < m {
        lemma_closing_split(s, i + 1, m, e, d + 1);
        lemma_closing_split(s, i + 1, m, e, d - 1);
        lemma_closing_split(s, i + 1, m, e, d);
    }
}

/// Scanning equal values at shifted positions gives shifted results.
proof fn lemma_closing_shift(s: Seq<XValue>, t: Seq<XValue>, i: int, e: int, off: int, d: int)
    requires
        forall|k: int| i <= k < e ==> #[trigger] s[k] == t[k + off],
    ensures
        closing_in(t, i + off, e + off, d) == match closing_in(s, i, e, d) {
            Some(j) => Some(j + off),
            None => None::<int>,
        },
        depth_in(t, i + off, e + off, d) == depth_in(s, i, e, d),
    decreases e - i,
{
    if i < e {
        assert(s[i] == t[i + off]);
        lemma_closing_shift(s, t, i + 1, e, off, d + 1);
        lemma_closing_shift(s, t, i + 1, e, off, d - 1);
        lemma_closing_shift(s, t, i + 1, e, off, d);
        lemma_closing_shift(s, t, i + 1, e, off, d + delta(s[i]));
    }
}

/// Inside an open group, a scan that closes nothing stays inside it.
proof fn lemma_depth_positive(s: Seq<XValue>, i: int, e: int, d: int)
    requires
        d >= 1,
        closing_in(s, i, e, d) is None,
    ensures
        depth_in(s, i, e, d) >= 1,
    decreases e - i,
{
    if i < e {
        if opens(s[i]) {
            lemma_depth_positive(s, i + 1, e, d + 1);
        } else if closes(s[i]) {
            lemma_depth_positive(s, i + 1, e, d - 1);
        } else {
            lemma_depth_positive(s, i + 1, e, d);
        }
    }
}

/// A group that closes exactly at its end, scanned from deeper inside,
/// closes nothing and leaves the depth where it was.
proof fn lemma_balanced_deeper(s: Seq<XValue>, i: int, e: int, d: int, k: int)
    requires
        d >= 1,
        k >= 1,
        closing_in(s, i, e, d) == Some(e - 1),
    ensures
        closing_in(s, i, e, d + k) is None,
        depth_in(s, i, e, d + k) == k,
    decreases e - i,
{
    if i < e {
        if opens(s[i]) {
            lemma_balanced_deeper(s, i + 1, e, d + 1, k);
        } else if closes(s[i]) {
            if d - 1 == 0 {
                assert(i == e - 1);
            } else {
                lemma_balanced_deeper(s, i + 1, e, d - 1, k);
            }
        } else {
            lemma_balanced_deeper(s, i + 1, e, d, k);
        }
    }
}

/// A group opened at `i` and closed at `e - 1`, scanned at depth `d >= 1`,
/// closes nothing and leaves the depth at `d`.
proof fn lemma_balanced(s: Seq<XValue>, i: int, e: int, d: int)
    requires
        d >= 1,
        i < e,
        opens(s[i]),
        closing_in(s, i, e, 0) == Some(e - 1),
    ensures
        closing_in(s, i, e, d) is None,
        depth_in(s, i, e, d) == d,
{
    lemma_balanced_deeper(s, i + 1, e, 1, d);
}

/// Values that neither open nor close are skipped.
proof fn lemma_skip_neutral(s: Seq<XValue>, i: int, m: int, e: int, d: int)
    requires
        i <= m <= e,
        forall|k: int| i <= k < m ==> !opens(#[trigger] s[k]) && !closes(s[k]),
    ensures
        closing_in(s, i, e, d) == closing_in(s, m, e, d),
    decreases m - i,
{
    if i < m {
        assert(!opens(s[i]) && !closes(s[i]));
        lemma_skip_neutral(s, i + 1, m, e, d);
    }
}

} // verus!

verus! {

/// The MVIEW group of `record` is one complete group: it starts with
/// `MVIEW` and `{`, and that `{` is closed by its last value.
proof fn lemma_block_complete(v: Viewport, names: Seq<Seq<char>>)
    ensures
        mview_block(v, names).len() == 31 + names.len(),
        mview_block(v, names)[0] == XValue::String("MVIEW"@),
        opens(mview_block(v, names)[1]),
        closing_in(mview_block(v, names), 1, mview_block(v, names).len() as int, 0) == Some(
            mview_block(v, names).len() - 1,
        ),
{
    reveal_strlit("{");
    reveal_strlit("}");
    let b = mview_block(v, names);
    let h = mview_head(v);
    let n = names.len() as int;
    let e = b.len() as int;
    let listed = names.map_values(|m: Seq<char>| XValue::LayerName(m));
    assert(h.len() == 29);
    assert(forall|k: int| 0 <= k < 29 ==> #[trigger] b[k] == h[k]);
    assert(forall|k: int| 0 <= k < n ==> #[trigger] b[29 + k] == listed[k]);
    assert(b[29 + n] == XValue::ControlString("}"@));
    assert(b[30 + n] == XValue::ControlString("}"@));
    assert forall|k: int| 2 <= k < 28 implies !opens(#[trigger] b[k]) && !closes(b[k]) by {
        assert(!(h[k] is ControlString));
    }
    assert forall|k: int| 29 <= k < 29 + n implies !opens(#[trigger] b[k]) && !closes(b[k]) by {
        assert(b[k] == listed[k - 29]);
    }
    assert(opens(b[28]));
    lemma_skip_neutral(b, 2, 28, e, 1);
    lemma_skip_neutral(b, 29, 29 + n, e, 2);
    assert("{"@ != "}"@) by {
        assert("{"@[0] != "}"@[0]);
    }
    assert(!opens(b[29 + n]) && closes(b[29 + n]));
    assert(!opens(b[30 + n]) && closes(b[30 + n]));
    assert(closing_in(b, 29 + n, e, 2) == closing_in(b, 30 + n, e, 1));
    assert(closing_in(b, 30 + n, e, 1) == Some(30 + n));
}

/// `vals` with `g` written in place of `vals[a..b]`.
spec fn replaced(vals: Seq<XValue>, a: int, b: int, g: Seq<XValue>) -> Seq<XValue> {
    vals.subrange(0, a) + g + vals.subrange(b, vals.len() as int)
}

/// A complete group: `MVIEW`, then a `{` closed by the last value.
spec fn complete_group(g: Seq<XValue>) -> bool {
    &&& g.len() >= 2
    &&& g[0] == XValue::String("MVIEW"@)
    &&& opens(g[1])
    &&& closing_in(g, 1, g.len() as int, 0) == Some(g.len() - 1)
}

/// A start before the group that is not itself a complete group stays one
/// when the group's values are replaced by another complete group.
proof fn lemma_scan_unchanged(vals: Seq<XValue>, a: int, b: int, g: Seq<XValue>, s: int)
    requires
        0 <= s,
        s + 1 < a,
        a + 2 <= b <= vals.len(),
        starts_mview(vals, a),
        closing_index(vals, a + 1, 0) == Some(b - 1),
        opens(vals[s + 1]),
        closing_index(vals, s + 1, 0) is None,
        complete_group(g),
    ensures
        closing_index(replaced(vals, a, b, g), s + 1, 0) is None,
{
    let new = replaced(vals, a, b, g);
    let gl = g.len() as int;
    let vl = vals.len() as int;
    let nl = new.len() as int;
    assert(nl == a + gl + (vl - b));
    assert(forall|k: int| s + 1 <= k < a ==> #[trigger] vals[k] == new[k + 0]);
    assert(forall|k: int| 0 <= k < gl ==> #[trigger] g[k] == new[k + a]);
    assert(forall|k: int| b <= k < vl ==> #[trigger] vals[k] == new[k + (a + gl - b)]);
    // The old values.
    lemma_closing_whole(vals, s + 1, 0);
    lemma_closing_split(vals, s + 1, a, vl, 0);
    let d = depth_in(vals, s + 1, a, 0);
    lemma_depth_positive(vals, s + 2, a, 1);
    lemma_closing_whole(vals, a + 1, 0);
    lemma_closing_split(vals, a + 1, b, vl, 0);
    lemma_closing_in_bounds(vals, b, vl, depth_in(vals, a + 1, b, 0));
    lemma_balanced(vals, a + 1, b, d);
    lemma_closing_split(vals, a, b, vl, d);
    // The new values.
    lemma_closing_whole(new, s + 1, 0);
    lemma_closing_shift(vals, new, s + 1, a, 0, 0);
    lemma_closing_split(new, s + 1, a, nl, 0);
    lemma_closing_split(new, a, a + gl, nl, d);
    lemma_closing_shift(g, new, 0, gl, a, d);
    lemma_balanced(g, 1, gl, d);
    lemma_closing_shift(vals, new, b, vl, a + gl - b, d);
}

/// Writing a complete group in place of the first complete MVIEW group
/// makes it the first complete MVIEW group, at the same place.
proof fn lemma_replace_first_group(vals: Seq<XValue>, a: int, b: int, g: Seq<XValue>, s: int)
    requires
        0 <= s <= a,
        mview_range_from(vals, s) == Some((a, b)),
        complete_group(g),
    ensures
        mview_range_from(replaced(vals, a, b, g), s) == Some((a, a + g.len())),
    decreases a - s,
{
    let new = replaced(vals, a, b, g);
    let gl = g.len() as int;
    lemma_range_bounds(vals, s);
    assert(new.len() == a + gl + (vals.len() - b));
    if s < a {
        assert(s + 1 < vals.len());
        if starts_mview(vals, s) {
            assert(closing_index(vals, s + 1, 0) is None);
        }
        assert(mview_range_from(vals, s + 1) == Some((a, b)));
        lemma_replace_first_group(vals, a, b, g, s + 1);
        assert(new[s] == vals[s]);
        if s + 1 < a {
            assert(new[s + 1] == vals[s + 1]);
            if starts_mview(new, s) {
                lemma_scan_unchanged(vals, a, b, g, s);
            }
        } else {
            assert(new[s + 1] == g[0]);
        }
    } else {
        assert(new[a] == g[0]);
        assert(new[a + 1] == g[1]);
        assert(forall|k: int| 0 <= k < gl ==> #[trigger] g[k] == new[k + a]);
        lemma_closing_whole(new, a + 1, 0);
        lemma_closing_split(new, a + 1, a + gl, new.len() as int, 0);
        lemma_closing_shift(g, new, 1, gl, a, 0);
    }
}

/// Appending a complete group to values without one makes it their first
/// complete MVIEW group.
proof fn lemma_append_group(vals: Seq<XValue>, g: Seq<XValue>, s: int)
    requires
        0 <= s <= vals.len(),
        mview_range_from(vals, s) is None,
        complete_group(g),
    ensures
        mview_range_from(vals + g, s) == Some((vals.len() as int, (vals.len() + g.len()) as int)),
    decreases vals.len() - s,
{
    let new = vals + g;
    let vl = vals.len() as int;
    let gl = g.len() as int;
    let nl = new.len() as int;
    assert(forall|k: int| 0 <= k < gl ==> #[trigger] g[k] == new[k + vl]);
    if s < vl {
        if s + 1 < vl {
            assert(mview_range_from(vals, s + 1) is None);
            lemma_append_group(vals, g, s + 1);
            assert(new[s] == vals[s]);
            assert(new[s + 1] == vals[s + 1]);
            if starts_mview(new, s) {
                assert(closing_index(vals, s + 1, 0) is None);
                assert(forall|k: int| s + 1 <= k < vl ==> #[trigger] vals[k] == new[k + 0]);
                lemma_closing_whole(vals, s + 1, 0);
                let d = depth_in(vals, s + 1, vl, 0);
                lemma_depth_positive(vals, s + 2, vl, 1);
                lemma_closing_whole(new, s + 1, 0);
                lemma_closing_shift(vals, new, s + 1, vl, 0, 0);
                lemma_closing_split(new, s + 1, vl, nl, 0);
                lemma_closing_shift(g, new, 0, gl, vl, d);
                lemma_balanced(g, 1, gl, d);
            }
        } else {
            lemma_append_group(vals, g, s + 1);
            assert(new[s + 1] == g[0]);
        }
    } else {
        assert(new[vl] == g[0]);
        assert(new[vl + 1] == g[1]);
        lemma_closing_whole(new, vl + 1, 0);
        lemma_closing_shift(g, new, 1, gl, vl, 0);
    }
}

} // verus!

verus! {

/// Two viewports agree on every view parameter that the MVIEW group
/// carries (of the view centre and the snap and grid vectors, X and Y).
pub open spec fn same_mview_parameters(a: Viewport, b: Viewport) -> bool {
    &&& a.view_target == b.view_target
    &&& a.view_direction == b.view_direction
    &&& a.twist_angle_degrees == b.twist_angle_degrees
    &&& a.view_height == b.view_height
    &&& a.view_center.x == b.view_center.x
    &&& a.view_center.y == b.view_center.y
    &&& a.lens_length == b.lens_length
    &&& a.front_clip_z == b.front_clip_z
    &&& a.back_clip_z == b.back_clip_z
    &&& a.circle_sides == b.circle_sides
    &&& a.ucs_icon_visible == b.ucs_icon_visible
    &&& a.ucs_at_origin == b.ucs_at_origin
    &&& a.snap_angle_degrees == b.snap_angle_degrees
    &&& a.snap_base.x == b.snap_base.x
    &&& a.snap_base.y == b.snap_base.y
    &&& a.snap_spacing.x == b.snap_spacing.x
    &&& a.snap_spacing.y == b.snap_spacing.y
    &&& a.grid_spacing.x == b.grid_spacing.x
    &&& a.grid_spacing.y == b.grid_spacing.y
    &&& a.status.perspective == b.status.perspective
    &&& a.status.front_clipping == b.status.front_clipping
    &&& a.status.back_clipping == b.status.back_clipping
    &&& a.status.ucs_follow == b.status.ucs_follow
    &&& a.status.front_clip_not_at_eye == b.status.front_clip_not_at_eye
    &&& a.status.fast_zoom == b.status.fast_zoom
    &&& a.status.snap_on == b.status.snap_on
    &&& a.status.grid_on == b.status.grid_on
    &&& a.status.isometric_snap == b.status.isometric_snap
    &&& a.status.hide_plot == b.status.hide_plot
    &&& iso_pair(a.status) == iso_pair(b.status)
}

/// The five low status flags survive the trip through the MVIEW status
/// word.
proof fn lemma_low_status(s: ViewportStatusFlags)
    ensures
        ({
            let r = status_from_bits((((status_bits(s) & 0x1f) as i16) as i32) | 0x8000);
            &&& r.perspective == s.perspective
            &&& r.front_clipping == s.front_clipping
            &&& r.back_clipping == s.back_clipping
            &&& r.ucs_follow == s.ucs_follow
            &&& r.front_clip_not_at_eye == s.front_clip_not_at_eye
        }),
{
    let p = s.perspective;
    let fc = s.front_clipping;
    let bc = s.back_clipping;
    let uf = s.ucs_follow;
    let fe = s.front_clip_not_at_eye;
    let f1 = s.fast_zoom;
    let f2 = s.snap_on;
    let f3 = s.grid_on;
    let f4 = s.isometric_snap;
    let f5 = s.hide_plot;
    let f6 = s.iso_pair_top;
    let f7 = s.iso_pair_right;
    let f8 = s.zoom_locking;
    let f9 = s.always_enabled;
    let f10 = s.non_rectangular_clipping;
    let f11 = s.turned_off;
    let b = status_bits(s);
    let w: i32 = (((b & 0x1f) as i16) as i32) | 0x8000;
    assert((w & 0x1 != 0) == p && (w & 0x2 != 0) == fc && (w & 0x4 != 0) == bc && (w & 0x8 != 0)
        == uf && (w & 0x10 != 0) == fe) by (bit_vector)
        requires
            b == (if p { 1i32 } else { 0i32 }) | (if fc { 2i32 } else { 0i32 }) | (if bc { 4i32 } else { 0i32 })
                | (if uf { 8i32 } else { 0i32 }) | (if fe { 16i32 } else { 0i32 })
                | (if f1 { 0x80i32 } else { 0i32 }) | (if f2 { 0x100i32 } else { 0i32 })
                | (if f3 { 0x200i32 } else { 0i32 }) | (if f4 { 0x400i32 } else { 0i32 })
                | (if f5 { 0x800i32 } else { 0i32 }) | (if f6 { 0x1000i32 } else { 0i32 })
                | (if f7 { 0x2000i32 } else { 0i32 }) | (if f8 { 0x4000i32 } else { 0i32 })
                | (if f9 { 0x8000i32 } else { 0i32 }) | (if f10 { 0x10000i32 } else { 0i32 })
                | (if f11 { 0x20000i32 } else { 0i32 }),
            w == (((b & 0x1f) as i16) as i32) | 0x8000,
    ;
}

/// The UCS icon flags survive the trip through their MVIEW integer.
proof fn lemma_icon_bits(visible: bool, at_origin: bool)
    ensures
        ({
            let x = (int_flag(visible) + 2 * int_flag(at_origin)) as i16;
            &&& (x & 1 != 0) == visible
            &&& (x & 2 != 0) == at_origin
        }),
{
    let x = (int_flag(visible) + 2 * int_flag(at_origin)) as i16;
    assert((x & 1 != 0) == visible && (x & 2 != 0) == at_origin) by (bit_vector)
        requires
            x == (if visible && at_origin { 3i16 } else if at_origin { 2i16 } else if visible { 1i16 } else { 0i16 }),
    ;
}

/// From position `28 + k`, the payload of a recorded group lists the
/// names from the `k`-th on.
proof fn lemma_listed_names(v: Viewport, names: Seq<Seq<char>>, k: int)
    requires
        0 <= k <= names.len(),
    ensures
        listed_layer_names(mview_block(v, names).subrange(1, mview_block(v, names).len() as int), 28 + k)
            == names.subrange(k, names.len() as int),
    decreases names.len() - k,
{
    reveal_strlit("}");
    let g = mview_block(v, names);
    let w = g.subrange(1, g.len() as int);
    let n = names.len() as int;
    lemma_block_complete(v, names);
    if k < n {
        lemma_listed_names(v, names, k + 1);
        assert(w[28 + k] == g[29 + k]);
        assert(g[29 + k] == XValue::LayerName(names[k]));
        assert(names.subrange(k, n) =~= seq![names[k]] + names.subrange(k + 1, n));
    } else {
        assert(w[28 + n] == g[29 + n]);
        assert(g[29 + n] == XValue::ControlString("}"@));
        assert(names.subrange(n, n) =~= Seq::<Seq<char>>::empty());
    }
}

/// The payload of a recorded group is well formed, lists the frozen
/// layers' names, and gives back the viewport's view parameters.
proof fn lemma_recorded_payload(v: Viewport, names: Seq<Seq<char>>, base: Viewport, frozen: Vec<Handle>)
    ensures
        ({
            let g = mview_block(v, names);
            let w = g.subrange(1, g.len() as int);
            &&& mview_well_formed(w)
            &&& listed_layer_names(w, 28) == names
            &&& same_mview_parameters(restored_viewport(base, w, frozen), v)
        }),
{
    reveal_strlit("{");
    let g = mview_block(v, names);
    let w = g.subrange(1, g.len() as int);
    lemma_block_complete(v, names);
    assert(forall|i: int| 0 <= i < w.len() ==> #[trigger] w[i] == g[i + 1]);
    assert(forall|i: int| 0 <= i < 29 ==> #[trigger] g[i] == mview_head(v)[i]);
    lemma_listed_names(v, names, 0);
    assert(names.subrange(0, names.len() as int) =~= names);
    lemma_low_status(v.status);
    lemma_icon_bits(v.ucs_icon_visible, v.ucs_at_origin);
}

/// Restoring a viewport whose ACAD data holds what `record` wrote for `v`
/// gives back every view parameter that the MVIEW group carries, and looks
/// up exactly the names of the layers that `v` freezes, in table order.
pub proof fn lemma_restore_after_record(v: Viewport, layers: Seq<Layer>, target: Viewport, frozen: Vec<Handle>)
    requires
        acad_record(target) is Some,
        acad_values(target) == recorded_values(v, layers),
    ensures
        restorable(target) is Some,
        listed_layer_names(restorable(target)->0, 28) == frozen_layer_names(layers, v.frozen_layers@),
        same_mview_parameters(restored_viewport(target, restorable(target)->0, frozen), v),
{
    let names = frozen_layer_names(layers, v.frozen_layers@);
    let g = mview_block(v, names);
    let vals = acad_values(v);
    let new = recorded_values(v, layers);
    lemma_block_complete(v, names);
    assert(complete_group(g));
    let gl = g.len() as int;
    match mview_range_from(vals, 0) {
        Some((a, b)) => {
            lemma_range_bounds(vals, 0);
            lemma_replace_first_group(vals, a, b, g, 0);
            assert(new == replaced(vals, a, b, g));
            assert(new.subrange(a + 1, a + gl) =~= g.subrange(1, gl));
        },
        None => {
            lemma_append_group(vals, g, 0);
            assert(new.subrange(vals.len() + 1int, vals.len() + gl) =~= g.subrange(1, gl));
        },
    }
    lemma_recorded_payload(v, names, target, frozen);
}

} // verus!

verus! {

/// Recording again what was just recorded changes nothing: the group
/// `record` wrote is the one it replaces, so the values keep a single
/// MVIEW group and everything around it.
pub proof fn lemma_record_again(v: Viewport, layers: Seq<Layer>, target: Viewport)
    requires
        acad_values(target) == recorded_values(v, layers),
        target == (Viewport { common: target.common, ..v }),
    ensures
        recorded_values(target, layers) == recorded_values(v, layers),
{
    let names = frozen_layer_names(layers, v.frozen_layers@);
    let g = mview_block(v, names);
    let vals = acad_values(v);
    let new = recorded_values(v, layers);
    lemma_block_complete(v, names);
    assert(mview_block(target, frozen_layer_names(layers, target.frozen_layers@)) == g);
    let gl = g.len() as int;
    match mview_range_from(vals, 0) {
        Some((a, b)) => {
            lemma_range_bounds(vals, 0);
            lemma_replace_first_group(vals, a, b, g, 0);
            assert(replaced(new, a, a + gl, g) =~= new);
        },
        None => {
            let a = vals.len() as int;
            lemma_append_group(vals, g, 0);
            assert(replaced(new, a, a + gl, g) =~= new);
        },
    }
}

/// A complete group after values that hold no braces is the first complete
/// MVIEW group, whatever follows it.
proof fn lemma_group_after_plain(pre: Seq<XValue>, g: Seq<XValue>, post: Seq<XValue>, s: int)
    requires
        0 <= s <= pre.len(),
        complete_group(g),
        forall|k: int| 0 <= k < pre.len() ==> !opens(#[trigger] pre[k]) && !closes(pre[k]),
    ensures
        mview_range_from(pre + g + post, s) == Some((pre.len() as int, (pre.len() + g.len()) as int)),
    decreases pre.len() - s,
{
    let new = pre + g + post;
    let pl = pre.len() as int;
    let gl = g.len() as int;
    assert(forall|k: int| 0 <= k < gl ==> #[trigger] g[k] == new[k + pl]);
    if s < pl {
        lemma_group_after_plain(pre, g, post, s + 1);
        if s + 1 < pl {
            assert(new[s + 1] == pre[s + 1]);
        } else {
            assert(new[s + 1] == g[0]);
        }
        assert(!starts_mview(new, s));
    } else {
        assert(new[pl] == g[0]);
        assert(new[pl + 1] == g[1]);
        lemma_closing_whole(new, pl + 1, 0);
        lemma_closing_split(new, pl + 1, pl + gl, new.len() as int, 0);
        lemma_closing_shift(g, new, 1, gl, pl, 0);
    }
}

/// Inside an open group, values with no `}` close nothing.
proof fn lemma_no_close_none(s: Seq<XValue>, i: int, e: int, d: int)
    requires
        d >= 1,
        forall|k: int| i <= k < e ==> !closes(#[trigger] s[k]),
    ensures
        closing_in(s, i, e, d) is None,
    decreases e - i,
{
    if i < e {
        assert(!closes(s[i]));
        if opens(s[i]) {
            lemma_no_close_none(s, i + 1, e, d + 1);
        } else {
            lemma_no_close_none(s, i + 1, e, d);
        }
    }
}

/// A complete group after values that hold no complete MVIEW group, and
/// followed by values that hold no `}`, is the first complete MVIEW group.
proof fn lemma_group_after_open(pre: Seq<XValue>, g: Seq<XValue>, post: Seq<XValue>, s: int)
    requires
        0 <= s <= pre.len(),
        mview_range_from(pre, s) is None,
        complete_group(g),
        forall|k: int| 0 <= k < post.len() ==> !closes(#[trigger] post[k]),
    ensures
        mview_range_from(pre + g + post, s) == Some((pre.len() as int, (pre.len() + g.len()) as int)),
    decreases pre.len() - s,
{
    let new = pre + g + post;
    let vl = pre.len() as int;
    let gl = g.len() as int;
    let nl = new.len() as int;
    assert(forall|k: int| 0 <= k < gl ==> #[trigger] g[k] == new[k + vl]);
    assert(forall|k: int| vl + gl <= k < nl ==> !closes(#[trigger] new[k])) by {
        assert forall|k: int| vl + gl <= k < nl implies !closes(#[trigger] new[k]) by {
            assert(new[k] == post[k - vl - gl]);
        }
    }
    if s < vl {
        if s + 1 < vl {
            assert(mview_range_from(pre, s + 1) is None);
            lemma_group_after_open(pre, g, post, s + 1);
            assert(new[s] == pre[s]);
            assert(new[s + 1] == pre[s + 1]);
            if starts_mview(new, s) {
                assert(closing_index(pre, s + 1, 0) is None);
                assert(forall|k: int| s + 1 <= k < vl ==> #[trigger] pre[k] == new[k + 0]);
                lemma_closing_whole(pre, s + 1, 0);
                let d = depth_in(pre, s + 1, vl, 0);
                lemma_depth_positive(pre, s + 2, vl, 1);
                lemma_closing_whole(new, s + 1, 0);
                lemma_closing_shift(pre, new, s + 1, vl, 0, 0);
                lemma_closing_split(new, s + 1, vl, nl, 0);
                lemma_closing_split(new, vl, vl + gl, nl, d);
                lemma_closing_shift(g, new, 0, gl, vl, d);
                lemma_balanced(g, 1, gl, d);
                lemma_no_close_none(new, vl + gl, nl, d);
            }
        } else {
            lemma_group_after_open(pre, g, post, s + 1);
            assert(new[s + 1] == g[0]);
        }
    } else {
        assert(new[vl] == g[0]);
        assert(new[vl + 1] == g[1]);
        lemma_closing_whole(new, vl + 1, 0);
        lemma_closing_split(new, vl + 1, vl + gl, nl, 0);
        lemma_closing_shift(g, new, 1, gl, vl, 0);
    }
}

/// Restoring a viewport whose ACAD data holds the group `record` writes for
/// `v`, after values that hold no complete MVIEW group, gives back every
/// view parameter that the MVIEW group carries, and looks up exactly the
/// names of the layers that `v` freezes, in table order. The values before
/// the group hold no braces, or those after it hold no `}` (else a group
/// left open before it could close after it and be found first).
pub proof fn lemma_restore_after_record_amid(
    v: Viewport,
    layers: Seq<Layer>,
    target: Viewport,
    frozen: Vec<Handle>,
    before: Seq<XValue>,
    after: Seq<XValue>,
)
    requires
        acad_record(target) is Some,
        mview_range_from(before, 0) is None,
        (forall|k: int| 0 <= k < before.len() ==> !opens(#[trigger] before[k]) && !closes(before[k]))
            || (forall|k: int| 0 <= k < after.len() ==> !closes(#[trigger] after[k])),
        acad_values(target) == before + mview_block(v, frozen_layer_names(layers, v.frozen_layers@))
            + after,
    ensures
        restorable(target) is Some,
        listed_layer_names(restorable(target)->0, 28) == frozen_layer_names(layers, v.frozen_layers@),
        same_mview_parameters(restored_viewport(target, restorable(target)->0, frozen), v),
{
    let names = frozen_layer_names(layers, v.frozen_layers@);
    let g = mview_block(v, names);
    let vals = acad_values(target);
    let pl = before.len() as int;
    let gl = g.len() as int;
    lemma_block_complete(v, names);
    assert(complete_group(g));
    if forall|k: int| 0 <= k < before.len() ==> !opens(#[trigger] before[k]) && !closes(before[k]) {
        lemma_group_after_plain(before, g, after, 0);
    } else {
        lemma_group_after_open(before, g, after, 0);
    }
    assert(vals.subrange(pl + 1, pl + gl) =~= g.subrange(1, gl));
    lemma_recorded_payload(v, names, target, frozen);
}

} // verus!
