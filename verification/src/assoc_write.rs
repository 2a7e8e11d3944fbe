//! Writing the nodes of associative constraint groups as DXF group codes
//! and values. The writer produces the typed groups in order; turning each
//! group into the text or binary lines of a DXF file is the stream's work.
use vstd::prelude::*;

use crate::text::{is_empty_text, owned};
use crate::types::{Handle, Vector2, Vector3};

verus! {

/// The value of one DXF group, as the stream writer receives it: reals as
/// the bit patterns of `f64` values, a point as its coordinates (the group
/// code given is that of X; Y and Z follow at +10 and +20).
#[derive(Clone, Debug, PartialEq, Eq)]
pub enum DxfGroupValue {
    Int16(i16),
    Int64(i64),
    Int32(i32),
    Byte(u8),
    Bool(bool),
    Handle(Handle),
    Double(u64),
    Point(Vector3),
    Point2(u64, u64),
    Text(String),
}

/// One group code and its value.
#[derive(Clone, Debug, PartialEq, Eq)]
pub struct DxfGroup {
    pub code: i32,
    pub value: DxfGroupValue,
}

/// The content of a [`DxfGroupValue`].
pub enum GroupValueView {
    Int16(i16),
    Int64(i64),
    Int32(i32),
    Byte(u8),
    Bool(bool),
    Handle(Handle),
    Double(u64),
    Point(Vector3),
    Point2(u64, u64),
    Text(Seq<char>),
}

/// The content of a [`DxfGroup`].
pub struct GroupView {
    pub code: i32,
    pub value: GroupValueView,
}

impl View for DxfGroup {
    type V = GroupView;

    open spec fn view(&self) -> GroupView {
        GroupView {
            code: self.code,
            value: match self.value {
                DxfGroupValue::Int16(v) => GroupValueView::Int16(v),
                DxfGroupValue::Int64(v) => GroupValueView::Int64(v),
                DxfGroupValue::Int32(v) => GroupValueView::Int32(v),
                DxfGroupValue::Byte(v) => GroupValueView::Byte(v),
                DxfGroupValue::Bool(v) => GroupValueView::Bool(v),
                DxfGroupValue::Handle(v) => GroupValueView::Handle(v),
                DxfGroupValue::Double(v) => GroupValueView::Double(v),
                DxfGroupValue::Point(v) => GroupValueView::Point(v),
                DxfGroupValue::Point2(x, y) => GroupValueView::Point2(x, y),
                DxfGroupValue::Text(v) => GroupValueView::Text(v@),
            },
        }
    }
}

/// The contents of a list of groups.
pub open spec fn groups_view(s: Seq<DxfGroup>) -> Seq<GroupView> {
    s.map_values(|g: DxfGroup| g@)
}

/// The data of a constraint node, by the kind of constraint or constrained
/// geometry it is. Reals are held as `f64` bit patterns.
#[derive(Clone, Debug, PartialEq, Eq)]
pub enum AssocConstraintNodeData {
    NoData,
    Geometrical { owner_id: i32, is_implied: bool, is_active: bool },
    Angle {
        owner_id: i32,
        is_implied: bool,
        is_active: bool,
        value_dependency: Handle,
        dimension_dependency: Handle,
        sector_type: u8,
    },
    Parallel { owner_id: i32, is_implied: bool, is_active: bool, datum_line_index: Option<i32> },
    Distance {
        owner_id: i32,
        is_implied: bool,
        is_active: bool,
        value_dependency: Handle,
        dimension_dependency: Handle,
        direction_type: u8,
        distance: Option<Vector3>,
    },
    RadiusDiameter {
        owner_id: i32,
        is_implied: bool,
        is_active: bool,
        value_dependency: Handle,
        dimension_dependency: Handle,
        mode: u8,
    },
    ImplicitPoint {
        geometry_dependency: Handle,
        geometry_node_id: i32,
        point: Option<Vector3>,
        point_type: u8,
        point_index: i32,
        curve_id: i32,
    },
    Point { geometry_dependency: Handle, geometry_node_id: i32, point: Option<Vector3> },
    Line { geometry_dependency: Handle, geometry_node_id: i32, point: Vector3, direction: Vector3 },
    BoundedLine {
        geometry_dependency: Handle,
        geometry_node_id: i32,
        point: Vector3,
        direction: Vector3,
        is_ray: bool,
        start_point: Vector3,
        end_point: Vector3,
    },
    Circle {
        geometry_dependency: Handle,
        geometry_node_id: i32,
        center: Vector3,
        normal: Vector3,
        direction: Vector3,
        radius: u64,
        start_parameter: u64,
        end_parameter: u64,
        reserved: u64,
    },
    Arc {
        geometry_dependency: Handle,
        geometry_node_id: i32,
        center: Vector3,
        normal: Vector3,
        direction: Vector3,
        radius: u64,
        start_parameter: u64,
        end_parameter: u64,
        reserved: u64,
        start_point: Vector3,
        end_point: Vector3,
    },
    Ellipse {
        owner_id: i32,
        is_implied: bool,
        is_active: bool,
        center: Vector3,
        short_axis: Vector3,
        axis_ratio: u64,
    },
    BoundedEllipse {
        owner_id: i32,
        is_implied: bool,
        is_active: bool,
        center: Vector3,
        short_axis: Vector3,
        axis_ratio: u64,
        start_point: Vector3,
        end_point: Vector3,
    },
}

/// A node of a constraint group: its id, status and connections, the class
/// it is registered under, and its data.
#[derive(Clone, Debug, PartialEq, Eq)]
pub struct AssocConstraintNode {
    pub node_id: i32,
    pub status: u8,
    pub connections: Vec<i32>,
    pub class_name: String,
    pub data: AssocConstraintNodeData,
}

pub open spec fn int_group(code: i32, v: i32) -> GroupView {
    GroupView { code, value: GroupValueView::Int32(v) }
}

pub open spec fn bool_group(code: i32, v: bool) -> GroupView {
    GroupView { code, value: GroupValueView::Bool(v) }
}

pub open spec fn byte_group(code: i32, v: u8) -> GroupView {
    GroupView { code, value: GroupValueView::Byte(v) }
}

pub open spec fn handle_group(code: i32, v: Handle) -> GroupView {
    GroupView { code, value: GroupValueView::Handle(v) }
}

pub open spec fn double_group(code: i32, v: u64) -> GroupView {
    GroupView { code, value: GroupValueView::Double(v) }
}

pub open spec fn point_group(code: i32, v: Vector3) -> GroupView {
    GroupView { code, value: GroupValueView::Point(v) }
}

pub open spec fn int16_group(code: i32, v: i16) -> GroupView {
    GroupView { code, value: GroupValueView::Int16(v) }
}

pub open spec fn text_group(code: i32, v: Seq<char>) -> GroupView {
    GroupView { code, value: GroupValueView::Text(v) }
}

/// The owner id and the implied and active flags of a constraint.
pub open spec fn constraint_head(owner_id: i32, is_implied: bool, is_active: bool) -> Seq<GroupView> {
    seq![int_group(90, owner_id), bool_group(290, is_implied), bool_group(290, is_active)]
}

/// The head of an explicit constraint: the constraint head, then its value
/// and dimension dependencies.
pub open spec fn explicit_head(
    owner_id: i32,
    is_implied: bool,
    is_active: bool,
    value_dependency: Handle,
    dimension_dependency: Handle,
) -> Seq<GroupView> {
    constraint_head(owner_id, is_implied, is_active) + seq![
        handle_group(340, value_dependency),
        handle_group(340, dimension_dependency),
    ]
}

/// The dependency and node id of constrained geometry.
pub open spec fn geometry_head(dependency: Handle, node_id: i32) -> Seq<GroupView> {
    seq![handle_group(330, dependency), int_group(90, node_id)]
}

/// A point group at code 10 where there is a point.
pub open spec fn optional_point(p: Option<Vector3>) -> Seq<GroupView> {
    match p {
        Some(v) => seq![point_group(10, v)],
        None => Seq::empty(),
    }
}

/// The groups of a circle's geometry after its head.
pub open spec fn circle_body(
    center: Vector3,
    normal: Vector3,
    direction: Vector3,
    radius: u64,
    start_parameter: u64,
    end_parameter: u64,
    reserved: u64,
) -> Seq<GroupView> {
    seq![
        point_group(10, center),
        point_group(10, normal),
        point_group(10, direction),
        double_group(40, radius),
        double_group(40, start_parameter),
        double_group(40, end_parameter),
        double_group(40, reserved),
    ]
}

/// The groups that stand for a constraint node's data.
pub open spec fn constraint_data_groups(d: AssocConstraintNodeData) -> Seq<GroupView> {
    match d {
        AssocConstraintNodeData::NoData => Seq::empty(),
        AssocConstraintNodeData::Geometrical { owner_id, is_implied, is_active } => constraint_head(
            owner_id,
            is_implied,
            is_active,
        ),
        AssocConstraintNodeData::Angle {
            owner_id,
            is_implied,
            is_active,
            value_dependency,
            dimension_dependency,
            sector_type,
        } => explicit_head(owner_id, is_implied, is_active, value_dependency, dimension_dependency)
            + seq![byte_group(280, sector_type)],
        AssocConstraintNodeData::Parallel { owner_id, is_implied, is_active, datum_line_index } =>
            constraint_head(owner_id, is_implied, is_active) + match datum_line_index {
            Some(i) => seq![int_group(90, i)],
            None => Seq::empty(),
        },
        AssocConstraintNodeData::Distance {
            owner_id,
            is_implied,
            is_active,
            value_dependency,
            dimension_dependency,
            direction_type,
            distance,
        } => explicit_head(owner_id, is_implied, is_active, value_dependency, dimension_dependency)
            + seq![byte_group(280, direction_type)] + optional_point(distance),
        AssocConstraintNodeData::RadiusDiameter {
            owner_id,
            is_implied,
            is_active,
            value_dependency,
            dimension_dependency,
            mode,
        } => explicit_head(owner_id, is_implied, is_active, value_dependency, dimension_dependency)
            + seq![byte_group(280, mode)],
        AssocConstraintNodeData::ImplicitPoint {
            geometry_dependency,
            geometry_node_id,
            point,
            point_type,
            point_index,
            curve_id,
        } => geometry_head(geometry_dependency, geometry_node_id) + optional_point(point) + seq![
            byte_group(280, point_type),
            int_group(90, point_index),
            int_group(90, curve_id),
        ],
        AssocConstraintNodeData::Point { geometry_dependency, geometry_node_id, point } =>
            geometry_head(geometry_dependency, geometry_node_id) + optional_point(point),
        AssocConstraintNodeData::Line { geometry_dependency, geometry_node_id, point, direction } =>
            geometry_head(geometry_dependency, geometry_node_id) + seq![
            point_group(10, point),
            point_group(10, direction),
        ],
        AssocConstraintNodeData::BoundedLine {
            geometry_dependency,
            geometry_node_id,
            point,
            direction,
            is_ray,
            start_point,
            end_point,
        } => geometry_head(geometry_dependency, geometry_node_id) + seq![
            point_group(10, point),
            point_group(10, direction),
            bool_group(290, is_ray),
            point_group(10, start_point),
            point_group(11, end_point),
        ],
        AssocConstraintNodeData::Circle {
            geometry_dependency,
            geometry_node_id,
            center,
            normal,
            direction,
            radius,
            start_parameter,
            end_parameter,
            reserved,
        } => geometry_head(geometry_dependency, geometry_node_id) + circle_body(
            center,
            normal,
            direction,
            radius,
            start_parameter,
            end_parameter,
            reserved,
        ),
        AssocConstraintNodeData::Arc {
            geometry_dependency,
            geometry_node_id,
            center,
            normal,
            direction,
            radius,
            start_parameter,
            end_parameter,
            reserved,
            start_point,
            end_point,
        } => geometry_head(geometry_dependency, geometry_node_id) + circle_body(
            center,
            normal,
            direction,
            radius,
            start_parameter,
            end_parameter,
            reserved,
        ) + seq![point_group(10, start_point), point_group(11, end_point)],
        AssocConstraintNodeData::Ellipse {
            owner_id,
            is_implied,
            is_active,
            center,
            short_axis,
            axis_ratio,
        } => constraint_head(owner_id, is_implied, is_active) + seq![
            point_group(10, center),
            point_group(11, short_axis),
            double_group(40, axis_ratio),
        ],
        AssocConstraintNodeData::BoundedEllipse {
            owner_id,
            is_implied,
            is_active,
            center,
            short_axis,
            axis_ratio,
            start_point,
            end_point,
        } => constraint_head(owner_id, is_implied, is_active) + seq![
            point_group(10, center),
            point_group(11, short_axis),
            double_group(40, axis_ratio),
            point_group(10, start_point),
            point_group(11, end_point),
        ],
    }
}

/// The groups of a node's id, status and connections; from AutoCAD 2013
/// files on (`status_last`) the status comes after the connections, before
/// that right after the id.
pub open spec fn constraint_common_groups(
    node_id: i32,
    status: u8,
    connections: Seq<i32>,
    status_last: bool,
) -> Seq<GroupView> {
    seq![int_group(90, node_id)] + (if status_last {
        Seq::empty()
    } else {
        seq![byte_group(70, status)]
    }) + seq![int_group(90, connections.len() as i32)] + connections.map_values(
        |c: i32| int_group(90, c),
    ) + (if status_last {
        seq![byte_group(70, status)]
    } else {
        Seq::empty()
    })
}

fn push_int(out: &mut Vec<DxfGroup>, code: i32, v: i32)
    ensures
        groups_view(final(out)@) == groups_view(old(out)@).push(int_group(code, v)),
{
    out.push(DxfGroup { code, value: DxfGroupValue::Int32(v) });
    assert(groups_view(out@) =~= groups_view(old(out)@).push(int_group(code, v)));
}

fn push_bool(out: &mut Vec<DxfGroup>, code: i32, v: bool)
    ensures
        groups_view(final(out)@) == groups_view(old(out)@).push(bool_group(code, v)),
{
    out.push(DxfGroup { code, value: DxfGroupValue::Bool(v) });
    assert(groups_view(out@) =~= groups_view(old(out)@).push(bool_group(code, v)));
}

fn push_byte(out: &mut Vec<DxfGroup>, code: i32, v: u8)
    ensures
        groups_view(final(out)@) == groups_view(old(out)@).push(byte_group(code, v)),
{
    out.push(DxfGroup { code, value: DxfGroupValue::Byte(v) });
    assert(groups_view(out@) =~= groups_view(old(out)@).push(byte_group(code, v)));
}

fn push_handle(out: &mut Vec<DxfGroup>, code: i32, v: Handle)
    ensures
        groups_view(final(out)@) == groups_view(old(out)@).push(handle_group(code, v)),
{
    out.push(DxfGroup { code, value: DxfGroupValue::Handle(v) });
    assert(groups_view(out@) =~= groups_view(old(out)@).push(handle_group(code, v)));
}

fn push_double(out: &mut Vec<DxfGroup>, code: i32, v: u64)
    ensures
        groups_view(final(out)@) == groups_view(old(out)@).push(double_group(code, v)),
{
    out.push(DxfGroup { code, value: DxfGroupValue::Double(v) });
    assert(groups_view(out@) =~= groups_view(old(out)@).push(double_group(code, v)));
}

fn push_point(out: &mut Vec<DxfGroup>, code: i32, v: Vector3)
    ensures
        groups_view(final(out)@) == groups_view(old(out)@).push(point_group(code, v)),
{
    out.push(DxfGroup { code, value: DxfGroupValue::Point(v) });
    assert(groups_view(out@) =~= groups_view(old(out)@).push(point_group(code, v)));
}

fn push_int16(out: &mut Vec<DxfGroup>, code: i32, v: i16)
    ensures
        groups_view(final(out)@) == groups_view(old(out)@).push(int16_group(code, v)),
{
    out.push(DxfGroup { code, value: DxfGroupValue::Int16(v) });
    assert(groups_view(out@) =~= groups_view(old(out)@).push(int16_group(code, v)));
}

fn push_text(out: &mut Vec<DxfGroup>, code: i32, v: String)
    ensures
        groups_view(final(out)@) == groups_view(old(out)@).push(text_group(code, v@)),
{
    out.push(DxfGroup { code, value: DxfGroupValue::Text(v) });
    assert(groups_view(out@) =~= groups_view(old(out)@).push(text_group(code, v@)));
}

fn push_constraint_head(out: &mut Vec<DxfGroup>, owner_id: i32, is_implied: bool, is_active: bool)
    ensures
        groups_view(final(out)@) == groups_view(old(out)@) + constraint_head(owner_id, is_implied, is_active),
{
    push_int(out, 90, owner_id);
    push_bool(out, 290, is_implied);
    push_bool(out, 290, is_active);
    assert(groups_view(final(out)@) =~= groups_view(old(out)@) + constraint_head(owner_id, is_implied, is_active));
}

fn push_explicit_head(
    out: &mut Vec<DxfGroup>,
    owner_id: i32,
    is_implied: bool,
    is_active: bool,
    value_dependency: Handle,
    dimension_dependency: Handle,
)
    ensures
        groups_view(final(out)@) == groups_view(old(out)@) + explicit_head(
            owner_id,
            is_implied,
            is_active,
            value_dependency,
            dimension_dependency,
        ),
{
    push_constraint_head(out, owner_id, is_implied, is_active);
    push_handle(out, 340, value_dependency);
    push_handle(out, 340, dimension_dependency);
    assert(groups_view(final(out)@) =~= groups_view(old(out)@) + explicit_head(
        owner_id,
        is_implied,
        is_active,
        value_dependency,
        dimension_dependency,
    ));
}

fn push_geometry_head(out: &mut Vec<DxfGroup>, dependency: Handle, node_id: i32)
    ensures
        groups_view(final(out)@) == groups_view(old(out)@) + geometry_head(dependency, node_id),
{
    push_handle(out, 330, dependency);
    push_int(out, 90, node_id);
    assert(groups_view(final(out)@) =~= groups_view(old(out)@) + geometry_head(dependency, node_id));
}

fn push_optional_point(out: &mut Vec<DxfGroup>, p: Option<Vector3>)
    ensures
        groups_view(final(out)@) == groups_view(old(out)@) + optional_point(p),
{
    match p {
        Some(v) => push_point(out, 10, v),
        None => {},
    }
    assert(groups_view(final(out)@) =~= groups_view(old(out)@) + optional_point(p));
}

fn push_circle_body(
    out: &mut Vec<DxfGroup>,
    center: Vector3,
    normal: Vector3,
    direction: Vector3,
    radius: u64,
    start_parameter: u64,
    end_parameter: u64,
    reserved: u64,
)
    ensures
        groups_view(final(out)@) == groups_view(old(out)@) + circle_body(
            center,
            normal,
            direction,
            radius,
            start_parameter,
            end_parameter,
            reserved,
        ),
{
    push_point(out, 10, center);
    push_point(out, 10, normal);
    push_point(out, 10, direction);
    push_double(out, 40, radius);
    push_double(out, 40, start_parameter);
    push_double(out, 40, end_parameter);
    push_double(out, 40, reserved);
    assert(groups_view(final(out)@) =~= groups_view(old(out)@) + circle_body(
        center,
        normal,
        direction,
        radius,
        start_parameter,
        end_parameter,
        reserved,
    ));
}

/// Appends the groups of a constraint node's data.
pub fn write_constraint_data(value: &AssocConstraintNodeData, out: &mut Vec<DxfGroup>)
    ensures
        groups_view(final(out)@) == groups_view(old(out)@) + constraint_data_groups(*value),
{
    let ghost start = out@;
    match value {
        AssocConstraintNodeData::NoData => {},
        AssocConstraintNodeData::Geometrical { owner_id, is_implied, is_active } => {
            push_constraint_head(out, *owner_id, *is_implied, *is_active);
        },
        AssocConstraintNodeData::Angle {
            owner_id,
            is_implied,
            is_active,
            value_dependency,
            dimension_dependency,
            sector_type,
        } => {
            push_explicit_head(
                out,
                *owner_id,
                *is_implied,
                *is_active,
                *value_dependency,
                *dimension_dependency,
            );
            push_byte(out, 280, *sector_type);
        },
        AssocConstraintNodeData::Parallel { owner_id, is_implied, is_active, datum_line_index } => {
            push_constraint_head(out, *owner_id, *is_implied, *is_active);
            match datum_line_index {
                Some(i) => push_int(out, 90, *i),
                None => {},
            }
        },
        AssocConstraintNodeData::Distance {
            owner_id,
            is_implied,
            is_active,
            value_dependency,
            dimension_dependency,
            direction_type,
            distance,
        } => {
            push_explicit_head(
                out,
                *owner_id,
                *is_implied,
                *is_active,
                *value_dependency,
                *dimension_dependency,
            );
            push_byte(out, 280, *direction_type);
            push_optional_point(out, *distance);
        },
        AssocConstraintNodeData::RadiusDiameter {
            owner_id,
            is_implied,
            is_active,
            value_dependency,
            dimension_dependency,
            mode,
        } => {
            push_explicit_head(
                out,
                *owner_id,
                *is_implied,
                *is_active,
                *value_dependency,
                *dimension_dependency,
            );
            push_byte(out, 280, *mode);
        },
        AssocConstraintNodeData::ImplicitPoint {
            geometry_dependency,
            geometry_node_id,
            point,
            point_type,
            point_index,
            curve_id,
        } => {
            push_geometry_head(out, *geometry_dependency, *geometry_node_id);
            push_optional_point(out, *point);
            push_byte(out, 280, *point_type);
            push_int(out, 90, *point_index);
            push_int(out, 90, *curve_id);
        },
        AssocConstraintNodeData::Point { geometry_dependency, geometry_node_id, point } => {
            push_geometry_head(out, *geometry_dependency, *geometry_node_id);
            push_optional_point(out, *point);
        },
        AssocConstraintNodeData::Line { geometry_dependency, geometry_node_id, point, direction } => {
            push_geometry_head(out, *geometry_dependency, *geometry_node_id);
            push_point(out, 10, *point);
            push_point(out, 10, *direction);
        },
        AssocConstraintNodeData::BoundedLine {
            geometry_dependency,
            geometry_node_id,
            point,
            direction,
            is_ray,
            start_point,
            end_point,
        } => {
            push_geometry_head(out, *geometry_dependency, *geometry_node_id);
            push_point(out, 10, *point);
            push_point(out, 10, *direction);
            push_bool(out, 290, *is_ray);
            push_point(out, 10, *start_point);
            push_point(out, 11, *end_point);
        },
        AssocConstraintNodeData::Circle {
            geometry_dependency,
            geometry_node_id,
            center,
            normal,
            direction,
            radius,
            start_parameter,
            end_parameter,
            reserved,
        } => {
            push_geometry_head(out, *geometry_dependency, *geometry_node_id);
            push_circle_body(
                out,
                *center,
                *normal,
                *direction,
                *radius,
                *start_parameter,
                *end_parameter,
                *reserved,
            );
        },
        AssocConstraintNodeData::Arc {
            geometry_dependency,
            geometry_node_id,
            center,
            normal,
            direction,
            radius,
            start_parameter,
            end_parameter,
            reserved,
            start_point,
            end_point,
        } => {
            push_geometry_head(out, *geometry_dependency, *geometry_node_id);
            push_circle_body(
                out,
                *center,
                *normal,
                *direction,
                *radius,
                *start_parameter,
                *end_parameter,
                *reserved,
            );
            push_point(out, 10, *start_point);
            push_point(out, 11, *end_point);
        },
        AssocConstraintNodeData::Ellipse {
            owner_id,
            is_implied,
            is_active,
            center,
            short_axis,
            axis_ratio,
        } => {
            push_constraint_head(out, *owner_id, *is_implied, *is_active);
            push_point(out, 10, *center);
            push_point(out, 11, *short_axis);
            push_double(out, 40, *axis_ratio);
        },
        AssocConstraintNodeData::BoundedEllipse {
            owner_id,
            is_implied,
            is_active,
            center,
            short_axis,
            axis_ratio,
            start_point,
            end_point,
        } => {
            push_constraint_head(out, *owner_id, *is_implied, *is_active);
            push_point(out, 10, *center);
            push_point(out, 11, *short_axis);
            push_double(out, 40, *axis_ratio);
            push_point(out, 10, *start_point);
            push_point(out, 11, *end_point);
        },
    }
    assert(groups_view(out@) =~= groups_view(start) + constraint_data_groups(*value));
}

/// Appends the groups of a node's id, status and connections; the status
/// goes last for AutoCAD 2013 files and later (`status_last`).
pub fn write_constraint_common(node: &AssocConstraintNode, status_last: bool, out: &mut Vec<DxfGroup>)
    ensures
        groups_view(final(out)@) == groups_view(old(out)@) + constraint_common_groups(
            node.node_id,
            node.status,
            node.connections@,
            status_last,
        ),
{
    let ghost start = out@;
    push_int(out, 90, node.node_id);
    if !status_last {
        push_byte(out, 70, node.status);
    }
    let ghost mid = out@;
    let count = #[verifier::truncate] (node.connections.len() as i32);
    push_int(out, 90, count);
    let mut i: usize = 0;
    while i < node.connections.len()
        invariant
            i <= node.connections.len(),
            groups_view(out@) == groups_view(mid).push(int_group(90, node.connections.len() as i32)) + node.connections@.take(
                i as int,
            ).map_values(|c: i32| int_group(90, c)),
        decreases node.connections.len() - i,
    {
        push_int(out, 90, node.connections[i]);
        i = i + 1;
        assert(node.connections@.take(i as int).map_values(|c: i32| int_group(90, c))
            =~= node.connections@.take(i - 1).map_values(|c: i32| int_group(90, c)).push(
            int_group(90, node.connections@[i - 1]),
        ));
    }
    assert(node.connections@.take(node.connections.len() as int) =~= node.connections@);
    if status_last {
        push_byte(out, 70, node.status);
    }
    assert(groups_view(out@) =~= groups_view(start) + constraint_common_groups(
        node.node_id,
        node.status,
        node.connections@,
        status_last,
    ));
}

/// A value as an associative object stores it.
#[derive(Clone, Debug, PartialEq, Eq)]
pub enum AssocEvalValue {
    NoValue,
    Real(u64),
    Long(i32),
    Short(i16),
    Byte(u8),
    Text(String),
    Handle(Handle),
}

/// A value with the group code it was stored under (0 where none was).
#[derive(Clone, Debug, PartialEq, Eq)]
pub struct AssocEvalVariant {
    pub code: i16,
    pub value: AssocEvalValue,
}

/// One variable of a value parameter: its value and the handle beside it.
#[derive(Clone, Debug, PartialEq, Eq)]
pub struct AssocValueParamVariable {
    pub value: AssocEvalVariant,
    pub handle: Handle,
}

/// A named value parameter of an action.
#[derive(Clone, Debug, PartialEq, Eq)]
pub struct AssocValueParam {
    pub class_version: i32,
    pub name: String,
    pub unit_type: i32,
    pub variables: Vec<AssocValueParamVariable>,
    pub controlled_object_dependency: Handle,
}

/// A dependency of an action, owned by it or only referenced.
#[derive(Clone, Copy, Debug, PartialEq, Eq)]
pub struct AssocActionDependency {
    pub is_owned: bool,
    pub dependency: Handle,
}

/// The action part of an associative object.
#[derive(Clone, Debug, PartialEq, Eq)]
pub struct AssocAction {
    pub class_version: i16,
    pub geometry_status: i32,
    pub owning_network: Handle,
    pub action_body: Handle,
    pub action_index: i32,
    pub max_dependency_index: i32,
    pub dependencies: Vec<AssocActionDependency>,
    pub owned_parameters: Vec<Handle>,
    pub values: Vec<AssocValueParam>,
}

/// A 2D constraint group: its action, work plane, dependency, actions and
/// nodes (the root node is the one without a class name).
#[derive(Clone, Debug, PartialEq, Eq)]
pub struct Assoc2dConstraintGroup {
    pub action: AssocAction,
    pub version: i32,
    pub flag: bool,
    pub work_plane: [Vector3; 3],
    pub dependency: Handle,
    pub actions: Vec<Handle>,
    pub nodes: Vec<AssocConstraintNode>,
}

/// The group code a value is written under: its own, or `fallback` where
/// it has none.
pub open spec fn eval_code(code: i16, fallback: i32) -> i32 {
    if code == 0 {
        fallback
    } else {
        code as i32
    }
}

/// The group of a stored value; none for a value that is not there.
pub open spec fn eval_groups(v: AssocEvalVariant) -> Seq<GroupView> {
    match v.value {
        AssocEvalValue::NoValue => Seq::empty(),
        AssocEvalValue::Real(x) => seq![double_group(eval_code(v.code, 40), x)],
        AssocEvalValue::Long(x) => seq![int_group(eval_code(v.code, 90), x)],
        AssocEvalValue::Short(x) => seq![int16_group(eval_code(v.code, 70), x)],
        AssocEvalValue::Byte(x) => seq![byte_group(eval_code(v.code, 280), x)],
        AssocEvalValue::Text(t) => seq![text_group(eval_code(v.code, 1), t@)],
        AssocEvalValue::Handle(h) => seq![handle_group(eval_code(v.code, 330), h)],
    }
}

/// Each variable's value, then its handle.
pub open spec fn variables_groups(vs: Seq<AssocValueParamVariable>) -> Seq<GroupView>
    decreases vs.len(),
{
    if vs.len() == 0 {
        Seq::empty()
    } else {
        variables_groups(vs.drop_last()) + eval_groups(vs.last().value) + seq![
            handle_group(330, vs.last().handle),
        ]
    }
}

pub open spec fn value_param_groups(p: AssocValueParam) -> Seq<GroupView> {
    seq![
        int_group(90, p.class_version),
        text_group(1, p.name@),
        int_group(90, p.unit_type),
        int_group(90, p.variables@.len() as i32),
    ] + variables_groups(p.variables@) + seq![handle_group(330, p.controlled_object_dependency)]
}

pub open spec fn value_params_groups(ps: Seq<AssocValueParam>) -> Seq<GroupView>
    decreases ps.len(),
{
    if ps.len() == 0 {
        Seq::empty()
    } else {
        value_params_groups(ps.drop_last()) + value_param_groups(ps.last())
    }
}

/// A dependency under 360 when the action owns it, 330 otherwise.
pub open spec fn dependency_group(d: AssocActionDependency) -> GroupView {
    handle_group(if d.is_owned { 360 } else { 330 }, d.dependency)
}

/// The groups of an action: its subclass marker, versions, network, body,
/// indices and dependencies, and from class version 2 on its owned
/// parameters and value parameters, each list after a zero and its count.
pub open spec fn action_groups(a: AssocAction) -> Seq<GroupView> {
    seq![
        text_group(100, "AcDbAssocAction"@),
        int16_group(90, a.class_version),
        int_group(90, a.geometry_status),
        handle_group(330, a.owning_network),
        handle_group(360, a.action_body),
        int_group(90, a.action_index),
        int_group(90, a.max_dependency_index),
        int_group(90, a.dependencies@.len() as i32),
    ] + a.dependencies@.map_values(|d: AssocActionDependency| dependency_group(d)) + if a.class_version
        > 1 {
        seq![int16_group(90, 0), int_group(90, a.owned_parameters@.len() as i32)]
            + a.owned_parameters@.map_values(|h: Handle| handle_group(360, h)) + seq![
            int16_group(90, 0),
            int_group(90, a.values@.len() as i32),
        ] + value_params_groups(a.values@)
    } else {
        Seq::empty()
    }
}

/// A node registered under a class (every node but the root).
pub open spec fn is_registered(n: AssocConstraintNode) -> bool {
    n.class_name@.len() > 0
}

pub open spec fn registered_count(ns: Seq<AssocConstraintNode>) -> nat
    decreases ns.len(),
{
    if ns.len() == 0 {
        0
    } else {
        registered_count(ns.drop_last()) + if is_registered(ns.last()) {
            1nat
        } else {
            0nat
        }
    }
}

/// The first node without a class name.
pub open spec fn root_node(ns: Seq<AssocConstraintNode>) -> Option<AssocConstraintNode>
    decreases ns.len(),
{
    if ns.len() == 0 {
        None
    } else if !is_registered(ns[0]) {
        Some(ns[0])
    } else {
        root_node(ns.skip(1))
    }
}

/// The root node's id, connections and status flag, or zeros without one.
pub open spec fn root_groups(root: Option<AssocConstraintNode>) -> Seq<GroupView> {
    match root {
        Some(r) => seq![int_group(90, r.node_id), int_group(90, r.connections@.len() as i32)]
            + r.connections@.map_values(|c: i32| int_group(90, c)) + seq![
            bool_group(290, r.status != 0),
        ],
        None => seq![int_group(90, 0), int_group(90, 0), bool_group(290, false)],
    }
}

/// The class name and id of each registered node.
pub open spec fn registry_groups(ns: Seq<AssocConstraintNode>) -> Seq<GroupView>
    decreases ns.len(),
{
    if ns.len() == 0 {
        Seq::empty()
    } else {
        registry_groups(ns.drop_last()) + if is_registered(ns.last()) {
            seq![text_group(1, ns.last().class_name@), int_group(90, ns.last().node_id)]
        } else {
            Seq::empty()
        }
    }
}

/// The common part and the data of each registered node.
pub open spec fn registered_nodes_groups(ns: Seq<AssocConstraintNode>, status_last: bool) -> Seq<
    GroupView,
>
    decreases ns.len(),
{
    if ns.len() == 0 {
        Seq::empty()
    } else {
        registered_nodes_groups(ns.drop_last(), status_last) + if is_registered(ns.last()) {
            constraint_common_groups(
                ns.last().node_id,
                ns.last().status,
                ns.last().connections@,
                status_last,
            ) + constraint_data_groups(ns.last().data)
        } else {
            Seq::empty()
        }
    }
}

/// The groups of a 2D constraint group.
pub open spec fn constraint_group_groups(g: Assoc2dConstraintGroup, status_last: bool) -> Seq<
    GroupView,
> {
    let reg = registered_count(g.nodes@);
    action_groups(g.action) + seq![
        text_group(100, "AcDbAssoc2dConstraintGroup"@),
        int_group(90, g.version),
        bool_group(70, g.flag),
        point_group(10, g.work_plane@[0]),
        point_group(10, g.work_plane@[1]),
        point_group(10, g.work_plane@[2]),
        handle_group(360, g.dependency),
        int_group(90, g.actions@.len() as i32),
    ] + g.actions@.map_values(|h: Handle| handle_group(360, h)) + seq![
        int_group(90, (reg as i32 + 1) as i32),
    ] + root_groups(root_node(g.nodes@)) + seq![int_group(90, reg as i32)] + registry_groups(
        g.nodes@,
    ) + registered_nodes_groups(g.nodes@, status_last)
}

/// Appends the group of a stored value.
pub fn write_assoc_eval(value: &AssocEvalVariant, out: &mut Vec<DxfGroup>)
    ensures
        groups_view(final(out)@) == groups_view(old(out)@) + eval_groups(*value),
{
    let c = value.code;
    match &value.value {
        AssocEvalValue::NoValue => {},
        AssocEvalValue::Real(x) => push_double(out, if c == 0 { 40 } else { c as i32 }, *x),
        AssocEvalValue::Long(x) => push_int(out, if c == 0 { 90 } else { c as i32 }, *x),
        AssocEvalValue::Short(x) => push_int16(out, if c == 0 { 70 } else { c as i32 }, *x),
        AssocEvalValue::Byte(x) => push_byte(out, if c == 0 { 280 } else { c as i32 }, *x),
        AssocEvalValue::Text(t) => push_text(out, if c == 0 { 1 } else { c as i32 }, owned(t.as_str())),
        AssocEvalValue::Handle(h) => push_handle(out, if c == 0 { 330 } else { c as i32 }, *h),
    }
    assert(groups_view(out@) =~= groups_view(old(out)@) + eval_groups(*value));
}

/// Appends the groups of a value parameter.
pub fn write_assoc_value_param(value: &AssocValueParam, out: &mut Vec<DxfGroup>)
    ensures
        groups_view(final(out)@) == groups_view(old(out)@) + value_param_groups(*value),
{
    let ghost start = out@;
    push_int(out, 90, value.class_version);
    push_text(out, 1, owned(value.name.as_str()));
    push_int(out, 90, value.unit_type);
    let count = #[verifier::truncate] (value.variables.len() as i32);
    push_int(out, 90, count);
    let ghost head = groups_view(out@);
    let mut i: usize = 0;
    while i < value.variables.len()
        invariant
            i <= value.variables.len(),
            groups_view(out@) == head + variables_groups(value.variables@.take(i as int)),
        decreases value.variables.len() - i,
    {
        write_assoc_eval(&value.variables[i].value, out);
        push_handle(out, 330, value.variables[i].handle);
        proof {
            assert(value.variables@.take(i + 1).drop_last() =~= value.variables@.take(i as int));
        }
        i = i + 1;
        assert(groups_view(out@) =~= head + variables_groups(value.variables@.take(i as int)));
    }
    assert(value.variables@.take(value.variables.len() as int) =~= value.variables@);
    push_handle(out, 330, value.controlled_object_dependency);
    assert(groups_view(out@) =~= groups_view(start) + value_param_groups(*value));
}

/// Appends the groups of an action.
pub fn write_assoc_action(value: &AssocAction, out: &mut Vec<DxfGroup>)
    ensures
        groups_view(final(out)@) == groups_view(old(out)@) + action_groups(*value),
{
    let ghost start = out@;
    push_text(out, 100, owned("AcDbAssocAction"));
    push_int16(out, 90, value.class_version);
    push_int(out, 90, value.geometry_status);
    push_handle(out, 330, value.owning_network);
    push_handle(out, 360, value.action_body);
    push_int(out, 90, value.action_index);
    push_int(out, 90, value.max_dependency_index);
    let count = #[verifier::truncate] (value.dependencies.len() as i32);
    push_int(out, 90, count);
    let ghost head = groups_view(out@);
    let mut i: usize = 0;
    while i < value.dependencies.len()
        invariant
            i <= value.dependencies.len(),
            groups_view(out@) == head + value.dependencies@.take(i as int).map_values(
                |d: AssocActionDependency| dependency_group(d),
            ),
        decreases value.dependencies.len() - i,
    {
        let d = value.dependencies[i];
        push_handle(out, if d.is_owned { 360 } else { 330 }, d.dependency);
        i = i + 1;
        assert(groups_view(out@) =~= head + value.dependencies@.take(i as int).map_values(
            |d: AssocActionDependency| dependency_group(d),
        ));
    }
    assert(value.dependencies@.take(value.dependencies.len() as int) =~= value.dependencies@);
    let ghost mid = groups_view(out@);
    if value.class_version > 1 {
        push_int16(out, 90, 0);
        let owned_count = #[verifier::truncate] (value.owned_parameters.len() as i32);
        push_int(out, 90, owned_count);
        let ghost head2 = groups_view(out@);
        let mut k: usize = 0;
        while k < value.owned_parameters.len()
            invariant
                k <= value.owned_parameters.len(),
                groups_view(out@) == head2 + value.owned_parameters@.take(k as int).map_values(
                    |h: Handle| handle_group(360, h),
                ),
            decreases value.owned_parameters.len() - k,
        {
            push_handle(out, 360, value.owned_parameters[k]);
            k = k + 1;
            assert(groups_view(out@) =~= head2 + value.owned_parameters@.take(k as int).map_values(
                |h: Handle| handle_group(360, h),
            ));
        }
        assert(value.owned_parameters@.take(value.owned_parameters.len() as int)
            =~= value.owned_parameters@);
        push_int16(out, 90, 0);
        let values_count = #[verifier::truncate] (value.values.len() as i32);
        push_int(out, 90, values_count);
        let ghost head3 = groups_view(out@);
        let mut j: usize = 0;
        while j < value.values.len()
            invariant
                j <= value.values.len(),
                groups_view(out@) == head3 + value_params_groups(value.values@.take(j as int)),
            decreases value.values.len() - j,
        {
            write_assoc_value_param(&value.values[j], out);
            proof {
                assert(value.values@.take(j + 1).drop_last() =~= value.values@.take(j as int));
            }
            j = j + 1;
            assert(groups_view(out@) =~= head3 + value_params_groups(value.values@.take(j as int)));
        }
        assert(value.values@.take(value.values.len() as int) =~= value.values@);
    }
    assert(groups_view(out@) =~= groups_view(start) + action_groups(*value));
}

proof fn lemma_root_skip(ns: Seq<AssocConstraintNode>, i: int)
    requires
        0 <= i <= ns.len(),
        forall|j: int| 0 <= j < i ==> is_registered(#[trigger] ns[j]),
    ensures
        root_node(ns) == root_node(ns.skip(i)),
    decreases i,
{
    if i > 0 {
        assert(is_registered(ns[0]));
        let t = ns.skip(1);
        assert forall|j: int| 0 <= j < i - 1 implies is_registered(#[trigger] t[j]) by {
            assert(t[j] == ns[j + 1]);
        }
        lemma_root_skip(t, i - 1);
        assert(t.skip(i - 1) =~= ns.skip(i));
    } else {
        assert(ns.skip(0) =~= ns);
    }
}

proof fn lemma_registered_count_le(ns: Seq<AssocConstraintNode>)
    ensures
        registered_count(ns) <= ns.len(),
    decreases ns.len(),
{
    if ns.len() > 0 {
        lemma_registered_count_le(ns.drop_last());
    }
}

fn push_ints(out: &mut Vec<DxfGroup>, code: i32, vs: &Vec<i32>)
    ensures
        groups_view(final(out)@) == groups_view(old(out)@) + vs@.map_values(|c: i32| int_group(code, c)),
{
    let ghost head = groups_view(out@);
    let mut i: usize = 0;
    while i < vs.len()
        invariant
            i <= vs.len(),
            groups_view(out@) == head + vs@.take(i as int).map_values(|c: i32| int_group(code, c)),
        decreases vs.len() - i,
    {
        push_int(out, code, vs[i]);
        i = i + 1;
        assert(groups_view(out@) =~= head + vs@.take(i as int).map_values(|c: i32| int_group(code, c)));
    }
    assert(vs@.take(vs.len() as int) =~= vs@);
}

fn push_handles(out: &mut Vec<DxfGroup>, code: i32, hs: &Vec<Handle>)
    ensures
        groups_view(final(out)@) == groups_view(old(out)@) + hs@.map_values(
            |h: Handle| handle_group(code, h),
        ),
{
    let ghost head = groups_view(out@);
    let mut i: usize = 0;
    while i < hs.len()
        invariant
            i <= hs.len(),
            groups_view(out@) == head + hs@.take(i as int).map_values(|h: Handle| handle_group(code, h)),
        decreases hs.len() - i,
    {
        push_handle(out, code, hs[i]);
        i = i + 1;
        assert(groups_view(out@) =~= head + hs@.take(i as int).map_values(
            |h: Handle| handle_group(code, h),
        ));
    }
    assert(hs@.take(hs.len() as int) =~= hs@);
}

fn count_registered(ns: &Vec<AssocConstraintNode>) -> (r: usize)
    ensures
        r == registered_count(ns@),
{
    let mut registered: usize = 0;
    let mut i: usize = 0;
    while i < ns.len()
        invariant
            i <= ns.len(),
            registered == registered_count(ns@.take(i as int)),
            registered <= i,
        decreases ns.len() - i,
    {
        proof {
            assert(ns@.take(i + 1).drop_last() =~= ns@.take(i as int));
        }
        if !is_empty_text(ns[i].class_name.as_str()) {
            registered = registered + 1;
        }
        i = i + 1;
    }
    assert(ns@.take(ns.len() as int) =~= ns@);
    registered
}

fn write_root(ns: &Vec<AssocConstraintNode>, out: &mut Vec<DxfGroup>)
    ensures
        groups_view(final(out)@) == groups_view(old(out)@) + root_groups(root_node(ns@)),
{
    let mut k: usize = 0;
    while k < ns.len() && !is_empty_text(ns[k].class_name.as_str())
        invariant
            k <= ns.len(),
            forall|j: int| 0 <= j < k ==> is_registered(#[trigger] ns@[j]),
        decreases ns.len() - k,
    {
        k = k + 1;
    }
    proof {
        lemma_root_skip(ns@, k as int);
    }
    if k < ns.len() {
        let root = &ns[k];
        proof {
            assert(ns@.skip(k as int)[0] == ns@[k as int]);
        }
        push_int(out, 90, root.node_id);
        let conns = #[verifier::truncate] (root.connections.len() as i32);
        push_int(out, 90, conns);
        push_ints(out, 90, &root.connections);
        push_bool(out, 290, root.status != 0);
    } else {
        proof {
            assert(ns@.skip(k as int).len() == 0);
        }
        push_int(out, 90, 0);
        push_int(out, 90, 0);
        push_bool(out, 290, false);
    }
    assert(groups_view(out@) =~= groups_view(old(out)@) + root_groups(root_node(ns@)));
}

fn write_registry(ns: &Vec<AssocConstraintNode>, out: &mut Vec<DxfGroup>)
    ensures
        groups_view(final(out)@) == groups_view(old(out)@) + registry_groups(ns@),
{
    let ghost head = groups_view(out@);
    let mut j: usize = 0;
    while j < ns.len()
        invariant
            j <= ns.len(),
            groups_view(out@) == head + registry_groups(ns@.take(j as int)),
        decreases ns.len() - j,
    {
        proof {
            assert(ns@.take(j + 1).drop_last() =~= ns@.take(j as int));
        }
        if !is_empty_text(ns[j].class_name.as_str()) {
            push_text(out, 1, owned(ns[j].class_name.as_str()));
            push_int(out, 90, ns[j].node_id);
        }
        j = j + 1;
        assert(groups_view(out@) =~= head + registry_groups(ns@.take(j as int)));
    }
    assert(ns@.take(ns.len() as int) =~= ns@);
}

fn write_registered_nodes(ns: &Vec<AssocConstraintNode>, status_last: bool, out: &mut Vec<DxfGroup>)
    ensures
        groups_view(final(out)@) == groups_view(old(out)@) + registered_nodes_groups(
            ns@,
            status_last,
        ),
{
    let ghost head = groups_view(out@);
    let mut m: usize = 0;
    while m < ns.len()
        invariant
            m <= ns.len(),
            groups_view(out@) == head + registered_nodes_groups(ns@.take(m as int), status_last),
        decreases ns.len() - m,
    {
        proof {
            assert(ns@.take(m + 1).drop_last() =~= ns@.take(m as int));
        }
        if !is_empty_text(ns[m].class_name.as_str()) {
            write_constraint_common(&ns[m], status_last, out);
            write_constraint_data(&ns[m].data, out);
        }
        m = m + 1;
        assert(groups_view(out@) =~= head + registered_nodes_groups(
            ns@.take(m as int),
            status_last,
        ));
    }
    assert(ns@.take(ns.len() as int) =~= ns@);
}

fn write_group_head(value: &Assoc2dConstraintGroup, out: &mut Vec<DxfGroup>)
    ensures
        groups_view(final(out)@) == groups_view(old(out)@) + seq![
            text_group(100, "AcDbAssoc2dConstraintGroup"@),
            int_group(90, value.version),
            bool_group(70, value.flag),
            point_group(10, value.work_plane@[0]),
            point_group(10, value.work_plane@[1]),
            point_group(10, value.work_plane@[2]),
            handle_group(360, value.dependency),
            int_group(90, value.actions@.len() as i32),
        ] + value.actions@.map_values(|h: Handle| handle_group(360, h)),
{
    let ghost start = groups_view(out@);
    push_text(out, 100, owned("AcDbAssoc2dConstraintGroup"));
    push_int(out, 90, value.version);
    push_bool(out, 70, value.flag);
    push_point(out, 10, value.work_plane[0]);
    push_point(out, 10, value.work_plane[1]);
    push_point(out, 10, value.work_plane[2]);
    push_handle(out, 360, value.dependency);
    let count = #[verifier::truncate] (value.actions.len() as i32);
    push_int(out, 90, count);
    let ghost mid = groups_view(out@);
    push_handles(out, 360, &value.actions);
    assert(mid =~= start + seq![
        text_group(100, "AcDbAssoc2dConstraintGroup"@),
        int_group(90, value.version),
        bool_group(70, value.flag),
        point_group(10, value.work_plane@[0]),
        point_group(10, value.work_plane@[1]),
        point_group(10, value.work_plane@[2]),
        handle_group(360, value.dependency),
        int_group(90, value.actions@.len() as i32),
    ]);
}

/// Appends the groups of a 2D constraint group: its action, then its own
/// subclass with the root node first and every registered node after it;
/// the node status goes last for AutoCAD 2013 files and later
/// (`status_last`).
pub fn write_constraint_group(value: &Assoc2dConstraintGroup, status_last: bool, out: &mut Vec<
    DxfGroup,
>)
    requires
        value.nodes.len() < 0x7FFF_FFFF,
    ensures
        groups_view(final(out)@) == groups_view(old(out)@) + constraint_group_groups(
            *value,
            status_last,
        ),
{
    let ghost g0 = groups_view(out@);
    write_assoc_action(&value.action, out);
    let ghost g1 = groups_view(out@);
    write_group_head(value, out);
    let ghost g2 = groups_view(out@);
    let registered = count_registered(&value.nodes);
    proof {
        lemma_registered_count_le(value.nodes@);
    }
    push_int(out, 90, registered as i32 + 1);
    let ghost g3 = groups_view(out@);
    write_root(&value.nodes, out);
    let ghost g4 = groups_view(out@);
    push_int(out, 90, registered as i32);
    let ghost g5 = groups_view(out@);
    write_registry(&value.nodes, out);
    let ghost g6 = groups_view(out@);
    write_registered_nodes(&value.nodes, status_last, out);
    proof {
        let reg = registered_count(value.nodes@);
        assert((reg as i32 + 1) as i32 == registered as i32 + 1);
        assert(groups_view(out@) =~= g0 + constraint_group_groups(*value, status_last));
    }
}

/// A dependency of an associative action.
#[derive(Clone, Debug, PartialEq, Eq)]
pub struct AssocDependency {
    pub class_version: i16,
    pub status: i32,
    pub is_read_dependency: bool,
    pub is_write_dependency: bool,
    pub is_attached_to_object: bool,
    pub is_delegating_to_owning_action: bool,
    pub order: i32,
    pub dependent_on: Handle,
    pub name: Option<String>,
    pub read_dependency: Handle,
    pub node: Handle,
    pub dependency_body: Handle,
    pub dependency_body_id: i32,
}

/// The version of an action body.
#[derive(Clone, Copy, Debug, PartialEq, Eq)]
pub struct AssocActionBody {
    pub version: i32,
}

/// The parameter part of a parameter-based action body.
#[derive(Clone, Debug, PartialEq, Eq)]
pub struct AssocParamBasedActionBody {
    pub version: i32,
    pub minor: i32,
    pub dependencies: Vec<Handle>,
    pub marker: i32,
    pub values: Vec<AssocValueParam>,
    pub empty_value_marker: i32,
    pub dependency: Handle,
}

/// The common part of an action parameter.
#[derive(Clone, Debug, PartialEq, Eq)]
pub struct AssocActionParam {
    pub is_r2013: i16,
    pub version: i32,
    pub name: String,
}

/// An action parameter with one dependency.
#[derive(Clone, Debug, PartialEq, Eq)]
pub struct AssocSingleDependencyActionParam {
    pub action_param: AssocActionParam,
    pub dependency_class_version: i32,
    pub dependency: Handle,
    pub class_version: i32,
}

/// The child parameter of a compound action parameter.
#[derive(Clone, Copy, Debug, PartialEq, Eq)]
pub struct AssocChildParameter {
    pub status: i16,
    pub id: i32,
    pub parameter: Handle,
    pub secondary_parameter: Handle,
    pub marker: i32,
    pub tertiary_parameter: Handle,
}

/// An action parameter made of other parameters.
#[derive(Clone, Debug, PartialEq, Eq)]
pub struct AssocCompoundActionParam {
    pub action_param: AssocActionParam,
    pub class_version: i16,
    pub status: i16,
    pub parameters: Vec<Handle>,
    pub child_parameter: Option<AssocChildParameter>,
}

/// The persistent sub-entity manager of a drawing.
#[derive(Clone, Debug, PartialEq, Eq)]
pub struct PersSubentManager {
    pub class_version: i32,
    pub marker_zero: i32,
    pub marker_two: i32,
    pub associative_step_count: i32,
    pub associative_subent_count: i32,
    pub steps: Vec<i32>,
    pub subents: Vec<i32>,
}

pub open spec fn dependency_groups(d: AssocDependency) -> Seq<GroupView> {
    seq![
        text_group(100, "AcDbAssocDependency"@),
        int16_group(90, d.class_version),
        int_group(90, d.status),
        bool_group(290, d.is_read_dependency),
        bool_group(290, d.is_write_dependency),
        bool_group(290, d.is_attached_to_object),
        bool_group(290, d.is_delegating_to_owning_action),
        int_group(90, d.order),
        handle_group(330, d.dependent_on),
        bool_group(290, d.name is Some),
    ] + match d.name {
        Some(n) => seq![text_group(1, n@)],
        None => Seq::empty(),
    } + seq![
        handle_group(330, d.read_dependency),
        handle_group(330, d.node),
        handle_group(360, d.dependency_body),
        int_group(90, d.dependency_body_id),
    ]
}

pub open spec fn action_body_groups(b: AssocActionBody) -> Seq<GroupView> {
    seq![text_group(100, "AcDbAssocActionBody"@), int_group(90, b.version)]
}

/// Nothing for a body with no content at all; otherwise its versions, its
/// dependencies, and its value parameters, or where it has none the empty
/// marker and the dependency.
pub open spec fn parameter_body_groups(b: AssocParamBasedActionBody) -> Seq<GroupView> {
    if b.version == 0 && b.minor == 0 && b.dependencies@.len() == 0 && b.values@.len() == 0
        && b.dependency.0 == 0 {
        Seq::empty()
    } else {
        seq![
            text_group(100, "AcDbAssocParamBasedActionBody"@),
            int_group(90, b.version),
            int_group(90, b.minor),
            int_group(90, b.dependencies@.len() as i32),
        ] + b.dependencies@.map_values(|h: Handle| handle_group(360, h)) + seq![
            int_group(90, b.marker),
            int_group(90, b.values@.len() as i32),
        ] + (if b.values@.len() == 0 {
            seq![int_group(90, b.empty_value_marker), handle_group(330, b.dependency)]
        } else {
            Seq::empty()
        }) + value_params_groups(b.values@)
    }
}

/// An action parameter's groups; the version is written for AutoCAD 2013
/// files and later (`version_2013`).
pub open spec fn action_param_groups(p: AssocActionParam, version_2013: bool) -> Seq<GroupView> {
    seq![text_group(100, "AcDbAssocActionParam"@), int16_group(90, p.is_r2013)] + (if version_2013 {
        seq![int_group(90, p.version)]
    } else {
        Seq::empty()
    }) + seq![text_group(1, p.name@)]
}

pub open spec fn single_dependency_groups(
    p: AssocSingleDependencyActionParam,
    leaf: Seq<char>,
    version_2013: bool,
) -> Seq<GroupView> {
    action_param_groups(p.action_param, version_2013) + seq![
        text_group(100, "AcDbAssocSingleDependencyActionParam"@),
        int_group(90, p.dependency_class_version),
        handle_group(330, p.dependency),
        text_group(100, leaf),
        int_group(90, p.class_version),
    ]
}

pub open spec fn child_parameter_groups(c: Option<AssocChildParameter>) -> Seq<GroupView> {
    match c {
        Some(child) => seq![
            int16_group(90, child.status),
            int_group(90, child.id),
            handle_group(330, child.parameter),
        ] + if child.id != 0 {
            seq![
                handle_group(330, child.secondary_parameter),
                int_group(90, child.marker),
                handle_group(330, child.tertiary_parameter),
            ]
        } else {
            Seq::empty()
        },
        None => Seq::empty(),
    }
}

pub open spec fn compound_groups(p: AssocCompoundActionParam, version_2013: bool) -> Seq<GroupView> {
    action_param_groups(p.action_param, version_2013) + seq![
        text_group(100, "AcDbAssocCompoundActionParam"@),
        int16_group(90, p.class_version),
        int16_group(90, p.status),
        int_group(90, p.parameters@.len() as i32),
    ] + p.parameters@.map_values(|h: Handle| handle_group(360, h)) + child_parameter_groups(
        p.child_parameter,
    )
}

/// The manager's markers and counts and its steps; its sub-entities only
/// where it counts some or holds some.
pub open spec fn pers_subent_manager_groups(m: PersSubentManager) -> Seq<GroupView> {
    seq![
        text_group(100, "AcDbPersSubentManager"@),
        int_group(90, m.class_version),
        int_group(90, m.marker_zero),
        int_group(90, m.marker_two),
        int_group(90, m.associative_step_count),
        int_group(90, m.associative_subent_count),
        int_group(90, m.steps@.len() as i32),
    ] + m.steps@.map_values(|c: i32| int_group(90, c)) + if m.associative_subent_count != 0
        || m.subents@.len() > 0 {
        seq![int_group(90, m.subents@.len() as i32)] + m.subents@.map_values(
            |c: i32| int_group(90, c),
        )
    } else {
        Seq::empty()
    }
}

fn push_value_params(out: &mut Vec<DxfGroup>, ps: &Vec<AssocValueParam>)
    ensures
        groups_view(final(out)@) == groups_view(old(out)@) + value_params_groups(ps@),
{
    let ghost head = groups_view(out@);
    let mut j: usize = 0;
    while j < ps.len()
        invariant
            j <= ps.len(),
            groups_view(out@) == head + value_params_groups(ps@.take(j as int)),
        decreases ps.len() - j,
    {
        write_assoc_value_param(&ps[j], out);
        proof {
            assert(ps@.take(j + 1).drop_last() =~= ps@.take(j as int));
        }
        j = j + 1;
        assert(groups_view(out@) =~= head + value_params_groups(ps@.take(j as int)));
    }
    assert(ps@.take(ps.len() as int) =~= ps@);
}

/// Appends the groups of a dependency.
pub fn write_assoc_dependency(value: &AssocDependency, out: &mut Vec<DxfGroup>)
    ensures
        groups_view(final(out)@) == groups_view(old(out)@) + dependency_groups(*value),
{
    let ghost start = groups_view(out@);
    push_text(out, 100, owned("AcDbAssocDependency"));
    push_int16(out, 90, value.class_version);
    push_int(out, 90, value.status);
    push_bool(out, 290, value.is_read_dependency);
    push_bool(out, 290, value.is_write_dependency);
    push_bool(out, 290, value.is_attached_to_object);
    push_bool(out, 290, value.is_delegating_to_owning_action);
    push_int(out, 90, value.order);
    push_handle(out, 330, value.dependent_on);
    push_bool(out, 290, value.name.is_some());
    match &value.name {
        Some(n) => push_text(out, 1, owned(n.as_str())),
        None => {},
    }
    push_handle(out, 330, value.read_dependency);
    push_handle(out, 330, value.node);
    push_handle(out, 360, value.dependency_body);
    push_int(out, 90, value.dependency_body_id);
    assert(groups_view(out@) =~= start + dependency_groups(*value));
}

/// Appends the groups of an action body.
pub fn write_assoc_action_body(value: &AssocActionBody, out: &mut Vec<DxfGroup>)
    ensures
        groups_view(final(out)@) == groups_view(old(out)@) + action_body_groups(*value),
{
    let ghost start = groups_view(out@);
    push_text(out, 100, owned("AcDbAssocActionBody"));
    push_int(out, 90, value.version);
    assert(groups_view(out@) =~= start + action_body_groups(*value));
}

/// Appends the groups of a parameter-based action body.
pub fn write_assoc_parameter_body(value: &AssocParamBasedActionBody, out: &mut Vec<DxfGroup>)
    ensures
        groups_view(final(out)@) == groups_view(old(out)@) + parameter_body_groups(*value),
{
    let ghost start = groups_view(out@);
    if value.version == 0 && value.minor == 0 && value.dependencies.len() == 0
        && value.values.len() == 0 && value.dependency.0 == 0 {
        assert(groups_view(out@) =~= start + parameter_body_groups(*value));
        return;
    }
    push_text(out, 100, owned("AcDbAssocParamBasedActionBody"));
    push_int(out, 90, value.version);
    push_int(out, 90, value.minor);
    let count = #[verifier::truncate] (value.dependencies.len() as i32);
    push_int(out, 90, count);
    let ghost g1 = groups_view(out@);
    push_handles(out, 360, &value.dependencies);
    let ghost g2 = groups_view(out@);
    push_int(out, 90, value.marker);
    let values_count = #[verifier::truncate] (value.values.len() as i32);
    push_int(out, 90, values_count);
    if value.values.len() == 0 {
        push_int(out, 90, value.empty_value_marker);
        push_handle(out, 330, value.dependency);
    }
    let ghost g3 = groups_view(out@);
    push_value_params(out, &value.values);
    assert(groups_view(out@) =~= start + parameter_body_groups(*value));
}

/// Appends the groups of an action parameter; the version is written for
/// AutoCAD 2013 files and later (`version_2013`).
pub fn write_assoc_action_param(value: &AssocActionParam, version_2013: bool, out: &mut Vec<DxfGroup>)
    ensures
        groups_view(final(out)@) == groups_view(old(out)@) + action_param_groups(*value, version_2013),
{
    let ghost start = groups_view(out@);
    push_text(out, 100, owned("AcDbAssocActionParam"));
    push_int16(out, 90, value.is_r2013);
    if version_2013 {
        push_int(out, 90, value.version);
    }
    push_text(out, 1, owned(value.name.as_str()));
    assert(groups_view(out@) =~= start + action_param_groups(*value, version_2013));
}

/// Appends the groups of a single-dependency action parameter, closed by
/// the subclass `leaf`.
pub fn write_assoc_single_dependency(
    value: &AssocSingleDependencyActionParam,
    leaf: &str,
    version_2013: bool,
    out: &mut Vec<DxfGroup>,
)
    ensures
        groups_view(final(out)@) == groups_view(old(out)@) + single_dependency_groups(
            *value,
            leaf@,
            version_2013,
        ),
{
    let ghost start = groups_view(out@);
    write_assoc_action_param(&value.action_param, version_2013, out);
    let ghost g1 = groups_view(out@);
    push_text(out, 100, owned("AcDbAssocSingleDependencyActionParam"));
    push_int(out, 90, value.dependency_class_version);
    push_handle(out, 330, value.dependency);
    push_text(out, 100, owned(leaf));
    push_int(out, 90, value.class_version);
    assert(groups_view(out@) =~= start + single_dependency_groups(*value, leaf@, version_2013));
}

/// Appends the groups of a compound action parameter.
pub fn write_assoc_compound(value: &AssocCompoundActionParam, version_2013: bool, out: &mut Vec<
    DxfGroup,
>)
    ensures
        groups_view(final(out)@) == groups_view(old(out)@) + compound_groups(*value, version_2013),
{
    let ghost start = groups_view(out@);
    write_assoc_action_param(&value.action_param, version_2013, out);
    let ghost g1 = groups_view(out@);
    push_text(out, 100, owned("AcDbAssocCompoundActionParam"));
    push_int16(out, 90, value.class_version);
    push_int16(out, 90, value.status);
    let count = #[verifier::truncate] (value.parameters.len() as i32);
    push_int(out, 90, count);
    let ghost g2 = groups_view(out@);
    push_handles(out, 360, &value.parameters);
    let ghost g3 = groups_view(out@);
    match &value.child_parameter {
        Some(child) => {
            push_int16(out, 90, child.status);
            push_int(out, 90, child.id);
            push_handle(out, 330, child.parameter);
            if child.id != 0 {
                push_handle(out, 330, child.secondary_parameter);
                push_int(out, 90, child.marker);
                push_handle(out, 330, child.tertiary_parameter);
            }
        },
        None => {},
    }
    assert(groups_view(out@) =~= g3 + child_parameter_groups(value.child_parameter));
    assert(groups_view(out@) =~= start + compound_groups(*value, version_2013));
}

/// Appends the groups of a persistent sub-entity manager.
pub fn write_static_pers_subent_manager_dxf(value: &PersSubentManager, out: &mut Vec<DxfGroup>)
    ensures
        groups_view(final(out)@) == groups_view(old(out)@) + pers_subent_manager_groups(*value),
{
    let ghost start = groups_view(out@);
    push_text(out, 100, owned("AcDbPersSubentManager"));
    push_int(out, 90, value.class_version);
    push_int(out, 90, value.marker_zero);
    push_int(out, 90, value.marker_two);
    push_int(out, 90, value.associative_step_count);
    push_int(out, 90, value.associative_subent_count);
    let count = #[verifier::truncate] (value.steps.len() as i32);
    push_int(out, 90, count);
    let ghost g1 = groups_view(out@);
    push_ints(out, 90, &value.steps);
    let ghost g2 = groups_view(out@);
    if value.associative_subent_count != 0 || value.subents.len() > 0 {
        let subent_count = #[verifier::truncate] (value.subents.len() as i32);
        push_int(out, 90, subent_count);
        push_ints(out, 90, &value.subents);
    }
    assert(groups_view(out@) =~= start + pers_subent_manager_groups(*value));
}

pub open spec fn point2_group(code: i32, x: u64, y: u64) -> GroupView {
    GroupView { code, value: GroupValueView::Point2(x, y) }
}

fn push_point2(out: &mut Vec<DxfGroup>, code: i32, x: u64, y: u64)
    ensures
        groups_view(final(out)@) == groups_view(old(out)@).push(point2_group(code, x, y)),
{
    out.push(DxfGroup { code, value: DxfGroupValue::Point2(x, y) });
    assert(groups_view(out@) =~= groups_view(old(out)@).push(point2_group(code, x, y)));
}

/// The kind of surface an action body builds.
#[derive(Clone, Copy, Debug, PartialEq, Eq, Structural)]
pub enum AssocSurfaceActionKind {
    Plane,
    Extend,
    Extruded,
    Lofted,
    Network,
    Offset,
    Revolved,
    Trim,
    Blend,
    Patch,
    Fillet,
    Swept,
    EdgeChamfer,
    EdgeFillet,
}

/// The surface part of a surface action body.
#[derive(Clone, Copy, Debug, PartialEq, Eq)]
pub struct AssocSurfaceBody {
    pub version: i32,
    pub dependency: Handle,
    pub is_semi_associative: bool,
    pub marker: i32,
    pub is_semi_override: bool,
    pub grip_status: i16,
}

/// A surface action body; points and distances as `f64` bit patterns.
#[derive(Clone, Debug, PartialEq, Eq)]
pub struct AssocSurfaceActionBody {
    pub kind: AssocSurfaceActionKind,
    pub action_body: AssocActionBody,
    pub parameter_body: AssocParamBasedActionBody,
    pub surface_body: AssocSurfaceBody,
    pub path_status: i32,
    pub class_version: i32,
    pub option: u8,
    pub flags: [bool; 5],
    pub distance: u64,
    pub status: i16,
    pub secondary_status: i16,
    pub first_point: Vector2,
    pub second_point: Vector2,
}

/// The subclass name of a surface kind's own section.
pub open spec fn surface_section_name(kind: AssocSurfaceActionKind) -> Seq<char> {
    match kind {
        AssocSurfaceActionKind::Plane => "AcDbAssocPlaneSurfaceActionBody"@,
        AssocSurfaceActionKind::Extend => "AcDbAssocExtendSurfaceActionBody"@,
        AssocSurfaceActionKind::Extruded => "AcDbAssocExtrudedSurfaceActionBody"@,
        AssocSurfaceActionKind::Lofted => "AcDbAssocLoftedSurfaceActionBody"@,
        AssocSurfaceActionKind::Network => "AcDbAssocNetworkSurfaceActionBody"@,
        AssocSurfaceActionKind::Offset => "AcDbAssocOffsetSurfaceActionBody"@,
        AssocSurfaceActionKind::Revolved => "AcDbAssocRevolvedSurfaceActionBody"@,
        AssocSurfaceActionKind::Trim => "AcDbAssocTrimSurfaceActionBody"@,
        AssocSurfaceActionKind::Blend => "AcDbAssocBlendSurfaceActionBody"@,
        AssocSurfaceActionKind::Patch => "AcDbAssocPatchSurfaceActionBody"@,
        AssocSurfaceActionKind::Fillet => "AcDbAssocFilletSurfaceActionBody"@,
        AssocSurfaceActionKind::Swept => "AcDbAssocSweptSurfaceActionBody"@,
        AssocSurfaceActionKind::EdgeChamfer => "AcDbAssocEdgeChamferActionBody"@,
        AssocSurfaceActionKind::EdgeFillet => "AcDbAssocEdgeFilletActionBody"@,
    }
}

/// What each surface kind writes after its class version.
pub open spec fn surface_kind_groups(v: AssocSurfaceActionBody) -> Seq<GroupView> {
    match v.kind {
        AssocSurfaceActionKind::Extend => seq![byte_group(280, v.option)],
        AssocSurfaceActionKind::Offset => seq![bool_group(290, v.flags@[0])],
        AssocSurfaceActionKind::Trim => seq![
            bool_group(290, v.flags@[0]),
            bool_group(290, v.flags@[1]),
            double_group(40, v.distance),
        ],
        AssocSurfaceActionKind::Blend => seq![
            bool_group(290, v.flags@[0]),
            bool_group(291, v.flags@[1]),
            bool_group(292, v.flags@[2]),
            int16_group(72, v.status),
            bool_group(293, v.flags@[3]),
            bool_group(294, v.flags@[4]),
            int16_group(73, v.secondary_status),
        ],
        AssocSurfaceActionKind::Fillet => seq![
            int16_group(70, v.status),
            point2_group(10, v.first_point.x, v.first_point.y),
            point2_group(10, v.second_point.x, v.second_point.y),
        ],
        _ => Seq::empty(),
    }
}

/// The surface part of a surface action body and its path status.
pub open spec fn surface_part_groups(v: AssocSurfaceActionBody) -> Seq<GroupView> {
    seq![
        text_group(100, "AcDbAssocSurfaceActionBody"@),
        int_group(90, v.surface_body.version),
        handle_group(330, v.surface_body.dependency),
        bool_group(290, v.surface_body.is_semi_associative),
        int_group(90, v.surface_body.marker),
        bool_group(290, v.surface_body.is_semi_override),
        int16_group(70, v.surface_body.grip_status),
        text_group(100, "AcDbAssocPathBasedSurfaceActionBody"@),
        int_group(90, v.path_status),
    ]
}

/// The kind's own section: its name, its class version (not for edge
/// chamfers and fillets) and its data.
pub open spec fn surface_tail_groups(v: AssocSurfaceActionBody) -> Seq<GroupView> {
    seq![text_group(100, surface_section_name(v.kind))] + (if v.kind
        == AssocSurfaceActionKind::EdgeChamfer || v.kind == AssocSurfaceActionKind::EdgeFillet {
        Seq::empty()
    } else {
        seq![int_group(90, v.class_version)]
    }) + surface_kind_groups(v)
}

/// The groups of a surface action body: the action body, the parameter
/// body, the surface part and path status, then the kind's own section.
pub open spec fn surface_groups(v: AssocSurfaceActionBody) -> Seq<GroupView> {
    action_body_groups(v.action_body) + parameter_body_groups(v.parameter_body)
        + surface_part_groups(v) + surface_tail_groups(v)
}

fn surface_section(kind: AssocSurfaceActionKind) -> (r: String)
    ensures
        r@ == surface_section_name(kind),
{
    match kind {
        AssocSurfaceActionKind::Plane => owned("AcDbAssocPlaneSurfaceActionBody"),
        AssocSurfaceActionKind::Extend => owned("AcDbAssocExtendSurfaceActionBody"),
        AssocSurfaceActionKind::Extruded => owned("AcDbAssocExtrudedSurfaceActionBody"),
        AssocSurfaceActionKind::Lofted => owned("AcDbAssocLoftedSurfaceActionBody"),
        AssocSurfaceActionKind::Network => owned("AcDbAssocNetworkSurfaceActionBody"),
        AssocSurfaceActionKind::Offset => owned("AcDbAssocOffsetSurfaceActionBody"),
        AssocSurfaceActionKind::Revolved => owned("AcDbAssocRevolvedSurfaceActionBody"),
        AssocSurfaceActionKind::Trim => owned("AcDbAssocTrimSurfaceActionBody"),
        AssocSurfaceActionKind::Blend => owned("AcDbAssocBlendSurfaceActionBody"),
        AssocSurfaceActionKind::Patch => owned("AcDbAssocPatchSurfaceActionBody"),
        AssocSurfaceActionKind::Fillet => owned("AcDbAssocFilletSurfaceActionBody"),
        AssocSurfaceActionKind::Swept => owned("AcDbAssocSweptSurfaceActionBody"),
        AssocSurfaceActionKind::EdgeChamfer => owned("AcDbAssocEdgeChamferActionBody"),
        AssocSurfaceActionKind::EdgeFillet => owned("AcDbAssocEdgeFilletActionBody"),
    }
}

fn write_surface_kind_data(value: &AssocSurfaceActionBody, out: &mut Vec<DxfGroup>)
    ensures
        groups_view(final(out)@) == groups_view(old(out)@) + surface_kind_groups(*value),
{
    let ghost start = groups_view(out@);
    match value.kind {
        AssocSurfaceActionKind::Extend => push_byte(out, 280, value.option),
        AssocSurfaceActionKind::Offset => push_bool(out, 290, value.flags[0]),
        AssocSurfaceActionKind::Trim => {
            push_bool(out, 290, value.flags[0]);
            push_bool(out, 290, value.flags[1]);
            push_double(out, 40, value.distance);
        },
        AssocSurfaceActionKind::Blend => {
            push_bool(out, 290, value.flags[0]);
            push_bool(out, 291, value.flags[1]);
            push_bool(out, 292, value.flags[2]);
            push_int16(out, 72, value.status);
            push_bool(out, 293, value.flags[3]);
            push_bool(out, 294, value.flags[4]);
            push_int16(out, 73, value.secondary_status);
        },
        AssocSurfaceActionKind::Fillet => {
            push_int16(out, 70, value.status);
            push_point2(out, 10, value.first_point.x, value.first_point.y);
            push_point2(out, 10, value.second_point.x, value.second_point.y);
        },
        _ => {},
    }
    assert(groups_view(out@) =~= start + surface_kind_groups(*value));
}

fn write_surface_part(value: &AssocSurfaceActionBody, out: &mut Vec<DxfGroup>)
    ensures
        groups_view(final(out)@) == groups_view(old(out)@) + surface_part_groups(*value),
{
    let ghost start = groups_view(out@);
    push_text(out, 100, owned("AcDbAssocSurfaceActionBody"));
    push_int(out, 90, value.surface_body.version);
    push_handle(out, 330, value.surface_body.dependency);
    push_bool(out, 290, value.surface_body.is_semi_associative);
    push_int(out, 90, value.surface_body.marker);
    push_bool(out, 290, value.surface_body.is_semi_override);
    push_int16(out, 70, value.surface_body.grip_status);
    push_text(out, 100, owned("AcDbAssocPathBasedSurfaceActionBody"));
    push_int(out, 90, value.path_status);
    assert(groups_view(out@) =~= start + surface_part_groups(*value));
}

fn write_surface_tail(value: &AssocSurfaceActionBody, out: &mut Vec<DxfGroup>)
    ensures
        groups_view(final(out)@) == groups_view(old(out)@) + surface_tail_groups(*value),
{
    let ghost start = groups_view(out@);
    push_text(out, 100, surface_section(value.kind));
    let ghost g1 = groups_view(out@);
    match value.kind {
        AssocSurfaceActionKind::EdgeChamfer | AssocSurfaceActionKind::EdgeFillet => {},
        _ => push_int(out, 90, value.class_version),
    }
    let ghost g2 = groups_view(out@);
    write_surface_kind_data(value, out);
    assert(groups_view(out@) =~= start + surface_tail_groups(*value));
}

/// Appends the groups of a surface action body.
pub fn write_assoc_surface(value: &AssocSurfaceActionBody, out: &mut Vec<DxfGroup>)
    ensures
        groups_view(final(out)@) == groups_view(old(out)@) + surface_groups(*value),
{
    let ghost start = groups_view(out@);
    write_assoc_action_body(&value.action_body, out);
    let ghost g1 = groups_view(out@);
    write_assoc_parameter_body(&value.parameter_body, out);
    let ghost g2 = groups_view(out@);
    write_surface_part(value, out);
    let ghost g3 = groups_view(out@);
    write_surface_tail(value, out);
    assert(groups_view(out@) =~= start + surface_groups(*value));
}

/// The kind of annotation an action body keeps associative.
#[derive(Clone, Copy, Debug, PartialEq, Eq, Structural)]
pub enum AssocAnnotationKind {
    MLeader,
    AlignedDimension,
    ThreePointAngularDimension,
    OrdinateDimension,
    RotatedDimension,
    RestoreEntityState,
}

/// The base part of an annotation action body.
#[derive(Clone, Debug, PartialEq, Eq)]
pub struct AssocAnnotationBase {
    pub action_body: AssocActionBody,
    pub version: i16,
    pub dependency: Handle,
    pub parameter_body: AssocParamBasedActionBody,
}

/// One dependency of a multileader action body.
#[derive(Clone, Copy, Debug, PartialEq, Eq)]
pub struct AssocAnnotationDependency {
    pub dependency_id: i32,
    pub dependency: Handle,
}

/// An annotation action body.
#[derive(Clone, Debug, PartialEq, Eq)]
pub struct AssocAnnotationActionBody {
    pub kind: AssocAnnotationKind,
    pub action_body: AssocActionBody,
    pub annotation: AssocAnnotationBase,
    pub class_version: i32,
    pub entity: Handle,
    pub actions: Vec<AssocAnnotationDependency>,
    pub read_node: Handle,
    pub dimension_node: Handle,
    pub dependency: Handle,
}

pub open spec fn annotation_base_groups(b: AssocAnnotationBase) -> Seq<GroupView> {
    action_body_groups(b.action_body) + seq![int16_group(90, b.version), handle_group(330, b.dependency)]
}

/// The subclass name of an annotation kind's own section.
pub open spec fn annotation_section_name(kind: AssocAnnotationKind) -> Seq<char> {
    match kind {
        AssocAnnotationKind::MLeader => "AcDbAssocMLeaderActionBody"@,
        AssocAnnotationKind::AlignedDimension => "ACDBASSOCALIGNEDDIMACTIONBODY"@,
        AssocAnnotationKind::ThreePointAngularDimension => "Assoc3PointAngularDimActionBody"@,
        AssocAnnotationKind::OrdinateDimension => "AssocOrdinatedDimActionBody"@,
        AssocAnnotationKind::RotatedDimension => "AssocRotatedDimActionBody"@,
        AssocAnnotationKind::RestoreEntityState => "AcDbAssocRestoreEntityStateActionBody"@,
    }
}

pub open spec fn annotation_dependency_groups(a: AssocAnnotationDependency) -> Seq<GroupView> {
    seq![int_group(90, a.dependency_id), handle_group(330, a.dependency)]
}

pub open spec fn annotation_dependencies_groups(s: Seq<AssocAnnotationDependency>) -> Seq<GroupView>
    decreases s.len(),
{
    if s.len() == 0 {
        Seq::empty()
    } else {
        annotation_dependencies_groups(s.drop_last()) + annotation_dependency_groups(s.last())
    }
}

/// The groups of an annotation action body: a restore-entity-state body
/// writes its action body, class version and entity; the others their base,
/// section and class version, then the multileader's dependencies or the
/// dimension's nodes (and the angular dimension's dependency).
pub open spec fn annotation_groups(v: AssocAnnotationActionBody) -> Seq<GroupView> {
    if v.kind == AssocAnnotationKind::RestoreEntityState {
        action_body_groups(v.action_body) + seq![
            text_group(100, "AcDbAssocRestoreEntityStateActionBody"@),
            int_group(90, v.class_version),
            handle_group(330, v.entity),
        ]
    } else {
        annotation_base_groups(v.annotation) + seq![
            text_group(100, annotation_section_name(v.kind)),
            int_group(90, v.class_version),
        ] + match v.kind {
            AssocAnnotationKind::MLeader => seq![int_group(90, v.actions@.len() as i32)]
                + annotation_dependencies_groups(v.actions@),
            AssocAnnotationKind::ThreePointAngularDimension => seq![
                handle_group(330, v.read_node),
                handle_group(330, v.dimension_node),
                handle_group(330, v.dependency),
            ],
            _ => seq![handle_group(330, v.read_node), handle_group(330, v.dimension_node)],
        }
    }
}

fn annotation_section(kind: AssocAnnotationKind) -> (r: String)
    ensures
        r@ == annotation_section_name(kind),
{
    match kind {
        AssocAnnotationKind::MLeader => owned("AcDbAssocMLeaderActionBody"),
        AssocAnnotationKind::AlignedDimension => owned("ACDBASSOCALIGNEDDIMACTIONBODY"),
        AssocAnnotationKind::ThreePointAngularDimension => owned("Assoc3PointAngularDimActionBody"),
        AssocAnnotationKind::OrdinateDimension => owned("AssocOrdinatedDimActionBody"),
        AssocAnnotationKind::RotatedDimension => owned("AssocRotatedDimActionBody"),
        AssocAnnotationKind::RestoreEntityState => owned("AcDbAssocRestoreEntityStateActionBody"),
    }
}

/// Appends the groups of an annotation action body's base.
pub fn write_assoc_annotation_base(value: &AssocAnnotationBase, out: &mut Vec<DxfGroup>)
    ensures
        groups_view(final(out)@) == groups_view(old(out)@) + annotation_base_groups(*value),
{
    let ghost start = groups_view(out@);
    write_assoc_action_body(&value.action_body, out);
    push_int16(out, 90, value.version);
    push_handle(out, 330, value.dependency);
    assert(groups_view(out@) =~= start + annotation_base_groups(*value));
}

/// Appends the groups of an annotation action body.
pub fn write_assoc_annotation(value: &AssocAnnotationActionBody, out: &mut Vec<DxfGroup>)
    ensures
        groups_view(final(out)@) == groups_view(old(out)@) + annotation_groups(*value),
{
    let ghost start = groups_view(out@);
    if value.kind == AssocAnnotationKind::RestoreEntityState {
        write_assoc_action_body(&value.action_body, out);
        push_text(out, 100, owned("AcDbAssocRestoreEntityStateActionBody"));
        push_int(out, 90, value.class_version);
        push_handle(out, 330, value.entity);
        assert(groups_view(out@) =~= start + annotation_groups(*value));
        return;
    }
    write_assoc_annotation_base(&value.annotation, out);
    push_text(out, 100, annotation_section(value.kind));
    push_int(out, 90, value.class_version);
    let ghost g1 = groups_view(out@);
    match value.kind {
        AssocAnnotationKind::MLeader => {
            let count = #[verifier::truncate] (value.actions.len() as i32);
            push_int(out, 90, count);
            let ghost head = groups_view(out@);
            let mut i: usize = 0;
            while i < value.actions.len()
                invariant
                    i <= value.actions.len(),
                    groups_view(out@) == head + annotation_dependencies_groups(
                        value.actions@.take(i as int),
                    ),
                decreases value.actions.len() - i,
            {
                push_int(out, 90, value.actions[i].dependency_id);
                push_handle(out, 330, value.actions[i].dependency);
                proof {
                    assert(value.actions@.take(i + 1).drop_last() =~= value.actions@.take(i as int));
                }
                i = i + 1;
                assert(groups_view(out@) =~= head + annotation_dependencies_groups(
                    value.actions@.take(i as int),
                ));
            }
            assert(value.actions@.take(value.actions.len() as int) =~= value.actions@);
        },
        AssocAnnotationKind::ThreePointAngularDimension => {
            push_handle(out, 330, value.read_node);
            push_handle(out, 330, value.dimension_node);
            push_handle(out, 330, value.dependency);
        },
        _ => {
            push_handle(out, 330, value.read_node);
            push_handle(out, 330, value.dimension_node);
        },
    }
    assert(groups_view(out@) =~= start + annotation_groups(*value));
}

/// One point reference of a dimension association; reals as `f64` bit
/// patterns.
#[derive(Clone, Debug, PartialEq, Eq)]
pub struct AssocDimensionReference {
    pub class_name: String,
    pub osnap_type: u8,
    pub xrefs: Vec<Handle>,
    pub main_subent_type: i32,
    pub main_gs_marker: i32,
    pub xref_paths: Vec<String>,
    pub osnap_distance: u64,
    pub osnap_point: Vector3,
    pub intersection_objects: Vec<Handle>,
    pub intersection_subent_type: i32,
    pub intersection_gs_marker: i32,
    pub intersection_xref_paths: Vec<String>,
    pub has_last_point_reference: bool,
}

/// How a dimension is tied to geometry: which of its four points are
/// associative (`associativity` bits 0 to 3) and the references of each.
#[derive(Clone, Debug, PartialEq, Eq)]
pub struct AssocDimensionAssociation {
    pub dimension: Handle,
    pub associativity: i32,
    pub trans_space: bool,
    pub rotated_type: u8,
    pub references: [Vec<AssocDimensionReference>; 4],
}

/// The bit of `associativity` that marks point `slot` associative.
pub open spec fn slot_bit(slot: int) -> i32 {
    if slot == 0 {
        1
    } else if slot == 1 {
        2
    } else if slot == 2 {
        4
    } else {
        8
    }
}

pub open spec fn texts_groups(code: i32, ts: Seq<String>) -> Seq<GroupView> {
    ts.map_values(|t: String| text_group(code, t@))
}

/// The groups of one reference; `more` says whether another follows it.
pub open spec fn reference_groups(r: AssocDimensionReference, more: bool) -> Seq<GroupView> {
    seq![text_group(1, r.class_name@), byte_group(72, r.osnap_type)] + r.xrefs@.map_values(
        |h: Handle| handle_group(331, h),
    ) + (if r.osnap_type != 0 {
        seq![int_group(73, r.main_subent_type), int_group(91, r.main_gs_marker)] + texts_groups(
            301,
            r.xref_paths@,
        )
    } else {
        Seq::empty()
    }) + seq![double_group(40, r.osnap_distance), point_group(10, r.osnap_point)] + (if r.osnap_type
        == 6 || r.osnap_type == 11 {
        r.intersection_objects@.map_values(|h: Handle| handle_group(332, h)) + seq![
            int_group(74, r.intersection_subent_type),
            int_group(92, r.intersection_gs_marker),
        ] + texts_groups(302, r.intersection_xref_paths@)
    } else {
        Seq::empty()
    }) + seq![bool_group(75, more)]
}

/// The first `n` references of `rs`, each flagged with whether another
/// follows it in `rs`.
pub open spec fn references_groups(rs: Seq<AssocDimensionReference>, n: nat) -> Seq<GroupView>
    decreases n,
{
    if n == 0 || n > rs.len() {
        Seq::empty()
    } else {
        references_groups(rs, (n - 1) as nat) + reference_groups(rs[n - 1], n < rs.len())
    }
}

/// The groups of point `slot`: nothing when it is not associative; else
/// its references, or one empty reference where it has none.
pub open spec fn slot_groups(v: AssocDimensionAssociation, slot: int) -> Seq<GroupView> {
    if v.associativity & slot_bit(slot) == 0 {
        Seq::empty()
    } else if v.references@[slot]@.len() > 0 {
        references_groups(v.references@[slot]@, v.references@[slot]@.len())
    } else {
        seq![
            text_group(1, ""@),
            byte_group(72, 0),
            double_group(40, 0),
            point_group(10, Vector3 { x: 0, y: 0, z: 0 }),
            bool_group(75, false),
        ]
    }
}

/// The groups of a dimension association.
pub open spec fn dimension_association_groups(v: AssocDimensionAssociation) -> Seq<GroupView> {
    seq![
        text_group(100, "AcDbDimAssoc"@),
        handle_group(330, v.dimension),
        int_group(90, v.associativity),
        bool_group(70, v.trans_space),
        byte_group(71, v.rotated_type),
    ] + slot_groups(v, 0) + slot_groups(v, 1) + slot_groups(v, 2) + slot_groups(v, 3)
}

fn push_texts(out: &mut Vec<DxfGroup>, code: i32, ts: &Vec<String>)
    ensures
        groups_view(final(out)@) == groups_view(old(out)@) + texts_groups(code, ts@),
{
    let ghost head = groups_view(out@);
    let mut i: usize = 0;
    while i < ts.len()
        invariant
            i <= ts.len(),
            groups_view(out@) == head + texts_groups(code, ts@.take(i as int)),
        decreases ts.len() - i,
    {
        push_text(out, code, owned(ts[i].as_str()));
        i = i + 1;
        assert(groups_view(out@) =~= head + texts_groups(code, ts@.take(i as int)));
    }
    assert(ts@.take(ts.len() as int) =~= ts@);
}

fn write_reference(r: &AssocDimensionReference, more: bool, out: &mut Vec<DxfGroup>)
    ensures
        groups_view(final(out)@) == groups_view(old(out)@) + reference_groups(*r, more),
{
    let ghost start = groups_view(out@);
    push_text(out, 1, owned(r.class_name.as_str()));
    push_byte(out, 72, r.osnap_type);
    push_handles(out, 331, &r.xrefs);
    let ghost g1 = groups_view(out@);
    if r.osnap_type != 0 {
        push_int(out, 73, r.main_subent_type);
        push_int(out, 91, r.main_gs_marker);
        push_texts(out, 301, &r.xref_paths);
    }
    let ghost g2 = groups_view(out@);
    push_double(out, 40, r.osnap_distance);
    push_point(out, 10, r.osnap_point);
    let ghost g3 = groups_view(out@);
    if r.osnap_type == 6 || r.osnap_type == 11 {
        push_handles(out, 332, &r.intersection_objects);
        push_int(out, 74, r.intersection_subent_type);
        push_int(out, 92, r.intersection_gs_marker);
        push_texts(out, 302, &r.intersection_xref_paths);
    }
    let ghost g4 = groups_view(out@);
    push_bool(out, 75, more);
    assert(groups_view(out@) =~= start + reference_groups(*r, more));
}

fn write_slot(value: &AssocDimensionAssociation, slot: usize, bit: i32, out: &mut Vec<DxfGroup>)
    requires
        slot < 4,
        bit == slot_bit(slot as int),
    ensures
        groups_view(final(out)@) == groups_view(old(out)@) + slot_groups(*value, slot as int),
{
    let ghost start = groups_view(out@);
    if value.associativity & bit == 0 {
        assert(groups_view(out@) =~= start + slot_groups(*value, slot as int));
        return;
    }
    let refs = &value.references[slot];
    assert(refs@ == value.references@[slot as int]@);
    if refs.len() == 0 {
        push_text(out, 1, owned(""));
        push_byte(out, 72, 0);
        push_double(out, 40, 0);
        push_point(out, 10, Vector3 { x: 0, y: 0, z: 0 });
        push_bool(out, 75, false);
        assert(groups_view(out@) =~= start + slot_groups(*value, slot as int));
        return;
    }
    let mut i: usize = 0;
    while i < refs.len()
        invariant
            i <= refs.len(),
            refs@ == value.references@[slot as int]@,
            groups_view(out@) == start + references_groups(refs@, i as nat),
        decreases refs.len() - i,
    {
        write_reference(&refs[i], i + 1 < refs.len(), out);
        i = i + 1;
    }
    assert(groups_view(out@) =~= start + slot_groups(*value, slot as int));
}

/// Appends the groups of a dimension association: the dimension and the
/// flags, then for each associative point its references, each flagged
/// with whether another follows, or one empty reference where it has none.
pub fn write_dimension_association_dxf(value: &AssocDimensionAssociation, out: &mut Vec<DxfGroup>)
    ensures
        groups_view(final(out)@) == groups_view(old(out)@) + dimension_association_groups(*value),
{
    let ghost start = groups_view(out@);
    push_text(out, 100, owned("AcDbDimAssoc"));
    push_handle(out, 330, value.dimension);
    push_int(out, 90, value.associativity);
    push_bool(out, 70, value.trans_space);
    push_byte(out, 71, value.rotated_type);
    let ghost g0 = groups_view(out@);
    write_slot(value, 0, 1, out);
    let ghost g1 = groups_view(out@);
    write_slot(value, 1, 2, out);
    let ghost g2 = groups_view(out@);
    write_slot(value, 2, 4, out);
    let ghost g3 = groups_view(out@);
    write_slot(value, 3, 8, out);
    assert(groups_view(out@) =~= start + dimension_association_groups(*value));
}

pub open spec fn int64_group(code: i32, v: i64) -> GroupView {
    GroupView { code, value: GroupValueView::Int64(v) }
}

fn push_int64(out: &mut Vec<DxfGroup>, code: i32, v: i64)
    ensures
        groups_view(final(out)@) == groups_view(old(out)@).push(int64_group(code, v)),
{
    out.push(DxfGroup { code, value: DxfGroupValue::Int64(v) });
    assert(groups_view(out@) =~= groups_view(old(out)@).push(int64_group(code, v)));
}

fn push_dependencies(out: &mut Vec<DxfGroup>, ds: &Vec<AssocActionDependency>)
    ensures
        groups_view(final(out)@) == groups_view(old(out)@) + ds@.map_values(
            |d: AssocActionDependency| dependency_group(d),
        ),
{
    let ghost head = groups_view(out@);
    let mut i: usize = 0;
    while i < ds.len()
        invariant
            i <= ds.len(),
            groups_view(out@) == head + ds@.take(i as int).map_values(
                |d: AssocActionDependency| dependency_group(d),
            ),
        decreases ds.len() - i,
    {
        let d = ds[i];
        push_handle(out, if d.is_owned { 360 } else { 330 }, d.dependency);
        i = i + 1;
        assert(groups_view(out@) =~= head + ds@.take(i as int).map_values(
            |d: AssocActionDependency| dependency_group(d),
        ));
    }
    assert(ds@.take(ds.len() as int) =~= ds@);
}

fn push_reals(out: &mut Vec<DxfGroup>, code: i32, vs: &[u64; 16])
    ensures
        groups_view(final(out)@) == groups_view(old(out)@) + vs@.map_values(
            |x: u64| double_group(code, x),
        ),
{
    let ghost head = groups_view(out@);
    let mut i: usize = 0;
    while i < 16
        invariant
            i <= 16,
            vs@.len() == 16,
            groups_view(out@) == head + vs@.take(i as int).map_values(|x: u64| double_group(code, x)),
        decreases 16 - i,
    {
        push_double(out, code, vs[i]);
        i = i + 1;
        assert(groups_view(out@) =~= head + vs@.take(i as int).map_values(
            |x: u64| double_group(code, x),
        ));
    }
    assert(vs@.take(16) =~= vs@);
}

fn push_ints3(out: &mut Vec<DxfGroup>, code: i32, vs: &[i32; 3])
    ensures
        groups_view(final(out)@) == groups_view(old(out)@) + vs@.map_values(|c: i32| int_group(code, c)),
{
    push_int(out, code, vs[0]);
    push_int(out, code, vs[1]);
    push_int(out, code, vs[2]);
    assert(groups_view(final(out)@) =~= groups_view(old(out)@) + vs@.map_values(
        |c: i32| int_group(code, c),
    ));
}

/// A dependency on a value.
#[derive(Clone, Debug, PartialEq, Eq)]
pub struct AssocValueDependency {
    pub dependency: AssocDependency,
    pub class_version: i32,
    pub name: String,
    pub value: AssocEvalVariant,
}

/// The persistent sub-entity id of a geometry dependency.
#[derive(Clone, Debug, PartialEq, Eq)]
pub struct AssocPersSubentId {
    pub class_name: String,
    pub dependent_on_compound_object: bool,
}

/// A dependency on geometry.
#[derive(Clone, Debug, PartialEq, Eq)]
pub struct AssocGeomDependency {
    pub dependency: AssocDependency,
    pub class_version: i16,
    pub enabled: bool,
    pub persistent_subent: AssocPersSubentId,
}

/// A network of actions.
#[derive(Clone, Debug, PartialEq, Eq)]
pub struct AssocNetwork {
    pub action: AssocAction,
    pub network_version: i16,
    pub network_action_index: i32,
    pub actions: Vec<AssocActionDependency>,
    pub owned_actions: Vec<Handle>,
}

/// A persistent sub-entity manager as an associative object.
#[derive(Clone, Debug, PartialEq, Eq)]
pub struct AssocPersSubentManager {
    pub class_version: i32,
    pub markers: [i32; 3],
    pub steps: Vec<i32>,
    pub subent_count: i32,
    pub subent_data: Vec<i32>,
    pub final_flag: bool,
}

/// An edge action parameter.
#[derive(Clone, Debug, PartialEq, Eq)]
pub struct AssocEdgeActionParam {
    pub single_dependency: AssocSingleDependencyActionParam,
    pub parameter: Handle,
    pub has_action: bool,
    pub action_type: i32,
}

/// A named variable with its expression and value.
#[derive(Clone, Debug, PartialEq, Eq)]
pub struct AssocVariable {
    pub action: AssocAction,
    pub class_version: i32,
    pub name: String,
    pub expression: String,
    pub evaluator: String,
    pub description: String,
    pub value: AssocEvalVariant,
    pub has_cached_value: bool,
    pub cached_value: String,
    pub flag: bool,
    pub reserved: i32,
}

/// An object-snap point reference parameter; the parameter as an `f64`
/// bit pattern.
#[derive(Clone, Debug, PartialEq, Eq)]
pub struct AssocOsnapPointRefActionParam {
    pub compound: AssocCompoundActionParam,
    pub status: i16,
    pub osnap_mode: u8,
    pub parameter: u64,
}

/// A path action parameter.
#[derive(Clone, Debug, PartialEq, Eq)]
pub struct AssocPathActionParam {
    pub compound: AssocCompoundActionParam,
    pub version: i32,
}

/// The body of a dimension dependency.
#[derive(Clone, Debug, PartialEq, Eq)]
pub struct AssocDimDependencyBody {
    pub dependency_body_version: i16,
    pub base_version: i16,
    pub name: String,
    pub class_version: i16,
}

/// A face action parameter.
#[derive(Clone, Debug, PartialEq, Eq)]
pub struct AssocFaceActionParam {
    pub single_dependency: AssocSingleDependencyActionParam,
    pub index: i32,
}

/// A vertex action parameter.
#[derive(Clone, Debug, PartialEq, Eq)]
pub struct AssocVertexActionParam {
    pub single_dependency: AssocSingleDependencyActionParam,
    pub point: Vector3,
}

/// One item of an associative array; matrices as `f64` bit patterns.
#[derive(Clone, Debug, PartialEq, Eq)]
pub struct AssocArrayItem {
    pub class_version: i32,
    pub location: [i32; 3],
    pub flags: i32,
    pub uses_default_transform: bool,
    pub x_direction: Vector3,
    pub transform: [u64; 16],
    pub relative_transform: Option<[u64; 16]>,
    pub first_handle: Option<Handle>,
    pub second_handle: Option<Handle>,
}

/// The common parameters of an associative array.
#[derive(Clone, Debug, PartialEq, Eq)]
pub struct AssocArrayParameters {
    pub version: i32,
    pub class_name: String,
    pub items: Vec<AssocArrayItem>,
    pub item_count: i32,
    pub row_count: i32,
    pub level_count: i32,
}

/// An associative array's action body.
#[derive(Clone, Debug, PartialEq, Eq)]
pub struct AssocArrayActionBody {
    pub action_body: AssocActionBody,
    pub parameter_body: AssocParamBasedActionBody,
    pub version: i32,
    pub parameter_block: String,
    pub transform: [u64; 16],
}

/// An array-modify action body.
#[derive(Clone, Debug, PartialEq, Eq)]
pub struct AssocArrayModifyActionBody {
    pub body: AssocArrayActionBody,
    pub status: i16,
    pub item_locations: Vec<[i32; 3]>,
}

/// A view-representation action body; the rotation as an `f64` bit
/// pattern.
#[derive(Clone, Debug, PartialEq, Eq)]
pub struct AssocViewRepActionBody {
    pub action_body: AssocActionBody,
    pub class_version: i16,
    pub view_rep: Handle,
    pub view_type: i32,
    pub rotation: u64,
}

/// What a view-object action parameter refers to.
#[derive(Clone, Copy, Debug, PartialEq, Eq, Structural)]
pub enum AssocViewObjectActionParamKind {
    ViewBorder,
    ViewRep,
    ViewSymbol,
    ViewStyle,
}

/// A view-object action parameter.
#[derive(Clone, Debug, PartialEq, Eq)]
pub struct AssocViewObjectActionParam {
    pub single_dependency: AssocSingleDependencyActionParam,
    pub kind: AssocViewObjectActionParamKind,
    pub class_version: i16,
}

/// One hatch of a view-representation hatch manager.
#[derive(Clone, Copy, Debug, PartialEq, Eq)]
pub struct AssocViewRepHatchItem {
    pub first_id: i64,
    pub second_id: i64,
    pub status: i32,
    pub parameter: Handle,
}

/// A view-representation hatch manager.
#[derive(Clone, Debug, PartialEq, Eq)]
pub struct AssocViewRepHatchManager {
    pub compound: AssocCompoundActionParam,
    pub class_version: i16,
    pub items: Vec<AssocViewRepHatchItem>,
}

/// A view-representation hatch action parameter.
#[derive(Clone, Debug, PartialEq, Eq)]
pub struct AssocViewRepHatchActionParam {
    pub single_dependency: AssocSingleDependencyActionParam,
    pub class_version: i16,
    pub normal: Vector3,
    pub hatch_index: i32,
    pub flags: i32,
}

/// A view label action parameter; the offset as `f64` bit patterns.
#[derive(Clone, Debug, PartialEq, Eq)]
pub struct AssocViewLabelActionParam {
    pub single_dependency: AssocSingleDependencyActionParam,
    pub class_version: i16,
    pub label_version: i16,
    pub offset: Vector2,
    pub flag: u8,
}

pub open spec fn value_dependency_groups(v: AssocValueDependency) -> Seq<GroupView> {
    dependency_groups(v.dependency) + seq![
        text_group(100, "AcDbAssocValueDependency"@),
        int_group(90, v.class_version),
        text_group(1, v.name@),
    ] + eval_groups(v.value)
}

pub open spec fn geom_dependency_groups(v: AssocGeomDependency) -> Seq<GroupView> {
    dependency_groups(v.dependency) + seq![
        text_group(100, "AcDbAssocGeomDependency"@),
        int16_group(90, v.class_version),
        bool_group(290, v.enabled),
        text_group(100, "AcDbAssocPersSubentId"@),
        text_group(1, v.persistent_subent.class_name@),
        bool_group(290, v.persistent_subent.dependent_on_compound_object),
    ]
}

pub open spec fn network_groups(v: AssocNetwork) -> Seq<GroupView> {
    action_groups(v.action) + seq![
        text_group(100, "AcDbAssocNetwork"@),
        int16_group(90, v.network_version),
        int_group(90, v.network_action_index),
        int_group(90, v.actions@.len() as i32),
    ] + v.actions@.map_values(|d: AssocActionDependency| dependency_group(d)) + seq![
        int_group(90, v.owned_actions@.len() as i32),
    ] + v.owned_actions@.map_values(|h: Handle| handle_group(330, h))
}

pub open spec fn pers_subent_groups(v: AssocPersSubentManager) -> Seq<GroupView> {
    seq![text_group(100, "AcDbAssocPersSubentManager"@), int_group(90, v.class_version)]
        + v.markers@.map_values(|c: i32| int_group(90, c)) + seq![int_group(90, v.steps@.len() as i32)]
        + v.steps@.map_values(|c: i32| int_group(90, c)) + seq![int_group(90, v.subent_count)]
        + v.subent_data@.map_values(|c: i32| int_group(90, c)) + seq![bool_group(290, v.final_flag)]
}

pub open spec fn edge_param_groups(v: AssocEdgeActionParam, r2013: bool) -> Seq<GroupView> {
    single_dependency_groups(v.single_dependency, "AcDbAssocEdgeActionParam"@, r2013) + seq![
        handle_group(330, v.parameter),
        bool_group(290, v.has_action),
        int_group(90, v.action_type),
    ]
}

pub open spec fn variable_groups(v: AssocVariable) -> Seq<GroupView> {
    action_groups(v.action) + seq![
        text_group(100, "AcDbAssocVariable"@),
        int_group(90, v.class_version),
        text_group(1, v.name@),
        text_group(1, v.expression@),
        text_group(1, v.evaluator@),
        text_group(1, v.description@),
    ] + eval_groups(v.value) + seq![bool_group(290, v.has_cached_value)] + (if v.has_cached_value {
        seq![text_group(1, v.cached_value@)]
    } else {
        Seq::empty()
    }) + seq![bool_group(290, v.flag), int_group(90, v.reserved)]
}

pub open spec fn osnap_param_groups(v: AssocOsnapPointRefActionParam, r2013: bool) -> Seq<GroupView> {
    compound_groups(v.compound, r2013) + seq![
        text_group(100, "ACDBASSOCOSNAPPOINTREFACTIONPARAM"@),
        int16_group(90, v.status),
        byte_group(90, v.osnap_mode),
        double_group(40, v.parameter),
    ]
}

pub open spec fn path_param_groups(v: AssocPathActionParam, r2013: bool) -> Seq<GroupView> {
    compound_groups(v.compound, r2013) + seq![
        text_group(100, "AcDbAssocPathActionParam"@),
        int_group(90, v.version),
    ]
}

pub open spec fn dim_dependency_body_groups(v: AssocDimDependencyBody) -> Seq<GroupView> {
    seq![
        text_group(100, "AcDbAssocDependencyBody"@),
        int16_group(90, v.dependency_body_version),
        text_group(100, "AcDbImpAssocDimDependencyBodyBase"@),
        int16_group(90, v.base_version),
        text_group(1, v.name@),
        text_group(100, "AcDbAssocDimDependencyBody"@),
        int16_group(90, v.class_version),
    ]
}

pub open spec fn face_param_groups(v: AssocFaceActionParam, r2013: bool) -> Seq<GroupView> {
    single_dependency_groups(v.single_dependency, "AcDbAssocFaceActionParam"@, r2013) + seq![
        int_group(90, v.index),
    ]
}

pub open spec fn vertex_param_groups(v: AssocVertexActionParam, r2013: bool) -> Seq<GroupView> {
    single_dependency_groups(v.single_dependency, "AcDbAssocVertexActionParam"@, r2013) + seq![
        point_group(10, v.point),
    ]
}

pub open spec fn reals_groups(m: [u64; 16]) -> Seq<GroupView> {
    m@.map_values(|x: u64| double_group(40, x))
}

/// An array item: version, location and flags, its X direction or its
/// transform, its relative transform and first handle where it has them,
/// and its second handle (null where missing) when flag 0x10 is set.
pub open spec fn array_item_groups(it: AssocArrayItem) -> Seq<GroupView> {
    seq![int_group(90, it.class_version)] + it.location@.map_values(|c: i32| int_group(90, c))
        + seq![int_group(90, it.flags)] + (if it.uses_default_transform {
        seq![point_group(11, it.x_direction)]
    } else {
        reals_groups(it.transform)
    }) + match it.relative_transform {
        Some(m) => reals_groups(m),
        None => Seq::empty(),
    } + match it.first_handle {
        Some(h) => seq![handle_group(330, h)],
        None => Seq::empty(),
    } + if it.flags & 0x10 != 0 {
        seq![
            handle_group(
                330,
                match it.second_handle {
                    Some(h) => h,
                    None => Handle(0),
                },
            ),
        ]
    } else {
        Seq::empty()
    }
}

pub open spec fn array_items_groups(items: Seq<AssocArrayItem>) -> Seq<GroupView>
    decreases items.len(),
{
    if items.len() == 0 {
        Seq::empty()
    } else {
        array_items_groups(items.drop_last()) + array_item_groups(items.last())
    }
}

pub open spec fn array_parameters_groups(v: AssocArrayParameters) -> Seq<GroupView> {
    seq![
        text_group(100, "AcDbAssocArrayCommonParameters"@),
        int_group(90, v.version),
        int_group(90, v.items@.len() as i32),
        text_group(1, v.class_name@),
    ] + array_items_groups(v.items@) + seq![
        int_group(90, v.item_count),
        int_group(90, v.row_count),
        int_group(90, v.level_count),
    ]
}

pub open spec fn array_body_groups(v: AssocArrayActionBody) -> Seq<GroupView> {
    action_body_groups(v.action_body) + parameter_body_groups(v.parameter_body) + seq![
        text_group(100, "AcDbAssocArrayActionBody"@),
        int_group(90, v.version),
        text_group(1, v.parameter_block@),
    ] + reals_groups(v.transform)
}

pub open spec fn locations_groups(ls: Seq<[i32; 3]>) -> Seq<GroupView>
    decreases ls.len(),
{
    if ls.len() == 0 {
        Seq::empty()
    } else {
        locations_groups(ls.drop_last()) + ls.last()@.map_values(|c: i32| int_group(90, c))
    }
}

pub open spec fn array_modify_groups(v: AssocArrayModifyActionBody) -> Seq<GroupView> {
    array_body_groups(v.body) + seq![
        text_group(100, "AcDbAssocArrayModifyActionBody"@),
        int16_group(70, v.status),
        int_group(90, v.item_locations@.len() as i32),
    ] + locations_groups(v.item_locations@)
}

pub open spec fn view_rep_body_groups(v: AssocViewRepActionBody) -> Seq<GroupView> {
    action_body_groups(v.action_body) + seq![
        text_group(100, "AcDbAssocViewRepActionBody"@),
        int16_group(70, v.class_version),
        handle_group(360, v.view_rep),
        int_group(90, v.view_type),
        double_group(40, v.rotation),
    ]
}

pub open spec fn view_object_section_name(kind: AssocViewObjectActionParamKind) -> Seq<char> {
    match kind {
        AssocViewObjectActionParamKind::ViewBorder => "AcDbAssocViewBorderActionParam"@,
        AssocViewObjectActionParamKind::ViewRep => "AcDbAssocViewRepActionParam"@,
        AssocViewObjectActionParamKind::ViewSymbol => "AcDbAssocViewSymbolActionParam"@,
        AssocViewObjectActionParamKind::ViewStyle => "AcDbAssocViewStyleActionParam"@,
    }
}

pub open spec fn view_object_param_groups(v: AssocViewObjectActionParam, r2013: bool) -> Seq<
    GroupView,
> {
    single_dependency_groups(v.single_dependency, "AcDbAssocObjectActionParam"@, r2013) + seq![
        text_group(100, view_object_section_name(v.kind)),
        int16_group(70, v.class_version),
    ]
}

pub open spec fn hatch_item_groups(it: AssocViewRepHatchItem) -> Seq<GroupView> {
    seq![
        int64_group(160, it.first_id),
        int64_group(160, it.second_id),
        int_group(90, it.status),
        handle_group(330, it.parameter),
    ]
}

pub open spec fn hatch_items_groups(items: Seq<AssocViewRepHatchItem>) -> Seq<GroupView>
    decreases items.len(),
{
    if items.len() == 0 {
        Seq::empty()
    } else {
        hatch_items_groups(items.drop_last()) + hatch_item_groups(items.last())
    }
}

pub open spec fn hatch_manager_groups(v: AssocViewRepHatchManager, r2013: bool) -> Seq<GroupView> {
    compound_groups(v.compound, r2013) + seq![
        text_group(100, "AcDbAssocViewRepHatchManager"@),
        int16_group(70, v.class_version),
        int_group(90, v.items@.len() as i32),
    ] + hatch_items_groups(v.items@)
}

pub open spec fn hatch_param_groups(v: AssocViewRepHatchActionParam, r2013: bool) -> Seq<GroupView> {
    single_dependency_groups(v.single_dependency, "AcDbAssocObjectActionParam"@, r2013) + seq![
        text_group(100, "AcDbAssocViewRepHatchActionParam"@),
        int16_group(70, v.class_version),
        point_group(210, v.normal),
        int_group(90, v.hatch_index),
        int_group(90, v.flags),
    ]
}

pub open spec fn label_param_groups(v: AssocViewLabelActionParam, r2013: bool) -> Seq<GroupView> {
    single_dependency_groups(v.single_dependency, "AcDbAssocObjectActionParam"@, r2013) + seq![
        text_group(100, "AcDbAssocViewLabelActionParam"@),
        int16_group(70, v.class_version),
        int16_group(70, v.label_version),
        double_group(210, v.offset.x),
        double_group(220, v.offset.y),
        byte_group(280, v.flag),
    ]
}

fn write_value_dependency(v: &AssocValueDependency, out: &mut Vec<DxfGroup>)
    ensures
        groups_view(final(out)@) == groups_view(old(out)@) + value_dependency_groups(*v),
{
    let ghost start = groups_view(out@);
    write_assoc_dependency(&v.dependency, out);
    let ghost g1 = groups_view(out@);
    push_text(out, 100, owned("AcDbAssocValueDependency"));
    push_int(out, 90, v.class_version);
    push_text(out, 1, owned(v.name.as_str()));
    let ghost g2 = groups_view(out@);
    write_assoc_eval(&v.value, out);
    assert(groups_view(out@) =~= start + value_dependency_groups(*v));
}

fn write_geom_dependency(v: &AssocGeomDependency, out: &mut Vec<DxfGroup>)
    ensures
        groups_view(final(out)@) == groups_view(old(out)@) + geom_dependency_groups(*v),
{
    let ghost start = groups_view(out@);
    write_assoc_dependency(&v.dependency, out);
    let ghost g1 = groups_view(out@);
    push_text(out, 100, owned("AcDbAssocGeomDependency"));
    push_int16(out, 90, v.class_version);
    push_bool(out, 290, v.enabled);
    push_text(out, 100, owned("AcDbAssocPersSubentId"));
    push_text(out, 1, owned(v.persistent_subent.class_name.as_str()));
    push_bool(out, 290, v.persistent_subent.dependent_on_compound_object);
    assert(groups_view(out@) =~= start + geom_dependency_groups(*v));
}

fn write_network(v: &AssocNetwork, out: &mut Vec<DxfGroup>)
    ensures
        groups_view(final(out)@) == groups_view(old(out)@) + network_groups(*v),
{
    let ghost start = groups_view(out@);
    write_assoc_action(&v.action, out);
    let ghost g1 = groups_view(out@);
    push_text(out, 100, owned("AcDbAssocNetwork"));
    push_int16(out, 90, v.network_version);
    push_int(out, 90, v.network_action_index);
    let count = #[verifier::truncate] (v.actions.len() as i32);
    push_int(out, 90, count);
    let ghost g2 = groups_view(out@);
    push_dependencies(out, &v.actions);
    let ghost g3 = groups_view(out@);
    let owned_count = #[verifier::truncate] (v.owned_actions.len() as i32);
    push_int(out, 90, owned_count);
    let ghost g4 = groups_view(out@);
    push_handles(out, 330, &v.owned_actions);
    assert(groups_view(out@) =~= start + network_groups(*v));
}

fn write_pers_subent(v: &AssocPersSubentManager, out: &mut Vec<DxfGroup>)
    ensures
        groups_view(final(out)@) == groups_view(old(out)@) + pers_subent_groups(*v),
{
    let ghost start = groups_view(out@);
    push_text(out, 100, owned("AcDbAssocPersSubentManager"));
    push_int(out, 90, v.class_version);
    let ghost g1 = groups_view(out@);
    push_ints3(out, 90, &v.markers);
    let count = #[verifier::truncate] (v.steps.len() as i32);
    push_int(out, 90, count);
    let ghost g2 = groups_view(out@);
    push_ints(out, 90, &v.steps);
    push_int(out, 90, v.subent_count);
    let ghost g3 = groups_view(out@);
    push_ints(out, 90, &v.subent_data);
    push_bool(out, 290, v.final_flag);
    assert(groups_view(out@) =~= start + pers_subent_groups(*v));
}

fn write_edge_param(v: &AssocEdgeActionParam, r2013: bool, out: &mut Vec<DxfGroup>)
    ensures
        groups_view(final(out)@) == groups_view(old(out)@) + edge_param_groups(*v, r2013),
{
    let ghost start = groups_view(out@);
    write_assoc_single_dependency(&v.single_dependency, "AcDbAssocEdgeActionParam", r2013, out);
    let ghost g1 = groups_view(out@);
    push_handle(out, 330, v.parameter);
    push_bool(out, 290, v.has_action);
    push_int(out, 90, v.action_type);
    assert(groups_view(out@) =~= start + edge_param_groups(*v, r2013));
}

fn write_variable(v: &AssocVariable, out: &mut Vec<DxfGroup>)
    ensures
        groups_view(final(out)@) == groups_view(old(out)@) + variable_groups(*v),
{
    let ghost start = groups_view(out@);
    write_assoc_action(&v.action, out);
    let ghost g1 = groups_view(out@);
    push_text(out, 100, owned("AcDbAssocVariable"));
    push_int(out, 90, v.class_version);
    push_text(out, 1, owned(v.name.as_str()));
    push_text(out, 1, owned(v.expression.as_str()));
    push_text(out, 1, owned(v.evaluator.as_str()));
    push_text(out, 1, owned(v.description.as_str()));
    let ghost g2 = groups_view(out@);
    write_assoc_eval(&v.value, out);
    let ghost g3 = groups_view(out@);
    push_bool(out, 290, v.has_cached_value);
    if v.has_cached_value {
        push_text(out, 1, owned(v.cached_value.as_str()));
    }
    let ghost g4 = groups_view(out@);
    push_bool(out, 290, v.flag);
    push_int(out, 90, v.reserved);
    assert(groups_view(out@) =~= start + variable_groups(*v));
}

fn write_osnap_param(v: &AssocOsnapPointRefActionParam, r2013: bool, out: &mut Vec<DxfGroup>)
    ensures
        groups_view(final(out)@) == groups_view(old(out)@) + osnap_param_groups(*v, r2013),
{
    let ghost start = groups_view(out@);
    write_assoc_compound(&v.compound, r2013, out);
    let ghost g1 = groups_view(out@);
    push_text(out, 100, owned("ACDBASSOCOSNAPPOINTREFACTIONPARAM"));
    push_int16(out, 90, v.status);
    push_byte(out, 90, v.osnap_mode);
    push_double(out, 40, v.parameter);
    assert(groups_view(out@) =~= start + osnap_param_groups(*v, r2013));
}

fn write_path_param(v: &AssocPathActionParam, r2013: bool, out: &mut Vec<DxfGroup>)
    ensures
        groups_view(final(out)@) == groups_view(old(out)@) + path_param_groups(*v, r2013),
{
    let ghost start = groups_view(out@);
    write_assoc_compound(&v.compound, r2013, out);
    let ghost g1 = groups_view(out@);
    push_text(out, 100, owned("AcDbAssocPathActionParam"));
    push_int(out, 90, v.version);
    assert(groups_view(out@) =~= start + path_param_groups(*v, r2013));
}

fn write_dim_dependency_body(v: &AssocDimDependencyBody, out: &mut Vec<DxfGroup>)
    ensures
        groups_view(final(out)@) == groups_view(old(out)@) + dim_dependency_body_groups(*v),
{
    let ghost start = groups_view(out@);
    push_text(out, 100, owned("AcDbAssocDependencyBody"));
    push_int16(out, 90, v.dependency_body_version);
    push_text(out, 100, owned("AcDbImpAssocDimDependencyBodyBase"));
    push_int16(out, 90, v.base_version);
    push_text(out, 1, owned(v.name.as_str()));
    push_text(out, 100, owned("AcDbAssocDimDependencyBody"));
    push_int16(out, 90, v.class_version);
    assert(groups_view(out@) =~= start + dim_dependency_body_groups(*v));
}

fn write_face_param(v: &AssocFaceActionParam, r2013: bool, out: &mut Vec<DxfGroup>)
    ensures
        groups_view(final(out)@) == groups_view(old(out)@) + face_param_groups(*v, r2013),
{
    let ghost start = groups_view(out@);
    write_assoc_single_dependency(&v.single_dependency, "AcDbAssocFaceActionParam", r2013, out);
    push_int(out, 90, v.index);
    assert(groups_view(out@) =~= start + face_param_groups(*v, r2013));
}

fn write_vertex_param(v: &AssocVertexActionParam, r2013: bool, out: &mut Vec<DxfGroup>)
    ensures
        groups_view(final(out)@) == groups_view(old(out)@) + vertex_param_groups(*v, r2013),
{
    let ghost start = groups_view(out@);
    write_assoc_single_dependency(&v.single_dependency, "AcDbAssocVertexActionParam", r2013, out);
    push_point(out, 10, v.point);
    assert(groups_view(out@) =~= start + vertex_param_groups(*v, r2013));
}

fn write_array_item(it: &AssocArrayItem, out: &mut Vec<DxfGroup>)
    ensures
        groups_view(final(out)@) == groups_view(old(out)@) + array_item_groups(*it),
{
    let ghost start = groups_view(out@);
    push_int(out, 90, it.class_version);
    let ghost g0 = groups_view(out@);
    push_ints3(out, 90, &it.location);
    push_int(out, 90, it.flags);
    let ghost g1 = groups_view(out@);
    if it.uses_default_transform {
        push_point(out, 11, it.x_direction);
    } else {
        push_reals(out, 40, &it.transform);
    }
    let ghost g2 = groups_view(out@);
    match &it.relative_transform {
        Some(m) => push_reals(out, 40, m),
        None => {},
    }
    let ghost g3 = groups_view(out@);
    match it.first_handle {
        Some(h) => push_handle(out, 330, h),
        None => {},
    }
    let ghost g4 = groups_view(out@);
    if it.flags & 0x10 != 0 {
        let second = match it.second_handle {
            Some(h) => h,
            None => Handle(0),
        };
        push_handle(out, 330, second);
    }
    assert(groups_view(out@) =~= start + array_item_groups(*it));
}

/// Appends the common parameters of an associative array.
pub fn write_assoc_array_parameters(value: &AssocArrayParameters, out: &mut Vec<DxfGroup>)
    ensures
        groups_view(final(out)@) == groups_view(old(out)@) + array_parameters_groups(*value),
{
    let ghost start = groups_view(out@);
    push_text(out, 100, owned("AcDbAssocArrayCommonParameters"));
    push_int(out, 90, value.version);
    let count = #[verifier::truncate] (value.items.len() as i32);
    push_int(out, 90, count);
    push_text(out, 1, owned(value.class_name.as_str()));
    let ghost head = groups_view(out@);
    let mut i: usize = 0;
    while i < value.items.len()
        invariant
            i <= value.items.len(),
            groups_view(out@) == head + array_items_groups(value.items@.take(i as int)),
        decreases value.items.len() - i,
    {
        write_array_item(&value.items[i], out);
        proof {
            assert(value.items@.take(i + 1).drop_last() =~= value.items@.take(i as int));
        }
        i = i + 1;
        assert(groups_view(out@) =~= head + array_items_groups(value.items@.take(i as int)));
    }
    assert(value.items@.take(value.items.len() as int) =~= value.items@);
    let ghost g1 = groups_view(out@);
    push_int(out, 90, value.item_count);
    push_int(out, 90, value.row_count);
    push_int(out, 90, value.level_count);
    assert(groups_view(out@) =~= start + array_parameters_groups(*value));
}

/// Appends the groups of an associative array's action body.
pub fn write_assoc_array_body(value: &AssocArrayActionBody, out: &mut Vec<DxfGroup>)
    ensures
        groups_view(final(out)@) == groups_view(old(out)@) + array_body_groups(*value),
{
    let ghost start = groups_view(out@);
    write_assoc_action_body(&value.action_body, out);
    let ghost g1 = groups_view(out@);
    write_assoc_parameter_body(&value.parameter_body, out);
    let ghost g2 = groups_view(out@);
    push_text(out, 100, owned("AcDbAssocArrayActionBody"));
    push_int(out, 90, value.version);
    push_text(out, 1, owned(value.parameter_block.as_str()));
    let ghost g3 = groups_view(out@);
    push_reals(out, 40, &value.transform);
    assert(groups_view(out@) =~= start + array_body_groups(*value));
}

fn write_array_modify(v: &AssocArrayModifyActionBody, out: &mut Vec<DxfGroup>)
    ensures
        groups_view(final(out)@) == groups_view(old(out)@) + array_modify_groups(*v),
{
    let ghost start = groups_view(out@);
    write_assoc_array_body(&v.body, out);
    let ghost g1 = groups_view(out@);
    push_text(out, 100, owned("AcDbAssocArrayModifyActionBody"));
    push_int16(out, 70, v.status);
    let count = #[verifier::truncate] (v.item_locations.len() as i32);
    push_int(out, 90, count);
    let ghost head = groups_view(out@);
    let mut i: usize = 0;
    while i < v.item_locations.len()
        invariant
            i <= v.item_locations.len(),
            groups_view(out@) == head + locations_groups(v.item_locations@.take(i as int)),
        decreases v.item_locations.len() - i,
    {
        push_ints3(out, 90, &v.item_locations[i]);
        proof {
            assert(v.item_locations@.take(i + 1).drop_last() =~= v.item_locations@.take(i as int));
        }
        i = i + 1;
        assert(groups_view(out@) =~= head + locations_groups(v.item_locations@.take(i as int)));
    }
    assert(v.item_locations@.take(v.item_locations.len() as int) =~= v.item_locations@);
    assert(groups_view(out@) =~= start + array_modify_groups(*v));
}

fn write_view_rep_body(v: &AssocViewRepActionBody, out: &mut Vec<DxfGroup>)
    ensures
        groups_view(final(out)@) == groups_view(old(out)@) + view_rep_body_groups(*v),
{
    let ghost start = groups_view(out@);
    write_assoc_action_body(&v.action_body, out);
    push_text(out, 100, owned("AcDbAssocViewRepActionBody"));
    push_int16(out, 70, v.class_version);
    push_handle(out, 360, v.view_rep);
    push_int(out, 90, v.view_type);
    push_double(out, 40, v.rotation);
    assert(groups_view(out@) =~= start + view_rep_body_groups(*v));
}

fn view_object_section(kind: AssocViewObjectActionParamKind) -> (r: String)
    ensures
        r@ == view_object_section_name(kind),
{
    match kind {
        AssocViewObjectActionParamKind::ViewBorder => owned("AcDbAssocViewBorderActionParam"),
        AssocViewObjectActionParamKind::ViewRep => owned("AcDbAssocViewRepActionParam"),
        AssocViewObjectActionParamKind::ViewSymbol => owned("AcDbAssocViewSymbolActionParam"),
        AssocViewObjectActionParamKind::ViewStyle => owned("AcDbAssocViewStyleActionParam"),
    }
}

fn write_view_object_param(v: &AssocViewObjectActionParam, r2013: bool, out: &mut Vec<DxfGroup>)
    ensures
        groups_view(final(out)@) == groups_view(old(out)@) + view_object_param_groups(*v, r2013),
{
    let ghost start = groups_view(out@);
    write_assoc_single_dependency(&v.single_dependency, "AcDbAssocObjectActionParam", r2013, out);
    let ghost g1 = groups_view(out@);
    push_text(out, 100, view_object_section(v.kind));
    push_int16(out, 70, v.class_version);
    assert(groups_view(out@) =~= start + view_object_param_groups(*v, r2013));
}

fn write_hatch_manager(v: &AssocViewRepHatchManager, r2013: bool, out: &mut Vec<DxfGroup>)
    ensures
        groups_view(final(out)@) == groups_view(old(out)@) + hatch_manager_groups(*v, r2013),
{
    let ghost start = groups_view(out@);
    write_assoc_compound(&v.compound, r2013, out);
    let ghost g1 = groups_view(out@);
    push_text(out, 100, owned("AcDbAssocViewRepHatchManager"));
    push_int16(out, 70, v.class_version);
    let count = #[verifier::truncate] (v.items.len() as i32);
    push_int(out, 90, count);
    let ghost head = groups_view(out@);
    let mut i: usize = 0;
    while i < v.items.len()
        invariant
            i <= v.items.len(),
            groups_view(out@) == head + hatch_items_groups(v.items@.take(i as int)),
        decreases v.items.len() - i,
    {
        let it = v.items[i];
        push_int64(out, 160, it.first_id);
        push_int64(out, 160, it.second_id);
        push_int(out, 90, it.status);
        push_handle(out, 330, it.parameter);
        proof {
            assert(v.items@.take(i + 1).drop_last() =~= v.items@.take(i as int));
        }
        i = i + 1;
        assert(groups_view(out@) =~= head + hatch_items_groups(v.items@.take(i as int)));
    }
    assert(v.items@.take(v.items.len() as int) =~= v.items@);
    assert(groups_view(out@) =~= start + hatch_manager_groups(*v, r2013));
}

fn write_hatch_param(v: &AssocViewRepHatchActionParam, r2013: bool, out: &mut Vec<DxfGroup>)
    ensures
        groups_view(final(out)@) == groups_view(old(out)@) + hatch_param_groups(*v, r2013),
{
    let ghost start = groups_view(out@);
    write_assoc_single_dependency(&v.single_dependency, "AcDbAssocObjectActionParam", r2013, out);
    let ghost g1 = groups_view(out@);
    push_text(out, 100, owned("AcDbAssocViewRepHatchActionParam"));
    push_int16(out, 70, v.class_version);
    push_point(out, 210, v.normal);
    push_int(out, 90, v.hatch_index);
    push_int(out, 90, v.flags);
    assert(groups_view(out@) =~= start + hatch_param_groups(*v, r2013));
}

fn write_label_param(v: &AssocViewLabelActionParam, r2013: bool, out: &mut Vec<DxfGroup>)
    ensures
        groups_view(final(out)@) == groups_view(old(out)@) + label_param_groups(*v, r2013),
{
    let ghost start = groups_view(out@);
    write_assoc_single_dependency(&v.single_dependency, "AcDbAssocObjectActionParam", r2013, out);
    let ghost g1 = groups_view(out@);
    push_text(out, 100, owned("AcDbAssocViewLabelActionParam"));
    push_int16(out, 70, v.class_version);
    push_int16(out, 70, v.label_version);
    push_double(out, 210, v.offset.x);
    push_double(out, 220, v.offset.y);
    push_byte(out, 280, v.flag);
    assert(groups_view(out@) =~= start + label_param_groups(*v, r2013));
}

/// The data of an associative object, by its kind. (Action parameters
/// that carry an ACIS body are not held here.)
#[derive(Clone, Debug, PartialEq, Eq)]
pub enum AssociativeData {
    Unknown,
    Dependency(AssocDependency),
    ValueDependency(AssocValueDependency),
    GeomDependency(AssocGeomDependency),
    SurfaceActionBody(AssocSurfaceActionBody),
    Action(AssocAction),
    Network(AssocNetwork),
    AnnotationActionBody(AssocAnnotationActionBody),
    PersSubentManager(AssocPersSubentManager),
    EdgeActionParam(AssocEdgeActionParam),
    ConstraintGroup(Assoc2dConstraintGroup),
    Variable(AssocVariable),
    ActionParam(AssocActionParam),
    CompoundActionParam(AssocCompoundActionParam),
    PointRefActionParam(AssocCompoundActionParam),
    OsnapPointRefActionParam(AssocOsnapPointRefActionParam),
    ObjectActionParam(AssocSingleDependencyActionParam),
    PathActionParam(AssocPathActionParam),
    DimDependencyBody(AssocDimDependencyBody),
    FaceActionParam(AssocFaceActionParam),
    VertexActionParam(AssocVertexActionParam),
    ArrayParameters(AssocArrayParameters),
    ArrayActionBody(AssocArrayActionBody),
    ArrayModifyActionBody(AssocArrayModifyActionBody),
    DimensionAssociation(AssocDimensionAssociation),
    PersSubentManagerStatic(PersSubentManager),
    ViewRepActionBody(AssocViewRepActionBody),
    ViewObjectActionParam(AssocViewObjectActionParam),
    ViewRepHatchManager(AssocViewRepHatchManager),
    ViewRepHatchActionParam(AssocViewRepHatchActionParam),
    ViewLabelActionParam(AssocViewLabelActionParam),
}

/// An associative object: its DXF and C++ class names, handle, reactors,
/// extension dictionary, owner and data.
#[derive(Clone, Debug, PartialEq, Eq)]
pub struct AssociativeObject {
    pub dxf_name: String,
    pub cpp_class_name: String,
    pub handle: Handle,
    pub owner: Handle,
    pub reactors: Vec<Handle>,
    pub xdictionary_handle: Option<Handle>,
    pub data: AssociativeData,
}

/// The object's type name and handle, its reactors and extension
/// dictionary each in their braces where it has them, and its owner.
pub open spec fn assoc_header_groups(o: AssociativeObject) -> Seq<GroupView> {
    seq![text_group(0, o.dxf_name@), handle_group(5, o.handle)] + (if o.reactors@.len() > 0 {
        seq![text_group(102, "{ACAD_REACTORS"@)] + o.reactors@.map_values(
            |h: Handle| handle_group(330, h),
        ) + seq![text_group(102, "}"@)]
    } else {
        Seq::empty()
    }) + match o.xdictionary_handle {
        Some(x) => seq![
            text_group(102, "{ACAD_XDICTIONARY"@),
            handle_group(360, x),
            text_group(102, "}"@),
        ],
        None => Seq::empty(),
    } + seq![handle_group(330, o.owner)]
}

/// The groups of an associative object's data; `r2013` for AutoCAD 2013
/// files and later.
pub open spec fn assoc_data_groups(d: AssociativeData, cpp_class_name: Seq<char>, r2013: bool) -> Seq<
    GroupView,
> {
    match d {
        AssociativeData::Unknown => Seq::empty(),
        AssociativeData::Dependency(v) => dependency_groups(v),
        AssociativeData::ValueDependency(v) => value_dependency_groups(v),
        AssociativeData::GeomDependency(v) => geom_dependency_groups(v),
        AssociativeData::SurfaceActionBody(v) => surface_groups(v),
        AssociativeData::Action(v) => action_groups(v),
        AssociativeData::Network(v) => network_groups(v),
        AssociativeData::AnnotationActionBody(v) => annotation_groups(v),
        AssociativeData::PersSubentManager(v) => pers_subent_groups(v),
        AssociativeData::EdgeActionParam(v) => edge_param_groups(v, r2013),
        AssociativeData::ConstraintGroup(v) => constraint_group_groups(v, r2013),
        AssociativeData::Variable(v) => variable_groups(v),
        AssociativeData::ActionParam(v) => action_param_groups(v, r2013),
        AssociativeData::CompoundActionParam(v) => compound_groups(v, r2013),
        AssociativeData::PointRefActionParam(v) => compound_groups(v, r2013),
        AssociativeData::OsnapPointRefActionParam(v) => osnap_param_groups(v, r2013),
        AssociativeData::ObjectActionParam(v) => single_dependency_groups(
            v,
            "AcDbAssocObjectActionParam"@,
            r2013,
        ),
        AssociativeData::PathActionParam(v) => path_param_groups(v, r2013),
        AssociativeData::DimDependencyBody(v) => dim_dependency_body_groups(v),
        AssociativeData::FaceActionParam(v) => face_param_groups(v, r2013),
        AssociativeData::VertexActionParam(v) => vertex_param_groups(v, r2013),
        AssociativeData::ArrayParameters(v) => array_parameters_groups(v) + seq![
            text_group(100, cpp_class_name),
        ],
        AssociativeData::ArrayActionBody(v) => array_body_groups(v),
        AssociativeData::ArrayModifyActionBody(v) => array_modify_groups(v),
        AssociativeData::DimensionAssociation(v) => dimension_association_groups(v),
        AssociativeData::PersSubentManagerStatic(v) => pers_subent_manager_groups(v),
        AssociativeData::ViewRepActionBody(v) => view_rep_body_groups(v),
        AssociativeData::ViewObjectActionParam(v) => view_object_param_groups(v, r2013),
        AssociativeData::ViewRepHatchManager(v) => hatch_manager_groups(v, r2013),
        AssociativeData::ViewRepHatchActionParam(v) => hatch_param_groups(v, r2013),
        AssociativeData::ViewLabelActionParam(v) => label_param_groups(v, r2013),
    }
}

pub open spec fn associative_object_groups(o: AssociativeObject, r2013: bool) -> Seq<GroupView> {
    assoc_header_groups(o) + assoc_data_groups(o.data, o.cpp_class_name@, r2013)
}

/// Appends the groups of an associative object's header.
pub fn write_assoc_header(value: &AssociativeObject, out: &mut Vec<DxfGroup>)
    ensures
        groups_view(final(out)@) == groups_view(old(out)@) + assoc_header_groups(*value),
{
    let ghost start = groups_view(out@);
    push_text(out, 0, owned(value.dxf_name.as_str()));
    push_handle(out, 5, value.handle);
    let ghost g1 = groups_view(out@);
    if value.reactors.len() > 0 {
        push_text(out, 102, owned("{ACAD_REACTORS"));
        push_handles(out, 330, &value.reactors);
        push_text(out, 102, owned("}"));
    }
    let ghost g2 = groups_view(out@);
    match value.xdictionary_handle {
        Some(x) => {
            push_text(out, 102, owned("{ACAD_XDICTIONARY"));
            push_handle(out, 360, x);
            push_text(out, 102, owned("}"));
        },
        None => {},
    }
    let ghost g3 = groups_view(out@);
    push_handle(out, 330, value.owner);
    assert(groups_view(out@) =~= start + assoc_header_groups(*value));
}

fn write_assoc_data(d: &AssociativeData, cpp_class_name: &str, r2013: bool, out: &mut Vec<DxfGroup>)
    requires
        d matches AssociativeData::ConstraintGroup(g) ==> g.nodes.len() < 0x7FFF_FFFF,
    ensures
        groups_view(final(out)@) == groups_view(old(out)@) + assoc_data_groups(
            *d,
            cpp_class_name@,
            r2013,
        ),
{
    let ghost start = groups_view(out@);
    match d {
        AssociativeData::Unknown => {
            assert(groups_view(out@) =~= start + assoc_data_groups(*d, cpp_class_name@, r2013));
        },
        AssociativeData::Dependency(v) => write_assoc_dependency(v, out),
        AssociativeData::ValueDependency(v) => write_value_dependency(v, out),
        AssociativeData::GeomDependency(v) => write_geom_dependency(v, out),
        AssociativeData::SurfaceActionBody(v) => write_assoc_surface(v, out),
        AssociativeData::Action(v) => write_assoc_action(v, out),
        AssociativeData::Network(v) => write_network(v, out),
        AssociativeData::AnnotationActionBody(v) => write_assoc_annotation(v, out),
        AssociativeData::PersSubentManager(v) => write_pers_subent(v, out),
        AssociativeData::EdgeActionParam(v) => write_edge_param(v, r2013, out),
        AssociativeData::ConstraintGroup(v) => write_constraint_group(v, r2013, out),
        AssociativeData::Variable(v) => write_variable(v, out),
        AssociativeData::ActionParam(v) => write_assoc_action_param(v, r2013, out),
        AssociativeData::CompoundActionParam(v) => write_assoc_compound(v, r2013, out),
        AssociativeData::PointRefActionParam(v) => write_assoc_compound(v, r2013, out),
        AssociativeData::OsnapPointRefActionParam(v) => write_osnap_param(v, r2013, out),
        AssociativeData::ObjectActionParam(v) => write_assoc_single_dependency(
            v,
            "AcDbAssocObjectActionParam",
            r2013,
            out,
        ),
        AssociativeData::PathActionParam(v) => write_path_param(v, r2013, out),
        AssociativeData::DimDependencyBody(v) => write_dim_dependency_body(v, out),
        AssociativeData::FaceActionParam(v) => write_face_param(v, r2013, out),
        AssociativeData::VertexActionParam(v) => write_vertex_param(v, r2013, out),
        AssociativeData::ArrayParameters(v) => {
            write_assoc_array_parameters(v, out);
            push_text(out, 100, owned(cpp_class_name));
            assert(groups_view(out@) =~= start + assoc_data_groups(*d, cpp_class_name@, r2013));
        },
        AssociativeData::ArrayActionBody(v) => write_assoc_array_body(v, out),
        AssociativeData::ArrayModifyActionBody(v) => write_array_modify(v, out),
        AssociativeData::DimensionAssociation(v) => write_dimension_association_dxf(v, out),
        AssociativeData::PersSubentManagerStatic(v) => write_static_pers_subent_manager_dxf(v, out),
        AssociativeData::ViewRepActionBody(v) => write_view_rep_body(v, out),
        AssociativeData::ViewObjectActionParam(v) => write_view_object_param(v, r2013, out),
        AssociativeData::ViewRepHatchManager(v) => write_hatch_manager(v, r2013, out),
        AssociativeData::ViewRepHatchActionParam(v) => write_hatch_param(v, r2013, out),
        AssociativeData::ViewLabelActionParam(v) => write_label_param(v, r2013, out),
    }
}

/// Appends the groups of an associative object: its header, then its data.
/// `r2013` selects the layout of AutoCAD 2013 files and later (action
/// parameter versions, constraint node status last).
pub fn write_associative_object_dxf(object: &AssociativeObject, r2013: bool, out: &mut Vec<DxfGroup>)
    requires
        object.data matches AssociativeData::ConstraintGroup(g) ==> g.nodes.len() < 0x7FFF_FFFF,
    ensures
        groups_view(final(out)@) == groups_view(old(out)@) + associative_object_groups(*object, r2013),
{
    let ghost start = groups_view(out@);
    write_assoc_header(object, out);
    let ghost g1 = groups_view(out@);
    write_assoc_data(&object.data, object.cpp_class_name.as_str(), r2013, out);
    assert(groups_view(out@) =~= start + associative_object_groups(*object, r2013));
}

} // verus!
