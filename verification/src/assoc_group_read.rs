//! Reading constraint nodes of associative objects from typed DXF groups:
//! each group one code and one value, reals as `f64` bit patterns and a
//! point as three reals at its X, Y and Z codes, as a DXF stream holds
//! them once each value is read by its group code's type.
use vstd::prelude::*;

use crate::assoc_write::{
    pers_subent_manager_groups, text_group, PersSubentManager, bool_group, byte_group, constraint_common_groups, constraint_data_groups, constraint_head, double_group,
    explicit_head, geometry_head, handle_group, int_group, point_group,
    AssocConstraintNodeData, DxfGroup, DxfGroupValue, GroupValueView, GroupView, groups_view,
};
use crate::text::{eq_ignore_ascii_case, eq_ignore_case, owned};
use crate::types::{Handle, Vector3};

verus! {

/// The index of the first group at or after `pos` with group code `code`,
/// or the number of groups when there is none.
pub open spec fn next_index(gs: Seq<GroupView>, pos: int, code: i32) -> int
    decreases gs.len() - pos,
{
    if pos >= gs.len() {
        gs.len() as int
    } else if gs[pos].code == code {
        pos
    } else {
        next_index(gs, pos + 1, code)
    }
}

/// Where reading the next group with `code` leaves the position: after
/// that group, or at the end.
pub open spec fn after_next(gs: Seq<GroupView>, pos: int, code: i32) -> int {
    let i = next_index(gs, pos, code);
    if i < gs.len() {
        i + 1
    } else {
        gs.len() as int
    }
}

/// An integer value: a 32-bit, 16-bit, byte or flag value as it stands, any
/// other value 0.
pub open spec fn int_of(v: GroupValueView) -> i32 {
    match v {
        GroupValueView::Int32(x) => x,
        GroupValueView::Int16(x) => x as i32,
        GroupValueView::Byte(x) => x as i32,
        GroupValueView::Bool(b) => if b {
            1
        } else {
            0
        },
        _ => 0,
    }
}

/// A real value's bit pattern; any other value reads as 0.0.
pub open spec fn real_of(v: GroupValueView) -> u64 {
    match v {
        GroupValueView::Double(x) => x,
        _ => 0,
    }
}

/// A handle value; any other value reads as the null handle.
pub open spec fn handle_of_value(v: GroupValueView) -> Handle {
    match v {
        GroupValueView::Handle(h) => h,
        _ => Handle(0),
    }
}

/// The integer of the next group with `code` (0 where there is none) and
/// the position after it.
pub open spec fn read_int(gs: Seq<GroupView>, pos: int, code: i32) -> (i32, int) {
    let i = next_index(gs, pos, code);
    (if i < gs.len() {
        int_of(gs[i].value)
    } else {
        0
    }, after_next(gs, pos, code))
}

pub open spec fn read_real(gs: Seq<GroupView>, pos: int, code: i32) -> (u64, int) {
    let i = next_index(gs, pos, code);
    (if i < gs.len() {
        real_of(gs[i].value)
    } else {
        0
    }, after_next(gs, pos, code))
}

pub open spec fn read_handle(gs: Seq<GroupView>, pos: int, code: i32) -> (Handle, int) {
    let i = next_index(gs, pos, code);
    (if i < gs.len() {
        handle_of_value(gs[i].value)
    } else {
        Handle(0)
    }, after_next(gs, pos, code))
}

/// A point: the reals at `code`, `code + 10` and `code + 20`, read in turn.
pub open spec fn read_point(gs: Seq<GroupView>, pos: int, code: i32) -> (Vector3, int) {
    let (x, p1) = read_real(gs, pos, code);
    let (y, p2) = read_real(gs, p1, (code + 10) as i32);
    let (z, p3) = read_real(gs, p2, (code + 20) as i32);
    (Vector3 { x, y, z }, p3)
}

/// The owner id and the implied and active flags of a constraint.
pub open spec fn read_head(gs: Seq<GroupView>, pos: int) -> ((i32, bool, bool), int) {
    let (owner, p1) = read_int(gs, pos, 90);
    let (implied, p2) = read_int(gs, p1, 290);
    let (active, p3) = read_int(gs, p2, 290);
    ((owner, implied != 0, active != 0), p3)
}

/// The head of an explicit constraint, then its value and dimension
/// dependencies.
pub open spec fn read_explicit(gs: Seq<GroupView>, pos: int) -> ((i32, bool, bool, Handle, Handle), int) {
    let ((owner, implied, active), p1) = read_head(gs, pos);
    let (value_dependency, p2) = read_handle(gs, p1, 340);
    let (dimension_dependency, p3) = read_handle(gs, p2, 340);
    ((owner, implied, active, value_dependency, dimension_dependency), p3)
}

/// The code of the group at `pos`, if there is one.
pub open spec fn peek_code(gs: Seq<GroupView>, pos: int) -> Option<i32> {
    if 0 <= pos < gs.len() {
        Some(gs[pos].code)
    } else {
        None
    }
}

/// The plain geometrical constraints: those that carry only the constraint
/// head.
pub open spec fn is_plain_geometrical(name: Seq<char>) -> bool {
    eq_ignore_case(name, "ACCENTERPOINTCONSTRAINT"@) || eq_ignore_case(name, "ACCOLINEARCONSTRAINT"@)
        || eq_ignore_case(name, "ACCONCENTRICCONSTRAINT"@) || eq_ignore_case(
        name,
        "ACEQUALCURVATURECONSTRAINT"@,
    ) || eq_ignore_case(name, "ACEQUALDISTANCECONSTRAINT"@) || eq_ignore_case(
        name,
        "ACEQUALHELPPARAMETERCONSTRAINT"@,
    ) || eq_ignore_case(name, "ACEQUALLENGTHCONSTRAINT"@) || eq_ignore_case(
        name,
        "ACEQUALRADIUSCONSTRAINT"@,
    ) || eq_ignore_case(name, "ACFIXEDCONSTRAINT"@) || eq_ignore_case(name, "ACHORIZONTALCONSTRAINT"@)
        || eq_ignore_case(name, "ACMIDPOINTCONSTRAINT"@) || eq_ignore_case(name, "ACNORMALCONSTRAINT"@)
        || eq_ignore_case(name, "ACPERPENDICULARCONSTRAINT"@) || eq_ignore_case(
        name,
        "ACPOINTCOINCIDENCECONSTRAINT"@,
    ) || eq_ignore_case(name, "ACPOINTCURVECONSTRAINT"@) || eq_ignore_case(
        name,
        "ACSYMMETRICCONSTRAINT"@,
    ) || eq_ignore_case(name, "ACTANGENTCONSTRAINT"@) || eq_ignore_case(name, "ACVERTICALCONSTRAINT"@)
}

pub open spec fn is_line_class(name: Seq<char>) -> bool {
    eq_ignore_case(name, "ACCONSTRAINEDLINE"@) || eq_ignore_case(
        name,
        "ACCONSTRAINEDCONSTRUCTIONLINE"@,
    ) || eq_ignore_case(name, "ACCONSTRAINED2POINTSCONSTRUCTIONLINE"@) || eq_ignore_case(
        name,
        "ACCONSTRAINEDDATUMLINE"@,
    )
}

pub open spec fn is_angle_class(name: Seq<char>) -> bool {
    eq_ignore_case(name, "ACANGLECONSTRAINT"@) || eq_ignore_case(name, "AC3POINTANGLECONSTRAINT"@)
}

/// A point that follows the dependency and node id: read only where the
/// dependency is not null and the next group is an X coordinate (code 10).
pub open spec fn read_optional_point(gs: Seq<GroupView>, pos: int, dependency: Handle) -> (
    Option<Vector3>,
    int,
) {
    if dependency.0 != 0 && peek_code(gs, pos) == Some(10i32) {
        let (p, q) = read_point(gs, pos, 10);
        (Some(p), q)
    } else {
        (None, pos)
    }
}

/// The data of a constraint node of the kind numbered `kind` (as
/// `class_kind` numbers them), read from `pos`, and the position after it.
pub open spec fn kind_read(gs: Seq<GroupView>, pos: int, kind: int) -> (
    AssocConstraintNodeData,
    int,
) {
    if kind == 1 || kind == 2 {
        let (geometry_dependency, p1) = read_handle(gs, pos, 330);
        let (geometry_node_id, p2) = read_int(gs, p1, 90);
        let (center, p3) = read_point(gs, p2, 10);
        let (normal, p4) = read_point(gs, p3, 10);
        let (direction, p5) = read_point(gs, p4, 10);
        let (radius, p6) = read_real(gs, p5, 40);
        let (start_parameter, p7) = read_real(gs, p6, 40);
        let (end_parameter, p8) = read_real(gs, p7, 40);
        let (reserved, p9) = read_real(gs, p8, 40);
        if kind == 1 {
            (
                AssocConstraintNodeData::Circle {
                    geometry_dependency,
                    geometry_node_id,
                    center,
                    normal,
                    direction,
                    radius,
                    start_parameter,
                    end_parameter,
                    reserved,
                },
                p9,
            )
        } else {
            let (start_point, p10) = read_point(gs, p9, 10);
            let (end_point, p11) = read_point(gs, p10, 11);
            (
                AssocConstraintNodeData::Arc {
                    geometry_dependency,
                    geometry_node_id,
                    center,
                    normal,
                    direction,
                    radius,
                    start_parameter,
                    end_parameter,
                    reserved,
                    start_point,
                    end_point,
                },
                p11,
            )
        }
    } else if kind == 3 || kind == 4 {
        let (geometry_dependency, p1) = read_handle(gs, pos, 330);
        let (geometry_node_id, p2) = read_int(gs, p1, 90);
        let (point, p3) = read_optional_point(gs, p2, geometry_dependency);
        if kind == 3 {
            (AssocConstraintNodeData::Point { geometry_dependency, geometry_node_id, point }, p3)
        } else {
            let (point_type, p4) = read_int(gs, p3, 280);
            let (point_index, p5) = read_int(gs, p4, 90);
            let (curve_id, p6) = read_int(gs, p5, 90);
            (
                AssocConstraintNodeData::ImplicitPoint {
                    geometry_dependency,
                    geometry_node_id,
                    point,
                    point_type: point_type as u8,
                    point_index,
                    curve_id,
                },
                p6,
            )
        }
    } else if kind == 5 || kind == 6 {
        let (geometry_dependency, p1) = read_handle(gs, pos, 330);
        let (geometry_node_id, p2) = read_int(gs, p1, 90);
        let (point, p3) = read_point(gs, p2, 10);
        let (direction, p4) = read_point(gs, p3, 10);
        if kind == 5 {
            (AssocConstraintNodeData::Line { geometry_dependency, geometry_node_id, point, direction }, p4)
        } else {
            let (is_ray, p5) = read_int(gs, p4, 290);
            let (start_point, p6) = read_point(gs, p5, 10);
            let (end_point, p7) = read_point(gs, p6, 11);
            (
                AssocConstraintNodeData::BoundedLine {
                    geometry_dependency,
                    geometry_node_id,
                    point,
                    direction,
                    is_ray: is_ray != 0,
                    start_point,
                    end_point,
                },
                p7,
            )
        }
    } else if kind == 7 || kind == 8 || kind == 9 {
        let ((owner_id, is_implied, is_active, value_dependency, dimension_dependency), p1) =
            read_explicit(gs, pos);
        let (b, p2) = read_int(gs, p1, 280);
        if kind == 7 {
            (
                AssocConstraintNodeData::Angle {
                    owner_id,
                    is_implied,
                    is_active,
                    value_dependency,
                    dimension_dependency,
                    sector_type: b as u8,
                },
                p2,
            )
        } else if kind == 8 {
            let direction_type = b as u8;
            let (distance, p3) = if direction_type != 0 {
                let (d, q) = read_point(gs, p2, 10);
                (Some(d), q)
            } else {
                (None, p2)
            };
            (
                AssocConstraintNodeData::Distance {
                    owner_id,
                    is_implied,
                    is_active,
                    value_dependency,
                    dimension_dependency,
                    direction_type,
                    distance,
                },
                p3,
            )
        } else {
            (
                AssocConstraintNodeData::RadiusDiameter {
                    owner_id,
                    is_implied,
                    is_active,
                    value_dependency,
                    dimension_dependency,
                    mode: b as u8,
                },
                p2,
            )
        }
    } else if kind == 10 {
        let ((owner_id, is_implied, is_active), p1) = read_head(gs, pos);
        let (index, p2) = read_int(gs, p1, 90);
        (
            AssocConstraintNodeData::Parallel {
                owner_id,
                is_implied,
                is_active,
                datum_line_index: Some(index),
            },
            p2,
        )
    } else if kind == 11 || kind == 12 {
        let ((owner_id, is_implied, is_active), p1) = read_head(gs, pos);
        let (center, p2) = read_point(gs, p1, 10);
        let (short_axis, p3) = read_point(gs, p2, 11);
        let (axis_ratio, p4) = read_real(gs, p3, 40);
        if kind == 11 {
            (
                AssocConstraintNodeData::Ellipse {
                    owner_id,
                    is_implied,
                    is_active,
                    center,
                    short_axis,
                    axis_ratio,
                },
                p4,
            )
        } else {
            let (start_point, p5) = read_point(gs, p4, 10);
            let (end_point, p6) = read_point(gs, p5, 11);
            (
                AssocConstraintNodeData::BoundedEllipse {
                    owner_id,
                    is_implied,
                    is_active,
                    center,
                    short_axis,
                    axis_ratio,
                    start_point,
                    end_point,
                },
                p6,
            )
        }
    } else if kind == 13 {
        let ((owner_id, is_implied, is_active), p1) = read_head(gs, pos);
        (AssocConstraintNodeData::Geometrical { owner_id, is_implied, is_active }, p1)
    } else {
        (AssocConstraintNodeData::NoData, pos)
    }
}

/// The data of a constraint node of class `name` (compared ignoring ASCII
/// case), read from `pos`, and the position after it.
pub open spec fn constraint_data_read(gs: Seq<GroupView>, pos: int, name: Seq<char>) -> (
    AssocConstraintNodeData,
    int,
) {
    kind_read(gs, pos, class_kind(name))
}

/// A cursor over typed groups: reads move forward to the next group with
/// the code asked for.
pub struct GroupCursor<'a> {
    pub groups: &'a Vec<DxfGroup>,
    pub pos: usize,
}

impl<'a> GroupCursor<'a> {
    /// The contents of the groups.
    pub open spec fn view_groups(&self) -> Seq<GroupView> {
        groups_view(self.groups@)
    }

    pub open spec fn wf(&self) -> bool {
        self.pos <= self.groups@.len()
    }

    pub fn new(groups: &'a Vec<DxfGroup>) -> (r: Self)
        ensures
            r.groups == groups,
            r.pos == 0,
            r.wf(),
    {
        GroupCursor { groups, pos: 0 }
    }

    fn find(&self, code: i32) -> (r: usize)
        requires
            self.wf(),
        ensures
            r as int == next_index(self.view_groups(), self.pos as int, code),
            r <= self.groups@.len(),
    {
        let mut i = self.pos;
        while i < self.groups.len() && self.groups[i].code != code
            invariant
                self.pos <= i <= self.groups@.len(),
                next_index(self.view_groups(), self.pos as int, code) == next_index(
                    self.view_groups(),
                    i as int,
                    code,
                ),
            decreases self.groups@.len() - i,
        {
            proof {
                assert(self.view_groups()[i as int].code == self.groups@[i as int].code);
            }
            i = i + 1;
        }
        proof {
            if i < self.groups@.len() {
                assert(self.view_groups()[i as int].code == self.groups@[i as int].code);
            }
        }
        i
    }

    pub fn read_int(&mut self, code: i32) -> (r: i32)
        requires
            old(self).wf(),
        ensures
            final(self).groups == old(self).groups,
            final(self).wf(),
            (r, final(self).pos as int) == read_int(old(self).view_groups(), old(self).pos as int, code),
    {
        let i = self.find(code);
        if i < self.groups.len() {
            self.pos = i + 1;
            match &self.groups[i].value {
                DxfGroupValue::Int32(x) => *x,
                DxfGroupValue::Int16(x) => *x as i32,
                DxfGroupValue::Byte(x) => *x as i32,
                DxfGroupValue::Bool(b) => if *b {
                    1
                } else {
                    0
                },
                _ => 0,
            }
        } else {
            self.pos = i;
            0
        }
    }

    pub fn read_real(&mut self, code: i32) -> (r: u64)
        requires
            old(self).wf(),
        ensures
            final(self).groups == old(self).groups,
            final(self).wf(),
            (r, final(self).pos as int) == read_real(old(self).view_groups(), old(self).pos as int, code),
    {
        let i = self.find(code);
        if i < self.groups.len() {
            self.pos = i + 1;
            match &self.groups[i].value {
                DxfGroupValue::Double(x) => *x,
                _ => 0,
            }
        } else {
            self.pos = i;
            0
        }
    }

    pub fn read_handle(&mut self, code: i32) -> (r: Handle)
        requires
            old(self).wf(),
        ensures
            final(self).groups == old(self).groups,
            final(self).wf(),
            (r, final(self).pos as int) == read_handle(
                old(self).view_groups(),
                old(self).pos as int,
                code,
            ),
    {
        let i = self.find(code);
        if i < self.groups.len() {
            self.pos = i + 1;
            match &self.groups[i].value {
                DxfGroupValue::Handle(h) => *h,
                _ => Handle(0),
            }
        } else {
            self.pos = i;
            Handle(0)
        }
    }

    pub fn read_point(&mut self, code: i32) -> (r: Vector3)
        requires
            old(self).wf(),
            code <= 1000,
        ensures
            final(self).groups == old(self).groups,
            final(self).wf(),
            (r, final(self).pos as int) == read_point(old(self).view_groups(), old(self).pos as int, code),
    {
        let x = self.read_real(code);
        let y = self.read_real(code + 10);
        let z = self.read_real(code + 20);
        Vector3 { x, y, z }
    }

    pub fn peek_code(&self) -> (r: Option<i32>)
        requires
            self.wf(),
        ensures
            r == peek_code(self.view_groups(), self.pos as int),
    {
        if self.pos < self.groups.len() {
            Some(self.groups[self.pos].code)
        } else {
            None
        }
    }

    fn read_head(&mut self) -> (r: (i32, bool, bool))
        requires
            old(self).wf(),
        ensures
            final(self).groups == old(self).groups,
            final(self).wf(),
            (r, final(self).pos as int) == read_head(old(self).view_groups(), old(self).pos as int),
    {
        let owner = self.read_int(90);
        let implied = self.read_int(290);
        let active = self.read_int(290);
        (owner, implied != 0, active != 0)
    }

    fn read_explicit(&mut self) -> (r: (i32, bool, bool, Handle, Handle))
        requires
            old(self).wf(),
        ensures
            final(self).groups == old(self).groups,
            final(self).wf(),
            (r, final(self).pos as int) == read_explicit(old(self).view_groups(), old(self).pos as int),
    {
        let (owner, implied, active) = self.read_head();
        let value_dependency = self.read_handle(340);
        let dimension_dependency = self.read_handle(340);
        (owner, implied, active, value_dependency, dimension_dependency)
    }
}

fn plain_geometrical(name: &str) -> (r: bool)
    ensures
        r == is_plain_geometrical(name@),
{
    eq_ignore_ascii_case(name, "ACCENTERPOINTCONSTRAINT")
        || eq_ignore_ascii_case(name, "ACCOLINEARCONSTRAINT")
        || eq_ignore_ascii_case(name, "ACCONCENTRICCONSTRAINT")
        || eq_ignore_ascii_case(name, "ACEQUALCURVATURECONSTRAINT")
        || eq_ignore_ascii_case(name, "ACEQUALDISTANCECONSTRAINT")
        || eq_ignore_ascii_case(name, "ACEQUALHELPPARAMETERCONSTRAINT")
        || eq_ignore_ascii_case(name, "ACEQUALLENGTHCONSTRAINT")
        || eq_ignore_ascii_case(name, "ACEQUALRADIUSCONSTRAINT")
        || eq_ignore_ascii_case(name, "ACFIXEDCONSTRAINT")
        || eq_ignore_ascii_case(name, "ACHORIZONTALCONSTRAINT")
        || eq_ignore_ascii_case(name, "ACMIDPOINTCONSTRAINT")
        || eq_ignore_ascii_case(name, "ACNORMALCONSTRAINT")
        || eq_ignore_ascii_case(name, "ACPERPENDICULARCONSTRAINT")
        || eq_ignore_ascii_case(name, "ACPOINTCOINCIDENCECONSTRAINT")
        || eq_ignore_ascii_case(name, "ACPOINTCURVECONSTRAINT")
        || eq_ignore_ascii_case(name, "ACSYMMETRICCONSTRAINT")
        || eq_ignore_ascii_case(name, "ACTANGENTCONSTRAINT")
        || eq_ignore_ascii_case(name, "ACVERTICALCONSTRAINT")
}

fn line_class(name: &str) -> (r: bool)
    ensures
        r == is_line_class(name@),
{
    eq_ignore_ascii_case(name, "ACCONSTRAINEDLINE") || eq_ignore_ascii_case(
        name,
        "ACCONSTRAINEDCONSTRUCTIONLINE",
    ) || eq_ignore_ascii_case(name, "ACCONSTRAINED2POINTSCONSTRUCTIONLINE") || eq_ignore_ascii_case(
        name,
        "ACCONSTRAINEDDATUMLINE",
    )
}

fn angle_class(name: &str) -> (r: bool)
    ensures
        r == is_angle_class(name@),
{
    eq_ignore_ascii_case(name, "ACANGLECONSTRAINT") || eq_ignore_ascii_case(name, "AC3POINTANGLECONSTRAINT")
}

/// Reads the data of a constraint node of class `class_name` (compared
/// ignoring ASCII case): the groups each kind of constraint or constrained
/// geometry carries; a class that is none of them has no data.
pub fn read_constraint_data(cursor: &mut GroupCursor<'_>, class_name: &str) -> (r:
    AssocConstraintNodeData)
    requires
        old(cursor).wf(),
    ensures
        final(cursor).groups == old(cursor).groups,
        final(cursor).wf(),
        (r, final(cursor).pos as int) == constraint_data_read(
            old(cursor).view_groups(),
            old(cursor).pos as int,
            class_name@,
        ),
{
    let circle = eq_ignore_ascii_case(class_name, "ACCONSTRAINEDCIRCLE");
    if circle || eq_ignore_ascii_case(class_name, "ACCONSTRAINEDARC") {
        let geometry_dependency = cursor.read_handle(330);
        let geometry_node_id = cursor.read_int(90);
        let center = cursor.read_point(10);
        let normal = cursor.read_point(10);
        let direction = cursor.read_point(10);
        let radius = cursor.read_real(40);
        let start_parameter = cursor.read_real(40);
        let end_parameter = cursor.read_real(40);
        let reserved = cursor.read_real(40);
        if circle {
            return AssocConstraintNodeData::Circle {
                geometry_dependency,
                geometry_node_id,
                center,
                normal,
                direction,
                radius,
                start_parameter,
                end_parameter,
                reserved,
            };
        }
        let start_point = cursor.read_point(10);
        let end_point = cursor.read_point(11);
        return AssocConstraintNodeData::Arc {
            geometry_dependency,
            geometry_node_id,
            center,
            normal,
            direction,
            radius,
            start_parameter,
            end_parameter,
            reserved,
            start_point,
            end_point,
        };
    }
    let point_class = eq_ignore_ascii_case(class_name, "ACCONSTRAINEDPOINT");
    if point_class || eq_ignore_ascii_case(class_name, "ACCONSTRAINEDIMPLICITPOINT") {
        let geometry_dependency = cursor.read_handle(330);
        let geometry_node_id = cursor.read_int(90);
        let point = if geometry_dependency.0 != 0 && cursor.peek_code() == Some(10i32) {
            Some(cursor.read_point(10))
        } else {
            None
        };
        if point_class {
            return AssocConstraintNodeData::Point { geometry_dependency, geometry_node_id, point };
        }
        let point_type = cursor.read_int(280);
        let point_index = cursor.read_int(90);
        let curve_id = cursor.read_int(90);
        return AssocConstraintNodeData::ImplicitPoint {
            geometry_dependency,
            geometry_node_id,
            point,
            point_type: #[verifier::truncate] (point_type as u8),
            point_index,
            curve_id,
        };
    }
    let line = line_class(class_name);
    if line || eq_ignore_ascii_case(class_name, "ACCONSTRAINEDBOUNDEDLINE") {
        let geometry_dependency = cursor.read_handle(330);
        let geometry_node_id = cursor.read_int(90);
        let point = cursor.read_point(10);
        let direction = cursor.read_point(10);
        if line {
            return AssocConstraintNodeData::Line { geometry_dependency, geometry_node_id, point, direction };
        }
        let is_ray = cursor.read_int(290);
        let start_point = cursor.read_point(10);
        let end_point = cursor.read_point(11);
        return AssocConstraintNodeData::BoundedLine {
            geometry_dependency,
            geometry_node_id,
            point,
            direction,
            is_ray: is_ray != 0,
            start_point,
            end_point,
        };
    }
    let angle = angle_class(class_name);
    let distance_class = eq_ignore_ascii_case(class_name, "ACDISTANCECONSTRAINT");
    if angle || distance_class || eq_ignore_ascii_case(class_name, "ACRADIUSDIAMETERCONSTRAINT") {
        let (owner_id, is_implied, is_active, value_dependency, dimension_dependency) =
            cursor.read_explicit();
        let b = cursor.read_int(280);
        let byte = #[verifier::truncate] (b as u8);
        if angle {
            return AssocConstraintNodeData::Angle {
                owner_id,
                is_implied,
                is_active,
                value_dependency,
                dimension_dependency,
                sector_type: byte,
            };
        }
        if distance_class {
            let distance = if byte != 0 {
                Some(cursor.read_point(10))
            } else {
                None
            };
            return AssocConstraintNodeData::Distance {
                owner_id,
                is_implied,
                is_active,
                value_dependency,
                dimension_dependency,
                direction_type: byte,
                distance,
            };
        }
        return AssocConstraintNodeData::RadiusDiameter {
            owner_id,
            is_implied,
            is_active,
            value_dependency,
            dimension_dependency,
            mode: byte,
        };
    }
    if eq_ignore_ascii_case(class_name, "ACPARALLELCONSTRAINT") {
        let (owner_id, is_implied, is_active) = cursor.read_head();
        let index = cursor.read_int(90);
        return AssocConstraintNodeData::Parallel {
            owner_id,
            is_implied,
            is_active,
            datum_line_index: Some(index),
        };
    }
    let ellipse = eq_ignore_ascii_case(class_name, "ACCONSTRAINEDELLIPSE");
    if ellipse || eq_ignore_ascii_case(class_name, "ACCONSTRAINEDBOUNDEDELLIPSE") {
        let (owner_id, is_implied, is_active) = cursor.read_head();
        let center = cursor.read_point(10);
        let short_axis = cursor.read_point(11);
        let axis_ratio = cursor.read_real(40);
        if ellipse {
            return AssocConstraintNodeData::Ellipse {
                owner_id,
                is_implied,
                is_active,
                center,
                short_axis,
                axis_ratio,
            };
        }
        let start_point = cursor.read_point(10);
        let end_point = cursor.read_point(11);
        return AssocConstraintNodeData::BoundedEllipse {
            owner_id,
            is_implied,
            is_active,
            center,
            short_axis,
            axis_ratio,
            start_point,
            end_point,
        };
    }
    if plain_geometrical(class_name) {
        let (owner_id, is_implied, is_active) = cursor.read_head();
        return AssocConstraintNodeData::Geometrical { owner_id, is_implied, is_active };
    }
    AssocConstraintNodeData::NoData
}

/// One written group as the stream holds it: a point as the reals at its
/// X, Y (+10) and Z (+20) codes, a 2D point as X and Y, any other group as
/// it is.
pub open spec fn scalar_group(g: GroupView) -> Seq<GroupView> {
    match g.value {
        GroupValueView::Point(v) => seq![
            double_group(g.code, v.x),
            double_group((g.code + 10) as i32, v.y),
            double_group((g.code + 20) as i32, v.z),
        ],
        GroupValueView::Point2(x, y) => seq![
            double_group(g.code, x),
            double_group((g.code + 10) as i32, y),
        ],
        _ => seq![g],
    }
}

/// Written groups as the stream holds them.
pub open spec fn scalar_groups(gs: Seq<GroupView>) -> Seq<GroupView>
    decreases gs.len(),
{
    if gs.len() == 0 {
        Seq::empty()
    } else {
        scalar_groups(gs.drop_last()) + scalar_group(gs.last())
    }
}

pub proof fn lemma_scalar_concat(a: Seq<GroupView>, b: Seq<GroupView>)
    ensures
        scalar_groups(a + b) == scalar_groups(a) + scalar_groups(b),
    decreases b.len(),
{
    if b.len() == 0 {
        assert(a + b =~= a);
        assert(scalar_groups(a) + scalar_groups(b) =~= scalar_groups(a));
    } else {
        lemma_scalar_concat(a, b.drop_last());
        assert((a + b).drop_last() =~= a + b.drop_last());
        assert((a + b).last() == b.last());
        assert(scalar_groups(a) + scalar_groups(b.drop_last()) + scalar_group(b.last())
            =~= scalar_groups(a) + (scalar_groups(b.drop_last()) + scalar_group(b.last())));
    }
}

/// Groups that hold no point stand in the stream as they are.
pub proof fn lemma_scalar_plain(s: Seq<GroupView>)
    requires
        forall|i: int|
            0 <= i < s.len() ==> !(#[trigger] s[i].value is Point) && !(s[i].value is Point2),
    ensures
        scalar_groups(s) == s,
    decreases s.len(),
{
    if s.len() > 0 {
        lemma_scalar_plain(s.drop_last());
        assert(s.drop_last() + seq![s.last()] =~= s);
    }
}

proof fn lemma_scalar_single(g: GroupView)
    ensures
        scalar_groups(seq![g]) == scalar_group(g),
{
    let s = seq![g];
    assert(s.drop_last() =~= Seq::<GroupView>::empty());
    assert(scalar_groups(s.drop_last()) == Seq::<GroupView>::empty());
    assert(s.last() == g);
    assert(Seq::<GroupView>::empty() + scalar_group(g) =~= scalar_group(g));
}

/// The kind of node data a class name reads as (0 for none).
pub open spec fn class_kind(name: Seq<char>) -> int {
    if eq_ignore_case(name, "ACCONSTRAINEDCIRCLE"@) || eq_ignore_case(name, "ACCONSTRAINEDARC"@) {
        if eq_ignore_case(name, "ACCONSTRAINEDCIRCLE"@) {
            1
        } else {
            2
        }
    } else if eq_ignore_case(name, "ACCONSTRAINEDIMPLICITPOINT"@) || eq_ignore_case(
        name,
        "ACCONSTRAINEDPOINT"@,
    ) {
        if eq_ignore_case(name, "ACCONSTRAINEDPOINT"@) {
            3
        } else {
            4
        }
    } else if is_line_class(name) || eq_ignore_case(name, "ACCONSTRAINEDBOUNDEDLINE"@) {
        if is_line_class(name) {
            5
        } else {
            6
        }
    } else if is_angle_class(name) || eq_ignore_case(name, "ACDISTANCECONSTRAINT"@) || eq_ignore_case(
        name,
        "ACRADIUSDIAMETERCONSTRAINT"@,
    ) {
        if is_angle_class(name) {
            7
        } else if eq_ignore_case(name, "ACDISTANCECONSTRAINT"@) {
            8
        } else {
            9
        }
    } else if eq_ignore_case(name, "ACPARALLELCONSTRAINT"@) {
        10
    } else if eq_ignore_case(name, "ACCONSTRAINEDELLIPSE"@) || eq_ignore_case(
        name,
        "ACCONSTRAINEDBOUNDEDELLIPSE"@,
    ) {
        if eq_ignore_case(name, "ACCONSTRAINEDELLIPSE"@) {
            11
        } else {
            12
        }
    } else if is_plain_geometrical(name) {
        13
    } else {
        0
    }
}

/// The kind of node data, numbered as `class_kind` numbers class names.
pub open spec fn data_kind(d: AssocConstraintNodeData) -> int {
    match d {
        AssocConstraintNodeData::NoData => 0,
        AssocConstraintNodeData::Circle { .. } => 1,
        AssocConstraintNodeData::Arc { .. } => 2,
        AssocConstraintNodeData::Point { .. } => 3,
        AssocConstraintNodeData::ImplicitPoint { .. } => 4,
        AssocConstraintNodeData::Line { .. } => 5,
        AssocConstraintNodeData::BoundedLine { .. } => 6,
        AssocConstraintNodeData::Angle { .. } => 7,
        AssocConstraintNodeData::Distance { .. } => 8,
        AssocConstraintNodeData::RadiusDiameter { .. } => 9,
        AssocConstraintNodeData::Parallel { .. } => 10,
        AssocConstraintNodeData::Ellipse { .. } => 11,
        AssocConstraintNodeData::BoundedEllipse { .. } => 12,
        AssocConstraintNodeData::Geometrical { .. } => 13,
    }
}

/// The data is written the way it is read: a distance point exactly when
/// the direction type is not 0, an optional point only with a geometry
/// dependency, and a parallel constraint's datum line index always.
pub open spec fn reads_back(d: AssocConstraintNodeData) -> bool {
    match d {
        AssocConstraintNodeData::Distance { direction_type, distance, .. } => (direction_type != 0)
            == (distance is Some),
        AssocConstraintNodeData::ImplicitPoint { geometry_dependency, point, .. } => point is Some
            ==> geometry_dependency.0 != 0,
        AssocConstraintNodeData::Point { geometry_dependency, point, .. } => point is Some
            ==> geometry_dependency.0 != 0,
        AssocConstraintNodeData::Parallel { datum_line_index, .. } => datum_line_index is Some,
        _ => true,
    }
}

/// The three reals of a point as the stream holds them.
pub open spec fn point_reals(code: i32, v: Vector3) -> Seq<GroupView> {
    seq![
        double_group(code, v.x),
        double_group((code + 10) as i32, v.y),
        double_group((code + 20) as i32, v.z),
    ]
}

proof fn lemma_read_int_at(gs: Seq<GroupView>, p: int, code: i32)
    requires
        0 <= p < gs.len(),
        gs[p].code == code,
    ensures
        read_int(gs, p, code) == (int_of(gs[p].value), p + 1),
{
}

proof fn lemma_read_real_at(gs: Seq<GroupView>, p: int, code: i32)
    requires
        0 <= p < gs.len(),
        gs[p].code == code,
    ensures
        read_real(gs, p, code) == (real_of(gs[p].value), p + 1),
{
}

proof fn lemma_read_handle_at(gs: Seq<GroupView>, p: int, code: i32)
    requires
        0 <= p < gs.len(),
        gs[p].code == code,
    ensures
        read_handle(gs, p, code) == (handle_of_value(gs[p].value), p + 1),
{
}

proof fn lemma_read_point_at(gs: Seq<GroupView>, p: int, code: i32, v: Vector3)
    requires
        0 <= p,
        p + 3 <= gs.len(),
        code <= 1000,
        gs[p] == double_group(code, v.x),
        gs[p + 1] == double_group((code + 10) as i32, v.y),
        gs[p + 2] == double_group((code + 20) as i32, v.z),
    ensures
        read_point(gs, p, code) == (v, p + 3),
{
    lemma_read_real_at(gs, p, code);
    lemma_read_real_at(gs, p + 1, (code + 10) as i32);
    lemma_read_real_at(gs, p + 2, (code + 20) as i32);
}

/// The stream holds `w` from `p` on.
pub open spec fn holds_at(gs: Seq<GroupView>, p: int, w: Seq<GroupView>) -> bool {
    &&& 0 <= p
    &&& p + w.len() <= gs.len()
    &&& forall|k: int| 0 <= k < w.len() ==> gs[p + k] == #[trigger] w[k]
}

proof fn lemma_read_head_at(gs: Seq<GroupView>, p: int, owner_id: i32, is_implied: bool, is_active: bool)
    requires
        holds_at(gs, p, constraint_head(owner_id, is_implied, is_active)),
    ensures
        read_head(gs, p) == ((owner_id, is_implied, is_active), p + 3),
{
    let w = constraint_head(owner_id, is_implied, is_active);
    assert(gs[p + 0] == w[0]);
    assert(gs[p + 1] == w[1]);
    assert(gs[p + 2] == w[2]);
    lemma_read_int_at(gs, p, 90);
    lemma_read_int_at(gs, p + 1, 290);
    lemma_read_int_at(gs, p + 2, 290);
}

proof fn lemma_read_explicit_at(
    gs: Seq<GroupView>,
    p: int,
    owner_id: i32,
    is_implied: bool,
    is_active: bool,
    value_dependency: Handle,
    dimension_dependency: Handle,
)
    requires
        holds_at(
            gs,
            p,
            explicit_head(owner_id, is_implied, is_active, value_dependency, dimension_dependency),
        ),
    ensures
        read_explicit(gs, p) == (
            (owner_id, is_implied, is_active, value_dependency, dimension_dependency),
            p + 5,
        ),
{
    let w = explicit_head(owner_id, is_implied, is_active, value_dependency, dimension_dependency);
    let h = constraint_head(owner_id, is_implied, is_active);
    assert forall|k: int| 0 <= k < h.len() implies gs[p + k] == #[trigger] h[k] by {
        assert(w[k] == h[k]);
    }
    lemma_read_head_at(gs, p, owner_id, is_implied, is_active);
    assert(gs[p + 3] == w[3]);
    assert(gs[p + 4] == w[4]);
    lemma_read_handle_at(gs, p + 3, 340);
    lemma_read_handle_at(gs, p + 4, 340);
}

proof fn lemma_read_geometry_head_at(gs: Seq<GroupView>, p: int, dependency: Handle, node_id: i32)
    requires
        holds_at(gs, p, geometry_head(dependency, node_id)),
    ensures
        read_handle(gs, p, 330) == (dependency, p + 1),
        read_int(gs, p + 1, 90) == (node_id, p + 2),
{
    let w = geometry_head(dependency, node_id);
    assert(gs[p + 0] == w[0]);
    assert(gs[p + 1] == w[1]);
    lemma_read_handle_at(gs, p, 330);
    lemma_read_int_at(gs, p + 1, 90);
}

/// A stream holding `a + b` from `p` holds `a` there and `b` right after.
proof fn lemma_holds_split(gs: Seq<GroupView>, p: int, a: Seq<GroupView>, b: Seq<GroupView>)
    requires
        holds_at(gs, p, a + b),
    ensures
        holds_at(gs, p, a),
        holds_at(gs, p + a.len(), b),
{
    assert forall|k: int| 0 <= k < a.len() implies gs[p + k] == #[trigger] a[k] by {
        assert((a + b)[k] == a[k]);
    }
    assert forall|k: int| 0 <= k < b.len() implies gs[p + a.len() + k] == #[trigger] b[k] by {
        assert((a + b)[a.len() + k] == b[k]);
        assert(p + (a.len() + k) == p + a.len() + k);
    }
}

proof fn lemma_holds_whole(pre: Seq<GroupView>, w: Seq<GroupView>, post: Seq<GroupView>)
    ensures
        holds_at(pre + w + post, pre.len() as int, w),
{
    let gs = pre + w + post;
    assert forall|k: int| 0 <= k < w.len() implies gs[pre.len() + k] == #[trigger] w[k] by {
        assert((pre + w)[pre.len() + k] == w[k]);
    }
}

proof fn lemma_scalar_then_point(a: Seq<GroupView>, code: i32, v: Vector3)
    ensures
        scalar_groups(a + seq![point_group(code, v)]) == scalar_groups(a) + point_reals(code, v),
{
    lemma_scalar_concat(a, seq![point_group(code, v)]);
    lemma_scalar_single(point_group(code, v));
}

proof fn lemma_scalar_then_plain(a: Seq<GroupView>, b: Seq<GroupView>)
    requires
        forall|i: int|
            0 <= i < b.len() ==> !(#[trigger] b[i].value is Point) && !(b[i].value is Point2),
    ensures
        scalar_groups(a + b) == scalar_groups(a) + b,
{
    lemma_scalar_concat(a, b);
    lemma_scalar_plain(b);
}

proof fn lemma_point_part(gs: Seq<GroupView>, p: int, code: i32, v: Vector3)
    requires
        holds_at(gs, p, point_reals(code, v)),
        code <= 1000,
    ensures
        read_point(gs, p, code) == (v, p + 3),
{
    let w = point_reals(code, v);
    assert(gs[p + 0] == w[0]);
    assert(gs[p + 1] == w[1]);
    assert(gs[p + 2] == w[2]);
    lemma_read_point_at(gs, p, code, v);
}

proof fn lemma_group_part(gs: Seq<GroupView>, p: int, g: GroupView)
    requires
        holds_at(gs, p, seq![g]),
    ensures
        read_int(gs, p, g.code) == (int_of(g.value), p + 1),
        read_real(gs, p, g.code) == (real_of(g.value), p + 1),
        read_handle(gs, p, g.code) == (handle_of_value(g.value), p + 1),
        peek_code(gs, p) == Some(g.code),
{
    assert(gs[p + 0] == seq![g][0]);
    lemma_read_int_at(gs, p, g.code);
    lemma_read_real_at(gs, p, g.code);
    lemma_read_handle_at(gs, p, g.code);
}

proof fn lemma_byte_round(b: u8)
    ensures
        (int_of(GroupValueView::Byte(b)) as u8) == b,
{
}

proof fn lemma_rt_explicit(d: AssocConstraintNodeData, gs: Seq<GroupView>, p: int)
    requires
        d is Angle || d is Distance || d is RadiusDiameter,
        reads_back(d),
        holds_at(gs, p, scalar_groups(constraint_data_groups(d))),
    ensures
        kind_read(gs, p, data_kind(d)) == (d, p + scalar_groups(constraint_data_groups(d)).len()),
{
    let g = constraint_data_groups(d);
    let (o, im, ac, vd, dd, b, dist) = match d {
        AssocConstraintNodeData::Angle {
            owner_id,
            is_implied,
            is_active,
            value_dependency,
            dimension_dependency,
            sector_type,
        } => (owner_id, is_implied, is_active, value_dependency, dimension_dependency, sector_type, None),
        AssocConstraintNodeData::Distance {
            owner_id,
            is_implied,
            is_active,
            value_dependency,
            dimension_dependency,
            direction_type,
            distance,
        } => (owner_id, is_implied, is_active, value_dependency, dimension_dependency, direction_type, distance),
        AssocConstraintNodeData::RadiusDiameter {
            owner_id,
            is_implied,
            is_active,
            value_dependency,
            dimension_dependency,
            mode,
        } => (owner_id, is_implied, is_active, value_dependency, dimension_dependency, mode, None),
        _ => arbitrary(),
    };
    let e = explicit_head(o, im, ac, vd, dd);
    let bg = seq![byte_group(280, b)];
    let h = e + bg;
    lemma_scalar_plain(h);
    let w = scalar_groups(g);
    if let Some(v) = dist {
        assert(g =~= h + seq![point_group(10, v)]);
        lemma_scalar_then_point(h, 10, v);
        assert(w == h + point_reals(10, v));
        lemma_holds_split(gs, p, h, point_reals(10, v));
        lemma_point_part(gs, p + 6, 10, v);
    } else {
        assert(g =~= h);
    }
    lemma_holds_split(gs, p, e, bg);
    lemma_read_explicit_at(gs, p, o, im, ac, vd, dd);
    lemma_group_part(gs, p + 5, byte_group(280, b));
    lemma_byte_round(b);
}

proof fn lemma_rt_headed(d: AssocConstraintNodeData, gs: Seq<GroupView>, p: int)
    requires
        d is Geometrical || d is Parallel || d is Ellipse || d is BoundedEllipse,
        reads_back(d),
        holds_at(gs, p, scalar_groups(constraint_data_groups(d))),
    ensures
        kind_read(gs, p, data_kind(d)) == (d, p + scalar_groups(constraint_data_groups(d)).len()),
{
    let g = constraint_data_groups(d);
    let w = scalar_groups(g);
    match d {
        AssocConstraintNodeData::Geometrical { owner_id, is_implied, is_active } => {
            lemma_scalar_plain(g);
            lemma_read_head_at(gs, p, owner_id, is_implied, is_active);
        },
        AssocConstraintNodeData::Parallel { owner_id, is_implied, is_active, datum_line_index } => {
            let i = datum_line_index.unwrap();
            let h = constraint_head(owner_id, is_implied, is_active);
            assert(g =~= h + seq![int_group(90, i)]);
            lemma_scalar_plain(g);
            lemma_holds_split(gs, p, h, seq![int_group(90, i)]);
            lemma_read_head_at(gs, p, owner_id, is_implied, is_active);
            lemma_group_part(gs, p + 3, int_group(90, i));
        },
        AssocConstraintNodeData::Ellipse { owner_id, is_implied, is_active, center, short_axis, axis_ratio } => {
            let h = constraint_head(owner_id, is_implied, is_active);
            let s1 = h + seq![point_group(10, center)];
            let s2 = s1 + seq![point_group(11, short_axis)];
            let t = seq![double_group(40, axis_ratio)];
            assert(g =~= s2 + t);
            lemma_scalar_plain(h);
            lemma_scalar_then_point(h, 10, center);
            lemma_scalar_then_point(s1, 11, short_axis);
            lemma_scalar_then_plain(s2, t);
            let a = h + point_reals(10, center);
            let b = a + point_reals(11, short_axis);
            assert(w == b + t);
            lemma_holds_split(gs, p, b, t);
            lemma_holds_split(gs, p, a, point_reals(11, short_axis));
            lemma_holds_split(gs, p, h, point_reals(10, center));
            lemma_read_head_at(gs, p, owner_id, is_implied, is_active);
            lemma_point_part(gs, p + 3, 10, center);
            lemma_point_part(gs, p + 6, 11, short_axis);
            lemma_group_part(gs, p + 9, double_group(40, axis_ratio));
        },
        AssocConstraintNodeData::BoundedEllipse {
            owner_id,
            is_implied,
            is_active,
            center,
            short_axis,
            axis_ratio,
            start_point,
            end_point,
        } => {
            let h = constraint_head(owner_id, is_implied, is_active);
            let s1 = h + seq![point_group(10, center)];
            let s2 = s1 + seq![point_group(11, short_axis)];
            let t = seq![double_group(40, axis_ratio)];
            let s3 = s2 + t;
            let s4 = s3 + seq![point_group(10, start_point)];
            let s5 = s4 + seq![point_group(11, end_point)];
            assert(g =~= s5);
            lemma_scalar_plain(h);
            lemma_scalar_then_point(h, 10, center);
            lemma_scalar_then_point(s1, 11, short_axis);
            lemma_scalar_then_plain(s2, t);
            lemma_scalar_then_point(s3, 10, start_point);
            lemma_scalar_then_point(s4, 11, end_point);
            let a = h + point_reals(10, center);
            let b = a + point_reals(11, short_axis);
            let c = b + t;
            let e = c + point_reals(10, start_point);
            assert(w == e + point_reals(11, end_point));
            lemma_holds_split(gs, p, e, point_reals(11, end_point));
            lemma_holds_split(gs, p, c, point_reals(10, start_point));
            lemma_holds_split(gs, p, b, t);
            lemma_holds_split(gs, p, a, point_reals(11, short_axis));
            lemma_holds_split(gs, p, h, point_reals(10, center));
            lemma_read_head_at(gs, p, owner_id, is_implied, is_active);
            lemma_point_part(gs, p + 3, 10, center);
            lemma_point_part(gs, p + 6, 11, short_axis);
            lemma_group_part(gs, p + 9, double_group(40, axis_ratio));
            lemma_point_part(gs, p + 10, 10, start_point);
            lemma_point_part(gs, p + 13, 11, end_point);
        },
        _ => {},
    }
}

/// A constrained point without a point of its own, whose reader looks at
/// the group after it for one.
pub open spec fn point_may_follow(d: AssocConstraintNodeData) -> bool {
    match d {
        AssocConstraintNodeData::Point { geometry_dependency, point, .. } => point is None
            && geometry_dependency.0 != 0,
        _ => false,
    }
}

proof fn lemma_rt_points(d: AssocConstraintNodeData, gs: Seq<GroupView>, p: int)
    requires
        d is Point || d is ImplicitPoint,
        reads_back(d),
        holds_at(gs, p, scalar_groups(constraint_data_groups(d))),
        point_may_follow(d) ==> peek_code(gs, p + scalar_groups(constraint_data_groups(d)).len())
            != Some(10i32),
    ensures
        kind_read(gs, p, data_kind(d)) == (d, p + scalar_groups(constraint_data_groups(d)).len()),
{
    let g = constraint_data_groups(d);
    let w = scalar_groups(g);
    let (gd, id, pt, tail) = match d {
        AssocConstraintNodeData::Point { geometry_dependency, geometry_node_id, point } => (
            geometry_dependency,
            geometry_node_id,
            point,
            Seq::<GroupView>::empty(),
        ),
        AssocConstraintNodeData::ImplicitPoint {
            geometry_dependency,
            geometry_node_id,
            point,
            point_type,
            point_index,
            curve_id,
        } => (
            geometry_dependency,
            geometry_node_id,
            point,
            seq![byte_group(280, point_type), int_group(90, point_index), int_group(90, curve_id)],
        ),
        _ => arbitrary(),
    };
    let gh = geometry_head(gd, id);
    lemma_scalar_plain(gh);
    let mid = match pt {
        Some(v) => point_reals(10, v),
        None => Seq::<GroupView>::empty(),
    };
    match pt {
        Some(v) => {
            assert(g =~= gh + seq![point_group(10, v)] + tail);
            lemma_scalar_then_point(gh, 10, v);
            lemma_scalar_then_plain(gh + seq![point_group(10, v)], tail);
        },
        None => {
            assert(g =~= gh + tail);
            lemma_scalar_then_plain(gh, tail);
            assert(gh + Seq::<GroupView>::empty() =~= gh);
        },
    }
    assert(w == gh + mid + tail);
    lemma_holds_split(gs, p, gh + mid, tail);
    lemma_holds_split(gs, p, gh, mid);
    lemma_read_geometry_head_at(gs, p, gd, id);
    match pt {
        Some(v) => {
            lemma_point_part(gs, p + 2, 10, v);
            assert(gs[p + 2] == mid[0]);
            assert(peek_code(gs, p + 2) == Some(10i32));
        },
        None => {
            if d is ImplicitPoint {
                assert(gs[p + 2] == tail[0]);
            }
        },
    }
    if d is ImplicitPoint {
        let q = p + 2 + mid.len();
        let t0 = tail[0];
        lemma_holds_split(gs, q, seq![tail[0]], tail.subrange(1, 3));
        assert(seq![tail[0]] + tail.subrange(1, 3) =~= tail);
        lemma_group_part(gs, q, tail[0]);
        lemma_holds_split(gs, q + 1, seq![tail[1]], seq![tail[2]]);
        assert(seq![tail[1]] + seq![tail[2]] =~= tail.subrange(1, 3));
        lemma_group_part(gs, q + 1, tail[1]);
        lemma_group_part(gs, q + 2, tail[2]);
        match d {
            AssocConstraintNodeData::ImplicitPoint { point_type, .. } => lemma_byte_round(point_type),
            _ => {},
        }
    }
}

proof fn lemma_rt_lines(d: AssocConstraintNodeData, gs: Seq<GroupView>, p: int)
    requires
        d is Line || d is BoundedLine,
        holds_at(gs, p, scalar_groups(constraint_data_groups(d))),
    ensures
        kind_read(gs, p, data_kind(d)) == (d, p + scalar_groups(constraint_data_groups(d)).len()),
{
    let g = constraint_data_groups(d);
    let w = scalar_groups(g);
    match d {
        AssocConstraintNodeData::Line { geometry_dependency, geometry_node_id, point, direction } => {
            let gh = geometry_head(geometry_dependency, geometry_node_id);
            let s1 = gh + seq![point_group(10, point)];
            assert(g =~= s1 + seq![point_group(10, direction)]);
            lemma_scalar_plain(gh);
            lemma_scalar_then_point(gh, 10, point);
            lemma_scalar_then_point(s1, 10, direction);
            let a = gh + point_reals(10, point);
            assert(w == a + point_reals(10, direction));
            lemma_holds_split(gs, p, a, point_reals(10, direction));
            lemma_holds_split(gs, p, gh, point_reals(10, point));
            lemma_read_geometry_head_at(gs, p, geometry_dependency, geometry_node_id);
            lemma_point_part(gs, p + 2, 10, point);
            lemma_point_part(gs, p + 5, 10, direction);
        },
        AssocConstraintNodeData::BoundedLine {
            geometry_dependency,
            geometry_node_id,
            point,
            direction,
            is_ray,
            start_point,
            end_point,
        } => {
            let gh = geometry_head(geometry_dependency, geometry_node_id);
            let t = seq![bool_group(290, is_ray)];
            let s1 = gh + seq![point_group(10, point)];
            let s2 = s1 + seq![point_group(10, direction)];
            let s3 = s2 + t;
            let s4 = s3 + seq![point_group(10, start_point)];
            assert(g =~= s4 + seq![point_group(11, end_point)]);
            lemma_scalar_plain(gh);
            lemma_scalar_then_point(gh, 10, point);
            lemma_scalar_then_point(s1, 10, direction);
            lemma_scalar_then_plain(s2, t);
            lemma_scalar_then_point(s3, 10, start_point);
            lemma_scalar_then_point(s4, 11, end_point);
            let a = gh + point_reals(10, point);
            let b = a + point_reals(10, direction);
            let c = b + t;
            let e = c + point_reals(10, start_point);
            assert(w == e + point_reals(11, end_point));
            lemma_holds_split(gs, p, e, point_reals(11, end_point));
            lemma_holds_split(gs, p, c, point_reals(10, start_point));
            lemma_holds_split(gs, p, b, t);
            lemma_holds_split(gs, p, a, point_reals(10, direction));
            lemma_holds_split(gs, p, gh, point_reals(10, point));
            lemma_read_geometry_head_at(gs, p, geometry_dependency, geometry_node_id);
            lemma_point_part(gs, p + 2, 10, point);
            lemma_point_part(gs, p + 5, 10, direction);
            lemma_group_part(gs, p + 8, bool_group(290, is_ray));
            lemma_point_part(gs, p + 9, 10, start_point);
            lemma_point_part(gs, p + 12, 11, end_point);
        },
        _ => {},
    }
}

proof fn lemma_rt_circles(d: AssocConstraintNodeData, gs: Seq<GroupView>, p: int)
    requires
        d is Circle || d is Arc,
        holds_at(gs, p, scalar_groups(constraint_data_groups(d))),
    ensures
        kind_read(gs, p, data_kind(d)) == (d, p + scalar_groups(constraint_data_groups(d)).len()),
{
    let g = constraint_data_groups(d);
    let w = scalar_groups(g);
    let (gd, id, c, n, dr, r, sp, ep, rs, ends) = match d {
        AssocConstraintNodeData::Circle {
            geometry_dependency,
            geometry_node_id,
            center,
            normal,
            direction,
            radius,
            start_parameter,
            end_parameter,
            reserved,
        } => (
            geometry_dependency,
            geometry_node_id,
            center,
            normal,
            direction,
            radius,
            start_parameter,
            end_parameter,
            reserved,
            None,
        ),
        AssocConstraintNodeData::Arc {
            geometry_dependency,
            geometry_node_id,
            center,
            normal,
            direction,
            radius,
            start_parameter,
            end_parameter,
            reserved,
            start_point,
            end_point,
        } => (
            geometry_dependency,
            geometry_node_id,
            center,
            normal,
            direction,
            radius,
            start_parameter,
            end_parameter,
            reserved,
            Some((start_point, end_point)),
        ),
        _ => arbitrary(),
    };
    let gh = geometry_head(gd, id);
    let t = seq![double_group(40, r), double_group(40, sp), double_group(40, ep), double_group(40, rs)];
    let s1 = gh + seq![point_group(10, c)];
    let s2 = s1 + seq![point_group(10, n)];
    let s3 = s2 + seq![point_group(10, dr)];
    let s4 = s3 + t;
    lemma_scalar_plain(gh);
    lemma_scalar_then_point(gh, 10, c);
    lemma_scalar_then_point(s1, 10, n);
    lemma_scalar_then_point(s2, 10, dr);
    lemma_scalar_then_plain(s3, t);
    let a = gh + point_reals(10, c);
    let b = a + point_reals(10, n);
    let e = b + point_reals(10, dr);
    let f = e + t;
    assert(scalar_groups(s4) == f);
    match ends {
        Some((st, en)) => {
            let s5 = s4 + seq![point_group(10, st)];
            assert(g =~= s5 + seq![point_group(11, en)]);
            lemma_scalar_then_point(s4, 10, st);
            lemma_scalar_then_point(s5, 11, en);
            let f2 = f + point_reals(10, st);
            assert(w == f2 + point_reals(11, en));
            lemma_holds_split(gs, p, f2, point_reals(11, en));
            lemma_holds_split(gs, p, f, point_reals(10, st));
            lemma_point_part(gs, p + 15, 10, st);
            lemma_point_part(gs, p + 18, 11, en);
        },
        None => {
            assert(g =~= s4);
        },
    }
    lemma_holds_split(gs, p, e, t);
    lemma_holds_split(gs, p, b, point_reals(10, dr));
    lemma_holds_split(gs, p, a, point_reals(10, n));
    lemma_holds_split(gs, p, gh, point_reals(10, c));
    lemma_read_geometry_head_at(gs, p, gd, id);
    lemma_point_part(gs, p + 2, 10, c);
    lemma_point_part(gs, p + 5, 10, n);
    lemma_point_part(gs, p + 8, 10, dr);
    lemma_holds_split(gs, p + 11, seq![t[0], t[1]], seq![t[2], t[3]]);
    assert(seq![t[0], t[1]] + seq![t[2], t[3]] =~= t);
    lemma_holds_split(gs, p + 11, seq![t[0]], seq![t[1]]);
    assert(seq![t[0]] + seq![t[1]] =~= seq![t[0], t[1]]);
    lemma_holds_split(gs, p + 13, seq![t[2]], seq![t[3]]);
    assert(seq![t[2]] + seq![t[3]] =~= seq![t[2], t[3]]);
    lemma_group_part(gs, p + 11, t[0]);
    lemma_group_part(gs, p + 12, t[1]);
    lemma_group_part(gs, p + 13, t[2]);
    lemma_group_part(gs, p + 14, t[3]);
}

/// Reading a constraint node's data from where `write_constraint_data`
/// wrote it (the groups as the stream holds them, between any groups
/// before and after) with a class name of the data's kind gives the data
/// back and stops right after it. This holds for data written as it is
/// read (`reads_back`); a constrained point without a point of its own
/// needs the next group not to be an X coordinate.
pub proof fn lemma_constraint_data_round_trip(
    d: AssocConstraintNodeData,
    name: Seq<char>,
    before: Seq<GroupView>,
    after: Seq<GroupView>,
)
    requires
        class_kind(name) == data_kind(d),
        reads_back(d),
        point_may_follow(d) ==> after.len() == 0 || after[0].code != 10,
    ensures
        ({
            let w = scalar_groups(constraint_data_groups(d));
            constraint_data_read(before + w + after, before.len() as int, name) == (
                d,
                (before.len() + w.len()) as int,
            )
        }),
{
    let w = scalar_groups(constraint_data_groups(d));
    let gs = before + w + after;
    let p = before.len() as int;
    lemma_holds_whole(before, w, after);
    if point_may_follow(d) && after.len() > 0 {
        assert(gs[p + w.len()] == after[0]);
    }
    match d {
        AssocConstraintNodeData::NoData => {
            assert(constraint_data_groups(d) =~= Seq::<GroupView>::empty());
            assert(w == Seq::<GroupView>::empty());
        },
        AssocConstraintNodeData::Angle { .. } => lemma_rt_explicit(d, gs, p),
        AssocConstraintNodeData::Distance { .. } => lemma_rt_explicit(d, gs, p),
        AssocConstraintNodeData::RadiusDiameter { .. } => lemma_rt_explicit(d, gs, p),
        AssocConstraintNodeData::Geometrical { .. } => lemma_rt_headed(d, gs, p),
        AssocConstraintNodeData::Parallel { .. } => lemma_rt_headed(d, gs, p),
        AssocConstraintNodeData::Ellipse { .. } => lemma_rt_headed(d, gs, p),
        AssocConstraintNodeData::BoundedEllipse { .. } => lemma_rt_headed(d, gs, p),
        AssocConstraintNodeData::Point { .. } => lemma_rt_points(d, gs, p),
        AssocConstraintNodeData::ImplicitPoint { .. } => lemma_rt_points(d, gs, p),
        AssocConstraintNodeData::Line { .. } => lemma_rt_lines(d, gs, p),
        AssocConstraintNodeData::BoundedLine { .. } => lemma_rt_lines(d, gs, p),
        AssocConstraintNodeData::Circle { .. } => lemma_rt_circles(d, gs, p),
        AssocConstraintNodeData::Arc { .. } => lemma_rt_circles(d, gs, p),
    }
}

/// The groups as a stream holds them: each point written as one group
/// becomes its coordinates' reals.
pub fn scalar_stream(groups: &Vec<DxfGroup>) -> (r: Vec<DxfGroup>)
    requires
        forall|i: int| 0 <= i < groups@.len() ==> #[trigger] groups@[i].code <= 1000,
    ensures
        groups_view(r@) == scalar_groups(groups_view(groups@)),
{
    let mut out: Vec<DxfGroup> = Vec::new();
    let mut i: usize = 0;
    while i < groups.len()
        invariant
            i <= groups@.len(),
            forall|j: int| 0 <= j < groups@.len() ==> #[trigger] groups@[j].code <= 1000,
            groups_view(out@) == scalar_groups(groups_view(groups@.take(i as int))),
        decreases groups@.len() - i,
    {
        let code = groups[i].code;
        let ghost before = groups_view(out@);
        proof {
            assert(groups_view(groups@.take(i + 1)).drop_last() =~= groups_view(groups@.take(i as int)));
            assert(groups_view(groups@.take(i + 1)).last() == groups@[i as int]@);
        }
        match &groups[i].value {
            DxfGroupValue::Point(v) => {
                out.push(DxfGroup { code, value: DxfGroupValue::Double(v.x) });
                out.push(DxfGroup { code: code + 10, value: DxfGroupValue::Double(v.y) });
                out.push(DxfGroup { code: code + 20, value: DxfGroupValue::Double(v.z) });
            },
            DxfGroupValue::Point2(x, y) => {
                out.push(DxfGroup { code, value: DxfGroupValue::Double(*x) });
                out.push(DxfGroup { code: code + 10, value: DxfGroupValue::Double(*y) });
            },
            DxfGroupValue::Int16(x) => out.push(DxfGroup { code, value: DxfGroupValue::Int16(*x) }),
            DxfGroupValue::Int64(x) => out.push(DxfGroup { code, value: DxfGroupValue::Int64(*x) }),
            DxfGroupValue::Int32(x) => out.push(DxfGroup { code, value: DxfGroupValue::Int32(*x) }),
            DxfGroupValue::Byte(x) => out.push(DxfGroup { code, value: DxfGroupValue::Byte(*x) }),
            DxfGroupValue::Bool(x) => out.push(DxfGroup { code, value: DxfGroupValue::Bool(*x) }),
            DxfGroupValue::Handle(x) => out.push(DxfGroup { code, value: DxfGroupValue::Handle(*x) }),
            DxfGroupValue::Double(x) => out.push(DxfGroup { code, value: DxfGroupValue::Double(*x) }),
            DxfGroupValue::Text(t) => out.push(
                DxfGroup { code, value: DxfGroupValue::Text(owned(t.as_str())) },
            ),
        }
        assert(groups_view(out@) =~= before + scalar_group(groups@[i as int]@));
        i = i + 1;
    }
    assert(groups@.take(groups@.len() as int) =~= groups@);
    out
}

/// `n` integers at code 90, read in turn from `pos`, and the position after
/// them.
pub open spec fn ints_read(gs: Seq<GroupView>, pos: int, n: nat) -> (Seq<i32>, int)
    decreases n,
{
    if n == 0 {
        (Seq::empty(), pos)
    } else {
        let (front, p) = ints_read(gs, pos, (n - 1) as nat);
        let (x, q) = read_int(gs, p, 90);
        (front.push(x), q)
    }
}

/// A stored count, kept between 0 and 100000.
pub open spec fn clamped_count(v: i32) -> nat {
    if v < 0 {
        0
    } else if v > 100000 {
        100000
    } else {
        v as nat
    }
}

/// A node's id, status and connections read from `pos`: the status comes
/// after the connections from AutoCAD 2013 files on (`status_last`), right
/// after the id before that.
pub open spec fn node_common_read(gs: Seq<GroupView>, pos: int, status_last: bool) -> (
    (i32, u8, Seq<i32>),
    int,
) {
    let (id, p1) = read_int(gs, pos, 90);
    let (early, p2) = if status_last {
        (0i32, p1)
    } else {
        read_int(gs, p1, 70)
    };
    let (count, p3) = read_int(gs, p2, 90);
    let (connections, p4) = ints_read(gs, p3, clamped_count(count));
    let (status, p5) = if status_last {
        read_int(gs, p4, 70)
    } else {
        (early, p4)
    };
    ((id, status as u8, connections), p5)
}

/// The root node read from `pos`: its id, connections, then its status
/// flag at code 290.
pub open spec fn node_root_read(gs: Seq<GroupView>, pos: int) -> ((i32, u8, Seq<i32>), int) {
    let (id, p1) = read_int(gs, pos, 90);
    let (count, p2) = read_int(gs, p1, 90);
    let (connections, p3) = ints_read(gs, p2, clamped_count(count));
    let (status, p4) = read_int(gs, p3, 290);
    ((id, status as u8, connections), p4)
}

impl<'a> GroupCursor<'a> {
    fn read_ints(&mut self, n: i32) -> (r: Vec<i32>)
        requires
            old(self).wf(),
        ensures
            final(self).groups == old(self).groups,
            final(self).wf(),
            (r@, final(self).pos as int) == ints_read(
                old(self).view_groups(),
                old(self).pos as int,
                clamped_count(n),
            ),
    {
        let count: i32 = if n < 0 {
            0
        } else if n > 100000 {
            100000
        } else {
            n
        };
        let ghost start = self.pos as int;
        let mut out: Vec<i32> = Vec::new();
        let mut i: i32 = 0;
        while i < count
            invariant
                0 <= i <= count,
                count as nat == clamped_count(n),
                self.wf(),
                self.groups == old(self).groups,
                start == old(self).pos as int,
                (out@, self.pos as int) == ints_read(self.view_groups(), start, i as nat),
            decreases count - i,
        {
            let x = self.read_int(90);
            out.push(x);
            i = i + 1;
        }
        out
    }
}

/// Reads a node's id, status and connections; the status comes after the
/// connections for AutoCAD 2013 files and later (`status_last`).
pub fn read_constraint_common(cursor: &mut GroupCursor<'_>, status_last: bool) -> (r: (
    i32,
    u8,
    Vec<i32>,
))
    requires
        old(cursor).wf(),
    ensures
        final(cursor).groups == old(cursor).groups,
        final(cursor).wf(),
        ((r.0, r.1, r.2@), final(cursor).pos as int) == node_common_read(
            old(cursor).view_groups(),
            old(cursor).pos as int,
            status_last,
        ),
{
    let id = cursor.read_int(90);
    let early = if status_last {
        0
    } else {
        cursor.read_int(70)
    };
    let count = cursor.read_int(90);
    let connections = cursor.read_ints(count);
    let status = if status_last {
        cursor.read_int(70)
    } else {
        early
    };
    (id, #[verifier::truncate] (status as u8), connections)
}

/// Reads the root node of a constraint group: its id, connections and
/// status flag.
pub fn read_constraint_root(cursor: &mut GroupCursor<'_>) -> (r: (i32, u8, Vec<i32>))
    requires
        old(cursor).wf(),
    ensures
        final(cursor).groups == old(cursor).groups,
        final(cursor).wf(),
        ((r.0, r.1, r.2@), final(cursor).pos as int) == node_root_read(
            old(cursor).view_groups(),
            old(cursor).pos as int,
        ),
{
    let id = cursor.read_int(90);
    let count = cursor.read_int(90);
    let connections = cursor.read_ints(count);
    let status = cursor.read_int(290);
    (id, #[verifier::truncate] (status as u8), connections)
}

proof fn lemma_ints_read_back(gs: Seq<GroupView>, p: int, cs: Seq<i32>, n: nat)
    requires
        n <= cs.len(),
        holds_at(gs, p, cs.map_values(|c: i32| int_group(90, c))),
    ensures
        ints_read(gs, p, n) == (cs.take(n as int), p + n),
    decreases n,
{
    if n > 0 {
        lemma_ints_read_back(gs, p, cs, (n - 1) as nat);
        let w = cs.map_values(|c: i32| int_group(90, c));
        assert(gs[p + (n - 1)] == w[n - 1]);
        lemma_read_int_at(gs, p + n - 1, 90);
        assert(cs.take(n as int) =~= cs.take(n - 1).push(cs[n - 1]));
    } else {
        assert(cs.take(0) =~= Seq::<i32>::empty());
    }
}

/// Reading a node's id, status and connections from where
/// `write_constraint_common` wrote them, in the same layout, gives them
/// back and stops right after them (for at most 100000 connections, the
/// most a node is read with).
pub proof fn lemma_constraint_common_round_trip(
    node_id: i32,
    status: u8,
    connections: Seq<i32>,
    status_last: bool,
    before: Seq<GroupView>,
    after: Seq<GroupView>,
)
    requires
        connections.len() <= 100000,
    ensures
        ({
            let w = constraint_common_groups(node_id, status, connections, status_last);
            node_common_read(before + w + after, before.len() as int, status_last) == (
                (node_id, status, connections),
                (before.len() + w.len()) as int,
            )
        }),
{
    let w = constraint_common_groups(node_id, status, connections, status_last);
    let gs = before + w + after;
    let p = before.len() as int;
    lemma_holds_whole(before, w, after);
    let head = seq![int_group(90, node_id)];
    let st = if status_last {
        Seq::<GroupView>::empty()
    } else {
        seq![byte_group(70, status)]
    };
    let cnt = seq![int_group(90, connections.len() as i32)];
    let cs = connections.map_values(|c: i32| int_group(90, c));
    let tail = if status_last {
        seq![byte_group(70, status)]
    } else {
        Seq::<GroupView>::empty()
    };
    lemma_holds_split(gs, p, head + st + cnt + cs, tail);
    lemma_holds_split(gs, p, head + st + cnt, cs);
    lemma_holds_split(gs, p, head + st, cnt);
    lemma_holds_split(gs, p, head, st);
    lemma_group_part(gs, p, int_group(90, node_id));
    let q = p + 1 + st.len();
    if !status_last {
        lemma_group_part(gs, p + 1, byte_group(70, status));
        lemma_byte_round(status);
    }
    lemma_group_part(gs, q, int_group(90, connections.len() as i32));
    assert(clamped_count(connections.len() as i32) == connections.len());
    lemma_ints_read_back(gs, q + 1, connections, connections.len());
    assert(connections.take(connections.len() as int) =~= connections);
    if status_last {
        lemma_group_part(gs, q + 1 + connections.len(), byte_group(70, status));
        lemma_byte_round(status);
    }
}

/// A persistent sub-entity manager read from its section's groups at
/// `pos`: its version, markers and counts, its steps and its
/// sub-entities, each list after its count (kept between 0 and 100000).
pub open spec fn pers_subent_manager_read(gs: Seq<GroupView>, pos: int) -> (
    (i32, i32, i32, i32, i32, Seq<i32>, Seq<i32>),
    int,
) {
    let (class_version, p1) = read_int(gs, pos, 90);
    let (marker_zero, p2) = read_int(gs, p1, 90);
    let (marker_two, p3) = read_int(gs, p2, 90);
    let (step_count, p4) = read_int(gs, p3, 90);
    let (subent_count, p5) = read_int(gs, p4, 90);
    let (n, p6) = read_int(gs, p5, 90);
    let (steps, p7) = ints_read(gs, p6, clamped_count(n));
    let (m, p8) = read_int(gs, p7, 90);
    let (subents, p9) = ints_read(gs, p8, clamped_count(m));
    ((class_version, marker_zero, marker_two, step_count, subent_count, steps, subents), p9)
}

/// The view of a manager as `pers_subent_manager_read` gives it.
pub open spec fn manager_fields(m: PersSubentManager) -> (i32, i32, i32, i32, i32, Seq<i32>, Seq<i32>) {
    (
        m.class_version,
        m.marker_zero,
        m.marker_two,
        m.associative_step_count,
        m.associative_subent_count,
        m.steps@,
        m.subents@,
    )
}

/// Reads a persistent sub-entity manager from the groups of its section.
pub fn read_static_pers_subent_manager(cursor: &mut GroupCursor<'_>) -> (r: PersSubentManager)
    requires
        old(cursor).wf(),
    ensures
        final(cursor).groups == old(cursor).groups,
        final(cursor).wf(),
        (manager_fields(r), final(cursor).pos as int) == pers_subent_manager_read(
            old(cursor).view_groups(),
            old(cursor).pos as int,
        ),
{
    let class_version = cursor.read_int(90);
    let marker_zero = cursor.read_int(90);
    let marker_two = cursor.read_int(90);
    let associative_step_count = cursor.read_int(90);
    let associative_subent_count = cursor.read_int(90);
    let n = cursor.read_int(90);
    let steps = cursor.read_ints(n);
    let m = cursor.read_int(90);
    let subents = cursor.read_ints(m);
    PersSubentManager {
        class_version,
        marker_zero,
        marker_two,
        associative_step_count,
        associative_subent_count,
        steps,
        subents,
    }
}

/// Reading the section that `write_static_pers_subent_manager_dxf` wrote
/// (its groups after the subclass marker, up to the section's end) gives
/// the manager back, for at most 100000 steps and sub-entities.
pub proof fn lemma_pers_subent_manager_round_trip(m: PersSubentManager)
    requires
        m.steps@.len() <= 100000,
        m.subents@.len() <= 100000,
    ensures
        ({
            let section = pers_subent_manager_groups(m).skip(1);
            pers_subent_manager_read(section, 0) == (manager_fields(m), section.len() as int)
        }),
{
    let w = pers_subent_manager_groups(m);
    let section = w.skip(1);
    let head = seq![
        int_group(90, m.class_version),
        int_group(90, m.marker_zero),
        int_group(90, m.marker_two),
        int_group(90, m.associative_step_count),
        int_group(90, m.associative_subent_count),
        int_group(90, m.steps@.len() as i32),
    ];
    let steps = m.steps@.map_values(|c: i32| int_group(90, c));
    let written = m.associative_subent_count != 0 || m.subents@.len() > 0;
    let tail = if written {
        seq![int_group(90, m.subents@.len() as i32)] + m.subents@.map_values(|c: i32| int_group(90, c))
    } else {
        Seq::<GroupView>::empty()
    };
    assert(w =~= seq![text_group(100, "AcDbPersSubentManager"@)] + (head + steps + tail));
    assert(section =~= head + steps + tail);
    let gs = section;
    assert(holds_at(gs, 0, section)) by {
        assert forall|k: int| 0 <= k < section.len() implies gs[0 + k] == #[trigger] section[k] by {
        }
    }
    lemma_holds_split(gs, 0, head + steps, tail);
    lemma_holds_split(gs, 0, head, steps);
    assert forall|k: int| 0 <= k < 6 implies gs[k] == #[trigger] head[k] by {
        assert(gs[0 + k] == head[k]);
    }
    lemma_read_int_at(gs, 0, 90);
    lemma_read_int_at(gs, 1, 90);
    lemma_read_int_at(gs, 2, 90);
    lemma_read_int_at(gs, 3, 90);
    lemma_read_int_at(gs, 4, 90);
    lemma_read_int_at(gs, 5, 90);
    assert(clamped_count(m.steps@.len() as i32) == m.steps@.len());
    lemma_ints_read_back(gs, 6, m.steps@, m.steps@.len());
    assert(m.steps@.take(m.steps@.len() as int) =~= m.steps@);
    let q: int = 6 + m.steps@.len() as int;
    if written {
        let sub = m.subents@.map_values(|c: i32| int_group(90, c));
        lemma_holds_split(gs, q, seq![int_group(90, m.subents@.len() as i32)], sub);
        lemma_group_part(gs, q, int_group(90, m.subents@.len() as i32));
        assert(clamped_count(m.subents@.len() as i32) == m.subents@.len());
        lemma_ints_read_back(gs, q + 1, m.subents@, m.subents@.len());
        assert(m.subents@.take(m.subents@.len() as int) =~= m.subents@);
    } else {
        assert(q == gs.len());
        assert(next_index(gs, q, 90) == gs.len());
        assert(m.subents@ =~= Seq::<i32>::empty());
    }
}

} // verus!
