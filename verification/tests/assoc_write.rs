use acadrust::assoc_write::{
    write_assoc_action, write_assoc_action_param, write_assoc_annotation, write_assoc_compound, write_assoc_dependency,
    write_assoc_eval, write_assoc_parameter_body, write_assoc_single_dependency, write_assoc_surface,
    write_constraint_common, write_constraint_data, write_constraint_group, write_dimension_association_dxf,
    write_static_pers_subent_manager_dxf, AssocDimensionAssociation, AssocDimensionReference,
    write_associative_object_dxf, AssocArrayItem, AssocArrayParameters, AssocNetwork, AssocVariable, AssociativeData,
    AssociativeObject, AssocViewLabelActionParam,
    Assoc2dConstraintGroup, AssocAction, AssocActionBody, AssocActionDependency, AssocActionParam,
    AssocAnnotationActionBody, AssocAnnotationBase, AssocAnnotationDependency, AssocAnnotationKind,
    AssocChildParameter, AssocCompoundActionParam, AssocConstraintNode, AssocConstraintNodeData, AssocDependency,
    AssocEvalValue, AssocEvalVariant, AssocParamBasedActionBody, AssocSingleDependencyActionParam,
    AssocSurfaceActionBody, AssocSurfaceActionKind, AssocSurfaceBody, AssocValueParam, AssocValueParamVariable,
    DxfGroup, DxfGroupValue as V, PersSubentManager,
};
use acadrust::types::{Handle, Vector2, Vector3};

fn g(code: i32, value: V) -> DxfGroup {
    DxfGroup { code, value }
}

fn p(x: f64, y: f64, z: f64) -> Vector3 {
    Vector3::new(x.to_bits(), y.to_bits(), z.to_bits())
}

#[test]
fn distance_constraint_groups() {
    let data = AssocConstraintNodeData::Distance {
        owner_id: 4,
        is_implied: false,
        is_active: true,
        value_dependency: Handle(0x20),
        dimension_dependency: Handle(0x21),
        direction_type: 1,
        distance: Some(p(1.0, 2.0, 3.0)),
    };
    let mut out = vec![g(0, V::Int32(-1))];
    write_constraint_data(&data, &mut out);
    assert_eq!(
        out,
        vec![
            g(0, V::Int32(-1)),
            g(90, V::Int32(4)),
            g(290, V::Bool(false)),
            g(290, V::Bool(true)),
            g(340, V::Handle(Handle(0x20))),
            g(340, V::Handle(Handle(0x21))),
            g(280, V::Byte(1)),
            g(10, V::Point(p(1.0, 2.0, 3.0))),
        ]
    );
}

#[test]
fn arc_and_parallel_groups() {
    let arc = AssocConstraintNodeData::Arc {
        geometry_dependency: Handle(0x30),
        geometry_node_id: 7,
        center: p(0.0, 0.0, 0.0),
        normal: p(0.0, 0.0, 1.0),
        direction: p(1.0, 0.0, 0.0),
        radius: 2.5f64.to_bits(),
        start_parameter: 0.0f64.to_bits(),
        end_parameter: 1.5f64.to_bits(),
        reserved: 0.0f64.to_bits(),
        start_point: p(2.5, 0.0, 0.0),
        end_point: p(0.0, 2.5, 0.0),
    };
    let mut out = Vec::new();
    write_constraint_data(&arc, &mut out);
    let codes: Vec<i32> = out.iter().map(|x| x.code).collect();
    assert_eq!(codes, vec![330, 90, 10, 10, 10, 40, 40, 40, 40, 10, 11]);
    assert_eq!(out[5], g(40, V::Double(2.5f64.to_bits())));

    let mut out = Vec::new();
    write_constraint_data(
        &AssocConstraintNodeData::Parallel { owner_id: 1, is_implied: true, is_active: true, datum_line_index: None },
        &mut out,
    );
    assert_eq!(out.len(), 3);
    let mut out = Vec::new();
    write_constraint_data(&AssocConstraintNodeData::NoData, &mut out);
    assert!(out.is_empty());
}

fn node(id: i32, class_name: &str, data: AssocConstraintNodeData) -> AssocConstraintNode {
    AssocConstraintNode { node_id: id, status: 1, connections: vec![id + 10], class_name: class_name.to_string(), data }
}

#[test]
fn node_status_moves_after_connections_from_2013() {
    let n = node(3, "AcConstrainedPoint", AssocConstraintNodeData::NoData);
    let mut before = Vec::new();
    write_constraint_common(&n, false, &mut before);
    assert_eq!(
        before,
        vec![g(90, V::Int32(3)), g(70, V::Byte(1)), g(90, V::Int32(1)), g(90, V::Int32(13))]
    );
    let mut after = Vec::new();
    write_constraint_common(&n, true, &mut after);
    assert_eq!(
        after,
        vec![g(90, V::Int32(3)), g(90, V::Int32(1)), g(90, V::Int32(13)), g(70, V::Byte(1))]
    );
}

#[test]
fn eval_values_use_their_code_or_the_default() {
    let mut out = Vec::new();
    write_assoc_eval(&AssocEvalVariant { code: 0, value: AssocEvalValue::Long(5) }, &mut out);
    write_assoc_eval(&AssocEvalVariant { code: 1071, value: AssocEvalValue::Long(6) }, &mut out);
    write_assoc_eval(&AssocEvalVariant { code: 0, value: AssocEvalValue::Text("d1".to_string()) }, &mut out);
    write_assoc_eval(&AssocEvalVariant { code: 0, value: AssocEvalValue::NoValue }, &mut out);
    assert_eq!(
        out,
        vec![g(90, V::Int32(5)), g(1071, V::Int32(6)), g(1, V::Text("d1".to_string()))]
    );
}

fn action(class_version: i16) -> AssocAction {
    AssocAction {
        class_version,
        geometry_status: 0,
        owning_network: Handle(0x10),
        action_body: Handle(0x11),
        action_index: 2,
        max_dependency_index: 3,
        dependencies: vec![
            AssocActionDependency { is_owned: true, dependency: Handle(0x12) },
            AssocActionDependency { is_owned: false, dependency: Handle(0x13) },
        ],
        owned_parameters: vec![Handle(0x14)],
        values: vec![AssocValueParam {
            class_version: 0,
            name: "d1".to_string(),
            unit_type: 1,
            variables: vec![AssocValueParamVariable {
                value: AssocEvalVariant { code: 40, value: AssocEvalValue::Real(2.0f64.to_bits()) },
                handle: Handle(0),
            }],
            controlled_object_dependency: Handle(0x15),
        }],
    }
}

#[test]
fn action_writes_parameters_from_class_version_two() {
    let mut old = Vec::new();
    write_assoc_action(&action(1), &mut old);
    assert_eq!(old.len(), 10);
    assert_eq!(old[0], g(100, V::Text("AcDbAssocAction".to_string())));
    assert_eq!(old[8], g(360, V::Handle(Handle(0x12))));
    assert_eq!(old[9], g(330, V::Handle(Handle(0x13))));
    let mut new = Vec::new();
    write_assoc_action(&action(2), &mut new);
    assert_eq!(new.len(), 10 + 3 + 2 + 4 + 2 + 1);
    assert_eq!(new[10], g(90, V::Int16(0)));
    assert_eq!(new[12], g(360, V::Handle(Handle(0x14))));
    assert_eq!(new[15], g(90, V::Int32(0)));
    assert_eq!(new[16], g(1, V::Text("d1".to_string())));
    assert_eq!(new[19], g(40, V::Double(2.0f64.to_bits())));
    assert_eq!(new[21], g(330, V::Handle(Handle(0x15))));
}

#[test]
fn constraint_group_lists_root_then_registered_nodes() {
    let group = Assoc2dConstraintGroup {
        action: action(1),
        version: 2,
        flag: true,
        work_plane: [p(0.0, 0.0, 0.0), p(1.0, 0.0, 0.0), p(0.0, 1.0, 0.0)],
        dependency: Handle(0x40),
        actions: vec![],
        nodes: vec![
            node(1, "AcConstrainedPoint", AssocConstraintNodeData::Point {
                geometry_dependency: Handle(0),
                geometry_node_id: 9,
                point: None,
            }),
            AssocConstraintNode { node_id: 0, status: 0, connections: vec![1], class_name: String::new(), data: AssocConstraintNodeData::NoData },
        ],
    };
    let mut out = Vec::new();
    write_constraint_group(&group, true, &mut out);
    let rest = &out[10..];
    assert_eq!(rest[0], g(100, V::Text("AcDbAssoc2dConstraintGroup".to_string())));
    assert_eq!(rest[7], g(90, V::Int32(0)));
    // two nodes: the root, then one registered node
    assert_eq!(rest[8], g(90, V::Int32(2)));
    assert_eq!(
        rest[9..13],
        [g(90, V::Int32(0)), g(90, V::Int32(1)), g(90, V::Int32(1)), g(290, V::Bool(false))]
    );
    assert_eq!(rest[13], g(90, V::Int32(1)));
    assert_eq!(rest[14], g(1, V::Text("AcConstrainedPoint".to_string())));
    assert_eq!(rest[15], g(90, V::Int32(1)));
    assert_eq!(
        rest[16..],
        [
            g(90, V::Int32(1)),
            g(90, V::Int32(1)),
            g(90, V::Int32(11)),
            g(70, V::Byte(1)),
            g(330, V::Handle(Handle(0))),
            g(90, V::Int32(9)),
        ]
    );
}

fn text(code: i32, s: &str) -> DxfGroup {
    g(code, V::Text(s.to_string()))
}

fn dependency(name: Option<&str>) -> AssocDependency {
    AssocDependency {
        class_version: 2,
        status: 0,
        is_read_dependency: true,
        is_write_dependency: false,
        is_attached_to_object: true,
        is_delegating_to_owning_action: false,
        order: -5,
        dependent_on: Handle(0x50),
        name: name.map(str::to_string),
        read_dependency: Handle(0),
        node: Handle(0x51),
        dependency_body: Handle(0x52),
        dependency_body_id: 7,
    }
}

#[test]
fn dependency_name_is_flagged_then_written() {
    let mut out = Vec::new();
    write_assoc_dependency(&dependency(None), &mut out);
    assert_eq!(out.len(), 14);
    assert_eq!(out[9], g(290, V::Bool(false)));
    assert_eq!(out[10], g(330, V::Handle(Handle(0))));
    let mut out = Vec::new();
    write_assoc_dependency(&dependency(Some("Width")), &mut out);
    assert_eq!(out.len(), 15);
    assert_eq!(out[0], text(100, "AcDbAssocDependency"));
    assert_eq!(out[9], g(290, V::Bool(true)));
    assert_eq!(out[10], text(1, "Width"));
    assert_eq!(out[14], g(90, V::Int32(7)));
}

fn empty_body() -> AssocParamBasedActionBody {
    AssocParamBasedActionBody {
        version: 0,
        minor: 0,
        dependencies: vec![],
        marker: 0,
        values: vec![],
        empty_value_marker: 0,
        dependency: Handle(0),
    }
}

#[test]
fn parameter_body_without_content_writes_nothing() {
    let mut out = Vec::new();
    write_assoc_parameter_body(&empty_body(), &mut out);
    assert!(out.is_empty());
    let mut body = empty_body();
    body.version = 2;
    body.dependencies = vec![Handle(0x60)];
    body.empty_value_marker = -1;
    body.dependency = Handle(0x61);
    write_assoc_parameter_body(&body, &mut out);
    assert_eq!(
        out,
        vec![
            text(100, "AcDbAssocParamBasedActionBody"),
            g(90, V::Int32(2)),
            g(90, V::Int32(0)),
            g(90, V::Int32(1)),
            g(360, V::Handle(Handle(0x60))),
            g(90, V::Int32(0)),
            g(90, V::Int32(0)),
            g(90, V::Int32(-1)),
            g(330, V::Handle(Handle(0x61))),
        ]
    );
}

fn param() -> AssocActionParam {
    AssocActionParam { is_r2013: 1, version: 3, name: "p".to_string() }
}

#[test]
fn action_param_version_only_from_2013() {
    let mut old = Vec::new();
    write_assoc_action_param(&param(), false, &mut old);
    assert_eq!(old, vec![text(100, "AcDbAssocActionParam"), g(90, V::Int16(1)), text(1, "p")]);
    let mut new = Vec::new();
    write_assoc_action_param(&param(), true, &mut new);
    assert_eq!(new[2], g(90, V::Int32(3)));
    assert_eq!(new.len(), 4);
    let single = AssocSingleDependencyActionParam {
        action_param: param(),
        dependency_class_version: 0,
        dependency: Handle(0x70),
        class_version: 1,
    };
    let mut out = Vec::new();
    write_assoc_single_dependency(&single, "AcDbAssocEdgeActionParam", false, &mut out);
    assert_eq!(out[3], text(100, "AcDbAssocSingleDependencyActionParam"));
    assert_eq!(out[6], text(100, "AcDbAssocEdgeActionParam"));
    assert_eq!(out.len(), 8);
}

#[test]
fn compound_child_extra_handles_only_with_an_id() {
    let mut compound = AssocCompoundActionParam {
        action_param: param(),
        class_version: 0,
        status: 0,
        parameters: vec![Handle(0x80), Handle(0x81)],
        child_parameter: Some(AssocChildParameter {
            status: 1,
            id: 0,
            parameter: Handle(0x82),
            secondary_parameter: Handle(0x83),
            marker: 4,
            tertiary_parameter: Handle(0x84),
        }),
    };
    let mut out = Vec::new();
    write_assoc_compound(&compound, false, &mut out);
    assert_eq!(out.len(), 3 + 4 + 2 + 3);
    assert_eq!(out[11], g(330, V::Handle(Handle(0x82))));
    compound.child_parameter.as_mut().unwrap().id = 9;
    let mut out = Vec::new();
    write_assoc_compound(&compound, false, &mut out);
    assert_eq!(out.len(), 3 + 4 + 2 + 6);
    assert_eq!(out[14], g(330, V::Handle(Handle(0x84))));
    compound.child_parameter = None;
    let mut out = Vec::new();
    write_assoc_compound(&compound, false, &mut out);
    assert_eq!(out.len(), 9);
}

#[test]
fn pers_subent_manager_subents_only_when_counted_or_held() {
    let mut manager = PersSubentManager {
        class_version: 1,
        marker_zero: 0,
        marker_two: 2,
        associative_step_count: 1,
        associative_subent_count: 0,
        steps: vec![5],
        subents: vec![],
    };
    let mut out = Vec::new();
    write_static_pers_subent_manager_dxf(&manager, &mut out);
    assert_eq!(out.len(), 8);
    manager.subents = vec![6, 7];
    let mut out = Vec::new();
    write_static_pers_subent_manager_dxf(&manager, &mut out);
    assert_eq!(out[8..], [g(90, V::Int32(2)), g(90, V::Int32(6)), g(90, V::Int32(7))]);
}

fn surface(kind: AssocSurfaceActionKind) -> AssocSurfaceActionBody {
    AssocSurfaceActionBody {
        kind,
        action_body: AssocActionBody { version: 1 },
        parameter_body: empty_body(),
        surface_body: AssocSurfaceBody {
            version: 1,
            dependency: Handle(0x90),
            is_semi_associative: false,
            marker: 0,
            is_semi_override: false,
            grip_status: 0,
        },
        path_status: 0,
        class_version: 3,
        option: 2,
        flags: [true, false, true, false, true],
        distance: 4.0f64.to_bits(),
        status: 1,
        secondary_status: 2,
        first_point: Vector2 { x: 1.0f64.to_bits(), y: 2.0f64.to_bits() },
        second_point: Vector2 { x: 3.0f64.to_bits(), y: 4.0f64.to_bits() },
    }
}

#[test]
fn surface_sections_by_kind() {
    let mut out = Vec::new();
    write_assoc_surface(&surface(AssocSurfaceActionKind::Trim), &mut out);
    // action body (2), no parameter body, surface part (9), section, version, three values
    assert_eq!(out.len(), 2 + 9 + 1 + 1 + 3);
    assert_eq!(out[11], text(100, "AcDbAssocTrimSurfaceActionBody"));
    assert_eq!(out[15], g(40, V::Double(4.0f64.to_bits())));
    let mut out = Vec::new();
    write_assoc_surface(&surface(AssocSurfaceActionKind::EdgeFillet), &mut out);
    assert_eq!(out.len(), 12);
    assert_eq!(out[11], text(100, "AcDbAssocEdgeFilletActionBody"));
    let mut out = Vec::new();
    write_assoc_surface(&surface(AssocSurfaceActionKind::Fillet), &mut out);
    assert_eq!(out[14], g(10, V::Point2(1.0f64.to_bits(), 2.0f64.to_bits())));
}

fn annotation(kind: AssocAnnotationKind) -> AssocAnnotationActionBody {
    AssocAnnotationActionBody {
        kind,
        action_body: AssocActionBody { version: 1 },
        annotation: AssocAnnotationBase {
            action_body: AssocActionBody { version: 2 },
            version: 1,
            dependency: Handle(0xA0),
            parameter_body: empty_body(),
        },
        class_version: 0,
        entity: Handle(0xA1),
        actions: vec![AssocAnnotationDependency { dependency_id: 3, dependency: Handle(0xA2) }],
        read_node: Handle(0xA3),
        dimension_node: Handle(0xA4),
        dependency: Handle(0xA5),
    }
}

#[test]
fn annotation_bodies_by_kind() {
    let mut out = Vec::new();
    write_assoc_annotation(&annotation(AssocAnnotationKind::RestoreEntityState), &mut out);
    assert_eq!(
        out,
        vec![
            text(100, "AcDbAssocActionBody"),
            g(90, V::Int32(1)),
            text(100, "AcDbAssocRestoreEntityStateActionBody"),
            g(90, V::Int32(0)),
            g(330, V::Handle(Handle(0xA1))),
        ]
    );
    let mut out = Vec::new();
    write_assoc_annotation(&annotation(AssocAnnotationKind::MLeader), &mut out);
    assert_eq!(out[1], g(90, V::Int32(2)));
    assert_eq!(out[4], text(100, "AcDbAssocMLeaderActionBody"));
    assert_eq!(out[6..], [g(90, V::Int32(1)), g(90, V::Int32(3)), g(330, V::Handle(Handle(0xA2)))]);
    let mut out = Vec::new();
    write_assoc_annotation(&annotation(AssocAnnotationKind::ThreePointAngularDimension), &mut out);
    assert_eq!(out.len(), 9);
    assert_eq!(out[8], g(330, V::Handle(Handle(0xA5))));
    let mut out = Vec::new();
    write_assoc_annotation(&annotation(AssocAnnotationKind::RotatedDimension), &mut out);
    assert_eq!(out.len(), 8);
}

fn reference(class_name: &str, osnap_type: u8) -> AssocDimensionReference {
    AssocDimensionReference {
        class_name: class_name.to_string(),
        osnap_type,
        xrefs: vec![],
        main_subent_type: 1,
        main_gs_marker: 2,
        xref_paths: vec!["a".to_string()],
        osnap_distance: 0,
        osnap_point: p(1.0, 1.0, 0.0),
        intersection_objects: vec![Handle(0xB0)],
        intersection_subent_type: 3,
        intersection_gs_marker: 4,
        intersection_xref_paths: vec![],
        has_last_point_reference: false,
    }
}

#[test]
fn dimension_association_writes_associative_points() {
    let value = AssocDimensionAssociation {
        dimension: Handle(0xC0),
        associativity: 0b0101,
        trans_space: false,
        rotated_type: 0,
        references: [
            vec![reference("AcDbOsnapPointRef", 1), reference("AcDbOsnapPointRef", 6)],
            vec![reference("ignored", 1)],
            vec![],
            vec![],
        ],
    };
    let mut out = Vec::new();
    write_dimension_association_dxf(&value, &mut out);
    assert_eq!(out[0], text(100, "AcDbDimAssoc"));
    assert_eq!(out[1], g(330, V::Handle(Handle(0xC0))));
    // slot 0: first reference (osnap 1): name, type, 73, 91, 301, 40, 10, 75
    assert_eq!(out[5], text(1, "AcDbOsnapPointRef"));
    assert_eq!(out[9], text(301, "a"));
    assert_eq!(out[12], g(75, V::Bool(true)));
    // second reference (osnap 6) adds the intersection groups and ends the slot
    assert_eq!(out[20], g(332, V::Handle(Handle(0xB0))));
    assert_eq!(out[23], g(75, V::Bool(false)));
    // slot 2 has no references: one empty reference
    assert_eq!(
        out[24..],
        [text(1, ""), g(72, V::Byte(0)), g(40, V::Double(0)), g(10, V::Point(Vector3::zero())), g(75, V::Bool(false))]
    );
}

fn object(data: AssociativeData) -> AssociativeObject {
    AssociativeObject {
        dxf_name: "ACDBASSOCNETWORK".to_string(),
        cpp_class_name: "AcDbAssocArrayRectangularParameters".to_string(),
        handle: Handle(0x1A),
        owner: Handle(0x1B),
        reactors: vec![Handle(0x1C)],
        xdictionary_handle: Some(Handle(0x1D)),
        data,
    }
}

#[test]
fn associative_object_header_and_network() {
    let network = AssocNetwork {
        action: action(1),
        network_version: 0,
        network_action_index: 5,
        actions: vec![AssocActionDependency { is_owned: true, dependency: Handle(0x30) }],
        owned_actions: vec![Handle(0x31)],
    };
    let mut out = Vec::new();
    write_associative_object_dxf(&object(AssociativeData::Network(network)), false, &mut out);
    assert_eq!(
        out[..9],
        [
            text(0, "ACDBASSOCNETWORK"),
            g(5, V::Handle(Handle(0x1A))),
            text(102, "{ACAD_REACTORS"),
            g(330, V::Handle(Handle(0x1C))),
            text(102, "}"),
            text(102, "{ACAD_XDICTIONARY"),
            g(360, V::Handle(Handle(0x1D))),
            text(102, "}"),
            g(330, V::Handle(Handle(0x1B))),
        ]
    );
    let rest = &out[9 + 10..];
    assert_eq!(
        rest,
        [
            text(100, "AcDbAssocNetwork"),
            g(90, V::Int16(0)),
            g(90, V::Int32(5)),
            g(90, V::Int32(1)),
            g(360, V::Handle(Handle(0x30))),
            g(90, V::Int32(1)),
            g(330, V::Handle(Handle(0x31))),
        ]
    );
}

#[test]
fn variable_writes_its_cached_value_only_when_it_has_one() {
    let mut variable = AssocVariable {
        action: action(1),
        class_version: 2,
        name: "d1".to_string(),
        expression: "2*d0".to_string(),
        evaluator: String::new(),
        description: String::new(),
        value: AssocEvalVariant { code: 40, value: AssocEvalValue::Real(4.0f64.to_bits()) },
        has_cached_value: false,
        cached_value: "4".to_string(),
        flag: true,
        reserved: 0,
    };
    let mut bare = object(AssociativeData::Unknown);
    bare.reactors.clear();
    bare.xdictionary_handle = None;
    let mut out = Vec::new();
    write_associative_object_dxf(&bare, false, &mut out);
    assert_eq!(out.len(), 3);
    bare.data = AssociativeData::Variable(variable.clone());
    let mut without = Vec::new();
    write_associative_object_dxf(&bare, false, &mut without);
    variable.has_cached_value = true;
    bare.data = AssociativeData::Variable(variable);
    let mut with = Vec::new();
    write_associative_object_dxf(&bare, false, &mut with);
    assert_eq!(with.len(), without.len() + 1);
    assert_eq!(with[with.len() - 3], text(1, "4"));
    assert_eq!(with[3 + 10 + 3], text(1, "2*d0"));
}

#[test]
fn array_parameters_close_with_the_class_name() {
    let item = AssocArrayItem {
        class_version: 0,
        location: [1, 2, 3],
        flags: 0x10,
        uses_default_transform: true,
        x_direction: p(1.0, 0.0, 0.0),
        transform: [0; 16],
        relative_transform: None,
        first_handle: None,
        second_handle: None,
    };
    let params = AssocArrayParameters {
        version: 1,
        class_name: "AcDbAssocArrayItem".to_string(),
        items: vec![item],
        item_count: 4,
        row_count: 2,
        level_count: 1,
    };
    let mut out = Vec::new();
    write_associative_object_dxf(&object(AssociativeData::ArrayParameters(params)), true, &mut out);
    let rest = &out[9..];
    assert_eq!(rest[2], g(90, V::Int32(1)));
    assert_eq!(rest[4..8], [g(90, V::Int32(0)), g(90, V::Int32(1)), g(90, V::Int32(2)), g(90, V::Int32(3))]);
    assert_eq!(rest[9], g(11, V::Point(p(1.0, 0.0, 0.0))));
    // flag 0x10 without a second handle writes the null handle
    assert_eq!(rest[10], g(330, V::Handle(Handle(0))));
    assert_eq!(rest[rest.len() - 1], text(100, "AcDbAssocArrayRectangularParameters"));
    assert_eq!(rest.len(), 4 + 7 + 3 + 1);
}

#[test]
fn view_label_offset_as_two_reals() {
    let label = AssocViewLabelActionParam {
        single_dependency: AssocSingleDependencyActionParam {
            action_param: param(),
            dependency_class_version: 0,
            dependency: Handle(0x70),
            class_version: 1,
        },
        class_version: 0,
        label_version: 1,
        offset: Vector2 { x: 0.5f64.to_bits(), y: 1.5f64.to_bits() },
        flag: 1,
    };
    let mut out = Vec::new();
    write_associative_object_dxf(&object(AssociativeData::ViewLabelActionParam(label)), true, &mut out);
    let n = out.len();
    assert_eq!(out[n - 3], g(210, V::Double(0.5f64.to_bits())));
    assert_eq!(out[n - 2], g(220, V::Double(1.5f64.to_bits())));
    assert_eq!(out[n - 1], g(280, V::Byte(1)));
    assert_eq!(out[9 + 2], g(90, V::Int32(3)));
}
