use acadrust::assoc_group_read::{
    read_constraint_common, read_constraint_data, read_constraint_root, read_static_pers_subent_manager,
    scalar_stream, GroupCursor,
};
use acadrust::assoc_write::{
    write_constraint_common, write_constraint_data, write_static_pers_subent_manager_dxf, AssocConstraintNode,
    PersSubentManager, AssocConstraintNodeData as D, DxfGroup,
    DxfGroupValue as V,
};
use acadrust::types::{Handle, Vector3};

fn p(x: f64, y: f64, z: f64) -> Vector3 {
    Vector3::new(x.to_bits(), y.to_bits(), z.to_bits())
}

fn round_trip(data: &D, class_name: &str) -> (D, usize, usize) {
    let mut written = Vec::new();
    write_constraint_data(data, &mut written);
    let mut stream = scalar_stream(&written);
    let len = stream.len();
    // the next node starts with its id
    stream.push(DxfGroup { code: 90, value: V::Int32(77) });
    let mut cursor = GroupCursor::new(&stream);
    let read = read_constraint_data(&mut cursor, class_name);
    (read, cursor.pos, len)
}

fn samples() -> Vec<(D, &'static str)> {
    vec![
        (D::Geometrical { owner_id: 3, is_implied: true, is_active: false }, "AcFixedConstraint"),
        (
            D::Angle {
                owner_id: 1,
                is_implied: false,
                is_active: true,
                value_dependency: Handle(0x20),
                dimension_dependency: Handle(0x21),
                sector_type: 2,
            },
            "AC3POINTANGLECONSTRAINT",
        ),
        (
            D::Distance {
                owner_id: 1,
                is_implied: false,
                is_active: true,
                value_dependency: Handle(0x20),
                dimension_dependency: Handle(0),
                direction_type: 1,
                distance: Some(p(1.0, 2.0, 3.0)),
            },
            "AcDistanceConstraint",
        ),
        (
            D::Parallel { owner_id: 4, is_implied: false, is_active: true, datum_line_index: Some(2) },
            "ACPARALLELCONSTRAINT",
        ),
        (
            D::ImplicitPoint {
                geometry_dependency: Handle(0x30),
                geometry_node_id: 5,
                point: Some(p(0.5, 0.0, 0.0)),
                point_type: 1,
                point_index: 2,
                curve_id: -1,
            },
            "AcConstrainedImplicitPoint",
        ),
        (
            D::Point { geometry_dependency: Handle(0x31), geometry_node_id: 6, point: None },
            "AcConstrainedPoint",
        ),
        (
            D::BoundedLine {
                geometry_dependency: Handle(0x32),
                geometry_node_id: 7,
                point: p(0.0, 0.0, 0.0),
                direction: p(1.0, 0.0, 0.0),
                is_ray: true,
                start_point: p(0.0, 0.0, 0.0),
                end_point: p(4.0, 0.0, 0.0),
            },
            "AcConstrainedBoundedLine",
        ),
        (
            D::Arc {
                geometry_dependency: Handle(0x33),
                geometry_node_id: 8,
                center: p(0.0, 0.0, 0.0),
                normal: p(0.0, 0.0, 1.0),
                direction: p(1.0, 0.0, 0.0),
                radius: 2.0f64.to_bits(),
                start_parameter: 0.0f64.to_bits(),
                end_parameter: 1.5f64.to_bits(),
                reserved: 0.0f64.to_bits(),
                start_point: p(2.0, 0.0, 0.0),
                end_point: p(0.0, 2.0, 0.0),
            },
            "AcConstrainedArc",
        ),
        (
            D::BoundedEllipse {
                owner_id: 9,
                is_implied: false,
                is_active: false,
                center: p(0.0, 0.0, 0.0),
                short_axis: p(0.0, 1.0, 0.0),
                axis_ratio: 0.5f64.to_bits(),
                start_point: p(2.0, 0.0, 0.0),
                end_point: p(-2.0, 0.0, 0.0),
            },
            "AcConstrainedBoundedEllipse",
        ),
    ]
}

#[test]
fn written_constraint_data_reads_back() {
    for (data, class_name) in samples() {
        let (read, pos, len) = round_trip(&data, class_name);
        assert_eq!(read, data, "{}", class_name);
        assert_eq!(pos, len, "{}", class_name);
    }
}

#[test]
fn unknown_class_reads_no_data_and_stays() {
    let stream = vec![DxfGroup { code: 90, value: V::Int32(1) }];
    let mut cursor = GroupCursor::new(&stream);
    assert_eq!(read_constraint_data(&mut cursor, "AcSomethingElse"), D::NoData);
    assert_eq!(cursor.pos, 0);
}

#[test]
fn missing_groups_read_as_zero() {
    let stream: Vec<DxfGroup> = vec![];
    let mut cursor = GroupCursor::new(&stream);
    assert_eq!(
        read_constraint_data(&mut cursor, "ACPARALLELCONSTRAINT"),
        D::Parallel { owner_id: 0, is_implied: false, is_active: false, datum_line_index: Some(0) }
    );
}

#[test]
fn distance_without_direction_reads_no_point() {
    let stream = vec![
        DxfGroup { code: 90, value: V::Int32(1) },
        DxfGroup { code: 290, value: V::Bool(false) },
        DxfGroup { code: 290, value: V::Bool(true) },
        DxfGroup { code: 340, value: V::Handle(Handle(5)) },
        DxfGroup { code: 340, value: V::Handle(Handle(6)) },
        DxfGroup { code: 280, value: V::Byte(0) },
        DxfGroup { code: 10, value: V::Double(1.0f64.to_bits()) },
    ];
    let mut cursor = GroupCursor::new(&stream);
    let read = read_constraint_data(&mut cursor, "acdistanceconstraint");
    assert_eq!(
        read,
        D::Distance {
            owner_id: 1,
            is_implied: false,
            is_active: true,
            value_dependency: Handle(5),
            dimension_dependency: Handle(6),
            direction_type: 0,
            distance: None,
        }
    );
    assert_eq!(cursor.pos, 6);
}

#[test]
fn node_common_reads_back_in_both_layouts() {
    let node = AssocConstraintNode {
        node_id: 12,
        status: 3,
        connections: vec![4, 5, 6],
        class_name: "AcConstrainedPoint".to_string(),
        data: D::NoData,
    };
    for status_last in [false, true] {
        let mut written = Vec::new();
        write_constraint_common(&node, status_last, &mut written);
        let mut cursor = GroupCursor::new(&written);
        let (id, status, connections) = read_constraint_common(&mut cursor, status_last);
        assert_eq!((id, status, connections), (12, 3, vec![4, 5, 6]));
        assert_eq!(cursor.pos, written.len());
    }
}

#[test]
fn root_node_reads_id_connections_and_flag() {
    let stream = vec![
        DxfGroup { code: 90, value: V::Int32(0) },
        DxfGroup { code: 90, value: V::Int32(2) },
        DxfGroup { code: 90, value: V::Int32(7) },
        DxfGroup { code: 90, value: V::Int32(8) },
        DxfGroup { code: 290, value: V::Bool(true) },
    ];
    let mut cursor = GroupCursor::new(&stream);
    assert_eq!(read_constraint_root(&mut cursor), (0, 1, vec![7, 8]));
    assert_eq!(cursor.pos, 5);
}

#[test]
fn negative_connection_count_reads_none() {
    let stream = vec![
        DxfGroup { code: 90, value: V::Int32(9) },
        DxfGroup { code: 90, value: V::Int32(-4) },
        DxfGroup { code: 70, value: V::Byte(1) },
    ];
    let mut cursor = GroupCursor::new(&stream);
    assert_eq!(read_constraint_common(&mut cursor, true), (9, 1, vec![]));
}

#[test]
fn pers_subent_manager_reads_back_from_its_section() {
    for subents in [vec![], vec![6, 7]] {
        let manager = PersSubentManager {
            class_version: 1,
            marker_zero: 0,
            marker_two: 2,
            associative_step_count: 1,
            associative_subent_count: 0,
            steps: vec![5],
            subents: subents.clone(),
        };
        let mut written = Vec::new();
        write_static_pers_subent_manager_dxf(&manager, &mut written);
        let section: Vec<DxfGroup> = written[1..].to_vec();
        let mut cursor = GroupCursor::new(&section);
        let read = read_static_pers_subent_manager(&mut cursor);
        assert_eq!(read, manager);
        assert_eq!(cursor.pos, section.len());
    }
}
