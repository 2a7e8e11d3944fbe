use acadrust::assoc::{parse_i32_text, parse_i64_text, AssocCursor, AssocDxfRecord};
use acadrust::assoc_names::{is_dxf_plain_geometrical_constraint, surface_kind, surface_section, AssocSurfaceActionKind};
use acadrust::assoc_read::{read_action_param, read_constraint_geometry};
use acadrust::types::Handle;

fn record() -> AssocDxfRecord {
    let pairs = |items: &[(i32, &str)]| -> Vec<(i32, String)> {
        items.iter().map(|(c, v)| (*c, v.to_string())).collect()
    };
    AssocDxfRecord {
        handle: Handle(0x40),
        owner: Handle(0x1),
        reactors: vec![],
        xdictionary_handle: None,
        sections: vec![
            (
                "AcDbAssocAction".to_string(),
                pairs(&[(90, " 2"), (90, "x"), (1, "name"), (90, "-7"), (290, "1"), (90, "70000")]),
            ),
            ("AcDbAssocDependency".to_string(), pairs(&[(300, "a"), (300, "b"), (90, "3"), (300, "c")])),
            ("AcDbAssocAction".to_string(), pairs(&[(90, "99")])),
        ],
    }
}

#[test]
fn record_values_by_section_and_code() {
    let r = record();
    assert_eq!(r.values("AcDbAssocAction", 90), vec![" 2", "x", "-7", "70000"]);
    assert_eq!(r.i32("AcDbAssocAction", 90, 0), 2);
    assert_eq!(r.i32("AcDbAssocAction", 90, 1), 0);
    assert_eq!(r.i32("AcDbAssocAction", 90, 2), -7);
    assert_eq!(r.i32("AcDbAssocAction", 90, 9), 0);
    assert_eq!(r.i16("AcDbAssocAction", 90, 3), 70000i32 as i16);
    assert_eq!(r.byte("AcDbAssocAction", 90, 2), (-7i32) as u8);
    assert!(r.bool("AcDbAssocAction", 290, 0));
    assert!(!r.bool("AcDbAssocAction", 291, 0));
    assert_eq!(r.text("AcDbAssocAction", 1, 0), "name");
    assert_eq!(r.text("AcDbAssocAction", 1, 1), "");
    assert!(r.values("Missing", 90).is_empty());
}

#[test]
fn cursor_reads_in_order() {
    let r = record();
    let mut c = AssocCursor::new(&r, "AcDbAssocAction");
    assert_eq!(c.peek_code(), Some(90));
    assert_eq!(c.i32(90), 2);
    assert_eq!(c.text(1), "name");
    assert_eq!(c.i64(90), -7);
    assert!(c.bool(290));
    assert_eq!(c.i16(90), 70000i32 as i16);
    assert_eq!(c.peek_code(), None);
    assert_eq!(c.next(90), None);
    assert_eq!(c.i32(90), 0);

    let mut d = AssocCursor::new(&r, "AcDbAssocDependency");
    assert_eq!(d.consecutive_text(300), vec!["a".to_string(), "b".to_string()]);
    assert_eq!(d.peek_code(), Some(90));
    assert!(d.consecutive_text(300).is_empty());
    assert_eq!(d.next(300), Some("c"));

    let mut e = AssocCursor::new(&r, "Nothing");
    assert_eq!(e.peek_code(), None);
    assert_eq!(e.text(1), "");
}

#[test]
fn integers_parse_like_str_parse() {
    for text in ["0", "+5", "-5", "2147483647", "-2147483648", "2147483648", "", "-", "+", "1 ", "0x10", "007"] {
        assert_eq!(parse_i32_text(text), text.parse::<i32>().ok(), "{}", text);
    }
    for text in ["9223372036854775807", "-9223372036854775808", "9223372036854775808", "18446744073709551616000", "-1"] {
        assert_eq!(parse_i64_text(text), text.parse::<i64>().ok(), "{}", text);
    }
}

fn constraint_record() -> AssocDxfRecord {
    AssocDxfRecord {
        handle: Handle(0x50),
        owner: Handle(0x1),
        reactors: vec![],
        xdictionary_handle: None,
        sections: vec![
            (
                "AcDbAssocActionParam".to_string(),
                vec![(90, "1".to_string()), (90, "2".to_string()), (1, "Radius".to_string())],
            ),
            (
                "AcDbAssocGeomConstraint".to_string(),
                vec![
                    (90, "12".to_string()),
                    (70, "skip".to_string()),
                    (290, "0".to_string()),
                    (290, "1".to_string()),
                    (90, "4".to_string()),
                ],
            ),
        ],
    }
}

#[test]
fn constraint_geometry_reads_owner_and_flags() {
    let r = constraint_record();
    let mut c = AssocCursor::new(&r, "AcDbAssocGeomConstraint");
    assert_eq!(read_constraint_geometry(&mut c), (12, false, true));
    assert_eq!(c.i32(90), 4);

    let mut empty = AssocCursor::new(&r, "Missing");
    assert_eq!(read_constraint_geometry(&mut empty), (0, false, false));
}

#[test]
fn action_param_reads_version_only_when_present() {
    let r = constraint_record();
    let p = read_action_param(&r);
    assert_eq!(p.is_r2013, 1);
    assert_eq!(p.version, 2);
    assert_eq!(p.name, "Radius");

    let older = AssocDxfRecord {
        handle: Handle(0x51),
        owner: Handle(0x1),
        reactors: vec![],
        xdictionary_handle: None,
        sections: vec![(
            "AcDbAssocActionParam".to_string(),
            vec![(90, "0".to_string()), (1, "Angle".to_string()), (90, "5".to_string())],
        )],
    };
    let q = read_action_param(&older);
    assert_eq!(q.is_r2013, 0);
    assert_eq!(q.version, 0);
    assert_eq!(q.name, "Angle");

    let none = AssocDxfRecord {
        handle: Handle(0x52),
        owner: Handle(0x1),
        reactors: vec![],
        xdictionary_handle: None,
        sections: vec![],
    };
    let n = read_action_param(&none);
    assert_eq!((n.is_r2013, n.version, n.name.as_str()), (0, 0, ""));
}

#[test]
fn surface_kinds_and_sections() {
    assert_eq!(surface_kind("ASSOCTRIMSURFACEACTIONBODY"), Some(AssocSurfaceActionKind::Trim));
    assert_eq!(surface_kind("ASSOCEDGEFILLETACTIONBODY"), Some(AssocSurfaceActionKind::EdgeFillet));
    assert_eq!(surface_kind("AssocTrimSurfaceActionBody"), None);
    assert_eq!(surface_kind(""), None);
    assert_eq!(surface_section(AssocSurfaceActionKind::Trim), "AcDbAssocTrimSurfaceActionBody");
    assert_eq!(surface_section(AssocSurfaceActionKind::EdgeChamfer), "AcDbAssocEdgeChamferActionBody");
    assert_eq!(surface_section(AssocSurfaceActionKind::Plane), "AcDbAssocPlaneSurfaceActionBody");
}

#[test]
fn plain_geometrical_constraints_ignore_case() {
    assert!(is_dxf_plain_geometrical_constraint("AcParallelConstraint") == false);
    assert!(is_dxf_plain_geometrical_constraint("AcHorizontalConstraint"));
    assert!(is_dxf_plain_geometrical_constraint("ACVERTICALCONSTRAINT"));
    assert!(is_dxf_plain_geometrical_constraint("acfixedconstraint"));
    assert!(!is_dxf_plain_geometrical_constraint("AcDistanceConstraint"));
    assert!(!is_dxf_plain_geometrical_constraint("AcFixedConstraint "));
}
