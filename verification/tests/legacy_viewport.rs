use acadrust::document::CadDocument;
use acadrust::legacy_viewport::{mview_range, record, restore};
use acadrust::types::{Handle, Vector3};
use acadrust::viewport::Viewport;
use acadrust::xdata::{ExtendedDataRecord, XDataValue as X};

fn bits(v: f64) -> u64 {
    v.to_bits()
}

#[test]
fn mview_update_preserves_unrelated_application_values() {
    let doc = CadDocument::new();
    let mut viewport = Viewport::new();
    let mut original = record(&viewport, &doc);
    original.values.insert(0, X::Integer32(123));
    original.values.push(X::String("OTHER".into()));
    viewport.common.extended_data.add_record(original);
    viewport.view_height = bits(77.);
    let updated = record(&viewport, &doc);
    assert_eq!(updated.values.first(), Some(&X::Integer32(123)));
    assert_eq!(updated.values.last(), Some(&X::String("OTHER".into())));
    assert_eq!(
        updated
            .values
            .iter()
            .filter(|v| matches!(v, X::String(s) if s == "MVIEW"))
            .count(),
        1
    );
    viewport.common.extended_data.upsert_record(updated);
    viewport.view_height = bits(0.);
    restore(&mut viewport, |_| None);
    assert_eq!(f64::from_bits(viewport.view_height), 77.);
}

#[test]
fn truncated_mview_does_not_change_viewport() {
    let mut viewport = Viewport::new();
    let mut data = ExtendedDataRecord::new("ACAD");
    data.values = vec![X::String("MVIEW".into()), X::ControlString("{".into())];
    viewport.common.extended_data.add_record(data);
    let expected = viewport.clone();
    restore(&mut viewport, |_| None);
    assert_eq!(viewport, expected);
}

#[test]
fn plain_mview_string_does_not_consume_unrelated_data() {
    let doc = CadDocument::new();
    let mut viewport = Viewport::new();
    let mut data = ExtendedDataRecord::new("ACAD");
    data.values = vec![X::String("MVIEW".into()), X::Integer32(123)];
    viewport.common.extended_data.add_record(data.clone());
    let updated = record(&viewport, &doc);
    assert_eq!(updated.values[..2], data.values);
    viewport.common.extended_data.upsert_record(updated);
    viewport.view_height = bits(0.);
    restore(&mut viewport, |_| None);
    assert_eq!(viewport.view_height, Viewport::new().view_height);
}

#[test]
fn malformed_mview_scalar_does_not_reset_view_parameters() {
    let doc = CadDocument::new();
    let mut viewport = Viewport::new();
    let mut data = record(&viewport, &doc);
    data.values[7] = X::Integer32(123);
    viewport.common.extended_data.add_record(data);
    let expected = viewport.clone();
    restore(&mut viewport, |_| None);
    assert_eq!(viewport, expected);
}

#[test]
fn record_of_a_bare_viewport_is_one_group() {
    let doc = CadDocument::new();
    let viewport = Viewport::new();
    let data = record(&viewport, &doc);
    assert_eq!(data.application_name, "ACAD");
    // MVIEW, {, 26 parameters, {, }, }
    assert_eq!(data.values.len(), 31);
    assert_eq!(data.values[0], X::String("MVIEW".into()));
    assert_eq!(data.values[2], X::Integer16(16));
    assert_eq!(data.values[13], X::Integer16(1000));
    assert_eq!(mview_range(&data.values), Some((0, 31)));
}

#[test]
fn restore_after_record_gives_back_every_parameter() {
    let mut doc = CadDocument::new();
    let mut frozen_layer = doc.layers[0].clone();
    frozen_layer.handle = Handle(0x40);
    frozen_layer.name = "Hidden".into();
    doc.layers.push(frozen_layer);
    let mut viewport = Viewport::new();
    viewport.view_target = Vector3::new(bits(1.5), bits(-2.), bits(3.));
    viewport.twist_angle_degrees = bits(30.);
    viewport.view_height = bits(120.);
    viewport.view_center = Vector3::new(bits(5.), bits(6.), 0);
    viewport.status.perspective = true;
    viewport.status.snap_on = true;
    viewport.status.iso_pair_right = true;
    viewport.ucs_at_origin = true;
    viewport.ucs_icon_visible = false;
    viewport.circle_sides = 500;
    viewport.frozen_layers = vec![Handle(0x40)];
    let data = record(&viewport, &doc);
    let mut target = Viewport::new();
    target.common.extended_data.add_record(data);
    let mut asked: Vec<String> = Vec::new();
    let asked_cell = std::cell::RefCell::new(&mut asked);
    restore(&mut target, |name| {
        asked_cell.borrow_mut().push(name.to_string());
        if name == "Hidden" {
            Some(Handle(0x40))
        } else {
            None
        }
    });
    assert_eq!(asked, vec!["Hidden".to_string()]);
    assert_eq!(target.view_target, viewport.view_target);
    assert_eq!(target.twist_angle_degrees, viewport.twist_angle_degrees);
    assert_eq!(target.view_height, viewport.view_height);
    assert_eq!(target.view_center, viewport.view_center);
    assert!(target.status.perspective);
    assert!(target.status.snap_on);
    assert!(target.status.iso_pair_right);
    assert!(!target.status.iso_pair_top);
    assert!(target.status.always_enabled);
    assert!(target.ucs_at_origin);
    assert!(!target.ucs_icon_visible);
    assert_eq!(target.circle_sides, 500);
    assert_eq!(target.frozen_layers, vec![Handle(0x40)]);
}

#[test]
fn record_writes_icon_and_status_words() {
    let doc = CadDocument::new();
    let mut viewport = Viewport::new();
    viewport.status.front_clipping = true;
    viewport.status.back_clipping = true;
    viewport.status.zoom_locking = true;
    viewport.ucs_icon_visible = true;
    viewport.ucs_at_origin = true;
    viewport.status.iso_pair_top = true;
    let data = record(&viewport, &doc);
    // Only the five low status bits are written.
    assert_eq!(data.values[12], X::Integer16(6));
    assert_eq!(data.values[15], X::Integer16(3));
    assert_eq!(data.values[19], X::Integer16(1));
}

#[test]
fn record_appends_after_values_without_a_group() {
    let doc = CadDocument::new();
    let mut viewport = Viewport::new();
    let mut data = ExtendedDataRecord::new("acad");
    data.values = vec![X::Integer16(5)];
    viewport.common.extended_data.add_record(data);
    let updated = record(&viewport, &doc);
    assert_eq!(updated.application_name, "acad");
    assert_eq!(updated.values[0], X::Integer16(5));
    assert_eq!(updated.values[1], X::String("MVIEW".into()));
    assert_eq!(updated.values.len(), 32);
}

#[test]
fn nested_groups_are_matched_by_depth() {
    let values = vec![
        X::String("MVIEW".into()),
        X::ControlString("{".into()),
        X::ControlString("{".into()),
        X::ControlString("}".into()),
        X::ControlString("}".into()),
        X::Integer16(1),
    ];
    assert_eq!(mview_range(&values), Some((0, 5)));
    let unclosed = vec![
        X::String("MVIEW".into()),
        X::ControlString("{".into()),
        X::ControlString("{".into()),
        X::ControlString("}".into()),
    ];
    assert_eq!(mview_range(&unclosed), None);
}

#[test]
fn restore_finds_the_group_amid_other_values() {
    let doc = CadDocument::new();
    let mut viewport = Viewport::new();
    viewport.view_height = bits(42.);
    viewport.view_target = Vector3::new(bits(1.), bits(2.), bits(3.));
    viewport.circle_sides = 250;
    let mut data = record(&viewport, &doc);
    data.values.insert(0, X::String("MVIEW".into()));
    data.values.insert(0, X::Integer32(7));
    data.values.push(X::ControlString("}".into()));
    data.values.push(X::Real(bits(9.)));
    let mut target = Viewport::new();
    target.common.extended_data.add_record(data);
    restore(&mut target, |_| None);
    assert_eq!(f64::from_bits(target.view_height), 42.);
    assert_eq!(target.view_target, viewport.view_target);
    assert_eq!(target.circle_sides, 250);
}

#[test]
fn restore_skips_an_unclosed_group_before_the_recorded_one() {
    let doc = CadDocument::new();
    let mut viewport = Viewport::new();
    viewport.view_height = bits(12.5);
    viewport.circle_sides = 64;
    let mut data = record(&viewport, &doc);
    data.values.insert(0, X::ControlString("{".into()));
    data.values.insert(0, X::String("MVIEW".into()));
    data.values.push(X::Integer16(3));
    let mut target = Viewport::new();
    target.common.extended_data.add_record(data);
    restore(&mut target, |_| None);
    assert_eq!(f64::from_bits(target.view_height), 12.5);
    assert_eq!(target.circle_sides, 64);
}
