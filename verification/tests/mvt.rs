use acadrust::mvt::{command_integer, parameter_integer, GeomType, LayerBuilder, TileValue};

#[test]
fn test_point_feature_encode_decode() {
    let mut builder = LayerBuilder::new("test_layer".into(), 4096);
    builder.add_point(100, 200, &[("name".into(), "point1".into())]);
    let layer = builder.build();
    assert_eq!(layer.name, "test_layer");
    assert_eq!(layer.version, 2);
    assert_eq!(layer.extent, Some(4096));
    assert_eq!(layer.features.len(), 1);
    assert_eq!(layer.features[0].geom_type, Some(GeomType::Point.code()));
    assert_eq!(layer.keys, vec!["name"]);
    assert_eq!(layer.values[0].string_value, Some("point1".to_string()));
    assert_eq!(layer.features[0].geometry, vec![9, 200, 400]);
}

#[test]
fn test_linestring_feature_encode_decode() {
    let mut builder = LayerBuilder::new("lines".into(), 4096);
    builder.add_linestring(
        &[(0, 0), (100, 0), (100, 100)],
        &[("color".into(), "#ff0000".into())],
    );
    let layer = builder.build();
    let f = &layer.features[0];
    assert_eq!(f.geom_type, Some(GeomType::LineString.code()));
    assert!(!f.geometry.is_empty());
    assert_eq!(f.geometry, vec![9, 0, 0, 18, 200, 0, 0, 200]);
}

#[test]
fn test_polygon_feature_encode_decode() {
    let mut builder = LayerBuilder::new("polys".into(), 4096);
    builder.add_polygon(
        &[vec![(0, 0), (100, 0), (100, 100), (0, 100), (0, 0)]],
        &[("area".into(), "10000".into())],
    );
    let layer = builder.build();
    let f = &layer.features[0];
    assert_eq!(f.geom_type, Some(GeomType::Polygon.code()));
    // MoveTo, LineTo x3 (closing point dropped), ClosePath.
    assert_eq!(f.geometry, vec![9, 0, 0, 26, 200, 0, 0, 200, 199, 0, 15]);
}

#[test]
fn test_multi_layer_encode_decode() {
    let mut b1 = LayerBuilder::new("layer_a".into(), 4096);
    b1.add_point(10, 20, &[]);
    let mut b2 = LayerBuilder::new("layer_b".into(), 4096);
    b2.add_linestring(&[(0, 0), (50, 50)], &[]);
    let layers = vec![b1.build(), b2.build()];
    assert_eq!(layers.len(), 2);
    assert_eq!(layers[0].name, "layer_a");
    assert_eq!(layers[1].name, "layer_b");
}

#[test]
fn test_key_value_deduplication() {
    let mut builder = LayerBuilder::new("dedup".into(), 4096);
    builder.add_point(1, 1, &[("color".into(), "red".into())]);
    builder.add_point(2, 2, &[("color".into(), "red".into())]);
    builder.add_point(3, 3, &[("color".into(), "blue".into())]);
    let layer = builder.build();

    // Keys should be deduplicated: ["color"]
    assert_eq!(layer.keys, vec!["color"]);
    // Values should be deduplicated: ["red", "blue"]
    assert_eq!(layer.values.len(), 2);
    // Each feature should have 2 tags (key_idx + value_idx)
    assert_eq!(layer.features[0].tags.len(), 2);
    assert_eq!(layer.features[1].tags.len(), 2);
    // First two features should share the same key and value indices
    assert_eq!(layer.features[0].tags, layer.features[1].tags);
}

#[test]
fn command_and_parameter_integers() {
    assert_eq!(command_integer(1, 1), 9);
    assert_eq!(command_integer(2, 3), 26);
    assert_eq!(command_integer(7, 1), 15);
    assert_eq!(command_integer(9, 0), 1);
    assert_eq!(parameter_integer(0) as u32, 0);
    assert_eq!(parameter_integer(-1) as u32, 1);
    assert_eq!(parameter_integer(1) as u32, 2);
    assert_eq!(parameter_integer(-2) as u32, 3);
    assert_eq!(parameter_integer(i32::MAX) as u32, u32::MAX - 1);
    assert_eq!(parameter_integer(i32::MIN) as u32, u32::MAX);
}

#[test]
fn short_shapes_add_nothing() {
    let mut builder = LayerBuilder::new("short".into(), 512);
    builder.add_linestring(&[(1, 1)], &[("k".into(), "v".into())]);
    builder.add_polygon(&[vec![(0, 0), (1, 0), (0, 0)]], &[]);
    builder.add_polygon(&[], &[]);
    let layer = builder.build();
    assert!(layer.features.is_empty());
    assert!(layer.keys.is_empty());
    assert_eq!(layer.extent, Some(512));
}

#[test]
fn feature_ids_count_up_and_tags_index_tables() {
    let mut builder = LayerBuilder::new("ids".into(), 4096);
    builder.add_point(0, 0, &[("a".into(), "x".into()), ("b".into(), "y".into())]);
    builder.add_point(0, 0, &[("b".into(), "x".into())]);
    let layer = builder.build();
    assert_eq!(layer.features[0].id, Some(1));
    assert_eq!(layer.features[1].id, Some(2));
    assert_eq!(layer.keys, vec!["a", "b"]);
    assert_eq!(layer.features[0].tags, vec![0, 0, 1, 1]);
    assert_eq!(layer.features[1].tags, vec![1, 0]);
    assert_eq!(layer.values[1], TileValue::from_text("y"));
}
