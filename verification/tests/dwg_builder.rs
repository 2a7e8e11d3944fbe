use acadrust::document::{BlockRecord, CadDocument, DimStyle, DxfClass, EntityKind, EntityRecord};
use acadrust::dwg_builder::{
    entity_class_numbers, mline_style_flags, unknown_entity_type_name,
    correct_entity_ownership, dedup_block_names, fill_empty_block_lists, raise_handle_seed, repair_dim_style_handle_collisions, resolve_root_dictionary,
    resolve_type_code, DwgDocumentBuilder, HandleMaps,
};
use acadrust::objects::{Dictionary, ObjectType};
use acadrust::types::Handle;
use std::collections::HashMap;

#[test]
fn names_fall_back_to_defaults() {
    let mut maps = HandleMaps::new();
    maps.layers.insert(0x10, "Walls".to_string());
    maps.blocks.insert(0x20, "Door".to_string());
    assert_eq!(maps.layer_name(0x10), "Walls");
    assert_eq!(maps.layer_name(0x11), "0");
    assert_eq!(maps.block_name(0x20), "Door");
    assert_eq!(maps.block_name(1234), "*U1234");
    assert_eq!(maps.block_name(0), "*U0");
    assert_eq!(maps.style_name(5), "STANDARD");
    assert_eq!(maps.dimstyle_name(5), "Standard");
}

#[test]
fn class_codes_resolve_through_the_class_map() {
    let mut class_map = HashMap::new();
    class_map.insert(500i16, 77i16);
    class_map.insert(40i16, 99i16);
    assert_eq!(resolve_type_code(500, &class_map), 77);
    assert_eq!(resolve_type_code(501, &class_map), 501);
    assert_eq!(resolve_type_code(40, &class_map), 40);
    assert_eq!(resolve_type_code(-3, &class_map), -3);
}

#[test]
fn builder_starts_strict_and_switches_to_failsafe() {
    let mut builder = DwgDocumentBuilder::new(vec![1u8, 2, 3]);
    assert!(!builder.failsafe());
    builder.set_failsafe(true);
    assert!(builder.failsafe());
    builder.set_failsafe(false);
    assert!(!builder.failsafe());
}

#[test]
fn class_map_keeps_known_classes_numbered_from_500() {
    let mut doc = CadDocument::new();
    let class = |name: &str, number: i16| DxfClass { dxf_name: name.to_string(), class_number: number, is_an_entity: false };
    doc.classes.push(class("MLEADERSTYLE", 500));
    doc.classes.push(class("UNKNOWNTHING", 501));
    doc.classes.push(class("LAYOUT", 80));
    doc.classes.push(class("DICTIONARYVAR", 502));
    doc.classes.push(class("SCALE", 502));
    let codes = |name: &str| match name {
        "MLEADERSTYLE" => Some(73i16),
        "LAYOUT" => Some(82i16),
        "DICTIONARYVAR" => Some(90i16),
        "SCALE" => Some(91i16),
        _ => None,
    };
    let map = DwgDocumentBuilder::<()>::build_class_type_map(&doc, codes);
    assert_eq!(map.len(), 2);
    assert_eq!(map.get(&500), Some(&73));
    assert_eq!(map.get(&502), Some(&91));
    assert_eq!(map.get(&501), None);
    assert_eq!(map.get(&80), None);
    assert_eq!(resolve_type_code(500, &map), 73);
    assert_eq!(resolve_type_code(501, &map), 501);
}

#[test]
fn dim_styles_sharing_a_block_handle_move() {
    let mut doc = CadDocument::new();
    let block = |name: &str, h: u64| BlockRecord {
        handle: Handle(h),
        name: name.to_string(),
        block_entity_handle: Handle(0),
        block_end_handle: Handle(0),
        entity_handles: vec![],
    };
    let dim = |name: &str, h: u64| DimStyle {
        handle: Handle(h),
        name: name.to_string(),
        dimtxsty_handle: Handle(0x11),
    };
    doc.block_records.push(block("*Model_Space", 0x1f));
    doc.block_records.push(block("*Paper_Space", 0x12));
    doc.dim_styles.push(dim("Standard", 0x12));
    doc.dim_styles.push(dim("Metric", 0x19));
    doc.header.current_dimstyle_handle = Handle(0x12);
    doc.header.dim_text_style_handle = Handle(0x11);
    repair_dim_style_handle_collisions(&mut doc);
    assert_eq!(doc.dim_styles[0].handle, Handle(0x20));
    assert_eq!(doc.dim_styles[1].handle, Handle(0x19));
    assert_eq!(doc.block_records[1].handle, Handle(0x12));
    assert_eq!(doc.header.current_dimstyle_handle, Handle(0x20));
    assert_eq!(doc.header.dim_text_style_handle, Handle(0x11));
    assert_eq!(doc.header.handle_seed, 0x21);

    let before = doc.clone();
    repair_dim_style_handle_collisions(&mut doc);
    assert_eq!(doc, before);
}

#[test]
fn duplicate_block_names_take_counters() {
    let mut blocks: Vec<(u64, String)> = vec![
        (0x1f, "*Model_Space".to_string()),
        (0x20, "*Paper_Space".to_string()),
        (0x21, "*Paper_Space".to_string()),
        (0x22, "*U".to_string()),
        (0x23, "*U".to_string()),
        (0x24, "Door".to_string()),
        (0x25, "*Paper_Space".to_string()),
    ];
    let mut maps = HandleMaps::new();
    maps.blocks.insert(0x20, "*Paper_Space".to_string());
    dedup_block_names(&mut blocks, Handle(0x1f), Handle(0x21), &mut maps);
    let names: Vec<&str> = blocks.iter().map(|b| b.1.as_str()).collect();
    assert_eq!(
        names,
        vec!["*Model_Space", "*Paper_Space0", "*Paper_Space", "*U", "*U0", "Door", "*Paper_Space1"]
    );
    assert_eq!(maps.block_name(0x20), "*Paper_Space0");
    assert_eq!(maps.block_name(0x25), "*Paper_Space1");
    assert_eq!(maps.block_name(0x23), "*U0");
    assert_eq!(maps.block_name(0x22), "*U34");
    assert_eq!(maps.blocks.len(), 3);

    let mut without_active: Vec<(u64, String)> =
        vec![(0x30, "*Paper_Space".to_string()), (0x31, "*Paper_Space".to_string())];
    let mut maps2 = HandleMaps::new();
    dedup_block_names(&mut without_active, Handle(0), Handle(0x99), &mut maps2);
    assert_eq!(without_active[0].1, "*Paper_Space");
    assert_eq!(without_active[1].1, "*Paper_Space0");
}

fn dictionary(handle: u64, owner: u64, entries: usize) -> ObjectType {
    let mut d = Dictionary::new();
    d.handle = Handle(handle);
    d.owner = Handle(owner);
    for i in 0..entries {
        d.entries.push((format!("E{}", i), Handle(0x100 + i as u64)));
    }
    ObjectType::Dictionary(d)
}

#[test]
fn root_dictionary_is_the_largest_ownerless_one() {
    let mut doc = CadDocument::new();
    doc.insert_object(Handle(0x0c), dictionary(0x0c, 0, 2));
    doc.insert_object(Handle(0x0d), dictionary(0x0d, 0x0c, 9));
    doc.insert_object(Handle(0x0e), dictionary(0x0e, 0, 3));
    doc.insert_object(Handle(0x1a), dictionary(0x1a, 0, 3));
    doc.insert_object(Handle(0x0f), ObjectType::Other("LAYOUT".to_string()));
    resolve_root_dictionary(&mut doc);
    assert_eq!(doc.header.named_objects_dict_handle, Handle(0x1a));

    doc.header.named_objects_dict_handle = Handle(0x0c);
    resolve_root_dictionary(&mut doc);
    assert_eq!(doc.header.named_objects_dict_handle, Handle(0x0c));

    let mut bare = CadDocument::new();
    bare.header.named_objects_dict_handle = Handle(0x77);
    resolve_root_dictionary(&mut bare);
    assert_eq!(bare.header.named_objects_dict_handle, Handle(0x77));
}

#[test]
fn handle_seed_passes_the_file_handles() {
    let mut doc = CadDocument::new();
    raise_handle_seed(&mut doc, &vec![0x10, 0x5a, 0x33]);
    assert_eq!(doc.header.handle_seed, 0x5b);
    raise_handle_seed(&mut doc, &vec![0x11]);
    assert_eq!(doc.header.handle_seed, 0x5b);
    raise_handle_seed(&mut doc, &vec![]);
    assert_eq!(doc.header.handle_seed, 0x5b);
}

fn record(name: &str, handle: u64, listed: Vec<u64>) -> BlockRecord {
    BlockRecord {
        handle: Handle(handle),
        name: name.to_string(),
        block_entity_handle: Handle(0),
        block_end_handle: Handle(0),
        entity_handles: listed.into_iter().map(Handle).collect(),
    }
}

fn entity(handle: u64, owner: u64, kind: EntityKind) -> EntityRecord {
    EntityRecord { handle: Handle(handle), owner_handle: Handle(owner), kind }
}

#[test]
fn entity_lists_follow_the_binary_owners() {
    let mut doc = CadDocument::new();
    doc.header.model_space_block_handle = Handle(0x1f);
    doc.block_records.push(record("*Model_Space", 0x1f, vec![0x99]));
    doc.block_records.push(record("*Paper_Space", 0x1e, vec![]));
    doc.block_records.push(record("*Paper_Space0", 0x50, vec![]));
    doc.entities.push(entity(0x60, 0x1e, EntityKind::Other));
    doc.entities.push(entity(0x61, 0x1e, EntityKind::Other));
    doc.entities.push(entity(0x62, 0x1f, EntityKind::Other));
    doc.entities.push(entity(0x63, 0x1e, EntityKind::Attribute));
    doc.entities.push(entity(0x64, 0, EntityKind::Other));
    doc.entities.push(entity(0x65, 0x77, EntityKind::Other));
    doc.entities.push(entity(0x66, 0x1f, EntityKind::BlockBegin));

    let mut owners: HashMap<u64, u64> = HashMap::new();
    owners.insert(0x61, 0x50);
    owners.insert(0x63, 0x50);
    correct_entity_ownership(&mut doc, &owners);

    assert_eq!(doc.entities[1].owner_handle, Handle(0x50));
    assert_eq!(doc.entities[3].owner_handle, Handle(0x50));
    assert_eq!(doc.entities[0].owner_handle, Handle(0x1e));
    assert_eq!(doc.block_records[0].entity_handles, vec![Handle(0x62), Handle(0x64), Handle(0x65)]);
    assert_eq!(doc.block_records[1].entity_handles, vec![Handle(0x60)]);
    assert_eq!(doc.block_records[2].entity_handles, vec![Handle(0x61)]);

    let before = doc.clone();
    correct_entity_ownership(&mut doc, &HashMap::new());
    assert_eq!(doc, before);
}

#[test]
fn empty_block_lists_fill_from_owners() {
    let mut doc = CadDocument::new();
    doc.block_records.push(record("*Model_Space", 0x1f, vec![]));
    doc.block_records.push(record("Door", 0x40, vec![0x90]));
    doc.block_records.push(record("Empty", 0x41, vec![]));
    doc.entities.push(entity(0x70, 0x1f, EntityKind::Other));
    doc.entities.push(entity(0x71, 0x40, EntityKind::Other));
    doc.entities.push(entity(0x72, 0x1f, EntityKind::BlockEnd));
    doc.entities.push(entity(0x73, 0x1f, EntityKind::Other));
    fill_empty_block_lists(&mut doc);
    assert_eq!(doc.block_records[0].entity_handles, vec![Handle(0x70), Handle(0x73)]);
    assert_eq!(doc.block_records[1].entity_handles, vec![Handle(0x90)]);
    assert!(doc.block_records[2].entity_handles.is_empty());
}

#[test]
fn multiline_style_flag_bits() {
    let f = mline_style_flags(0x1 | 0x20 | 0x400);
    assert!(f.display_joints && !f.fill_on);
    assert!(f.start_round_cap && !f.start_square_cap && !f.start_inner_arcs_cap);
    assert!(f.end_inner_arcs_cap && !f.end_round_cap && !f.end_square_cap);
    let g = mline_style_flags(0x2 | 0x10 | 0x40 | 0x100 | 0x200);
    assert!(g.fill_on && !g.display_joints && g.start_square_cap && g.start_inner_arcs_cap);
    assert!(g.end_square_cap && g.end_round_cap);
}

#[test]
fn entity_classes_and_unknown_names() {
    let classes = vec![
        DxfClass { dxf_name: "WIPEOUT".to_string(), class_number: 500, is_an_entity: true },
        DxfClass { dxf_name: "DICTIONARYVAR".to_string(), class_number: 501, is_an_entity: false },
        DxfClass { dxf_name: "ODD".to_string(), class_number: 499, is_an_entity: true },
        DxfClass { dxf_name: "MESH".to_string(), class_number: 510, is_an_entity: true },
    ];
    assert_eq!(entity_class_numbers(&classes), vec![500, 510]);
    assert_eq!(unknown_entity_type_name(612), "DWG_TYPE_612");
    assert_eq!(unknown_entity_type_name(-3), "DWG_TYPE_-3");
    assert_eq!(unknown_entity_type_name(0), "DWG_TYPE_0");
}
