use acadrust::dwg_builder::HandleMaps;
use acadrust::entity_common::{map_entity_common, EntityCommonData};
use acadrust::types::{Color, Handle, LineWeight, Transparency};

fn data() -> EntityCommonData {
    EntityCommonData {
        handle: 0x2A,
        owner_handle: 0x1F,
        entity_mode: 0,
        color: Color::from_index(3),
        transparency: Transparency(0x0200_0040),
        invisible: true,
        linetype_scale: 2.0f64.to_bits(),
        layer_handle: 0x10,
        line_weight: 7,
        reactors: vec![0x50, 0x51],
        xdictionary_handle: Some(0x60),
        linetype_flags: 3,
        linetype_handle: 0x16,
        eed_raw: vec![1, 2, 3],
        graphic_data: None,
        material_flags: 1,
        material_handle: None,
        shadow_flags: 2,
        plotstyle_flags: 3,
        plotstyle_handle: Some(0x70),
        has_ds_data: false,
    }
}

fn maps() -> HandleMaps {
    let mut maps = HandleMaps::new();
    maps.layers.insert(0x10, "Walls".to_string());
    maps.linetypes.insert(0x16, "Dashed".to_string());
    maps
}

#[test]
fn common_data_resolves_names_and_handles() {
    let c = map_entity_common(&data(), &maps(), Handle(0x1F), Handle(0x1B));
    assert_eq!(c.handle, Handle(0x2A));
    assert_eq!(c.owner_handle, Handle(0x1F));
    assert_eq!(c.layer, "Walls");
    assert_eq!(c.linetype, "Dashed");
    assert_eq!(c.line_weight, LineWeight(25));
    assert_eq!(c.reactors, vec![Handle(0x50), Handle(0x51)]);
    assert_eq!(c.xdictionary_handle, Some(Handle(0x60)));
    assert_eq!(c.plotstyle_handle, Some(Handle(0x70)));
    assert_eq!(c.material_handle, None);
    assert_eq!(c.raw_dwg_eed, vec![1, 2, 3]);
    assert_eq!(c.entity_mode, Some(0));
    assert_eq!(f64::from_bits(c.linetype_scale), 2.0);
    assert!(c.invisible);
}

#[test]
fn entity_mode_gives_the_owner() {
    let mut d = data();
    d.entity_mode = 1;
    assert_eq!(map_entity_common(&d, &maps(), Handle(0x1F), Handle(0x1B)).owner_handle, Handle(0x1B));
    d.entity_mode = 2;
    assert_eq!(map_entity_common(&d, &maps(), Handle(0x1F), Handle(0x1B)).owner_handle, Handle(0x1F));
    d.entity_mode = 0;
    d.owner_handle = 0x99;
    assert_eq!(map_entity_common(&d, &maps(), Handle(0x1F), Handle(0x1B)).owner_handle, Handle(0x99));
}

#[test]
fn unknown_handles_fall_back() {
    let mut d = data();
    d.layer_handle = 0x999;
    d.linetype_handle = 0x998;
    let c = map_entity_common(&d, &maps(), Handle(0x1F), Handle(0x1B));
    assert_eq!(c.layer, "0");
    assert_eq!(c.linetype, "");
}

#[test]
fn linetype_flags_name_the_line_type() {
    let mut d = data();
    let names = ["", "ByBlock", "Continuous", "Dashed", ""];
    for (flags, name) in names.iter().enumerate() {
        d.linetype_flags = flags as u8;
        assert_eq!(map_entity_common(&d, &maps(), Handle(1), Handle(2)).linetype, *name);
    }
}

#[test]
fn dwg_line_weight_indices() {
    assert_eq!(LineWeight::from_dwg_index(0), LineWeight(0));
    assert_eq!(LineWeight::from_dwg_index(23), LineWeight(211));
    assert_eq!(LineWeight::from_dwg_index(28), LineWeight(-1));
    assert_eq!(LineWeight::from_dwg_index(29), LineWeight(-1));
    assert_eq!(LineWeight::from_dwg_index(30), LineWeight(-2));
    assert_eq!(LineWeight::from_dwg_index(31), LineWeight(-3));
    assert_eq!(LineWeight::from_dwg_index(24), LineWeight(-3));
}
