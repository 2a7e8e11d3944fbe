use acadrust::defaults::{
    rehandle_colliding_default_entries, rewire_stale_dimstyle_text_styles,
    snapshot_default_entry_handles, TableKind,
};
use acadrust::document::{CadDocument, DimStyle, EntityKind, EntityRecord, NamedEntry};
use acadrust::types::Handle;

fn entry(name: &str, handle: u64) -> NamedEntry {
    NamedEntry { handle: Handle(handle), name: name.to_string() }
}

fn new_document() -> CadDocument {
    let mut doc = CadDocument::new();
    doc.text_styles.push(entry("Standard", 0x11));
    doc.dim_styles.push(DimStyle {
        handle: Handle(0x12),
        name: "Standard".to_string(),
        dimtxsty_handle: Handle(0x11),
    });
    doc.app_ids.push(entry("ACAD", 0x13));
    doc
}

#[test]
fn snapshot_records_handles_by_table_and_name() {
    let doc = new_document();
    let defaults = snapshot_default_entry_handles(&doc);
    assert!(!defaults.is_empty());
    assert_eq!(defaults.get(TableKind::LineTypes, "ByLayer"), Some(0x15));
    assert_eq!(defaults.get(TableKind::TextStyles, "Standard"), Some(0x11));
    assert_eq!(defaults.get(TableKind::DimStyles, "Standard"), Some(0x12));
    assert_eq!(defaults.get(TableKind::Layers, "0"), Some(0x10));
    assert_eq!(defaults.get(TableKind::Layers, "Standard"), None);
    assert_eq!(defaults.get(TableKind::LineTypes, "bylayer"), None);

    let mut empty = CadDocument::new();
    empty.layers.clear();
    empty.line_types.clear();
    assert!(snapshot_default_entry_handles(&empty).is_empty());
}

#[test]
fn colliding_defaults_move_to_fresh_handles() {
    let mut doc = new_document();
    let defaults = snapshot_default_entry_handles(&doc);
    // The file brings its own Standard text style, an application id at the
    // handle of ACAD, and an entity at the handle of ByLayer.
    doc.text_styles[0].handle = Handle(0x41);
    doc.app_ids.push(entry("MyApp", 0x13));
    doc.entities.push(EntityRecord { handle: Handle(0x15), owner_handle: Handle(0x1f), kind: EntityKind::Other });

    rehandle_colliding_default_entries(&mut doc, &defaults);

    assert_eq!(doc.line_types[1].name, "ByLayer");
    assert_eq!(doc.line_types[1].handle, Handle(0x20));
    assert_eq!(doc.line_types[0].handle, Handle(0x14));
    assert_eq!(doc.app_ids[0].handle, Handle(0x21));
    assert_eq!(doc.app_ids[1].handle, Handle(0x13));
    assert_eq!(doc.header.bylayer_linetype_handle, Handle(0x20));
    assert_eq!(doc.header.current_linetype_handle, Handle(0x20));
    assert_eq!(doc.header.byblock_linetype_handle, Handle(0x14));
    assert_eq!(doc.header.handle_seed, 0x22);
    assert_eq!(doc.entities[0].handle, Handle(0x15));
    // The default dimension style pointed at the replaced text style.
    assert_eq!(doc.dim_styles[0].dimtxsty_handle, Handle(0x41));
}

#[test]
fn no_defaults_change_nothing() {
    let mut doc = new_document();
    let mut bare = CadDocument::new();
    bare.layers.clear();
    bare.line_types.clear();
    let defaults = snapshot_default_entry_handles(&bare);
    doc.text_styles[0].handle = Handle(0x41);
    doc.entities.push(EntityRecord { handle: Handle(0x15), owner_handle: Handle(0x1f), kind: EntityKind::Other });
    let before = doc.clone();
    rehandle_colliding_default_entries(&mut doc, &defaults);
    assert_eq!(doc, before);
}

#[test]
fn stale_text_styles_follow_the_same_name() {
    let mut doc = CadDocument::new();
    doc.text_styles.push(entry("Annotative", 0x30));
    doc.text_styles.push(entry("STANDARD", 0x31));
    let style = |name: &str, handle: u64, text: u64| DimStyle {
        handle: Handle(handle),
        name: name.to_string(),
        dimtxsty_handle: Handle(text),
    };
    doc.dim_styles.push(style("Standard", 0x40, 0x99));
    doc.dim_styles.push(style("Annotative", 0x41, 0x30));
    doc.dim_styles.push(style("Metric", 0x42, 0x98));
    doc.dim_styles.push(style("Unset", 0x43, 0));
    rewire_stale_dimstyle_text_styles(&mut doc);
    assert_eq!(doc.dim_styles[0].dimtxsty_handle, Handle(0x31));
    assert_eq!(doc.dim_styles[1].dimtxsty_handle, Handle(0x30));
    assert_eq!(doc.dim_styles[2].dimtxsty_handle, Handle(0x98));
    assert_eq!(doc.dim_styles[3].dimtxsty_handle, Handle(0));
}
