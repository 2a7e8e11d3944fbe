use acadrust::document::{CadDocument, Layer};
use acadrust::objects::{Dictionary, ObjectType};
use acadrust::layer_state::{LayerState, LayerStateLayer, LayerStateMask};
use acadrust::types::{Color, Handle, LineWeight, Transparency};

fn drawing() -> CadDocument {
    let mut doc = CadDocument::new();
    let mut walls: Layer = doc.layers[0].clone();
    walls.handle = Handle(0x30);
    walls.name = "Walls".into();
    walls.color = Color::from_index(1);
    walls.plot_style = "Heavy".into();
    doc.layers.push(walls);
    doc
}

#[test]
fn mask_bits_and_containment() {
    let on = LayerStateMask::from_bits(LayerStateMask::ON);
    let frozen = LayerStateMask::from_bits(LayerStateMask::FROZEN);
    let both = on.bitor(frozen);
    assert_eq!(both.bits(), 0x3);
    assert!(both.contains(on));
    assert!(both.contains(frozen));
    assert!(!on.contains(both));
    let mut m = LayerStateMask::from_bits(LayerStateMask::NONE);
    m.bitor_assign(LayerStateMask::from_bits(LayerStateMask::COLOR));
    assert_eq!(m.bits(), 0x20);
    assert!(LayerStateMask::from_bits(LayerStateMask::ALL)
        .contains(LayerStateMask::from_bits(LayerStateMask::SUPPORTED)));
}

#[test]
fn capture_then_restore_brings_back_layer_properties() {
    let mut doc = drawing();
    doc.capture_layer_state("Before", "all on");
    assert_eq!(doc.layer_states().len(), 1);
    doc.layers[1].flags.off = true;
    doc.layers[1].flags.frozen = true;
    doc.layers[1].color = Color::from_index(5);
    doc.layers[1].line_weight = LineWeight(50);
    let restored = doc.restore_layer_state("before");
    assert_eq!(restored, Some(2));
    assert!(!doc.layers[1].flags.off);
    assert!(!doc.layers[1].flags.frozen);
    assert_eq!(doc.layers[1].color, Color::from_index(1));
    assert_eq!(doc.layers[1].line_weight, LineWeight(-3));
    assert_eq!(doc.layers[1].plot_style, "Heavy");
}

#[test]
fn restore_of_unknown_state_changes_nothing() {
    let mut doc = drawing();
    let before = doc.clone();
    assert_eq!(doc.restore_layer_state("missing"), None);
    assert_eq!(doc, before);
}

#[test]
fn stored_state_reads_back() {
    let mut doc = drawing();
    let state = LayerState {
        name: "Print".into(),
        description: "for plotting".into(),
        mask: LayerStateMask::from_bits(LayerStateMask::ON | LayerStateMask::COLOR),
        hidden: false,
        current_layer: "Walls".into(),
        layers: vec![LayerStateLayer {
            layer_handle: Handle(0x30),
            layer_name: "Walls".into(),
            off: true,
            frozen: false,
            locked: true,
            plottable: true,
            new_viewport_frozen: false,
            color: Color::from_index(3),
            line_type: "Continuous".into(),
            line_weight: LineWeight(25),
            plot_style: "Heavy".into(),
            transparency: Some(Transparency(0x0200_0080)),
        }],
    };
    doc.store_layer_state(state);
    let read = doc.layer_state("PRINT").expect("stored state");
    assert_eq!(read.name, "Print");
    assert_eq!(read.description, "for plotting");
    assert_eq!(read.mask.bits(), 0x21);
    assert_eq!(read.current_layer, "Walls");
    assert_eq!(read.layers.len(), 1);
    let l = &read.layers[0];
    assert_eq!(l.layer_handle, Handle(0x30));
    assert_eq!(l.layer_name, "Walls");
    assert!(l.off && l.locked && l.plottable && !l.frozen);
    assert_eq!(l.color, Color::from_index(3));
    assert_eq!(l.line_weight, LineWeight(25));
    assert_eq!(l.transparency, Some(Transparency(0x0200_0080)));

    // Restoring applies only what the mask selects.
    assert_eq!(doc.restore_layer_state("Print"), Some(1));
    assert!(doc.layers[1].flags.off);
    assert!(!doc.layers[1].flags.locked);
    assert_eq!(doc.layers[1].color, Color::from_index(3));
    assert_eq!(doc.header.current_layer_name, "Walls");
    assert_eq!(doc.header.current_layer_handle, Handle(0x30));
}

#[test]
fn rename_and_delete_states() {
    let mut doc = drawing();
    doc.capture_layer_state("One", "");
    doc.capture_layer_state("Two", "");
    assert_eq!(doc.layer_states().len(), 2);
    assert!(doc.rename_layer_state("One", "Uno"));
    assert!(doc.layer_state("One").is_none());
    assert_eq!(doc.layer_state("uno").unwrap().name, "Uno");
    assert!(!doc.rename_layer_state("Missing", "Other"));
    assert!(doc.delete_layer_state("TWO"));
    assert!(!doc.delete_layer_state("Two"));
    let names: Vec<String> = doc.layer_states().into_iter().map(|s| s.name).collect();
    assert_eq!(names, vec!["Uno".to_string()]);
}

#[test]
fn capture_records_plot_style_fallback_and_current_layer() {
    let mut doc = drawing();
    doc.capture_layer_state("Snapshot", "desc");
    let state = doc.layer_state("Snapshot").unwrap();
    assert_eq!(state.current_layer, "0");
    assert_eq!(state.mask.bits(), LayerStateMask::SUPPORTED);
    assert_eq!(state.layers.len(), 2);
    // A layer without a plot style records the color-dependent default.
    assert_eq!(state.layers[0].plot_style, "Color_7");
    assert_eq!(state.layers[1].plot_style, "Heavy");
}

#[test]
fn writes_keep_the_other_states_in_place() {
    let mut doc = drawing();
    let h_one = doc.capture_layer_state("One", "first");
    doc.capture_layer_state("Two", "second");
    doc.capture_layer_state("Three", "third");
    let two = doc.layer_state("Two").unwrap();

    // Updating an existing state returns its record and keeps its position.
    let h_again = doc.capture_layer_state("ONE", "updated");
    assert_eq!(h_again, h_one);
    let names: Vec<String> = doc.layer_states().into_iter().map(|s| s.name).collect();
    assert_eq!(names, vec!["ONE".to_string(), "Two".to_string(), "Three".to_string()]);
    assert_eq!(doc.layer_state("one").unwrap().description, "updated");
    assert_eq!(doc.layer_state("Two").unwrap(), two);

    // Renaming keeps the count and the others.
    assert!(doc.rename_layer_state("Three", "Drei"));
    assert_eq!(doc.layer_states().len(), 3);
    assert_eq!(doc.layer_state("Two").unwrap(), two);

    // Deleting removes the one record and keeps the order of the rest.
    assert!(doc.delete_layer_state("ONE"));
    assert!(doc.get_object(h_one).is_none());
    let names: Vec<String> = doc.layer_states().into_iter().map(|s| s.name).collect();
    assert_eq!(names, vec!["Two".to_string(), "Drei".to_string()]);
    assert_eq!(doc.layer_state("Two").unwrap(), two);
}

#[test]
fn states_kept_in_the_extension_dictionary_itself_read_back() {
    let mut doc = drawing();
    let table = doc.layer_table_handle;
    let ext = Handle(doc.header.handle_seed);
    doc.header.handle_seed += 1;
    let mut dictionary = Dictionary::new();
    dictionary.handle = ext;
    dictionary.owner = table;
    dictionary.entries.push(("ACAD_LAYERSTATES".to_string(), ext));
    doc.objects.push((ext, ObjectType::Dictionary(dictionary)));
    doc.xdic_by_handle.push((table, ext));
    let h = doc.capture_layer_state("Plot", "kept beside the link");
    assert_ne!(h, ext);
    let state = doc.layer_state("Plot").unwrap();
    assert_eq!(state.description, "kept beside the link");
    assert_eq!(doc.layer_states().len(), 1);
    assert!(doc.rename_layer_state("Plot", "Print"));
    assert!(doc.layer_state("Plot").is_none());
    assert_eq!(doc.layer_state("Print").unwrap().description, "kept beside the link");
    assert!(doc.delete_layer_state("Print"));
    assert!(doc.layer_states().is_empty());
    assert!(doc.get_object(ext).is_some());
}
