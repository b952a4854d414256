use nodalix_cad::document::{Document, Entity, EntityKind, Layer};

fn line(id: u64, layer: &str) -> Entity {
    Entity { id, layer: layer.to_string(), kind: EntityKind::Line, text: String::new() }
}

fn sample_line(doc: &mut Document, layer: &str) -> u64 {
    let id = doc.next_id();
    doc.add_entity(line(id, layer));
    id
}

fn names(doc: &Document) -> Vec<&str> {
    doc.layers.iter().map(|l| l.name.as_str()).collect()
}

#[test]
fn create_layer_adds_to_document() {
    let mut doc = Document::new_empty();
    assert!(doc.create_layer("Walls"));
    assert!(doc.layers.iter().any(|layer| layer.name == "Walls"));
}

#[test]
fn rename_layer_updates_entities() {
    let mut doc = Document::new_empty();
    doc.create_layer("Old");
    let id = sample_line(&mut doc, "Old");
    assert!(doc.rename_layer("Old", "New"));
    assert_eq!(
        doc.entities.iter().find(|e| e.id == id).unwrap().layer,
        "New"
    );
}

#[test]
fn set_active_layer_name() {
    let mut doc = Document::new_empty();
    doc.create_layer("Walls");
    assert!(doc.set_active_layer_name("Walls"));
    assert_eq!(doc.active_layer_name, "Walls");
}

#[test]
fn cannot_delete_layer_with_entities() {
    let mut doc = Document::new_empty();
    doc.create_layer("Used");
    sample_line(&mut doc, "Used");
    assert!(!doc.can_delete_layer("Used"));
    assert!(!doc.delete_layer_if_empty("Used"));
}

#[test]
fn delete_empty_layer() {
    let mut doc = Document::new_empty();
    doc.create_layer("Empty");
    assert!(doc.can_delete_layer("Empty"));
    assert!(doc.delete_layer_if_empty("Empty"));
    assert!(!doc.layers.iter().any(|layer| layer.name == "Empty"));
}

#[test]
fn cannot_delete_only_layer() {
    let mut doc = Document::new_empty();
    doc.layers.retain(|layer| layer.name == "Default");
    assert!(!doc.can_delete_layer("Default"));
}

#[test]
fn ensure_active_layer_exists_recovers_invalid_name() {
    let mut doc = Document::new_empty();
    doc.active_layer_name = "Missing".to_string();
    doc.ensure_active_layer_exists();
    assert!(doc
        .layers
        .iter()
        .any(|layer| layer.name == doc.active_layer_name));
}

#[test]
fn new_entity_keeps_explicit_layer() {
    let mut doc = Document::new_empty();
    doc.set_active_layer_name("Walls");
    let id = sample_line(&mut doc, "Walls");
    assert_eq!(
        doc.entities.iter().find(|e| e.id == id).unwrap().layer,
        "Walls"
    );
}

#[test]
fn locked_layer_blocks_remove() {
    let mut doc = Document::new_empty();
    doc.create_layer("Locked");
    doc.set_layer_locked("Locked", true);
    let id = sample_line(&mut doc, "Locked");
    assert!(!doc.remove_entity(id));
    assert_eq!(doc.entities.len(), 1);
}

#[test]
fn locked_layer_blocks_set_entity_layer() {
    let mut doc = Document::new_empty();
    doc.create_layer("Locked");
    doc.create_layer("Other");
    doc.set_layer_locked("Locked", true);
    let id = sample_line(&mut doc, "Locked");
    assert!(!doc.set_entity_layer(id, "Other"));
}

#[test]
fn new_document_layers() {
    let doc = Document::new_empty();
    assert_eq!(names(&doc), vec!["Default", "Construction", "Dimensions", "Mesh Reference"]);
    assert_eq!(doc.active_layer().map(|l| l.name.as_str()), Some("Default"));
    assert!(!doc.modified);
    let layer: &Layer = &doc.layers[0];
    assert_eq!(layer.color, "#a3a7b0");
    assert_eq!(layer.line_type, "Continuous");
    assert!(layer.visible && !layer.locked && layer.printable);
}

#[test]
fn create_layer_trims_and_refuses_duplicates() {
    let mut doc = Document::new_empty();
    assert!(doc.create_layer("  Walls  "));
    assert_eq!(doc.layers.last().unwrap().name, "Walls");
    assert!(doc.modified);
    assert!(!doc.create_layer("Walls"));
    assert!(!doc.create_layer("   "));
    assert_eq!(doc.layers.len(), 5);
}

#[test]
fn rename_moves_active_layer_and_round_trips() {
    let mut doc = Document::new_empty();
    doc.add_entity(line(7, "Default"));
    doc.add_entity(line(8, "Construction"));
    assert!(!doc.rename_layer("Default", "Construction"));
    assert!(!doc.rename_layer("Nope", "Fresh"));
    assert!(!doc.rename_layer("Default", "  "));
    assert!(doc.rename_layer("Default", " Base "));
    assert_eq!(doc.active_layer_name, "Base");
    assert_eq!(doc.layers[0].name, "Base");
    assert_eq!(doc.entities[0].layer, "Base");
    assert_eq!(doc.entities[1].layer, "Construction");
    assert!(doc.rename_layer("Base", "Default"));
    assert_eq!(names(&doc), vec!["Default", "Construction", "Dimensions", "Mesh Reference"]);
    assert_eq!(doc.active_layer_name, "Default");
    assert_eq!(doc.entities[0].layer, "Default");
}

#[test]
fn create_then_delete_restores_layers() {
    let mut doc = Document::new_empty();
    assert!(doc.create_layer("Temp"));
    assert!(doc.delete_layer_if_empty("Temp"));
    assert_eq!(names(&doc), vec!["Default", "Construction", "Dimensions", "Mesh Reference"]);
    assert_eq!(doc.active_layer_name, "Default");
}

#[test]
fn deleting_the_active_layer_picks_the_first() {
    let mut doc = Document::new_empty();
    assert!(doc.set_active_layer_name("Dimensions"));
    assert!(doc.delete_layer_if_empty("Dimensions"));
    assert_eq!(doc.active_layer_name, "Default");
    let mut lone = Document::new_empty();
    lone.layers.clear();
    lone.ensure_active_layer_exists();
    assert_eq!(names(&lone), vec!["Default"]);
    assert_eq!(lone.active_layer_name, "Default");
}

#[test]
fn layer_flags_change_once() {
    let mut doc = Document::new_empty();
    assert!(doc.set_layer_visible("Default", false));
    assert!(!doc.set_layer_visible("Default", false));
    assert!(!doc.layer_visible("Default"));
    assert!(doc.layer_visible("Unknown"));
    assert!(!doc.set_layer_visible("Unknown", false));
    assert!(doc.set_layer_locked("Construction", true));
    assert!(doc.layer_locked("Construction"));
    assert!(!doc.layer_locked("Unknown"));
    let id = sample_line(&mut doc, "Default");
    assert!(!doc.entity_layer_visible(id));
    assert!(doc.entity_layer_visible(999));
    assert!(!doc.entity_layer_locked(id));
}

#[test]
fn layer_color_and_line_type_are_normalized() {
    let mut doc = Document::new_empty();
    assert!(doc.set_layer_color("Default", "#FF00AA"));
    assert_eq!(doc.layers[0].color, "#ff00aa");
    assert!(!doc.set_layer_color("Default", "rgb(255,0,170)"));
    assert!(doc.set_layer_color("Default", "default"));
    assert_eq!(doc.layers[0].color, "#a3a7b0");
    assert!(doc.set_layer_line_type("Default", "dash"));
    assert_eq!(doc.layers[0].line_type, "Dashed");
    assert!(!doc.set_layer_line_type("Default", "DASHED"));
    assert!(!doc.set_layer_line_type("Missing", "dot"));
}

#[test]
fn entity_layer_moves_and_counts() {
    let mut doc = Document::new_empty();
    let a = sample_line(&mut doc, "Default");
    let b = sample_line(&mut doc, "Default");
    assert_eq!(doc.entity_count_on_layer("Default"), 2);
    assert!(doc.set_entity_layer(a, "Walls"));
    assert!(doc.layers.iter().any(|l| l.name == "Walls"));
    assert_eq!(doc.entity_layer(a).map(|l| l.name.as_str()), Some("Walls"));
    assert_eq!(doc.entity_count_on_layer("Default"), 1);
    assert!(!doc.set_entity_layer(99, "Roof"));
    assert!(doc.layers.iter().any(|l| l.name == "Roof"));
    assert!(doc.remove_entity(b));
    assert!(!doc.remove_entity(b));
    assert_eq!(doc.entities.len(), 1);
}

#[test]
fn layer_field_text_for_selection() {
    let mut doc = Document::new_empty();
    let a = sample_line(&mut doc, "Walls");
    let b = sample_line(&mut doc, "Walls");
    let c = sample_line(&mut doc, "Doors");
    assert_eq!(doc.selection_layer_field_text(&[]), "Default");
    assert_eq!(doc.selection_layer_field_text(&[42]), "Default");
    assert_eq!(doc.selection_layer_field_text(&[a, b, 42]), "Walls");
    assert_eq!(doc.selection_layer_field_text(&[a, c]), "(mixed)");
}

#[test]
fn locked_layer_blocks_color_weight_type_and_text() {
    let mut doc = Document::new_empty();
    doc.create_layer("Locked");
    doc.set_layer_locked("Locked", true);
    let id = doc.next_id();
    doc.add_entity(Entity {
        id,
        layer: "Locked".to_string(),
        kind: EntityKind::Text,
        text: "A".to_string(),
    });
    assert!(!doc.set_entity_color(id, "#ff0000"));
    assert!(!doc.set_entity_line_type(id, "Dashed"));
    assert!(!doc.set_text_entity_text(id, "B"));
}

#[test]
fn bylayer_color_fallback() {
    let mut doc = Document::new_empty();
    doc.set_layer_color("Default", "#112233");
    let id = sample_line(&mut doc, "Default");
    assert_eq!(doc.entity_color(id), Some("#112233"));
}

#[test]
fn bylayer_line_type_fallback() {
    let mut doc = Document::new_empty();
    doc.set_layer_line_type("Default", "Dashed");
    let id = sample_line(&mut doc, "Default");
    assert_eq!(doc.entity_line_type(id), "Dashed");
}

#[test]
fn entity_override_wins_over_layer() {
    let mut doc = Document::new_empty();
    doc.set_layer_color("Default", "#112233");
    let id = sample_line(&mut doc, "Default");
    doc.set_entity_color(id, "#aabbcc");
    assert_eq!(doc.entity_color(id), Some("#aabbcc"));
}
