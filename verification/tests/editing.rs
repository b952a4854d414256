use nodalix_cad::document::{Document, Entity, EntityKind};
use nodalix_cad::editing::{
    active_layer_allows_block_edit, active_layer_allows_hatch, block_selection_ids,
    boundary_candidate, copyable_selection_ids, editable_selection_ids,
    entity_supports_trim_extend, line_candidate, normalize_text_for_creation,
    should_apply_inline_text_edit, target_candidate,
};

fn line(id: u64, layer: &str) -> Entity {
    Entity { id, layer: layer.to_string(), kind: EntityKind::Line, text: String::new() }
}

fn entity(id: u64, layer: &str, kind: EntityKind, text: &str) -> Entity {
    Entity { id, layer: layer.to_string(), kind, text: text.to_string() }
}

fn document() -> Document {
    let mut document = Document::new_empty();
    document.add_entity(line(1, "Default"));
    document.add_entity(line(2, "Construction"));
    document.add_entity(line(3, "Dimensions"));
    document.add_entity_on_layout(line(4, "Default"), Some("Layout1"));
    assert!(document.set_layer_locked("Construction", true));
    assert!(document.set_layer_visible("Dimensions", false));
    document
}

#[test]
fn locked_entities_are_copied_but_not_edited() {
    let document = document();
    let selected = [4, 3, 2, 1, 9];
    assert_eq!(editable_selection_ids(&document, &selected), vec![1]);
    assert_eq!(copyable_selection_ids(&document, &selected), vec![2, 1]);
}

#[test]
fn paper_layout_selection_follows_the_active_layout() {
    let mut document = document();
    document.set_active_layout("Layout1");
    assert_eq!(editable_selection_ids(&document, &[1, 4]), vec![4]);
    assert_eq!(copyable_selection_ids(&document, &[4, 4]), vec![4, 4]);
}

#[test]
fn locked_active_layer_refuses_blocks_and_hatches() {
    let mut document = document();
    assert!(active_layer_allows_block_edit(&document));
    assert!(active_layer_allows_hatch(&document));
    assert!(document.set_active_layer_name("Construction"));
    assert!(!active_layer_allows_block_edit(&document));
    assert!(!active_layer_allows_hatch(&document));
}

#[test]
fn locked_layer_entity_not_in_editable_selection() {
    let mut doc = Document::new_empty();
    doc.create_layer("Locked");
    doc.add_entity(line(1, "Locked"));
    doc.set_layer_locked("Locked", true);
    let ids = editable_selection_ids(&doc, &[1]);
    assert!(ids.is_empty());
}

#[test]
fn hidden_entity_not_editable() {
    let mut doc = Document::new_empty();
    doc.create_layer("Hidden");
    doc.set_layer_visible("Hidden", false);
    doc.add_entity(line(2, "Hidden"));
    let ids = editable_selection_ids(&doc, &[2]);
    assert!(ids.is_empty());
}

#[test]
fn active_layer_locked_blocks_hatch() {
    let mut doc = Document::new_empty();
    doc.set_layer_locked("Default", true);
    assert!(!active_layer_allows_hatch(&doc));
}

#[test]
fn normalize_text_for_creation_rejects_empty() {
    assert!(normalize_text_for_creation("").is_none());
    assert!(normalize_text_for_creation("   ").is_none());
}

#[test]
fn normalize_text_for_creation_accepts_content() {
    assert_eq!(
        normalize_text_for_creation("  Hello LixCAD  "),
        Some("Hello LixCAD".to_string())
    );
}

#[test]
fn inline_edit_same_text_skips_change() {
    assert!(!should_apply_inline_text_edit("Hello", " Hello "));
}

#[test]
fn inline_edit_new_text_applies_change() {
    assert!(should_apply_inline_text_edit("Hello", "Hello 2"));
}

#[test]
fn inline_edit_to_blank_text_is_refused() {
    assert!(!should_apply_inline_text_edit("Hello", "   "));
    assert!(should_apply_inline_text_edit("", "x"));
}

#[test]
fn canvas_trim_extend_locked_boundary_allowed() {
    let mut doc = Document::new_empty();
    doc.create_layer("Locked");
    doc.set_layer_locked("Locked", true);
    let id = doc.next_id();
    doc.add_entity(line(id, "Locked"));
    assert!(boundary_candidate(&doc, id));
    assert!(!target_candidate(&doc, id));
}

#[test]
fn hidden_not_candidate() {
    let mut doc = Document::new_empty();
    doc.create_layer("Hidden");
    doc.set_layer_visible("Hidden", false);
    let id = doc.next_id();
    doc.add_entity(line(id, "Hidden"));
    assert!(!boundary_candidate(&doc, id));
}

#[test]
fn locked_line_blocks_fillet() {
    let mut doc = Document::new_empty();
    doc.create_layer("Locked");
    doc.set_layer_locked("Locked", true);
    let id = doc.next_id();
    doc.add_entity(line(id, "Locked"));
    assert!(!line_candidate(&doc, id));
}

#[test]
fn locked_line_blocks_chamfer() {
    let mut doc = Document::new_empty();
    doc.create_layer("Locked");
    doc.set_layer_locked("Locked", true);
    let id = doc.next_id();
    doc.add_entity(line(id, "Locked"));
    assert!(!line_candidate(&doc, id));
}

#[test]
fn hidden_line_not_candidate() {
    let mut doc = Document::new_empty();
    doc.create_layer("Hidden");
    doc.set_layer_visible("Hidden", false);
    let id = doc.next_id();
    doc.add_entity(line(id, "Hidden"));
    assert!(!line_candidate(&doc, id));
}

#[test]
fn block_on_hidden_layer_not_visible() {
    let mut doc = Document::new_empty();
    let id = doc.next_id();
    doc.add_entity(entity(id, "Default", EntityKind::BlockReference, ""));
    doc.set_layer_visible("Default", false);
    assert!(!doc.entity_visible_in_active_layout(id));
}

#[test]
fn only_lines_and_polylines_take_trim_and_fillet() {
    let mut doc = Document::new_empty();
    doc.add_entity(entity(1, "Default", EntityKind::Circle, ""));
    doc.add_entity(entity(2, "Default", EntityKind::Polyline, ""));
    assert!(!entity_supports_trim_extend(&doc.entities[0]));
    assert!(entity_supports_trim_extend(&doc.entities[1]));
    assert!(!boundary_candidate(&doc, 1));
    assert!(boundary_candidate(&doc, 2));
    assert!(target_candidate(&doc, 2));
    assert!(line_candidate(&doc, 2));
    assert!(!line_candidate(&doc, 1));
    assert!(!boundary_candidate(&doc, 3));
}

#[test]
fn blocks_take_existing_entities_that_are_not_blocks() {
    let mut doc = Document::new_empty();
    doc.add_entity(line(1, "Default"));
    doc.add_entity(entity(2, "Default", EntityKind::BlockReference, ""));
    doc.add_entity(entity(3, "Construction", EntityKind::Text, "Note"));
    assert_eq!(block_selection_ids(&doc, &[3, 2, 9, 1, 3]), vec![3, 1, 3]);
}

#[test]
fn entity_summaries_name_kind_id_and_layer() {
    let mut doc = Document::new_empty();
    doc.add_entity(line(12, "Walls"));
    doc.add_entity(entity(13, "Default", EntityKind::BlockReference, ""));
    assert_eq!(doc.entity_summary(12), Some("Line #12 · layer Walls".to_string()));
    assert_eq!(doc.entity_summary(13), Some("Block #13 · layer Default".to_string()));
    assert_eq!(doc.entity_summary(14), None);
    assert_eq!(doc.entities[1].kind(), "Block");
    assert_eq!(doc.entities[0].layer(), "Walls");
    assert_eq!(doc.entities[0].id(), 12);
    assert_eq!(EntityKind::Guideline.label(), "Guideline");
}

#[test]
fn only_text_entities_take_new_text() {
    let mut doc = Document::new_empty();
    doc.add_entity(entity(1, "Default", EntityKind::Text, "A"));
    doc.add_entity(line(2, "Default"));
    doc.modified = false;
    assert!(!doc.set_text_entity_text(2, "B"));
    assert!(!doc.modified);
    assert!(doc.set_text_entity_text(1, "B"));
    assert_eq!(doc.entities[0].text, "B");
    assert!(doc.modified);
    assert!(!doc.set_text_entity_text(7, "C"));
}

#[test]
fn entity_layer_can_be_set_on_the_entity() {
    let mut e = line(5, "Default");
    e.set_layer("Walls");
    assert_eq!(e.layer(), "Walls");
    assert_eq!(e.kind(), "Line");
}

#[test]
fn ids_without_entities_are_neither_edited_nor_copied() {
    let document = Document::new_empty();
    assert!(copyable_selection_ids(&document, &[5]).is_empty());
    assert!(editable_selection_ids(&document, &[5]).is_empty());
}
