use nodalix_cad::document::{Document, Entity, EntityKind, LayoutKind, LayoutViewport};
use nodalix_cad::dxf::{entity_layout_name, group_pairs};
use nodalix_cad::strmap::StrMap;

fn line(id: u64, layer: &str) -> Entity {
    Entity { id, layer: layer.to_string(), kind: EntityKind::Line, text: String::new() }
}

fn layout_names(doc: &Document) -> Vec<&str> {
    doc.layouts.iter().map(|l| l.name.as_str()).collect()
}

#[test]
fn dxf_import_assigns_layout_from_group_410() {
    let dxf = "\
0\nLINE\n8\n0\n10\n0\n20\n0\n11\n10\n21\n0\n67\n1\n410\nLayout1\n\
0\nLINE\n8\n0\n10\n0\n20\n0\n11\n5\n21\n5\n\
0\nEOF\n";
    let mut doc = Document::new_empty();
    let pairs = group_pairs(dxf);
    let owners = StrMap::new();
    let layout = entity_layout_name(&pairs[0..12], &owners, None);
    assert_eq!(layout, "Layout1");
    doc.ensure_layout("Layout1");
    doc.add_entity_on_layout(line(1, "0"), Some("Layout1"));
    doc.add_entity_on_layout(line(2, "0"), None);
    doc.set_active_layout("Layout1");
    assert!(doc.entity_visible_in_active_layout(1));
    assert!(!doc.entity_visible_in_active_layout(2));
}

#[test]
fn hidden_layer_not_visible_in_active_layout() {
    let mut doc = Document::new_empty();
    doc.create_layer("Hidden");
    doc.set_layer_visible("Hidden", false);
    let id = doc.next_id();
    doc.add_entity(line(id, "Hidden"));
    assert!(!doc.entity_visible_in_active_layout(id));
}

#[test]
fn new_document_has_model_space_only() {
    let doc = Document::new_empty();
    assert_eq!(layout_names(&doc), vec!["Model"]);
    assert_eq!(doc.active_layout, "Model");
    assert_eq!(doc.active_layout_kind(), LayoutKind::Model);
    assert_eq!(doc.next_id(), 1);
}

#[test]
fn ensure_layout_normalizes_names() {
    let mut doc = Document::new_empty();
    doc.ensure_layout(" model ");
    doc.ensure_layout(" Sheet ");
    doc.ensure_layout("Sheet");
    assert_eq!(layout_names(&doc), vec!["Model", "Sheet"]);
    assert_eq!(doc.layouts[1].kind, LayoutKind::Paper);
    assert!(doc.layouts[1].paper_background);
    assert!(!doc.modified);
    doc.set_active_layout("MODEL");
    assert_eq!(doc.active_layout, "Model");
    doc.set_active_layout("New");
    assert_eq!(doc.active_layout_ref().map(|l| l.name.as_str()), Some("New"));
}

#[test]
fn entities_record_their_paper_layout() {
    let mut doc = Document::new_empty();
    doc.add_entity_on_layout(line(5, "Default"), Some("Sheet"));
    doc.add_entity(line(9, "Default"));
    assert_eq!(doc.entity_layout(5), "Sheet");
    assert_eq!(doc.entity_layout(9), "Model");
    assert!(doc.is_model_entity(9));
    assert!(!doc.is_model_entity(5));
    assert_eq!(doc.next_id(), 10);
    assert!(doc.layouts.iter().any(|l| l.name == "Sheet"));
    doc.set_active_layout("Sheet");
    doc.add_entity(line(10, "Default"));
    assert_eq!(doc.entity_layout(10), "Sheet");
}

#[test]
fn paper_layouts_take_the_first_free_number() {
    let mut doc = Document::new_empty();
    assert_eq!(doc.create_paper_layout(), "Layout 1");
    assert_eq!(doc.create_paper_layout(), "Layout 2");
    assert!(doc.delete_layout("Layout 1"));
    assert_eq!(doc.create_paper_layout(), "Layout 1");
    assert_eq!(doc.active_layout, "Layout 1");
    assert_eq!(layout_names(&doc), vec!["Model", "Layout 2", "Layout 1"]);
}

#[test]
fn deleting_a_layout_removes_its_entities_and_viewports() {
    let mut doc = Document::new_empty();
    doc.ensure_layout("Sheet");
    doc.add_entity_on_layout(line(1, "Default"), Some("Sheet"));
    doc.add_entity_on_layout(line(2, "Default"), None);
    doc.create_layer("Locked");
    doc.add_entity_on_layout(line(3, "Locked"), Some("Sheet"));
    doc.set_layer_locked("Locked", true);
    doc.add_layout_viewport(LayoutViewport { id: 7, layout: "Sheet".to_string(), locked: false });
    doc.set_active_layout("Sheet");
    assert!(!doc.delete_layout("Model"));
    assert!(!doc.delete_layout("Nope"));
    assert!(doc.delete_layout(" Sheet "));
    assert_eq!(layout_names(&doc), vec!["Model"]);
    let ids: Vec<u64> = doc.entities.iter().map(|e| e.id).collect();
    assert_eq!(ids, vec![2, 3]);
    assert!(doc.layout_viewports.is_empty());
    assert_eq!(doc.active_layout, "Model");
}

#[test]
fn duplicating_a_layout_copies_entities_styles_and_viewports() {
    let mut doc = Document::new_empty();
    doc.ensure_layout("Sheet");
    doc.add_entity_on_layout(line(4, "Default"), Some("Sheet"));
    doc.add_entity_on_layout(line(6, "Default"), None);
    assert!(doc.set_entity_color(4, "#FF0000"));
    assert!(doc.set_entity_line_type(4, "dot"));
    doc.add_layout_viewport(LayoutViewport { id: 20, layout: "Sheet".to_string(), locked: true });
    assert_eq!(doc.duplicate_layout("Model"), None);
    let copy = doc.duplicate_layout("Sheet").unwrap();
    assert_eq!(copy, "Sheet copy 2");
    assert_eq!(doc.active_layout, "Sheet copy 2");
    assert_eq!(doc.entities.len(), 3);
    assert_eq!(doc.entities[2].id, 7);
    assert_eq!(doc.entity_layout(7), "Sheet copy 2");
    assert_eq!(doc.entity_color(7), Some("#ff0000"));
    assert_eq!(doc.entity_line_type(7), "Dotted");
    assert_eq!(doc.layout_viewports.len(), 2);
    assert_eq!(doc.layout_viewports[1].id, 8);
    assert_eq!(doc.layout_viewports[1].layout, "Sheet copy 2");
    assert!(doc.layout_viewports[1].locked);
    assert_eq!(doc.duplicate_layout("Sheet").as_deref(), Some("Sheet copy 3"));
}

#[test]
fn viewport_lock_toggles_the_last_on_active_layout() {
    let mut doc = Document::new_empty();
    assert_eq!(doc.toggle_active_layout_viewport_lock(), None);
    doc.add_layout_viewport(LayoutViewport { id: 1, layout: "A".to_string(), locked: false });
    doc.add_layout_viewport(LayoutViewport { id: 2, layout: "A".to_string(), locked: false });
    doc.set_active_layout("A");
    assert_eq!(doc.toggle_active_layout_viewport_lock(), Some(true));
    assert!(doc.layout_viewports[1].locked);
    assert!(!doc.layout_viewports[0].locked);
}

#[test]
fn entity_styles_fall_back_to_the_layer() {
    let mut doc = Document::new_empty();
    doc.add_entity(line(1, "Default"));
    assert_eq!(doc.entity_color(1), Some("#a3a7b0"));
    assert_eq!(doc.entity_line_type(1), "Continuous");
    assert_eq!(doc.entity_color(99), None);
    assert!(doc.set_entity_color(1, "rgb(1,2,3)"));
    assert_eq!(doc.entity_color(1), Some("#010203"));
    assert!(doc.set_entity_color(1, "default"));
    assert_eq!(doc.entity_color(1), Some("#a3a7b0"));
    assert!(!doc.clear_entity_line_type(1));
    assert!(doc.set_entity_line_type(1, "center"));
    assert!(doc.clear_entity_line_type(1));
    assert!(!doc.set_entity_color(42, "red"));
    doc.set_layer_locked("Default", true);
    assert!(!doc.set_entity_color(1, "red"));
    assert!(!doc.set_entity_line_type(1, "dot"));
}

#[test]
fn viewports_are_placed_only_on_paper_layouts() {
    let mut doc = Document::new_empty();
    assert_eq!(doc.create_viewport_for_active_layout(), None);
    assert!(doc.layout_viewports.is_empty());
    doc.add_entity(line(7, "Default"));
    doc.set_active_layout("Layout1");
    doc.modified = false;
    assert_eq!(doc.create_viewport_for_active_layout(), Some(8));
    assert!(doc.modified);
    assert_eq!(doc.layout_viewports.len(), 1);
    assert_eq!(doc.layout_viewports[0].layout, "Layout1");
    assert!(!doc.layout_viewports[0].locked);
    assert_eq!(doc.toggle_active_layout_viewport_lock(), Some(true));
}
