use nodalix_cad::document::{Document, Entity, EntityKind};
use nodalix_cad::dxf_document::{add_imported_entity, dxf_entity, dxf_entity_kind, ensure_layer};
use nodalix_cad::strmap::StrMap;

fn line(id: u64, layer: &str) -> Entity {
    Entity { id, layer: layer.to_string(), kind: EntityKind::Line, text: String::new() }
}

fn pairs(items: &[(&str, &str)]) -> Vec<(String, String)> {
    items
        .iter()
        .map(|(c, v)| (c.to_string(), v.to_string()))
        .collect()
}

#[test]
fn ensure_layer_adds_only_missing_layers() {
    let mut doc = Document::new_empty();
    let before = doc.layers.len();
    ensure_layer(&mut doc, "Default");
    assert_eq!(doc.layers.len(), before);
    ensure_layer(&mut doc, "Walls");
    assert_eq!(doc.layers.len(), before + 1);
    assert_eq!(doc.layers[before].name, "Walls");
    assert!(doc.layers[before].visible);
    assert!(!doc.modified);
}

#[test]
fn imported_entity_gets_layer_layout_and_color() {
    let mut doc = Document::new_empty();
    let chunk = pairs(&[("8", "Walls"), ("67", "1"), ("410", "Layout1"), ("62", "1")]);
    add_imported_entity(&mut doc, line(5, "Walls"), &chunk, &StrMap::new(), None);
    assert!(doc.layers.iter().any(|l| l.name == "Walls"));
    assert_eq!(doc.entity_layout(5), "Layout1");
    assert!(doc.layouts.iter().any(|l| l.name == "Layout1"));
    assert_eq!(doc.entity_color(5), Some("#ef4444"));
    assert!(doc.modified);
}

#[test]
fn imported_model_entity_without_color_keeps_layer_color() {
    let mut doc = Document::new_empty();
    let chunk = pairs(&[("8", "Default"), ("62", "256")]);
    add_imported_entity(&mut doc, line(1, "Default"), &chunk, &StrMap::new(), Some("Layout2"));
    assert_eq!(doc.entity_layout(1), "Model");
    assert_eq!(doc.entity_color(1), Some(doc.layers[0].color.as_str()));
}

#[test]
fn dxf_types_are_read_as_entity_kinds() {
    assert_eq!(dxf_entity_kind("ARC"), Some(EntityKind::Polyline));
    assert_eq!(dxf_entity_kind("MTEXT"), Some(EntityKind::Text));
    assert_eq!(dxf_entity_kind("INSERT"), Some(EntityKind::BlockReference));
    assert_eq!(dxf_entity_kind("VIEWPORT"), None);
    let chunk = pairs(&[("1", "Hello"), ("10", "0"), ("20", "0")]);
    let text = dxf_entity(&chunk, 4, "TEXT").unwrap();
    assert_eq!((text.id, text.layer.as_str(), text.kind, text.text.as_str()), (4, "Default", EntityKind::Text, "Hello"));
    let circle = dxf_entity(&pairs(&[("8", "Walls"), ("40", "1")]), 5, "CIRCLE").unwrap();
    assert_eq!((circle.layer.as_str(), circle.kind, circle.text.as_str()), ("Walls", EntityKind::Circle, ""));
    assert!(dxf_entity(&chunk, 6, "3DFACE").is_none());
}

#[test]
fn new_document_has_its_views_and_sheet() {
    let doc = Document::new_empty();
    assert_eq!(doc.version, 1);
    assert_eq!(doc.name, "Untitled");
    let views: Vec<&str> = doc.views.iter().map(|v| v.name.as_str()).collect();
    assert_eq!(views, vec!["Front", "Top", "Right", "Isometric"]);
    assert_eq!(doc.sheets.len(), 1);
    assert_eq!(doc.sheets[0].format, "A4");
    assert!(doc.imported_references.is_empty());
}
