use nodalix_cad::document::{Document, Entity, EntityKind};

fn line(id: u64, layer: &str) -> Entity {
    Entity { id, layer: layer.to_string(), kind: EntityKind::Line, text: String::new() }
}

fn document_with_two_entities() -> Document {
    let mut document = Document::new_empty();
    document.add_entity(line(1, "Default"));
    document.add_entity_on_layout(line(2, "Dimensions"), Some("Layout1"));
    assert!(document.set_entity_color(1, "rgb(255, 0, 0)"));
    assert!(document.set_entity_line_type(2, "dash"));
    document.modified = false;
    document
}

#[test]
fn duplicate_entity_copies_layer_and_styles() {
    let mut document = document_with_two_entities();
    assert_eq!(document.duplicate_entity(1), Some(3));
    assert_eq!(document.entities.len(), 3);
    assert_eq!(document.entities[2].id, 3);
    assert_eq!(document.entities[2].layer, "Default");
    assert_eq!(document.entity_color(3), Some("#ff0000"));
    assert_eq!(document.entity_layout(3), "Model");
    assert!(document.modified);

    assert_eq!(document.duplicate_entity(2), Some(4));
    assert_eq!(document.entities[3].layer, "Dimensions");
    assert_eq!(document.entity_line_type(4), "Dashed");
    assert_eq!(document.entity_layout(4), "Layout1");
    assert_eq!(document.entity_color(4), document.entity_color(2));
}

#[test]
fn duplicate_of_missing_entity_changes_nothing() {
    let mut document = document_with_two_entities();
    assert_eq!(document.duplicate_entity(9), None);
    assert_eq!(document.entities.len(), 2);
    assert!(!document.modified);
}

#[test]
fn entities_are_looked_up_in_the_order_of_the_ids() {
    let document = document_with_two_entities();
    let found = document.entities_by_ids(&[2, 7, 1, 2]);
    let ids: Vec<u64> = found.iter().map(|e| e.id).collect();
    assert_eq!(ids, vec![2, 1, 2]);
    assert_eq!(found[0].layer, "Dimensions");
}

#[test]
fn pasted_copies_get_new_ids_and_the_active_layout() {
    let mut document = document_with_two_entities();
    let clipboard = document.entities_by_ids(&[1, 2]);
    let ids = document.paste_entities(&clipboard);
    assert_eq!(ids, vec![3, 4]);
    assert_eq!(document.entity_color(3), Some("#ff0000"));
    assert_eq!(document.entity_line_type(4), "Dashed");
    assert_eq!(document.entity_layout(3), "Model");
    assert_eq!(document.entity_layout(4), "Model");
    assert!(document.modified);

    document.set_active_layout("Layout1");
    let ids = document.paste_entities(&[line(42, "Default")]);
    assert_eq!(ids, vec![5]);
    assert_eq!(document.entity_layout(5), "Layout1");
    let default_color = document.layers[0].color.clone();
    assert_eq!(document.layers[0].name, "Default");
    assert_eq!(document.entity_color(5), Some(default_color.as_str()));
}

#[test]
fn pasting_nothing_leaves_the_document_unchanged() {
    let mut document = document_with_two_entities();
    assert!(document.paste_entities(&[]).is_empty());
    assert!(!document.modified);
    assert_eq!(document.entities.len(), 2);
}

#[test]
fn block_keys_are_trimmed_upper_case() {
    assert_eq!(Document::block_definition_key("  door-1 "), "DOOR-1");
    assert_eq!(Document::block_definition_key("Ventana"), "VENTANA");
    assert_eq!(Document::block_definition_key("   "), "");
}

#[test]
fn copies_keep_kind_and_text() {
    let mut document = Document::new_empty();
    document.add_entity(Entity {
        id: 4,
        layer: "Default".to_string(),
        kind: EntityKind::Text,
        text: "Label".to_string(),
    });
    assert_eq!(document.duplicate_entity(4), Some(5));
    assert_eq!(document.entities[1].kind, EntityKind::Text);
    assert_eq!(document.entities[1].text, "Label");
    let ids = document.paste_entities(&document.entities_by_ids(&[5]));
    assert_eq!(ids, vec![6]);
    assert_eq!(document.entities[2].text, "Label");
}
