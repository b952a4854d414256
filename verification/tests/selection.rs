use nodalix_cad::selection::{parse_legacy_entity_id, SelectionManager};

#[test]
fn selection_toggle_and_clear() {
    let mut sel = SelectionManager::new();
    sel.select_one("entity-1");
    assert!(sel.is_selected("entity-1"));
    sel.toggle("entity-2");
    assert_eq!(sel.count(), 2);
    sel.clear();
    assert!(sel.is_empty());
}

#[test]
fn toggle_twice_restores_selection() {
    let mut sel = SelectionManager::new();
    sel.add("b");
    sel.add("a");
    let before = sel.selected_ids();
    sel.toggle("c");
    assert!(sel.is_selected("c"));
    sel.toggle("c");
    assert!(!sel.is_selected("c"));
    assert_eq!(sel.selected_ids(), before);
}

#[test]
fn selected_ids_are_sorted_and_unique() {
    let mut sel = SelectionManager::new();
    sel.select_many(vec![
        "entity-3".to_string(),
        "entity-1".to_string(),
        "entity-3".to_string(),
        "entity-2".to_string(),
    ]);
    assert_eq!(
        sel.selected_ids(),
        vec![
            "entity-1".to_string(),
            "entity-2".to_string(),
            "entity-3".to_string()
        ]
    );
    assert_eq!(sel.count(), 3);
}

#[test]
fn select_one_replaces_selection() {
    let mut sel = SelectionManager::new();
    sel.select_many(vec!["a".to_string(), "b".to_string()]);
    sel.select_one("c");
    assert_eq!(sel.selected_ids(), vec!["c".to_string()]);
}

#[test]
fn remove_and_add_are_idempotent() {
    let mut sel = SelectionManager::new();
    sel.add("x");
    sel.add("x");
    assert_eq!(sel.count(), 1);
    sel.remove("y");
    assert_eq!(sel.count(), 1);
    sel.remove("x");
    assert!(sel.is_empty());
}

#[test]
fn legacy_entity_ids() {
    assert_eq!(parse_legacy_entity_id("entity-42"), Some(42));
    assert_eq!(parse_legacy_entity_id("entity-+7"), Some(7));
    assert_eq!(parse_legacy_entity_id("entity-18446744073709551615"), Some(u64::MAX));
    assert_eq!(parse_legacy_entity_id("entity-18446744073709551616"), None);
    assert_eq!(parse_legacy_entity_id("entity-"), None);
    assert_eq!(parse_legacy_entity_id("entity-x1"), None);
    assert_eq!(parse_legacy_entity_id("block-3"), None);
    assert_eq!(parse_legacy_entity_id("entity"), None);
}
