use nodalix_cad::document::{
    default_active_layer_name, default_active_layout, default_layer_color,
    default_layer_linetype, default_layer_printable, default_viewport_border_visible,
    default_viewport_visible, normalize_color_value, normalized_layout_name, normalized_linetype,
    parse_color_channels, DrawingView, LayoutKind,
};

#[test]
fn layout_names_are_normalized() {
    assert_eq!(normalized_layout_name("  Layout1 "), "Layout1");
    assert_eq!(normalized_layout_name("MODEL"), "Model");
    assert_eq!(normalized_layout_name(" model "), "Model");
    assert_eq!(normalized_layout_name(""), "Model");
    assert_eq!(normalized_layout_name("Models"), "Models");
    let once = normalized_layout_name("  Sheet 2 ");
    assert_eq!(normalized_layout_name(&once), once);
}

#[test]
fn colors_are_read_in_each_notation() {
    assert_eq!(parse_color_channels("#FF8000"), Some((255, 128, 0)));
    assert_eq!(parse_color_channels("ff8000"), Some((255, 128, 0)));
    assert_eq!(parse_color_channels(" rgb(1, 2, 3) "), Some((1, 2, 3)));
    assert_eq!(parse_color_channels("10 20,30"), Some((10, 20, 30)));
    assert_eq!(parse_color_channels("256,0,0"), None);
    assert_eq!(parse_color_channels("1,2"), None);
    assert_eq!(parse_color_channels("#12345"), None);
}

#[test]
fn colors_are_stored_in_lower_case_hex() {
    assert_eq!(normalize_color_value("#FF8000").as_deref(), Some("#ff8000"));
    assert_eq!(normalize_color_value("rgb(0,255,16)").as_deref(), Some("#00ff10"));
    assert_eq!(normalize_color_value("  Default "), None);
    assert_eq!(normalize_color_value("   "), None);
    assert_eq!(normalize_color_value(" red ").as_deref(), Some("red"));
    let stored = normalize_color_value("12 34 56").unwrap();
    assert_eq!(normalize_color_value(&stored).as_deref(), Some(stored.as_str()));
}

#[test]
fn line_types_are_canonical() {
    assert_eq!(normalized_linetype(" DASH "), "Dashed");
    assert_eq!(normalized_linetype("punteada"), "Dotted");
    assert_eq!(normalized_linetype("Eje"), "Center");
    assert_eq!(normalized_linetype("zigzag"), "Continuous");
    assert_eq!(normalized_linetype(""), "Continuous");
}

#[test]
fn document_defaults() {
    assert_eq!(default_active_layout(), "Model");
    assert_eq!(default_active_layer_name(), "Default");
    assert_eq!(default_layer_color(), "#a3a7b0");
    assert_eq!(default_layer_linetype(), "Continuous");
    assert!(default_layer_printable());
    assert!(default_viewport_visible());
    assert!(default_viewport_border_visible());
    let view = DrawingView::new("Front", "front");
    assert_eq!((view.name.as_str(), view.view_type.as_str()), ("Front", "front"));
    assert_ne!(LayoutKind::Model, LayoutKind::Paper);
}

#[test]
fn stored_colors_normalize_to_themselves() {
    for text in ["rgb(255, 0, 16)", " #ABCDEF ", "10 20 30", "  ByLayer ", "default", ""] {
        match normalize_color_value(text) {
            Some(stored) => {
                assert_eq!(normalize_color_value(&stored), Some(stored.clone()));
            }
            None => assert!(text.trim().is_empty() || text.trim().eq_ignore_ascii_case("default")),
        }
    }
    assert_eq!(normalize_color_value("rgb(255, 0, 16)"), Some("#ff0010".to_string()));
    assert_eq!(normalize_color_value("  ByLayer "), Some("ByLayer".to_string()));
}

#[test]
fn line_types_normalize_to_themselves() {
    for text in [" DASH ", "punteada", "Centre", "zigzag"] {
        let once = normalized_linetype(text);
        assert_eq!(normalized_linetype(&once), once);
    }
    assert_eq!(normalized_linetype(" DASH "), "Dashed");
    assert_eq!(normalized_linetype("zigzag"), "Continuous");
}
