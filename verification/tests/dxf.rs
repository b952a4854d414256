use nodalix_cad::dxf::{
    block_entity_records, block_records, viewport_layout_name, viewport_visible_locked,
    detect_layout_names, detect_layout_owner_map, dxf_color_value, entity_layout_name,
    entity_records, group_pairs, integer_value, joined_text_value, layout_tab_name_from_chunk,
    normalize_dxf_text, section_bounds, text_value,
};
use nodalix_cad::strmap::StrMap;

fn pairs(items: &[(&str, &str)]) -> Vec<(String, String)> {
    items
        .iter()
        .map(|(c, v)| (c.to_string(), v.to_string()))
        .collect()
}

#[test]
fn entity_layout_from_group_410() {
    let pairs = vec![
        ("67".to_string(), "1".to_string()),
        ("410".to_string(), "Layout1".to_string()),
    ];
    assert_eq!(entity_layout_name(&pairs, &StrMap::new(), None), "Layout1");
}

#[test]
fn entity_model_space_without_paper_flag() {
    let pairs = vec![("8".to_string(), "0".to_string())];
    assert_eq!(entity_layout_name(&pairs, &StrMap::new(), None), "Model");
}

#[test]
fn paper_entity_uses_layout_hint_when_missing_410() {
    let pairs = vec![("67".to_string(), "1".to_string())];
    assert_eq!(
        entity_layout_name(&pairs, &StrMap::new(), Some("Layout2")),
        "Layout2"
    );
}

#[test]
fn layout_tab_name_prefers_group_one() {
    let chunk = vec![
        ("100".to_string(), "AcDbLayout".to_string()),
        ("1".to_string(), "Layout1".to_string()),
        ("2".to_string(), "Layout1_Paper".to_string()),
    ];
    assert_eq!(
        layout_tab_name_from_chunk(&chunk).as_deref(),
        Some("Layout1")
    );
}

#[test]
fn normalizes_autocad_mtext_format_codes() {
    assert_eq!(
        normalize_dxf_text(r"\pxqc;{\fISOCPEUR|b1|i1|c0|p34;W1.4;CAD}"),
        "W1.4;CAD"
    );
    assert_eq!(
        normalize_dxf_text(r"\pxqc;Escala\P\pxqc;Fecha"),
        "Escala Fecha"
    );
}

#[test]
fn mtext_codes_and_symbols() {
    assert_eq!(normalize_dxf_text(r"1\S1#2;"), "11/2");
    assert_eq!(normalize_dxf_text(r"%%c10 %%d %%p0.1"), "diameter 10 deg +/-0.1");
    assert_eq!(normalize_dxf_text(r"a\\b\{c\}"), "a\\b{c}");
    assert_eq!(normalize_dxf_text(r"\Lunder\l  line"), "under line");
    assert_eq!(normalize_dxf_text("   "), "");
}

#[test]
fn layout_owner_and_hint_order() {
    let mut owners = StrMap::new();
    owners.insert("1F".to_string(), "Sheet A".to_string());
    let by_owner = pairs(&[("330", "1f"), ("67", "1")]);
    assert_eq!(entity_layout_name(&by_owner, &owners, Some("Other")), "Sheet A");
    let by_410 = pairs(&[("410", " model "), ("330", "1F")]);
    assert_eq!(entity_layout_name(&by_410, &owners, None), "Model");
    let unknown_owner = pairs(&[("330", "2A"), ("67", "0")]);
    assert_eq!(entity_layout_name(&unknown_owner, &owners, Some("X")), "Model");
}

#[test]
fn group_pairs_trims_and_drops_odd_line() {
    let p = group_pairs("  0\r\nSECTION \n2\nENTITIES\n0\n");
    assert_eq!(p, pairs(&[("0", "SECTION"), ("2", "ENTITIES")]));
    assert!(group_pairs("").is_empty());
}

#[test]
fn values_and_colors() {
    let p = pairs(&[("8", "Walls"), ("62", "3"), ("62", "1"), ("1", "ab"), ("3", "cd")]);
    assert_eq!(text_value(&p, "8").as_deref(), Some("Walls"));
    assert_eq!(text_value(&p, "9"), None);
    assert_eq!(integer_value(&p, "62"), Some(3));
    assert_eq!(dxf_color_value(&p), Some("#22c55e"));
    assert_eq!(dxf_color_value(&pairs(&[("62", "9")])), Some("#6b7280"));
    assert_eq!(dxf_color_value(&pairs(&[("62", "256")])), None);
    assert_eq!(dxf_color_value(&pairs(&[("62", "red")])), None);
    assert_eq!(joined_text_value(&p), "abcd");
}

#[test]
fn sections_are_found_without_regard_to_case() {
    let p = pairs(&[
        ("0", "section"),
        ("2", "Header"),
        ("9", "$ACADVER"),
        ("0", "ENDSEC"),
        ("0", "SECTION"),
        ("2", "ENTITIES"),
        ("0", "LINE"),
        ("0", "ENDSEC"),
        ("0", "EOF"),
    ]);
    assert_eq!(section_bounds(&p, "HEADER"), Some((2, 3)));
    assert_eq!(section_bounds(&p, "entities"), Some((6, 7)));
    assert_eq!(section_bounds(&p, "BLOCKS"), None);
}

#[test]
fn entities_are_split_with_polyline_vertices() {
    let data = "0\nSECTION\n2\nENTITIES\n\
0\nline\n8\n0\n10\n0\n\
0\nPOLYLINE\n8\nA\n\
0\nVERTEX\n10\n1\n\
0\nVERTEX\n10\n2\n\
0\nSEQEND\n\
0\nCIRCLE\n40\n5\n62\n1\n\
0\nENDSEC\n0\nEOF\n";
    let p = group_pairs(data);
    let records = entity_records(&p).unwrap();
    let kinds: Vec<&str> = records.iter().map(|r| r.entity_type.as_str()).collect();
    assert_eq!(kinds, vec!["LINE", "POLYLINE", "CIRCLE"]);
    assert_eq!((records[0].start, records[0].end), (3, 5));
    assert_eq!(&p[records[0].start..records[0].end], &pairs(&[("8", "0"), ("10", "0")])[..]);
    assert_eq!(records[1].vertices, vec![(8, 9), (10, 11)]);
    assert!(records[2].vertices.is_empty());
    assert_eq!(
        &p[records[2].start..records[2].end],
        &pairs(&[("40", "5"), ("62", "1")])[..]
    );
    assert!(entity_records(&pairs(&[("0", "SECTION"), ("2", "BLOCKS"), ("0", "ENDSEC"), ("0", "EOF")])).is_none());
}

#[test]
fn layouts_are_detected_with_owners() {
    let p = pairs(&[
        ("0", "LAYOUT"),
        ("330", "1a"),
        ("100", "AcDbLayout"),
        ("1", "Layout1"),
        ("0", "LAYOUT"),
        ("100", "AcDbLayout"),
        ("2", "*Paper_Space"),
        ("2", "Sheet"),
        ("330", "2B"),
        ("0", "LAYOUT"),
        ("100", "AcDbLayout"),
        ("1", "layout1"),
        ("0", "EOF"),
    ]);
    assert_eq!(
        detect_layout_names(&p),
        vec!["Model".to_string(), "Layout1".to_string(), "Sheet".to_string(), "layout1".to_string()]
    );
    let owners = detect_layout_owner_map(&p);
    assert_eq!(owners.get("2B").as_deref(), Some("*Paper_Space"));
    assert_eq!(owners.get("1A"), None);
    assert_eq!(owners.len(), 1);
}

#[test]
fn paper_space_viewport_has_no_layout() {
    let chunk = pairs(&[("69", "1"), ("410", "Layout1"), ("10", "0"), ("20", "0")]);
    assert_eq!(viewport_layout_name(&chunk, &StrMap::new()), None);
    let chunk = pairs(&[("410", "Layout1")]);
    assert_eq!(viewport_layout_name(&chunk, &StrMap::new()), None);
}

#[test]
fn viewport_layout_from_410_or_owner() {
    let chunk = pairs(&[("69", "2"), ("410", " Layout1 ")]);
    assert_eq!(
        viewport_layout_name(&chunk, &StrMap::new()),
        Some("Layout1".to_string())
    );
    let mut owners = StrMap::new();
    owners.insert("1F".to_string(), "Sheet A".to_string());
    let chunk = pairs(&[("69", "3"), ("330", "1f")]);
    assert_eq!(
        viewport_layout_name(&chunk, &owners),
        Some("Sheet A".to_string())
    );
    let chunk = pairs(&[("69", "3"), ("330", "2A")]);
    assert_eq!(viewport_layout_name(&chunk, &owners), None);
    let chunk = pairs(&[("69", "2"), ("410", "model")]);
    assert_eq!(viewport_layout_name(&chunk, &StrMap::new()), None);
}

#[test]
fn blocks_are_split_and_named_in_upper_case() {
    let data = pairs(&[
        ("0", "SECTION"),
        ("2", "BLOCKS"),
        ("0", "BLOCK"),
        ("2", "door"),
        ("0", "LINE"),
        ("10", "0"),
        ("20", "0"),
        ("0", "ENDBLK"),
        ("0", "block"),
        ("8", "0"),
        ("0", "ENDBLK"),
        ("0", "ENDSEC"),
        ("0", "EOF"),
    ]);
    let blocks = block_records(&data);
    assert_eq!(blocks.len(), 1);
    assert_eq!(blocks[0].name, "DOOR");
    assert_eq!((blocks[0].start, blocks[0].end), (3, 7));
    let body = &data[blocks[0].start..blocks[0].end];
    let entities = block_entity_records(body);
    assert_eq!(entities, vec![("LINE".to_string(), 2, 4)]);
}

#[test]
fn no_blocks_section_gives_no_blocks() {
    let data = pairs(&[("0", "SECTION"), ("2", "ENTITIES"), ("0", "ENDSEC")]);
    assert!(block_records(&data).is_empty());
    let body = pairs(&[("2", "X"), ("0", "circle"), ("40", "1"), ("0", "text")]);
    assert_eq!(
        block_entity_records(&body),
        vec![("CIRCLE".to_string(), 2, 3)]
    );
}

#[test]
fn viewport_import_skips_paper_space_viewport_number_one() {
    let pairs = vec![
        ("69".to_string(), "1".to_string()),
        ("10".to_string(), "0".to_string()),
        ("20".to_string(), "0".to_string()),
        ("40".to_string(), "100".to_string()),
        ("41".to_string(), "80".to_string()),
        ("410".to_string(), "Layout1".to_string()),
    ];
    assert!(viewport_layout_name(&pairs, &StrMap::new()).is_none());
}

#[test]
fn viewport_import_creates_layout_viewport() {
    let pairs = vec![
        ("69".to_string(), "2".to_string()),
        ("10".to_string(), "50".to_string()),
        ("20".to_string(), "40".to_string()),
        ("40".to_string(), "100".to_string()),
        ("41".to_string(), "80".to_string()),
        ("12".to_string(), "10".to_string()),
        ("22".to_string(), "20".to_string()),
        ("45".to_string(), "200".to_string()),
        ("410".to_string(), "Layout1".to_string()),
    ];
    assert_eq!(
        viewport_layout_name(&pairs, &StrMap::new()).as_deref(),
        Some("Layout1")
    );
    assert_eq!(viewport_visible_locked(&pairs), (true, false));
}

#[test]
fn viewport_flags_turn_off_and_lock() {
    assert_eq!(viewport_visible_locked(&pairs(&[("90", "512")])), (false, false));
    assert_eq!(viewport_visible_locked(&pairs(&[("90", "16384")])), (true, true));
    assert_eq!(viewport_visible_locked(&pairs(&[("90", "16896")])), (false, true));
    assert_eq!(viewport_visible_locked(&pairs(&[("90", "x")])), (true, false));
}

#[test]
fn last_entity_keeps_its_pairs_up_to_endsec() {
    let data = "0\nSECTION\n2\nENTITIES\n0\nCIRCLE\n8\n0\n10\n1\n20\n2\n40\n3\n0\nENDSEC\n0\nEOF\n";
    let p = group_pairs(data);
    let records = entity_records(&p).unwrap();
    assert_eq!(records.len(), 1);
    assert_eq!(records[0].entity_type, "CIRCLE");
    assert_eq!((records[0].start, records[0].end), (3, 7));
    assert_eq!(text_value(&p[records[0].start..records[0].end], "40").as_deref(), Some("3"));
}
