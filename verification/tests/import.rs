use nodalix_cad::import::{
    dxf_import_summary, dxf_summary_without_entities, file_name_or, import_format,
    import_obj_placeholder, import_ply_placeholder, native_open_summary, paper_layout_hint,
    stl_import_summary, dxf_import_counts, ImportFormat, ImportedRecord,
};

fn names(items: &[&str]) -> Vec<String> {
    items.iter().map(|s| s.to_string()).collect()
}

#[test]
fn formats_by_extension() {
    assert_eq!(import_format(Some("STEP")), Ok(ImportFormat::Step));
    assert_eq!(import_format(Some("igs")), Ok(ImportFormat::Step));
    assert_eq!(import_format(Some("Stl")), Ok(ImportFormat::Stl));
    assert_eq!(import_format(Some("dxf")), Ok(ImportFormat::Dxf));
    assert_eq!(import_format(Some("DWG")), Ok(ImportFormat::Dwg));
    assert_eq!(import_format(Some("lixcad")), Ok(ImportFormat::Native));
    assert_eq!(import_format(Some("nodcad")), Ok(ImportFormat::Native));
    assert_eq!(import_format(Some("obj")), Ok(ImportFormat::Obj));
    assert_eq!(import_format(Some("PLY")), Ok(ImportFormat::Ply));
    assert_eq!(
        import_format(Some("SVG")),
        Err("Unsupported import format: .svg".to_string())
    );
    assert_eq!(
        import_format(None),
        Err("Unsupported import format: .".to_string())
    );
}

#[test]
fn dxf_summary_counts_paper_layouts_and_skipped_inserts() {
    let summary = dxf_import_summary(
        Some("plan.dxf"),
        12,
        &names(&["Model", "Layout1", "Layout2"]),
        2,
    );
    assert_eq!(summary.file_name, "plan.dxf");
    assert_eq!(summary.format, "DXF");
    assert_eq!(
        summary.details,
        vec![
            ("Imported entities".to_string(), "12".to_string()),
            ("Detected layouts".to_string(), "2".to_string()),
        ]
    );
    assert_eq!(summary.warnings.len(), 2);
    assert_eq!(summary.warnings[0], "Unsupported DXF entities skipped: INSERT x2");
    let clean = dxf_import_summary(None, 0, &names(&["Model"]), 0);
    assert_eq!(clean.file_name, "drawing.dxf");
    assert_eq!(clean.details[1].1, "0");
    assert_eq!(clean.warnings.len(), 1);
    assert!(clean.warnings[0].starts_with("DXF import supports LINE"));
}

#[test]
fn dxf_without_entities_section() {
    let summary = dxf_summary_without_entities(None);
    assert_eq!(summary.file_name, "drawing.dxf");
    assert_eq!(
        summary.summary,
        "DXF import completed without an ENTITIES section."
    );
    assert_eq!(
        summary.details,
        vec![("Imported entities".to_string(), "0".to_string())]
    );
    assert_eq!(
        summary.warnings,
        vec!["DXF file did not contain an ENTITIES section.".to_string()]
    );
}

#[test]
fn paper_layout_hint_needs_exactly_one_paper_layout() {
    assert_eq!(
        paper_layout_hint(&names(&["Model", " Sheet "])),
        Some("Sheet".to_string())
    );
    assert_eq!(paper_layout_hint(&names(&["Model", "A", "B"])), None);
    assert_eq!(paper_layout_hint(&names(&["model", "MODEL"])), None);
    assert_eq!(paper_layout_hint(&Vec::new()), None);
}

#[test]
fn other_summaries() {
    let native = native_open_summary(None, 7);
    assert_eq!(native.file_name, "project.nodcad");
    assert_eq!(native.format, "NODCAD");
    assert_eq!(native.details, vec![("Entities".to_string(), "7".to_string())]);
    let stl = stl_import_summary(Some("part.stl"), 12, "1.000 x 2.000 x 3.000");
    assert_eq!(
        stl.details,
        vec![
            ("Triangles".to_string(), "12".to_string()),
            ("Dimensions".to_string(), "1.000 x 2.000 x 3.000".to_string()),
        ]
    );
    let (reference, summary) = import_obj_placeholder("/m/a.obj", None);
    assert_eq!(reference.format, "OBJ");
    assert_eq!(summary.file_name, "model.obj");
    let (reference, summary) = import_ply_placeholder("/m/a.ply", Some("a.ply"));
    assert_eq!(reference.path, "/m/a.ply");
    assert_eq!(summary.format, "PLY reference");
    assert_eq!(file_name_or(None, "x"), "x");
}

fn record(kind: &str, readable: bool, block_count: Option<usize>, layout: Option<&str>) -> ImportedRecord {
    ImportedRecord {
        entity_type: kind.to_string(),
        readable,
        block_count,
        viewport_layout: layout.map(|l| l.to_string()),
    }
}

#[test]
fn dxf_import_tally_counts_entities_inserts_and_viewports() {
    let records = vec![
        record("LINE", true, None, None),
        record("CIRCLE", false, None, None),
        record("VIEWPORT", true, None, Some("Sheet")),
        record("INSERT", true, None, None),
        record("INSERT", false, Some(3), None),
        record("INSERT", false, None, None),
        record("VIEWPORT", false, None, Some("Other")),
        record("TEXT", true, None, None),
    ];
    let tally = dxf_import_counts(&records, Some("Layout1".to_string()));
    assert_eq!(tally.imported, 1 + 1 + 1 + 3 + 1);
    assert_eq!(tally.skipped_inserts, 1);
    let hints: Vec<Option<&str>> = tally.hints.iter().map(|h| h.as_deref()).collect();
    assert_eq!(
        hints,
        vec![
            Some("Layout1"),
            Some("Layout1"),
            Some("Layout1"),
            Some("Sheet"),
            Some("Sheet"),
            Some("Sheet"),
            Some("Sheet"),
            Some("Sheet"),
        ]
    );
}

#[test]
fn empty_dxf_tally() {
    let tally = dxf_import_counts(&[], None);
    assert_eq!((tally.imported, tally.skipped_inserts), (0, 0));
    assert!(tally.hints.is_empty());
}

#[test]
fn imported_references_are_kept() {
    let mut document = nodalix_cad::document::Document::new_empty();
    let (reference, _) = import_obj_placeholder("/m/a.obj", Some("a.obj"));
    document.keep_imported_reference(reference);
    assert!(document.modified);
    assert_eq!(document.imported_references.len(), 1);
    assert_eq!(document.imported_references[0].path, "/m/a.obj");
}
