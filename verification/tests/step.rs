use nodalix_cad::step::{entity_counts, extract_call, find_chars, import_step_metadata};

const SAMPLE: &str = "ISO-10303-21;\nHEADER;\nFILE_DESCRIPTION(('a (b)'),'2;1');\nFILE_NAME('part.step','2024-01-01',('x'),(''),'','','');\nFILE_SCHEMA(('AUTOMOTIVE_DESIGN'));\nENDSEC;\nDATA;\n#1 = CARTESIAN_POINT('',(0.,0.,0.));\n#2 = cartesian_point('',(1.,0.,0.));\n#3 = DIRECTION('',(0.,0.,1.));\n#4 =  ;\nENDSEC;\nEND-ISO-10303-21;\n";

#[test]
fn header_calls_are_extracted() {
    assert_eq!(extract_call(SAMPLE, "FILE_DESCRIPTION").as_deref(), Some("('a (b)'),'2;1'"));
    assert_eq!(
        extract_call(SAMPLE, "FILE_SCHEMA").as_deref(),
        Some("('AUTOMOTIVE_DESIGN')")
    );
    assert_eq!(extract_call("file_name ( 'x' ) ", "FILE_NAME").as_deref(), Some("'x'"));
    assert_eq!(extract_call("FILE_NAME('x'", "FILE_NAME"), None);
    assert_eq!(extract_call("FILE_NAME", "FILE_NAME"), None);
    assert_eq!(extract_call("nothing here", "FILE_NAME"), None);
}

#[test]
fn entity_types_are_counted_in_name_order() {
    assert_eq!(
        entity_counts(SAMPLE),
        vec![
            ("CARTESIAN_POINT".to_string(), 2),
            ("DIRECTION".to_string(), 1),
        ]
    );
    assert!(entity_counts("no equals here\n").is_empty());
}

#[test]
fn step_import_summary() {
    let (reference, summary) = import_step_metadata(SAMPLE, "/m/part.step", Some("part.step")).unwrap();
    assert_eq!(reference.format, "STEP");
    assert_eq!(reference.warnings.len(), 2);
    assert_eq!(summary.format, "STEP metadata/reference");
    assert_eq!(summary.details[1].1, "'part.step','2024-01-01',('x'),(''),'','',''");
    assert_eq!(summary.details[3], ("Entity types".to_string(), "2".to_string()));
    assert_eq!(
        summary.details[4],
        ("Top entities".to_string(), "CARTESIAN_POINT: 2, DIRECTION: 1".to_string())
    );
    assert_eq!(
        import_step_metadata("HEADER DATA", "/m/x", None).unwrap_err(),
        "File does not look like an ISO-10303 STEP exchange file"
    );
    let (_, bare) = import_step_metadata("iso-10303-21 header data", "/m/x", None).unwrap();
    assert_eq!(bare.file_name, "model.step");
    assert_eq!(bare.details[0].1, "unknown");
    assert_eq!(bare.details[4].1, "");
}

#[test]
fn substring_search() {
    let h: Vec<char> = "abcabc".chars().collect();
    let n: Vec<char> = "ca".chars().collect();
    assert_eq!(find_chars(&h, &n), Some(2));
    assert_eq!(find_chars(&h, &Vec::new()), Some(0));
    assert_eq!(find_chars(&h, &"x".chars().collect()), None);
}
