use nodalix_cad::commands::{
    hatch_pattern_name, parse_fillet_chamfer_command, parse_hatch_command, parse_modify_command,
    parse_offset_command, split_command_point, try_execute_block_command,
    try_execute_trim_extend_command, try_parse_export_command, BlockCommandOutcome,
    FilletChamferCommandOutcome, HatchPatternName, ModifyVerb, PdfExportTarget, ToolActivation,
};

#[test]
fn command_parser_block_insert_explode() {
    assert!(matches!(
        try_execute_block_command("block Door", &[]),
        Some(BlockCommandOutcome::CreateFromSelection { .. })
    ));
    assert!(matches!(
        try_execute_block_command("insert Door", &[]),
        Some(BlockCommandOutcome::ActivateInsert { .. })
    ));
    assert!(matches!(
        try_execute_block_command("i Door", &[]),
        Some(BlockCommandOutcome::ActivateInsert { .. })
    ));
    assert!(matches!(
        try_execute_block_command("explode", &[]),
        Some(BlockCommandOutcome::Explode)
    ));
    assert!(matches!(
        try_execute_block_command("x", &[]),
        Some(BlockCommandOutcome::Explode)
    ));
}

#[test]
fn block_command_names_and_refusals() {
    assert_eq!(
        try_execute_block_command("  BLOCK   Door  ", &[1, 2]),
        Some(BlockCommandOutcome::CreateFromSelection {
            block_name: "Door".to_string()
        })
    );
    assert_eq!(
        try_execute_block_command("Insert Window", &[]),
        Some(BlockCommandOutcome::ActivateInsert {
            block_name: "Window".to_string()
        })
    );
    assert_eq!(try_execute_block_command("block", &[]), None);
    assert_eq!(try_execute_block_command("I Door", &[]), None);
    assert_eq!(try_execute_block_command("X", &[]), None);
    assert_eq!(
        try_execute_block_command("EXPLODE now", &[]),
        Some(BlockCommandOutcome::Explode)
    );
    assert_eq!(try_execute_block_command("", &[]), None);
    assert_eq!(try_execute_block_command("line", &[]), None);
}

#[test]
fn command_parser_trim_and_extend() {
    assert_eq!(
        try_execute_trim_extend_command("trim"),
        Some(ToolActivation::Trim)
    );
    assert_eq!(
        try_execute_trim_extend_command("TR"),
        Some(ToolActivation::Trim)
    );
    assert_eq!(
        try_execute_trim_extend_command("extend"),
        Some(ToolActivation::Extend)
    );
    assert_eq!(
        try_execute_trim_extend_command("ex"),
        Some(ToolActivation::Extend)
    );
}

#[test]
fn trim_extend_refuses_other_words() {
    assert_eq!(try_execute_trim_extend_command("  Trim  "), Some(ToolActivation::Trim));
    assert_eq!(try_execute_trim_extend_command("trim now"), None);
    assert_eq!(try_execute_trim_extend_command("t"), None);
    assert_eq!(try_execute_trim_extend_command(""), None);
}

#[test]
fn command_parser_pdf() {
    assert_eq!(
        try_parse_export_command("pdf"),
        Some(PdfExportTarget::ActiveView)
    );
    assert_eq!(
        try_parse_export_command("exportpdf"),
        Some(PdfExportTarget::ActiveView)
    );
    assert_eq!(
        try_parse_export_command("pdf model"),
        Some(PdfExportTarget::ModelSpace)
    );
}

#[test]
fn export_command_targets() {
    assert_eq!(try_parse_export_command(" PLOT "), Some(PdfExportTarget::ActiveView));
    assert_eq!(
        try_parse_export_command("pdf modelspace"),
        Some(PdfExportTarget::ModelSpace)
    );
    assert_eq!(
        try_parse_export_command("PDF Layout"),
        Some(PdfExportTarget::ActiveLayout)
    );
    assert_eq!(try_parse_export_command("pdf paper"), Some(PdfExportTarget::ActiveLayout));
    assert_eq!(try_parse_export_command("pdf  model"), None);
    assert_eq!(try_parse_export_command("svg"), None);
}

#[test]
fn modify_commands_take_two_arguments() {
    let c = parse_modify_command("rotate 0,0 45").unwrap();
    assert_eq!(c.verb, ModifyVerb::Rotate);
    assert_eq!(c.first, "0,0");
    assert_eq!(c.second, "45");
    let c = parse_modify_command("  mi 0,0   100,0 extra").unwrap();
    assert_eq!(c.verb, ModifyVerb::Mirror);
    assert_eq!(c.second, "100,0");
    assert_eq!(parse_modify_command("sc 1,1 2").unwrap().verb, ModifyVerb::Scale);
    assert_eq!(parse_modify_command("m 1,1 2,2").unwrap().verb, ModifyVerb::Move);
    assert_eq!(parse_modify_command("cp 1,1 2,2").unwrap().verb, ModifyVerb::Copy);
    assert!(parse_modify_command("rotate 0,0").is_none());
    assert!(parse_modify_command("ROTATE 0,0 45").is_none());
    assert!(parse_modify_command("spin 0,0 45").is_none());
}

#[test]
fn command_points_split_at_first_comma() {
    assert_eq!(
        split_command_point(" 10 , 20 "),
        Some(("10".to_string(), "20".to_string()))
    );
    assert_eq!(
        split_command_point("1,2,3"),
        Some(("1".to_string(), "2,3".to_string()))
    );
    assert_eq!(split_command_point("12"), None);
}

#[test]
fn offset_fillet_and_hatch_arguments() {
    assert_eq!(
        parse_offset_command("offset 10 100,50"),
        Some(vec!["10".to_string(), "100,50".to_string()])
    );
    assert_eq!(parse_offset_command("o"), Some(Vec::<String>::new()));
    assert_eq!(parse_offset_command("Offset 10"), None);
    assert_eq!(
        parse_fillet_chamfer_command("f 5"),
        Some((FilletChamferCommandOutcome::ActivateFillet, vec!["5".to_string()]))
    );
    assert_eq!(
        parse_fillet_chamfer_command("cha 2 3"),
        Some((
            FilletChamferCommandOutcome::ActivateChamfer,
            vec!["2".to_string(), "3".to_string()]
        ))
    );
    assert_eq!(parse_fillet_chamfer_command("round 5"), None);
    assert_eq!(
        parse_hatch_command("bhatch ANSI31 2 45"),
        Some(vec!["ANSI31".to_string(), "2".to_string(), "45".to_string()])
    );
    assert_eq!(parse_hatch_command("fill"), None);
    assert_eq!(
        hatch_pattern_name("ANSI31"),
        Some(HatchPatternName::Ansi31)
    );
    assert_eq!(
        hatch_pattern_name("Solid"),
        Some(HatchPatternName::Solid)
    );
    assert_eq!(hatch_pattern_name("dots"), None);
}

fn number(word: &str) -> f64 {
    word.parse::<f64>().unwrap()
}

#[test]
fn command_parser_fillet_and_chamfer() {
    let (outcome, args) = parse_fillet_chamfer_command("fillet 10").unwrap();
    assert_eq!(outcome, FilletChamferCommandOutcome::ActivateFillet);
    assert!((number(&args[0]) - 10.0).abs() < 1e-9);
    let (outcome, args) = parse_fillet_chamfer_command("f").unwrap();
    assert_eq!(outcome, FilletChamferCommandOutcome::ActivateFillet);
    assert!(args.is_empty());
    let (outcome, args) = parse_fillet_chamfer_command("chamfer 5 8").unwrap();
    assert_eq!(outcome, FilletChamferCommandOutcome::ActivateChamfer);
    assert!((number(&args[0]) - 5.0).abs() < 1e-9);
    assert!((number(&args[1]) - 8.0).abs() < 1e-9);
}

#[test]
fn command_parser_hatch_variants() {
    assert_eq!(parse_hatch_command("hatch"), Some(vec![]));
    let args = parse_hatch_command("hatch solid").unwrap();
    assert_eq!(hatch_pattern_name(&args[0]), Some(HatchPatternName::Solid));
    let args = parse_hatch_command("hatch ansi31 2 30").unwrap();
    assert_eq!(hatch_pattern_name(&args[0]), Some(HatchPatternName::Ansi31));
    assert!((number(&args[1]) - 2.0).abs() < 1e-9);
    assert!((number(&args[2]) - 30.0).abs() < 1e-9);
}

#[test]
fn offset_command_parser_distance() {
    let args = parse_offset_command("offset 10").unwrap();
    assert_eq!(args.len(), 1);
    assert!((number(&args[0]) - 10.0).abs() < 1e-9);
}
