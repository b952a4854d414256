use nodalix_cad::dwg::{
    automatic_backend, backend_is_freecad, backend_is_libredwg, backend_is_oda,
    backend_searches, command_probes, conversion_command, conversion_failed_message,
    conversion_log_text, conversion_output_name, converted_dwg_import, converter_status_text,
    config_log_messages, detect_signature, dwg_reference_summary, dwg_status_report,
    dwg_warnings, import_workspace, load_config, log_backend_status, log_command_output,
    log_line, make_backend, normalize_backend, parse_config_data, run_command_message,
    settings_path, settings_paths, unconverted_dwg_import, validate_config, backend_statuses, BackendProbe, BackendStatus,
    CommandProbe, DwgBackend, DwgBackendKind, DwgImportConfig, DWG_SETUP_REQUIRED,
};
use nodalix_cad::import::ImportSummary;
use std::path::Path;

#[test]
fn parses_oda_config_alias() {
    let config = parse_config_data(
        r#"
            [dwg_import]
            backend = "oda"
            converter_path = "/usr/bin/oda-file-converter"
            "#,
    );
    assert_eq!(config.backend.as_deref(), Some("oda"));
    assert_eq!(
        config.converter_path.as_deref().map(Path::new),
        Some(Path::new("/usr/bin/oda-file-converter"))
    );
    assert!(backend_is_oda(config.backend.as_deref().unwrap()));
}

#[test]
fn exposes_expected_settings_paths() {
    let paths = settings_paths("/home/user");
    assert!(paths
        .iter()
        .any(|path| Path::new(path).ends_with("lixcad/settings.toml")));
    assert!(paths
        .iter()
        .any(|path| Path::new(path).ends_with(".config/lixcad/settings.toml")));
    assert!(paths
        .iter()
        .any(|path| Path::new(path).ends_with(".config/nodalix-cad/settings.toml")));
}

#[test]
fn settings_paths_in_order() {
    assert_eq!(
        settings_paths("/home/ana/"),
        vec![
            "/home/ana/lixcad/settings.toml".to_string(),
            "/home/ana/.config/lixcad/settings.toml".to_string(),
            "/home/ana/.config/nodalix-cad/settings.toml".to_string(),
        ]
    );
    assert_eq!(settings_path("/root"), "/root/lixcad/settings.toml");
    assert_eq!(
        import_workspace("/home/ana", 1700000000123),
        "/home/ana/.cache/lixcad/imports/1700000000123"
    );
}

#[test]
fn config_reading_rules() {
    let config = parse_config_data(
        "backend = \"ignored\"\n[other]\nbackend = 'no'\n[ dwg_import ] # comment\n  backend = 'LibreDWG' # trailing\nconverter_path=/opt/bin/dwg2dxf\nunknown = 1\n",
    );
    assert_eq!(config.backend.as_deref(), Some("libredwg"));
    assert_eq!(config.converter_path.as_deref(), Some("/opt/bin/dwg2dxf"));
    assert!(config.path.is_none());
    let empty = parse_config_data("");
    assert!(empty.backend.is_none() && empty.converter_path.is_none());
}

#[test]
fn config_is_loaded_from_first_readable_file() {
    let candidates = vec![
        ("/a/settings.toml".to_string(), None),
        (
            "/b/settings.toml".to_string(),
            Some("[dwg_import]\nbackend = oda\n".to_string()),
        ),
        (
            "/c/settings.toml".to_string(),
            Some("[dwg_import]\nbackend = freecad\n".to_string()),
        ),
    ];
    let config = load_config(&candidates);
    assert_eq!(config.path.as_deref(), Some("/b/settings.toml"));
    assert_eq!(config.backend.as_deref(), Some("oda"));
    let none = validate_config(&vec![("/a".to_string(), None)]);
    assert!(none.path.is_none() && none.backend.is_none());
}

#[test]
fn backend_names_are_normalized() {
    assert_eq!(normalize_backend("ODA File-Converter"), "odafileconverter");
    assert!(backend_is_oda("ODAFileConverterApp"));
    assert!(backend_is_libredwg("dwg2dxf"));
    assert!(backend_is_freecad("FreeCAD-cmd"));
    assert!(!backend_is_oda("libredwg"));
}

#[test]
fn signatures_are_recognized() {
    assert_eq!(
        detect_signature(b"AC1032\x00\x00rest"),
        Some(("AC1032", "AutoCAD 2018"))
    );
    assert_eq!(detect_signature(b"AC1009"), Some(("AC1009", "AutoCAD R12")));
    assert_eq!(detect_signature(b"AC10"), None);
    assert_eq!(detect_signature(b"XX1032"), None);
    assert_eq!(
        dwg_reference_summary(Some(("AC1015", "AutoCAD 2000"))),
        "DWG reference loaded (AC1015, AutoCAD 2000)."
    );
    assert_eq!(
        dwg_reference_summary(None),
        "DWG reference loaded, but the AutoCAD signature was not recognized."
    );
    assert_eq!(dwg_warnings(None).len(), 3);
    assert_eq!(dwg_warnings(Some(("AC1015", "AutoCAD 2000"))).len(), 2);
}

fn config_with(backend: Option<&str>, path: Option<&str>) -> DwgImportConfig {
    DwgImportConfig {
        path: Some("/home/u/lixcad/settings.toml".to_string()),
        backend: backend.map(|b| b.to_string()),
        converter_path: path.map(|p| p.to_string()),
    }
}

#[test]
fn backend_search_order_and_automatic_flags() {
    let searches = backend_searches(&DwgImportConfig::default());
    let names: Vec<&str> = searches.iter().map(|s| s.name).collect();
    assert_eq!(
        names,
        vec!["ODA File Converter", "LibreDWG dwg2dxf", "LibreDWG dwgread", "FreeCAD"]
    );
    assert!(!searches[0].automatic);
    assert!(searches[1].automatic);
    let oda = backend_searches(&config_with(Some("oda"), None));
    assert!(oda[0].automatic);
    assert!(!oda[1].automatic);
}

#[test]
fn probes_cover_shell_and_fixed_paths() {
    let searches = backend_searches(&DwgImportConfig::default());
    let probes = command_probes(&searches[1], "/home/u");
    let texts: Vec<(bool, String)> = probes
        .iter()
        .map(|p| match p {
            CommandProbe::Shell(c) => (true, c.clone()),
            CommandProbe::File(f) => (false, f.clone()),
        })
        .collect();
    assert_eq!(
        texts,
        vec![
            (true, "dwg2dxf".to_string()),
            (false, "/usr/bin/dwg2dxf".to_string()),
            (false, "/usr/local/bin/dwg2dxf".to_string()),
            (false, "/home/u/.local/bin/dwg2dxf".to_string()),
        ]
    );
    let oda = command_probes(&searches[0], "/home/u");
    assert_eq!(oda.len(), 3 * 4 + 2);
}

#[test]
fn configured_path_wins_when_kind_matches() {
    let config = config_with(Some("oda"), Some("/opt/oda/ODAFileConverter"));
    let searches = backend_searches(&config);
    let usable = make_backend(&searches[0], &config, true, Some("/usr/bin/x".to_string()));
    assert_eq!(usable.command.as_deref(), Some("/opt/oda/ODAFileConverter"));
    assert_eq!(
        usable.source.as_deref(),
        Some("config /home/u/lixcad/settings.toml")
    );
    let unusable = make_backend(&searches[0], &config, false, Some("/usr/bin/x".to_string()));
    assert!(unusable.command.is_none());
    let other = make_backend(&searches[1], &config, true, Some("/usr/bin/dwg2dxf".to_string()));
    assert_eq!(other.command.as_deref(), Some("/usr/bin/dwg2dxf"));
    assert_eq!(other.source.as_deref(), Some("path/fallback"));
}

fn backend(name: &'static str, kind: DwgBackendKind, command: Option<&str>, automatic: bool) -> DwgBackend {
    DwgBackend {
        name,
        kind,
        command: command.map(|c| c.to_string()),
        automatic,
        source: Some("path/fallback".to_string()),
    }
}

fn probe(found: Option<&str>, exists: bool, executable: bool) -> BackendProbe {
    BackendProbe {
        configured_usable: false,
        found: found.map(|f| f.to_string()),
        exists,
        executable,
    }
}

#[test]
fn status_report_lines() {
    let probes = [
        probe(None, false, false),
        probe(Some("/usr/bin/dwg2dxf"), true, true),
        probe(None, false, false),
        probe(None, false, false),
    ];
    let text = converter_status_text(&DwgImportConfig::default(), &probes, "/home/u");
    let expected = "DWG import not configured. Expected /home/u/lixcad/settings.toml with [dwg_import] backend and converter_path.\n\
Detected DWG conversion backends:\n\
- ODA File Converter: not found (detected/configuration only for now; source=path/fallback)\n\
- LibreDWG dwg2dxf: found at /usr/bin/dwg2dxf · exists=true · executable=true (automatic import available; source=path/fallback)\n\
- LibreDWG dwgread: not found (detected/configuration only for now; source=path/fallback)\n\
- FreeCAD: not found (detected/configuration only for now; source=path/fallback)\n\
\n\
Config search paths:\n\
- /home/u/lixcad/settings.toml\n\
- /home/u/.config/lixcad/settings.toml\n\
- /home/u/.config/nodalix-cad/settings.toml\n\
Example:\n[dwg_import]\nbackend = \"oda\"\nconverter_path = \"/usr/bin/oda-file-converter\"";
    assert_eq!(text, expected);
    assert_eq!(dwg_status_report(&DwgImportConfig::default(), &probes, "/home/u"), expected);
    let configured = converter_status_text(&config_with(Some("oda"), None), &probes, "/h");
    assert!(configured.starts_with(
        "DWG import config loaded from /home/u/lixcad/settings.toml\nbackend=oda\nconverter_path=not set\nDetected DWG conversion backends:\n- ODA File Converter:"
    ));
}

#[test]
fn statuses_follow_the_four_backends() {
    let probes = [
        probe(Some("/usr/bin/ODAFileConverter"), true, true),
        probe(None, false, false),
        probe(Some("/usr/bin/dwgread"), true, false),
        probe(None, false, false),
    ];
    let statuses = backend_statuses(&config_with(Some("oda"), None), &probes);
    let names: Vec<&str> = statuses.iter().map(|s| s.backend.name).collect();
    assert_eq!(names, vec!["ODA File Converter", "LibreDWG dwg2dxf", "LibreDWG dwgread", "FreeCAD"]);
    assert!(statuses[0].backend.automatic);
    assert!(!statuses[1].backend.automatic);
    assert_eq!(statuses[0].backend.command.as_deref(), Some("/usr/bin/ODAFileConverter"));
    assert!(statuses[2].exists && !statuses[2].executable);
    assert_eq!(statuses[3].backend.kind, DwgBackendKind::FreeCad);
}

#[test]
fn first_automatic_backend_is_chosen() {
    let backends = vec![
        backend("ODA File Converter", DwgBackendKind::Oda, Some("/usr/bin/oda"), false),
        backend("LibreDWG dwg2dxf", DwgBackendKind::LibreDwg, None, true),
        backend("LibreDWG dwgread", DwgBackendKind::LibreDwg, Some("/usr/bin/dwgread"), true),
    ];
    assert_eq!(automatic_backend(&backends), Some(2));
    assert_eq!(automatic_backend(&backends[..2].to_vec()), None);
}

#[test]
fn unconverted_import_keeps_reference_and_asks_for_setup() {
    let (reference, error) = unconverted_dwg_import("/d/a.dwg", None, "STATUS");
    assert_eq!(reference.format, "DWG");
    assert_eq!(reference.warnings.len(), 4);
    assert_eq!(
        reference.warnings[3],
        "No automatic DWG converter is configured yet."
    );
    assert_eq!(
        error,
        format!("{DWG_SETUP_REQUIRED}\nDWG import uses an external converter internally.\n\nSTATUS")
    );
}

#[test]
fn conversion_commands_per_backend() {
    let libre = backend("LibreDWG dwg2dxf", DwgBackendKind::LibreDwg, Some("/usr/bin/dwg2dxf"), true);
    let c = conversion_command(&libre, "/d/a.dwg", Some("/d"), Some("a.dwg"), "/w", "/w/a.dxf", "S").unwrap();
    assert_eq!(c.program, "/usr/bin/dwg2dxf");
    assert_eq!(c.args, vec!["-o", "/w/a.dxf", "/d/a.dwg"]);
    assert_eq!(
        run_command_message(&c),
        "running DWG converter command: /usr/bin/dwg2dxf -o /w/a.dxf /d/a.dwg"
    );
    let oda = backend("ODA File Converter", DwgBackendKind::Oda, Some("/usr/bin/oda"), true);
    let c = conversion_command(&oda, "/d/a.dwg", Some("/d"), Some("a.dwg"), "/w", "/w/a.dxf", "S").unwrap();
    assert_eq!(c.args, vec!["/d", "/w", "ACAD2018", "DXF", "0", "1", "a.dwg"]);
    assert_eq!(
        conversion_command(&oda, "a.dwg", None, Some("a.dwg"), "/w", "/w/a.dxf", "S").unwrap_err(),
        "DWG path has no parent directory: a.dwg"
    );
    assert_eq!(
        conversion_command(&oda, "/d/..", Some("/d"), None, "/w", "/w/a.dxf", "S").unwrap_err(),
        "DWG path has no valid file name: /d/.."
    );
    let freecad = backend("FreeCAD", DwgBackendKind::FreeCad, Some("/usr/bin/freecad"), true);
    assert_eq!(
        conversion_command(&freecad, "/d/a.dwg", Some("/d"), Some("a.dwg"), "/w", "/w/a.dxf", "S").unwrap_err(),
        "DWG_IMPORT_SETUP_REQUIRED\nFreeCAD was detected, but automatic command wiring for this backend is not enabled yet.\n\nS"
    );
    let missing = backend("LibreDWG dwg2dxf", DwgBackendKind::LibreDwg, None, true);
    assert_eq!(
        conversion_command(&missing, "/d/a.dwg", Some("/d"), Some("a.dwg"), "/w", "/w/a.dxf", "S").unwrap_err(),
        "DWG converter was selected but has no executable path."
    );
    assert_eq!(conversion_output_name(Some("plan")), "plan.dxf");
    assert_eq!(conversion_output_name(None), "drawing.dxf");
}

#[test]
fn conversion_texts() {
    assert_eq!(
        conversion_failed_message("FreeCAD", "/w/conversion.log"),
        "DWG conversion failed with FreeCAD. Log: /w/conversion.log"
    );
    assert_eq!(conversion_log_text("out", "err"), "stdout:\nout\n\nstderr:\nerr");
    assert_eq!(log_line("hello"), "[lixcad-dwg] hello\n");
    let (out, err) = log_command_output("dwg2dxf", "  done \n", "");
    assert_eq!(out, "dwg2dxf stdout: done");
    assert_eq!(err, "dwg2dxf stderr: ");
    let status = BackendStatus {
        backend: backend("LibreDWG dwg2dxf", DwgBackendKind::LibreDwg, Some("/usr/bin/dwg2dxf"), true),
        exists: true,
        executable: false,
    };
    assert_eq!(
        log_backend_status(&status),
        "DWG backend LibreDWG dwg2dxf path=/usr/bin/dwg2dxf exists=true executable=false automatic=true source=path/fallback"
    );
    let missing = BackendStatus {
        backend: DwgBackend { source: None, ..backend("FreeCAD", DwgBackendKind::FreeCad, None, false) },
        exists: false,
        executable: false,
    };
    assert_eq!(
        log_backend_status(&missing),
        "DWG backend FreeCAD not found automatic=false source=unknown"
    );
    assert_eq!(
        config_log_messages(&config_with(None, Some("/x"))),
        vec![
            "DWG import config loaded from /home/u/lixcad/settings.toml".to_string(),
            "backend=not set converter_path=/x".to_string()
        ]
    );
    assert!(config_log_messages(&DwgImportConfig::default()).is_empty());
}

#[test]
fn converted_import_summary_extends_dxf_details() {
    let dxf = ImportSummary {
        file_name: "a.dxf".to_string(),
        format: "DXF".to_string(),
        summary: "s".to_string(),
        details: vec![("Imported entities".to_string(), "3".to_string())],
        warnings: vec!["w".to_string()],
    };
    let (reference, summary) = converted_dwg_import(
        "/d/a.dwg",
        Some("a.dwg"),
        Some(("AC1032", "AutoCAD 2018")),
        "LibreDWG dwg2dxf",
        "/w/a.dxf",
        "/w/conversion.log",
        &dxf,
    );
    assert_eq!(reference.summary, "DWG imported through LibreDWG dwg2dxf -> DXF.");
    assert_eq!(reference.warnings.len(), 2);
    assert_eq!(summary.file_name, "a.dwg");
    assert_eq!(summary.details.len(), 5);
    assert_eq!(
        summary.details[3],
        (
            "Reference".to_string(),
            "DWG reference loaded (AC1032, AutoCAD 2018).".to_string()
        )
    );
    assert_eq!(summary.details[4].0, "Imported entities");
    assert_eq!(summary.warnings, vec!["w".to_string()]);
}

#[test]
fn unconverted_dwg_is_kept_as_a_reference() {
    let mut document = nodalix_cad::document::Document::new_empty();
    let error = nodalix_cad::dwg::keep_unconverted_dwg(&mut document, "/d/a.dwg", None, "STATUS");
    assert!(error.starts_with("DWG_IMPORT_SETUP_REQUIRED\n"));
    assert!(document.modified);
    assert_eq!(document.imported_references.len(), 1);
    let reference = &document.imported_references[0];
    assert_eq!(reference.path, "/d/a.dwg");
    assert_eq!(reference.format, "DWG");
    assert_eq!(
        reference.warnings.last().map(String::as_str),
        Some("No automatic DWG converter is configured yet.")
    );
}
