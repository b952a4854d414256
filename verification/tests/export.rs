use nodalix_cad::export::{
    default_export_path, detected_converter, dwg_export_error, intermediate_dxf_path,
};

#[test]
fn default_pdf_path() {
    assert_eq!(
        default_export_path(Some("/home/u"), true),
        "/home/u/Documents/lixcad-export.pdf"
    );
    assert_eq!(default_export_path(Some("/home/u"), false), "/home/u/lixcad-export.pdf");
    assert_eq!(default_export_path(None, true), "lixcad-export.pdf");
}

#[test]
fn dwg_export_bridge() {
    assert_eq!(detected_converter(true, true).as_deref(), Some("ODAFileConverter"));
    assert_eq!(detected_converter(false, true).as_deref(), Some("dwg2dxf"));
    assert_eq!(detected_converter(false, false), None);
    assert_eq!(
        intermediate_dxf_path("/tmp", Some("plan"), 42),
        "/tmp/plan-42.dxf"
    );
    assert_eq!(
        intermediate_dxf_path("/tmp/", None, 7),
        "/tmp/nodecad-export-7.dxf"
    );
    assert_eq!(
        dwg_export_error(Some("dwg2dxf"), "/tmp/a.dxf"),
        "DWG export bridge found `dwg2dxf`, but automatic conversion is not wired yet. DXF intermediate was written to /tmp/a.dxf."
    );
    assert_eq!(
        dwg_export_error(None, "/tmp/a.dxf"),
        "DWG export needs an optional DWG converter. DXF intermediate was written to /tmp/a.dxf. Install ODA File Converter or LibreDWG, then convert this DXF to DWG."
    );
}

#[test]
fn pdf_export_draws_the_model_or_the_active_layout() {
    let mut document = nodalix_cad::document::Document::new_empty();
    document.set_active_layout("Layout1");
    assert_eq!(
        nodalix_cad::export::resolve_layout_name(&document, nodalix_cad::commands::PdfExportTarget::ModelSpace),
        "Model"
    );
    assert_eq!(
        nodalix_cad::export::resolve_layout_name(&document, nodalix_cad::commands::PdfExportTarget::ActiveLayout),
        "Layout1"
    );
    assert_eq!(
        nodalix_cad::export::resolve_layout_name(&document, nodalix_cad::commands::PdfExportTarget::ActiveView),
        "Layout1"
    );
}
