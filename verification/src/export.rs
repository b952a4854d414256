//! Export paths and the DWG export bridge. Writing files, probing for
//! programs and reading the environment are left to the caller, which hands
//! in what it found.
use vstd::prelude::*;

use crate::commands::PdfExportTarget;
use crate::document::Document;
use crate::dwg::join_path;
use crate::dwg::join_path_string;
use crate::import::{file_name_or, name_or};
use crate::text::{decimal, decimal_string, owned, push_str};

verus! {

/// Where a PDF export goes by default: `Documents/lixcad-export.pdf` in the
/// home directory when that folder exists or can be made, else
/// `lixcad-export.pdf` in the home directory, and in the working directory
/// when there is no home directory.
pub open spec fn default_pdf_path(home: Option<Seq<char>>, documents_usable: bool) -> Seq<char> {
    match home {
        Some(h) => if documents_usable {
            join_path(join_path(h, "Documents"@), "lixcad-export.pdf"@)
        } else {
            join_path(h, "lixcad-export.pdf"@)
        },
        None => "lixcad-export.pdf"@,
    }
}

/// The default PDF export path, given the home directory (if set) and
/// whether its `Documents` folder exists or could be made.
pub fn default_export_path(home: Option<&str>, documents_usable: bool) -> (r: String)
    ensures
        r@ == default_pdf_path(
            match home {
                Some(h) => Some(h@),
                None => None,
            },
            documents_usable,
        ),
{
    match home {
        Some(h) => {
            if documents_usable {
                let docs = join_path_string(h, "Documents");
                join_path_string(docs.as_str(), "lixcad-export.pdf")
            } else {
                join_path_string(h, "lixcad-export.pdf")
            }
        },
        None => owned("lixcad-export.pdf"),
    }
}

/// The programs a DWG export looks for, in order: the ODA File Converter
/// and LibreDWG's `dwg2dxf`.
pub open spec fn export_converter(oda_found: bool, dwg2dxf_found: bool) -> Option<Seq<char>> {
    if oda_found {
        Some("ODAFileConverter"@)
    } else if dwg2dxf_found {
        Some("dwg2dxf"@)
    } else {
        None
    }
}

/// The converter a DWG export would use: the first of `ODAFileConverter` and
/// `dwg2dxf` that the shell finds.
pub fn detected_converter(oda_found: bool, dwg2dxf_found: bool) -> (r: Option<String>)
    ensures
        match r {
            Some(s) => export_converter(oda_found, dwg2dxf_found) == Some(s@),
            None => export_converter(oda_found, dwg2dxf_found).is_none(),
        },
{
    if oda_found {
        Some(owned("ODAFileConverter"))
    } else if dwg2dxf_found {
        Some(owned("dwg2dxf"))
    } else {
        None
    }
}

/// The DXF file a DWG export writes first: `<stem>-<millis>.dxf` in the
/// temporary directory, with `nodecad-export` for a target without a stem.
pub fn intermediate_dxf_path(temp_dir: &str, stem: Option<&str>, millis: u128) -> (r: String)
    ensures
        r@ == join_path(
            temp_dir@,
            name_or(stem, "nodecad-export"@) + "-"@ + decimal(millis as nat) + ".dxf"@,
        ),
{
    let mut name = file_name_or(stem, "nodecad-export");
    push_str(&mut name, "-");
    let stamp = decimal_string(millis);
    push_str(&mut name, stamp.as_str());
    push_str(&mut name, ".dxf");
    join_path_string(temp_dir, name.as_str())
}

/// The outcome of a DWG export, which always stops after writing the DXF
/// file: the message names the converter found, if any, and where the DXF
/// file was written.
pub fn dwg_export_error(converter: Option<&str>, intermediate: &str) -> (r: String)
    ensures
        r@ == match converter {
            Some(c) => "DWG export bridge found `"@ + c@
                + "`, but automatic conversion is not wired yet. DXF intermediate was written to "@
                + intermediate@ + "."@,
            None => "DWG export needs an optional DWG converter. DXF intermediate was written to "@
                + intermediate@
                + ". Install ODA File Converter or LibreDWG, then convert this DXF to DWG."@,
        },
{
    match converter {
        Some(c) => {
            let mut m = owned("DWG export bridge found `");
            push_str(&mut m, c);
            push_str(
                &mut m,
                "`, but automatic conversion is not wired yet. DXF intermediate was written to ",
            );
            push_str(&mut m, intermediate);
            push_str(&mut m, ".");
            m
        },
        None => {
            let mut m = owned(
                "DWG export needs an optional DWG converter. DXF intermediate was written to ",
            );
            push_str(&mut m, intermediate);
            push_str(
                &mut m,
                ". Install ODA File Converter or LibreDWG, then convert this DXF to DWG.",
            );
            m
        },
    }
}

/// The layout a PDF export draws: the model space for a model-space
/// export, and the active layout otherwise.
pub fn resolve_layout_name(document: &Document, target: PdfExportTarget) -> (r: String)
    ensures
        r@ == match target {
            PdfExportTarget::ModelSpace => "Model"@,
            _ => document.active_layout@,
        },
{
    match target {
        PdfExportTarget::ModelSpace => owned("Model"),
        PdfExportTarget::ActiveLayout | PdfExportTarget::ActiveView => document.active_layout.clone(),
    }
}

} // verus!
