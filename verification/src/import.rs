//! Importing files: which importer a file extension selects, and the summary
//! that each importer reports. Reading the file and placing geometry in the
//! document is left to the caller.
use vstd::prelude::*;

use crate::document::{
    doc_state, layout_name, normalized_layout_name, reference_state, references_view, DocState,
    Document, ImportedReference,
};
use crate::dxf::pairs_view;
use crate::text::{decimal, decimal_string, lower, lowercase, opt_view, owned, push_str, str_eq};

verus! {

/// What an import reports: the file, its format, a one-line summary,
/// labelled details and warnings.
#[derive(Clone, Debug)]
pub struct ImportSummary {
    pub file_name: String,
    pub format: String,
    pub summary: String,
    pub details: Vec<(String, String)>,
    pub warnings: Vec<String>,
}

/// A summary as character sequences.
pub open spec fn summary_view(s: ImportSummary) -> (
    Seq<char>,
    Seq<char>,
    Seq<char>,
    Seq<(Seq<char>, Seq<char>)>,
    Seq<Seq<char>>,
) {
    (
        s.file_name@,
        s.format@,
        s.summary@,
        pairs_view(s.details@),
        s.warnings@.map_values(|w: String| w@),
    )
}

/// A reference as character sequences.
pub open spec fn reference_view(r: ImportedReference) -> (
    Seq<char>,
    Seq<char>,
    Seq<char>,
    Seq<Seq<char>>,
) {
    (r.path@, r.format@, r.summary@, r.warnings@.map_values(|w: String| w@))
}

/// The file name of a path, or `default` when it has none.
pub open spec fn name_or(name: Option<&str>, default: Seq<char>) -> Seq<char> {
    match name {
        Some(n) => n@,
        None => default,
    }
}

pub fn file_name_or(name: Option<&str>, default: &str) -> (r: String)
    ensures
        r@ == name_or(name, default@),
{
    match name {
        Some(n) => owned(n),
        None => owned(default),
    }
}

// ---------------------------------------------------------------------------
// Formats
// ---------------------------------------------------------------------------

/// The importer that handles a file.
#[derive(Clone, Copy, Debug, PartialEq, Eq, Structural)]
pub enum ImportFormat {
    Step,
    Stl,
    Dxf,
    Dwg,
    Native,
    Obj,
    Ply,
}

/// The importer for a lower-case file extension.
pub open spec fn format_for(ext: Seq<char>) -> Option<ImportFormat> {
    if ext == "step"@ || ext == "stp"@ || ext == "iges"@ || ext == "igs"@ {
        Some(ImportFormat::Step)
    } else if ext == "stl"@ {
        Some(ImportFormat::Stl)
    } else if ext == "dxf"@ {
        Some(ImportFormat::Dxf)
    } else if ext == "dwg"@ {
        Some(ImportFormat::Dwg)
    } else if ext == "nodcad"@ || ext == "lixcad"@ {
        Some(ImportFormat::Native)
    } else if ext == "obj"@ {
        Some(ImportFormat::Obj)
    } else if ext == "ply"@ {
        Some(ImportFormat::Ply)
    } else {
        None
    }
}

/// The importers by extension, without regard to ASCII case: `step`, `stp`,
/// `iges` and `igs` select STEP; `stl` STL; `dxf` DXF; `dwg` DWG; `nodcad`
/// and `lixcad` the native format; `obj` OBJ; `ply` PLY; an extension is
/// refused only when it is none of these.
pub proof fn law_import_formats(ext: Seq<char>)
    ensures
        ({
            let k = lower(ext);
            &&& format_for(k) == Some(ImportFormat::Step) <==> (k == "step"@ || k == "stp"@ || k
                == "iges"@ || k == "igs"@)
            &&& format_for(k) == Some(ImportFormat::Stl) <==> k == "stl"@
            &&& format_for(k) == Some(ImportFormat::Dxf) <==> k == "dxf"@
            &&& format_for(k) == Some(ImportFormat::Dwg) <==> k == "dwg"@
            &&& format_for(k) == Some(ImportFormat::Native) <==> (k == "nodcad"@ || k
                == "lixcad"@)
            &&& format_for(k) == Some(ImportFormat::Obj) <==> k == "obj"@
            &&& format_for(k) == Some(ImportFormat::Ply) <==> k == "ply"@
            &&& format_for(k).is_none() <==> !(k == "step"@ || k == "stp"@ || k == "iges"@ || k
                == "igs"@ || k == "stl"@ || k == "dxf"@ || k == "dwg"@ || k == "nodcad"@ || k
                == "lixcad"@ || k == "obj"@ || k == "ply"@)
        }),
        extension_key(None) == Seq::<char>::empty(),
{
    assert(lower(Seq::<char>::empty()) =~= Seq::<char>::empty());
    reveal_strlit("step");
    reveal_strlit("stp");
    reveal_strlit("iges");
    reveal_strlit("igs");
    reveal_strlit("stl");
    reveal_strlit("dxf");
    reveal_strlit("dwg");
    reveal_strlit("nodcad");
    reveal_strlit("lixcad");
    reveal_strlit("obj");
    reveal_strlit("ply");
    assert("step"@.len() == 4);
    assert("step"@[0] == 's');
    assert("step"@[1] == 't');
    assert("step"@[2] == 'e');
    assert("stp"@.len() == 3);
    assert("stp"@[0] == 's');
    assert("stp"@[1] == 't');
    assert("stp"@[2] == 'p');
    assert("iges"@.len() == 4);
    assert("iges"@[0] == 'i');
    assert("iges"@[1] == 'g');
    assert("iges"@[2] == 'e');
    assert("igs"@.len() == 3);
    assert("igs"@[0] == 'i');
    assert("igs"@[1] == 'g');
    assert("igs"@[2] == 's');
    assert("stl"@.len() == 3);
    assert("stl"@[0] == 's');
    assert("stl"@[1] == 't');
    assert("stl"@[2] == 'l');
    assert("dxf"@.len() == 3);
    assert("dxf"@[0] == 'd');
    assert("dxf"@[1] == 'x');
    assert("dxf"@[2] == 'f');
    assert("dwg"@.len() == 3);
    assert("dwg"@[0] == 'd');
    assert("dwg"@[1] == 'w');
    assert("dwg"@[2] == 'g');
    assert("nodcad"@.len() == 6);
    assert("nodcad"@[0] == 'n');
    assert("nodcad"@[1] == 'o');
    assert("nodcad"@[2] == 'd');
    assert("lixcad"@.len() == 6);
    assert("lixcad"@[0] == 'l');
    assert("lixcad"@[1] == 'i');
    assert("lixcad"@[2] == 'x');
    assert("obj"@.len() == 3);
    assert("obj"@[0] == 'o');
    assert("obj"@[1] == 'b');
    assert("obj"@[2] == 'j');
    assert("ply"@.len() == 3);
    assert("ply"@[0] == 'p');
    assert("ply"@[1] == 'l');
    assert("ply"@[2] == 'y');
}

/// The extension of a path in lower case; a path without one has the empty
/// extension.
pub open spec fn extension_key(extension: Option<&str>) -> Seq<char> {
    lower(name_or(extension, seq![]))
}

/// Chooses the importer by the file's extension, compared without regard to
/// ASCII case; an unknown extension is refused with the message the user
/// sees.
pub fn import_format(extension: Option<&str>) -> (r: Result<ImportFormat, String>)
    ensures
        match r {
            Ok(f) => format_for(extension_key(extension)) == Some(f),
            Err(m) => format_for(extension_key(extension)).is_none() && m@
                == "Unsupported import format: ."@ + extension_key(extension),
        },
{
    let ext = match extension {
        Some(e) => lowercase(e),
        None => String::new(),
    };
    proof {
        assert(ext@ == extension_key(extension));
    }
    let e = ext.as_str();
    if str_eq(e, "step") || str_eq(e, "stp") || str_eq(e, "iges") || str_eq(e, "igs") {
        Ok(ImportFormat::Step)
    } else if str_eq(e, "stl") {
        Ok(ImportFormat::Stl)
    } else if str_eq(e, "dxf") {
        Ok(ImportFormat::Dxf)
    } else if str_eq(e, "dwg") {
        Ok(ImportFormat::Dwg)
    } else if str_eq(e, "nodcad") || str_eq(e, "lixcad") {
        Ok(ImportFormat::Native)
    } else if str_eq(e, "obj") {
        Ok(ImportFormat::Obj)
    } else if str_eq(e, "ply") {
        Ok(ImportFormat::Ply)
    } else {
        let mut m = owned("Unsupported import format: .");
        push_str(&mut m, e);
        Err(m)
    }
}

// ---------------------------------------------------------------------------
// Summaries
// ---------------------------------------------------------------------------

/// The summary of opening a native document with `entities` entities.
pub fn native_open_summary(file_name: Option<&str>, entities: usize) -> (r: ImportSummary)
    ensures
        summary_view(r) == (
            name_or(file_name, "project.nodcad"@),
            "NODCAD"@,
            "Native Nodalix CAD document opened"@,
            seq![("Entities"@, decimal(entities as nat))],
            Seq::<Seq<char>>::empty(),
        ),
{
    let mut details: Vec<(String, String)> = Vec::new();
    details.push((owned("Entities"), decimal_string(entities as u128)));
    let r = ImportSummary {
        file_name: file_name_or(file_name, "project.nodcad"),
        format: owned("NODCAD"),
        summary: owned("Native Nodalix CAD document opened"),
        details,
        warnings: Vec::new(),
    };
    assert(pairs_view(r.details@) =~= seq![("Entities"@, decimal(entities as nat))]);
    assert(r.warnings@.map_values(|w: String| w@) =~= Seq::<Seq<char>>::empty());
    r
}

/// An OBJ file kept as a reference until its geometry can be read: the
/// reference to store and the summary to report.
pub fn import_obj_placeholder(path: &str, file_name: Option<&str>) -> (r: (
    ImportedReference,
    ImportSummary,
))
    ensures
        reference_view(r.0) == (
            path@,
            "OBJ"@,
            "OBJ reference loaded. Geometry parsing is planned."@,
            seq!["OBJ parsing is not implemented yet."@],
        ),
        summary_view(r.1) == (
            name_or(file_name, "model.obj"@),
            "OBJ reference"@,
            "OBJ stored as external reference placeholder."@,
            Seq::<(Seq<char>, Seq<char>)>::empty(),
            seq!["OBJ geometry parsing is planned."@],
        ),
{
    let mut ref_warnings: Vec<String> = Vec::new();
    ref_warnings.push(owned("OBJ parsing is not implemented yet."));
    let mut warnings: Vec<String> = Vec::new();
    warnings.push(owned("OBJ geometry parsing is planned."));
    let reference = ImportedReference {
        path: owned(path),
        format: owned("OBJ"),
        summary: owned("OBJ reference loaded. Geometry parsing is planned."),
        warnings: ref_warnings,
    };
    let summary = ImportSummary {
        file_name: file_name_or(file_name, "model.obj"),
        format: owned("OBJ reference"),
        summary: owned("OBJ stored as external reference placeholder."),
        details: Vec::new(),
        warnings,
    };
    assert(reference.warnings@.map_values(|w: String| w@) =~= seq![
        "OBJ parsing is not implemented yet."@,
    ]);
    assert(summary.warnings@.map_values(|w: String| w@) =~= seq![
        "OBJ geometry parsing is planned."@,
    ]);
    assert(pairs_view(summary.details@) =~= Seq::<(Seq<char>, Seq<char>)>::empty());
    (reference, summary)
}

/// A PLY file kept as a reference until its geometry can be read: the
/// reference to store and the summary to report.
pub fn import_ply_placeholder(path: &str, file_name: Option<&str>) -> (r: (
    ImportedReference,
    ImportSummary,
))
    ensures
        reference_view(r.0) == (
            path@,
            "PLY"@,
            "PLY reference loaded. Geometry parsing is planned."@,
            seq!["PLY parsing is not implemented yet."@],
        ),
        summary_view(r.1) == (
            name_or(file_name, "mesh.ply"@),
            "PLY reference"@,
            "PLY stored as external reference placeholder."@,
            Seq::<(Seq<char>, Seq<char>)>::empty(),
            seq!["PLY geometry parsing is planned."@],
        ),
{
    let mut ref_warnings: Vec<String> = Vec::new();
    ref_warnings.push(owned("PLY parsing is not implemented yet."));
    let mut warnings: Vec<String> = Vec::new();
    warnings.push(owned("PLY geometry parsing is planned."));
    let reference = ImportedReference {
        path: owned(path),
        format: owned("PLY"),
        summary: owned("PLY reference loaded. Geometry parsing is planned."),
        warnings: ref_warnings,
    };
    let summary = ImportSummary {
        file_name: file_name_or(file_name, "mesh.ply"),
        format: owned("PLY reference"),
        summary: owned("PLY stored as external reference placeholder."),
        details: Vec::new(),
        warnings,
    };
    assert(reference.warnings@.map_values(|w: String| w@) =~= seq![
        "PLY parsing is not implemented yet."@,
    ]);
    assert(summary.warnings@.map_values(|w: String| w@) =~= seq![
        "PLY geometry parsing is planned."@,
    ]);
    assert(pairs_view(summary.details@) =~= Seq::<(Seq<char>, Seq<char>)>::empty());
    (reference, summary)
}

/// The summary of an STL import with its triangle count and dimensions text.
pub fn stl_import_summary(file_name: Option<&str>, triangles: usize, dimensions: &str) -> (r:
    ImportSummary)
    ensures
        summary_view(r) == (
            name_or(file_name, "mesh.stl"@),
            "STL mesh"@,
            "STL mesh imported as a mesh reference with metadata and bounding box."@,
            seq![("Triangles"@, decimal(triangles as nat)), ("Dimensions"@, dimensions@)],
            Seq::<Seq<char>>::empty(),
        ),
{
    let mut details: Vec<(String, String)> = Vec::new();
    details.push((owned("Triangles"), decimal_string(triangles as u128)));
    details.push((owned("Dimensions"), owned(dimensions)));
    let r = ImportSummary {
        file_name: file_name_or(file_name, "mesh.stl"),
        format: owned("STL mesh"),
        summary: owned("STL mesh imported as a mesh reference with metadata and bounding box."),
        details,
        warnings: Vec::new(),
    };
    assert(pairs_view(r.details@) =~= seq![
        ("Triangles"@, decimal(triangles as nat)),
        ("Dimensions"@, dimensions@),
    ]);
    assert(r.warnings@.map_values(|w: String| w@) =~= Seq::<Seq<char>>::empty());
    r
}

// ---------------------------------------------------------------------------
// DXF
// ---------------------------------------------------------------------------

/// The names that are not `Model`, in order.
pub open spec fn paper_names(names: Seq<Seq<char>>) -> Seq<Seq<char>>
    decreases names.len(),
{
    if names.len() == 0 {
        seq![]
    } else if names.last() == "Model"@ {
        paper_names(names.drop_last())
    } else {
        paper_names(names.drop_last()).push(names.last())
    }
}

/// The paper layout that entities without their own layout go to: the only
/// paper layout of the file, when there is exactly one.
pub open spec fn single_paper_layout(detected: Seq<Seq<char>>) -> Option<Seq<char>> {
    let papers = paper_names(detected.map_values(|n: Seq<char>| layout_name(n)));
    if papers.len() == 1 {
        Some(papers[0])
    } else {
        None
    }
}

pub fn paper_layout_hint(detected_layouts: &Vec<String>) -> (r: Option<String>)
    ensures
        match r {
            Some(s) => single_paper_layout(detected_layouts@.map_values(|n: String| n@)) == Some(
                s@,
            ),
            None => single_paper_layout(detected_layouts@.map_values(|n: String| n@)).is_none(),
        },
{
    let ghost dv = detected_layouts@.map_values(|n: String| n@);
    let ghost nv = dv.map_values(|n: Seq<char>| layout_name(n));
    let mut papers: Vec<String> = Vec::new();
    let mut i: usize = 0;
    while i < detected_layouts.len()
        invariant
            i <= detected_layouts.len(),
            dv == detected_layouts@.map_values(|n: String| n@),
            nv == dv.map_values(|n: Seq<char>| layout_name(n)),
            papers@.map_values(|n: String| n@) == paper_names(nv.take(i as int)),
        decreases detected_layouts.len() - i,
    {
        let name = normalized_layout_name(detected_layouts[i].as_str());
        proof {
            assert(nv.take(i + 1).drop_last() == nv.take(i as int));
            assert(nv.take(i + 1).last() == name@);
        }
        if !str_eq(name.as_str(), "Model") {
            let ghost before = papers@.map_values(|n: String| n@);
            papers.push(name);
            assert(papers@.map_values(|n: String| n@) =~= before.push(name@));
        }
        i += 1;
    }
    assert(nv.take(detected_layouts.len() as int) == nv);
    if papers.len() == 1 {
        let p = papers[0].clone();
        assert(p@ == papers@.map_values(|n: String| n@)[0]);
        Some(p)
    } else {
        None
    }
}

/// The number of names that are not `Model`.
pub open spec fn count_not_model(names: Seq<Seq<char>>) -> nat
    decreases names.len(),
{
    if names.len() == 0 {
        0
    } else if names.last() == "Model"@ {
        count_not_model(names.drop_last())
    } else {
        count_not_model(names.drop_last()) + 1
    }
}

pub proof fn lemma_count_not_model_bound(names: Seq<Seq<char>>)
    ensures
        count_not_model(names) <= names.len(),
    decreases names.len(),
{
    if names.len() > 0 {
        lemma_count_not_model_bound(names.drop_last());
    }
}

/// The warning that closes every DXF import.
pub open spec fn dxf_scope_warning() -> Seq<char> {
    "DXF import supports LINE, LWPOLYLINE/POLYLINE, CIRCLE, ARC, ELLIPSE, SPLINE, HATCH boundaries, DIMENSION, TEXT and MTEXT in this iteration."@
}

/// The warnings of a DXF import: the `INSERT` entities skipped because
/// neither they nor their block could be read, if any, then the scope note.
pub open spec fn dxf_warnings(skipped_inserts: nat) -> Seq<Seq<char>> {
    if skipped_inserts > 0 {
        seq![
            "Unsupported DXF entities skipped: INSERT x"@ + decimal(skipped_inserts),
            dxf_scope_warning(),
        ]
    } else {
        seq![dxf_scope_warning()]
    }
}

impl Document {
    /// Keeps an imported file as a reference of the document, which then
    /// counts as changed.
    pub fn keep_imported_reference(&mut self, reference: ImportedReference)
        ensures
            doc_state(*final(self)) == (DocState {
                references: doc_state(*old(self)).references.push(reference_state(reference)),
                ..doc_state(*old(self))
            }),
            final(self).modified,
    {
        let ghost before = references_view(self.imported_references@);
        let ghost rv = reference_state(reference);
        self.imported_references.push(reference);
        self.modified = true;
        assert(references_view(self.imported_references@) =~= before.push(rv));
    }
}

/// What the DXF import learned of one entity record: its type in upper
/// case; whether its geometry reads (for an `INSERT`: it names a block and
/// has an insertion point; for a `VIEWPORT`: it has a centre); for an
/// `INSERT`, how many readable entities the block it names holds, if that
/// block is defined; and for a `VIEWPORT`, the paper layout it belongs to.
#[derive(Clone, Debug)]
pub struct ImportedRecord {
    pub entity_type: String,
    pub readable: bool,
    pub block_count: Option<usize>,
    pub viewport_layout: Option<String>,
}

/// `a + b`, or `usize::MAX` when that does not fit.
pub open spec fn saturating_sum(a: int, b: int) -> int {
    if a + b > usize::MAX {
        usize::MAX as int
    } else {
        a + b
    }
}

/// The import's tally after the given records, in turn, starting from the
/// paper layout hint `hint`: the number of imported entities, the number of
/// skipped `INSERT`s, and the paper layout hint in force afterwards.
/// - A `VIEWPORT` on a paper layout whose geometry reads counts once, and its
///   layout becomes the hint.
/// - An `INSERT` whose geometry reads counts once; else one that names a
///   defined block counts as many entities as the block holds; else it is
///   skipped.
/// - Any other record counts once when its geometry reads.
pub open spec fn import_tally(rs: Seq<ImportedRecord>, hint: Option<Seq<char>>) -> (
    int,
    int,
    Option<Seq<char>>,
)
    decreases rs.len(),
{
    if rs.len() == 0 {
        (0, 0, hint)
    } else {
        let prev = import_tally(rs.drop_last(), hint);
        let (n, k, h) = prev;
        let r = rs.last();
        if r.entity_type@ == "VIEWPORT"@ {
            match r.viewport_layout {
                Some(l) => if r.readable {
                    (saturating_sum(n, 1), k, Some(l@))
                } else {
                    prev
                },
                None => prev,
            }
        } else if r.entity_type@ == "INSERT"@ {
            if r.readable {
                (saturating_sum(n, 1), k, h)
            } else {
                match r.block_count {
                    Some(c) => (saturating_sum(n, c as int), k, h),
                    None => (n, k + 1, h),
                }
            }
        } else if r.readable {
            (saturating_sum(n, 1), k, h)
        } else {
            prev
        }
    }
}

/// The outcome of tallying a DXF import: the imported and skipped counts,
/// and for each record the paper layout hint in force when it is read.
#[derive(Clone, Debug)]
pub struct DxfImportTally {
    pub imported: usize,
    pub skipped_inserts: usize,
    pub hints: Vec<Option<String>>,
}

/// Tallies a DXF import's records (see `import_tally`).
pub fn dxf_import_counts(records: &[ImportedRecord], hint: Option<String>) -> (r: DxfImportTally)
    ensures
        r.imported == import_tally(records@, opt_view(hint)).0,
        r.skipped_inserts == import_tally(records@, opt_view(hint)).1,
        r.hints@.len() == records@.len(),
        forall|i: int|
            0 <= i < records@.len() ==> opt_view(#[trigger] r.hints@[i]) == import_tally(
                records@.take(i),
                opt_view(hint),
            ).2,
{
    let ghost h0 = opt_view(hint);
    let mut imported: usize = 0;
    let mut skipped: usize = 0;
    let mut current = hint;
    let mut hints: Vec<Option<String>> = Vec::new();
    let mut i: usize = 0;
    assert(records@.take(0) =~= Seq::<ImportedRecord>::empty());
    while i < records.len()
        invariant
            i <= records@.len(),
            skipped <= i,
            hints@.len() == i,
            (imported as int, skipped as int, opt_view(current)) == import_tally(
                records@.take(i as int),
                h0,
            ),
            forall|j: int|
                0 <= j < i ==> opt_view(#[trigger] hints@[j]) == import_tally(records@.take(j), h0).2,
        decreases records@.len() - i,
    {
        proof {
            assert(records@.take(i + 1).drop_last() == records@.take(i as int));
            assert(records@.take(i + 1).last() == records@[i as int]);
        }
        hints.push(current.clone());
        let r = &records[i];
        if str_eq(r.entity_type.as_str(), "VIEWPORT") {
            match &r.viewport_layout {
                Some(l) => {
                    if r.readable {
                        imported = imported.saturating_add(1);
                        current = Some(l.clone());
                    }
                },
                None => {},
            }
        } else if str_eq(r.entity_type.as_str(), "INSERT") {
            if r.readable {
                imported = imported.saturating_add(1);
            } else {
                match r.block_count {
                    Some(c) => {
                        imported = imported.saturating_add(c);
                    },
                    None => {
                        skipped = skipped + 1;
                    },
                }
            }
        } else if r.readable {
            imported = imported.saturating_add(1);
        }
        i += 1;
    }
    assert(records@.take(records@.len() as int) == records@);
    DxfImportTally { imported, skipped_inserts: skipped, hints }
}

/// The summary of a DXF import: the number of entities imported and of
/// detected layouts other than `Model`.
pub fn dxf_import_summary(
    file_name: Option<&str>,
    imported: usize,
    detected_layouts: &Vec<String>,
    skipped_inserts: usize,
) -> (r: ImportSummary)
    ensures
        summary_view(r) == (
            name_or(file_name, "drawing.dxf"@),
            "DXF"@,
            "DXF import completed for supported 2D entities."@,
            seq![
                ("Imported entities"@, decimal(imported as nat)),
                (
                    "Detected layouts"@,
                    decimal(count_not_model(detected_layouts@.map_values(|n: String| n@))),
                ),
            ],
            dxf_warnings(skipped_inserts as nat),
        ),
{
    let ghost dv = detected_layouts@.map_values(|n: String| n@);
    let mut count: usize = 0;
    let mut i: usize = 0;
    while i < detected_layouts.len()
        invariant
            i <= detected_layouts.len(),
            dv == detected_layouts@.map_values(|n: String| n@),
            count == count_not_model(dv.take(i as int)),
            count <= i,
        decreases detected_layouts.len() - i,
    {
        proof {
            assert(dv.take(i + 1).drop_last() == dv.take(i as int));
            assert(dv.take(i + 1).last() == detected_layouts@[i as int]@);
        }
        if !str_eq(detected_layouts[i].as_str(), "Model") {
            count += 1;
        }
        i += 1;
    }
    assert(dv.take(detected_layouts.len() as int) == dv);
    let mut warnings: Vec<String> = Vec::new();
    if skipped_inserts > 0 {
        let mut w = owned("Unsupported DXF entities skipped: INSERT x");
        let n = decimal_string(skipped_inserts as u128);
        push_str(&mut w, n.as_str());
        warnings.push(w);
    }
    warnings.push(
        owned(
            "DXF import supports LINE, LWPOLYLINE/POLYLINE, CIRCLE, ARC, ELLIPSE, SPLINE, HATCH boundaries, DIMENSION, TEXT and MTEXT in this iteration.",
        ),
    );
    let mut details: Vec<(String, String)> = Vec::new();
    details.push((owned("Imported entities"), decimal_string(imported as u128)));
    details.push((owned("Detected layouts"), decimal_string(count as u128)));
    let r = ImportSummary {
        file_name: file_name_or(file_name, "drawing.dxf"),
        format: owned("DXF"),
        summary: owned("DXF import completed for supported 2D entities."),
        details,
        warnings,
    };
    assert(r.warnings@.map_values(|w: String| w@) =~= dxf_warnings(skipped_inserts as nat));
    assert(pairs_view(r.details@) =~= seq![
        ("Imported entities"@, decimal(imported as nat)),
        ("Detected layouts"@, decimal(count_not_model(dv))),
    ]);
    r
}

/// The summary of a DXF file that has no `ENTITIES` section.
pub fn dxf_summary_without_entities(file_name: Option<&str>) -> (r: ImportSummary)
    ensures
        summary_view(r) == (
            name_or(file_name, "drawing.dxf"@),
            "DXF"@,
            "DXF import completed without an ENTITIES section."@,
            seq![("Imported entities"@, "0"@)],
            seq!["DXF file did not contain an ENTITIES section."@],
        ),
{
    let mut details: Vec<(String, String)> = Vec::new();
    details.push((owned("Imported entities"), owned("0")));
    let mut warnings: Vec<String> = Vec::new();
    warnings.push(owned("DXF file did not contain an ENTITIES section."));
    let r = ImportSummary {
        file_name: file_name_or(file_name, "drawing.dxf"),
        format: owned("DXF"),
        summary: owned("DXF import completed without an ENTITIES section."),
        details,
        warnings,
    };
    assert(pairs_view(r.details@) =~= seq![("Imported entities"@, "0"@)]);
    assert(r.warnings@.map_values(|w: String| w@) =~= seq![
        "DXF file did not contain an ENTITIES section."@,
    ]);
    r
}


// ---------------------------------------------------------------------------
// Printing a summary
// ---------------------------------------------------------------------------

/// The lines that show a summary: `name [format]`, the summary, one
/// `label: value` line per detail and one `warning: ...` line per warning.
pub open spec fn summary_lines(s: ImportSummary) -> Seq<Seq<char>> {
    seq![s.file_name@ + " ["@ + s.format@ + "]"@, s.summary@] + pairs_view(s.details@).map_values(
        |d: (Seq<char>, Seq<char>)| d.0 + ": "@ + d.1,
    ) + s.warnings@.map_values(|w: String| "warning: "@ + w@)
}

pub fn summary_report(summary: &ImportSummary) -> (r: Vec<String>)
    ensures
        r@.map_values(|l: String| l@) == summary_lines(*summary),
{
    let mut r: Vec<String> = Vec::new();
    let mut head = summary.file_name.clone();
    push_str(&mut head, " [");
    push_str(&mut head, summary.format.as_str());
    push_str(&mut head, "]");
    r.push(head);
    r.push(summary.summary.clone());
    let ghost start = r@.map_values(|l: String| l@);
    let ghost dv = pairs_view(summary.details@).map_values(
        |d: (Seq<char>, Seq<char>)| d.0 + ": "@ + d.1,
    );
    let mut i: usize = 0;
    while i < summary.details.len()
        invariant
            i <= summary.details.len(),
            dv == pairs_view(summary.details@).map_values(
                |d: (Seq<char>, Seq<char>)| d.0 + ": "@ + d.1,
            ),
            r@.map_values(|l: String| l@) == start + dv.take(i as int),
        decreases summary.details.len() - i,
    {
        let mut line = summary.details[i].0.clone();
        push_str(&mut line, ": ");
        push_str(&mut line, summary.details[i].1.as_str());
        let ghost before = r@.map_values(|l: String| l@);
        r.push(line);
        proof {
            assert(dv.take(i + 1) == dv.take(i as int).push(dv[i as int]));
            assert(r@.map_values(|l: String| l@) =~= before.push(dv[i as int]));
        }
        i += 1;
    }
    assert(dv.take(summary.details.len() as int) == dv);
    let ghost mid = r@.map_values(|l: String| l@);
    let ghost wv = summary.warnings@.map_values(|w: String| "warning: "@ + w@);
    let mut j: usize = 0;
    while j < summary.warnings.len()
        invariant
            j <= summary.warnings.len(),
            wv == summary.warnings@.map_values(|w: String| "warning: "@ + w@),
            r@.map_values(|l: String| l@) == mid + wv.take(j as int),
        decreases summary.warnings.len() - j,
    {
        let mut line = owned("warning: ");
        push_str(&mut line, summary.warnings[j].as_str());
        let ghost before = r@.map_values(|l: String| l@);
        r.push(line);
        proof {
            assert(wv.take(j + 1) == wv.take(j as int).push(wv[j as int]));
            assert(r@.map_values(|l: String| l@) =~= before.push(wv[j as int]));
        }
        j += 1;
    }
    assert(wv.take(summary.warnings.len() as int) == wv);
    assert(r@.map_values(|l: String| l@) =~= summary_lines(*summary));
    r
}

} // verus!
