//! The text of a drawing written as DXF or as SVG. Coordinates reach these
//! writers already written out as numbers, so what is stated here is the
//! file format: which records and group codes each kind of entity gives, in
//! which order, and the framing of the whole file.
use vstd::prelude::*;

use crate::text::{decimal, decimal_string, owned, push_str};

verus! {

/// A point as the writers take it: its x and y already written out.
pub type NumberPair = (String, String);

/// A drawing entity as the DXF writer takes it.
pub enum DxfRecord {
    Line { layer: String, start: NumberPair, end: NumberPair },
    Polyline { layer: String, points: Vec<NumberPair>, closed: bool },
    Spline { layer: String, control_points: Vec<NumberPair>, closed: bool },
    Circle { layer: String, center: NumberPair, radius: String },
    Text { layer: String, origin: NumberPair, text: String },
    /// A dimension: its measured line and its label at `middle`.
    Dimension { layer: String, start: NumberPair, end: NumberPair, middle: NumberPair, label: String },
    Point { layer: String, at: NumberPair },
    /// A hatch, written as the closed outline of its boundary.
    Hatch { layer: String, boundary: Vec<NumberPair> },
    /// A block reference; its scale is written for x, y and z alike.
    Insert { layer: String, name: String, at: NumberPair, scale: String, rotation: String },
}

/// `0 LINE` with its layer and both end points (z written as 0).
pub open spec fn line_text(layer: Seq<char>, s: NumberPair, e: NumberPair) -> Seq<char> {
    "0\nLINE\n8\n"@ + layer + "\n10\n"@ + s.0@ + "\n20\n"@ + s.1@ + "\n30\n0\n11\n"@ + e.0@
        + "\n21\n"@ + e.1@ + "\n31\n0\n"@
}

/// `0 TEXT` with its layer, origin, the height 2.5 and the text.
pub open spec fn text_text(layer: Seq<char>, o: NumberPair, text: Seq<char>) -> Seq<char> {
    "0\nTEXT\n8\n"@ + layer + "\n10\n"@ + o.0@ + "\n20\n"@ + o.1@ + "\n40\n2.5\n1\n"@ + text
        + "\n"@
}

/// Group codes 10 and 20 for each vertex.
pub open spec fn vertices_text(ps: Seq<NumberPair>) -> Seq<char>
    decreases ps.len(),
{
    if ps.len() == 0 {
        seq![]
    } else {
        vertices_text(ps.drop_last()) + "10\n"@ + ps.last().0@ + "\n20\n"@ + ps.last().1@ + "\n"@
    }
}

/// Group codes 10, 20 and 30 (z = 0) for each control point.
pub open spec fn control_points_text(ps: Seq<NumberPair>) -> Seq<char>
    decreases ps.len(),
{
    if ps.len() == 0 {
        seq![]
    } else {
        control_points_text(ps.drop_last()) + "10\n"@ + ps.last().0@ + "\n20\n"@ + ps.last().1@
            + "\n30\n0\n"@
    }
}

pub open spec fn flag(b: bool) -> Seq<char> {
    if b {
        "1"@
    } else {
        "0"@
    }
}

/// `0 LWPOLYLINE` with its layer, vertex count, closed flag and vertices.
pub open spec fn polyline_text(layer: Seq<char>, ps: Seq<NumberPair>, closed: bool) -> Seq<char> {
    "0\nLWPOLYLINE\n"@ + "8\n"@ + layer + "\n90\n"@ + decimal(ps.len()) + "\n70\n"@ + flag(closed)
        + "\n"@ + vertices_text(ps)
}

/// The DXF text of one entity.
pub open spec fn record_text(r: DxfRecord) -> Seq<char> {
    match r {
        DxfRecord::Line { layer, start, end } => line_text(layer@, start, end),
        DxfRecord::Polyline { layer, points, closed } => polyline_text(layer@, points@, closed),
        DxfRecord::Spline { layer, control_points, closed } => "0\nSPLINE\n8\n"@ + layer@
            + "\n70\n"@ + flag(closed) + "\n71\n3\n72\n0\n73\n"@ + decimal(control_points@.len())
            + "\n74\n0\n"@ + control_points_text(control_points@),
        DxfRecord::Circle { layer, center, radius } => "0\nCIRCLE\n8\n"@ + layer@ + "\n10\n"@
            + center.0@ + "\n20\n"@ + center.1@ + "\n30\n0\n40\n"@ + radius@ + "\n"@,
        DxfRecord::Text { layer, origin, text } => text_text(layer@, origin, text@),
        DxfRecord::Dimension { layer, start, end, middle, label } => line_text(layer@, start, end)
            + text_text(layer@, middle, label@),
        DxfRecord::Point { layer, at } => "0\nPOINT\n8\n"@ + layer@ + "\n10\n"@ + at.0@ + "\n20\n"@
            + at.1@ + "\n30\n0\n"@,
        DxfRecord::Hatch { layer, boundary } => polyline_text(layer@, boundary@, true),
        DxfRecord::Insert { layer, name, at, scale, rotation } => "0\nINSERT\n8\n"@ + layer@
            + "\n2\n"@ + name@ + "\n10\n"@ + at.0@ + "\n20\n"@ + at.1@ + "\n30\n0\n41\n"@ + scale@
            + "\n42\n"@ + scale@ + "\n43\n"@ + scale@ + "\n50\n"@ + rotation@ + "\n"@,
    }
}

/// The DXF text of the entities, one after the other.
pub open spec fn records_text(rs: Seq<DxfRecord>) -> Seq<char>
    decreases rs.len(),
{
    if rs.len() == 0 {
        seq![]
    } else {
        records_text(rs.drop_last()) + record_text(rs.last())
    }
}

/// A DXF file: a header that sets millimetres (`$INSUNITS` 4), the
/// entities section, and the end of file.
pub open spec fn dxf_file_text(rs: Seq<DxfRecord>) -> Seq<char> {
    "0\nSECTION\n2\nHEADER\n9\n$INSUNITS\n70\n4\n0\nENDSEC\n"@ + "0\nSECTION\n2\nENTITIES\n"@
        + records_text(rs) + "0\nENDSEC\n0\nEOF\n"@
}

fn flag_text(b: bool) -> (r: &'static str)
    ensures
        r@ == flag(b),
{
    if b {
        "1"
    } else {
        "0"
    }
}

fn push_line(out: &mut String, layer: &String, s: &NumberPair, e: &NumberPair)
    ensures
        final(out)@ == old(out)@ + line_text(layer@, *s, *e),
{
    let ghost o = out@;
    push_str(out, "0\nLINE\n8\n");
    push_str(out, layer.as_str());
    push_str(out, "\n10\n");
    push_str(out, s.0.as_str());
    push_str(out, "\n20\n");
    push_str(out, s.1.as_str());
    push_str(out, "\n30\n0\n11\n");
    push_str(out, e.0.as_str());
    push_str(out, "\n21\n");
    push_str(out, e.1.as_str());
    push_str(out, "\n31\n0\n");
    assert(out@ =~= o + line_text(layer@, *s, *e));
}

fn push_text(out: &mut String, layer: &String, o: &NumberPair, text: &String)
    ensures
        final(out)@ == old(out)@ + text_text(layer@, *o, text@),
{
    let ghost before = out@;
    push_str(out, "0\nTEXT\n8\n");
    push_str(out, layer.as_str());
    push_str(out, "\n10\n");
    push_str(out, o.0.as_str());
    push_str(out, "\n20\n");
    push_str(out, o.1.as_str());
    push_str(out, "\n40\n2.5\n1\n");
    push_str(out, text.as_str());
    push_str(out, "\n");
    assert(out@ =~= before + text_text(layer@, *o, text@));
}

fn push_vertices(out: &mut String, ps: &Vec<NumberPair>, with_z: bool)
    ensures
        with_z ==> final(out)@ == old(out)@ + control_points_text(ps@),
        !with_z ==> final(out)@ == old(out)@ + vertices_text(ps@),
{
    let ghost start = out@;
    let mut i: usize = 0;
    while i < ps.len()
        invariant
            i <= ps@.len(),
            with_z ==> out@ == start + control_points_text(ps@.take(i as int)),
            !with_z ==> out@ == start + vertices_text(ps@.take(i as int)),
        decreases ps@.len() - i,
    {
        proof {
            assert(ps@.take(i + 1).drop_last() == ps@.take(i as int));
            assert(ps@.take(i + 1).last() == ps@[i as int]);
        }
        let ghost before = out@;
        push_str(out, "10\n");
        push_str(out, ps[i].0.as_str());
        push_str(out, "\n20\n");
        push_str(out, ps[i].1.as_str());
        if with_z {
            push_str(out, "\n30\n0\n");
            assert(out@ =~= start + control_points_text(ps@.take(i + 1)));
        } else {
            push_str(out, "\n");
            assert(out@ =~= start + vertices_text(ps@.take(i + 1)));
        }
        i += 1;
    }
    assert(ps@.take(ps@.len() as int) == ps@);
}

fn push_polyline(out: &mut String, layer: &String, ps: &Vec<NumberPair>, closed: bool)
    ensures
        final(out)@ == old(out)@ + polyline_text(layer@, ps@, closed),
{
    let ghost before = out@;
    push_str(out, "0\nLWPOLYLINE\n");
    push_str(out, "8\n");
    push_str(out, layer.as_str());
    push_str(out, "\n90\n");
    let n = decimal_string(ps.len() as u128);
    push_str(out, n.as_str());
    push_str(out, "\n70\n");
    push_str(out, flag_text(closed));
    push_str(out, "\n");
    let ghost mid = out@;
    push_vertices(out, ps, false);
    assert(out@ =~= before + polyline_text(layer@, ps@, closed));
}

/// Appends the DXF text of one entity.
fn push_record(out: &mut String, r: &DxfRecord)
    ensures
        final(out)@ == old(out)@ + record_text(*r),
{
    let ghost before = out@;
    match r {
        DxfRecord::Line { layer, start, end } => push_line(out, layer, start, end),
        DxfRecord::Polyline { layer, points, closed } => push_polyline(out, layer, points, *closed),
        DxfRecord::Spline { layer, control_points, closed } => {
            push_str(out, "0\nSPLINE\n8\n");
            push_str(out, layer.as_str());
            push_str(out, "\n70\n");
            push_str(out, flag_text(*closed));
            push_str(out, "\n71\n3\n72\n0\n73\n");
            let n = decimal_string(control_points.len() as u128);
            push_str(out, n.as_str());
            push_str(out, "\n74\n0\n");
            push_vertices(out, control_points, true);
            assert(out@ =~= before + record_text(*r));
        },
        DxfRecord::Circle { layer, center, radius } => {
            push_str(out, "0\nCIRCLE\n8\n");
            push_str(out, layer.as_str());
            push_str(out, "\n10\n");
            push_str(out, center.0.as_str());
            push_str(out, "\n20\n");
            push_str(out, center.1.as_str());
            push_str(out, "\n30\n0\n40\n");
            push_str(out, radius.as_str());
            push_str(out, "\n");
            assert(out@ =~= before + record_text(*r));
        },
        DxfRecord::Text { layer, origin, text } => push_text(out, layer, origin, text),
        DxfRecord::Dimension { layer, start, end, middle, label } => {
            push_line(out, layer, start, end);
            push_text(out, layer, middle, label);
            assert(out@ =~= before + record_text(*r));
        },
        DxfRecord::Point { layer, at } => {
            push_str(out, "0\nPOINT\n8\n");
            push_str(out, layer.as_str());
            push_str(out, "\n10\n");
            push_str(out, at.0.as_str());
            push_str(out, "\n20\n");
            push_str(out, at.1.as_str());
            push_str(out, "\n30\n0\n");
            assert(out@ =~= before + record_text(*r));
        },
        DxfRecord::Hatch { layer, boundary } => push_polyline(out, layer, boundary, true),
        DxfRecord::Insert { layer, name, at, scale, rotation } => {
            push_str(out, "0\nINSERT\n8\n");
            push_str(out, layer.as_str());
            push_str(out, "\n2\n");
            push_str(out, name.as_str());
            push_str(out, "\n10\n");
            push_str(out, at.0.as_str());
            push_str(out, "\n20\n");
            push_str(out, at.1.as_str());
            push_str(out, "\n30\n0\n41\n");
            push_str(out, scale.as_str());
            push_str(out, "\n42\n");
            push_str(out, scale.as_str());
            push_str(out, "\n43\n");
            push_str(out, scale.as_str());
            push_str(out, "\n50\n");
            push_str(out, rotation.as_str());
            push_str(out, "\n");
            assert(out@ =~= before + record_text(*r));
        },
    }
}

/// The DXF file of a drawing's entities (see `dxf_file_text`).
pub fn dxf_export_text(records: &[DxfRecord]) -> (r: String)
    ensures
        r@ == dxf_file_text(records@),
{
    let mut out = owned("0\nSECTION\n2\nHEADER\n9\n$INSUNITS\n70\n4\n0\nENDSEC\n");
    push_str(&mut out, "0\nSECTION\n2\nENTITIES\n");
    let ghost head = out@;
    let mut i: usize = 0;
    assert(records@.take(0) =~= Seq::<DxfRecord>::empty());
    while i < records.len()
        invariant
            i <= records@.len(),
            out@ == head + records_text(records@.take(i as int)),
        decreases records@.len() - i,
    {
        proof {
            assert(records@.take(i + 1).drop_last() == records@.take(i as int));
            assert(records@.take(i + 1).last() == records@[i as int]);
        }
        push_record(&mut out, &records[i]);
        assert(out@ =~= head + records_text(records@.take(i + 1)));
        i += 1;
    }
    assert(records@.take(records@.len() as int) == records@);
    push_str(&mut out, "0\nENDSEC\n0\nEOF\n");
    assert(out@ =~= dxf_file_text(records@));
    out
}

/// A drawing entity as the SVG writer takes it: lines, circles and
/// polylines are the entities an SVG export draws, with y already turned to
/// point down the page.
pub enum SvgShape {
    Line { start: NumberPair, end: NumberPair },
    Circle { center: NumberPair, radius: String },
    Polyline { points: Vec<NumberPair>, closed: bool },
}

/// The stroke that every SVG shape is drawn with.
pub open spec fn svg_stroke() -> Seq<char> {
    " stroke=\"#cba6f7\" stroke-width=\"1\"/>"@
}

/// The points of a polyline as `x,y`, separated by single spaces.
pub open spec fn svg_points(ps: Seq<NumberPair>) -> Seq<char>
    decreases ps.len(),
{
    if ps.len() == 0 {
        seq![]
    } else if ps.len() == 1 {
        ps[0].0@ + ","@ + ps[0].1@
    } else {
        svg_points(ps.drop_last()) + " "@ + ps.last().0@ + ","@ + ps.last().1@
    }
}

/// The SVG element of one shape: a closed polyline is a `polygon`.
pub open spec fn shape_text(s: SvgShape) -> Seq<char> {
    match s {
        SvgShape::Line { start, end } => "<line x1=\""@ + start.0@ + "\" y1=\""@ + start.1@
            + "\" x2=\""@ + end.0@ + "\" y2=\""@ + end.1@ + "\""@ + svg_stroke(),
        SvgShape::Circle { center, radius } => "<circle cx=\""@ + center.0@ + "\" cy=\""@
            + center.1@ + "\" r=\""@ + radius@ + "\" fill=\"none\""@ + svg_stroke(),
        SvgShape::Polyline { points, closed } => "<"@ + (if closed {
            "polygon"@
        } else {
            "polyline"@
        }) + " points=\""@ + svg_points(points@) + "\" fill=\"none\""@ + svg_stroke(),
    }
}

pub open spec fn shapes_text(ss: Seq<SvgShape>) -> Seq<char>
    decreases ss.len(),
{
    if ss.len() == 0 {
        seq![]
    } else {
        shapes_text(ss.drop_last()) + shape_text(ss.last())
    }
}

/// An SVG file: a 500 by 500 view centred on the origin on a dark
/// background, then the shapes.
pub open spec fn svg_file_text(ss: Seq<SvgShape>) -> Seq<char> {
    "<svg xmlns=\"http://www.w3.org/2000/svg\" viewBox=\"-250 -250 500 500\">"@
        + "<rect x=\"-250\" y=\"-250\" width=\"500\" height=\"500\" fill=\"#08070d\"/>"@
        + shapes_text(ss) + "</svg>"@
}

fn push_svg_points(out: &mut String, ps: &Vec<NumberPair>)
    ensures
        final(out)@ == old(out)@ + svg_points(ps@),
{
    let ghost start = out@;
    let mut i: usize = 0;
    while i < ps.len()
        invariant
            i <= ps@.len(),
            out@ == start + svg_points(ps@.take(i as int)),
        decreases ps@.len() - i,
    {
        proof {
            assert(ps@.take(i + 1).drop_last() == ps@.take(i as int));
            assert(ps@.take(i + 1).last() == ps@[i as int]);
            assert(ps@.take(i + 1)[0] == ps@[0]);
        }
        if i > 0 {
            push_str(out, " ");
        }
        push_str(out, ps[i].0.as_str());
        push_str(out, ",");
        push_str(out, ps[i].1.as_str());
        assert(out@ =~= start + svg_points(ps@.take(i + 1)));
        i += 1;
    }
    assert(ps@.take(ps@.len() as int) == ps@);
}

fn push_shape(out: &mut String, s: &SvgShape)
    ensures
        final(out)@ == old(out)@ + shape_text(*s),
{
    let ghost before = out@;
    match s {
        SvgShape::Line { start, end } => {
            push_str(out, "<line x1=\"");
            push_str(out, start.0.as_str());
            push_str(out, "\" y1=\"");
            push_str(out, start.1.as_str());
            push_str(out, "\" x2=\"");
            push_str(out, end.0.as_str());
            push_str(out, "\" y2=\"");
            push_str(out, end.1.as_str());
            push_str(out, "\"");
        },
        SvgShape::Circle { center, radius } => {
            push_str(out, "<circle cx=\"");
            push_str(out, center.0.as_str());
            push_str(out, "\" cy=\"");
            push_str(out, center.1.as_str());
            push_str(out, "\" r=\"");
            push_str(out, radius.as_str());
            push_str(out, "\" fill=\"none\"");
        },
        SvgShape::Polyline { points, closed } => {
            push_str(out, "<");
            if *closed {
                push_str(out, "polygon");
            } else {
                push_str(out, "polyline");
            }
            push_str(out, " points=\"");
            push_svg_points(out, points);
            push_str(out, "\" fill=\"none\"");
        },
    }
    push_str(out, " stroke=\"#cba6f7\" stroke-width=\"1\"/>");
    assert(out@ =~= before + shape_text(*s));
}

/// The SVG file of a drawing's shapes (see `svg_file_text`).
pub fn svg_export_text(shapes: &[SvgShape]) -> (r: String)
    ensures
        r@ == svg_file_text(shapes@),
{
    let mut out = owned("<svg xmlns=\"http://www.w3.org/2000/svg\" viewBox=\"-250 -250 500 500\">");
    push_str(
        &mut out,
        "<rect x=\"-250\" y=\"-250\" width=\"500\" height=\"500\" fill=\"#08070d\"/>",
    );
    let ghost head = out@;
    let mut i: usize = 0;
    assert(shapes@.take(0) =~= Seq::<SvgShape>::empty());
    while i < shapes.len()
        invariant
            i <= shapes@.len(),
            out@ == head + shapes_text(shapes@.take(i as int)),
        decreases shapes@.len() - i,
    {
        proof {
            assert(shapes@.take(i + 1).drop_last() == shapes@.take(i as int));
            assert(shapes@.take(i + 1).last() == shapes@[i as int]);
        }
        push_shape(&mut out, &shapes[i]);
        assert(out@ =~= head + shapes_text(shapes@.take(i + 1)));
        i += 1;
    }
    assert(shapes@.take(shapes@.len() as int) == shapes@);
    push_str(&mut out, "</svg>");
    assert(out@ =~= svg_file_text(shapes@));
    out
}

} // verus!
