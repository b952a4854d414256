use nodalix_cad::drawing_export::{dxf_export_text, svg_export_text, DxfRecord, SvgShape};

fn p(x: &str, y: &str) -> (String, String) {
    (x.to_string(), y.to_string())
}

const HEAD: &str = "0\nSECTION\n2\nHEADER\n9\n$INSUNITS\n70\n4\n0\nENDSEC\n0\nSECTION\n2\nENTITIES\n";
const TAIL: &str = "0\nENDSEC\n0\nEOF\n";

#[test]
fn empty_drawing_has_header_and_empty_entities() {
    assert_eq!(dxf_export_text(&[]), format!("{HEAD}{TAIL}"));
}

#[test]
fn line_and_circle_records() {
    let records = vec![
        DxfRecord::Line { layer: "Default".to_string(), start: p("1", "2"), end: p("3.5", "-4") },
        DxfRecord::Circle { layer: "0".to_string(), center: p("0", "0"), radius: "10".to_string() },
    ];
    let expected = format!(
        "{HEAD}0\nLINE\n8\nDefault\n10\n1\n20\n2\n30\n0\n11\n3.5\n21\n-4\n31\n0\n\
         0\nCIRCLE\n8\n0\n10\n0\n20\n0\n30\n0\n40\n10\n{TAIL}"
    );
    assert_eq!(dxf_export_text(&records), expected);
}

#[test]
fn polylines_splines_and_hatches() {
    let records = vec![
        DxfRecord::Polyline {
            layer: "A".to_string(),
            points: vec![p("0", "0"), p("1", "0")],
            closed: false,
        },
        DxfRecord::Spline { layer: "B".to_string(), control_points: vec![p("2", "3")], closed: true },
        DxfRecord::Hatch { layer: "C".to_string(), boundary: vec![p("0", "0"), p("1", "1"), p("0", "1")] },
    ];
    let expected = format!(
        "{HEAD}0\nLWPOLYLINE\n8\nA\n90\n2\n70\n0\n10\n0\n20\n0\n10\n1\n20\n0\n\
         0\nSPLINE\n8\nB\n70\n1\n71\n3\n72\n0\n73\n1\n74\n0\n10\n2\n20\n3\n30\n0\n\
         0\nLWPOLYLINE\n8\nC\n90\n3\n70\n1\n10\n0\n20\n0\n10\n1\n20\n1\n10\n0\n20\n1\n{TAIL}"
    );
    assert_eq!(dxf_export_text(&records), expected);
}

#[test]
fn text_dimension_point_and_insert_records() {
    let records = vec![
        DxfRecord::Text { layer: "T".to_string(), origin: p("5", "6"), text: "Hola".to_string() },
        DxfRecord::Dimension {
            layer: "Dimensions".to_string(),
            start: p("0", "0"),
            end: p("10", "0"),
            middle: p("5", "0"),
            label: "10.00".to_string(),
        },
        DxfRecord::Point { layer: "P".to_string(), at: p("7", "8") },
        DxfRecord::Insert {
            layer: "0".to_string(),
            name: "DOOR".to_string(),
            at: p("1", "1"),
            scale: "2".to_string(),
            rotation: "90".to_string(),
        },
    ];
    let expected = format!(
        "{HEAD}0\nTEXT\n8\nT\n10\n5\n20\n6\n40\n2.5\n1\nHola\n\
         0\nLINE\n8\nDimensions\n10\n0\n20\n0\n30\n0\n11\n10\n21\n0\n31\n0\n\
         0\nTEXT\n8\nDimensions\n10\n5\n20\n0\n40\n2.5\n1\n10.00\n\
         0\nPOINT\n8\nP\n10\n7\n20\n8\n30\n0\n\
         0\nINSERT\n8\n0\n2\nDOOR\n10\n1\n20\n1\n30\n0\n41\n2\n42\n2\n43\n2\n50\n90\n{TAIL}"
    );
    assert_eq!(dxf_export_text(&records), expected);
}

#[test]
fn svg_shapes_are_written_in_order() {
    let shapes = vec![
        SvgShape::Line { start: p("0", "-0"), end: p("10", "-5") },
        SvgShape::Circle { center: p("1", "-1"), radius: "3".to_string() },
        SvgShape::Polyline { points: vec![p("0", "0"), p("1", "-1"), p("2", "0")], closed: false },
        SvgShape::Polyline { points: vec![p("0", "0")], closed: true },
    ];
    let expected = [
        r#"<svg xmlns="http://www.w3.org/2000/svg" viewBox="-250 -250 500 500">"#,
        r##"<rect x="-250" y="-250" width="500" height="500" fill="#08070d"/>"##,
        r##"<line x1="0" y1="-0" x2="10" y2="-5" stroke="#cba6f7" stroke-width="1"/>"##,
        r##"<circle cx="1" cy="-1" r="3" fill="none" stroke="#cba6f7" stroke-width="1"/>"##,
        r##"<polyline points="0,0 1,-1 2,0" fill="none" stroke="#cba6f7" stroke-width="1"/>"##,
        r##"<polygon points="0,0" fill="none" stroke="#cba6f7" stroke-width="1"/>"##,
        "</svg>",
    ]
    .concat();
    assert_eq!(svg_export_text(&shapes), expected);
}

#[test]
fn empty_svg_has_only_the_background() {
    assert_eq!(
        svg_export_text(&[]),
        [
            r#"<svg xmlns="http://www.w3.org/2000/svg" viewBox="-250 -250 500 500">"#,
            r##"<rect x="-250" y="-250" width="500" height="500" fill="#08070d"/>"##,
            "</svg>",
        ]
        .concat()
    );
}
