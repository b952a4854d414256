use nodalix_cad::stl::{ascii_stl_vertex_fields, binary_stl_triangle_count, looks_ascii_stl};

#[test]
fn ascii_stl_is_recognized() {
    assert!(looks_ascii_stl(b"solid cube\n facet normal 0 0 1\n"));
    assert!(!looks_ascii_stl(b"solid cube\nendsolid\n"));
    assert!(!looks_ascii_stl(b"SOLID facet"));
    let mut late = b"solid x".to_vec();
    late.extend(std::iter::repeat(b' ').take(600));
    late.extend(b"facet");
    assert!(!looks_ascii_stl(&late));
    let mut edge = b"solid".to_vec();
    edge.extend(std::iter::repeat(b' ').take(502));
    edge.extend(b"facet");
    assert_eq!(edge.len(), 512);
    assert!(looks_ascii_stl(&edge));
}

#[test]
fn binary_stl_length_is_checked() {
    assert_eq!(
        binary_stl_triangle_count(&[0u8; 83]),
        Err("Binary STL is too small".to_string())
    );
    let mut one = vec![0u8; 84 + 50];
    one[80] = 1;
    assert_eq!(binary_stl_triangle_count(&one), Ok(1));
    one[80] = 2;
    assert_eq!(
        binary_stl_triangle_count(&one),
        Err("Binary STL is truncated".to_string())
    );
    let mut big = vec![0u8; 84];
    big[81] = 1;
    assert_eq!(
        binary_stl_triangle_count(&big),
        Err("Binary STL is truncated".to_string())
    );
    assert_eq!(binary_stl_triangle_count(&[0u8; 84]), Ok(0));
}

#[test]
fn vertex_lines_are_collected() {
    let text = "solid t\nfacet normal 0 0 1\n outer loop\n  vertex 0 0 0\n  VERTEX 1 0 0\n  vertex 0 1\n  vertex 0 1 0 extra\n  Vertex 0 1 0\n endloop\nendfacet\n";
    let fields = ascii_stl_vertex_fields(text);
    assert_eq!(
        fields,
        vec![
            ("0".to_string(), "0".to_string(), "0".to_string()),
            ("1".to_string(), "0".to_string(), "0".to_string()),
            ("0".to_string(), "1".to_string(), "0".to_string()),
        ]
    );
}
