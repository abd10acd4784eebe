use termframe::structures::{FormatErrorKind, LoadError, Mesh};

fn lines(v: &[&str]) -> Vec<String> {
    v.iter().map(|s| s.to_string()).collect()
}

#[test]
fn roundtrip_counts_and_zero_based_indices() {
    let m = Mesh::from_lines(&lines(&[
        "o tri",
        "v 0.0 0.0 0.0",
        "v 1.0 0.0 0.0",
        "v 0.0 1.0 0.0",
        "vn 0.0 0.0 1.0",
        "f 1//1 2//1 3//1",
    ]))
    .unwrap();
    assert_eq!(m.name, "tri");
    assert_eq!(m.vertices.len(), 3);
    assert_eq!(m.faces.len(), 1);
    assert_eq!(m.faces[0].vertices, [0, 1, 2]);
    for f in &m.faces {
        for &ix in f.vertices.iter() {
            assert!(ix < m.vertices.len());
        }
    }
}

#[test]
fn coordinates_keep_their_tokens() {
    let m = Mesh::from_lines(&lines(&["v 1.5 -2.25 3e2"])).unwrap();
    assert_eq!(m.vertices[0].x, "1.5");
    assert_eq!(m.vertices[0].y, "-2.25");
    assert_eq!(m.vertices[0].z, "3e2");
    assert_eq!(m.vertices[0].x.parse::<f64>().unwrap(), 1.5);
    assert_eq!(m.vertices[0].y.parse::<f64>().unwrap(), -2.25);
    assert_eq!(m.vertices[0].z.parse::<f64>().unwrap(), 300.0);
}

#[test]
fn unrecognized_records_are_ignored() {
    let m = Mesh::from_lines(&lines(&[
        "# comment",
        "",
        "mtllib whatever.mtl",
        "v 0 1 2",
        "s off",
    ]))
    .unwrap();
    assert_eq!(m.vertices.len(), 1);
    assert_eq!(m.faces.len(), 0);
    assert_eq!(m.name, "");
}

#[test]
fn face_keeps_only_last_normal() {
    let m = Mesh::from_lines(&lines(&[
        "v 0 0 0",
        "v 1 0 0",
        "v 0 1 0",
        "vn 9 9 9",
        "vn 7 7 7",
        "f 1//1 2//1 3//2",
    ]))
    .unwrap();
    assert_eq!(m.faces[0].normal.x, "7");
    assert_eq!(m.faces[0].normal.y, "7");
    assert_eq!(m.faces[0].normal.z, "7");
}

#[test]
fn missing_name_field_fails() {
    let r = Mesh::from_lines(&lines(&["o"]));
    assert_eq!(r.err().unwrap(), LoadError::Format(1, FormatErrorKind::MissingField));
}

#[test]
fn short_vertex_record_fails() {
    let r = Mesh::from_lines(&lines(&["v 1 2"]));
    assert_eq!(r.err().unwrap(), LoadError::Format(1, FormatErrorKind::MissingField));
}

#[test]
fn malformed_number_fails_on_its_line() {
    let r = Mesh::from_lines(&lines(&["v 0 0 0", "vn 1 abc 3"]));
    assert_eq!(r.err().unwrap(), LoadError::Format(2, FormatErrorKind::BadNumber));
}

#[test]
fn double_space_makes_an_empty_token() {
    // Splitting is on single spaces, so "v  1 2" reads an empty x field.
    let r = Mesh::from_lines(&lines(&["v  1 2"]));
    assert_eq!(r.err().unwrap(), LoadError::Format(1, FormatErrorKind::BadNumber));
}

#[test]
fn wrong_face_arity_fails() {
    let r = Mesh::from_lines(&lines(&[
        "v 0 0 0",
        "v 1 0 0",
        "vn 0 0 1",
        "f 1//1 2//1",
    ]));
    assert_eq!(r.err().unwrap(), LoadError::Format(4, FormatErrorKind::FaceArity));
    let r = Mesh::from_lines(&lines(&[
        "v 0 0 0",
        "v 1 0 0",
        "vn 0 0 1",
        "f 1//1 2//1 1//1 2//1",
    ]));
    assert_eq!(r.err().unwrap(), LoadError::Format(4, FormatErrorKind::FaceArity));
}

#[test]
fn missing_slash_pair_fails() {
    let r = Mesh::from_lines(&lines(&["v 0 0 0", "vn 0 0 1", "f 1 1//1 1//1"]));
    assert_eq!(r.err().unwrap(), LoadError::Format(3, FormatErrorKind::MissingIndexPair));
}

#[test]
fn non_numeric_index_fails() {
    let r = Mesh::from_lines(&lines(&["v 0 0 0", "vn 0 0 1", "f x//1 1//1 1//1"]));
    assert_eq!(r.err().unwrap(), LoadError::Format(3, FormatErrorKind::BadIndexNumber));
}

#[test]
fn out_of_range_indices_fail() {
    // A vertex index past the vertices read so far.
    let r = Mesh::from_lines(&lines(&["v 0 0 0", "vn 0 0 1", "f 2//1 1//1 1//1"]));
    assert_eq!(r.err().unwrap(), LoadError::Format(3, FormatErrorKind::IndexOutOfRange));
    // The format is 1-based, so index 0 is out of range.
    let r = Mesh::from_lines(&lines(&["v 0 0 0", "vn 0 0 1", "f 0//1 1//1 1//1"]));
    assert_eq!(r.err().unwrap(), LoadError::Format(3, FormatErrorKind::IndexOutOfRange));
    // A normal index with no normal read yet.
    let r = Mesh::from_lines(&lines(&["v 0 0 0", "f 1//1 1//1 1//1"]));
    assert_eq!(r.err().unwrap(), LoadError::Format(2, FormatErrorKind::IndexOutOfRange));
}

#[test]
fn no_partial_mesh_on_failure() {
    let r = Mesh::from_lines(&lines(&["v 0 0 0", "v 1 1 1", "v bad 0 0"]));
    assert!(r.is_err());
}

#[test]
fn float_grammar_accepts_signs_exponents_and_special_words() {
    let m = Mesh::from_lines(&lines(&["v +1.5 -.5 2.", "v 1e-5 +inf NaN", "v INFINITY 0.25e+2 7"]))
        .unwrap();
    assert_eq!(m.vertices.len(), 3);
    for v in &m.vertices {
        assert!(v.x.parse::<f64>().is_ok());
        assert!(v.y.parse::<f64>().is_ok());
        assert!(v.z.parse::<f64>().is_ok());
    }
}

#[test]
fn float_grammar_rejects_what_float_parsing_rejects() {
    for bad in ["1e", ".", "--1", "1.2.3", "infx", "0x1", "1 ", ""] {
        let line = format!("v {} 0 0", bad);
        let r = Mesh::from_lines(&vec![line.clone()]);
        assert!(bad.parse::<f64>().is_err(), "{}", bad);
        assert_eq!(
            r.err().unwrap(),
            LoadError::Format(1, FormatErrorKind::BadNumber),
            "{}",
            line
        );
    }
}

#[test]
fn new_mesh_is_empty() {
    let m = Mesh::new();
    assert_eq!(m.name, "");
    assert!(m.vertices.is_empty());
    assert!(m.faces.is_empty());
}
