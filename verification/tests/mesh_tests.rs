use water::mesh::{index_faces, parse_i32, parse_obj_line, split_bytes, ObjError, ObjLine};

fn text(v: &Vec<u8>) -> &str {
    std::str::from_utf8(v).unwrap()
}

#[test]
fn split_like_str_split() {
    for s in ["", "a", "a b", " a", "a ", "a  b", "v 1.0 2.0 3.0", "  "] {
        let ours: Vec<String> = split_bytes(s.as_bytes(), b' ').iter().map(|p| text(p).to_string()).collect();
        let std_parts: Vec<String> = s.split(' ').map(|p| p.to_string()).collect();
        assert_eq!(ours, std_parts, "splitting {:?}", s);
    }
}

#[test]
fn parse_i32_like_str_parse() {
    for s in [
        "0", "12", "-5", "+7", "", "-", "+", "1a", "a1", "007", "2147483647", "2147483648", "-2147483648",
        "-2147483649", "99999999999999999999", "--1", "+-1", " 1",
    ] {
        assert_eq!(parse_i32(s.as_bytes()), s.parse::<i32>().ok(), "parsing {:?}", s);
    }
}

#[test]
fn obj_position_normal_texcoord() {
    match parse_obj_line(b"v 1.0 -2.5 3") {
        Ok(ObjLine::Position(x, y, z)) => {
            assert_eq!((text(&x), text(&y), text(&z)), ("1.0", "-2.5", "3"));
        }
        _ => panic!("expected a position"),
    }
    match parse_obj_line(b"vn 0 1 0") {
        Ok(ObjLine::Normal(x, y, z)) => {
            assert_eq!((text(&x), text(&y), text(&z)), ("0", "1", "0"));
        }
        _ => panic!("expected a normal"),
    }
    match parse_obj_line(b"vt 0.25 0.75") {
        Ok(ObjLine::TexCoord(u, v)) => {
            assert_eq!((text(&u), text(&v)), ("0.25", "0.75"));
        }
        _ => panic!("expected a texture coordinate"),
    }
}

#[test]
fn obj_face() {
    match parse_obj_line(b"f 1/2/3 4/5/6 7/8/9") {
        Ok(ObjLine::Face(a, b, c)) => {
            assert_eq!((a, b, c), ((1, 2, 3), (4, 5, 6), (7, 8, 9)));
        }
        _ => panic!("expected a face"),
    }
    // extra parts of a corner and extra corners are ignored
    match parse_obj_line(b"f 1/2/3/4 4/5/6 7/8/9 10/11/12") {
        Ok(ObjLine::Face(a, _, c)) => {
            assert_eq!((a, c), ((1, 2, 3), (7, 8, 9)));
        }
        _ => panic!("expected a face"),
    }
}

#[test]
fn obj_other_lines() {
    assert!(matches!(parse_obj_line(b"# comment"), Ok(ObjLine::Other)));
    assert!(matches!(parse_obj_line(b""), Ok(ObjLine::Other)));
    assert!(matches!(parse_obj_line(b"s off"), Ok(ObjLine::Other)));
}

#[test]
fn obj_errors() {
    assert!(matches!(parse_obj_line(b"v 1.0 2.0"), Err(ObjError::MissingField)));
    assert!(matches!(parse_obj_line(b"vt 1.0"), Err(ObjError::MissingField)));
    assert!(matches!(parse_obj_line(b"vn"), Err(ObjError::MissingField)));
    assert!(matches!(parse_obj_line(b"f 1/2/3 4/5/6"), Err(ObjError::MissingField)));
    assert!(matches!(parse_obj_line(b"f 1/2 4/5/6 7/8/9"), Err(ObjError::MissingField)));
    assert!(matches!(parse_obj_line(b"f 1//3 4/5/6 7/8/9"), Err(ObjError::BadIndex)));
    assert!(matches!(parse_obj_line(b"f x/2/3 4/5/6 7/8/9"), Err(ObjError::BadIndex)));
    // the first problem met decides: a bad first corner before a missing third one
    assert!(matches!(parse_obj_line(b"f x/2/3 4/5/6"), Err(ObjError::BadIndex)));
}

#[test]
fn index_faces_shares_vertices() {
    let corners = vec![(1, 1, 1), (2, 2, 2), (3, 3, 3), (1, 1, 1), (3, 3, 3), (4, 4, 4)];
    let (unique, elements) = index_faces(&corners).unwrap();
    assert_eq!(unique, vec![(1, 1, 1), (2, 2, 2), (3, 3, 3), (4, 4, 4)]);
    assert_eq!(elements, vec![0, 1, 2, 0, 2, 3]);
}

#[test]
fn index_faces_empty() {
    let (unique, elements) = index_faces(&Vec::new()).unwrap();
    assert!(unique.is_empty());
    assert!(elements.is_empty());
}

#[test]
fn index_faces_distinguishes_every_component() {
    let corners = vec![(1, 2, 3), (1, 2, 4), (1, 3, 3), (2, 2, 3), (1, 2, 3)];
    let (unique, elements) = index_faces(&corners).unwrap();
    assert_eq!(unique.len(), 4);
    assert_eq!(elements, vec![0, 1, 2, 3, 0]);
}

#[test]
fn split_then_join_gives_input_back() {
    for s in ["", " ", "f 1/2/3 4/5/6", "  a  b  ", "no-separator"] {
        let parts = split_bytes(s.as_bytes(), b' ');
        assert!(parts.iter().all(|p| !p.contains(&b' ')));
        let joined: Vec<u8> = parts.join(&b' ');
        assert_eq!(joined, s.as_bytes());
    }
}

#[test]
fn corner_vertices_reproduce_corners() {
    let corners = vec![(5, 1, 2), (5, 1, 2), (7, 7, 7), (1, 1, 1), (7, 7, 7)];
    let (unique, elements) = index_faces(&corners).unwrap();
    for (n, c) in corners.iter().enumerate() {
        assert_eq!(unique[elements[n] as usize], *c);
    }
    let mut sorted = unique.clone();
    sorted.sort();
    sorted.dedup();
    assert_eq!(sorted.len(), unique.len());
}
