use raytracer::obj_loader::{
    assemble, is_space_byte, line_kind, load_scene, parse_face_index, LineKind, LoadError,
};
use raytracer::scalar::Scalar;
use raytracer::triangle::Triangle;

fn number(word: &Vec<u8>) -> Option<Scalar> {
    let text = std::str::from_utf8(word).ok()?;
    let value = text.parse::<f32>().ok()?;
    Some(Scalar::from_bits(value.to_bits()))
}

fn load(text: &str) -> Result<Vec<Triangle>, LoadError> {
    load_scene(&text.as_bytes().to_vec(), &number)
}

fn corners(t: &Triangle) -> [[f32; 3]; 3] {
    let mut out = [[0.0f32; 3]; 3];
    for k in 0..3 {
        for c in 0..3 {
            out[k][c] = f32::from_bits(t.vertices[k].get(c).to_bits());
        }
    }
    out
}

#[test]
fn indexed_faces() {
    let text = "# a square\nv 0 0 0\nv 1 0 0\nv 1 1 0\nv 0 1 0\nf 1 2 3\nf 1 3 4\n";
    let tris = load(text).unwrap();
    assert_eq!(tris.len(), 2);
    assert_eq!(corners(&tris[0]), [[0.0, 0.0, 0.0], [1.0, 0.0, 0.0], [1.0, 1.0, 0.0]]);
    assert_eq!(corners(&tris[1]), [[0.0, 0.0, 0.0], [1.0, 1.0, 0.0], [0.0, 1.0, 0.0]]);
}

#[test]
fn faces_with_slashes_and_carriage_returns() {
    let text = "v 0.5 -1.25 2e1\r\nv 1 0 0\r\nv 0 1 0\r\nvn 0 0 1\r\nvt 0 0\r\nf 1/1/1 2/2/1 3//1\r\n";
    let tris = load(text).unwrap();
    assert_eq!(tris.len(), 1);
    assert_eq!(corners(&tris[0]), [[0.5, -1.25, 20.0], [1.0, 0.0, 0.0], [0.0, 1.0, 0.0]]);
}

#[test]
fn faces_may_come_before_and_between_vertices() {
    let text = "f 3 2 1\nv 0 0 0\n\nv 1 0 0\nf +1 2 3   \nv 0\t1   0";
    let tris = load(text).unwrap();
    assert_eq!(tris.len(), 2);
    assert_eq!(corners(&tris[0]), [[0.0, 1.0, 0.0], [1.0, 0.0, 0.0], [0.0, 0.0, 0.0]]);
    assert_eq!(corners(&tris[1]), [[0.0, 0.0, 0.0], [1.0, 0.0, 0.0], [0.0, 1.0, 0.0]]);
}

#[test]
fn a_quad_line_gives_corners_in_a_row() {
    let text = "v 0 0 0\nv 1 0 0\nv 1 1 0\nv 0 1 0\nv 5 5 5\nv 6 6 6\nf 1 2 3 4\nf 5 6\n";
    let tris = load(text).unwrap();
    assert_eq!(tris.len(), 2);
    assert_eq!(corners(&tris[1]), [[0.0, 1.0, 0.0], [5.0, 5.0, 5.0], [6.0, 6.0, 6.0]]);
}

#[test]
fn without_faces_every_nine_numbers_are_a_triangle() {
    let text = "v 0 0 0\nv 1 0 0\nv 0 1 0\nv 1 2 3 4 5 6\nv 7 8 9\n";
    let tris = load(text).unwrap();
    assert_eq!(tris.len(), 2);
    assert_eq!(corners(&tris[1]), [[1.0, 2.0, 3.0], [4.0, 5.0, 6.0], [7.0, 8.0, 9.0]]);
    assert_eq!(load("").unwrap().len(), 0);
    assert_eq!(load("o name\n# nothing\n\n").unwrap().len(), 0);
    assert_eq!(load("v \nv\nvv 1 2 3\n").unwrap().len(), 0);
}

#[test]
fn faults() {
    assert_eq!(load("v 0 0 zero\n").unwrap_err(), LoadError::BadVertex);
    assert_eq!(load("v 1 2 3\nf 1 x 1\n").unwrap_err(), LoadError::BadFace);
    assert_eq!(load("v 1 2 3\nf 0 1 1\n").unwrap_err(), LoadError::BadFace);
    assert_eq!(load("v 1 2 3\nf -1 1 1\n").unwrap_err(), LoadError::BadFace);
    assert_eq!(load("v 1 2 3\nf /1 1 1\n").unwrap_err(), LoadError::BadFace);
    assert_eq!(load("v 1 2 3\nf 1 1\n").unwrap_err(), LoadError::BadMesh);
    assert_eq!(load("v 1 2 3\nf 1 1 2\n").unwrap_err(), LoadError::BadMesh);
    assert_eq!(load("v 1 2 3\nv 4 5\nf 1 1 2\n").unwrap_err(), LoadError::BadMesh);
    assert_eq!(load("v 1 2 3\n").unwrap_err(), LoadError::BadMesh);
    assert_eq!(load("f one\nv bad\n").unwrap_err(), LoadError::BadFace);
    assert_eq!(load("v bad\nf one\n").unwrap_err(), LoadError::BadVertex);
    assert_eq!(
        load("v 1 2 3\nf 99999999999999999999999999 1 1\n").unwrap_err(),
        LoadError::BadFace
    );
}

#[test]
fn face_index_cases() {
    let p = |s: &str| parse_face_index(&s.as_bytes().to_vec());
    assert_eq!(p("1"), Some(0));
    assert_eq!(p("12"), Some(11));
    assert_eq!(p("007"), Some(6));
    assert_eq!(p("+5"), Some(4));
    assert_eq!(p("5/6/7"), Some(4));
    assert_eq!(p("5//7"), Some(4));
    assert_eq!(p("5/"), Some(4));
    assert_eq!(p("0"), None);
    assert_eq!(p(""), None);
    assert_eq!(p("+"), None);
    assert_eq!(p("/5"), None);
    assert_eq!(p("-5"), None);
    assert_eq!(p("5a"), None);
    assert_eq!(p("5 "), None);
    assert_eq!(p("++5"), None);
    assert_eq!(p(&usize::MAX.to_string()), Some(usize::MAX - 1));
    let mut over = usize::MAX.to_string();
    over.push('0');
    assert_eq!(p(&over), None);
    let mut next = (usize::MAX as u128 + 1).to_string();
    assert_eq!(p(&next), None);
    next.push_str("/1");
    assert_eq!(p(&next), None);
    for n in [1usize, 9, 10, 99, 100, 65535, 1234567] {
        assert_eq!(p(&n.to_string()), n.to_string().parse::<usize>().ok().map(|i| i - 1));
    }
}

#[test]
fn line_kinds_and_spaces() {
    let k = |s: &str| line_kind(&s.as_bytes().to_vec());
    assert_eq!(k("v 1 2 3"), LineKind::Vertex);
    assert_eq!(k("f 1 2 3"), LineKind::Face);
    assert_eq!(k("v "), LineKind::Vertex);
    assert_eq!(k("v"), LineKind::Other);
    assert_eq!(k("vn 1 2 3"), LineKind::Other);
    assert_eq!(k(" v 1 2 3"), LineKind::Other);
    assert_eq!(k("v\t1 2 3"), LineKind::Other);
    assert_eq!(k(""), LineKind::Other);
    for b in 0u8..=127 {
        assert_eq!(is_space_byte(b), (b as char).is_whitespace(), "byte {}", b);
    }
    assert!(!is_space_byte(0xA0));
}

#[test]
fn assemble_cases() {
    let s = |x: f32| Scalar::from_bits(x.to_bits());
    let coords: Vec<Scalar> = (0..12).map(|i| s(i as f32)).collect();
    let tris = assemble(&coords, &vec![3, 0, 2]).unwrap();
    assert_eq!(tris.len(), 1);
    assert_eq!(corners(&tris[0]), [[9.0, 10.0, 11.0], [0.0, 1.0, 2.0], [6.0, 7.0, 8.0]]);
    assert_eq!(assemble(&coords, &vec![4, 0, 2]).unwrap_err(), LoadError::BadMesh);
    assert_eq!(assemble(&coords, &vec![0, 1]).unwrap_err(), LoadError::BadMesh);
    assert_eq!(assemble(&coords, &vec![]).unwrap_err(), LoadError::BadMesh);
    let nine: Vec<Scalar> = (0..9).map(|i| s(i as f32)).collect();
    let tris = assemble(&nine, &vec![]).unwrap();
    assert_eq!(corners(&tris[0]), [[0.0, 1.0, 2.0], [3.0, 4.0, 5.0], [6.0, 7.0, 8.0]]);
    assert_eq!(assemble(&vec![], &vec![]).unwrap().len(), 0);
    let eleven: Vec<Scalar> = (0..11).map(|i| s(i as f32)).collect();
    assert_eq!(assemble(&eleven, &vec![3, 0, 2]).unwrap_err(), LoadError::BadMesh);
    assert_eq!(assemble(&eleven, &vec![2, 0, 1]).unwrap().len(), 1);
    assert_eq!(assemble(&vec![], &vec![usize::MAX, 0, 0]).unwrap_err(), LoadError::BadMesh);
}
