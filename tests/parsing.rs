use obj_mesh::face::parse_face;
use obj_mesh::line::{parse_line, Element};
use obj_mesh::mesh::{load_lines, Mesh};
use obj_mesh::text::{parse_index, split_fields, split_words};

type Point3 = [f32; 3];
type Point2 = [f32; 2];

fn read_coords<const N: usize>(words: &[&str]) -> Option<[f32; N]> {
    let mut out = [0.0f32; N];
    for (slot, w) in out.iter_mut().zip(words.iter()) {
        *slot = w.parse().ok()?;
    }
    Some(out)
}

fn lines(text: &str) -> Vec<String> {
    text.lines().map(|l| l.to_string()).collect()
}

fn load(text: &str) -> Mesh<Point3, Point2> {
    let ls = lines(text);
    let m = load_lines(&ls);
    Mesh {
        vertices: m.vertices.iter().filter_map(|c| read_coords::<3>(c)).collect(),
        normals: m.normals.iter().filter_map(|c| read_coords::<3>(c)).collect(),
        texcoords: m.texcoords.iter().filter_map(|c| read_coords::<2>(c)).collect(),
        faces: m.faces,
        materials: m.materials,
        mtllibs: m.mtllibs,
        objects: m.objects,
        groups: m.groups,
    }
}

fn counts<P, Q>(m: &Mesh<P, Q>) -> [usize; 8] {
    [
        m.vertices.len(),
        m.normals.len(),
        m.texcoords.len(),
        m.faces.len(),
        m.materials.len(),
        m.mtllibs.len(),
        m.objects.len(),
        m.groups.len(),
    ]
}

fn face_line(line: &str) -> Option<obj_mesh::face::Face> {
    let words = split_words(line);
    parse_face(&words)
}

#[test]
fn minimal_triangle() {
    let m = load("v 0 0 0\nv 1 0 0\nv 0 1 0\nf 1 2 3\n");
    assert_eq!(counts(&m), [3, 0, 0, 1, 0, 0, 0, 0]);
    let f = &m.faces[0];
    assert_eq!(f.vertex_indices, vec![0, 1, 2]);
    assert!(f.texture_indices.is_empty());
    assert!(f.normal_indices.is_empty());
    let xs: Vec<f32> = m.vertices.iter().map(|v| v[0]).collect();
    let ys: Vec<f32> = m.vertices.iter().map(|v| v[1]).collect();
    let zs: Vec<f32> = m.vertices.iter().map(|v| v[2]).collect();
    assert_eq!(xs.iter().cloned().fold(f32::INFINITY, f32::min), 0.0);
    assert_eq!(xs.iter().cloned().fold(f32::NEG_INFINITY, f32::max), 1.0);
    assert_eq!(ys.iter().cloned().fold(f32::NEG_INFINITY, f32::max), 1.0);
    assert_eq!(zs.iter().cloned().fold(f32::NEG_INFINITY, f32::max), 0.0);
}

#[test]
fn all_reference_forms() {
    let m = load("v 0 0 0\nv 1 0 0\nv 0 1 0\nvt 0 0\nvt 1 0\nvt 0 1\nvn 0 0 1\nf 1/1/1 2/2/1 3//1\n");
    assert_eq!(counts(&m), [3, 1, 3, 1, 0, 0, 0, 0]);
    let f = &m.faces[0];
    assert_eq!(f.vertex_indices, vec![0, 1, 2]);
    assert_eq!(f.texture_indices, vec![0, 1]);
    assert_eq!(f.normal_indices, vec![0, 0, 0]);
}

#[test]
fn comments_blanks_and_unknown_directives() {
    let m = load("# header\n\ns 1\nv 2.5 -1.0 0.25\no torso\nusemtl skin\nusemtl skin\ng hips\n");
    assert_eq!(m.vertices.len(), 1);
    assert_eq!(m.vertices[0], [2.5, -1.0, 0.25]);
    assert_eq!(m.faces.len(), 0);
    assert_eq!(m.objects, vec!["torso".to_string()]);
    assert_eq!(m.groups, vec!["hips".to_string()]);
    assert_eq!(m.materials, vec!["skin".to_string(), "skin".to_string()]);
    assert_eq!(m.distinct_materials(), vec!["skin".to_string()]);
}

#[test]
fn malformed_vertices_are_skipped() {
    let m = load("v 1 2\nv a b c\nv 1 2 3\n");
    assert_eq!(m.vertices.len(), 1);
    assert_eq!(m.vertices[0], [1.0, 2.0, 3.0]);
}

#[test]
fn polygon_is_not_triangulated() {
    let m = load("v 0 0 0\nv 1 0 0\nv 1 1 0\nv 0 1 0\nf 1 2 3 4\n");
    assert_eq!(m.faces.len(), 1);
    assert_eq!(m.faces[0].vertex_indices, vec![0, 1, 2, 3]);
}

#[test]
fn empty_input_gives_empty_mesh() {
    let m = load("");
    assert_eq!(counts(&m), [0; 8]);
}

#[test]
fn comment_and_blank_lines_only() {
    let ls = lines("# a comment\n\n   \n\t# indented comment\r\n#\n");
    let m = load_lines(&ls);
    assert_eq!(counts(&m), [0; 8]);
}

#[test]
fn unknown_lines_change_nothing() {
    let plain = "v 0 0 0\nv 1 0 0\nv 0 1 0\nusemtl red\nf 1 2 3\ng body\n";
    let noisy = "s off\nv 0 0 0\nvp 1 2\nv 1 0 0\nv 0 1 0\ncurv 0 1\nusemtl red\nf 1 2 3\nl 1 2\ng body\nxyz\n";
    let (pl, nl) = (lines(plain), lines(noisy));
    let a = load_lines(&pl);
    let b = load_lines(&nl);
    assert_eq!(counts(&a), counts(&b));
    assert_eq!(a.vertices, b.vertices);
    assert_eq!(a.faces[0].vertex_indices, b.faces[0].vertex_indices);
    assert_eq!(a.materials, b.materials);
    assert_eq!(a.groups, b.groups);
}

#[test]
fn single_vertex_has_zero_extent() {
    let m = load("v 2.5 -1 7\n");
    let v = m.vertices[0];
    for axis in 0..3 {
        let lo = m.vertices.iter().map(|p| p[axis]).fold(f32::INFINITY, f32::min);
        let hi = m.vertices.iter().map(|p| p[axis]).fold(f32::NEG_INFINITY, f32::max);
        assert_eq!(hi - lo, 0.0);
        assert_eq!(lo, v[axis]);
    }
}

#[test]
fn reference_vertex_only() {
    let f = face_line("f 1 2 3").unwrap();
    assert_eq!(f.vertex_indices, vec![0, 1, 2]);
    assert!(f.texture_indices.is_empty());
    assert!(f.normal_indices.is_empty());
}

#[test]
fn reference_vertex_texture() {
    let f = face_line("f 1/2 2/3 3/4").unwrap();
    assert_eq!(f.vertex_indices, vec![0, 1, 2]);
    assert_eq!(f.texture_indices, vec![1, 2, 3]);
    assert!(f.normal_indices.is_empty());
}

#[test]
fn reference_vertex_normal() {
    let f = face_line("f 1//3 2//3 3//3").unwrap();
    assert_eq!(f.vertex_indices, vec![0, 1, 2]);
    assert!(f.texture_indices.is_empty());
    assert_eq!(f.normal_indices, vec![2, 2, 2]);
}

#[test]
fn reference_vertex_texture_normal() {
    let f = face_line("f 1/2/3 4/5/6 7/8/9").unwrap();
    assert_eq!(f.vertex_indices, vec![0, 3, 6]);
    assert_eq!(f.texture_indices, vec![1, 4, 7]);
    assert_eq!(f.normal_indices, vec![2, 5, 8]);
}

#[test]
fn bad_secondary_slot_keeps_vertex() {
    let f = face_line("f 1/x/2 2/0/2 3/4/y").unwrap();
    assert_eq!(f.vertex_indices, vec![0, 1, 2]);
    assert_eq!(f.texture_indices, vec![3]);
    assert_eq!(f.normal_indices, vec![1, 1]);
}

#[test]
fn unreadable_vertex_drops_reference() {
    let f = face_line("f 1 x 0 4").unwrap();
    assert_eq!(f.vertex_indices, vec![0, 3]);
}

#[test]
fn unreadable_vertex_drops_whole_reference() {
    let f = parse_face(&["f", "x/2/3", "1/1/1", "2/2/2"]).unwrap();
    assert_eq!(f.vertex_indices, vec![0, 1]);
    assert_eq!(f.texture_indices, vec![0, 1]);
    assert_eq!(f.normal_indices, vec![0, 1]);
    let g = face_line("f 0/5/5 1//4 2/3").unwrap();
    assert_eq!(g.vertex_indices, vec![0, 1]);
    assert_eq!(g.texture_indices, vec![2]);
    assert_eq!(g.normal_indices, vec![3]);
}

#[test]
fn texcoord_keeps_two_coordinates() {
    match parse_line("vt 0.25 0.5 0.75") {
        Element::TexCoord(c) => assert_eq!(c, vec!["0.25", "0.5"]),
        _ => panic!("expected a texture coordinate"),
    }
    let m = load("vt 0.25 0.5 0.75\n");
    assert_eq!(m.texcoords, vec![[0.25, 0.5]]);
}

#[test]
fn face_needs_three_references() {
    assert!(face_line("f 1 2 3").is_some());
    assert!(face_line("f 1 2").is_none());
    assert!(matches!(parse_line("f 1 2"), Element::Ignored));
    assert!(matches!(parse_line("f 1 2 3"), Element::Face(_)));
}

#[test]
fn vertex_and_normal_need_three_coordinates() {
    assert!(matches!(parse_line("v 1 2"), Element::Ignored));
    assert!(matches!(parse_line("vn 0 1"), Element::Ignored));
    match parse_line("v 1 2 3 1") {
        Element::Vertex(c) => assert_eq!(c, vec!["1", "2", "3"]),
        _ => panic!("expected a vertex"),
    }
    match parse_line("  vn\t0 0  1 ") {
        Element::Normal(c) => assert_eq!(c, vec!["0", "0", "1"]),
        _ => panic!("expected a normal"),
    }
}

#[test]
fn names_take_first_word_only() {
    let ls = lines("mtllib a.mtl b.mtl\no body extra\ng\nusemtl\n");
    let m = load_lines(&ls);
    assert_eq!(m.mtllibs, vec!["a.mtl".to_string()]);
    assert_eq!(m.objects, vec!["body".to_string()]);
    assert!(m.groups.is_empty());
    assert!(m.materials.is_empty());
}

#[test]
fn keywords_are_whole_words() {
    assert!(matches!(parse_line("vx 1 2 3"), Element::Ignored));
    assert!(matches!(parse_line("#v 1 2 3"), Element::Ignored));
    assert!(matches!(parse_line("V 1 2 3"), Element::Ignored));
}

#[test]
fn distinct_materials_once_each() {
    let ls = lines("usemtl a\nusemtl b\nusemtl a\nusemtl c\nusemtl b\n");
    let m = load_lines(&ls);
    let mut d = m.distinct_materials();
    d.sort();
    assert_eq!(d, vec!["a".to_string(), "b".to_string(), "c".to_string()]);
    let none: Mesh<Vec<&str>, Vec<&str>> = Mesh::new();
    assert!(none.distinct_materials().is_empty());
}

#[test]
fn index_parsing() {
    assert_eq!(parse_index("1"), Some(1));
    assert_eq!(parse_index("42"), Some(42));
    assert_eq!(parse_index("007"), Some(7));
    assert_eq!(parse_index("0"), None);
    assert_eq!(parse_index("+3"), Some(3));
    assert_eq!(parse_index("+0"), None);
    assert_eq!(parse_index("+"), None);
    assert_eq!(parse_index("++3"), None);
    assert_eq!(parse_index("3+"), None);
    assert_eq!(parse_index(""), None);
    assert_eq!(parse_index("-1"), None);
    assert_eq!(parse_index("1a"), None);
    assert_eq!(parse_index("99999999999999999999999"), None);
    assert_eq!(parse_index(&usize::MAX.to_string()), Some(usize::MAX));
}

#[test]
fn word_and_field_splitting() {
    assert_eq!(split_words("  f\t1  2 \r"), vec!["f", "1", "2"]);
    assert!(split_words(" \t ").is_empty());
    assert_eq!(split_fields("1//3"), vec!["1", "", "3"]);
    assert_eq!(split_fields("7"), vec!["7"]);
    assert_eq!(split_fields("/"), vec!["", ""]);
}
