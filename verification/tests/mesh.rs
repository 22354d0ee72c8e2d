use softraster::facet::parse_facet_obj;
use softraster::facet::parse_index;
use softraster::facet::Facet;
use softraster::facet::Field;
use softraster::geometry::Vec3D;
use softraster::obj::parse_model_obj;
use softraster::obj::Model;
use softraster::polygon::fan_triangles;
use softraster::scene::SceneError;
use softraster::token::split_arguments;
use softraster::token::trim;

fn number(token: &[u8]) -> Option<f64> {
    std::str::from_utf8(token).ok()?.parse::<f64>().ok()
}

fn whole(token: &[u8]) -> Option<i32> {
    std::str::from_utf8(token).ok()?.parse::<i32>().ok()
}

fn coords(model: &Model<f64>) -> Vec<(f64, f64, f64)> {
    model.verts.iter().map(|v| (v.x, v.y, v.z)).collect()
}

#[test]
fn parses_three_vertices_and_one_face() {
    let loaded = parse_model_obj("v 0 0 0\nv 1 0 0\nv 0 1 0\nf 1 2 3\n".as_bytes(), number).unwrap();
    assert_eq!(coords(&loaded.model), vec![(0.0, 0.0, 0.0), (1.0, 0.0, 0.0), (0.0, 1.0, 0.0)]);
    assert_eq!(loaded.model.faces, vec![vec![0, 1, 2]]);
    assert!(loaded.rejected.is_empty());
    assert!(loaded.model.has_faces_in_range());
}

#[test]
fn vertex_line_with_fewer_than_three_fields_is_ignored() {
    let loaded = parse_model_obj("v 1 2\nv 3\nv\nv 4 5 6\nv x y\n".as_bytes(), number).unwrap();
    assert_eq!(coords(&loaded.model), vec![(4.0, 5.0, 6.0)]);
    assert!(loaded.model.faces.is_empty());
}

#[test]
fn further_vertex_fields_are_ignored() {
    let loaded = parse_model_obj("v 1.5 -2 3e1 1.0 junk".as_bytes(), number).unwrap();
    assert_eq!(coords(&loaded.model), vec![(1.5, -2.0, 30.0)]);
}

#[test]
fn fields_are_trimmed_and_empty_fields_dropped() {
    let loaded = parse_model_obj("v  1   2 \t3\r\nf 1/1/1  1//1 1\r\n".as_bytes(), number).unwrap();
    assert_eq!(coords(&loaded.model), vec![(1.0, 2.0, 3.0)]);
    assert_eq!(loaded.model.faces, vec![vec![0, 0, 0]]);
}

#[test]
fn other_lines_are_passed_over() {
    let text = "# a comment\n\nvn 0 0 1\nvt 0.5 0.5\n v 1 2 3\ng name\nvv 1 2 3\nf\nf 1\n";
    let loaded = parse_model_obj(text.as_bytes(), number).unwrap();
    assert!(loaded.model.verts.is_empty());
    assert!(loaded.model.faces.is_empty());
    assert!(loaded.rejected.is_empty());
}

#[test]
fn polygons_keep_all_their_corners_in_order() {
    let loaded = parse_model_obj("f 4 3 2 1\nf 1/7/9 2//8 +3\nf 5 6".as_bytes(), number).unwrap();
    assert_eq!(loaded.model.faces, vec![vec![3, 2, 1, 0], vec![0, 1, 2], vec![4, 5]]);
    assert!(!loaded.model.has_faces_in_range());
}

#[test]
fn coordinate_that_is_no_number_fails_the_whole_load() {
    let error = parse_model_obj("v 0 0 0\nv 1 zero 0\nv 2 2 2\n".as_bytes(), number).unwrap_err();
    assert_eq!(error.line_index, 1);
    assert_eq!(error.line, b"v 1 zero 0".to_vec());
    assert_eq!(error.expected, Field::Coordinate);
}

#[test]
fn face_number_that_is_no_number_fails_the_whole_load() {
    let error = parse_model_obj("v 0 0 0\nf 1 x 3\n".as_bytes(), number).unwrap_err();
    assert_eq!((error.line_index, error.expected), (1, Field::VertexIndex));
    assert_eq!(error.line, b"f 1 x 3".to_vec());
    let error = parse_model_obj("f 1/a/1 2 3".as_bytes(), number).unwrap_err();
    assert_eq!((error.line_index, error.expected), (0, Field::TextureIndex));
    let error = parse_model_obj("\nf 1 2/3/ 3".as_bytes(), number).unwrap_err();
    assert_eq!((error.line_index, error.expected), (1, Field::NormalIndex));
    let error = parse_model_obj("f -1 2 3".as_bytes(), number).unwrap_err();
    assert_eq!((error.line_index, error.expected), (0, Field::VertexIndex));
}

#[test]
fn first_unreadable_line_is_the_one_reported() {
    let error = parse_model_obj("f 1 2 3\nv a b c\nf x y z\n".as_bytes(), number).unwrap_err();
    assert_eq!((error.line_index, error.expected), (1, Field::Coordinate));
    let error = parse_model_obj("f 1 2 3\nf x y z\nv a b c\n".as_bytes(), number).unwrap_err();
    assert_eq!((error.line_index, error.expected), (1, Field::VertexIndex));
}

#[test]
fn face_with_a_token_that_names_no_vertex_is_rejected() {
    let loaded = parse_model_obj("f 1 2 3\nf 1/2 2 3\nf 0 1 2\nf 3 2 1".as_bytes(), number).unwrap();
    assert_eq!(loaded.model.faces, vec![vec![0, 1, 2], vec![2, 1, 0]]);
    assert_eq!(loaded.rejected, vec![1, 2]);
}

#[test]
fn unreadable_number_outweighs_a_rejected_token() {
    let error = parse_model_obj("f 1/2 x 3".as_bytes(), number).unwrap_err();
    assert_eq!((error.line_index, error.expected), (0, Field::VertexIndex));
}

#[test]
fn mesh_can_be_read_over_whole_numbers() {
    let loaded = parse_model_obj("v 1 2 3\nv -4 5 6\n".as_bytes(), whole).unwrap();
    let found: Vec<(i32, i32, i32)> = loaded.model.verts.iter().map(|v| (v.x, v.y, v.z)).collect();
    assert_eq!(found, vec![(1, 2, 3), (-4, 5, 6)]);
    let error = parse_model_obj("v 1 2 3.5\n".as_bytes(), whole).unwrap_err();
    assert_eq!(error.expected, Field::Coordinate);
}

#[test]
fn empty_text_gives_an_empty_mesh() {
    let loaded = parse_model_obj("".as_bytes(), number).unwrap();
    assert!(loaded.model.verts.is_empty());
    assert!(loaded.model.faces.is_empty());
}

#[test]
fn face_token_reads_as_one_or_three_numbers() {
    assert_eq!(parse_facet_obj(b"7"), Ok(Facet { v: 7, t: 0, n: 0 }));
    assert_eq!(parse_facet_obj(b"7/8/9"), Ok(Facet { v: 7, t: 8, n: 9 }));
    assert_eq!(parse_facet_obj(b"7//9"), Ok(Facet { v: 7, t: 0, n: 9 }));
    assert_eq!(parse_facet_obj(b"7/8/9/10"), Ok(Facet { v: 7, t: 8, n: 9 }));
    assert_eq!(parse_facet_obj(b"7/8"), Ok(Facet { v: 0, t: 0, n: 0 }));
    assert_eq!(parse_facet_obj(b"x/8"), Ok(Facet { v: 0, t: 0, n: 0 }));
    assert_eq!(parse_facet_obj(b""), Err(Field::VertexIndex));
    assert_eq!(parse_facet_obj(b"x"), Err(Field::VertexIndex));
    assert_eq!(parse_facet_obj(b"/8/9"), Err(Field::VertexIndex));
    assert_eq!(parse_facet_obj(b"7/x/9"), Err(Field::TextureIndex));
    assert_eq!(parse_facet_obj(b"7/8/"), Err(Field::NormalIndex));
    assert_eq!(parse_facet_obj(b"7/8/9x"), Err(Field::NormalIndex));
}

#[test]
fn index_is_a_decimal_number_that_fits() {
    assert_eq!(parse_index(b"0", 0, 1), Some(0));
    assert_eq!(parse_index(b"+12", 0, 3), Some(12));
    assert_eq!(parse_index(b"a907b", 1, 4), Some(907));
    assert_eq!(parse_index(b"007", 0, 3), Some(7));
    assert_eq!(parse_index(b"", 0, 0), None);
    assert_eq!(parse_index(b"+", 0, 1), None);
    assert_eq!(parse_index(b"-1", 0, 2), None);
    assert_eq!(parse_index(b"1 ", 0, 2), None);
    assert_eq!(parse_index(b"++1", 0, 3), None);
    let largest = usize::MAX.to_string();
    assert_eq!(parse_index(largest.as_bytes(), 0, largest.len()), Some(usize::MAX));
    let too_large = format!("{}0", usize::MAX);
    assert_eq!(parse_index(too_large.as_bytes(), 0, too_large.len()), None);
    let one_more = format!("{}", usize::MAX as u128 + 1);
    assert_eq!(parse_index(one_more.as_bytes(), 0, one_more.len()), None);
}

#[test]
fn arguments_are_the_trimmed_fields_after_the_first() {
    assert_eq!(split_arguments(b"v 1 22  333 "), vec![(2, 3), (4, 6), (8, 11)]);
    assert_eq!(split_arguments(b"v"), vec![]);
    assert_eq!(split_arguments(b""), vec![]);
    assert_eq!(split_arguments(b" a"), vec![(1, 2)]);
    assert_eq!(split_arguments(b"f \t1\t \r"), vec![(3, 4)]);
    assert_eq!(trim(b"  ab \t", 0, 6), (2, 4));
    assert_eq!(trim(b"   ", 0, 3), (3, 3));
}

#[test]
fn bounding_box_spans_the_vertices() {
    let loaded = parse_model_obj("v 1 5 -3\nv -2 7 0\nv 4 6 -9\n".as_bytes(), number).unwrap();
    let (low, high) = loaded.model.bounds().unwrap();
    assert_eq!((low.x, low.y, low.z), (-2.0, 5.0, -9.0));
    assert_eq!((high.x, high.y, high.z), (4.0, 7.0, 0.0));
}

#[test]
fn mesh_without_width_is_degenerate() {
    let loaded = parse_model_obj("v 2 0 0\nv 2 1 0\nv 2 0 1\nf 1 2 3\n".as_bytes(), number).unwrap();
    assert_eq!(loaded.model.bounds().unwrap_err(), SceneError::DegenerateBounds);
    let whole_numbers = Model {
        verts: vec![Vec3D { x: 7, y: 1, z: 2 }, Vec3D { x: 7, y: -1, z: 5 }],
        faces: Vec::new(),
    };
    assert_eq!(whole_numbers.bounds().unwrap_err(), SceneError::DegenerateBounds);
    let single = Model { verts: vec![Vec3D { x: 1.0, y: 2.0, z: 3.0 }], faces: Vec::new() };
    assert_eq!(single.bounds().unwrap_err(), SceneError::DegenerateBounds);
}

#[test]
fn mesh_without_vertices_has_no_bounds() {
    let empty: Model<f64> = Model { verts: Vec::new(), faces: Vec::new() };
    assert_eq!(empty.bounds().unwrap_err(), SceneError::NoVertices);
}

#[test]
fn polygon_is_cut_into_a_fan() {
    assert_eq!(fan_triangles(&vec![5, 6, 7]), vec![(5, 6, 7)]);
    assert_eq!(fan_triangles(&vec![0, 1, 2, 3, 4]), vec![(0, 1, 2), (0, 2, 3), (0, 3, 4)]);
    assert_eq!(fan_triangles(&vec![1, 2]), vec![]);
    assert_eq!(fan_triangles::<usize>(&vec![]), vec![]);
}
