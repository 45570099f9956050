use ray_tracer::model::{parse_face, parse_index, parse_obj_line, split_fields, Geometry, ObjLine};
use ray_tracer::plane::checker_is_white;
use ray_tracer::raster::{pixel_order, Image};
use ray_tracer::render::child_depth;

fn fields(words: &[&str]) -> Vec<Vec<u8>> {
    words.iter().map(|w| w.as_bytes().to_vec()).collect()
}

#[test]
fn image_new_accepts_matching_buffer() {
    let img = Image::new(3, 2, vec![0u32, 1, 2, 3, 4, 5]).expect("sizes match");
    assert_eq!(img.width, 3);
    assert_eq!(img.height, 2);
    assert_eq!(img.buffer, vec![0, 1, 2, 3, 4, 5]);
}

#[test]
fn image_new_rejects_wrong_length() {
    assert!(Image::new(3, 2, vec![0u32; 5]).is_none());
    assert!(Image::new(3, 2, vec![0u32; 7]).is_none());
    assert!(Image::new(0, 4, vec![0u32; 1]).is_none());
    assert!(Image::new(usize::MAX, 2, vec![0u32; 2]).is_none());
}

#[test]
fn image_new_accepts_empty_grid() {
    let img = Image::new(0, 5, Vec::<u8>::new()).expect("empty grid");
    assert_eq!(img.buffer.len(), 0);
}

#[test]
fn image_pixel_is_row_major() {
    let img = Image::new(3, 2, vec![10u32, 11, 12, 20, 21, 22]).unwrap();
    assert_eq!(*img.pixel(0, 0), 10);
    assert_eq!(*img.pixel(2, 0), 12);
    assert_eq!(*img.pixel(0, 1), 20);
    assert_eq!(*img.pixel(1, 1), 21);
}

#[test]
fn image_sample_reads_flat_position() {
    let img = Image::new(3, 2, vec![10u32, 11, 12, 20, 21, 22]).unwrap();
    assert_eq!(img.sample(1, 1), Some(&21));
    // a column equal to the width reaches the first pixel of the next row
    assert_eq!(img.sample(3, 0), Some(&20));
    assert_eq!(img.sample(3, 1), None);
    assert_eq!(img.sample(0, 2), None);
    assert_eq!(img.sample(usize::MAX, usize::MAX), None);
}

#[test]
fn pixel_order_is_row_major() {
    let order = pixel_order(3, 2);
    assert_eq!(order, vec![(0, 0), (1, 0), (2, 0), (0, 1), (1, 1), (2, 1)]);
}

#[test]
fn pixel_order_of_empty_grid() {
    assert!(pixel_order(0, 7).is_empty());
    assert!(pixel_order(7, 0).is_empty());
}

#[test]
fn geometry_accepts_valid_faces() {
    let g = Geometry::new(vec!['a', 'b', 'c', 'd'], vec![[0, 1, 2], [3, 2, 1]]).expect("valid");
    assert_eq!(g.num_verts(), 4);
    assert_eq!(g.num_faces(), 2);
    assert_eq!(*g.point(3), 'd');
    assert_eq!(g.face(1), [3, 2, 1]);
    assert_eq!(g.triangle(1), (&'d', &'c', &'b'));
}

#[test]
fn geometry_rejects_index_past_vertices() {
    assert!(Geometry::new(vec![1u8, 2, 3], vec![[0, 1, 2], [0, 3, 1]]).is_none());
    assert!(Geometry::new(Vec::<u8>::new(), vec![[0, 0, 0]]).is_none());
}

#[test]
fn geometry_without_faces_is_valid() {
    let g = Geometry::new(Vec::<u8>::new(), vec![]).expect("no faces");
    assert_eq!(g.num_faces(), 0);
}

#[test]
fn parse_index_reads_decimal() {
    assert_eq!(parse_index(&b"42".to_vec()), Some(42));
    assert_eq!(parse_index(&b"+7".to_vec()), Some(7));
    assert_eq!(parse_index(&b"007".to_vec()), Some(7));
    assert_eq!(parse_index(&b"18446744073709551615".to_vec()), Some(usize::MAX));
}

#[test]
fn parse_index_rejects_non_numbers() {
    assert_eq!(parse_index(&b"".to_vec()), None);
    assert_eq!(parse_index(&b"+".to_vec()), None);
    assert_eq!(parse_index(&b"-1".to_vec()), None);
    assert_eq!(parse_index(&b"1/2/3".to_vec()), None);
    assert_eq!(parse_index(&b"12a".to_vec()), None);
    assert_eq!(parse_index(&b"18446744073709551616".to_vec()), None);
}

#[test]
fn parse_face_makes_indices_zero_based() {
    assert_eq!(parse_face(&fields(&["1", "2", "3"])), Some([0, 1, 2]));
    assert_eq!(parse_face(&fields(&["10", "20", "30", "40"])), Some([9, 19, 29]));
}

#[test]
fn parse_face_skips_fields_without_a_number() {
    assert_eq!(parse_face(&fields(&["", "5", "x", "6", "", "7"])), Some([4, 5, 6]));
}

#[test]
fn parse_face_needs_three_numbers() {
    assert_eq!(parse_face(&fields(&["1", "2"])), None);
    assert_eq!(parse_face(&fields(&[])), None);
    assert_eq!(parse_face(&fields(&["1/1/1", "2/2/2", "3/3/3"])), None);
}

#[test]
fn parse_face_rejects_index_zero() {
    assert_eq!(parse_face(&fields(&["0", "1", "2"])), None);
    assert_eq!(parse_face(&fields(&["1", "2", "0"])), None);
}

#[test]
fn checker_cells_alternate() {
    assert!(!checker_is_white(0, 0));
    assert!(checker_is_white(1, 0));
    assert!(checker_is_white(0, -1));
    assert!(!checker_is_white(-2, 0));
    assert!(checker_is_white(-3, -4));
    assert!(!checker_is_white(4, -14));
    assert!(checker_is_white(-5, -10));
}

#[test]
fn child_depth_within_bound() {
    assert_eq!(child_depth(0, 4), Some(1));
    assert_eq!(child_depth(4, 4), Some(5));
    assert_eq!(child_depth(0, 0), Some(1));
}

#[test]
fn child_depth_past_bound_stops() {
    assert_eq!(child_depth(5, 4), None);
    assert_eq!(child_depth(1, 0), None);
    assert_eq!(child_depth(usize::MAX, 4), None);
}

#[test]
fn recursion_chain_has_max_depth_plus_two_levels() {
    let max_depth = 4;
    let mut levels = 1;
    let mut depth = 0;
    while let Some(d) = child_depth(depth, max_depth) {
        depth = d;
        levels += 1;
    }
    assert_eq!(levels, max_depth + 2);
}

#[test]
fn split_fields_keeps_empty_fields() {
    assert_eq!(split_fields(&b"f 1 2 3".to_vec()), fields(&["f", "1", "2", "3"]));
    assert_eq!(split_fields(&b"a  b ".to_vec()), fields(&["a", "", "b", ""]));
    assert_eq!(split_fields(&b"".to_vec()), fields(&[""]));
    assert_eq!(split_fields(&b" ".to_vec()), fields(&["", ""]));
}

#[test]
fn obj_line_vertex_keeps_coordinate_fields() {
    assert_eq!(
        parse_obj_line(&b"v 0.5 -1 2e3".to_vec()),
        ObjLine::Vertex(fields(&["0.5", "-1", "2e3"]))
    );
}

#[test]
fn obj_line_face_is_parsed() {
    assert_eq!(parse_obj_line(&b"f 3 1 2".to_vec()), ObjLine::Face(Some([2, 0, 1])));
    assert_eq!(parse_obj_line(&b"f 3 1".to_vec()), ObjLine::Face(None));
}

#[test]
fn obj_line_other_keys_are_ignored() {
    assert_eq!(parse_obj_line(&b"vn 0 1 0".to_vec()), ObjLine::Other);
    assert_eq!(parse_obj_line(&b"# comment".to_vec()), ObjLine::Other);
    assert_eq!(parse_obj_line(&b"".to_vec()), ObjLine::Other);
    assert_eq!(parse_obj_line(&b" f 1 2 3".to_vec()), ObjLine::Other);
}
