use tinyrenderer::model::{parse_face_vertex, FaceVertexIndices};

fn idx(vert: usize, tex: usize, norm: usize) -> FaceVertexIndices {
    FaceVertexIndices { vert, tex, norm }
}

#[test]
fn full_corner_becomes_zero_based() {
    assert_eq!(parse_face_vertex("1/2/3"), idx(0, 1, 2));
    assert_eq!(parse_face_vertex("24/1/24"), idx(23, 0, 23));
}

#[test]
fn missing_fields_give_zero() {
    assert_eq!(parse_face_vertex("5"), idx(4, 0, 0));
    assert_eq!(parse_face_vertex("5//7"), idx(4, 0, 6));
    assert_eq!(parse_face_vertex("5/6"), idx(4, 5, 0));
    assert_eq!(parse_face_vertex(""), idx(0, 0, 0));
}

#[test]
fn unreadable_fields_give_zero() {
    assert_eq!(parse_face_vertex("+3/x/2"), idx(2, 0, 1));
    assert_eq!(parse_face_vertex("-1/2/3"), idx(0, 1, 2));
    assert_eq!(parse_face_vertex("1/2/3/4"), idx(0, 1, 0));
    assert_eq!(parse_face_vertex("99999999999999999999999/2/3"), idx(0, 1, 2));
}

#[test]
fn index_zero_wraps_around() {
    assert_eq!(parse_face_vertex("0/1/1"), idx(usize::MAX, 0, 0));
}
