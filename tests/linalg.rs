use tinyrenderer::linalg::col_mat3x2_mul_vec3;
use tinyrenderer::model::FaceVertexIndices;

#[test]
fn weighs_rows_of_integer_matrix() {
    assert_eq!(col_mat3x2_mul_vec3::<i64>([[1, 2], [3, 4], [5, 6]], [1, 1, 2]), [14, 18]);
}

#[test]
fn interpolates_texture_coordinates() {
    let uv = [[0.0f32, 0.0], [1.0, 0.0], [0.0, 1.0]];
    let r = col_mat3x2_mul_vec3(uv, [0.5f32, 0.25, 0.25]);
    assert!((r[0] - 0.25).abs() < 1e-6);
    assert!((r[1] - 0.25).abs() < 1e-6);
}

#[test]
fn face_vertex_indices_hold_three_indices() {
    let f = FaceVertexIndices { vert: 3, tex: 1, norm: 2 };
    let g = f;
    assert_eq!(f, g);
    assert_eq!((g.vert, g.tex, g.norm), (3, 1, 2));
}
