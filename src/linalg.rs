//! Small vector operations of the `vecmath` crate, on exact integers.
use vstd::prelude::*;
use vstd::std_specs::ops::{AddSpec, MulSpec};

verus! {

/// Largest magnitude of a single product that the three-term operations below accept, so that
/// their sums and differences stay within `i128`.
pub open spec fn product_limit() -> int {
    0x2000_0000_0000_0000_0000_0000_0000_0000
}

pub open spec fn product_fits(a: i128, b: i128) -> bool {
    -product_limit() <= a * b <= product_limit()
}

/// Relies on `vecmath::vec3_cross`: the cross product
/// `[a1 b2 - a2 b1, a2 b0 - a0 b2, a0 b1 - a1 b0]`.
#[verifier::external_body]
pub(crate) fn cross3(a: [i128; 3], b: [i128; 3]) -> (r: [i128; 3])
    requires
        product_fits(a[1], b[2]),
        product_fits(a[2], b[1]),
        product_fits(a[2], b[0]),
        product_fits(a[0], b[2]),
        product_fits(a[0], b[1]),
        product_fits(a[1], b[0]),
    ensures
        r[0] == a[1] * b[2] - a[2] * b[1],
        r[1] == a[2] * b[0] - a[0] * b[2],
        r[2] == a[0] * b[1] - a[1] * b[0],
{
    vecmath::vec3_cross(a, b)
}

/// Relies on `vecmath::col_mat3x2_row`: row `i` of a matrix of three rows and two columns,
/// read down its columns; it panics for `i >= 2`.
pub assume_specification<T: Copy>[ vecmath::col_mat3x2_row::<T> ](a: [[T; 2]; 3], i: usize) -> (r: [T; 3])
    requires
        i < 2,
    ensures
        r[0] == a[0][i as int],
        r[1] == a[1][i as int],
        r[2] == a[2][i as int],
;

/// Relies on `vecmath::vec3_dot`: `a0 * b0 + a1 * b1 + a2 * b2`, computed left to right with
/// the operators of `T`.
pub assume_specification<T>[ vecmath::vec3_dot::<T> ](a: [T; 3], b: [T; 3]) -> (r: T)
    where
        T: Copy + core::ops::Add<T, Output = T> + core::ops::Mul<T, Output = T>,
    requires
        a[0].mul_req(b[0]),
        a[1].mul_req(b[1]),
        a[2].mul_req(b[2]),
        a[0].mul_spec(b[0]).add_req(a[1].mul_spec(b[1])),
        a[0].mul_spec(b[0]).add_spec(a[1].mul_spec(b[1])).add_req(a[2].mul_spec(b[2])),
    ensures
        T::obeys_mul_spec() && T::obeys_add_spec() ==> r == a[0].mul_spec(b[0]).add_spec(
            a[1].mul_spec(b[1]),
        ).add_spec(a[2].mul_spec(b[2])),
;

/// `a0 * b0 + a1 * b1 + a2 * b2` with the operators of `T`, added left to right.
pub open spec fn dot_value<T: core::ops::Add<T, Output = T> + core::ops::Mul<T, Output = T>>(
    a: [T; 3],
    b: [T; 3],
) -> T {
    a[0].mul_spec(b[0]).add_spec(a[1].mul_spec(b[1])).add_spec(a[2].mul_spec(b[2]))
}

/// The operators of `T` accept every step of `dot_value(a, b)` (for integers: nothing
/// overflows).
pub open spec fn dot_defined<T: core::ops::Add<T, Output = T> + core::ops::Mul<T, Output = T>>(
    a: [T; 3],
    b: [T; 3],
) -> bool {
    &&& a[0].mul_req(b[0])
    &&& a[1].mul_req(b[1])
    &&& a[2].mul_req(b[2])
    &&& a[0].mul_spec(b[0]).add_req(a[1].mul_spec(b[1]))
    &&& a[0].mul_spec(b[0]).add_spec(a[1].mul_spec(b[1])).add_req(a[2].mul_spec(b[2]))
}

/// Column `j` of a matrix of three rows and two columns.
pub open spec fn column<T>(mat: [[T; 2]; 3], j: int) -> [T; 3] {
    [mat[0][j], mat[1][j], mat[2][j]]
}

/// Weighs the three rows of `mat` by `a`: the dot product of `a` with each of the two columns.
/// With barycentric weights in `a` and a triangle's texture coordinates in `mat`, this
/// interpolates the coordinates.
pub fn col_mat3x2_mul_vec3<T>(mat: [[T; 2]; 3], a: [T; 3]) -> (r: [T; 2]) where
    T: Copy + core::ops::Add<T, Output = T> + core::ops::Mul<T, Output = T>,

    requires
        dot_defined(column(mat, 0), a),
        dot_defined(column(mat, 1), a),
    ensures
        T::obeys_mul_spec() && T::obeys_add_spec() ==> r[0] == dot_value(column(mat, 0), a),
        T::obeys_mul_spec() && T::obeys_add_spec() ==> r[1] == dot_value(column(mat, 1), a),
{
    let c0 = vecmath::col_mat3x2_row(mat, 0);
    let c1 = vecmath::col_mat3x2_row(mat, 1);
    assert(c0 == column(mat, 0));
    assert(c1 == column(mat, 1));
    [vecmath::vec3_dot(c0, a), vecmath::vec3_dot(c1, a)]
}

} // verus!
