//! Exact linear algebra on whole numbers: a row vector of four components
//! times a four by four matrix.
//!
//! The vector stands on the left, so each component of the product is the
//! vector times one column of the matrix. Components and entries are 32-bit
//! integers; the product is given in 128 bits, which every sum of four
//! products fits, so nothing is ever rounded or cut off.

use vstd::prelude::*;

verus! {

/// The identity matrix.
pub const IDENTITY: [[i32; 4]; 4] = [[1, 0, 0, 0], [0, 1, 0, 0], [0, 0, 1, 0], [0, 0, 0, 1]];

/// Component `j` of the row vector `v` times the matrix `m`.
pub open spec fn row_times_column(m: [[i32; 4]; 4], v: [i32; 4], j: int) -> int {
    v[0] * m[0][j] + v[1] * m[1][j] + v[2] * m[2][j] + v[3] * m[3][j]
}

/// The vector whose component `k` is one and whose other components are
/// zero.
pub open spec fn unit(k: int) -> Seq<i32> {
    Seq::new(4, |i: int| if i == k { 1i32 } else { 0i32 })
}

/// A product of two 32-bit integers is at most `2^62` in size.
proof fn lemma_product_fits(a: i32, b: i32)
    by (nonlinear_arith)
    ensures
        -0x4000_0000_0000_0000 <= a * b <= 0x4000_0000_0000_0000,
{
}

/// Computes one component of the product.
fn times_column(m: &[[i32; 4]; 4], v: &[i32; 4], j: usize) -> (sum: i128)
    requires
        j < 4,
    ensures
        sum == row_times_column(*m, *v, j as int),
{
    proof {
        lemma_product_fits(v[0], m[0][j as int]);
        lemma_product_fits(v[1], m[1][j as int]);
        lemma_product_fits(v[2], m[2][j as int]);
        lemma_product_fits(v[3], m[3][j as int]);
    }
    let x: i128 = v[0] as i128 * m[0][j] as i128;
    let y: i128 = v[1] as i128 * m[1][j] as i128;
    let z: i128 = v[2] as i128 * m[2][j] as i128;
    let w: i128 = v[3] as i128 * m[3][j] as i128;
    x + y + z + w
}

/// Multiplies the row vector `v` with the matrix `m`.
pub fn matrix_times_vector(m: &[[i32; 4]; 4], v: &[i32; 4]) -> (r: [i128; 4])
    ensures
        forall|j: int| 0 <= j < 4 ==> r[j] == row_times_column(*m, *v, j),
{
    [times_column(m, v, 0), times_column(m, v, 1), times_column(m, v, 2), times_column(m, v, 3)]
}

/// Returns the unit vector along axis `k`.
pub fn unit_vector(k: usize) -> (v: [i32; 4])
    requires
        k < 4,
    ensures
        v@ == unit(k as int),
{
    let v: [i32; 4] = [
        if k == 0 {
            1
        } else {
            0
        },
        if k == 1 {
            1
        } else {
            0
        },
        if k == 2 {
            1
        } else {
            0
        },
        if k == 3 {
            1
        } else {
            0
        },
    ];
    assert(v@ =~= unit(k as int));
    v
}

/// The identity matrix leaves every vector as it is.
pub proof fn lemma_identity(v: [i32; 4])
    ensures
        forall|j: int| 0 <= j < 4 ==> row_times_column(IDENTITY, v, j) == v[j],
{
    assert forall|j: int| 0 <= j < 4 implies row_times_column(IDENTITY, v, j) == v[j] by {
        lemma_times_bit(IDENTITY[0][j], v[0]);
        lemma_times_bit(IDENTITY[1][j], v[1]);
        lemma_times_bit(IDENTITY[2][j], v[2]);
        lemma_times_bit(IDENTITY[3][j], v[3]);
    }
}

/// A unit vector picks a row of the matrix: the product of the unit vector
/// along axis `k` with `m` is row `k` of `m`.
pub proof fn lemma_unit_selects_row(m: [[i32; 4]; 4], v: [i32; 4], k: int)
    requires
        0 <= k < 4,
        v@ == unit(k),
    ensures
        forall|j: int| 0 <= j < 4 ==> row_times_column(m, v, j) == m[k][j],
{
    assert(v[0] == unit(k)[0] && v[1] == unit(k)[1] && v[2] == unit(k)[2] && v[3] == unit(k)[3]);
    assert forall|j: int| 0 <= j < 4 implies row_times_column(m, v, j) == m[k][j] by {
        lemma_times_bit(v[0], m[0][j]);
        lemma_times_bit(v[1], m[1][j]);
        lemma_times_bit(v[2], m[2][j]);
        lemma_times_bit(v[3], m[3][j]);
    }
}

/// Zero times a number is zero and one times a number is that number.
proof fn lemma_times_bit(bit: i32, a: i32)
    by (nonlinear_arith)
    ensures
        bit == 0 ==> bit * a == 0 && a * bit == 0,
        bit == 1 ==> bit * a == a && a * bit == a,
{
}

/// The zero vector gives the zero vector whatever the matrix.
pub proof fn lemma_zero_vector(m: [[i32; 4]; 4], v: [i32; 4])
    requires
        forall|i: int| 0 <= i < 4 ==> v[i] == 0,
    ensures
        forall|j: int| 0 <= j < 4 ==> row_times_column(m, v, j) == 0,
{
    assert forall|j: int| 0 <= j < 4 implies row_times_column(m, v, j) == 0 by {
        lemma_times_bit(v[0], m[0][j]);
        lemma_times_bit(v[1], m[1][j]);
        lemma_times_bit(v[2], m[2][j]);
        lemma_times_bit(v[3], m[3][j]);
    }
}

/// The product is linear in the vector: where one vector is the sum of
/// two others, scaled by `s` and `t`, its product is the same sum of their
/// products.
pub proof fn lemma_linear(m: [[i32; 4]; 4], u: [i32; 4], v: [i32; 4], w: [i32; 4], s: int, t: int)
    requires
        forall|i: int| 0 <= i < 4 ==> w[i] == s * u[i] + t * v[i],
    ensures
        forall|j: int|
            0 <= j < 4 ==> row_times_column(m, w, j) == s * row_times_column(m, u, j) + t
                * row_times_column(m, v, j),
{
    assert forall|j: int| 0 <= j < 4 implies row_times_column(m, w, j) == s * row_times_column(
        m,
        u,
        j,
    ) + t * row_times_column(m, v, j) by {
        lemma_scaled_sum_times(s, u[0] as int, t, v[0] as int, m[0][j] as int);
        lemma_scaled_sum_times(s, u[1] as int, t, v[1] as int, m[1][j] as int);
        lemma_scaled_sum_times(s, u[2] as int, t, v[2] as int, m[2][j] as int);
        lemma_scaled_sum_times(s, u[3] as int, t, v[3] as int, m[3][j] as int);
        lemma_scale_four(s, u[0] * m[0][j], u[1] * m[1][j], u[2] * m[2][j], u[3] * m[3][j]);
        lemma_scale_four(t, v[0] * m[0][j], v[1] * m[1][j], v[2] * m[2][j], v[3] * m[3][j]);
    }
}

/// A scaled sum times a number is the scaled sum of the products.
proof fn lemma_scaled_sum_times(s: int, u: int, t: int, v: int, a: int)
    by (nonlinear_arith)
    ensures
        (s * u + t * v) * a == s * (u * a) + t * (v * a),
{
}

/// Scaling a sum of four scales each of the four.
proof fn lemma_scale_four(s: int, a: int, b: int, c: int, d: int)
    by (nonlinear_arith)
    ensures
        s * (a + b + c + d) == s * a + s * b + s * c + s * d,
{
}

} // verus!
