//! Fixed-point 3-D vectors, surface samples, and rigid rotations.
//!
//! A `Vec3` carries `FP` sub-units per 1.0 in each component.  Rotation
//! matrices hold fixed-point entries, so applying one means an exact integer
//! matrix–vector product (delegated to `nalgebra`) followed by a truncating
//! rescale of each component.

use vstd::prelude::*;

use crate::fixed::{FP, t_div, iabs, divt, lemma_t_div_mag, lemma_mul_mag};

verus! {

/// A 3-D vector in fixed-point coordinates.
#[derive(Clone, Copy, PartialEq, Eq, Structural, Debug)]
pub struct Vec3 {
    pub x: i64,
    pub y: i64,
    pub z: i64,
}

/// One surface sample: a position and the outward unit normal at it.
/// The normal takes every rotation the position takes, but no translation.
#[derive(Clone, Copy, PartialEq, Eq, Structural, Debug)]
pub struct Sample {
    pub position: Vec3,
    pub normal: Vec3,
}

/// A sine/cosine pair for one angle, in fixed-point units.
#[derive(Clone, Copy, PartialEq, Eq, Structural, Debug)]
pub struct TrigPair {
    pub sin: i64,
    pub cos: i64,
}

/// A 3×3 matrix with fixed-point entries, row by row.
#[derive(Clone, Copy, PartialEq, Eq, Structural, Debug)]
pub struct Mat3 {
    pub m00: i64,
    pub m01: i64,
    pub m02: i64,
    pub m10: i64,
    pub m11: i64,
    pub m12: i64,
    pub m20: i64,
    pub m21: i64,
    pub m22: i64,
}

/// Every component of `v` lies within `b` of zero.
pub open spec fn in_range(v: Vec3, b: int) -> bool {
    &&& iabs(v.x as int) <= b
    &&& iabs(v.y as int) <= b
    &&& iabs(v.z as int) <= b
}

/// Sum of the component magnitudes of `v`.
pub open spec fn abs3(v: Vec3) -> int {
    iabs(v.x as int) + iabs(v.y as int) + iabs(v.z as int)
}

/// Every entry of `m` lies within `b` of zero.
pub open spec fn mat_in_range(m: Mat3, b: int) -> bool {
    &&& iabs(m.m00 as int) <= b && iabs(m.m01 as int) <= b && iabs(m.m02 as int) <= b
    &&& iabs(m.m10 as int) <= b && iabs(m.m11 as int) <= b && iabs(m.m12 as int) <= b
    &&& iabs(m.m20 as int) <= b && iabs(m.m21 as int) <= b && iabs(m.m22 as int) <= b
}

/// The pair satisfies the Pythagorean identity exactly, so the rotation it
/// parameterizes is orthonormal in fixed-point units.
pub open spec fn unit_pair(t: TrigPair) -> bool {
    t.sin * t.sin + t.cos * t.cos == FP * FP
}

/// Raw (unscaled) components of the matrix–vector product `m * v`.
pub open spec fn raw_x(m: Mat3, v: Vec3) -> int {
    m.m00 * v.x + m.m01 * v.y + m.m02 * v.z
}

pub open spec fn raw_y(m: Mat3, v: Vec3) -> int {
    m.m10 * v.x + m.m11 * v.y + m.m12 * v.z
}

pub open spec fn raw_z(m: Mat3, v: Vec3) -> int {
    m.m20 * v.x + m.m21 * v.y + m.m22 * v.z
}

/// Squared Euclidean norm of a vector, in raw integer units.
pub open spec fn norm_sq(v: Vec3) -> int {
    v.x * v.x + v.y * v.y + v.z * v.z
}

/// Relies on nalgebra's `Matrix::dot`: the sum of the componentwise products
/// of the two vectors (`self.transpose() * rhs`).
#[verifier::external_body]
pub fn dot3(a: &Vec3, b: &Vec3) -> (r: i64)
    requires
        in_range(*a, 0x10_0000),
        in_range(*b, 0x100_0000_0000),
    ensures
        r == a.x * b.x + a.y * b.y + a.z * b.z,
{
    let va = nalgebra::Vector3::new(a.x, a.y, a.z);
    let vb = nalgebra::Vector3::new(b.x, b.y, b.z);
    va.dot(&vb)
}

/// Relies on nalgebra's matrix–vector `*` (`Matrix3 * Vector3`): each result
/// component is the dot product of the matching matrix row with the vector.
#[verifier::external_body]
pub fn mat3_apply(m: &Mat3, v: &Vec3) -> (r: Vec3)
    requires
        mat_in_range(*m, 0x2_0000),
        in_range(*v, 0x100_0000_0000),
    ensures
        r.x == raw_x(*m, *v),
        r.y == raw_y(*m, *v),
        r.z == raw_z(*m, *v),
{
    let ma = nalgebra::Matrix3::new(
        m.m00, m.m01, m.m02,
        m.m10, m.m11, m.m12,
        m.m20, m.m21, m.m22,
    );
    let w = ma * nalgebra::Vector3::new(v.x, v.y, v.z);
    Vec3 { x: w.x, y: w.y, z: w.z }
}

/// Rotation about the vertical (y) axis, from a sine/cosine pair.
pub open spec fn rot_y_spec(t: TrigPair) -> Mat3 {
    Mat3 {
        m00: t.cos,
        m01: 0,
        m02: t.sin,
        m10: 0,
        m11: FP,
        m12: 0,
        m20: (-t.sin) as i64,
        m21: 0,
        m22: t.cos,
    }
}

/// Rotation about the depth (z) axis, from a sine/cosine pair.
pub open spec fn rot_z_spec(t: TrigPair) -> Mat3 {
    Mat3 {
        m00: t.cos,
        m01: (-t.sin) as i64,
        m02: 0,
        m10: t.sin,
        m11: t.cos,
        m12: 0,
        m20: 0,
        m21: 0,
        m22: FP,
    }
}

pub fn rot_y(t: &TrigPair) -> (r: Mat3)
    requires
        iabs(t.sin as int) <= FP,
        iabs(t.cos as int) <= FP,
    ensures
        r == rot_y_spec(*t),
{
    Mat3 {
        m00: t.cos,
        m01: 0,
        m02: t.sin,
        m10: 0,
        m11: FP,
        m12: 0,
        m20: -t.sin,
        m21: 0,
        m22: t.cos,
    }
}

pub fn rot_z(t: &TrigPair) -> (r: Mat3)
    requires
        iabs(t.sin as int) <= FP,
        iabs(t.cos as int) <= FP,
    ensures
        r == rot_z_spec(*t),
{
    Mat3 {
        m00: t.cos,
        m01: -t.sin,
        m02: 0,
        m10: t.sin,
        m11: t.cos,
        m12: 0,
        m20: 0,
        m21: 0,
        m22: FP,
    }
}

/// The rescaled components after applying rotation `m` to `v`.
pub open spec fn rot_x_val(m: Mat3, v: Vec3) -> int {
    t_div(raw_x(m, v), FP as int)
}

pub open spec fn rot_y_val(m: Mat3, v: Vec3) -> int {
    t_div(raw_y(m, v), FP as int)
}

pub open spec fn rot_z_val(m: Mat3, v: Vec3) -> int {
    t_div(raw_z(m, v), FP as int)
}

/// Apply a fixed-point rotation matrix: exact integer matrix–vector product,
/// then a truncating rescale of each component.
pub fn apply_rotation(m: &Mat3, v: &Vec3) -> (r: Vec3)
    requires
        mat_in_range(*m, FP as int),
        in_range(*v, 0x100_0000_0000),
    ensures
        r.x == rot_x_val(*m, *v),
        r.y == rot_y_val(*m, *v),
        r.z == rot_z_val(*m, *v),
        in_range(r, abs3(*v)),
{
    let w = mat3_apply(m, v);
    proof {
        lemma_raw_bound(*m, *v);
        lemma_t_div_mag(raw_x(*m, *v), FP as int, abs3(*v));
        lemma_t_div_mag(raw_y(*m, *v), FP as int, abs3(*v));
        lemma_t_div_mag(raw_z(*m, *v), FP as int, abs3(*v));
    }
    Vec3 { x: divt(w.x, FP), y: divt(w.y, FP), z: divt(w.z, FP) }
}

/// Each raw product component is within `FP * abs3(v)` of zero when the
/// matrix entries are fixed-point sized.
pub proof fn lemma_raw_bound(m: Mat3, v: Vec3)
    requires
        mat_in_range(m, FP as int),
    ensures
        iabs(raw_x(m, v)) <= FP * abs3(v),
        iabs(raw_y(m, v)) <= FP * abs3(v),
        iabs(raw_z(m, v)) <= FP * abs3(v),
{
    lemma_mul_mag(m.m00 as int, v.x as int, FP as int);
    lemma_mul_mag(m.m01 as int, v.y as int, FP as int);
    lemma_mul_mag(m.m02 as int, v.z as int, FP as int);
    lemma_mul_mag(m.m10 as int, v.x as int, FP as int);
    lemma_mul_mag(m.m11 as int, v.y as int, FP as int);
    lemma_mul_mag(m.m12 as int, v.z as int, FP as int);
    lemma_mul_mag(m.m20 as int, v.x as int, FP as int);
    lemma_mul_mag(m.m21 as int, v.y as int, FP as int);
    lemma_mul_mag(m.m22 as int, v.z as int, FP as int);
}

/// The rescaled rotation image, as a vector.
pub open spec fn rotated_vec(m: Mat3, v: Vec3) -> Vec3 {
    Vec3 { x: rot_x_val(m, v) as i64, y: rot_y_val(m, v) as i64, z: rot_z_val(m, v) as i64 }
}

/// A fixed-point rotation never grows a component beyond the sum of the
/// input's component magnitudes.
pub proof fn lemma_rotated_in_range(m: Mat3, v: Vec3)
    requires
        mat_in_range(m, FP as int),
        abs3(v) <= 0x1000_0000_0000_0000,
    ensures
        in_range(rotated_vec(m, v), abs3(v)),
        rotated_vec(m, v).x == rot_x_val(m, v),
        rotated_vec(m, v).y == rot_y_val(m, v),
        rotated_vec(m, v).z == rot_z_val(m, v),
{
    lemma_raw_bound(m, v);
    lemma_t_div_mag(raw_x(m, v), FP as int, abs3(v));
    lemma_t_div_mag(raw_y(m, v), FP as int, abs3(v));
    lemma_t_div_mag(raw_z(m, v), FP as int, abs3(v));
}

/// Rigid rotation about the vertical axis preserves the squared norm exactly
/// before rescaling: the raw product's norm is `FP²` times the input's.
pub proof fn lemma_rot_y_preserves_norm(t: TrigPair, v: Vec3)
    requires
        unit_pair(t),
    ensures
        raw_x(rot_y_spec(t), v) * raw_x(rot_y_spec(t), v) + raw_y(rot_y_spec(t), v) * raw_y(
            rot_y_spec(t),
            v,
        ) + raw_z(rot_y_spec(t), v) * raw_z(rot_y_spec(t), v) == FP * FP * norm_sq(v),
{
    let c = t.cos as int;
    let s = t.sin as int;
    let x = v.x as int;
    let y = v.y as int;
    let z = v.z as int;
    let f = FP as int;
    assert(-f <= s <= f && -f <= c <= f) by (nonlinear_arith)
        requires
            s * s + c * c == f * f,
            f == FP,
    ;
    lemma_rot2_identity(c, s, x, z);
    assert((f * y) * (f * y) == (f * f) * (y * y)) by (nonlinear_arith);
    assert((f * f) * (x * x + z * z) + (f * f) * (y * y) == (f * f) * (x * x + y * y + z * z))
        by (nonlinear_arith);
    let m = rot_y_spec(t);
    assert(m.m20 == -s);
    assert(raw_x(m, v) == c * x + s * z);
    assert(raw_y(m, v) == f * y);
    assert(raw_z(m, v) == (-s) * x + c * z);
    assert(raw_x(m, v) * raw_x(m, v) + raw_z(m, v) * raw_z(m, v) == (s * s + c * c) * (x * x + z
        * z));
    assert((s * s + c * c) * (x * x + z * z) == (f * f) * (x * x + z * z));
    assert(raw_y(m, v) * raw_y(m, v) == (f * f) * (y * y));
    assert(norm_sq(v) == x * x + y * y + z * z);
}

/// Planar rotation identity: the two rotated coordinates carry exactly the
/// squared norm of the originals, scaled by `s² + c²`.
pub proof fn lemma_rot2_identity(c: int, s: int, u: int, w: int)
    ensures
        (c * u + s * w) * (c * u + s * w) + ((-s) * u + c * w) * ((-s) * u + c * w) == (s * s + c
            * c) * (u * u + w * w),
{
    let a = c * u + s * w;
    let b = (-s) * u + c * w;
    assert(a * a == (c * u) * (c * u) + 2 * ((c * u) * (s * w)) + (s * w) * (s * w))
        by (nonlinear_arith)
        requires
            a == c * u + s * w,
    ;
    assert(b * b == (s * u) * (s * u) - 2 * ((s * u) * (c * w)) + (c * w) * (c * w))
        by (nonlinear_arith)
        requires
            b == (-s) * u + c * w,
    ;
    assert((c * u) * (s * w) == (s * u) * (c * w)) by (nonlinear_arith);
    assert((c * u) * (c * u) + (s * u) * (s * u) == (s * s + c * c) * (u * u)) by (nonlinear_arith);
    assert((c * w) * (c * w) + (s * w) * (s * w) == (s * s + c * c) * (w * w)) by (nonlinear_arith);
    assert((s * s + c * c) * (u * u) + (s * s + c * c) * (w * w) == (s * s + c * c) * (u * u + w
        * w)) by (nonlinear_arith);
}

/// Rigid rotation about the depth axis preserves the squared norm exactly
/// before rescaling: the raw product's norm is `FP²` times the input's.
pub proof fn lemma_rot_z_preserves_norm(t: TrigPair, v: Vec3)
    requires
        unit_pair(t),
    ensures
        raw_x(rot_z_spec(t), v) * raw_x(rot_z_spec(t), v) + raw_y(rot_z_spec(t), v) * raw_y(
            rot_z_spec(t),
            v,
        ) + raw_z(rot_z_spec(t), v) * raw_z(rot_z_spec(t), v) == FP * FP * norm_sq(v),
{
    let c = t.cos as int;
    let s = t.sin as int;
    let x = v.x as int;
    let y = v.y as int;
    let z = v.z as int;
    let f = FP as int;
    assert(-f <= s <= f && -f <= c <= f) by (nonlinear_arith)
        requires
            s * s + c * c == f * f,
            f == FP,
    ;
    lemma_rot2_identity(c, -s, x, y);
    assert((-s) * (-s) == s * s) by (nonlinear_arith);
    assert((f * z) * (f * z) == (f * f) * (z * z)) by (nonlinear_arith);
    assert((f * f) * (x * x + y * y) + (f * f) * (z * z) == (f * f) * (x * x + y * y + z * z))
        by (nonlinear_arith);
    let m = rot_z_spec(t);
    assert(m.m01 == -s);
    assert(raw_x(m, v) == c * x + (-s) * y);
    assert(raw_y(m, v) == s * x + c * y);
    assert(raw_z(m, v) == f * z);
    assert(raw_x(m, v) * raw_x(m, v) + raw_y(m, v) * raw_y(m, v) == (s * s + c * c) * (x * x + y
        * y));
    assert((s * s + c * c) * (x * x + y * y) == (f * f) * (x * x + y * y));
    assert(raw_z(m, v) * raw_z(m, v) == (f * f) * (z * z));
    assert(norm_sq(v) == x * x + y * y + z * z);
}

} // verus!
