//! Per-frame rigid transform of the mesh.
//!
//! Every sample is updated in place: the position is moved so the pivot sits
//! at the origin, rotated about the vertical axis and then about the depth
//! axis, and moved back; the normal takes the same two rotations and no
//! translation.  Both rotations are given as fixed-point sine/cosine pairs.

use vstd::prelude::*;

use crate::vec3::{
    mat_in_range,
    Vec3,
    Sample,
    TrigPair,
    in_range,
    abs3,
    rot_y,
    rot_z,
    rot_y_spec,
    rot_z_spec,
    apply_rotation,
    rotated_vec,
    lemma_rotated_in_range,
};
use crate::fixed::{FP, iabs};
use crate::vec3::{raw_x, raw_y, raw_z, norm_sq, unit_pair};
use crate::mesh::pair_in_range;

verus! {

/// Largest component magnitude the frame transformer accepts.
pub const MAX_COORD: i64 = 0x400_0000;

/// A normal after the two incremental rotations, vertical axis first.
pub open spec fn transformed_normal(n: Vec3, ty: TrigPair, tz: TrigPair) -> Vec3 {
    rotated_vec(rot_z_spec(tz), rotated_vec(rot_y_spec(ty), n))
}

/// A position after the full frame step: translate the pivot to the origin,
/// rotate about the vertical axis, rotate about the depth axis, translate
/// back.
pub open spec fn transformed_position(p: Vec3, pivot: Vec3, ty: TrigPair, tz: TrigPair) -> Vec3 {
    let q = Vec3 {
        x: (p.x - pivot.x) as i64,
        y: (p.y - pivot.y) as i64,
        z: (p.z - pivot.z) as i64,
    };
    let r = rotated_vec(rot_z_spec(tz), rotated_vec(rot_y_spec(ty), q));
    Vec3 { x: (r.x + pivot.x) as i64, y: (r.y + pivot.y) as i64, z: (r.z + pivot.z) as i64 }
}

/// A whole sample after one frame step.
pub open spec fn transformed_sample(s: Sample, pivot: Vec3, ty: TrigPair, tz: TrigPair) -> Sample {
    Sample {
        position: transformed_position(s.position, pivot, ty, tz),
        normal: transformed_normal(s.normal, ty, tz),
    }
}

/// One frame step is norm-preserving up to truncation.  For exactly
/// orthonormal sine/cosine pairs, each of the two rotations scales the exact
/// (pre-rescale) squared norm by precisely `FP²` — a rigid motion — and every
/// stored component sits within one truncation step of its exact value over
/// `FP`.  The same holds for a position relative to the pivot, since the
/// frame step rotates exactly the pivot-relative vector.
pub proof fn lemma_frame_step_preserves_norm(n: Vec3, ty: TrigPair, tz: TrigPair)
    requires
        unit_pair(ty),
        unit_pair(tz),
        abs3(n) <= 0x1000_0000_0000,
    ensures
        raw_x(rot_y_spec(ty), n) * raw_x(rot_y_spec(ty), n) + raw_y(rot_y_spec(ty), n) * raw_y(
            rot_y_spec(ty),
            n,
        ) + raw_z(rot_y_spec(ty), n) * raw_z(rot_y_spec(ty), n) == FP * FP * norm_sq(n),
        iabs(FP * rotated_vec(rot_y_spec(ty), n).x - raw_x(rot_y_spec(ty), n)) < FP,
        iabs(FP * rotated_vec(rot_y_spec(ty), n).y - raw_y(rot_y_spec(ty), n)) < FP,
        iabs(FP * rotated_vec(rot_y_spec(ty), n).z - raw_z(rot_y_spec(ty), n)) < FP,
        ({
            let w = rotated_vec(rot_y_spec(ty), n);
            raw_x(rot_z_spec(tz), w) * raw_x(rot_z_spec(tz), w) + raw_y(rot_z_spec(tz), w) * raw_y(
                rot_z_spec(tz),
                w,
            ) + raw_z(rot_z_spec(tz), w) * raw_z(rot_z_spec(tz), w) == FP * FP * norm_sq(w)
        }),
        ({
            let w = rotated_vec(rot_y_spec(ty), n);
            &&& iabs(FP * transformed_normal(n, ty, tz).x - raw_x(rot_z_spec(tz), w)) < FP
            &&& iabs(FP * transformed_normal(n, ty, tz).y - raw_y(rot_z_spec(tz), w)) < FP
            &&& iabs(FP * transformed_normal(n, ty, tz).z - raw_z(rot_z_spec(tz), w)) < FP
        }),
{
    let f = FP as int;
    assert(mat_in_range(rot_y_spec(ty), f) && mat_in_range(rot_z_spec(tz), f)) by {
        assert(-f <= ty.sin <= f && -f <= ty.cos <= f) by (nonlinear_arith)
            requires
                ty.sin * ty.sin + ty.cos * ty.cos == f * f && f == FP,
        ;
        assert(-f <= tz.sin <= f && -f <= tz.cos <= f) by (nonlinear_arith)
            requires
                tz.sin * tz.sin + tz.cos * tz.cos == f * f && f == FP,
        ;
    }
    crate::vec3::lemma_rot_y_preserves_norm(ty, n);
    lemma_rotated_in_range(rot_y_spec(ty), n);
    let w = rotated_vec(rot_y_spec(ty), n);
    crate::vec3::lemma_rot_z_preserves_norm(tz, w);
    lemma_rotated_in_range(rot_z_spec(tz), w);
    lemma_close_component(raw_x(rot_y_spec(ty), n), w.x as int);
    lemma_close_component(raw_y(rot_y_spec(ty), n), w.y as int);
    lemma_close_component(raw_z(rot_y_spec(ty), n), w.z as int);
    let u = transformed_normal(n, ty, tz);
    lemma_close_component(raw_x(rot_z_spec(tz), w), u.x as int);
    lemma_close_component(raw_y(rot_z_spec(tz), w), u.y as int);
    lemma_close_component(raw_z(rot_z_spec(tz), w), u.z as int);
}

/// The stored (rescaled) component of a raw value is within one truncation
/// step: `|FP * t_div(raw, FP) - raw| < FP`.
proof fn lemma_close_component(raw: int, stored: int)
    requires
        stored == crate::fixed::t_div(raw, FP as int),
    ensures
        iabs(FP * stored - raw) < FP,
{
    crate::fixed::lemma_t_div_close(raw, FP as int);
    assert(crate::fixed::t_div(raw, FP as int) * FP == FP * crate::fixed::t_div(raw, FP as int))
        by (nonlinear_arith);
}

/// Component bounds survive one frame step with room to spare.
#[verifier::rlimit(100)]
pub proof fn lemma_transformed_in_range(s: Sample, pivot: Vec3, ty: TrigPair, tz: TrigPair)
    requires
        in_range(s.position, MAX_COORD as int),
        in_range(s.normal, MAX_COORD as int),
        in_range(pivot, MAX_COORD as int),
        pair_in_range(ty),
        pair_in_range(tz),
    ensures
        in_range(transformed_sample(s, pivot, ty, tz).position, 32 * MAX_COORD),
        in_range(transformed_sample(s, pivot, ty, tz).normal, 32 * MAX_COORD),
{
    let p = s.position;
    let q = Vec3 {
        x: (p.x - pivot.x) as i64,
        y: (p.y - pivot.y) as i64,
        z: (p.z - pivot.z) as i64,
    };
    assert(mat_in_range(rot_y_spec(ty), FP as int));
    assert(mat_in_range(rot_z_spec(tz), FP as int));
    assert(in_range(q, 2 * MAX_COORD));
    lemma_rotated_in_range(rot_y_spec(ty), q);
    let r1 = rotated_vec(rot_y_spec(ty), q);
    assert(in_range(r1, 6 * MAX_COORD));
    lemma_rotated_in_range(rot_z_spec(tz), r1);
    let r2 = rotated_vec(rot_z_spec(tz), r1);
    assert(in_range(r2, 18 * MAX_COORD));
    assert(transformed_sample(s, pivot, ty, tz).position == Vec3 {
        x: (r2.x + pivot.x) as i64,
        y: (r2.y + pivot.y) as i64,
        z: (r2.z + pivot.z) as i64,
    });
    lemma_rotated_in_range(rot_y_spec(ty), s.normal);
    let w1 = rotated_vec(rot_y_spec(ty), s.normal);
    assert(in_range(w1, 3 * MAX_COORD));
    lemma_rotated_in_range(rot_z_spec(tz), w1);
    let w2 = rotated_vec(rot_z_spec(tz), w1);
    assert(in_range(w2, 9 * MAX_COORD));
    assert(transformed_sample(s, pivot, ty, tz).normal == w2);
}

/// Advance the whole mesh by one frame step, in place.
#[verifier::rlimit(100)]
pub fn transform_mesh(
    mesh: &mut Vec<Sample>,
    pivot: Vec3,
    rot_vertical: &TrigPair,
    rot_depth: &TrigPair,
)
    requires
        forall|k: int|
            0 <= k < old(mesh)@.len() ==> in_range(
                #[trigger] old(mesh)@[k].position,
                MAX_COORD as int,
            ),
        forall|k: int|
            0 <= k < old(mesh)@.len() ==> in_range(
                #[trigger] old(mesh)@[k].normal,
                MAX_COORD as int,
            ),
        in_range(pivot, MAX_COORD as int),
        pair_in_range(*rot_vertical),
        pair_in_range(*rot_depth),
    ensures
        final(mesh)@.len() == old(mesh)@.len(),
        forall|k: int|
            0 <= k < old(mesh)@.len() ==> #[trigger] final(mesh)@[k] == transformed_sample(
                old(mesh)@[k],
                pivot,
                *rot_vertical,
                *rot_depth,
            ),
        forall|k: int|
            0 <= k < final(mesh)@.len() ==> in_range(#[trigger] final(mesh)@[k].position, 32 * MAX_COORD),
        forall|k: int|
            0 <= k < final(mesh)@.len() ==> in_range(#[trigger] final(mesh)@[k].normal, 32 * MAX_COORD),
{
    let my = rot_y(rot_vertical);
    let mz = rot_z(rot_depth);
    let n = mesh.len();
    let mut k: usize = 0;
    while k < n
        invariant
            n == mesh@.len(),
            n == old(mesh)@.len(),
            0 <= k <= n,
            my == rot_y_spec(*rot_vertical),
            mz == rot_z_spec(*rot_depth),
            in_range(pivot, MAX_COORD as int),
            pair_in_range(*rot_vertical),
            pair_in_range(*rot_depth),
            forall|j: int| k <= j < n ==> #[trigger] mesh@[j] == old(mesh)@[j],
            forall|j: int|
                0 <= j < old(mesh)@.len() ==> in_range(
                    #[trigger] old(mesh)@[j].position,
                    MAX_COORD as int,
                ),
            forall|j: int|
                0 <= j < old(mesh)@.len() ==> in_range(
                    #[trigger] old(mesh)@[j].normal,
                    MAX_COORD as int,
                ),
            forall|j: int|
                0 <= j < k ==> #[trigger] mesh@[j] == transformed_sample(
                    old(mesh)@[j],
                    pivot,
                    *rot_vertical,
                    *rot_depth,
                ),
        decreases n - k,
    {
        let s = mesh[k];
        let q = Vec3 {
            x: s.position.x - pivot.x,
            y: s.position.y - pivot.y,
            z: s.position.z - pivot.z,
        };
        let q1 = apply_rotation(&my, &q);
        let q2 = apply_rotation(&mz, &q1);
        let new_position = Vec3 { x: q2.x + pivot.x, y: q2.y + pivot.y, z: q2.z + pivot.z };
        let n1 = apply_rotation(&my, &s.normal);
        let n2 = apply_rotation(&mz, &n1);
        mesh[k] = Sample { position: new_position, normal: n2 };
        k = k + 1;
    }
    proof {
        assert forall|j: int| 0 <= j < mesh@.len() implies in_range(
            #[trigger] mesh@[j].position,
            32 * MAX_COORD,
        ) by {
            lemma_transformed_in_range(old(mesh)@[j], pivot, *rot_vertical, *rot_depth);
        }
        assert forall|j: int| 0 <= j < mesh@.len() implies in_range(
            #[trigger] mesh@[j].normal,
            32 * MAX_COORD,
        ) by {
            lemma_transformed_in_range(old(mesh)@[j], pivot, *rot_vertical, *rot_depth);
        }
    }
}

} // verus!
