//! Torus mesh generation.
//!
//! The torus is a tube circle of radius `tube_radius`, centered
//! `hole_radius + tube_radius` from the vertical axis, swept around that
//! axis.  Angles enter as tables of fixed-point sine/cosine pairs, one entry
//! per sweep step, so every produced sample is an exact integer function of
//! the radii and the table entries.

use vstd::prelude::*;

use crate::fixed::{FP, t_div, fmul, iabs, divt, mul_fp, lemma_t_div_exact, lemma_fmul_mag};
use crate::vec3::{Vec3, Sample, TrigPair, in_range, unit_pair, rot_y, apply_rotation};

verus! {

/// Both halves of the pair are fixed-point sized.
pub open spec fn pair_in_range(t: TrigPair) -> bool {
    &&& iabs(t.sin as int) <= FP
    &&& iabs(t.cos as int) <= FP
}

/// Largest radius (in fixed-point units) the generator accepts.
pub const MAX_RADIUS: i64 = 0x200_0000;

/// Outward normal of the torus surface at sweep step `t`, tube step `c`:
/// `sin φ` along the vertical axis plus `cos φ` along the radial direction
/// `(cos θ, 0, -sin θ)`.
pub open spec fn torus_normal(t: TrigPair, c: TrigPair) -> Vec3 {
    Vec3 {
        x: fmul(c.cos as int, t.cos as int) as i64,
        y: c.sin,
        z: fmul(c.cos as int, -t.sin as int) as i64,
    }
}

/// Surface position at sweep step `t`, tube step `c`: the center of the tube
/// circle at sweep angle θ, plus `tube_radius` times the outward normal.
pub open spec fn torus_position(
    hole_radius: i64,
    tube_radius: i64,
    t: TrigPair,
    c: TrigPair,
) -> Vec3 {
    let ring = hole_radius + tube_radius;
    let n = torus_normal(t, c);
    Vec3 {
        x: (fmul(t.cos as int, ring) + fmul(tube_radius as int, n.x as int)) as i64,
        y: fmul(tube_radius as int, n.y as int) as i64,
        z: (fmul(-t.sin as int, ring) + fmul(tube_radius as int, n.z as int)) as i64,
    }
}

/// The full sample at sweep step `t`, tube step `c`.
pub open spec fn torus_sample(
    hole_radius: i64,
    tube_radius: i64,
    t: TrigPair,
    c: TrigPair,
) -> Sample {
    Sample {
        position: torus_position(hole_radius, tube_radius, t, c),
        normal: torus_normal(t, c),
    }
}

/// The generated normal has unit length up to truncation: for exactly
/// orthonormal sine/cosine pairs, the raw (unscaled) normal's squared norm is
/// exactly `FP⁴`, and each stored component sits within one truncation step
/// of the matching raw component over `FP`.
pub proof fn lemma_torus_normal_unit(t: TrigPair, c: TrigPair)
    requires
        unit_pair(t),
        unit_pair(c),
    ensures
        (c.cos * t.cos) * (c.cos * t.cos) + (FP * c.sin) * (FP * c.sin) + (c.cos * t.sin) * (c.cos
            * t.sin) == (FP * FP) * (FP * FP),
        iabs(FP * torus_normal(t, c).x - c.cos * t.cos) < FP,
        torus_normal(t, c).y == c.sin,
        iabs(FP * torus_normal(t, c).z + c.cos * t.sin) < FP,
{
    let st = t.sin as int;
    let ct = t.cos as int;
    let sc = c.sin as int;
    let cc = c.cos as int;
    let f = FP as int;
    assert(-f <= st <= f && -f <= ct <= f) by (nonlinear_arith)
        requires
            st * st + ct * ct == f * f && f == FP,
    ;
    assert(-f <= sc <= f && -f <= cc <= f) by (nonlinear_arith)
        requires
            sc * sc + cc * cc == f * f && f == FP,
    ;
    assert((cc * ct) * (cc * ct) == (cc * cc) * (ct * ct)) by (nonlinear_arith);
    assert((cc * st) * (cc * st) == (cc * cc) * (st * st)) by (nonlinear_arith);
    assert((f * sc) * (f * sc) == (f * f) * (sc * sc)) by (nonlinear_arith);
    assert((cc * cc) * (ct * ct) + (cc * cc) * (st * st) == (cc * cc) * (ct * ct + st * st))
        by (nonlinear_arith);
    assert((cc * cc) * (f * f) == (f * f) * (cc * cc)) by (nonlinear_arith);
    assert((f * f) * (cc * cc) + (f * f) * (sc * sc) == (f * f) * (cc * cc + sc * sc))
        by (nonlinear_arith);
    lemma_fmul_mag(cc, ct, f);
    lemma_fmul_mag(cc, -st, f);
    crate::fixed::lemma_t_div_close(cc * ct, f);
    crate::fixed::lemma_t_div_close(cc * (-st), f);
    assert(torus_normal(t, c).x == fmul(cc, ct));
    assert(torus_normal(t, c).z == fmul(cc, -st));
    assert(fmul(cc, ct) * f == f * fmul(cc, ct)) by (nonlinear_arith);
    assert(fmul(cc, -st) * f == f * fmul(cc, -st)) by (nonlinear_arith);
    assert(cc * (-st) == -(cc * st)) by (nonlinear_arith);
}

/// Fixed-point ramp: step `i` of `max` from `range_start` toward `range_end`.
pub fn map_range(i: u32, max: u32, range_start: i64, range_end: i64) -> (r: i64)
    requires
        max >= 1,
        i <= max,
        iabs(range_start as int) <= 0x2000_0000,
        iabs(range_end as int) <= 0x2000_0000,
    ensures
        r == t_div((range_end - range_start) * i, max as int),
{
    let diff: i64 = range_end - range_start;
    proof {
        assert(iabs(diff * i) <= 0x4000_0000 * 0x1_0000_0000) by (nonlinear_arith)
            requires
                iabs(diff as int) <= 0x4000_0000 && 0 <= i <= 0x1_0000_0000,
        ;
    }
    divt(diff * (i as i64), max as i64)
}

/// Every sample the generator can produce stays within fixed component
/// bounds: positions within three radii, normals within one fixed-point unit.
pub proof fn lemma_torus_sample_in_range(hole_radius: i64, tube_radius: i64, t: TrigPair, c: TrigPair)
    requires
        0 <= hole_radius <= MAX_RADIUS,
        0 <= tube_radius <= MAX_RADIUS,
        pair_in_range(t),
        pair_in_range(c),
    ensures
        in_range(torus_sample(hole_radius, tube_radius, t, c).position, 3 * MAX_RADIUS),
        in_range(torus_sample(hole_radius, tube_radius, t, c).normal, FP as int),
{
    let ring = hole_radius + tube_radius;
    lemma_fmul_mag(c.cos as int, t.cos as int, FP as int);
    lemma_fmul_mag(c.cos as int, -t.sin as int, FP as int);
    let n = torus_normal(t, c);
    lemma_fmul_mag(t.cos as int, ring as int, 2 * MAX_RADIUS as int);
    lemma_fmul_mag(-t.sin as int, ring as int, 2 * MAX_RADIUS as int);
    lemma_fmul_mag(n.x as int, tube_radius as int, MAX_RADIUS as int);
    lemma_fmul_mag(n.y as int, tube_radius as int, MAX_RADIUS as int);
    lemma_fmul_mag(n.z as int, tube_radius as int, MAX_RADIUS as int);
}

/// Build the torus mesh: one sample for every pair of a sweep step (outer,
/// from `tor_table`) and a tube step (inner, from `circ_table`), grouped by
/// sweep step.  Empty tables yield an empty mesh.
pub fn create_toroid(
    hole_radius: i64,
    tube_radius: i64,
    circ_table: &Vec<TrigPair>,
    tor_table: &Vec<TrigPair>,
) -> (result: Vec<Sample>)
    requires
        0 <= hole_radius <= MAX_RADIUS,
        0 <= tube_radius <= MAX_RADIUS,
        forall|k: int| 0 <= k < circ_table@.len() ==> pair_in_range(#[trigger] circ_table@[k]),
        forall|k: int| 0 <= k < tor_table@.len() ==> pair_in_range(#[trigger] tor_table@[k]),
    ensures
        result@.len() == tor_table@.len() * circ_table@.len(),
        forall|k: int|
            0 <= k < result@.len() ==> #[trigger] result@[k] == torus_sample(
                hole_radius,
                tube_radius,
                tor_table@[k / circ_table@.len() as int],
                circ_table@[k % circ_table@.len() as int],
            ),
        forall|k: int|
            0 <= k < result@.len() ==> in_range(#[trigger] result@[k].position, 3 * MAX_RADIUS),
        forall|k: int|
            0 <= k < result@.len() ==> in_range(#[trigger] result@[k].normal, FP as int),
{
    let mut result: Vec<Sample> = Vec::new();
    let ring: i64 = hole_radius + tube_radius;
    let tor_len = tor_table.len();
    let circ_len = circ_table.len();
    let mut i: usize = 0;
    while i < tor_len
        invariant
            tor_len == tor_table@.len(),
            circ_len == circ_table@.len(),
            0 <= i <= tor_len,
            ring == hole_radius + tube_radius,
            0 <= hole_radius <= MAX_RADIUS,
            0 <= tube_radius <= MAX_RADIUS,
            forall|k: int| 0 <= k < circ_table@.len() ==> pair_in_range(#[trigger] circ_table@[k]),
            forall|k: int| 0 <= k < tor_table@.len() ==> pair_in_range(#[trigger] tor_table@[k]),
            result@.len() == i * circ_len,
            forall|k: int|
                0 <= k < result@.len() ==> #[trigger] result@[k] == torus_sample(
                    hole_radius,
                    tube_radius,
                    tor_table@[k / circ_table@.len() as int],
                    circ_table@[k % circ_table@.len() as int],
                ),
        decreases tor_len - i,
    {
        let t = tor_table[i];
        let rotation = rot_y(&t);
        // Tube-circle center for this sweep angle, and the exact unit radial
        // direction: rotating (FP, 0, 0) rescales exactly back to FP units.
        let rotated = apply_rotation(&rotation, &Vec3 { x: ring, y: 0, z: 0 });
        let radial = apply_rotation(&rotation, &Vec3 { x: FP, y: 0, z: 0 });
        proof {
            lemma_t_div_exact(t.cos as int, FP as int);
            lemma_t_div_exact(-t.sin as int, FP as int);
            assert(radial.x == t.cos && radial.y == 0 && radial.z == -t.sin);
        }
        let mut j: usize = 0;
        while j < circ_len
            invariant
                tor_len == tor_table@.len(),
                circ_len == circ_table@.len(),
                0 <= i < tor_len,
                0 <= j <= circ_len,
                ring == hole_radius + tube_radius,
                0 <= hole_radius <= MAX_RADIUS,
                0 <= tube_radius <= MAX_RADIUS,
                forall|k: int|
                    0 <= k < circ_table@.len() ==> pair_in_range(#[trigger] circ_table@[k]),
                forall|k: int|
                    0 <= k < tor_table@.len() ==> pair_in_range(#[trigger] tor_table@[k]),
                t == tor_table@[i as int],
                rotated.x == fmul(t.cos as int, ring as int),
                rotated.y == 0,
                rotated.z == fmul(-t.sin as int, ring as int),
                in_range(rotated, ring as int),
                radial.x == t.cos,
                radial.y == 0,
                radial.z == -t.sin,
                result@.len() == i * circ_len + j,
                forall|k: int|
                    0 <= k < result@.len() ==> #[trigger] result@[k] == torus_sample(
                        hole_radius,
                        tube_radius,
                        tor_table@[k / circ_table@.len() as int],
                        circ_table@[k % circ_table@.len() as int],
                    ),
            decreases circ_len - j,
        {
            let c = circ_table[j];
            proof {
                lemma_fmul_mag(c.cos as int, radial.x as int, FP as int);
                lemma_fmul_mag(c.cos as int, radial.z as int, FP as int);
            }
            let nx = mul_fp(c.cos, radial.x);
            let nz = mul_fp(c.cos, radial.z);
            let normal = Vec3 { x: nx, y: c.sin, z: nz };
            proof {
                lemma_fmul_mag(nx as int, tube_radius as int, MAX_RADIUS as int);
                lemma_fmul_mag(c.sin as int, tube_radius as int, MAX_RADIUS as int);
                lemma_fmul_mag(nz as int, tube_radius as int, MAX_RADIUS as int);
            }
            let ox = mul_fp(tube_radius, nx);
            let oy = mul_fp(tube_radius, c.sin);
            let oz = mul_fp(tube_radius, nz);
            let vertex = Vec3 { x: rotated.x + ox, y: oy, z: rotated.z + oz };
            result.push(Sample { position: vertex, normal });
            proof {
                let k0 = i * circ_len + j;
                vstd::arithmetic::div_mod::lemma_fundamental_div_mod_converse(
                    k0 as int,
                    circ_len as int,
                    i as int,
                    j as int,
                );
                assert(result@[k0 as int] == torus_sample(
                    hole_radius,
                    tube_radius,
                    tor_table@[i as int],
                    circ_table@[j as int],
                ));
            }
            j = j + 1;
        }
        i = i + 1;
        proof {
            assert(i * circ_len == (i - 1) * circ_len + circ_len) by (nonlinear_arith);
        }
    }
    proof {
        let clen = circ_table@.len() as int;
        let tlen = tor_table@.len() as int;
        assert forall|k: int| 0 <= k < result@.len() implies in_range(
            #[trigger] result@[k].position,
            3 * MAX_RADIUS,
        ) by {
            lemma_flat_index(k, tlen, clen);
            lemma_torus_sample_in_range(
                hole_radius,
                tube_radius,
                tor_table@[k / clen],
                circ_table@[k % clen],
            );
        }
        assert forall|k: int| 0 <= k < result@.len() implies in_range(
            #[trigger] result@[k].normal,
            FP as int,
        ) by {
            lemma_flat_index(k, tlen, clen);
            lemma_torus_sample_in_range(
                hole_radius,
                tube_radius,
                tor_table@[k / clen],
                circ_table@[k % clen],
            );
        }
    }
    result
}

/// A flat mesh index `k` below `tlen * clen` decomposes into a sweep index
/// `k / clen` and a tube index `k % clen`, both in range.
pub proof fn lemma_flat_index(k: int, tlen: int, clen: int)
    requires
        0 <= k < tlen * clen,
        tlen >= 0,
    ensures
        clen >= 1,
        0 <= k / clen < tlen,
        0 <= k % clen < clen,
{
    assert(clen >= 1) by {
        if clen <= 0 {
            assert(tlen * clen <= 0) by (nonlinear_arith)
                requires
                    clen <= 0 && tlen >= 0,
            ;
        }
    }
    vstd::arithmetic::div_mod::lemma_div_pos_is_pos(k, clen);
    vstd::arithmetic::div_mod::lemma_mod_division_less_than_divisor(k, clen);
    assert(k / clen < tlen) by {
        if k / clen >= tlen {
            vstd::arithmetic::div_mod::lemma_fundamental_div_mod(k, clen);
            vstd::arithmetic::div_mod::lemma_mod_division_less_than_divisor(k, clen);
            assert((k / clen) * clen >= tlen * clen) by (nonlinear_arith)
                requires
                    k / clen >= tlen && clen >= 1,
            ;
            assert(clen * (k / clen) == (k / clen) * clen) by (nonlinear_arith);
        }
    }
}

} // verus!
