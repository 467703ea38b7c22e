//! Perspective projection, painter's-algorithm rasterization, and
//! luminance-to-glyph mapping into a flat character framebuffer.
//!
//! The framebuffer is row-major with `rows * cols` byte glyphs; the
//! rasterizer addresses it through a vertical-and-horizontal flip so that
//! increasing world y points up on a terminal whose row 0 is the top line.

use vstd::prelude::*;

use crate::fixed::{
    FP,
    t_div,
    iabs,
    divt,
    lemma_t_div_bounds,
    lemma_t_div_mag,
    lemma_t_div_ordered,
    lemma_t_div_at_least,
    lemma_t_div_at_most_neg,
};
use crate::vec3::{Vec3, Sample, in_range, dot3};

verus! {

/// Horizontal field-of-view correction: the aspect ratio 16/9.
pub const ASPECT_NUM: i64 = 16;

pub const ASPECT_DEN: i64 = 9;

/// The glyph written everywhere the cleared framebuffer is not drawn on.
pub const BLANK: u8 = 32;

/// Largest camera plane distance accepted, in fixed-point units.
pub const MAX_PLANE: i64 = 0x400_0000;

/// Largest mesh component magnitude the renderer accepts.
pub const MAX_RENDER_COORD: i64 = 0x1_0000_0000;

/// Largest glyph ramp the renderer accepts.
pub const MAX_RAMP: usize = 4096;

/// Perspective-projected horizontal coordinate, in fixed-point units:
/// `(znear / z) * x`, truncated.
pub open spec fn x_proj(znear: int, v: Vec3) -> int {
    t_div(znear * v.x, v.z as int)
}

/// Perspective-projected vertical coordinate, with the aspect correction:
/// `(znear / z) * y * 16/9`, truncated.
pub open spec fn y_proj(znear: int, v: Vec3) -> int {
    t_div(ASPECT_NUM * znear * v.y, ASPECT_DEN * v.z)
}

/// A projected coordinate mapped to a screen cell: `p * dim + dim / 2`,
/// truncated toward zero (`p` is a fixed-point fraction of the viewport).
pub open spec fn screen_coord(p: int, dim: int) -> int {
    t_div(2 * p * dim + dim * FP, 2 * FP)
}

pub open spec fn screen_x(znear: int, cols: int, v: Vec3) -> int {
    screen_coord(x_proj(znear, v), cols)
}

pub open spec fn screen_y(znear: int, rows: int, v: Vec3) -> int {
    screen_coord(y_proj(znear, v), rows)
}

/// The sample survives culling: it sits in front of the camera and its
/// screen cell lies inside `[0, cols) × [0, rows)`.
pub open spec fn visible(znear: int, rows: int, cols: int, v: Vec3) -> bool {
    &&& v.z >= 1
    &&& 0 <= screen_x(znear, cols, v) < cols
    &&& 0 <= screen_y(znear, rows, v) < rows
}

/// Flat framebuffer slot for screen cell `(sx, sy)`: the renderer's
/// flip formula `rows*cols - sy*cols - (cols - sx)`.
pub open spec fn buf_index(rows: int, cols: int, sx: int, sy: int) -> int {
    rows * cols - sy * cols - (cols - sx)
}

/// The flip formula lands inside the framebuffer for every in-bounds cell,
/// and equals the plain `(rows - 1 - sy) * cols + sx` addressing.
pub proof fn lemma_buf_index_in_bounds(rows: int, cols: int, sx: int, sy: int)
    requires
        0 <= sx < cols,
        0 <= sy < rows,
    ensures
        0 <= buf_index(rows, cols, sx, sy) < rows * cols,
        buf_index(rows, cols, sx, sy) == (rows - 1 - sy) * cols + sx,
{
    assert((rows - 1 - sy) * cols == rows * cols - sy * cols - cols) by (nonlinear_arith);
    assert(0 <= (rows - 1 - sy) * cols + sx < rows * cols) by (nonlinear_arith)
        requires
            0 <= sx < cols && 0 <= sy < rows,
    ;
}

/// Distinct in-bounds cells use distinct framebuffer slots.
pub proof fn lemma_buf_index_injective(rows: int, cols: int, ax: int, ay: int, bx: int, by: int)
    requires
        0 <= ax < cols,
        0 <= ay < rows,
        0 <= bx < cols,
        0 <= by < rows,
        buf_index(rows, cols, ax, ay) == buf_index(rows, cols, bx, by),
    ensures
        ax == bx,
        ay == by,
{
    assert(ax == bx && ay == by) by (nonlinear_arith)
        requires
            0 <= ax < cols && 0 <= ay < rows && 0 <= bx < cols && 0 <= by < rows && rows * cols - ay
                * cols - (cols - ax) == rows * cols - by * cols - (cols - bx),
    ;
}

/// A projected coordinate at or beyond one viewport of positive overshoot
/// maps to a cell at or past the right/top edge.
proof fn lemma_precull_high(p: int, dim: int)
    requires
        p >= FP,
        dim >= 0,
    ensures
        screen_coord(p, dim) >= dim,
{
    assert(2 * p * dim + dim * FP >= (2 * FP) * dim) by (nonlinear_arith)
        requires
            p >= FP && dim >= 0,
    ;
    lemma_t_div_at_least(2 * p * dim + dim * FP, 2 * FP, dim);
}

/// A projected coordinate at or beyond two viewports of negative overshoot
/// maps to a cell past the left/bottom edge.
proof fn lemma_precull_low(p: int, dim: int)
    requires
        p <= -2 * FP,
        dim >= 1,
    ensures
        screen_coord(p, dim) <= -1,
{
    assert(2 * p * dim + dim * FP <= -((2 * FP) * dim)) by (nonlinear_arith)
        requires
            p <= -2 * FP && dim >= 1,
    ;
    lemma_t_div_at_most_neg(2 * p * dim + dim * FP, 2 * FP, dim);
}

/// Project one vertex.  Returns the screen cell, or `None` when the sample
/// is culled: behind (or on) the camera plane, or off the viewport.
pub fn project_vertex(znear: i64, rows: u16, cols: u16, v: &Vec3) -> (r: Option<(usize, usize)>)
    requires
        1 <= znear <= MAX_PLANE,
        in_range(*v, MAX_RENDER_COORD as int),
    ensures
        r is Some <==> visible(znear as int, rows as int, cols as int, *v),
        r matches Some(cell) ==> {
            &&& cell.0 == screen_x(znear as int, cols as int, *v)
            &&& cell.1 == screen_y(znear as int, rows as int, *v)
            &&& cell.0 < cols
            &&& cell.1 < rows
        },
{
    if v.z < 1 {
        return None;
    }
    if rows == 0 || cols == 0 {
        return None;
    }
    proof {
        assert(iabs(znear * v.x) <= MAX_PLANE * MAX_RENDER_COORD) by (nonlinear_arith)
            requires
                iabs(znear as int) <= MAX_PLANE && iabs(v.x as int) <= MAX_RENDER_COORD,
        ;
        assert(iabs((ASPECT_NUM * znear) * v.y) <= (ASPECT_NUM * MAX_PLANE) * MAX_RENDER_COORD)
            by (nonlinear_arith)
            requires
                iabs(znear as int) <= MAX_PLANE && iabs(v.y as int) <= MAX_RENDER_COORD,
        ;
    }
    let xq = divt(znear * v.x, v.z);
    let yq = divt((ASPECT_NUM * znear) * v.y, ASPECT_DEN * v.z);
    proof {
        lemma_t_div_bounds(znear * v.x, v.z as int);
        lemma_t_div_bounds(ASPECT_NUM * znear * v.y, ASPECT_DEN * v.z);
    }
    if xq > 2 * FP || xq < -2 * FP {
        proof {
            if xq > 2 * FP {
                lemma_precull_high(xq as int, cols as int);
            } else {
                lemma_precull_low(xq as int, cols as int);
            }
        }
        return None;
    }
    if yq > 2 * FP || yq < -2 * FP {
        proof {
            if yq > 2 * FP {
                lemma_precull_high(yq as int, rows as int);
            } else {
                lemma_precull_low(yq as int, rows as int);
            }
        }
        return None;
    }
    proof {
        assert(iabs((2 * xq) * (cols as int)) <= (4 * FP) * 0x10000) by (nonlinear_arith)
            requires
                iabs(xq as int) <= 2 * FP && 0 <= (cols as int) < 0x10000,
        ;
        assert(iabs((2 * yq) * (rows as int)) <= (4 * FP) * 0x10000) by (nonlinear_arith)
            requires
                iabs(yq as int) <= 2 * FP && 0 <= (rows as int) < 0x10000,
        ;
    }
    let sx = divt(2 * xq * (cols as i64) + (cols as i64) * FP, 2 * FP);
    let sy = divt(2 * yq * (rows as i64) + (rows as i64) * FP, 2 * FP);
    if sx < 0 || sx >= cols as i64 || sy < 0 || sy >= rows as i64 {
        return None;
    }
    Some((sx as usize, sy as usize))
}

/// Index into a glyph ramp of length `n` for a fixed-point luminance:
/// `luminance * (n-1)`, rescaled and clamped into `[0, n-1]`.
pub open spec fn glyph_index(lum: int, n: int) -> int {
    let raw = t_div(lum * (n - 1), FP as int);
    if raw < 0 {
        0
    } else if raw > n - 1 {
        n - 1
    } else {
        raw
    }
}

/// Glyph mapping is monotonically non-decreasing in luminance.
pub proof fn lemma_glyph_index_monotone(l1: int, l2: int, n: int)
    requires
        l1 <= l2,
        n >= 1,
    ensures
        glyph_index(l1, n) <= glyph_index(l2, n),
{
    assert(l1 * (n - 1) <= l2 * (n - 1)) by (nonlinear_arith)
        requires
            l1 <= l2 && n >= 1,
    ;
    lemma_t_div_ordered(l1 * (n - 1), l2 * (n - 1), FP as int);
}

/// Luminance outside `[0, 1]` is clamped, not rejected: the glyph index of
/// any luminance equals the glyph index of its clamp into `[0, FP]`.
pub proof fn lemma_glyph_index_clamped(lum: int, n: int)
    requires
        n >= 1,
    ensures
        glyph_index(lum, n) == glyph_index(
            if lum < 0 {
                0
            } else if lum > FP {
                FP as int
            } else {
                lum
            },
            n,
        ),
{
    if lum < 0 {
        assert(lum * (n - 1) <= 0) by (nonlinear_arith)
            requires
                lum < 0 && n >= 1,
        ;
        lemma_t_div_bounds(lum * (n - 1), FP as int);
        assert(0 * (n - 1) == 0) by (nonlinear_arith);
        lemma_t_div_bounds(0, FP as int);
    } else if lum > FP {
        assert(lum * (n - 1) >= FP * (n - 1)) by (nonlinear_arith)
            requires
                lum > FP && n >= 1,
        ;
        lemma_t_div_at_least(lum * (n - 1), FP as int, n - 1);
        crate::fixed::lemma_t_div_exact(n - 1, FP as int);
        assert((n - 1) * FP == FP * (n - 1)) by (nonlinear_arith);
        lemma_t_div_at_least(FP * (n - 1), FP as int, n - 1);
        lemma_t_div_mag(FP * (n - 1), FP as int, n - 1);
    }
}

/// The renderer: camera planes, viewport size, the owned framebuffer, and
/// the glyph ramp ordered from darkest to brightest.
pub struct Renderer {
    pub znear: i64,
    pub zfar: i64,
    pub rows: u16,
    pub cols: u16,
    pub framebuffer: Vec<u8>,
    pub ramp: Vec<u8>,
}

impl Renderer {
    /// The renderer's internal invariant.
    pub open spec fn wf(&self) -> bool {
        &&& 1 <= self.znear < self.zfar <= MAX_PLANE
        &&& self.framebuffer@.len() == self.rows as int * self.cols as int
        &&& 1 <= self.ramp@.len() <= MAX_RAMP
    }

    /// Camera and ramp configuration equal between two renderer states.
    pub open spec fn same_config(&self, other: &Renderer) -> bool {
        &&& self.znear == other.znear
        &&& self.zfar == other.zfar
        &&& self.rows == other.rows
        &&& self.cols == other.cols
        &&& self.ramp@ == other.ramp@
    }

    pub fn new(znear: i64, zfar: i64, rows: u16, cols: u16, ramp: Vec<u8>) -> (r: Renderer)
        requires
            1 <= znear < zfar <= MAX_PLANE,
            1 <= ramp@.len() <= MAX_RAMP,
        ensures
            r.wf(),
            r.znear == znear,
            r.zfar == zfar,
            r.rows == rows,
            r.cols == cols,
            r.ramp@ == ramp@,
            r.framebuffer@.len() == rows as int * cols as int,
            forall|c: int| 0 <= c < r.framebuffer@.len() ==> r.framebuffer@[c] == BLANK,
    {
        let framebuffer = blank_buffer(rows, cols);
        Renderer { znear, zfar, rows, cols, framebuffer, ramp }
    }

    /// Map a fixed-point luminance to a glyph of the ramp.
    pub fn convert_to_ascii(&self, luminance: i64) -> (r: u8)
        requires
            self.wf(),
        ensures
            r == self.ramp@[glyph_index(luminance as int, self.ramp@.len() as int)],
    {
        let n = self.ramp.len();
        let clamped: i64 = if luminance < 0 {
            0
        } else if luminance > FP {
            FP
        } else {
            luminance
        };
        proof {
            assert(iabs(clamped * (n - 1)) <= FP * (n - 1)) by (nonlinear_arith)
                requires
                    0 <= clamped <= FP && n >= 1,
            ;
        }
        let raw = divt(clamped * ((n - 1) as i64), FP);
        proof {
            lemma_glyph_index_clamped(luminance as int, n as int);
            lemma_t_div_bounds(clamped * (n - 1), FP as int);
            lemma_t_div_mag(clamped * (n - 1), FP as int, n - 1);
        }
        let index = if raw < 0 {
            0
        } else {
            raw as usize
        };
        self.ramp[index]
    }

    /// Lambertian pass: clear the framebuffer, sort the samples far-to-near
    /// in place, and rasterize each surviving sample with a luminance of
    /// `max(0, light · normal)`; overlapping samples resolve last-write-wins,
    /// so the nearest sample of a cell decides its glyph.
    pub fn render_vertices_light(&mut self, vertices: &mut Vec<Sample>, light_direction: Vec3)
        requires
            old(self).wf(),
            in_range(light_direction, 0x10_0000),
            forall|k: int|
                0 <= k < old(vertices)@.len() ==> in_range(
                    #[trigger] old(vertices)@[k].position,
                    MAX_RENDER_COORD as int,
                ),
            forall|k: int|
                0 <= k < old(vertices)@.len() ==> in_range(
                    #[trigger] old(vertices)@[k].normal,
                    MAX_RENDER_COORD as int,
                ),
        ensures
            final(self).wf(),
            final(self).same_config(old(self)),
            final(vertices)@.len() == old(vertices)@.len(),
            final(vertices)@.to_multiset() == old(vertices)@.to_multiset(),
            sorted_by_depth(final(vertices)@),
            final(self).framebuffer@.len() == old(self).rows as int * old(self).cols as int,
            lit_raster_ok(
                old(self).znear as int,
                old(self).rows as int,
                old(self).cols as int,
                old(self).ramp@,
                light_direction,
                final(vertices)@,
                final(vertices)@.len() as int,
                final(self).framebuffer@,
            ),
    {
        self.framebuffer = blank_buffer(self.rows, self.cols);
        sort_samples_by_depth(vertices);
        proof {
            lemma_reorder_keeps_bounds(old(vertices)@, vertices@, MAX_RENDER_COORD as int);
        }
        let n = vertices.len();
        let mut k: usize = 0;
        while k < n
            invariant
                self.wf(),
                self.same_config(old(self)),
                self.framebuffer@.len() == self.rows as int * self.cols as int,
                n == vertices@.len(),
                vertices@.len() == old(vertices)@.len(),
                vertices@.to_multiset() == old(vertices)@.to_multiset(),
                sorted_by_depth(vertices@),
                in_range(light_direction, 0x10_0000),
                0 <= k <= n,
                forall|j: int|
                    0 <= j < vertices@.len() ==> in_range(
                        #[trigger] vertices@[j].position,
                        MAX_RENDER_COORD as int,
                    ),
                forall|j: int|
                    0 <= j < vertices@.len() ==> in_range(
                        #[trigger] vertices@[j].normal,
                        MAX_RENDER_COORD as int,
                    ),
                lit_raster_ok(
                    self.znear as int,
                    self.rows as int,
                    self.cols as int,
                    self.ramp@,
                    light_direction,
                    vertices@,
                    k as int,
                    self.framebuffer@,
                ),
            decreases n - k,
        {
            let s = vertices[k];
            let projected = project_vertex(self.znear, self.rows, self.cols, &s.position);
            match projected {
                Some((sx, sy)) => {
                    proof {
                        crate::fixed::lemma_mul_mag(
                            light_direction.x as int,
                            s.normal.x as int,
                            0x10_0000,
                        );
                        crate::fixed::lemma_mul_mag(
                            light_direction.y as int,
                            s.normal.y as int,
                            0x10_0000,
                        );
                        crate::fixed::lemma_mul_mag(
                            light_direction.z as int,
                            s.normal.z as int,
                            0x10_0000,
                        );
                    }
                    let d = dot3(&light_direction, &s.normal);
                    let scaled = divt(d, FP);
                    let lum = if scaled > 0 {
                        scaled
                    } else {
                        0
                    };
                    let glyph = self.convert_to_ascii(lum);
                    proof {
                        lemma_buf_index_in_bounds(
                            self.rows as int,
                            self.cols as int,
                            sx as int,
                            sy as int,
                        );
                        assert((self.rows as int) * (self.cols as int) <= 0xFFFF * 0xFFFF)
                            by (nonlinear_arith)
                            requires
                                0 <= (self.rows as int) <= 0xFFFF && 0 <= (self.cols as int)
                                    <= 0xFFFF,
                        ;
                        assert(0 <= (sy as int) * (self.cols as int) <= 0xFFFF * 0xFFFF)
                            by (nonlinear_arith)
                            requires
                                0 <= (sy as int) <= 0xFFFF && 0 <= (self.cols as int) <= 0xFFFF,
                        ;
                    }
                    let idx_i: i64 = (self.rows as i64) * (self.cols as i64) - (sy as i64) * (
                    self.cols as i64) - ((self.cols as i64) - (sx as i64));
                    let idx: usize = idx_i as usize;
                    let ghost fb0 = self.framebuffer@;
                    self.framebuffer[idx] = glyph;
                    proof {
                        assert(glyph == glyph_lit(self.ramp@, light_direction, vertices@[k as int]));
                        assert(writes_lit(
                            self.znear as int,
                            self.rows as int,
                            self.cols as int,
                            vertices@,
                            k as int,
                            idx as int,
                        ));
                        lemma_lit_step_draw(
                            self.znear as int,
                            self.rows as int,
                            self.cols as int,
                            self.ramp@,
                            light_direction,
                            vertices@,
                            k as int,
                            idx as int,
                            fb0,
                            self.framebuffer@,
                        );
                    }
                },
                None => {
                    proof {
                        lemma_lit_step_skip(
                            self.znear as int,
                            self.rows as int,
                            self.cols as int,
                            self.ramp@,
                            light_direction,
                            vertices@,
                            k as int,
                            self.framebuffer@,
                        );
                    }
                },
            }
            k = k + 1;
        }
    }

    /// Flat pass: like the lit pass, but each vertex's luminance comes from
    /// its raw depth mapped over the camera range.
    pub fn render_vertices(&mut self, vertices: &mut Vec<Vec3>)
        requires
            old(self).wf(),
            forall|k: int|
                0 <= k < old(vertices)@.len() ==> in_range(
                    #[trigger] old(vertices)@[k],
                    MAX_RENDER_COORD as int,
                ),
        ensures
            final(self).wf(),
            final(self).same_config(old(self)),
            final(vertices)@.len() == old(vertices)@.len(),
            final(vertices)@.to_multiset() == old(vertices)@.to_multiset(),
            sorted_by_depth_v(final(vertices)@),
            final(self).framebuffer@.len() == old(self).rows as int * old(self).cols as int,
            flat_raster_ok(
                old(self).znear as int,
                old(self).zfar as int,
                old(self).rows as int,
                old(self).cols as int,
                old(self).ramp@,
                final(vertices)@,
                final(vertices)@.len() as int,
                final(self).framebuffer@,
            ),
    {
        self.framebuffer = blank_buffer(self.rows, self.cols);
        sort_vertices_by_depth(vertices);
        proof {
            lemma_reorder_keeps_bounds_v(old(vertices)@, vertices@, MAX_RENDER_COORD as int);
        }
        let n = vertices.len();
        let mut k: usize = 0;
        while k < n
            invariant
                self.wf(),
                self.same_config(old(self)),
                self.framebuffer@.len() == self.rows as int * self.cols as int,
                n == vertices@.len(),
                vertices@.len() == old(vertices)@.len(),
                vertices@.to_multiset() == old(vertices)@.to_multiset(),
                sorted_by_depth_v(vertices@),
                0 <= k <= n,
                forall|j: int|
                    0 <= j < vertices@.len() ==> in_range(
                        #[trigger] vertices@[j],
                        MAX_RENDER_COORD as int,
                    ),
                flat_raster_ok(
                    self.znear as int,
                    self.zfar as int,
                    self.rows as int,
                    self.cols as int,
                    self.ramp@,
                    vertices@,
                    k as int,
                    self.framebuffer@,
                ),
            decreases n - k,
        {
            let v = vertices[k];
            let projected = project_vertex(self.znear, self.rows, self.cols, &v);
            match projected {
                Some((sx, sy)) => {
                    proof {
                        assert(iabs((v.z - self.znear) * (255 * FP)) <= 0x2_0000_0000 * (255 * FP))
                            by (nonlinear_arith)
                            requires
                                iabs((v.z - self.znear) as int) <= 0x2_0000_0000,
                        ;
                    }
                    let lum = divt((v.z - self.znear) * (255 * FP), self.zfar - self.znear);
                    let glyph = self.convert_to_ascii(lum);
                    proof {
                        lemma_buf_index_in_bounds(
                            self.rows as int,
                            self.cols as int,
                            sx as int,
                            sy as int,
                        );
                        assert((self.rows as int) * (self.cols as int) <= 0xFFFF * 0xFFFF)
                            by (nonlinear_arith)
                            requires
                                0 <= (self.rows as int) <= 0xFFFF && 0 <= (self.cols as int)
                                    <= 0xFFFF,
                        ;
                        assert(0 <= (sy as int) * (self.cols as int) <= 0xFFFF * 0xFFFF)
                            by (nonlinear_arith)
                            requires
                                0 <= (sy as int) <= 0xFFFF && 0 <= (self.cols as int) <= 0xFFFF,
                        ;
                    }
                    let idx_i: i64 = (self.rows as i64) * (self.cols as i64) - (sy as i64) * (
                    self.cols as i64) - ((self.cols as i64) - (sx as i64));
                    let idx: usize = idx_i as usize;
                    let ghost fb0 = self.framebuffer@;
                    self.framebuffer[idx] = glyph;
                    proof {
                        assert(glyph == glyph_flat(
                            self.ramp@,
                            self.znear as int,
                            self.zfar as int,
                            vertices@[k as int],
                        ));
                        assert(writes_flat(
                            self.znear as int,
                            self.rows as int,
                            self.cols as int,
                            vertices@,
                            k as int,
                            idx as int,
                        ));
                        lemma_flat_step_draw(
                            self.znear as int,
                            self.zfar as int,
                            self.rows as int,
                            self.cols as int,
                            self.ramp@,
                            vertices@,
                            k as int,
                            idx as int,
                            fb0,
                            self.framebuffer@,
                        );
                    }
                },
                None => {
                    proof {
                        lemma_flat_step_skip(
                            self.znear as int,
                            self.zfar as int,
                            self.rows as int,
                            self.cols as int,
                            self.ramp@,
                            vertices@,
                            k as int,
                            self.framebuffer@,
                        );
                    }
                },
            }
            k = k + 1;
        }
    }
}

/// Fixed-point Lambertian luminance: the dot product of the light direction
/// with the surface normal, clamped below at zero.
pub open spec fn luminance_lit(light: Vec3, n: Vec3) -> int {
    let d = t_div(light.x * n.x + light.y * n.y + light.z * n.z, FP as int);
    if d > 0 {
        d
    } else {
        0
    }
}

/// Fixed-point flat luminance: raw depth mapped over the camera range and
/// scaled by 255, so almost any visible depth saturates the glyph ramp.
pub open spec fn luminance_flat(znear: int, zfar: int, v: Vec3) -> int {
    t_div((v.z - znear) * (255 * FP), zfar - znear)
}

/// The glyph a lit sample shows.
pub open spec fn glyph_lit(ramp: Seq<u8>, light: Vec3, s: Sample) -> u8 {
    ramp[glyph_index(luminance_lit(light, s.normal), ramp.len() as int)]
}

/// The glyph a flat-shaded vertex shows.
pub open spec fn glyph_flat(ramp: Seq<u8>, znear: int, zfar: int, v: Vec3) -> u8 {
    ramp[glyph_index(luminance_flat(znear, zfar, v), ramp.len() as int)]
}

/// Sample `k` of the lit pass draws into framebuffer slot `c`.
pub open spec fn writes_lit(znear: int, rows: int, cols: int, vs: Seq<Sample>, k: int, c: int) -> bool {
    &&& visible(znear, rows, cols, vs[k].position)
    &&& buf_index(
        rows,
        cols,
        screen_x(znear, cols, vs[k].position),
        screen_y(znear, rows, vs[k].position),
    ) == c
}

/// Vertex `k` of the flat pass draws into framebuffer slot `c`.
pub open spec fn writes_flat(znear: int, rows: int, cols: int, vs: Seq<Vec3>, k: int, c: int) -> bool {
    &&& visible(znear, rows, cols, vs[k])
    &&& buf_index(rows, cols, screen_x(znear, cols, vs[k]), screen_y(znear, rows, vs[k])) == c
}

/// Some sample among the first `bound` draws into slot `c`.
pub open spec fn cell_written_lit(
    znear: int,
    rows: int,
    cols: int,
    vs: Seq<Sample>,
    bound: int,
    c: int,
) -> bool {
    exists|k: int| 0 <= k < bound && writes_lit(znear, rows, cols, vs, k, c)
}

pub open spec fn cell_written_flat(
    znear: int,
    rows: int,
    cols: int,
    vs: Seq<Vec3>,
    bound: int,
    c: int,
) -> bool {
    exists|k: int| 0 <= k < bound && writes_flat(znear, rows, cols, vs, k, c)
}

/// The framebuffer is exactly the last-write-wins rasterization of the first
/// `bound` samples: undrawn slots are blank, and every drawn slot shows the
/// glyph of its last writer.
pub open spec fn lit_raster_ok(
    znear: int,
    rows: int,
    cols: int,
    ramp: Seq<u8>,
    light: Vec3,
    vs: Seq<Sample>,
    bound: int,
    fb: Seq<u8>,
) -> bool {
    &&& forall|c: int|
        0 <= c < fb.len() && !cell_written_lit(znear, rows, cols, vs, bound, c)
            ==> #[trigger] fb[c] == BLANK
    &&& forall|c: int|
        #![trigger fb[c]]
        0 <= c < fb.len() && cell_written_lit(znear, rows, cols, vs, bound, c) ==> exists|k: int|
            {
                &&& 0 <= k < bound
                &&& #[trigger] writes_lit(znear, rows, cols, vs, k, c)
                &&& fb[c] == glyph_lit(ramp, light, vs[k])
                &&& forall|k2: int| k < k2 < bound ==> !writes_lit(znear, rows, cols, vs, k2, c)
            }
}

pub open spec fn flat_raster_ok(
    znear: int,
    zfar: int,
    rows: int,
    cols: int,
    ramp: Seq<u8>,
    vs: Seq<Vec3>,
    bound: int,
    fb: Seq<u8>,
) -> bool {
    &&& forall|c: int|
        0 <= c < fb.len() && !cell_written_flat(znear, rows, cols, vs, bound, c)
            ==> #[trigger] fb[c] == BLANK
    &&& forall|c: int|
        #![trigger fb[c]]
        0 <= c < fb.len() && cell_written_flat(znear, rows, cols, vs, bound, c) ==> exists|k: int|
            {
                &&& 0 <= k < bound
                &&& #[trigger] writes_flat(znear, rows, cols, vs, k, c)
                &&& fb[c] == glyph_flat(ramp, znear, zfar, vs[k])
                &&& forall|k2: int| k < k2 < bound ==> !writes_flat(znear, rows, cols, vs, k2, c)
            }
}

/// Extending the pass by one invisible (culled) sample changes nothing:
/// no slot gains a writer, so the framebuffer still rasterizes the prefix.
proof fn lemma_lit_step_skip(
    znear: int,
    rows: int,
    cols: int,
    ramp: Seq<u8>,
    light: Vec3,
    vs: Seq<Sample>,
    k: int,
    fb: Seq<u8>,
)
    requires
        0 <= k < vs.len(),
        !visible(znear, rows, cols, vs[k].position),
        lit_raster_ok(znear, rows, cols, ramp, light, vs, k, fb),
    ensures
        lit_raster_ok(znear, rows, cols, ramp, light, vs, k + 1, fb),
{
    assert forall|c: int|
        0 <= c < fb.len() && !cell_written_lit(znear, rows, cols, vs, k + 1, c) implies #[trigger] fb[c]
        == BLANK by {
        if cell_written_lit(znear, rows, cols, vs, k, c) {
            let k0 = choose|k0: int| 0 <= k0 < k && writes_lit(znear, rows, cols, vs, k0, c);
            assert(0 <= k0 < k + 1 && writes_lit(znear, rows, cols, vs, k0, c));
        }
    }
    assert forall|c: int|
        #![trigger fb[c]]
        0 <= c < fb.len() && cell_written_lit(znear, rows, cols, vs, k + 1, c) implies exists|
        k0: int,
    |
        {
            &&& 0 <= k0 < k + 1
            &&& #[trigger] writes_lit(znear, rows, cols, vs, k0, c)
            &&& fb[c] == glyph_lit(ramp, light, vs[k0])
            &&& forall|k2: int| k0 < k2 < k + 1 ==> !writes_lit(znear, rows, cols, vs, k2, c)
        } by {
        let ka = choose|ka: int| 0 <= ka < k + 1 && writes_lit(znear, rows, cols, vs, ka, c);
        assert(ka != k);
        assert(0 <= ka < k && writes_lit(znear, rows, cols, vs, ka, c));
        assert(cell_written_lit(znear, rows, cols, vs, k, c));
        let k1 = choose|k1: int|
            {
                &&& 0 <= k1 < k
                &&& #[trigger] writes_lit(znear, rows, cols, vs, k1, c)
                &&& fb[c] == glyph_lit(ramp, light, vs[k1])
                &&& forall|k2: int| k1 < k2 < k ==> !writes_lit(znear, rows, cols, vs, k2, c)
            };
        assert(writes_lit(znear, rows, cols, vs, k1, c));
        assert(forall|k2: int| k1 < k2 < k + 1 ==> !writes_lit(znear, rows, cols, vs, k2, c));
    }
}

/// Extending the pass by one visible sample overdraws exactly its slot: that
/// slot now shows the new sample's glyph, every other slot is unchanged.
proof fn lemma_lit_step_draw(
    znear: int,
    rows: int,
    cols: int,
    ramp: Seq<u8>,
    light: Vec3,
    vs: Seq<Sample>,
    k: int,
    c0: int,
    fb: Seq<u8>,
    fb2: Seq<u8>,
)
    requires
        0 <= k < vs.len(),
        writes_lit(znear, rows, cols, vs, k, c0),
        0 <= c0 < fb.len(),
        fb2 == fb.update(c0, glyph_lit(ramp, light, vs[k])),
        lit_raster_ok(znear, rows, cols, ramp, light, vs, k, fb),
    ensures
        lit_raster_ok(znear, rows, cols, ramp, light, vs, k + 1, fb2),
{
    assert forall|c: int|
        0 <= c < fb2.len() && !cell_written_lit(znear, rows, cols, vs, k + 1, c) implies #[trigger] fb2[c]
        == BLANK by {
        assert(0 <= k < k + 1 && writes_lit(znear, rows, cols, vs, k, c0));
        assert(c != c0);
        if cell_written_lit(znear, rows, cols, vs, k, c) {
            let k0 = choose|k0: int| 0 <= k0 < k && writes_lit(znear, rows, cols, vs, k0, c);
            assert(0 <= k0 < k + 1 && writes_lit(znear, rows, cols, vs, k0, c));
        }
        assert(fb2[c] == fb[c]);
    }
    assert forall|c: int|
        #![trigger fb2[c]]
        0 <= c < fb2.len() && cell_written_lit(znear, rows, cols, vs, k + 1, c) implies exists|
        k0: int,
    |
        {
            &&& 0 <= k0 < k + 1
            &&& #[trigger] writes_lit(znear, rows, cols, vs, k0, c)
            &&& fb2[c] == glyph_lit(ramp, light, vs[k0])
            &&& forall|k2: int| k0 < k2 < k + 1 ==> !writes_lit(znear, rows, cols, vs, k2, c)
        } by {
        if c == c0 {
            assert(writes_lit(znear, rows, cols, vs, k, c0));
            assert(fb2[c0] == glyph_lit(ramp, light, vs[k]));
            assert(forall|k2: int| k < k2 < k + 1 ==> !writes_lit(znear, rows, cols, vs, k2, c));
        } else {
            let ka = choose|ka: int| 0 <= ka < k + 1 && writes_lit(znear, rows, cols, vs, ka, c);
            assert(ka != k);
            assert(0 <= ka < k && writes_lit(znear, rows, cols, vs, ka, c));
            assert(cell_written_lit(znear, rows, cols, vs, k, c));
            let k1 = choose|k1: int|
                {
                    &&& 0 <= k1 < k
                    &&& #[trigger] writes_lit(znear, rows, cols, vs, k1, c)
                    &&& fb[c] == glyph_lit(ramp, light, vs[k1])
                    &&& forall|k2: int| k1 < k2 < k ==> !writes_lit(znear, rows, cols, vs, k2, c)
                };
            assert(fb2[c] == fb[c]);
            assert(writes_lit(znear, rows, cols, vs, k1, c));
            assert(forall|k2: int| k1 < k2 < k + 1 ==> !writes_lit(znear, rows, cols, vs, k2, c));
        }
    }
}

/// The flat analog of `lemma_lit_step_skip`.
proof fn lemma_flat_step_skip(
    znear: int,
    zfar: int,
    rows: int,
    cols: int,
    ramp: Seq<u8>,
    vs: Seq<Vec3>,
    k: int,
    fb: Seq<u8>,
)
    requires
        0 <= k < vs.len(),
        !visible(znear, rows, cols, vs[k]),
        flat_raster_ok(znear, zfar, rows, cols, ramp, vs, k, fb),
    ensures
        flat_raster_ok(znear, zfar, rows, cols, ramp, vs, k + 1, fb),
{
    assert forall|c: int|
        0 <= c < fb.len() && !cell_written_flat(znear, rows, cols, vs, k + 1, c) implies #[trigger] fb[c]
        == BLANK by {
        if cell_written_flat(znear, rows, cols, vs, k, c) {
            let k0 = choose|k0: int| 0 <= k0 < k && writes_flat(znear, rows, cols, vs, k0, c);
            assert(0 <= k0 < k + 1 && writes_flat(znear, rows, cols, vs, k0, c));
        }
    }
    assert forall|c: int|
        #![trigger fb[c]]
        0 <= c < fb.len() && cell_written_flat(znear, rows, cols, vs, k + 1, c) implies exists|
        k0: int,
    |
        {
            &&& 0 <= k0 < k + 1
            &&& #[trigger] writes_flat(znear, rows, cols, vs, k0, c)
            &&& fb[c] == glyph_flat(ramp, znear, zfar, vs[k0])
            &&& forall|k2: int| k0 < k2 < k + 1 ==> !writes_flat(znear, rows, cols, vs, k2, c)
        } by {
        let ka = choose|ka: int| 0 <= ka < k + 1 && writes_flat(znear, rows, cols, vs, ka, c);
        assert(ka != k);
        assert(0 <= ka < k && writes_flat(znear, rows, cols, vs, ka, c));
        assert(cell_written_flat(znear, rows, cols, vs, k, c));
        let k1 = choose|k1: int|
            {
                &&& 0 <= k1 < k
                &&& #[trigger] writes_flat(znear, rows, cols, vs, k1, c)
                &&& fb[c] == glyph_flat(ramp, znear, zfar, vs[k1])
                &&& forall|k2: int| k1 < k2 < k ==> !writes_flat(znear, rows, cols, vs, k2, c)
            };
        assert(writes_flat(znear, rows, cols, vs, k1, c));
        assert(forall|k2: int| k1 < k2 < k + 1 ==> !writes_flat(znear, rows, cols, vs, k2, c));
    }
}

/// The flat analog of `lemma_lit_step_draw`.
proof fn lemma_flat_step_draw(
    znear: int,
    zfar: int,
    rows: int,
    cols: int,
    ramp: Seq<u8>,
    vs: Seq<Vec3>,
    k: int,
    c0: int,
    fb: Seq<u8>,
    fb2: Seq<u8>,
)
    requires
        0 <= k < vs.len(),
        writes_flat(znear, rows, cols, vs, k, c0),
        0 <= c0 < fb.len(),
        fb2 == fb.update(c0, glyph_flat(ramp, znear, zfar, vs[k])),
        flat_raster_ok(znear, zfar, rows, cols, ramp, vs, k, fb),
    ensures
        flat_raster_ok(znear, zfar, rows, cols, ramp, vs, k + 1, fb2),
{
    assert forall|c: int|
        0 <= c < fb2.len() && !cell_written_flat(znear, rows, cols, vs, k + 1, c) implies #[trigger] fb2[c]
        == BLANK by {
        assert(0 <= k < k + 1 && writes_flat(znear, rows, cols, vs, k, c0));
        assert(c != c0);
        if cell_written_flat(znear, rows, cols, vs, k, c) {
            let k0 = choose|k0: int| 0 <= k0 < k && writes_flat(znear, rows, cols, vs, k0, c);
            assert(0 <= k0 < k + 1 && writes_flat(znear, rows, cols, vs, k0, c));
        }
        assert(fb2[c] == fb[c]);
    }
    assert forall|c: int|
        #![trigger fb2[c]]
        0 <= c < fb2.len() && cell_written_flat(znear, rows, cols, vs, k + 1, c) implies exists|
        k0: int,
    |
        {
            &&& 0 <= k0 < k + 1
            &&& #[trigger] writes_flat(znear, rows, cols, vs, k0, c)
            &&& fb2[c] == glyph_flat(ramp, znear, zfar, vs[k0])
            &&& forall|k2: int| k0 < k2 < k + 1 ==> !writes_flat(znear, rows, cols, vs, k2, c)
        } by {
        if c == c0 {
            assert(writes_flat(znear, rows, cols, vs, k, c0));
            assert(fb2[c0] == glyph_flat(ramp, znear, zfar, vs[k]));
            assert(forall|k2: int| k < k2 < k + 1 ==> !writes_flat(znear, rows, cols, vs, k2, c));
        } else {
            let ka = choose|ka: int| 0 <= ka < k + 1 && writes_flat(znear, rows, cols, vs, ka, c);
            assert(ka != k);
            assert(0 <= ka < k && writes_flat(znear, rows, cols, vs, ka, c));
            assert(cell_written_flat(znear, rows, cols, vs, k, c));
            let k1 = choose|k1: int|
                {
                    &&& 0 <= k1 < k
                    &&& #[trigger] writes_flat(znear, rows, cols, vs, k1, c)
                    &&& fb[c] == glyph_flat(ramp, znear, zfar, vs[k1])
                    &&& forall|k2: int| k1 < k2 < k ==> !writes_flat(znear, rows, cols, vs, k2, c)
                };
            assert(fb2[c] == fb[c]);
            assert(writes_flat(znear, rows, cols, vs, k1, c));
            assert(forall|k2: int| k1 < k2 < k + 1 ==> !writes_flat(znear, rows, cols, vs, k2, c));
        }
    }
}

/// A culled sample never writes: a sample that fails the visibility test
/// draws into no framebuffer slot at all.
pub proof fn lemma_culled_sample_never_writes(
    znear: int,
    rows: int,
    cols: int,
    vs: Seq<Sample>,
    k: int,
    c: int,
)
    requires
        !visible(znear, rows, cols, vs[k].position),
    ensures
        !writes_lit(znear, rows, cols, vs, k, c),
{
}

/// The flat variant of `lemma_culled_sample_never_writes`.
pub proof fn lemma_culled_vertex_never_writes(
    znear: int,
    rows: int,
    cols: int,
    vs: Seq<Vec3>,
    k: int,
    c: int,
)
    requires
        !visible(znear, rows, cols, vs[k]),
    ensures
        !writes_flat(znear, rows, cols, vs, k, c),
{
}

/// Painter's-algorithm occlusion: when exactly two samples of a depth-sorted
/// pass draw into the same framebuffer slot, the slot shows the glyph of the
/// later-drawn sample, and that sample is at most as deep as the other.
pub proof fn lemma_painter_order(
    znear: int,
    rows: int,
    cols: int,
    ramp: Seq<u8>,
    light: Vec3,
    vs: Seq<Sample>,
    fb: Seq<u8>,
    i: int,
    j: int,
    c: int,
)
    requires
        sorted_by_depth(vs),
        lit_raster_ok(znear, rows, cols, ramp, light, vs, vs.len() as int, fb),
        0 <= i < j < vs.len(),
        0 <= c < fb.len(),
        writes_lit(znear, rows, cols, vs, i, c),
        writes_lit(znear, rows, cols, vs, j, c),
        forall|k: int|
            0 <= k < vs.len() && #[trigger] writes_lit(znear, rows, cols, vs, k, c) ==> k == i || k
                == j,
    ensures
        fb[c] == glyph_lit(ramp, light, vs[j]),
        vs[j].position.z <= vs[i].position.z,
{
    let bound = vs.len() as int;
    assert(cell_written_lit(znear, rows, cols, vs, bound, c));
    let k1 = choose|k1: int|
        {
            &&& 0 <= k1 < bound
            &&& #[trigger] writes_lit(znear, rows, cols, vs, k1, c)
            &&& fb[c] == glyph_lit(ramp, light, vs[k1])
            &&& forall|k2: int| k1 < k2 < bound ==> !writes_lit(znear, rows, cols, vs, k2, c)
        };
    assert(k1 == i || k1 == j);
    if k1 == i {
        assert(!writes_lit(znear, rows, cols, vs, j, c));
    }
}

/// The flat-pass twin of `lemma_painter_order`.
pub proof fn lemma_painter_order_flat(
    znear: int,
    zfar: int,
    rows: int,
    cols: int,
    ramp: Seq<u8>,
    vs: Seq<Vec3>,
    fb: Seq<u8>,
    i: int,
    j: int,
    c: int,
)
    requires
        sorted_by_depth_v(vs),
        flat_raster_ok(znear, zfar, rows, cols, ramp, vs, vs.len() as int, fb),
        0 <= i < j < vs.len(),
        0 <= c < fb.len(),
        writes_flat(znear, rows, cols, vs, i, c),
        writes_flat(znear, rows, cols, vs, j, c),
        forall|k: int|
            0 <= k < vs.len() && #[trigger] writes_flat(znear, rows, cols, vs, k, c) ==> k == i
                || k == j,
    ensures
        fb[c] == glyph_flat(ramp, znear, zfar, vs[j]),
        vs[j].z <= vs[i].z,
{
    let bound = vs.len() as int;
    assert(cell_written_flat(znear, rows, cols, vs, bound, c));
    let k1 = choose|k1: int|
        {
            &&& 0 <= k1 < bound
            &&& #[trigger] writes_flat(znear, rows, cols, vs, k1, c)
            &&& fb[c] == glyph_flat(ramp, znear, zfar, vs[k1])
            &&& forall|k2: int| k1 < k2 < bound ==> !writes_flat(znear, rows, cols, vs, k2, c)
        };
    assert(k1 == i || k1 == j);
    if k1 == i {
        assert(!writes_flat(znear, rows, cols, vs, j, c));
    }
}

/// Positions ordered far-to-near: depth (z) non-increasing along the
/// sequence, so near samples are rasterized after far ones.
pub open spec fn sorted_by_depth(s: Seq<Sample>) -> bool {
    forall|a: int, b: int| 0 <= a < b < s.len() ==> s[a].position.z >= s[b].position.z
}

/// The flat variant's ordering over bare vertices.
pub open spec fn sorted_by_depth_v(s: Seq<Vec3>) -> bool {
    forall|a: int, b: int| 0 <= a < b < s.len() ==> s[a].z >= s[b].z
}

/// Reordering samples keeps every per-element component bound.
proof fn lemma_reorder_keeps_bounds(s1: Seq<Sample>, s2: Seq<Sample>, b: int)
    requires
        s1.to_multiset() == s2.to_multiset(),
        forall|k: int| 0 <= k < s1.len() ==> in_range(#[trigger] s1[k].position, b),
        forall|k: int| 0 <= k < s1.len() ==> in_range(#[trigger] s1[k].normal, b),
    ensures
        forall|k: int| 0 <= k < s2.len() ==> in_range(#[trigger] s2[k].position, b),
        forall|k: int| 0 <= k < s2.len() ==> in_range(#[trigger] s2[k].normal, b),
{
    broadcast use vstd::seq_lib::group_to_multiset_ensures;

    assert forall|k: int| 0 <= k < s2.len() implies in_range(#[trigger] s2[k].position, b) by {
        assert(s2.contains(s2[k]));
        assert(s1.to_multiset().count(s2[k]) > 0);
        assert(s1.contains(s2[k]));
        let i = choose|i: int| 0 <= i < s1.len() && s1[i] == s2[k];
    }
    assert forall|k: int| 0 <= k < s2.len() implies in_range(#[trigger] s2[k].normal, b) by {
        assert(s2.contains(s2[k]));
        assert(s1.to_multiset().count(s2[k]) > 0);
        assert(s1.contains(s2[k]));
        let i = choose|i: int| 0 <= i < s1.len() && s1[i] == s2[k];
    }
}

/// The flat variant of `lemma_reorder_keeps_bounds`.
proof fn lemma_reorder_keeps_bounds_v(s1: Seq<Vec3>, s2: Seq<Vec3>, b: int)
    requires
        s1.to_multiset() == s2.to_multiset(),
        forall|k: int| 0 <= k < s1.len() ==> in_range(#[trigger] s1[k], b),
    ensures
        forall|k: int| 0 <= k < s2.len() ==> in_range(#[trigger] s2[k], b),
{
    broadcast use vstd::seq_lib::group_to_multiset_ensures;

    assert forall|k: int| 0 <= k < s2.len() implies in_range(#[trigger] s2[k], b) by {
        assert(s2.contains(s2[k]));
        assert(s1.to_multiset().count(s2[k]) > 0);
        assert(s1.contains(s2[k]));
        let i = choose|i: int| 0 <= i < s1.len() && s1[i] == s2[k];
    }
}

/// Swapping two slots of a sequence keeps its multiset of elements.
proof fn lemma_swap_multiset<T>(s: Seq<T>, i: int, j: int)
    requires
        0 <= i < s.len(),
        0 <= j < s.len(),
        i != j,
    ensures
        s.update(i, s[j]).update(j, s[i]).to_multiset() == s.to_multiset(),
{
    broadcast use vstd::seq_lib::group_to_multiset_ensures;
    broadcast use vstd::multiset::group_multiset_axioms;

    let s1 = s.update(i, s[j]);
    let s2 = s1.update(j, s[i]);
    vstd::seq_lib::to_multiset_update(s, i, s[j]);
    vstd::seq_lib::to_multiset_update(s1, j, s[i]);
    assert(s.contains(s[i]));
    assert(s1.contains(s1[j]));
    assert(s1[j] == s[j]);
    assert(s2.to_multiset() =~= s.to_multiset());
}

/// Sort samples far-to-near by position depth, in place, by adjacent swaps.
fn sort_samples_by_depth(v: &mut Vec<Sample>)
    ensures
        final(v)@.len() == old(v)@.len(),
        final(v)@.to_multiset() == old(v)@.to_multiset(),
        sorted_by_depth(final(v)@),
{
    let n = v.len();
    let mut i: usize = 1;
    while i < n
        invariant
            n == v@.len(),
            v@.to_multiset() == old(v)@.to_multiset(),
            1 <= i <= n || (n == 0 && i == 1),
            forall|a: int, b: int| 0 <= a < b < i ==> v@[a].position.z >= v@[b].position.z,
        decreases n - i,
    {
        let mut j: usize = i;
        while j > 0 && v[j - 1].position.z < v[j].position.z
            invariant
                n == v@.len(),
                v@.to_multiset() == old(v)@.to_multiset(),
                0 <= j <= i < n,
                forall|a: int, b: int|
                    0 <= a < b <= i && a != j && b != j ==> v@[a].position.z >= v@[b].position.z,
                forall|a: int| j < a <= i ==> v@[j as int].position.z >= v@[a].position.z,
            decreases j,
        {
            let ghost w = v@;
            let prev = v[j - 1];
            let cur = v[j];
            v[j - 1] = cur;
            v[j] = prev;
            proof {
                lemma_swap_multiset(w, j - 1, j as int);
                assert(v@ =~= w.update(j - 1, w[j as int]).update(j as int, w[j - 1]));
            }
            j = j - 1;
        }
        i = i + 1;
    }
}

/// Sort bare vertices far-to-near by depth, in place, by adjacent swaps.
fn sort_vertices_by_depth(v: &mut Vec<Vec3>)
    ensures
        final(v)@.len() == old(v)@.len(),
        final(v)@.to_multiset() == old(v)@.to_multiset(),
        sorted_by_depth_v(final(v)@),
{
    let n = v.len();
    let mut i: usize = 1;
    while i < n
        invariant
            n == v@.len(),
            v@.to_multiset() == old(v)@.to_multiset(),
            1 <= i <= n || (n == 0 && i == 1),
            forall|a: int, b: int| 0 <= a < b < i ==> v@[a].z >= v@[b].z,
        decreases n - i,
    {
        let mut j: usize = i;
        while j > 0 && v[j - 1].z < v[j].z
            invariant
                n == v@.len(),
                v@.to_multiset() == old(v)@.to_multiset(),
                0 <= j <= i < n,
                forall|a: int, b: int|
                    0 <= a < b <= i && a != j && b != j ==> v@[a].z >= v@[b].z,
                forall|a: int| j < a <= i ==> v@[j as int].z >= v@[a].z,
            decreases j,
        {
            let ghost w = v@;
            let prev = v[j - 1];
            let cur = v[j];
            v[j - 1] = cur;
            v[j] = prev;
            proof {
                lemma_swap_multiset(w, j - 1, j as int);
                assert(v@ =~= w.update(j - 1, w[j as int]).update(j as int, w[j - 1]));
            }
            j = j - 1;
        }
        i = i + 1;
    }
}

/// A fully blank framebuffer of `rows * cols` glyphs.
fn blank_buffer(rows: u16, cols: u16) -> (r: Vec<u8>)
    ensures
        r@.len() == rows as int * cols as int,
        forall|c: int| 0 <= c < r@.len() ==> r@[c] == BLANK,
{
    proof {
        assert(rows as int * cols as int <= 0xFFFF * 0xFFFF) by (nonlinear_arith)
            requires
                0 <= rows <= 0xFFFF && 0 <= cols <= 0xFFFF,
        ;
    }
    let n: usize = ((rows as u32) * (cols as u32)) as usize;
    let mut r: Vec<u8> = Vec::new();
    let mut k: usize = 0;
    while k < n
        invariant
            0 <= k <= n,
            r@.len() == k,
            forall|c: int| 0 <= c < k ==> r@[c] == BLANK,
        decreases n - k,
    {
        r.push(BLANK);
        k = k + 1;
    }
    r
}

} // verus!
