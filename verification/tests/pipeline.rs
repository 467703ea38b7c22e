use toroid::fixed::FP;
use toroid::mesh::{create_toroid, map_range};
use toroid::render::{project_vertex, Renderer};
use toroid::transform::transform_mesh;
use toroid::vec3::{Sample, TrigPair, Vec3};

const RAMP: &str = "`.-':_,^=;><+!rc*/z?sLTv)J7(|Fi{C}fI31tlu[neoZ5Yxjya]2ESwqkP6h9d4VpOGbUAKXHm8RD#$Bg0MNWQ%&@";

fn ramp_bytes() -> Vec<u8> {
    RAMP.bytes().collect()
}

fn pair_for(angle: f64) -> TrigPair {
    TrigPair {
        sin: (angle.sin() * FP as f64).round() as i64,
        cos: (angle.cos() * FP as f64).round() as i64,
    }
}

fn trig_table(steps: u32) -> Vec<TrigPair> {
    let mut table = Vec::new();
    for i in 0..steps {
        let angle = 2.0 * std::f64::consts::PI * (i as f64) / (steps as f64);
        table.push(pair_for(angle));
    }
    table
}

fn fp(x: f64) -> i64 {
    (x * FP as f64) as i64
}

fn norm(v: &Vec3) -> f64 {
    let x = v.x as f64;
    let y = v.y as f64;
    let z = v.z as f64;
    (x * x + y * y + z * z).sqrt()
}

#[test]
fn mesh_has_exact_sample_count_and_unit_normals() {
    let circ = trig_table(30);
    let tor = trig_table(100);
    let mesh = create_toroid(fp(0.4), fp(0.3), &circ, &tor);
    assert_eq!(mesh.len(), 30 * 100);
    for s in mesh.iter() {
        let len = norm(&s.normal) / FP as f64;
        assert!((len - 1.0).abs() < 1e-4, "normal length {} drifts", len);
    }
}

#[test]
fn mesh_empty_when_a_resolution_is_zero() {
    let circ = trig_table(30);
    let empty: Vec<TrigPair> = Vec::new();
    assert_eq!(create_toroid(fp(0.4), fp(0.3), &circ, &empty).len(), 0);
    assert_eq!(create_toroid(fp(0.4), fp(0.3), &empty, &circ).len(), 0);
}

#[test]
fn mesh_identity_sweep_places_sample_on_radial_axis() {
    // One sweep step at angle 0, one tube step at angle 0: the normal points
    // along +x and the position is the full outer radius on the x axis.
    let id = vec![TrigPair { sin: 0, cos: FP }];
    let mesh = create_toroid(FP, FP / 2, &id, &id);
    assert_eq!(mesh.len(), 1);
    let s = &mesh[0];
    assert_eq!((s.normal.x, s.normal.y, s.normal.z), (FP, 0, 0));
    assert_eq!((s.position.x, s.position.y, s.position.z), (2 * FP, 0, 0));
}

#[test]
fn mesh_quarter_sweep_rotates_ring_into_depth() {
    // A quarter turn about the vertical axis sends +x to -z exactly.
    let tube = vec![TrigPair { sin: 0, cos: FP }];
    let quarter = vec![TrigPair { sin: FP, cos: 0 }];
    let mesh = create_toroid(FP, FP / 2, &tube, &quarter);
    assert_eq!(mesh.len(), 1);
    let s = &mesh[0];
    assert_eq!((s.normal.x, s.normal.y, s.normal.z), (0, 0, -FP));
    assert_eq!((s.position.x, s.position.y, s.position.z), (0, 0, -2 * FP));
}

#[test]
fn map_range_hits_exact_fraction() {
    assert_eq!(map_range(5, 10, 0, 2 * FP), FP);
    assert_eq!(map_range(0, 7, 0, 2 * FP), 0);
    assert_eq!(map_range(3, 4, -FP, FP), 3 * FP / 2);
}

#[test]
fn transform_by_zero_rotation_is_exact_identity() {
    let circ = trig_table(8);
    let tor = trig_table(8);
    let mut mesh = create_toroid(fp(0.4), fp(0.3), &circ, &tor);
    for s in mesh.iter_mut() {
        s.position.z += 4 * FP;
    }
    let before = mesh.clone();
    let zero = TrigPair { sin: 0, cos: FP };
    let pivot = Vec3 { x: 0, y: 0, z: 4 * FP };
    transform_mesh(&mut mesh, pivot, &zero, &zero);
    assert_eq!(mesh, before);
}

#[test]
fn transform_quarter_turn_moves_x_to_depth() {
    let mut mesh = vec![Sample {
        position: Vec3 { x: FP, y: 0, z: 0 },
        normal: Vec3 { x: FP, y: 0, z: 0 },
    }];
    let quarter = TrigPair { sin: FP, cos: 0 };
    let zero = TrigPair { sin: 0, cos: FP };
    let pivot = Vec3 { x: 0, y: 0, z: 0 };
    transform_mesh(&mut mesh, pivot, &quarter, &zero);
    assert_eq!((mesh[0].position.x, mesh[0].position.y, mesh[0].position.z), (0, 0, -FP));
    assert_eq!((mesh[0].normal.x, mesh[0].normal.y, mesh[0].normal.z), (0, 0, -FP));
}

#[test]
fn repeated_rotation_preserves_distances_within_tolerance() {
    // A hundred frame steps: the distance to the pivot and the normal length
    // drift only within fixed-point truncation tolerance.
    let mut mesh = vec![Sample {
        position: Vec3 { x: 2 * FP, y: FP, z: 4 * FP + FP / 2 },
        normal: Vec3 { x: 0, y: 0, z: FP },
    }];
    let pivot = Vec3 { x: 0, y: 0, z: 4 * FP };
    let rot_a = pair_for(0.02);
    let rot_b = pair_for(0.03);
    let start = Vec3 {
        x: mesh[0].position.x - pivot.x,
        y: mesh[0].position.y - pivot.y,
        z: mesh[0].position.z - pivot.z,
    };
    let start_dist = norm(&start);
    let start_norm = norm(&mesh[0].normal);
    for _ in 0..100 {
        transform_mesh(&mut mesh, pivot, &rot_a, &rot_b);
    }
    let end = Vec3 {
        x: mesh[0].position.x - pivot.x,
        y: mesh[0].position.y - pivot.y,
        z: mesh[0].position.z - pivot.z,
    };
    assert!((norm(&end) / start_dist - 1.0).abs() < 1e-3);
    assert!((norm(&mesh[0].normal) / start_norm - 1.0).abs() < 1e-3);
}

#[test]
fn single_sample_projects_to_viewport_center() {
    // A sample at (0, 0, 4) with znear 1 in a 40x40 viewport lands exactly
    // on screen cell (20, 20) and is not culled.
    let v = Vec3 { x: 0, y: 0, z: 4 * FP };
    assert_eq!(project_vertex(FP, 40, 40, &v), Some((20, 20)));
}

#[test]
fn projection_culls_out_of_view_samples() {
    // Behind the camera plane.
    assert_eq!(project_vertex(FP, 40, 40, &Vec3 { x: 0, y: 0, z: 0 }), None);
    assert_eq!(project_vertex(FP, 40, 40, &Vec3 { x: 0, y: 0, z: -4 * FP }), None);
    // Far off the side of the viewport.
    assert_eq!(project_vertex(FP, 40, 40, &Vec3 { x: 100 * FP, y: 0, z: 2 * FP }), None);
    assert_eq!(project_vertex(FP, 40, 40, &Vec3 { x: -100 * FP, y: 0, z: 2 * FP }), None);
    assert_eq!(project_vertex(FP, 40, 40, &Vec3 { x: 0, y: 100 * FP, z: 2 * FP }), None);
}

#[test]
fn culled_samples_leave_no_mark_on_the_framebuffer() {
    let mut renderer = Renderer::new(FP, 20 * FP, 40, 40, ramp_bytes());
    let mut vertices = vec![
        Vec3 { x: 100 * FP, y: 0, z: 2 * FP },
        Vec3 { x: 0, y: 0, z: -FP },
    ];
    renderer.render_vertices(&mut vertices);
    assert!(renderer.framebuffer.iter().all(|&g| g == b' '));
}

#[test]
fn single_sample_renders_at_flipped_center_cell() {
    let mut renderer = Renderer::new(FP, 20 * FP, 40, 40, ramp_bytes());
    let mut vertices = vec![Vec3 { x: 0, y: 0, z: 4 * FP }];
    renderer.render_vertices(&mut vertices);
    // Screen cell (20, 20) lands at slot 40*40 - 20*40 - (40 - 20) = 780.
    let idx = 40 * 40 - 20 * 40 - (40 - 20);
    for (i, &g) in renderer.framebuffer.iter().enumerate() {
        if i == idx {
            // Flat shading at this depth saturates to the brightest glyph.
            assert_eq!(g, b'@');
        } else {
            assert_eq!(g, b' ');
        }
    }
}

#[test]
fn nearer_sample_wins_the_shared_cell() {
    // Two samples project to the same cell; the one nearer the camera
    // (smaller z) is drawn later and decides the glyph.
    let mut renderer = Renderer::new(FP, 20 * FP, 40, 40, ramp_bytes());
    let near_lit = Sample {
        position: Vec3 { x: 0, y: 0, z: 4 * FP },
        normal: Vec3 { x: 0, y: 0, z: FP },
    };
    let far_dark = Sample {
        position: Vec3 { x: 0, y: 0, z: 6 * FP },
        normal: Vec3 { x: 0, y: 0, z: -FP },
    };
    let light = Vec3 { x: 0, y: 0, z: FP };
    let idx = 40 * 40 - 20 * 40 - (40 - 20);

    let mut vertices = vec![near_lit, far_dark];
    renderer.render_vertices_light(&mut vertices, light);
    let brightest = renderer.convert_to_ascii(FP);
    assert_eq!(renderer.framebuffer[idx], brightest);

    // Same outcome with the input handed over in the opposite order.
    let mut vertices = vec![far_dark, near_lit];
    renderer.render_vertices_light(&mut vertices, light);
    assert_eq!(renderer.framebuffer[idx], brightest);
}

#[test]
fn lit_torus_under_depth_light_darkens_averted_normals() {
    // A torus under light (0, 0, 1): only samples whose normal has a
    // positive z component receive light; every other sample contributes the
    // minimum (darkest) glyph.
    let circ = trig_table(30);
    let tor = trig_table(100);
    let mut mesh = create_toroid(fp(0.4), fp(0.3), &circ, &tor);
    for s in mesh.iter_mut() {
        s.position.z += 4 * FP;
    }
    let zero = TrigPair { sin: 0, cos: FP };
    let pivot = Vec3 { x: 0, y: 0, z: 4 * FP };
    transform_mesh(&mut mesh, pivot, &zero, &zero);

    let mut renderer = Renderer::new(FP, 20 * FP, 40, 80, ramp_bytes());
    let light = Vec3 { x: 0, y: 0, z: FP };
    let darkest = renderer.convert_to_ascii(0);
    for s in mesh.iter() {
        if s.normal.z <= 0 {
            let lum = (light.x * s.normal.x + light.y * s.normal.y + light.z * s.normal.z) / FP;
            let lum = if lum > 0 { lum } else { 0 };
            assert_eq!(renderer.convert_to_ascii(lum), darkest);
        }
    }
    renderer.render_vertices_light(&mut mesh, light);
    let lit_cells = renderer
        .framebuffer
        .iter()
        .filter(|&&g| g != b' ' && g != darkest)
        .count();
    let dark_cells = renderer.framebuffer.iter().filter(|&&g| g == darkest).count();
    assert!(lit_cells > 0, "no sample facing the light was drawn");
    assert!(dark_cells > 0, "no averted sample was drawn");
}

#[test]
fn new_renderer_starts_fully_blank() {
    let renderer = Renderer::new(FP, 20 * FP, 7, 11, ramp_bytes());
    assert_eq!(renderer.framebuffer.len(), 77);
    assert!(renderer.framebuffer.iter().all(|&g| g == b' '));
}
