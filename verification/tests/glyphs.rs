use toroid::fixed::FP;
use toroid::render::Renderer;

const RAMP: &str = "`.-':_,^=;><+!rc*/z?sLTv)J7(|Fi{C}fI31tlu[neoZ5Yxjya]2ESwqkP6h9d4VpOGbUAKXHm8RD#$Bg0MNWQ%&@";

fn ramp_bytes() -> Vec<u8> {
    RAMP.bytes().collect()
}

fn ramp_position(glyph: u8) -> usize {
    RAMP.bytes().position(|g| g == glyph).expect("glyph not in ramp")
}

#[test]
fn glyph_mapping_is_monotone_in_luminance() {
    let renderer = Renderer::new(FP, 20 * FP, 4, 4, ramp_bytes());
    let mut last = 0usize;
    let mut lum: i64 = -2 * FP;
    while lum <= 3 * FP {
        let here = ramp_position(renderer.convert_to_ascii(lum));
        assert!(here >= last, "ramp position fell from {} to {}", last, here);
        last = here;
        lum += 97;
    }
}

#[test]
fn glyph_mapping_clamps_out_of_range_luminance() {
    let renderer = Renderer::new(FP, 20 * FP, 4, 4, ramp_bytes());
    assert_eq!(renderer.convert_to_ascii(-5 * FP), renderer.convert_to_ascii(0));
    assert_eq!(renderer.convert_to_ascii(-1), renderer.convert_to_ascii(0));
    assert_eq!(renderer.convert_to_ascii(FP + 1), renderer.convert_to_ascii(FP));
    assert_eq!(renderer.convert_to_ascii(100 * FP), renderer.convert_to_ascii(FP));
}

#[test]
fn glyph_mapping_hits_exact_ramp_slots() {
    let renderer = Renderer::new(FP, 20 * FP, 4, 4, ramp_bytes());
    // 91 glyphs: luminance 0 gives slot 0, full luminance gives slot 90,
    // and half luminance truncates to slot 45.
    assert_eq!(renderer.convert_to_ascii(0), b'`');
    assert_eq!(renderer.convert_to_ascii(FP), b'@');
    assert_eq!(ramp_position(renderer.convert_to_ascii(FP / 2)), 45);
}

#[test]
fn glyph_mapping_works_on_a_two_glyph_ramp() {
    let renderer = Renderer::new(FP, 20 * FP, 4, 4, vec![b'.', b'#']);
    assert_eq!(renderer.convert_to_ascii(0), b'.');
    assert_eq!(renderer.convert_to_ascii(FP / 2 - 1), b'.');
    assert_eq!(renderer.convert_to_ascii(FP), b'#');
}
