use pyx_rusterizer::color::{grayscale, lit_color, lit_color_old, shade_bucket_of, Color, Material};
use pyx_rusterizer::num::{ceil_div_i128, floor_div_i128, isqrt};
use pyx_rusterizer::poly::{Tri, Vertex};

/// A vertex given in whole pixels / whole depth units.
fn v(x: i64, y: i64, z: i64) -> Vertex {
    Vertex { x: x * 256, y: y * 256, z: z * 256 }
}

#[test]
fn shade_buckets_follow_exponential_thresholds() {
    // floor(2^(3 * v)) on the 1/256 grid: bucket k starts at
    // ceil(256 * log2(k) / 3).
    assert_eq!(shade_bucket_of(0), 1);
    assert_eq!(shade_bucket_of(85), 1);
    assert_eq!(shade_bucket_of(86), 2);
    assert_eq!(shade_bucket_of(135), 2);
    assert_eq!(shade_bucket_of(136), 3);
    assert_eq!(shade_bucket_of(170), 3);
    assert_eq!(shade_bucket_of(171), 4);
    assert_eq!(shade_bucket_of(198), 4);
    assert_eq!(shade_bucket_of(199), 5);
    assert_eq!(shade_bucket_of(220), 5);
    assert_eq!(shade_bucket_of(221), 6);
    assert_eq!(shade_bucket_of(239), 6);
    assert_eq!(shade_bucket_of(240), 7);
    assert_eq!(shade_bucket_of(255), 7);
    assert_eq!(shade_bucket_of(256), 8);
    // Values outside the unit range clamp.
    assert_eq!(shade_bucket_of(-50), 1);
    assert_eq!(shade_bucket_of(10_000), 8);
}

#[test]
fn grayscale_ramp() {
    assert_eq!(grayscale(0), Color::Blue0);
    assert_eq!(grayscale(85), Color::Blue0);
    assert_eq!(grayscale(86), Color::Blue1);
    assert_eq!(grayscale(200), Color::Blue4);
    assert_eq!(grayscale(255), Color::Blue6);
    assert_eq!(grayscale(256), Color::White);
    assert_eq!(grayscale(9_999), Color::White);
}

#[test]
fn lit_color_reads_the_shade_ramp() {
    let m = Material { shades: [10, 11, 12, 13, 14, 15, 16, 17, 18] };
    assert_eq!(lit_color(0, m), 11);
    assert_eq!(lit_color(-5, m), 11);
    assert_eq!(lit_color(200, m), 15);
    assert_eq!(lit_color(256, m), 18);
    assert_eq!(lit_color(5_000, m), 18);
}

#[test]
fn lit_color_old_ramps() {
    assert_eq!(lit_color_old(0, Color::Red), Color::Purple);
    assert_eq!(lit_color_old(256, Color::Red), Color::Orange);
    assert_eq!(lit_color_old(0, Color::White), Color::Blue4);
    assert_eq!(lit_color_old(256, Color::White), Color::White);
    assert_eq!(lit_color_old(0, Color::Black), Color::Black);
    assert_eq!(lit_color_old(230, Color::Black), Color::Blue0);
    assert_eq!(lit_color_old(256, Color::Black), Color::Blue1);
    assert_eq!(lit_color_old(150, Color::Cyan2), Color::Cyan1);
    assert_eq!(lit_color_old(256, Color::Cyan2), Color::White);
    // Any other base color falls back to the grayscale ramp.
    assert_eq!(lit_color_old(90, Color::Yellow), Color::Blue1);
}

#[test]
fn illumination_of_a_facing_triangle() {
    let t = Tri::new(v(0, 0, 1), v(10, 0, 1), v(5, 10, 1), Material { shades: [0; 9] });
    assert_eq!(t.illumination, 105);
}

#[test]
fn illumination_of_a_degenerate_triangle_is_ambient() {
    // Collinear vertices have no face normal: only the ambient term remains.
    let t = Tri::new(v(0, 0, 0), v(1, 1, 1), v(2, 2, 2), Material { shades: [0; 9] });
    assert_eq!(t.illumination, 20);
}

#[test]
fn illumination_clamps_at_zero_for_back_faces() {
    // Reversing the winding flips the normal: the cosine goes negative and
    // clamps to zero, leaving the ambient term.
    let t = Tri::new(v(10, 0, 1), v(0, 0, 1), v(5, 10, 1), Material { shades: [0; 9] });
    assert_eq!(t.illumination, 20);
}

#[test]
fn integer_square_roots() {
    assert_eq!(isqrt(0), 0);
    assert_eq!(isqrt(1), 1);
    assert_eq!(isqrt(15), 3);
    assert_eq!(isqrt(16), 4);
    assert_eq!(isqrt(u128::MAX), u64::MAX);
}

#[test]
fn flooring_and_ceiling_division() {
    assert_eq!(floor_div_i128(7, 2), 3);
    assert_eq!(floor_div_i128(-7, 2), -4);
    assert_eq!(floor_div_i128(-8, 2), -4);
    assert_eq!(ceil_div_i128(7, 2), 4);
    assert_eq!(ceil_div_i128(-7, 2), -3);
    assert_eq!(ceil_div_i128(8, 2), 4);
}
