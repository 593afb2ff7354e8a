use pyx_rusterizer::buffer::{Buffer, DEPTH_EMPTY};
use pyx_rusterizer::color::Material;
use pyx_rusterizer::geo::{transform_point, Affine, Geo, IndexedTriangle, Mesh};
use pyx_rusterizer::poly::{draw_tri, Tri, Vertex};

/// A vertex given in whole pixels / whole depth units.
fn v(x: i64, y: i64, z: i64) -> Vertex {
    Vertex { x: x * 256, y: y * 256, z: z * 256 }
}

fn fresh(width: usize, height: usize) -> Buffer {
    let mut b = Buffer::new(width, height, [0u32; 32], 1);
    b.clear_screen();
    b
}

fn flat(shade: u8) -> Material {
    Material { shades: [shade; 9] }
}

#[test]
fn triangle_footprint_narrows_linearly() {
    // A constant-depth triangle with a flat top edge at y = 0 and its apex
    // at (5, 10): rows 0..=10 hold horizontally symmetric spans narrowing
    // from 11 pixels wide at y = 0 to 1 pixel at y = 10; nothing outside
    // that footprint is touched.
    let mut buf = fresh(20, 20);
    let tri = Tri::new(v(0, 0, 1), v(10, 0, 1), v(5, 10, 1), flat(5));
    draw_tri(&mut buf, &tri);
    for y in 0..20usize {
        for x in 0..20usize {
            let inside = y <= 10 && x >= (y + 1) / 2 && x <= (20 - y) / 2;
            let i = y * 20 + x;
            assert_eq!(buf.canvas()[i] == 5, inside, "canvas at ({x}, {y})");
            assert_eq!(buf.depths()[i] != DEPTH_EMPTY, inside, "depth at ({x}, {y})");
        }
    }
    assert_eq!(buf.canvas()[0..11], [5u8; 11]);
    assert_eq!(buf.canvas()[10 * 20 + 5], 5);
    assert_eq!(buf.canvas()[10 * 20 + 4], 0);
    assert_eq!(buf.canvas()[10 * 20 + 6], 0);
}

#[test]
fn overlapping_triangles_draw_order_independent() {
    // Two overlapping constant-depth triangles, depths 1 and 2, drawn in
    // either order onto a cleared buffer, give identical canvases; the
    // deeper ("greater wins") triangle owns the overlap either way.
    let a = Tri::new(v(2, 2, 1), v(12, 2, 1), v(7, 12, 1), flat(7));
    let b = Tri::new(v(2, 6, 2), v(12, 6, 2), v(7, 16, 2), flat(9));
    let mut buf1 = fresh(20, 20);
    draw_tri(&mut buf1, &a);
    draw_tri(&mut buf1, &b);
    let mut buf2 = fresh(20, 20);
    draw_tri(&mut buf2, &b);
    draw_tri(&mut buf2, &a);
    assert_eq!(buf1.canvas(), buf2.canvas());
    assert_eq!(buf1.depths(), buf2.depths());
    // (7, 8) lies inside both triangles; the depth-2 color must win there.
    assert_eq!(buf1.canvas()[8 * 20 + 7], 9);
}

#[test]
fn offscreen_triangle_writes_nothing() {
    // Entirely below the canvas.
    let mut buf = fresh(20, 20);
    let below = Tri::new(v(5, 25, 3), v(15, 25, 3), v(10, 35, 3), flat(6));
    draw_tri(&mut buf, &below);
    assert!(buf.canvas().iter().all(|&c| c == 0));
    assert!(buf.depths().iter().all(|&d| d == DEPTH_EMPTY));
    // Entirely to the left of the canvas.
    let left = Tri::new(v(-10, 2, 3), v(-2, 2, 3), v(-6, 8, 3), flat(6));
    draw_tri(&mut buf, &left);
    assert!(buf.canvas().iter().all(|&c| c == 0));
    assert!(buf.depths().iter().all(|&d| d == DEPTH_EMPTY));
}

#[test]
fn depth_test_greater_wins() {
    // Once a depth is stored at a pixel, a write at or below it changes
    // nothing; a strictly greater depth updates color and depth.
    let mut buf = fresh(20, 20);
    buf.h_line(0, 10 * 256, 5, 512, 512, 3);
    let i = 5 * 20 + 4;
    assert_eq!(buf.canvas()[i], 3);
    assert_eq!(buf.depths()[i], 512);
    buf.h_line(0, 10 * 256, 5, 256, 256, 4);
    assert_eq!(buf.canvas()[i], 3);
    assert_eq!(buf.depths()[i], 512);
    buf.h_line(0, 10 * 256, 5, 512, 512, 4);
    assert_eq!(buf.canvas()[i], 3);
    assert_eq!(buf.depths()[i], 512);
    buf.h_line(0, 10 * 256, 5, 768, 768, 6);
    assert_eq!(buf.canvas()[i], 6);
    assert_eq!(buf.depths()[i], 768);
}

#[test]
fn span_interpolates_depth_across_row() {
    let mut buf = fresh(20, 20);
    // Depth ramps from 0 at x = 0 to 10 (in whole units) at x = 10.
    buf.h_line(0, 10 * 256, 0, 0, 10 * 256, 2);
    for x in 0..=10usize {
        assert_eq!(buf.depths()[x], (x as i64) * 256);
        assert_eq!(buf.canvas()[x], 2);
    }
    assert_eq!(buf.depths()[11], DEPTH_EMPTY);
}

#[test]
fn out_of_range_row_is_dropped() {
    let mut buf = fresh(20, 20);
    buf.h_line(0, 10 * 256, -1, 512, 512, 3);
    buf.h_line(0, 10 * 256, 20, 512, 512, 3);
    assert!(buf.canvas().iter().all(|&c| c == 0));
    assert!(buf.depths().iter().all(|&d| d == DEPTH_EMPTY));
}

#[test]
fn span_bounds_are_clamped() {
    let mut buf = fresh(10, 10);
    // A span overhanging both edges covers exactly the full row.
    buf.h_line(-5 * 256, 50 * 256, 3, 512, 512, 4);
    for x in 0..10usize {
        assert_eq!(buf.canvas()[3 * 10 + x], 4);
    }
    assert!(buf.canvas()[0..30].iter().all(|&c| c == 0));
    assert!(buf.canvas()[40..].iter().all(|&c| c == 0));
}

#[test]
fn pix_clamps_coordinates() {
    let mut buf = fresh(8, 8);
    buf.pix(-5, 3, 7);
    assert_eq!(buf.canvas()[3 * 8 + 0], 7);
    buf.pix(100, 2, 9);
    assert_eq!(buf.canvas()[2 * 8 + 7], 9);
    buf.pix(1, -9, 11);
    assert_eq!(buf.canvas()[0 * 8 + 1], 11);
    buf.pix(4, 100, 13);
    assert_eq!(buf.canvas()[7 * 8 + 4], 13);
}

#[test]
fn clear_screen_is_idempotent() {
    // Clearing twice is the same as clearing once: background everywhere,
    // empty depth everywhere.
    let mut buf = fresh(12, 9);
    let tri = Tri::new(v(1, 1, 5), v(9, 1, 5), v(5, 8, 5), flat(4));
    draw_tri(&mut buf, &tri);
    buf.clear_screen();
    let canvas_once = buf.canvas().clone();
    let depths_once = buf.depths().clone();
    buf.clear_screen();
    assert_eq!(&canvas_once, buf.canvas());
    assert_eq!(&depths_once, buf.depths());
    assert!(canvas_once.iter().all(|&c| c == 0));
    assert!(depths_once.iter().all(|&d| d == DEPTH_EMPTY));
}

#[test]
fn rgb_pixels_resolve_and_scale() {
    let mut palette = [0u32; 32];
    palette[0] = 100;
    palette[3] = 300;
    let mut buf = Buffer::new(2, 1, palette, 2);
    buf.clear_screen();
    buf.pix(1, 0, 3);
    let rgb = buf.rgb_pixels();
    assert_eq!(rgb, vec![100, 100, 300, 300, 100, 100, 300, 300]);
    assert_eq!(buf.width(), 2);
    assert_eq!(buf.height(), 1);
}

#[test]
fn mesh_render_matches_direct_draw() {
    let mesh = Mesh {
        vertices: vec![v(0, 0, 1), v(10, 0, 1), v(5, 10, 1)],
        triangles: vec![IndexedTriangle { index: (0, 1, 2), material_index: 0 }],
        materials: vec![flat(5)],
    };
    let geo = Geo::new(mesh, Affine::identity());
    let mut buf = fresh(20, 20);
    geo.render(&mut buf);
    let mut direct = fresh(20, 20);
    let tri = Tri::new(v(0, 0, 1), v(10, 0, 1), v(5, 10, 1), flat(5));
    draw_tri(&mut direct, &tri);
    assert_eq!(buf.canvas(), direct.canvas());
    assert_eq!(buf.depths(), direct.depths());
}

#[test]
fn transform_scales_and_translates() {
    // Scale by one half (128/256), translate x by one pixel.
    let a = Affine {
        m11: 128,
        m12: 0,
        m13: 0,
        m21: 0,
        m22: 128,
        m23: 0,
        m31: 0,
        m32: 0,
        m33: 128,
        tx: 256,
        ty: 0,
        tz: 0,
    };
    let r = transform_point(&a, Vertex { x: -768, y: 512, z: 256 });
    // Flooring division: -768 / 2 = -384, plus the translation.
    assert_eq!(r, Vertex { x: -128, y: 256, z: 128 });
}

#[test]
fn general_split_rows_are_contiguous() {
    // A triangle with three distinct y levels goes through the synthetic
    // split; every covered row must still be one contiguous run of pixels,
    // and only rows spanned by the triangle are touched.
    let mut buf = fresh(20, 20);
    let tri = Tri::new(v(0, 0, 1), v(8, 3, 1), v(3, 9, 1), flat(5));
    draw_tri(&mut buf, &tri);
    let mut touched_rows = 0;
    for y in 0..20usize {
        let row: Vec<usize> =
            (0..20usize).filter(|&x| buf.canvas()[y * 20 + x] == 5).collect();
        if !row.is_empty() {
            touched_rows += 1;
            assert!(y <= 9, "row {y} is outside the triangle's vertical extent");
            let lo = row[0];
            let hi = row[row.len() - 1];
            assert_eq!(row.len(), hi - lo + 1, "row {y} is not contiguous");
        }
    }
    assert!(touched_rows >= 8);
}

#[test]
fn equal_depth_ties_favor_first_writer() {
    // The depth test is strictly greater-than, so a later write at exactly
    // the stored depth loses: with equal depths, whoever drew first keeps
    // the pixel.
    let a = Tri::new(v(2, 2, 1), v(12, 2, 1), v(7, 12, 1), flat(7));
    let b = Tri::new(v(2, 2, 1), v(12, 2, 1), v(7, 12, 1), flat(9));
    let mut buf = fresh(20, 20);
    draw_tri(&mut buf, &a);
    draw_tri(&mut buf, &b);
    assert_eq!(buf.canvas()[3 * 20 + 7], 7);
}

#[test]
fn degenerate_vertical_span_takes_lower_depth() {
    // A span whose two x bounds coincide on a pixel center covers exactly
    // that pixel, and its depth resolves to the smaller of the two ends.
    let mut buf = fresh(10, 10);
    buf.h_line(4 * 256, 4 * 256, 2, 768, 256, 3);
    assert_eq!(buf.canvas()[2 * 10 + 4], 3);
    assert_eq!(buf.depths()[2 * 10 + 4], 256);
    assert_eq!(buf.canvas()[2 * 10 + 3], 0);
    assert_eq!(buf.canvas()[2 * 10 + 5], 0);
}
