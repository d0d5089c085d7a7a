use cloudscape::raster::{
    covered_pixels, edge_function, interpolate, is_inside, weights, Barycentric, ScreenPoint,
    SUBPIXEL,
};
use cloudscape::target::DepthTarget;

fn px(x: i64, y: i64) -> ScreenPoint {
    ScreenPoint { x: x * SUBPIXEL, y: y * SUBPIXEL }
}

#[test]
fn weights_sum_to_the_doubled_area() {
    let (v0, v1, v2) = (px(0, 0), px(4, 0), px(0, 4));
    let area = edge_function(v0, v1, v2);
    assert_eq!(area, 16 * (SUBPIXEL as i128) * (SUBPIXEL as i128));
    let b = weights(v0, v1, v2, px(1, 1));
    assert_eq!(b.w0 + b.w1 + b.w2, area);
    assert!(is_inside(b));
    assert!(!is_inside(weights(v0, v1, v2, px(3, 3))));
    assert!(is_inside(weights(v0, v1, v2, px(2, 2))));
}

#[test]
fn interpolation_at_a_vertex_returns_its_value() {
    let (v0, v1, v2) = (px(1, 1), px(7, 2), px(3, 9));
    let (a0, a1, a2) = (-1500, 240, 99_000);
    assert_eq!(interpolate(weights(v0, v1, v2, v0), a0, a1, a2), Some(a0 as i128));
    assert_eq!(interpolate(weights(v0, v1, v2, v1), a0, a1, a2), Some(a1 as i128));
    assert_eq!(interpolate(weights(v0, v1, v2, v2), a0, a1, a2), Some(a2 as i128));
    // clockwise winding gives the same values
    assert_eq!(interpolate(weights(v0, v2, v1, v2), a0, a1, a2), Some(a1 as i128));
}

#[test]
fn interpolation_rounds_down_and_rejects_degenerate_triangles() {
    let b = Barycentric { w0: 1, w1: 1, w2: 1 };
    assert_eq!(interpolate(b, 0, 0, 1), Some(0));
    assert_eq!(interpolate(b, 0, 0, -1), Some(-1));
    let flat = weights(px(0, 0), px(1, 1), px(2, 2), px(5, 0));
    assert_eq!(interpolate(flat, 1, 2, 3), None);
    let midpoint = weights(px(0, 0), px(2, 0), px(0, 2), px(1, 0));
    assert_eq!(interpolate(midpoint, 0, 100, 50), Some(50));
}

#[test]
fn covered_pixels_of_a_small_triangle() {
    let frags = covered_pixels(px(0, 0), px(4, 0), px(0, 4), 10, 10);
    assert_eq!(frags.len(), 15);
    assert_eq!((frags[0].x, frags[0].y), (0, 0));
    assert_eq!((frags[4].x, frags[4].y), (4, 0));
    assert_eq!((frags[14].x, frags[14].y), (0, 4));
    for f in &frags {
        assert!(f.x + f.y <= 4);
    }
}

#[test]
fn covered_pixels_are_clipped_to_the_target() {
    let frags = covered_pixels(px(-3, -3), px(6, -3), px(-3, 6), 2, 2);
    assert_eq!(frags.len(), 4);
    let frags = covered_pixels(px(-8, -8), px(-4, -8), px(-8, -4), 10, 10);
    assert!(frags.is_empty());
}

#[test]
fn depth_test_keeps_the_nearest_fragment() {
    let mut t = DepthTarget::new(3, 2, 0u8);
    assert!(t.write(1, 1, 50, 7));
    assert!(!t.write(1, 1, 60, 8));
    assert_eq!(t.color_at(1, 1), 7);
    assert!(t.write(1, 1, 10, 9));
    assert_eq!(t.depth_at(1, 1), Some(10));
    assert!(!t.write(3, 0, 1, 1));
    assert_eq!(t.depth_at(0, 0), None);
    let colors = t.into_colors();
    assert_eq!(colors, vec![0, 0, 0, 0, 9, 0]);
}
