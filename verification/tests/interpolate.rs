use pyx_rusterizer::frac::Frac;
use pyx_rusterizer::interpolate::{lerp_points, LerpIter};

type Point = (f64, f64);

fn val(f: &Frac) -> f64 {
    f.num as f64 / f.den as f64
}

/// Collect the whole walk as floating-point pairs (each produced point is an
/// exact fraction; the conversion is only for comparison in the tests).
fn collect(p1: (i64, i64), p2: (i64, i64), num_steps: usize) -> Vec<Point> {
    let pts = lerp_points(p1, p2, num_steps);
    pts.iter().map(|(x, y)| (val(x), val(y))).collect()
}

fn point_range(x_range: std::ops::RangeInclusive<i32>, y_range: std::ops::RangeInclusive<i32>) -> Vec<Point> {
    x_range.zip(y_range).map(|(x, y)| (x as f64, y as f64)).collect()
}

#[test]
fn basic() {
    assert!(true)
}

#[test]
fn simple_lerp() {
    let zero_to_five: Vec<Point> = collect((0, 0), (5, 5), 6);
    let expected = point_range(0..=5, 0..=5);
    assert_eq!(expected, zero_to_five)
}

#[test]
fn empty_lerp() {
    let empty: Vec<Point> = collect((0, 0), (5, 5), 0);
    assert_eq!(Vec::<Point>::new(), empty)
}

#[test]
/// It's a bit ambiguous if it should be the first or the last; the one value
/// returned is the same as the first value for other numbers of steps.
fn one_lerp() {
    let one: Vec<Point> = collect((0, 0), (5, 5), 1);
    assert_eq!(vec![(0.0, 0.0)], one)
}

#[test]
fn swapped_input() {
    let zero_to_five: Vec<Point> = collect((5, 5), (0, 0), 6);
    let expected = point_range(0..=5, 0..=5);
    assert_eq!(expected, zero_to_five)
}

#[test]
fn count_down() {
    let five_to_zero: Vec<Point> = collect((0, 5), (5, 0), 6);
    let expected: Vec<Point> = (0..=5).zip((0..=5).rev()).map(|(x, y)| (x as f64, y as f64)).collect();
    assert_eq!(expected, five_to_zero)
}

#[test]
fn large_slope() {
    let zero_to_five: Vec<Point> = collect((0, 0), (1, 5), 6);
    assert_eq!(
        vec![(0.0, 0.0), (0.2, 1.0), (0.4, 2.0), (0.6, 3.0), (0.8, 4.0), (1.0, 5.0)],
        zero_to_five
    )
}

#[test]
fn horizontal_line() {
    let zero_to_five: Vec<Point> = collect((0, 0), (5, 0), 6);
    assert_eq!(
        vec![(0.0, 0.0), (1.0, 0.0), (2.0, 0.0), (3.0, 0.0), (4.0, 0.0), (5.0, 0.0)],
        zero_to_five
    )
}

#[test]
/// When x1 == x2, it's ambiguous whether to count down or up with y; we
/// choose to count up.
fn vertical_line() {
    let vert: Vec<Point> = collect((0, 0), (0, 5), 1);
    assert_eq!((0.0, 0.0), vert[0])
}

#[test]
/// Swapping the points doesn't change the output.
fn vertical_line_2() {
    let vert: Vec<Point> = collect((0, 5), (0, 0), 1);
    assert_eq!((0.0, 0.0), vert[0])
}

#[test]
fn vertical_line_3() {
    let vert: Vec<Point> = collect((0, 5), (0, 0), 3);
    assert_eq!(vec![(0.0, 0.0), (0.0, 2.5), (0.0, 5.0)], vert)
}

#[test]
fn iterator_stops_after_count() {
    let mut it = LerpIter::new((0, 0), (4, 8), 3);
    assert!(it.next().is_some());
    assert!(it.next().is_some());
    assert!(it.next().is_some());
    assert!(it.next().is_none());
    assert!(it.next().is_none());
}

#[test]
fn endpoints_are_exact() {
    // Endpoint law on concrete values: the first produced point is the
    // order-resolved first input, the last is the second, exactly.
    let pts = lerp_points((9, 1), (3, 7), 5);
    assert_eq!(pts.len(), 5);
    assert!(pts[0].0.eq_frac(&Frac::from_int(3)));
    assert!(pts[0].1.eq_frac(&Frac::from_int(7)));
    assert!(pts[4].0.eq_frac(&Frac::from_int(9)));
    assert!(pts[4].1.eq_frac(&Frac::from_int(1)));
}

#[test]
fn fraction_value_comparisons() {
    let a = Frac::new(1, 5);
    let b = Frac::new(2, 10);
    let c = Frac::new(3, 10);
    assert!(a.eq_frac(&b));
    assert!(!a.eq_frac(&c));
    assert!(a.le_frac(&c));
    assert!(!c.le_frac(&a));
    assert_eq!(Frac::new(-7, 2).floor(), -4);
    assert_eq!(Frac::new(7, 2).floor(), 3);
}
