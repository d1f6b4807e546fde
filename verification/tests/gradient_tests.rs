use fraktal::Color;
use fraktal::Gradient;
use fraktal::GradientPivot;

fn black() -> Color {
    Color::of(0, 0, 0, 255)
}

fn magenta() -> Color {
    Color::of(255, 0, 255, 255)
}

#[test]
fn default_gradient_shape() {
    let g = Gradient::default();
    assert_eq!(g.get_inside_color(), black());
    let pivots = g.get_pivots();
    assert_eq!(pivots.len(), 2);
    assert_eq!(pivots[0], GradientPivot::new(0, black()));
    assert_eq!(pivots[1], GradientPivot::new(50, magenta()));
}

#[test]
fn make_palette_interpolates() {
    let g = Gradient::default();
    let p = g.make_palette(50);
    // Entry 0 is the root color; entry i (1 <= i <= 50) interpolates from
    // the root toward the last pivot, sampled at i - 1 of 50.
    assert_eq!(*p.get_color(0, 50), black());
    // Escape count 1: lerp(black, magenta, 0, 50, 0) = black.
    assert_eq!(*p.get_color(1, 50), black());
    // Escape count 10: lerp at 9/50: 255 * 9 / 50 = 45.
    assert_eq!(*p.get_color(10, 50), Color::of(45, 0, 45, 255));
    // At or past the cap: the inside color.
    assert_eq!(*p.get_color(50, 50), black());
    assert_eq!(*p.get_color(1000, 50), black());
}

#[test]
fn make_palette_pads_to_limit() {
    let mut g = Gradient::default();
    g.set_pivot_value(1, 10, 10);
    let p = g.make_palette(50);
    // Beyond the last pivot the palette extends with its color, up to the cap.
    assert_eq!(*p.get_color(11, 50), magenta());
    assert_eq!(*p.get_color(49, 50), magenta());
    assert_eq!(*p.get_color(50, 50), black());
}

#[test]
fn insert_pivot_midpoint_and_terminal() {
    let mut g = Gradient::default();
    let inserted = g.insert_pivot(0).unwrap();
    assert_eq!(inserted, GradientPivot::new(25, Color::of(127, 0, 127, 255)));
    assert_eq!(g.get_pivots().len(), 3);
    assert_eq!(g.get_pivots()[1], inserted);

    // Inserting after the last pivot duplicates it.
    let last_index = g.get_pivots().len() - 1;
    let dup = g.insert_pivot(last_index).unwrap();
    assert_eq!(dup, GradientPivot::new(50, magenta()));
    assert_eq!(g.get_pivots().len(), 4);

    // Out of range: no change.
    assert_eq!(g.insert_pivot(10), None);
    assert_eq!(g.get_pivots().len(), 4);
}

#[test]
fn delete_pivot_keeps_last() {
    let mut g = Gradient::default();
    g.delete_pivot(0);
    assert_eq!(g.get_pivots().len(), 1);
    assert_eq!(g.get_pivots()[0], GradientPivot::new(50, magenta()));
    // The last pivot is never removed.
    g.delete_pivot(0);
    assert_eq!(g.get_pivots().len(), 1);
    // Out of range: no change.
    g.delete_pivot(5);
    assert_eq!(g.get_pivots().len(), 1);
}

#[test]
fn set_pivot_value_clamps_to_neighbors() {
    let mut g = Gradient::default();
    g.insert_pivot(0);
    // Pivots now at 0, 25, 50. Moving the middle pivot below its left
    // neighbor clamps to it; above its right neighbor clamps to it; and
    // beyond the cap clamps to the cap first.
    assert_eq!(g.set_pivot_value(1, 40, 50), Some(40));
    assert_eq!(g.set_pivot_value(1, 100, 50), Some(50));
    assert_eq!(g.set_pivot_value(1, 0, 50), Some(0));
    assert_eq!(g.set_pivot_value(1, 30, 20), Some(20));
    assert_eq!(g.set_pivot_value(9, 30, 50), None);
}

#[test]
fn set_pivot_color_reports_range() {
    let mut g = Gradient::default();
    assert!(g.set_pivot_color(0, magenta()));
    assert_eq!(g.get_pivots()[0].color, magenta());
    assert!(!g.set_pivot_color(7, black()));
}
