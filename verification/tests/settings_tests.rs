use fraktal::crate_name;
use fraktal::Complex;
use fraktal::EngineSettings;

#[test]
fn defaults() {
    let s = EngineSettings::new();
    assert_eq!(s.get_width(), 1);
    assert_eq!(s.get_height(), 1);
    assert_eq!(s.get_iteration_limit(), 50);
    assert_eq!(f64::from_bits(s.scale.current), 0.0078125);
    assert_eq!(s.get_gradient().get_pivots().len(), 2);
}

#[test]
fn serialize_restore_round_trip() {
    let mut s = EngineSettings::new();
    s.center.set(Complex {
        re: (-0.743f64).to_bits(),
        im: (0.131f64).to_bits(),
    });
    s.center.latch();
    s.scale.set((0.0001f64).to_bits());
    s.scale.latch();
    let serialized = s.serialize().unwrap();
    let restored = EngineSettings::restore(&serialized).unwrap();
    assert_eq!(restored.center.current.re, s.center.current.re);
    assert_eq!(restored.center.current.im, s.center.current.im);
    assert_eq!(restored.scale.current, s.scale.current);
    assert_eq!(restored.get_iteration_limit(), s.get_iteration_limit());
    assert_eq!(
        restored.get_gradient().get_pivots(),
        s.get_gradient().get_pivots()
    );
    assert_eq!(
        restored.get_gradient().get_inside_color(),
        s.get_gradient().get_inside_color()
    );
    // The canvas size and zoom focus are not serialized.
    assert_eq!(restored.get_width(), 0);
    assert_eq!(restored.get_height(), 0);
    // A restored value serializes back to the same string.
    assert_eq!(restored.serialize().unwrap(), serialized);
}

#[test]
fn restore_rejects_malformed_input() {
    assert!(EngineSettings::restore("").is_none());
    assert!(EngineSettings::restore("1:abcd").is_none());
    assert!(EngineSettings::restore("0:!!!not-base64!!!").is_none());
    assert!(EngineSettings::restore("0:aGVsbG8").is_none());
}

#[test]
fn set_iteration_limit_snaps_last_pivot() {
    let s = EngineSettings::new().set_iteration_limit(200);
    let pivots = s.get_gradient().get_pivots();
    assert_eq!(pivots[pivots.len() - 1].value, 200);
    // The new cap is queued, not yet current.
    assert_eq!(s.get_iteration_limit(), 50);
}

#[test]
fn gradient_mutators_are_structure_preserving() {
    let s = EngineSettings::new()
        .gradient_insert_pivot(0)
        .gradient_set_pivot_value(1, 30)
        .gradient_set_pivot_color(1, "#00ff00")
        .gradient_set_inside_color("#102030");
    let g = s.get_gradient();
    assert_eq!(g.get_pivots().len(), 3);
    assert_eq!(g.get_pivots()[1].value, 30);
    assert_eq!(g.get_pivots()[1].color, fraktal::Color::of(0, 255, 0, 255));
    assert_eq!(g.get_inside_color(), fraktal::Color::of(0x10, 0x20, 0x30, 255));
    // A malformed color string changes nothing.
    let s2 = s.gradient_set_pivot_color(1, "nonsense");
    assert_eq!(s2.get_gradient().get_pivots()[1].color, fraktal::Color::of(0, 255, 0, 255));
}

#[test]
fn crate_name_is_stable() {
    assert_eq!(crate_name(), "fraktal");
}
