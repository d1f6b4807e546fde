use fraktal::ByDistToFocus;
use fraktal::Complex;
use fraktal::Engine;
use fraktal::EngineSettings;
use fraktal::RectRegion;

/// The classic escape iteration, in the caller's floating point.
fn mandel(cre: f64, cim: f64, limit: u32) -> u32 {
    let mut zre = cre;
    let mut zim = cim;
    let mut i: u32 = 0;
    while i < limit {
        let a2 = zre * zre;
        let b2 = zim * zim;
        if a2 + b2 >= 4.0 {
            return i;
        }
        let nre = a2 - b2 + cre;
        let nim = zre * zim + zim * zre + cim;
        zre = nre;
        zim = nim;
        i += 1;
    }
    limit
}

/// The pixel-to-escape-count function for a given view.
fn make_check(
    center: (f64, f64),
    scale: f64,
    w: usize,
    h: usize,
    limit: u32,
) -> impl Fn(i32, i32) -> u32 {
    let tl_re = center.0 - w as f64 / 2.0 * scale;
    let tl_im = center.1 + h as f64 / 2.0 * scale;
    let re_span = w as f64 * scale;
    let im_span = -(h as f64) * scale;
    move |x: i32, y: i32| {
        let cre = tl_re + x as f64 * re_span / w as f64;
        let cim = tl_im + y as f64 * im_span / h as f64;
        mandel(cre, cim, limit)
    }
}

fn drain<F: Fn(i32, i32) -> u32>(engine: &mut Engine, check: &F) {
    while engine.dirty_regions.len() > 0 {
        engine.compute(usize::MAX, check);
    }
}

fn view_settings(center: (f64, f64), scale: f64, w: usize, h: usize, limit: usize) -> EngineSettings {
    let mut s = EngineSettings::new().set_size(w, h).set_iteration_limit(limit);
    s.center.set(Complex {
        re: center.0.to_bits(),
        im: center.1.to_bits(),
    });
    s.scale.set(scale.to_bits());
    s
}

#[test]
fn default_scale_bits_decode() {
    assert_eq!(f64::from_bits(fraktal::settings::DEFAULT_SCALE_BITS), 0.0078125);
}

#[test]
fn border_fill_matches_brute_force_deep_inside() {
    // A window deep inside the main cardioid: the border-fill fast path
    // fires and must agree with the per-pixel reference.
    let (w, h, limit) = (32usize, 32usize, 80u32);
    let center = (-0.1, 0.0);
    let scale = 0.005;
    let mut s = view_settings(center, scale, w, h, limit as usize);
    let mut engine = Engine::new(&s);
    engine.apply_settings(&mut s, None);
    let check = make_check(center, scale, w, h, limit);
    drain(&mut engine, &check);
    for y in 0..h {
        for x in 0..w {
            let expected = check(x as i32, y as i32);
            assert_eq!(expected, limit, "window is not inside the set at ({}, {})", x, y);
            assert_eq!(
                engine.image.escape_counts[x + y * w],
                expected,
                "mismatch at ({}, {})",
                x,
                y
            );
        }
    }
}

#[test]
fn compute_matches_brute_force() {
    let (w, h, limit) = (48usize, 32usize, 64u32);
    let center = (-0.5, 0.0);
    let scale = 0.01;
    let mut s = view_settings(center, scale, w, h, limit as usize);
    let mut engine = Engine::new(&s);
    engine.apply_settings(&mut s, None);
    let check = make_check(center, scale, w, h, limit);
    drain(&mut engine, &check);
    for y in 0..h {
        for x in 0..w {
            assert_eq!(
                engine.image.escape_counts[x + y * w],
                check(x as i32, y as i32),
                "mismatch at ({}, {})",
                x,
                y
            );
        }
    }
}

#[test]
fn pan_reuses_computed_pixels() {
    let (w, h, limit) = (200usize, 100usize, 50usize);
    let scale = 0.0078125;
    let mut s = view_settings((0.0, 0.0), scale, w, h, limit);
    let mut engine = Engine::new(&s);
    engine.apply_settings(&mut s, None);
    // Plant sentinels so reuse is distinguishable from recomputation.
    for i in 0..engine.image.escape_counts.len() {
        engine.image.escape_counts[i] = (i % 1000) as u32;
    }
    let before = engine.image.escape_counts.clone();
    let (dx, dy) = (100i32, 50i32);
    let new_center = (dx as f64 * scale, -(dy as f64) * scale);
    s.center.set(Complex {
        re: new_center.0.to_bits(),
        im: new_center.1.to_bits(),
    });
    engine.apply_settings(&mut s, Some((dx, dy)));
    // Content moved by (-dx, -dy): a pixel whose source was on screen keeps
    // its count.
    for y in 0..h {
        for x in 0..w {
            let sx = x as i32 + dx;
            let sy = y as i32 + dy;
            if sx < w as i32 && sy < h as i32 {
                assert_eq!(
                    engine.image.escape_counts[x + y * w],
                    before[(sx as usize) + (sy as usize) * w],
                    "pixel ({}, {}) was not recycled",
                    x,
                    y
                );
            }
        }
    }
    // The exposed strips are enqueued; after consuming them the whole image
    // agrees with the reference at the new view.
    let check = make_check(new_center, scale, w, h, limit as u32);
    // Recompute everything to clear the sentinels, then compare.
    engine.reset();
    drain(&mut engine, &check);
    for y in 0..h {
        for x in 0..w {
            assert_eq!(
                engine.image.escape_counts[x + y * w],
                check(x as i32, y as i32)
            );
        }
    }
}

#[test]
fn pan_scenario_counts_match_reference() {
    // Start at the default view, compute everything, pan, compute the
    // exposed strips; the result equals the reference at the new view,
    // with the overlap never recomputed.
    let (w, h, limit) = (96usize, 64usize, 50usize);
    let scale = 0.0078125;
    let mut s = view_settings((0.0, 0.0), scale, w, h, limit);
    let mut engine = Engine::new(&s);
    engine.apply_settings(&mut s, None);
    let check0 = make_check((0.0, 0.0), scale, w, h, limit as u32);
    drain(&mut engine, &check0);
    let (dx, dy) = (20i32, 10i32);
    let new_center = (dx as f64 * scale, -(dy as f64) * scale);
    s.center.set(Complex {
        re: new_center.0.to_bits(),
        im: new_center.1.to_bits(),
    });
    engine.apply_settings(&mut s, Some((dx, dy)));
    let check1 = make_check(new_center, scale, w, h, limit as u32);
    drain(&mut engine, &check1);
    for y in 0..h {
        for x in 0..w {
            assert_eq!(
                engine.image.escape_counts[x + y * w],
                check1(x as i32, y as i32),
                "mismatch at ({}, {})",
                x,
                y
            );
        }
    }
}

#[test]
fn raising_the_cap_keeps_or_raises_counts() {
    let (w, h) = (48usize, 32usize);
    let scale = 0.01;
    let center = (0.3, 0.0);
    let mut s = view_settings(center, scale, w, h, 50);
    let mut engine = Engine::new(&s);
    engine.apply_settings(&mut s, None);
    let check50 = make_check(center, scale, w, h, 50);
    drain(&mut engine, &check50);
    let before = engine.image.escape_counts.clone();
    s = s.set_iteration_limit(100);
    engine.apply_settings(&mut s, None);
    let check100 = make_check(center, scale, w, h, 100);
    drain(&mut engine, &check100);
    for i in 0..before.len() {
        if before[i] < 50 {
            assert_eq!(engine.image.escape_counts[i], before[i]);
        } else {
            assert!(engine.image.escape_counts[i] >= 50);
        }
    }
}

#[test]
fn gradient_change_repalettes_only() {
    let (w, h, limit) = (48usize, 32usize, 50usize);
    let scale = 0.01;
    let center = (0.3, 0.0);
    let mut s = view_settings(center, scale, w, h, limit);
    let mut engine = Engine::new(&s);
    engine.apply_settings(&mut s, None);
    let check = make_check(center, scale, w, h, limit as u32);
    drain(&mut engine, &check);
    engine.render();
    let counts_before = engine.image.escape_counts.clone();
    let pixels_before = engine.image.pixels.clone();
    s = s.gradient_set_pivot_color(1, "#ff0000");
    engine.apply_settings(&mut s, None);
    assert_eq!(engine.image.escape_counts, counts_before);
    assert_eq!(engine.dirty_regions.len(), 0);
    engine.render();
    let mut changed = 0;
    for i in 0..counts_before.len() {
        let c = counts_before[i] as usize;
        let old_px = &pixels_before[4 * i..4 * i + 4];
        let new_px = &engine.image.pixels[4 * i..4 * i + 4];
        if c == 0 || c >= limit {
            assert_eq!(old_px, new_px, "untinted pixel {} changed", i);
        } else if old_px != new_px {
            changed += 1;
        }
    }
    assert!(changed > 0, "no pixel picked up the new gradient color");
}

#[test]
fn pop_returns_closest_region_first() {
    let s = EngineSettings::new();
    let mut engine = Engine::new(&s);
    let focus = (10usize, 10usize);
    let near = RectRegion::new(9, 9, 2, 2);
    let mid = RectRegion::new(30, 10, 2, 2);
    let far = RectRegion::new(200, 200, 2, 2);
    engine.zoom_focus = focus;
    engine.dirty_regions.push(ByDistToFocus::of(far, focus));
    engine.dirty_regions.push(ByDistToFocus::of(near, focus));
    engine.dirty_regions.push(ByDistToFocus::of(mid, focus));
    assert_eq!(engine.pop_dirty(), Some(near));
    assert_eq!(engine.pop_dirty(), Some(mid));
    assert_eq!(engine.pop_dirty(), Some(far));
    assert_eq!(engine.pop_dirty(), None);
}

#[test]
fn pop_breaks_ties_in_insertion_order() {
    let s = EngineSettings::new();
    let mut engine = Engine::new(&s);
    let a = RectRegion::new(5, 0, 1, 1);
    let b = RectRegion::new(0, 5, 1, 1);
    engine.dirty_regions.push(ByDistToFocus { d: -25, value: a });
    engine.dirty_regions.push(ByDistToFocus { d: -25, value: b });
    assert_eq!(engine.pop_dirty(), Some(a));
    assert_eq!(engine.pop_dirty(), Some(b));
}

#[test]
fn resize_reallocates_and_dirtifies() {
    let mut s = EngineSettings::new();
    let mut engine = Engine::new(&s);
    assert_eq!(engine.image_data().len(), 4);
    s = s.set_size(1920, 1080);
    engine.apply_settings(&mut s, None);
    assert_eq!(engine.image.width, 1920);
    assert_eq!(engine.image.height, 1080);
    assert_eq!(engine.dirty_regions.len(), 1);
    engine.render();
    assert_eq!(engine.image_data().len(), 4 * 1920 * 1080);
    assert!(engine.image_data().iter().skip(3).step_by(4).all(|a| *a == 255));
}

#[test]
fn compute_honors_work_budget() {
    let (w, h, limit) = (128usize, 128usize, 1000usize);
    let scale = 0.0078125;
    let mut s = view_settings((0.0, 0.0), scale, w, h, limit);
    let mut engine = Engine::new(&s);
    engine.apply_settings(&mut s, None);
    let check = make_check((0.0, 0.0), scale, w, h, limit as u32);
    let work = engine.compute(10, &check);
    assert!(work > 10);
    assert!(engine.dirty_regions.len() > 0, "a tiny budget must leave work behind");
}
