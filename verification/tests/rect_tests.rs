use fraktal::RectRegion;
use std::collections::HashSet;

fn collect_border(region: &RectRegion) -> Vec<(i32, i32)> {
    let mut out = Vec::new();
    let mut it = region.border();
    while let Some(p) = it.next() {
        out.push(p);
    }
    out
}

fn collect_interior(region: &RectRegion) -> Vec<(i32, i32)> {
    let mut out = Vec::new();
    let mut it = region.interior();
    while let Some(p) = it.next() {
        out.push(p);
    }
    out
}

#[test]
fn rect_region_empty() {
    for region in &[
        RectRegion::new(0, 0, 0, 0),
        RectRegion::new(0, 0, 0, 1),
        RectRegion::new(0, 0, 0, 1),
        RectRegion::new(0, 0, 1, 0),
        RectRegion::new(0, 0, 0, 10),
        RectRegion::new(0, 0, 10, 0),
    ] {
        assert_eq!(
            collect_border(region),
            vec![],
            "Failed for region: {:?}",
            region
        );
        assert_eq!(
            collect_interior(region),
            vec![],
            "Failed for region: {:?}",
            region
        );
    }
}

#[test]
fn rect_region_single_point() {
    let region = RectRegion::new(0, 0, 1, 1);
    assert_eq!(collect_border(&region), vec![(0, 0)]);
    assert_eq!(collect_interior(&region), vec![],);
}

#[test]
fn rect_region_border_tiny() {
    let region = RectRegion {
        x0: 0,
        y0: 0,
        w: 2,
        h: 2,
    };
    assert_eq!(collect_border(&region), vec![(0, 0), (1, 0), (1, 1), (0, 1)]);
}

#[test]
fn rect_region_border_thinnest_x() {
    let region = RectRegion {
        x0: 0,
        y0: 0,
        w: 1,
        h: 5,
    };
    assert_eq!(
        collect_border(&region),
        vec![(0, 0), (0, 1), (0, 2), (0, 3), (0, 4),]
    );
}

#[test]
fn rect_region_border_thin_x() {
    let region = RectRegion {
        x0: 0,
        y0: 0,
        w: 2,
        h: 5,
    };
    assert_eq!(
        collect_border(&region),
        vec![
            (0, 0),
            (1, 0),
            (1, 1),
            (1, 2),
            (1, 3),
            (1, 4),
            (0, 4),
            (0, 3),
            (0, 2),
            (0, 1)
        ]
    );
}

#[test]
fn rect_region_border_thinnest_y() {
    let region = RectRegion {
        x0: 0,
        y0: 0,
        w: 5,
        h: 1,
    };
    assert_eq!(
        collect_border(&region),
        vec![(0, 0), (1, 0), (2, 0), (3, 0), (4, 0),]
    );
}

#[test]
fn rect_region_border_thin_y() {
    let region = RectRegion {
        x0: 0,
        y0: 0,
        w: 5,
        h: 2,
    };
    assert_eq!(
        collect_border(&region),
        vec![
            (0, 0),
            (1, 0),
            (2, 0),
            (3, 0),
            (4, 0),
            (4, 1),
            (3, 1),
            (2, 1),
            (1, 1),
            (0, 1)
        ]
    );
}

#[test]
fn rect_region_border_simple_case() {
    let region = RectRegion {
        x0: 0,
        y0: 0,
        w: 3,
        h: 3,
    };
    assert_eq!(
        collect_border(&region),
        vec![
            (0, 0),
            (1, 0),
            (2, 0),
            (2, 1),
            (2, 2),
            (1, 2),
            (0, 2),
            (0, 1),
        ]
    );
}

#[test]
fn rect_region_border_length() {
    let region = RectRegion {
        x0: 0,
        y0: 0,
        w: 17,
        h: 23,
    };
    let expected_len = 16 * 2 + 22 * 2;
    assert_eq!(collect_border(&region).len(), expected_len);
    assert_eq!(
        collect_border(&region)
            .into_iter()
            .collect::<HashSet<(i32, i32)>>()
            .len(),
        expected_len
    );
}

#[test]
fn rect_region_interior_tiny() {
    let region = RectRegion {
        x0: 0,
        y0: 0,
        w: 2,
        h: 2,
    };
    assert_eq!(collect_interior(&region), vec![]);
}

#[test]
fn rect_region_interior_thin_x() {
    let region = RectRegion {
        x0: 0,
        y0: 0,
        w: 2,
        h: 5,
    };
    assert_eq!(collect_interior(&region), vec![]);
}

#[test]
fn rect_region_interior_thin_y() {
    let region = RectRegion {
        x0: 0,
        y0: 0,
        w: 5,
        h: 2,
    };
    assert_eq!(collect_interior(&region), vec![]);
}

#[test]
fn rect_region_interior_simple_cases() {
    let region = RectRegion {
        x0: 0,
        y0: 0,
        w: 3,
        h: 3,
    };
    assert_eq!(collect_interior(&region), vec![(1, 1)]);
    assert_eq!(region.interior_len(), 1);

    let region = RectRegion {
        x0: 0,
        y0: 0,
        w: 4,
        h: 4,
    };
    assert_eq!(collect_interior(&region), vec![(1, 1), (2, 1), (1, 2), (2, 2),]);
    assert_eq!(region.interior_len(), 4);

    let region = RectRegion {
        x0: 0,
        y0: 0,
        w: 5,
        h: 5,
    };
    assert_eq!(
        collect_interior(&region),
        vec![
            (1, 1),
            (2, 1),
            (3, 1),
            (1, 2),
            (2, 2),
            (3, 2),
            (1, 3),
            (2, 3),
            (3, 3),
        ]
    );
    assert_eq!(region.interior_len(), 9);
}

#[test]
fn rect_region_interior_size() {
    let region = RectRegion {
        x0: 0,
        y0: 0,
        w: 17,
        h: 23,
    };
    let expected_len = 15 * 21;
    assert_eq!(collect_interior(&region).len(), expected_len);
    let points = collect_interior(&region)
        .into_iter()
        .collect::<HashSet<(i32, i32)>>();
    assert_eq!(points.len(), expected_len);
    assert!(points.iter().all(|(x, y)| *x > region.x0
        && *y > region.y0
        && *x < region.x0 + region.w - 1
        && *y < region.y0 + region.h - 1));
    assert_eq!(region.interior_len(), expected_len);
}

#[test]
fn rect_region_trisect() {
    for region in &[
        RectRegion {
            x0: 1000,
            y0: 100,
            w: 17,
            h: 23,
        },
        RectRegion {
            x0: 1000,
            y0: 100,
            w: 23,
            h: 17,
        },
    ] {
        let (r1, r2, r3) = region.trisect().unwrap();

        let r1_border = collect_border(&r1).into_iter().collect::<HashSet<(i32, i32)>>();
        let r1_interior = collect_interior(&r1).into_iter().collect::<HashSet<(i32, i32)>>();
        let r2_border = collect_border(&r2).into_iter().collect::<HashSet<(i32, i32)>>();
        let r2_interior = collect_interior(&r2).into_iter().collect::<HashSet<(i32, i32)>>();
        let r3_border = collect_border(&r3).into_iter().collect::<HashSet<(i32, i32)>>();
        let r3_interior = collect_interior(&r3).into_iter().collect::<HashSet<(i32, i32)>>();

        assert_eq!(
            r1_border
                .union(&r1_interior)
                .copied()
                .collect::<HashSet<(i32, i32)>>()
                .union(&r2_border)
                .copied()
                .collect::<HashSet<(i32, i32)>>()
                .union(&r2_interior)
                .copied()
                .collect::<HashSet<(i32, i32)>>()
                .union(&r3_border)
                .copied()
                .collect::<HashSet<(i32, i32)>>()
                .union(&r3_interior)
                .copied()
                .collect::<HashSet<(i32, i32)>>(),
            collect_interior(region).into_iter().collect::<HashSet<(i32, i32)>>()
        );

        assert_eq!(0, r1_border.intersection(&r1_interior).count());
        assert_eq!(0, r1_border.intersection(&r2_border).count());
        assert_eq!(0, r1_border.intersection(&r2_interior).count());
        assert_eq!(0, r1_border.intersection(&r3_border).count());
        assert_eq!(0, r1_border.intersection(&r3_interior).count());

        assert_eq!(0, r1_interior.intersection(&r2_border).count());
        assert_eq!(0, r1_interior.intersection(&r2_interior).count());
        assert_eq!(0, r1_interior.intersection(&r3_border).count());
        assert_eq!(0, r1_interior.intersection(&r3_interior).count());

        assert_eq!(0, r2_border.intersection(&r2_interior).count());
        assert_eq!(0, r2_border.intersection(&r3_border).count());
        assert_eq!(0, r2_border.intersection(&r3_interior).count());

        assert_eq!(0, r2_interior.intersection(&r3_border).count());
        assert_eq!(0, r2_interior.intersection(&r3_interior).count());

        assert_eq!(0, r3_border.intersection(&r3_interior).count());
    }
}
