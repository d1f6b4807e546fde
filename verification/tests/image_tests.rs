use fraktal::Gradient;
use fraktal::Image;

fn test_image(w: usize, h: usize) -> Image {
    let palette = Gradient::default().make_palette(50);
    Image::new(w, h, palette)
}

#[test]
fn image_buffer_sizes() {
    let img = test_image(7, 5);
    assert_eq!(img.escape_counts.len(), 35);
    assert_eq!(img.pixels.len(), 4 * 35);
    assert!(img.escape_counts.iter().all(|c| *c == 0));
    assert!(img.pixels.iter().all(|b| *b == 0));
}

#[test]
fn render_writes_every_pixel_opaque() {
    let mut img = test_image(4, 3);
    for i in 0..img.escape_counts.len() {
        img.escape_counts[i] = (i % 60) as u32;
    }
    img.render_pixels(50);
    assert_eq!(img.pixels.len(), 4 * 12);
    for i in 0..12 {
        assert_eq!(img.pixels[4 * i + 3], 255, "alpha at pixel {}", i);
    }
}

#[test]
fn render_twice_is_identical() {
    let mut img = test_image(6, 4);
    for i in 0..img.escape_counts.len() {
        img.escape_counts[i] = (i * 7 % 55) as u32;
    }
    img.render_pixels(50);
    let first = img.pixels.clone();
    img.render_pixels(50);
    assert_eq!(img.pixels, first);
}

#[test]
fn pan_recycles_counts() {
    let w = 6;
    let h = 4;
    let mut img = test_image(w, h);
    for i in 0..img.escape_counts.len() {
        img.escape_counts[i] = i as u32 + 1;
    }
    let before = img.escape_counts.clone();
    // Shift content right and down by one pixel.
    img.pan(1, 1);
    for y in 0..h {
        for x in 0..w {
            let j = x + y * w;
            if x == 0 || y == 0 {
                assert_eq!(img.escape_counts[j], 0, "cleared strip at ({}, {})", x, y);
            } else {
                let src = (x - 1) + (y - 1) * w;
                assert_eq!(
                    img.escape_counts[j],
                    before[src],
                    "recycled count at ({}, {})",
                    x,
                    y
                );
            }
        }
    }
}

#[test]
fn pan_negative_clears_far_edges() {
    let w = 5;
    let h = 5;
    let mut img = test_image(w, h);
    for i in 0..img.escape_counts.len() {
        img.escape_counts[i] = 9;
    }
    img.pan(-2, 0);
    for y in 0..h {
        for x in 0..w {
            let j = x + y * w;
            if x >= w - 2 {
                assert_eq!(img.escape_counts[j], 0);
            } else {
                assert_eq!(img.escape_counts[j], 9);
            }
        }
    }
}

#[test]
fn pan_by_full_size_clears_everything() {
    let mut img = test_image(3, 3);
    for i in 0..9 {
        img.escape_counts[i] = 5;
    }
    img.pan(3, 0);
    assert!(img.escape_counts.iter().all(|c| *c == 0));
}
