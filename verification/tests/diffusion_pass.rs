use ink_trails::canvas::Canvas;
use ink_trails::color::ColorVector;
use ink_trails::diffusion::draw_noise;
use ink_trails::diffusion::step;
use ink_trails::diffusion::step_with;
use ink_trails::pixel::Pixel;
use ink_trails::settings::Settings;

const BLACK: Pixel = Pixel { r: 0, g: 0, b: 0, a: 255 };
const WHITE: Pixel = Pixel { r: 255, g: 255, b: 255, a: 255 };

fn black_canvas(width: u32, height: u32) -> Canvas {
    let mut c = Canvas::new(width, height).unwrap();
    for y in 0..height {
        for x in 0..width {
            c.put(x, y, BLACK);
        }
    }
    c
}

fn gray(level: u8) -> Pixel {
    Pixel::opaque(level, level, level)
}

fn no_noise() -> Vec<ColorVector> {
    Vec::new()
}

fn is_neighbor(x: u32, y: u32, cx: u32, cy: u32) -> bool {
    let dx = x as i64 - cx as i64;
    let dy = y as i64 - cy as i64;
    (dx, dy) != (0, 0) && dx.abs() <= 1 && dy.abs() <= 1
}

#[test]
fn standard_settings() {
    let s = Settings::standard();
    assert_eq!(s.width, 720);
    assert_eq!(s.height, 720);
    assert_eq!(s.particle_count, 42);
    assert_eq!(s.speed, 150);
    assert_eq!(s.radius, 9);
    // 0.03 of the squared full scale of 255 000.
    assert_eq!(s.spread_threshold as f64, 0.03 * 255_000.0 * 255_000.0);
    // 0.03 of the full scale.
    assert_eq!(s.perturb_magnitude, 7650);
    assert_eq!(s.darken_permille, 810);
    // One world unit, squared, in millionths.
    assert_eq!(s.arrival_eps, 1_000_000 * 1_000_000);
}

#[test]
fn bright_pixel_bleeds_onto_all_black_neighbors_without_noise() {
    let s = Settings::standard();
    let mut c = black_canvas(10, 10);
    c.put(5, 5, WHITE);
    step_with(&mut c, &no_noise(), &s);
    for y in 0..10 {
        for x in 0..10 {
            let expected = if (x, y) == (5, 5) {
                gray(206)
            } else if is_neighbor(x, y, 5, 5) {
                WHITE
            } else {
                BLACK
            };
            assert_eq!(c.get(x, y), expected, "cell ({}, {})", x, y);
        }
    }
}

#[test]
fn bright_pixel_bleeds_its_perturbed_color() {
    let s = Settings::standard();
    let mut c = black_canvas(10, 10);
    c.put(5, 5, WHITE);
    let mut noise = vec![ColorVector { r: 0, g: 0, b: 0 }; 100];
    noise[5 * 10 + 5] = ColorVector { r: 4_000, g: 5_000, b: 6_000 };
    // Noise for a cell that does not bleed is not used.
    noise[0] = ColorVector { r: 9_000, g: 9_000, b: 9_000 };
    step_with(&mut c, &noise, &s);
    for y in 0..10 {
        for x in 0..10 {
            let expected = if (x, y) == (5, 5) {
                // (251000, 250000, 249000) darkened to 0.81.
                Pixel::opaque(203, 202, 201)
            } else if is_neighbor(x, y, 5, 5) {
                Pixel::opaque(251, 250, 249)
            } else {
                BLACK
            };
            assert_eq!(c.get(x, y), expected, "cell ({}, {})", x, y);
        }
    }
}

#[test]
fn bright_pixel_bleeds_with_drawn_noise() {
    let s = Settings::standard();
    let mut c = black_canvas(10, 10);
    c.put(5, 5, WHITE);
    step(&mut c, &s);
    let source = c.get(5, 5);
    // Between 0.81 of full brightness and 0.81 of it less the whole noise.
    for level in [source.r, source.g, source.b] {
        assert!(200 <= level && level <= 206);
    }
    assert_eq!(source.a, 255);
    let first = c.get(4, 4);
    for level in [first.r, first.g, first.b] {
        assert!(247 <= level && level <= 255);
    }
    for y in 0..10 {
        for x in 0..10 {
            if is_neighbor(x, y, 5, 5) {
                assert_eq!(c.get(x, y), first);
            } else if (x, y) != (5, 5) {
                assert_eq!(c.get(x, y), BLACK);
            }
        }
    }
    // What the source keeps is what it bled, darkened.
    assert!(source.r as u32 >= first.r as u32 * 81 / 100);
    assert!(source.r as u32 <= (first.r as u32 + 1) * 81 / 100);
}

#[test]
fn dim_pixel_only_decays() {
    let s = Settings::standard();
    let mut c = black_canvas(5, 5);
    // 25^2 * 3 = 1875 squared levels, below the 1950.75 that bleed.
    c.put(2, 2, Pixel::opaque(25, 25, 25));
    step_with(&mut c, &no_noise(), &s);
    for y in 0..5 {
        for x in 0..5 {
            let expected = if (x, y) == (2, 2) { Pixel::opaque(20, 20, 20) } else { BLACK };
            assert_eq!(c.get(x, y), expected);
        }
    }
}

#[test]
fn pixel_just_above_the_threshold_bleeds() {
    let s = Settings::standard();
    let mut c = black_canvas(5, 5);
    // 26^2 * 2 + 25^2 = 1977 squared levels.
    c.put(2, 2, Pixel::opaque(26, 26, 25));
    step_with(&mut c, &no_noise(), &s);
    assert_eq!(c.get(2, 2), Pixel::opaque(21, 21, 20));
    assert_eq!(c.get(1, 1), Pixel::opaque(26, 26, 25));
    assert_eq!(c.get(3, 3), Pixel::opaque(26, 26, 25));
    assert_eq!(c.get(0, 0), BLACK);
}

#[test]
fn decay_never_raises_a_channel() {
    let s = Settings::standard();
    let mut c = black_canvas(16, 1);
    // Isolated dim cells, every other column.
    for i in 0..8u32 {
        c.put(2 * i, 0, Pixel::opaque(3 * i as u8, 2 * i as u8, i as u8));
    }
    let before: Vec<Pixel> = (0..16).map(|x| c.get(x, 0)).collect();
    step_with(&mut c, &no_noise(), &s);
    for x in 0..16u32 {
        let after = c.get(x, 0);
        let was = before[x as usize];
        assert!(after.r <= was.r && after.g <= was.g && after.b <= was.b);
        assert_eq!(after.r as u32, was.r as u32 * 81 / 100);
    }
}

#[test]
fn transparent_cells_become_opaque_black() {
    let s = Settings::standard();
    let mut c = Canvas::new(3, 3).unwrap();
    step_with(&mut c, &no_noise(), &s);
    for y in 0..3 {
        for x in 0..3 {
            assert_eq!(c.get(x, y), BLACK);
        }
    }
}

#[test]
fn bright_cell_does_not_overwrite_a_brighter_neighbor() {
    let s = Settings::standard();
    let mut c = black_canvas(2, 1);
    c.put(0, 0, gray(100));
    c.put(1, 0, gray(200));
    step_with(&mut c, &no_noise(), &s);
    // The cell at (0, 0) is visited first and finds its neighbour brighter:
    // no overwrite. It fades to 81. Then (1, 0) finds it dimmer, bleeds onto
    // it, and fades to 162.
    assert_eq!(c.get(0, 0), gray(200));
    assert_eq!(c.get(1, 0), gray(162));
}

#[test]
fn brighter_cell_first_in_raster_order_wins() {
    let s = Settings::standard();
    let mut c = black_canvas(2, 1);
    c.put(0, 0, gray(200));
    c.put(1, 0, gray(100));
    step_with(&mut c, &no_noise(), &s);
    // (0, 0) bleeds onto the dimmer (1, 0), which is then dirty and is not
    // visited as a source: it keeps the ink and does not fade.
    assert_eq!(c.get(0, 0), gray(162));
    assert_eq!(c.get(1, 0), gray(200));
}

#[test]
fn equally_bright_neighbors_do_not_bleed() {
    let s = Settings::standard();
    let mut c = black_canvas(2, 1);
    c.put(0, 0, gray(100));
    c.put(1, 0, gray(100));
    step_with(&mut c, &no_noise(), &s);
    // (0, 0) is not strictly brighter than (1, 0) and fades to 81; after
    // that (1, 0) is strictly brighter than it and bleeds.
    assert_eq!(c.get(0, 0), gray(100));
    assert_eq!(c.get(1, 0), gray(81));
}

#[test]
fn dirty_cell_is_not_written_twice() {
    let s = Settings::standard();
    let mut c = black_canvas(3, 1);
    c.put(0, 0, gray(200));
    c.put(2, 0, gray(250));
    step_with(&mut c, &no_noise(), &s);
    // The middle cell takes the ink of (0, 0), the first to reach it. The
    // brighter (2, 0) comes later and finds it dirty.
    assert_eq!(c.get(0, 0), gray(162));
    assert_eq!(c.get(1, 0), gray(200));
    assert_eq!(c.get(2, 0), gray(202));
}

#[test]
fn corner_cell_bleeds_onto_three_neighbors() {
    let s = Settings::standard();
    let mut c = black_canvas(4, 4);
    c.put(0, 0, WHITE);
    c.put(3, 3, gray(100));
    step_with(&mut c, &no_noise(), &s);
    for y in 0..4 {
        for x in 0..4 {
            let expected = if (x, y) == (0, 0) {
                gray(206)
            } else if is_neighbor(x, y, 0, 0) {
                WHITE
            } else if (x, y) == (3, 3) {
                gray(81)
            } else if is_neighbor(x, y, 3, 3) {
                gray(100)
            } else {
                BLACK
            };
            assert_eq!(c.get(x, y), expected, "cell ({}, {})", x, y);
        }
    }
}

#[test]
fn noise_is_clamped_at_black() {
    let s = Settings::standard();
    let mut c = black_canvas(3, 1);
    c.put(1, 0, Pixel::opaque(50, 3, 0));
    let noise = vec![
        ColorVector { r: 0, g: 0, b: 0 },
        ColorVector { r: 1_500, g: 5_000, b: 7_000 },
        ColorVector { r: 0, g: 0, b: 0 },
    ];
    step_with(&mut c, &noise, &s);
    // (50000, 3000, 0) less the noise is (48500, -2000, -7000).
    assert_eq!(c.get(0, 0), Pixel::opaque(48, 0, 0));
    assert_eq!(c.get(2, 0), Pixel::opaque(48, 0, 0));
    assert_eq!(c.get(1, 0), Pixel::opaque(39, 0, 0));
}

#[test]
fn pass_on_a_canvas_without_cells() {
    let s = Settings::standard();
    let mut c = Canvas::new(0, 0).unwrap();
    step_with(&mut c, &no_noise(), &s);
    step(&mut c, &s);
    assert_eq!(c.to_rgba().len(), 0);
}

#[test]
fn trail_fades_out_over_many_passes() {
    let s = Settings::standard();
    let mut c = black_canvas(9, 9);
    c.put(4, 4, WHITE);
    for _ in 0..200 {
        step(&mut c, &s);
    }
    for y in 0..9 {
        for x in 0..9 {
            assert_eq!(c.get(x, y), BLACK);
        }
    }
}

#[test]
fn drawn_noise_covers_the_bright_cells_only() {
    let s = Settings::standard();
    let mut c = black_canvas(4, 2);
    c.put(1, 0, WHITE);
    c.put(2, 1, gray(30));
    let noise = draw_noise(&c, &s);
    assert_eq!(noise.len(), 8);
    for (i, v) in noise.iter().enumerate() {
        if i == 1 || i == 4 + 2 {
            assert!(0 <= v.r && v.r <= 7650 && 0 <= v.g && v.g <= 7650 && 0 <= v.b && v.b <= 7650);
            assert!(v.sq_length() >= 7640 * 7640);
        } else {
            assert_eq!(*v, ColorVector { r: 0, g: 0, b: 0 });
        }
    }
}

fn in_range(p: Pixel, low: u8, high: u8) -> bool {
    [p.r, p.g, p.b].iter().all(|c| low <= *c && *c <= high) && p.a == 255
}

#[test]
fn black_cell_between_two_bright_ones_takes_the_first_ink_only() {
    let s = Settings::standard();
    for _ in 0..20 {
        let mut c = black_canvas(10, 10);
        c.put(4, 5, gray(128));
        c.put(6, 5, WHITE);
        step(&mut c, &s);
        // The ink of (4, 5), written once: not the brighter ink of (6, 5),
        // which comes later, and not faded by a visit of its own.
        assert!(in_range(c.get(5, 5), 120, 128));
        assert!(in_range(c.get(4, 5), 97, 103));
        assert!(in_range(c.get(6, 5), 200, 206));
        assert!(in_range(c.get(7, 5), 247, 255));
    }
    let mut c = black_canvas(10, 10);
    c.put(4, 5, gray(128));
    c.put(6, 5, WHITE);
    step_with(&mut c, &no_noise(), &s);
    assert_eq!(c.get(5, 5), gray(128));
    assert_eq!(c.get(4, 5), gray(103));
    assert_eq!(c.get(6, 5), gray(206));
    assert_eq!(c.get(7, 5), WHITE);
}

#[test]
fn brighter_neighbor_never_takes_the_color_of_a_dimmer_source() {
    let s = Settings::standard();
    for _ in 0..20 {
        let mut c = black_canvas(10, 10);
        c.put(5, 5, gray(100));
        c.put(6, 5, WHITE);
        step(&mut c, &s);
        assert!(in_range(c.get(6, 5), 200, 206));
        // The source has faded by the time its brighter neighbour is
        // visited, and takes that neighbour's ink.
        assert!(in_range(c.get(5, 5), 247, 255));
    }
}

#[test]
fn equal_neighbors_leave_each_other_alone_until_one_has_faded() {
    let s = Settings::standard();
    for _ in 0..20 {
        let mut c = black_canvas(10, 10);
        c.put(5, 5, WHITE);
        c.put(6, 5, WHITE);
        step(&mut c, &s);
        // (6, 5) is not strictly dimmer than (5, 5): it is neither written
        // nor marked, so it is a source itself and fades.
        assert!(in_range(c.get(6, 5), 200, 206));
        assert!(in_range(c.get(5, 5), 247, 255));
    }
}
