use ink_trails::color::ColorVector;
use ink_trails::pixel::Pixel;
use ink_trails::point::Point;
use ink_trails::settings::Settings;
use ink_trails::simulation::Simulation;
use ink_trails::simulation::Targets;

fn small() -> Settings {
    let mut s = Settings::standard();
    s.width = 10;
    s.height = 10;
    s.particle_count = 2;
    s
}

fn at(x: i32, y: i32) -> Point {
    Point { x, y }
}

#[test]
fn new_simulation_has_a_zeroed_canvas_and_particles_at_rest() {
    let sim = Simulation::new(Settings::standard()).unwrap();
    assert_eq!(*sim.settings(), Settings::standard());
    assert_eq!(sim.canvas().width(), 720);
    assert_eq!(sim.canvas().height(), 720);
    assert_eq!(sim.canvas().get(0, 0), Pixel::new(0, 0, 0, 0));
    assert_eq!(sim.canvas().get(719, 719), Pixel::new(0, 0, 0, 0));
    assert_eq!(sim.canvas().get(360, 360), Pixel::new(0, 0, 0, 0));
    assert_eq!(sim.particles().len(), 42);
    for p in sim.particles() {
        assert_eq!(p.position, at(0, 0));
        assert_eq!(p.near_target, at(0, 0));
        assert_eq!(p.far_target, at(0, 0));
        assert_eq!(p.speed, 150);
        assert_eq!(p.radius, 9);
        assert_eq!(p.color.a, 255);
        for level in [p.color.r, p.color.g, p.color.b] {
            assert!(210 <= level && level < 255);
        }
    }
}

#[test]
fn simulation_too_large_is_refused() {
    let mut s = Settings::standard();
    s.width = u32::MAX;
    s.height = u32::MAX;
    assert!(Simulation::new(s).is_none());
}

#[test]
fn simulation_without_particles_or_cells() {
    let mut s = Settings::standard();
    s.width = 0;
    s.height = 0;
    s.particle_count = 0;
    let mut sim = Simulation::new(s).unwrap();
    sim.tick(9);
    assert_eq!(sim.particles().len(), 0);
    assert_eq!(sim.canvas().to_rgba().len(), 0);
}

#[test]
fn tick_with_moves_and_deposits() {
    let mut sim = Simulation::new(small()).unwrap();
    let colors: Vec<Pixel> = sim.particles().iter().map(|p| p.color).collect();
    let targets = vec![
        Targets { far: at(4_000_000, 0), near: at(2_000_000, 0) },
        Targets { far: at(0, -4_000_000), near: at(0, -4_000_000) },
    ];
    sim.tick_with(9, &Vec::<ColorVector>::new(), &targets);
    // Both particles start on their near target and take the targets given.
    // The first near target oversteps the far target by its 2.025 units; the
    // second stands on its far target and stays.
    let p = sim.particles()[0];
    assert_eq!(p.far_target, at(4_000_000, 0));
    assert_eq!(p.near_target, at(4_025_000, 0));
    assert_eq!(p.position, at(1_350_000, 0));
    let q = sim.particles()[1];
    assert_eq!(q.far_target, at(0, -4_000_000));
    assert_eq!(q.near_target, at(0, -4_000_000));
    assert_eq!(q.position, at(0, -1_350_000));
    assert_eq!(sim.particles().len(), 2);
    assert_eq!(*sim.settings(), small());
    for y in 0..10 {
        for x in 0..10 {
            let expected = if (x, y) == (6, 5) {
                colors[0]
            } else if (x, y) == (5, 6) {
                colors[1]
            } else {
                Pixel::opaque(0, 0, 0)
            };
            assert_eq!(sim.canvas().get(x, y), expected, "cell ({}, {})", x, y);
        }
    }
}

#[test]
fn later_particle_overwrites_an_earlier_deposit() {
    let mut sim = Simulation::new(small()).unwrap();
    let colors: Vec<Pixel> = sim.particles().iter().map(|p| p.color).collect();
    let same = Targets { far: at(4_000_000, 0), near: at(4_000_000, 0) };
    sim.tick_with(9, &Vec::<ColorVector>::new(), &vec![same, same]);
    assert_eq!(sim.canvas().get(6, 5), colors[1]);
}

#[test]
fn deposits_survive_into_the_next_pass() {
    let mut sim = Simulation::new(small()).unwrap();
    let colors: Vec<Pixel> = sim.particles().iter().map(|p| p.color).collect();
    let targets = vec![
        Targets { far: at(4_000_000, 0), near: at(4_000_000, 0) },
        Targets { far: at(4_000_000, 0), near: at(4_000_000, 0) },
    ];
    sim.tick_with(9, &Vec::<ColorVector>::new(), &targets);
    assert_eq!(sim.particles()[1].position, at(1_350_000, 0));
    // Second tick: the deposit at (6, 5) bleeds onto its neighbours and fades,
    // then the particles, now at 2.7 units, deposit at (8, 5).
    sim.tick_with(9, &Vec::<ColorVector>::new(), &targets);
    assert_eq!(sim.particles()[1].position, at(2_700_000, 0));
    let c = colors[1];
    let faded = Pixel::opaque(
        (c.r as u32 * 81 / 100) as u8,
        (c.g as u32 * 81 / 100) as u8,
        (c.b as u32 * 81 / 100) as u8,
    );
    assert_eq!(sim.canvas().get(6, 5), faded);
    assert_eq!(sim.canvas().get(5, 4), c);
    assert_eq!(sim.canvas().get(7, 6), c);
    assert_eq!(sim.canvas().get(7, 5), c);
    assert_eq!(sim.canvas().get(8, 5), c);
    assert_eq!(sim.canvas().get(9, 5), Pixel::opaque(0, 0, 0));
}

#[test]
fn missing_targets_are_taken_at_the_origin() {
    let mut sim = Simulation::new(small()).unwrap();
    sim.tick_with(9, &Vec::<ColorVector>::new(), &Vec::<Targets>::new());
    for p in sim.particles() {
        assert_eq!(p.position, at(0, 0));
        assert_eq!(p.near_target, at(0, 0));
        assert_eq!(p.far_target, at(0, 0));
    }
}

#[test]
fn tick_keeps_the_particles_on_the_canvas() {
    let mut s = Settings::standard();
    s.width = 40;
    s.height = 30;
    s.particle_count = 5;
    let mut sim = Simulation::new(s).unwrap();
    let colors: Vec<Pixel> = sim.particles().iter().map(|p| p.color).collect();
    for _ in 0..400 {
        sim.tick(9);
        assert_eq!(sim.particles().len(), 5);
        assert_eq!(*sim.settings(), s);
        for (i, p) in sim.particles().iter().enumerate() {
            assert_eq!(p.color, colors[i]);
            assert_eq!(p.speed, 150);
            assert!(-19_000_000 <= p.far_target.x && p.far_target.x < 19_000_000);
            assert!(-14_000_000 <= p.far_target.y && p.far_target.y < 14_000_000);
            // Targets lie inside the margin; one step can overshoot them.
            assert!(p.position.x.abs() <= 19_000_000 + 2_025_000 + 1_350_000);
            assert!(p.position.y.abs() <= 14_000_000 + 2_025_000 + 1_350_000);
        }
        // The last particle's deposit is on the canvas after every tick.
        let last = sim.particles()[4];
        let x = ((last.position.x as f64 / 1e6).round() as i64 + 20).clamp(0, 39) as u32;
        let y = (15 - (last.position.y as f64 / 1e6).round() as i64).clamp(0, 29) as u32;
        assert_eq!(sim.canvas().get(x, y), colors[4]);
    }
    let moved = sim.particles().iter().filter(|p| p.position != at(0, 0)).count();
    assert_eq!(moved, 5);
}
