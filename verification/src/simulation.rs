use vstd::prelude::*;
use crate::canvas::Canvas;
use crate::canvas::deposited;
use crate::canvas::fits;
use crate::color::ColorVector;
use crate::diffusion::draw_noise;
use crate::diffusion::full_pass;
use crate::diffusion::is_noise_field;
use crate::diffusion::step_with;
use crate::particle::Particle;
use crate::particle::TINT_END;
use crate::particle::TINT_MIN;
use crate::particle::in_field;
use crate::particle::random_point;
use crate::pixel::Pixel;
use crate::point::Point;
use crate::settings::Settings;

verus! {

/// The two targets a particle takes when it has arrived.
#[derive(Clone, Copy, Debug, PartialEq, Eq, Structural)]
pub struct Targets {
    pub far: Point,
    pub near: Point,
}

/// The canvas and the particles that ink it.
pub struct Simulation {
    canvas: Canvas,
    particles: Vec<Particle>,
    settings: Settings,
}

/// The targets for particle `i`; both at the origin where none were supplied.
pub open spec fn targets_at(targets: Seq<Targets>, i: int) -> Targets {
    if 0 <= i < targets.len() {
        targets[i]
    } else {
        Targets { far: Point { x: 0, y: 0 }, near: Point { x: 0, y: 0 } }
    }
}

/// Every particle after a tick of `dt_ms` milliseconds, particle `i` with
/// `targets[i]` at hand.
pub open spec fn moved(
    particles: Seq<Particle>,
    dt_ms: u16,
    eps: u64,
    targets: Seq<Targets>,
) -> Seq<Particle> {
    Seq::new(
        particles.len(),
        |i: int|
            particles[i].advanced(dt_ms, eps, targets_at(targets, i).far, targets_at(targets, i).near),
    )
}

/// The cells after the first `count` particles, in order, have each put their
/// colour on the cell under them.
pub open spec fn inked(
    cells: Seq<Pixel>,
    width: int,
    height: int,
    particles: Seq<Particle>,
    count: nat,
) -> Seq<Pixel>
    decreases count,
{
    if count == 0 {
        cells
    } else {
        deposited(
            inked(cells, width, height, particles, (count - 1) as nat),
            width,
            height,
            particles[count - 1].position,
            particles[count - 1].color,
        )
    }
}

/// Whether `p` is a particle as a simulation with these settings spawns it: at
/// rest at the origin, with the configured speed and radius and an opaque
/// light colour.
pub open spec fn is_newborn(p: Particle, settings: Settings) -> bool {
    &&& p.position == (Point { x: 0, y: 0 })
    &&& p.near_target == (Point { x: 0, y: 0 })
    &&& p.far_target == (Point { x: 0, y: 0 })
    &&& p.speed == settings.speed
    &&& p.radius == settings.radius
    &&& p.color.a == 255
    &&& TINT_MIN <= p.color.r < TINT_END
    &&& TINT_MIN <= p.color.g < TINT_END
    &&& TINT_MIN <= p.color.b < TINT_END
}

/// Whether there is a pair of targets for each of `count` particles, every
/// target inside a canvas of the given dimensions less its margin.
pub open spec fn are_fresh_targets(
    targets: Seq<Targets>,
    count: int,
    width: u32,
    height: u32,
) -> bool {
    &&& targets.len() == count
    &&& forall|i: int|
        0 <= i < targets.len() ==> in_field((#[trigger] targets[i]).far, width, height) && in_field(
            targets[i].near,
            width,
            height,
        )
}

impl Simulation {
    #[verifier::type_invariant]
    spec fn inv(self) -> bool {
        &&& self.canvas.spec_width() == self.settings.width
        &&& self.canvas.spec_height() == self.settings.height
        &&& self.particles@.len() == self.settings.particle_count
    }

    /// The canvas.
    pub closed spec fn spec_canvas(self) -> Canvas {
        self.canvas
    }

    /// The particles.
    pub closed spec fn spec_particles(self) -> Seq<Particle> {
        self.particles@
    }

    /// The settings.
    pub closed spec fn spec_settings(self) -> Settings {
        self.settings
    }

    /// Whether the canvas has the configured dimensions and the particles the
    /// configured number, as they have in every simulation.
    pub open spec fn shaped(self) -> bool {
        &&& self.spec_canvas().spec_width() == self.spec_settings().width
        &&& self.spec_canvas().spec_height() == self.spec_settings().height
        &&& self.spec_particles().len() == self.spec_settings().particle_count
    }

    /// A simulation with a canvas of zeroed cells and the configured number
    /// of freshly spawned particles, or `None` where the canvas would not fit
    /// in memory.
    pub fn new(settings: Settings) -> (made: Option<Simulation>)
        ensures
            made.is_some() <==> fits(settings.width, settings.height),
            made matches Some(sim) ==> {
                &&& sim.shaped()
                &&& sim.spec_settings() == settings
                &&& sim.spec_canvas()@ == Seq::new(
                    (settings.width * settings.height) as nat,
                    |i: int| Pixel { r: 0, g: 0, b: 0, a: 0 },
                )
                &&& forall|i: int|
                    0 <= i < sim.spec_particles().len() ==> is_newborn(
                        #[trigger] sim.spec_particles()[i],
                        settings,
                    )
            },
    {
        let canvas = match Canvas::new(settings.width, settings.height) {
            Some(canvas) => canvas,
            None => {
                return None;
            },
        };
        let mut particles: Vec<Particle> = Vec::new();
        let mut i: u32 = 0;
        while i < settings.particle_count
            invariant
                i <= settings.particle_count,
                particles@.len() == i,
                forall|j: int| 0 <= j < particles@.len() ==> is_newborn(#[trigger] particles@[j], settings),
            decreases settings.particle_count - i,
        {
            particles.push(Particle::spawn(settings.speed, settings.radius));
            i = i + 1;
        }
        Some(Simulation { canvas, particles, settings })
    }

    /// A simulation without cells or particles, to stand in for one whose
    /// parts are being worked on.
    fn hollow() -> (sim: Simulation) {
        let settings = Settings {
            width: 0,
            height: 0,
            particle_count: 0,
            speed: 0,
            radius: 0,
            spread_threshold: 0,
            perturb_magnitude: 0,
            darken_permille: 0,
            arrival_eps: 0,
        };
        Simulation { canvas: Canvas::new(0, 0).unwrap(), particles: Vec::new(), settings }
    }

    /// The canvas, for the host to draw.
    pub fn canvas(&self) -> (canvas: &Canvas)
        ensures
            *canvas == self.spec_canvas(),
            self.shaped(),
    {
        proof {
            use_type_invariant(self);
        }
        &self.canvas
    }

    /// The particles, for the host to draw.
    pub fn particles(&self) -> (particles: &Vec<Particle>)
        ensures
            particles@ == self.spec_particles(),
            self.shaped(),
    {
        proof {
            use_type_invariant(self);
        }
        &self.particles
    }

    /// The settings the simulation was made with.
    pub fn settings(&self) -> (settings: &Settings)
        ensures
            *settings == self.spec_settings(),
            self.shaped(),
    {
        proof {
            use_type_invariant(self);
        }
        &self.settings
    }

    /// One tick of `dt_ms` milliseconds with the noise and the targets
    /// supplied. First the canvas goes through one diffusion pass. Then every
    /// particle moves, particle `i` taking `targets[i]` if it has arrived, and
    /// the particles in order put their colour on the cell now under them.
    pub fn tick_with(&mut self, dt_ms: u16, noise: &Vec<ColorVector>, targets: &Vec<Targets>)
        ensures
            old(self).shaped(),
            final(self).shaped(),
            final(self).spec_settings() == old(self).spec_settings(),
            final(self).spec_particles() == moved(
                old(self).spec_particles(),
                dt_ms,
                old(self).spec_settings().arrival_eps,
                targets@,
            ),
            final(self).spec_canvas()@ == inked(
                full_pass(
                    old(self).spec_canvas()@,
                    old(self).spec_settings().width as int,
                    old(self).spec_settings().height as int,
                    noise@,
                    old(self).spec_settings(),
                ).cells,
                old(self).spec_settings().width as int,
                old(self).spec_settings().height as int,
                final(self).spec_particles(),
                final(self).spec_particles().len(),
            ),
    {
        proof {
            use_type_invariant(&*self);
        }
        // The parts are worked on apart from the simulation, which holds a
        // hollow stand-in meanwhile, and are put together again at the end.
        let mut taken = Simulation::hollow();
        core::mem::swap(self, &mut taken);
        let Simulation { mut canvas, mut particles, settings } = taken;
        step_with(&mut canvas, noise, &settings);
        let ghost before: Seq<Particle> = particles@;
        let ghost faded: Seq<Pixel> = canvas@;
        let ghost after: Seq<Particle> = moved(before, dt_ms, settings.arrival_eps, targets@);
        let count: usize = particles.len();
        let mut i: usize = 0;
        while i < count
            invariant
                i <= count,
                count == before.len(),
                particles@.len() == count,
                canvas.spec_width() == settings.width,
                canvas.spec_height() == settings.height,
                after == moved(before, dt_ms, settings.arrival_eps, targets@),
                forall|j: int| 0 <= j < i ==> particles@[j] == after[j],
                forall|j: int| i <= j < count ==> particles@[j] == before[j],
                canvas@ == inked(
                    faded,
                    settings.width as int,
                    settings.height as int,
                    after,
                    i as nat,
                ),
            decreases count - i,
        {
            let fresh: Targets = if i < targets.len() {
                targets[i]
            } else {
                Targets { far: Point { x: 0, y: 0 }, near: Point { x: 0, y: 0 } }
            };
            let mut particle: Particle = particles[i];
            particle.advance_with(dt_ms, settings.arrival_eps, fresh.far, fresh.near);
            particles[i] = particle;
            canvas.deposit(particle.position, particle.color);
            i = i + 1;
        }
        assert(particles@ =~= after);
        *self = Simulation { canvas, particles, settings };
    }

    /// One tick of `dt_ms` milliseconds: a diffusion pass with freshly drawn
    /// noise, then every particle moves, with freshly drawn targets if it has
    /// arrived, and puts its colour on the cell now under it.
    pub fn tick(&mut self, dt_ms: u16)
        ensures
            old(self).shaped(),
            final(self).shaped(),
            final(self).spec_settings() == old(self).spec_settings(),
            exists|noise: Seq<ColorVector>, targets: Seq<Targets>|
                {
                    &&& is_noise_field(
                        noise,
                        old(self).spec_settings().width * old(self).spec_settings().height,
                        old(self).spec_settings().perturb_magnitude,
                    )
                    &&& are_fresh_targets(
                        targets,
                        old(self).spec_particles().len() as int,
                        old(self).spec_settings().width,
                        old(self).spec_settings().height,
                    )
                    &&& final(self).spec_particles() == #[trigger] moved(
                        old(self).spec_particles(),
                        dt_ms,
                        old(self).spec_settings().arrival_eps,
                        targets,
                    )
                    &&& final(self).spec_canvas()@ == inked(
                        #[trigger] full_pass(
                            old(self).spec_canvas()@,
                            old(self).spec_settings().width as int,
                            old(self).spec_settings().height as int,
                            noise,
                            old(self).spec_settings(),
                        ).cells,
                        old(self).spec_settings().width as int,
                        old(self).spec_settings().height as int,
                        final(self).spec_particles(),
                        final(self).spec_particles().len(),
                    )
                },
    {
        proof {
            use_type_invariant(&*self);
        }
        let noise: Vec<ColorVector> = draw_noise(&self.canvas, &self.settings);
        let targets: Vec<Targets> = self.draw_targets();
        self.tick_with(dt_ms, &noise, &targets);
    }

    /// Draws a pair of targets for every particle that has arrived, and
    /// leaves the pair at the origin for every other.
    fn draw_targets(&self) -> (targets: Vec<Targets>)
        ensures
            are_fresh_targets(
                targets@,
                self.spec_particles().len() as int,
                self.spec_settings().width,
                self.spec_settings().height,
            ),
    {
        let mut targets: Vec<Targets> = Vec::new();
        let mut i: usize = 0;
        while i < self.particles.len()
            invariant
                i <= self.particles@.len(),
                are_fresh_targets(targets@, i as int, self.settings.width, self.settings.height),
            decreases self.particles@.len() - i,
        {
            let fresh: Targets = if self.particles[i].has_arrived(self.settings.arrival_eps) {
                let far = random_point(self.settings.width, self.settings.height);
                let near = random_point(self.settings.width, self.settings.height);
                Targets { far, near }
            } else {
                Targets { far: Point { x: 0, y: 0 }, near: Point { x: 0, y: 0 } }
            };
            targets.push(fresh);
            i = i + 1;
        }
        targets
    }
}

} // verus!
