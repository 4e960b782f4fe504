use vstd::prelude::*;

verus! {

/// What the host fixes when it sets a simulation up.
#[derive(Clone, Copy, Debug, PartialEq, Eq, Structural)]
pub struct Settings {
    /// Canvas width in cells; one cell is one world unit wide.
    pub width: u32,
    /// Canvas height in cells.
    pub height: u32,
    /// How many particles wander over the canvas.
    pub particle_count: u32,
    /// Particle speed in world units per second.
    pub speed: u32,
    /// Particle radius in world units; only drawing uses it.
    pub radius: u32,
    /// The squared colour-vector length from which on a cell bleeds.
    pub spread_threshold: u64,
    /// Length of the noise vector taken off a colour before it bleeds.
    pub perturb_magnitude: u32,
    /// What remains of a cell's colour after one pass, in thousandths.
    pub darken_permille: u16,
    /// The squared distance, in squared millionths of a world unit, within
    /// which a particle has arrived at its near target.
    pub arrival_eps: u64,
}

impl Settings {
    /// A 720 by 720 canvas with 42 particles of speed 150 and radius 9; cells
    /// bleed from a squared brightness of 0.03 of full scale, lose a noise
    /// vector of length 0.03 of full scale when they do, and keep 0.81 of their
    /// colour each pass; a particle has arrived within one world unit.
    pub fn standard() -> (s: Settings)
        ensures
            s == (Settings {
                width: 720,
                height: 720,
                particle_count: 42,
                speed: 150,
                radius: 9,
                spread_threshold: 1_950_750_000,
                perturb_magnitude: 7650,
                darken_permille: 810,
                arrival_eps: 1_000_000_000_000,
            }),
    {
        Settings {
            width: 720,
            height: 720,
            particle_count: 42,
            speed: 150,
            radius: 9,
            spread_threshold: 1_950_750_000,
            perturb_magnitude: 7650,
            darken_permille: 810,
            arrival_eps: 1_000_000_000_000,
        }
    }
}

} // verus!
