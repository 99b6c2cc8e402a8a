//! The kinds of particle in the simulation.
use vstd::prelude::*;

verus! {

/// A kind of particle. The forces between two particles depend on their
/// kinds.
#[derive(Clone, Copy, Debug, PartialEq, Eq, Structural)]
pub enum ParticleType {
    E,
    W,
    F,
    A,
    N,
}

/// The kind numbered `value`; numbers wrap around every five kinds.
pub open spec fn particle_type_of(value: u32) -> ParticleType {
    match value % 5 {
        0 => ParticleType::E,
        1 => ParticleType::W,
        2 => ParticleType::F,
        3 => ParticleType::A,
        _ => ParticleType::N,
    }
}

impl From<u32> for ParticleType {
    fn from(value: u32) -> (t: ParticleType) {
        match value % 5 {
            0 => ParticleType::E,
            1 => ParticleType::W,
            2 => ParticleType::F,
            3 => ParticleType::A,
            _ => ParticleType::N,
        }
    }
}

impl vstd::std_specs::convert::FromSpecImpl<u32> for ParticleType {
    open spec fn obeys_from_spec() -> bool {
        true
    }

    open spec fn from_spec(v: u32) -> ParticleType {
        particle_type_of(v)
    }
}

} // verus!
