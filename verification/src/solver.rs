use vstd::prelude::*;
use crate::collision_registry::CollisionRegistry;

verus! {

/// Something that knows how many sub-steps each simulation step takes.
pub trait SubstepProvider {
    fn substep_count(&self) -> u64;
}

/// The sub-steps each simulation step runs: as many as asked for, and at
/// least one.
pub fn substeps_per_step(substep_count: u64) -> (r: u64)
    ensures
        r == if substep_count == 0 {
            1
        } else {
            substep_count
        },
{
    if substep_count == 0 {
        1
    } else {
        substep_count
    }
}

/// The columns of a particle in structure-of-arrays storage.
#[derive(Clone, Copy, PartialEq, Eq, Structural, Debug)]
pub enum VerletParticleColumns {
    Pos,
    PosOld,
    Acc,
    Radius,
    Color,
    InvMass,
}

impl VerletParticleColumns {
    /// The column's position in the storage.
    pub fn index(&self) -> (r: usize)
        ensures
            r == match self {
                VerletParticleColumns::Pos => 0usize,
                VerletParticleColumns::PosOld => 1,
                VerletParticleColumns::Acc => 2,
                VerletParticleColumns::Radius => 3,
                VerletParticleColumns::Color => 4,
                VerletParticleColumns::InvMass => 5,
            },
    {
        match self {
            VerletParticleColumns::Pos => 0,
            VerletParticleColumns::PosOld => 1,
            VerletParticleColumns::Acc => 2,
            VerletParticleColumns::Radius => 3,
            VerletParticleColumns::Color => 4,
            VerletParticleColumns::InvMass => 5,
        }
    }
}

/// Verlet integration over structure-of-arrays particles with gravity; keeps
/// the contacts found in the last sub-step.
pub struct VerletSoaGravitySolver {
    pub collision_registry: CollisionRegistry,
}

impl VerletSoaGravitySolver {
    pub fn new() -> (r: Self)
        ensures
            r.collision_registry.wf(),
            r.collision_registry.pairs() == Seq::<(usize, usize)>::empty(),
    {
        VerletSoaGravitySolver { collision_registry: CollisionRegistry::with_capacity(2048) }
    }
}

} // verus!
