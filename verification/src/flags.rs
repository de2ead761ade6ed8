use vstd::prelude::*;

verus! {

/// Switches for the optional parts of particle collision handling.
pub trait CollisionFlags {
    /// Perturb contact normals slightly.
    fn jitter() -> (r: bool)
        default_ensures
            !r,
    {
        false
    }

    /// Record contacts for a restitution pass.
    fn restitution() -> (r: bool)
        default_ensures
            !r,
    {
        false
    }

    /// Scale positional correction by the correction bias.
    fn use_bias() -> (r: bool)
        default_ensures
            !r,
    {
        false
    }

    /// Ignore penetrations below the slop distance.
    fn use_slop() -> (r: bool)
        default_ensures
            !r,
    {
        false
    }
}

/// Every option on.
pub struct AllCollisionFlags;

impl CollisionFlags for AllCollisionFlags {
    fn jitter() -> (r: bool)
        ensures
            r,
    {
        true
    }

    fn restitution() -> (r: bool)
        ensures
            r,
    {
        true
    }

    fn use_bias() -> (r: bool)
        ensures
            r,
    {
        true
    }

    fn use_slop() -> (r: bool)
        ensures
            r,
    {
        true
    }
}

/// Every option off.
pub struct NoneCollisionFLags;

impl CollisionFlags for NoneCollisionFLags {
    fn jitter() -> (r: bool)
        ensures
            !r,
    {
        false
    }

    fn restitution() -> (r: bool)
        ensures
            !r,
    {
        false
    }

    fn use_bias() -> (r: bool)
        ensures
            !r,
    {
        false
    }

    fn use_slop() -> (r: bool)
        ensures
            !r,
    {
        false
    }
}

/// Settings for fluid-like particles: jitter and slop, no bouncing, no bias.
pub struct FluidCollisionFlags;

impl CollisionFlags for FluidCollisionFlags {
    fn jitter() -> (r: bool)
        ensures
            r,
    {
        true
    }

    fn restitution() -> (r: bool)
        ensures
            !r,
    {
        false
    }

    fn use_bias() -> (r: bool)
        ensures
            !r,
    {
        false
    }

    fn use_slop() -> (r: bool)
        ensures
            r,
    {
        true
    }
}

/// Settings for rigid particles: bouncing and bias, no jitter, no slop.
pub struct RigidCollisionFlags;

impl CollisionFlags for RigidCollisionFlags {
    fn jitter() -> (r: bool)
        ensures
            !r,
    {
        false
    }

    fn restitution() -> (r: bool)
        ensures
            r,
    {
        true
    }

    fn use_bias() -> (r: bool)
        ensures
            r,
    {
        true
    }

    fn use_slop() -> (r: bool)
        ensures
            !r,
    {
        false
    }
}

} // verus!
