use vstd::prelude::*;

verus! {

/// Whether a particle stream fires on `tick`: from `start_tick` on, every
/// `ticks_per_spawn` ticks.
pub fn emission_due(start_tick: u64, ticks_per_spawn: u64, tick: u64) -> (r: bool)
    requires
        tick >= start_tick ==> ticks_per_spawn > 0,
    ensures
        r == (tick >= start_tick && (tick - start_tick) as u64 % ticks_per_spawn == 0),
{
    tick >= start_tick && (tick - start_tick) % ticks_per_spawn == 0
}

/// Whether a spawner with `particle_count` of `max_particles` particles spawns
/// on `tick`: while below its maximum, from `start_tick` on, on every tick that
/// is a multiple of `ticks_per_spawn`.
pub fn spawn_due(
    particle_count: usize,
    max_particles: usize,
    start_tick: u64,
    ticks_per_spawn: u64,
    tick: u64,
) -> (r: bool)
    requires
        particle_count < max_particles && tick >= start_tick ==> ticks_per_spawn > 0,
    ensures
        r == (particle_count < max_particles && tick >= start_tick && tick % ticks_per_spawn
            == 0),
{
    particle_count < max_particles && tick >= start_tick && tick % ticks_per_spawn == 0
}

/// Whether a storage holding `len` elements, capped at `max_particles`, has
/// room for a burst of `burst_count` more.
pub fn burst_fits(len: usize, burst_count: usize, max_particles: usize) -> (r: bool)
    requires
        burst_count <= max_particles,
    ensures
        r == (len + burst_count <= max_particles),
{
    len <= max_particles - burst_count
}

/// The 64-bit mix of `frame_count` for jitter lane `lane`.
pub open spec fn jitter_mix(frame_count: u64, lane: u64) -> u64 {
    let seed = frame_count.wrapping_add(0x9E3779B97F4A7C15u64);
    let x0 = seed.wrapping_add(lane).wrapping_mul(0xBF58476D1CE4E5B9u64);
    let x1 = (x0 ^ (x0 >> 30u64)).wrapping_mul(0x94D049BB133111EBu64);
    let x2 = (x1 ^ (x1 >> 27u64)).wrapping_mul(0x7305754198654329u64);
    x2 ^ (x2 >> 31u64)
}

/// The four pseudo-random 64-bit words that seed a frame's jitter, one per lane.
pub fn jitter_bits(frame_count: u64) -> (r: [u64; 4])
    ensures
        forall|i: int| 0 <= i < 4 ==> #[trigger] r@[i] == jitter_mix(frame_count, i as u64),
{
    let mut out: [u64; 4] = [0u64; 4];
    let seed = frame_count.wrapping_add(0x9E3779B97F4A7C15u64);
    let mut i: usize = 0;
    while i < 4
        invariant
            i <= 4,
            seed == frame_count.wrapping_add(0x9E3779B97F4A7C15u64),
            forall|j: int| 0 <= j < i ==> #[trigger] out@[j] == jitter_mix(frame_count, j as u64),
        decreases 4 - i,
    {
        let lane = i as u64;
        let mut x = seed.wrapping_add(lane).wrapping_mul(0xBF58476D1CE4E5B9u64);
        x = (x ^ (x >> 30u64)).wrapping_mul(0x94D049BB133111EBu64);
        x = (x ^ (x >> 27u64)).wrapping_mul(0x7305754198654329u64);
        out[i] = x ^ (x >> 31u64);
        i = i + 1;
    }
    out
}

} // verus!
