use base::flags::{
    AllCollisionFlags, CollisionFlags, FluidCollisionFlags, NoneCollisionFLags, RigidCollisionFlags,
};
use base::mesh::Mesh;
use base::schedule::{emission_due, jitter_bits, spawn_due};
use base::solver::{substeps_per_step, VerletParticleColumns, VerletSoaGravitySolver};

#[test]
fn mesh_counts() {
    let m: Mesh<u8, [i32; 2]> = Mesh::new(1, vec![[0, 0], [1, 0], [1, 1]], vec![0, 1, 2]);
    assert_eq!(m.vertex_count(), 3);
    assert_eq!(m.index_count(), 3);
    assert!(!m.is_empty());
    let e: Mesh<u8, [i32; 2]> = Mesh::new(0, vec![], vec![]);
    assert!(e.is_empty());
}

#[test]
fn collision_flag_sets() {
    assert!(AllCollisionFlags::jitter() && AllCollisionFlags::restitution());
    assert!(AllCollisionFlags::use_bias() && AllCollisionFlags::use_slop());
    assert!(!NoneCollisionFLags::jitter() && !NoneCollisionFLags::restitution());
    assert!(!NoneCollisionFLags::use_bias() && !NoneCollisionFLags::use_slop());
    assert!(FluidCollisionFlags::jitter() && !FluidCollisionFlags::restitution());
    assert!(!FluidCollisionFlags::use_bias() && FluidCollisionFlags::use_slop());
    assert!(!RigidCollisionFlags::jitter() && RigidCollisionFlags::restitution());
    assert!(RigidCollisionFlags::use_bias() && !RigidCollisionFlags::use_slop());
}

#[test]
fn column_positions() {
    assert_eq!(VerletParticleColumns::Pos.index(), 0);
    assert_eq!(VerletParticleColumns::PosOld.index(), 1);
    assert_eq!(VerletParticleColumns::Acc.index(), 2);
    assert_eq!(VerletParticleColumns::Radius.index(), 3);
    assert_eq!(VerletParticleColumns::Color.index(), 4);
    assert_eq!(VerletParticleColumns::InvMass.index(), 5);
}

#[test]
fn solver_starts_without_contacts() {
    let s = VerletSoaGravitySolver::new();
    assert!(s.collision_registry.is_empty());
}

#[test]
fn stream_emission_schedule() {
    assert!(!emission_due(20, 3, 19));
    assert!(emission_due(20, 3, 20));
    assert!(!emission_due(20, 3, 22));
    assert!(emission_due(20, 3, 23));
    assert!(!emission_due(5, 0, 4));
}

#[test]
fn spawner_schedule() {
    assert!(spawn_due(0, 10, 4, 2, 6));
    assert!(!spawn_due(0, 10, 4, 2, 7));
    assert!(!spawn_due(0, 10, 8, 2, 6));
    assert!(!spawn_due(10, 10, 0, 1, 6));
}

fn mix(frame: u64, lane: u64) -> u64 {
    let seed = frame.wrapping_add(0x9E3779B97F4A7C15);
    let mut x = seed.wrapping_add(lane).wrapping_mul(0xBF58476D1CE4E5B9);
    x = (x ^ (x >> 30)).wrapping_mul(0x94D049BB133111EB);
    x = (x ^ (x >> 27)).wrapping_mul(0x7305754198654329);
    x ^ (x >> 31)
}

#[test]
fn jitter_bits_match_mixer() {
    let bits = jitter_bits(123);
    for lane in 0..4u64 {
        assert_eq!(bits[lane as usize], mix(123, lane));
    }
    assert_ne!(jitter_bits(1), jitter_bits(2));
}

#[test]
fn at_least_one_substep() {
    assert_eq!(substeps_per_step(0), 1);
    assert_eq!(substeps_per_step(1), 1);
    assert_eq!(substeps_per_step(8), 8);
}
