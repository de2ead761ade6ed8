//! Integer core of a particle-simulation toolkit: collision bookkeeping,
//! element storages and the borrow bookkeeping of column views, the spatial
//! hash grid and its pair traversal, spawn timing, the component model, the
//! property tree and property change tracking.

pub mod collision_registry;
pub mod order;
pub mod storage;
pub mod aos_vec_storage;
pub mod grid_key;
pub mod grid;
pub mod grid_pairs;
pub mod component;
pub mod model;
pub mod property;
pub mod mesh;
pub mod flags;
pub mod solver;
pub mod schedule;
pub mod soa_view;
pub mod soa_storage;
pub mod change;
