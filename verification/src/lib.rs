//! A deterministic inverse-kinematics core for articulated chains.
//!
//! The library drives a chain of rigidly spaced joints toward a moving
//! target with the FABRIK solver, keeps the chain out of solid obstacles,
//! and smooths motion with a critically damped second-order filter.
//! All geometry is carried in fixed-point micro-units (one unit of world
//! space is `SCALE` micro-units), so every computation is exact integer
//! arithmetic and every result is pinned down by its contract.

pub mod fixed;
pub mod vec3;
pub mod constraint;
pub mod joint;
pub mod chain;
pub mod obstacle;
pub mod world;
pub mod response;
pub mod solver;
pub mod second_order;
pub mod raycast;

pub use chain::Chain;
pub use chain::ChainBuilder;
pub use constraint::BallSocketConstraint;
pub use constraint::Constraint;
pub use constraint::NoConstraint;
pub use joint::Joint;
pub use obstacle::AabbObstacle;
pub use obstacle::Obstacle;
pub use obstacle::ObstacleShape;
pub use obstacle::SphereObstacle;
pub use raycast::Ray;
pub use raycast::RayHit;
pub use response::CollisionConfig;
pub use response::CollisionHit;
pub use response::CollisionResponse;
pub use second_order::Interpolatable;
pub use second_order::SecondOrderDynamics;
pub use second_order::SpringPreset;
pub use solver::FabrikSolver;
pub use solver::SolveResult;
pub use vec3::Vec3;
pub use world::ObstacleWorld;
