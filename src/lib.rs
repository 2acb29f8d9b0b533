//! Combat core of a tower-defense game, on integer units: positions in
//! centimetres, time in milliseconds, bearings in milliradians, health and
//! damage in whole points.
//!
//! Each tick runs, in order: range validation and target acquisition
//! (`acquisition`), turning (`orientation`), firing (`firing`), projectile
//! movement and collision resolution (`projectile`), and the death pass
//! (`lifecycle`). The Target relation between attackers and mobile agents
//! lives in `relation`; `viewport` lays out the split-screen cameras.
pub mod geometry;
pub mod relation;
pub mod acquisition;
pub mod orientation;
pub mod projectile;
pub mod firing;
pub mod lifecycle;
pub mod viewport;
