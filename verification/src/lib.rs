//! Verified core of a particle simulator: expression preprocessing for
//! parametric equations, particle-slot allocation, trail bookkeeping,
//! start-up grid layout and the small decisions behind the controls.

pub mod text;
pub mod trail;
pub mod grid;
pub mod event;
pub mod demo;
pub mod controls;
pub mod parametric;
pub mod expr;
pub mod saves;
