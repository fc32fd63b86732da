//! Hazards, the hazard proximity grid and the collision detection engine.

pub mod proximity;
pub mod hazard_entity;
pub mod hazard;
pub mod hazard_filter;
pub mod hp_cell;
pub mod hazard_proximity_grid;
pub mod cd_engine;
