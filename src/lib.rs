//! Deterministic simulation core of a tower-defense game: the grid and its path search,
//! towers and enemies with their stat tables, combat, wave generation, the economy, and
//! the per-tick game state machine.
//!
//! Positions and speeds are fixed point (`enemy::SUBTILES_PER_TILE` sub-tiles to a
//! tile) and slow factors are thousandths, so every result is exact and reproducible.

pub mod combat;
pub mod economy;
pub mod enemy;
pub mod game;
pub mod guards;
pub mod pathfinding;
pub mod session;
pub mod theorems;
pub mod tower;
pub mod wave;
