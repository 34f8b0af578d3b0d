//! Kill-time distributions for tick-based combat, computed over exact
//! fixed-point probabilities.

pub mod basic;
pub mod combat;
pub mod compose;
pub mod convergence;
pub mod equip;
pub mod error;
pub mod gear;
pub mod matrix;
pub mod montecarlo;
pub mod mutta;
pub mod prob;
pub mod series;
pub mod state;
pub mod tekton;
pub mod theorems;
pub mod vasa;
