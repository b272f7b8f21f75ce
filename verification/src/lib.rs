//! Game logic of a grid battle royale between NEAT-driven agents.
use vstd::prelude::*;

pub mod board;
pub mod brain;
pub mod capacity;
pub mod constants;
pub mod human;
pub mod launch;
pub mod lineage;
pub mod models;
pub mod neat;
pub mod rng;
pub mod selection;
pub mod session;
pub mod spacing;
pub mod state;
pub mod text;
pub mod turn;
pub mod vision;
