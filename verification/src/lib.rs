//! Frame bookkeeping for a phase-vocoder time-stretch and pitch-shift engine.

pub mod config;
pub mod frames;
pub mod grid;
pub mod laws;
pub mod locking;
pub mod position;
pub mod ratio;
pub mod ring;
pub mod schedule;
pub mod stretch;

pub use crate::config::EngineConfig;
pub use crate::grid::PhaseGrid;
pub use crate::position::FlushPlan;
pub use crate::position::Position;
pub use crate::position::SeekPlan;
pub use crate::ring::Ring;
pub use crate::schedule::Plan;
pub use crate::schedule::Step;
pub use crate::stretch::Stretch;
