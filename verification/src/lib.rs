//! Verified core of the hermes particle-mesh simulator: periodic lattice
//! arithmetic, layered configuration merging, configuration validation,
//! snapshot naming, run planning and playback control.

pub mod grid;
pub mod text;
pub mod config;
pub mod run;
pub mod io;
pub mod engine;
pub mod initialization;
