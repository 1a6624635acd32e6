//! Running hermes: the command line, run planning, playback control,
//! frame rasterization and snapshot bookkeeping.
pub mod cli;
pub mod runner;
pub mod playback;
pub mod raster;
pub mod pipeline;
