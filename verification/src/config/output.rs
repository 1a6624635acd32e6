//! Output configuration: what we record, report, and display.
use vstd::prelude::*;
use vstd::string::StringExecFns;

verus! {

/// Default snapshot interval (every step).
pub fn default_snapshot_interval() -> (r: usize)
    ensures
        r == 1,
{
    1
}

/// Default diagnostics interval.
pub fn default_diagnostics_interval() -> (r: usize)
    ensures
        r == 10,
{
    10
}

/// Default log level.
pub fn default_log_level() -> (r: String)
    ensures
        r@ == "info"@,
{
    String::from_str("info")
}

/// Progress is printed by default.
pub fn default_progress() -> (r: bool)
    ensures
        r,
{
    true
}

/// Default colormap of a species.
pub fn default_colormap() -> (r: String)
    ensures
        r@ == "hot"@,
{
    String::from_str("hot")
}

/// Default pixel resolution of recorded GIFs.
pub fn default_gif_resolution() -> (r: u32)
    ensures
        r == 512,
{
    512
}

/// Default point radius in pixels of recorded GIFs.
pub fn default_gif_point_radius() -> (r: i32)
    ensures
        r == 1,
{
    1
}

/// Snapshot output configuration.
#[derive(Clone, Debug)]
pub struct SnapshotsConfig {
    /// Save a snapshot every N steps.
    pub interval: usize,
    /// Output directory. Empty string defaults to data/<scene>/.
    pub directory: String,
}

impl Default for SnapshotsConfig {
    fn default() -> (r: Self)
        ensures
            r.interval == 1,
            r.directory@ == Seq::<char>::empty(),
    {
        SnapshotsConfig { interval: default_snapshot_interval(), directory: String::new() }
    }
}

/// Diagnostics configuration.
#[derive(Clone, Copy, Debug)]
pub struct DiagnosticsConfig {
    /// Compute conservation audits every N steps.
    pub interval: usize,
}

impl Default for DiagnosticsConfig {
    fn default() -> (r: Self)
        ensures
            r.interval == 10,
    {
        DiagnosticsConfig { interval: default_diagnostics_interval() }
    }
}

/// Terminal logging configuration.
#[derive(Clone, Debug)]
pub struct LoggingConfig {
    /// Log level: "error", "warn", "info", "debug", "trace".
    pub level: String,
    /// Print step progress to terminal.
    pub progress: bool,
}

impl Default for LoggingConfig {
    fn default() -> (r: Self)
        ensures
            r.level@ == "info"@,
            r.progress,
    {
        LoggingConfig { level: default_log_level(), progress: default_progress() }
    }
}

/// Output parameters of the flat configuration format.
#[derive(Clone, Copy, Debug)]
pub struct OutputConfig {
    /// Save a snapshot every this many steps.
    pub write_interval: usize,
    /// Compute full diagnostics every this many steps.
    pub diagnostic_interval: usize,
}

} // verus!
