//! Command-line interface for hermes.
use vstd::prelude::*;
use vstd::string::StringExecFns;
use crate::text::{ends_with, has_suffix};

verus! {

/// Hermes — Hierarchical Closure Dynamics simulator.
pub struct Cli {
    /// Scene config: path to a .toml file (with or without extension).
    pub scene: String,
    /// Base config file merged under the scene config (optional overrides).
    pub config: Option<String>,
    /// Save snapshots (default dir: next to scene TOML; or specify a path).
    pub save: Option<Option<String>>,
    /// Open live 3D viewer during simulation.
    pub live: bool,
    /// Play back saved snapshots from directory.
    pub playback: Option<String>,
    /// Save playback as GIF (use with --playback).
    pub record: Option<String>,
    /// Playback/recording framerate.
    pub fps: u64,
    /// RNG seed.
    pub seed: u64,
    /// Override number of time steps.
    pub steps: Option<usize>,
    /// Override particles per side.
    pub particles: Option<usize>,
    /// Override grid cells per side.
    pub grid: Option<usize>,
    /// Resume simulation from the last snapshot in a directory.
    pub resume: Option<String>,
    /// Suppress terminal output.
    pub quiet: bool,
}

/// `s` without a trailing ".toml", if it has one.
pub open spec fn strip_toml(s: Seq<char>) -> Seq<char> {
    if ends_with(s, ".toml"@) {
        s.subrange(0, s.len() - 5)
    } else {
        s
    }
}

/// Stripping `.toml` removes exactly that suffix when it is there and
/// leaves any other text alone.
pub proof fn law_strip_toml(s: Seq<char>)
    ensures
        strip_toml(s + ".toml"@) == s,
        !ends_with(s, ".toml"@) ==> strip_toml(s) == s,
{
    reveal_strlit(".toml");
    let t = s + ".toml"@;
    assert(t.subrange(t.len() - 5, t.len() as int) =~= ".toml"@);
    assert(t.subrange(0, t.len() - 5) =~= s);
}

impl Cli {
    /// Resolve the save directory. None if --save was not passed.
    ///
    /// - `--save dir` → use that dir
    /// - `--save` (no arg) → directory next to the scene TOML (strip .toml)
    /// - no --save flag → None (don't save)
    pub fn save_directory(&self) -> (r: Option<String>)
        ensures
            match self.save {
                Some(Some(dir)) => r matches Some(d) && d@ == dir@,
                Some(None) => r matches Some(d) && d@ == strip_toml(self.scene@),
                None => r is None,
            },
    {
        match &self.save {
            Some(Some(dir)) => Some(dir.clone()),
            Some(None) => {
                let suffix = ".toml";
                proof {
                    reveal_strlit(".toml");
                }
                let scene = self.scene.as_str();
                if has_suffix(scene, suffix) {
                    let len = scene.unicode_len();
                    let base = scene.substring_char(0, len - 5);
                    Some(String::from_str(base))
                } else {
                    Some(String::from_str(scene))
                }
            },
            None => None,
        }
    }
}

} // verus!
