use hermes_rs::run::cli::Cli;
use hermes_rs::run::playback::{PlaybackCursor, PlaybackKeys};
use hermes_rs::run::pipeline::{render_mode_for, send_may_drop, RenderMode};
use hermes_rs::run::raster::{blank_frame, splat_point};
use hermes_rs::config::ConfigError;
use hermes_rs::run::runner::{
    cli_overrides, combine_tiers, frame_delay_ms, recording_frames, run, RunPlan,
};
use hermes_rs::config::toml_bridge::ConfigLeaf;
use hermes_rs::config::tree::{ConfigEntry, ConfigTree};

fn cli() -> Cli {
    Cli {
        scene: "scenes/cosmic-web-pm".to_string(),
        config: None,
        save: None,
        live: false,
        playback: None,
        record: None,
        fps: 30,
        seed: 42,
        steps: None,
        particles: None,
        grid: None,
        resume: None,
        quiet: false,
    }
}

#[test]
fn save_directory_variants() {
    let mut c = cli();
    assert_eq!(c.save_directory(), None);
    c.save = Some(Some("out".to_string()));
    assert_eq!(c.save_directory(), Some("out".to_string()));
    c.save = Some(None);
    assert_eq!(c.save_directory(), Some("scenes/cosmic-web-pm".to_string()));
    c.scene = "scenes/halo.toml".to_string();
    assert_eq!(c.save_directory(), Some("scenes/halo".to_string()));
}

#[test]
fn run_plans() {
    let mut c = cli();
    assert_eq!(run(&c, false), RunPlan::Headless);
    c.live = true;
    assert_eq!(run(&c, false), RunPlan::LiveUnavailable);
    assert_eq!(run(&c, true), RunPlan::LiveViewer);
    c.playback = Some("data/x".to_string());
    assert_eq!(run(&c, false), RunPlan::PlaybackUnavailable);
    assert_eq!(run(&c, true), RunPlan::PlaybackViewer { dir: "data/x".to_string() });
    c.record = Some("out.gif".to_string());
    assert_eq!(
        run(&c, false),
        RunPlan::Record { dir: "data/x".to_string(), output: "out.gif".to_string() }
    );
}

#[test]
fn frame_delays() {
    assert_eq!(frame_delay_ms(30), 33);
    assert_eq!(frame_delay_ms(0), 1000);
    assert_eq!(frame_delay_ms(1), 1000);
    assert_eq!(frame_delay_ms(2000), 0);
}

fn int_leaf(v: i64) -> ConfigTree<ConfigLeaf> {
    ConfigTree::Leaf(ConfigLeaf::Integer(v))
}

fn entry(k: &str, v: ConfigTree<ConfigLeaf>) -> ConfigEntry<ConfigLeaf> {
    ConfigEntry { key: k.to_string(), value: v }
}

#[test]
fn cli_override_tables() {
    let mut c = cli();
    assert_eq!(cli_overrides(&c), None);
    c.steps = Some(12);
    c.particles = Some(16);
    let expected = ConfigTree::Table(vec![
        entry("simulation", ConfigTree::Table(vec![entry("n_cells", int_leaf(16)), entry("n_particles", int_leaf(16))])),
        entry("time", ConfigTree::Table(vec![entry("n_steps", int_leaf(12))])),
    ]);
    assert_eq!(cli_overrides(&c), Some(expected));
    c.particles = None;
    let expected = ConfigTree::Table(vec![entry("time", ConfigTree::Table(vec![entry("n_steps", int_leaf(12))]))]);
    assert_eq!(cli_overrides(&c), Some(expected));
}

fn t(k: &str, v: i64) -> ConfigTree<i64> {
    ConfigTree::Table(vec![ConfigEntry { key: k.to_string(), value: ConfigTree::Leaf(v) }])
}

#[test]
fn tiers_combine_scene_file_and_cli() {
    let (file, ov) = combine_tiers(Some(t("a", 1)), Some(t("a", 2)), Some(t("b", 3)));
    assert_eq!(ov, None);
    let expected = ConfigTree::Table(vec![
        ConfigEntry { key: "a".to_string(), value: ConfigTree::Leaf(2) },
        ConfigEntry { key: "b".to_string(), value: ConfigTree::Leaf(3) },
    ]);
    assert_eq!(file, Some(expected));
    let (file, ov) = combine_tiers(Some(t("a", 1)), None, Some(t("b", 3)));
    assert_eq!(file, Some(t("a", 1)));
    assert_eq!(ov, Some(t("b", 3)));
    let (file, ov) = combine_tiers(None, Some(t("a", 2)), None);
    assert_eq!(file, Some(t("a", 2)));
    assert_eq!(ov, None);
}

fn keys() -> PlaybackKeys {
    PlaybackKeys::none()
}

#[test]
fn playback_navigation() {
    let mut p = PlaybackCursor::new(25);
    assert_eq!(p.frame_index(), 0);
    assert!(!p.paused());
    assert!(p.step(keys(), true));
    assert_eq!(p.frame_index(), 1);
    assert!(!p.step(PlaybackKeys { end: true, ..keys() }, true));
    assert_eq!(p.frame_index(), 24);
    assert!(p.paused());
    p.step(PlaybackKeys { right: true, ..keys() }, false);
    assert_eq!(p.frame_index(), 24);
    p.step(PlaybackKeys { down: true, ..keys() }, false);
    assert_eq!(p.frame_index(), 22);
    p.step(PlaybackKeys { up: true, ..keys() }, false);
    assert_eq!(p.frame_index(), 24);
    p.step(PlaybackKeys { home: true, ..keys() }, false);
    assert_eq!(p.frame_index(), 0);
    p.step(PlaybackKeys { left: true, ..keys() }, false);
    assert_eq!(p.frame_index(), 0);
    p.step(PlaybackKeys { space: true, ..keys() }, false);
    assert!(!p.paused());
}

#[test]
fn playback_wraps_around() {
    let mut p = PlaybackCursor::new(3);
    for _ in 0..3 {
        p.step(keys(), true);
    }
    assert_eq!(p.frame_index(), 0);
    let mut empty = PlaybackCursor::new(0);
    assert!(!empty.step(keys(), true));
    assert_eq!(empty.frame_index(), 0);
}

#[test]
fn blank_frames_are_black_and_opaque() {
    let f = blank_frame(2, 1);
    assert_eq!(f, vec![0, 0, 0, 255, 0, 0, 0, 255]);
}

#[test]
fn splat_lights_clipped_square_with_saturation() {
    let mut f = blank_frame(3, 3);
    splat_point(&mut f, 3, 3, 0, 0, 1, [200, 10, 0]);
    splat_point(&mut f, 3, 3, 0, 0, 0, [100, 10, 0]);
    // (0,0): 200 + 100 saturates at 255.
    assert_eq!(&f[0..4], &[255, 20, 0, 255]);
    // (1,1) lit once.
    let o = (1 * 3 + 1) * 4;
    assert_eq!(&f[o..o + 4], &[200, 10, 0, 255]);
    // (2,2) outside the square.
    let o = (2 * 3 + 2) * 4;
    assert_eq!(&f[o..o + 4], &[0, 0, 0, 255]);
    let mut g = blank_frame(2, 2);
    splat_point(&mut g, 2, 2, 5, 5, -1, [9, 9, 9]);
    assert_eq!(g, blank_frame(2, 2));
}

#[test]
fn render_modes() {
    assert_eq!(render_mode_for(true), RenderMode::Volumetric);
    assert_eq!(render_mode_for(false), RenderMode::Points);
    assert!(send_may_drop(true, false));
    assert!(!send_may_drop(true, true));
    assert!(!send_may_drop(false, false));
}

#[test]
fn cli_overrides_win_over_the_file() {
    let base = hermes_rs::config::toml_bridge::parse_config_text(
        "[time]\nn_steps = 100\nstepping = \"log\"\n[simulation]\nn_cells = 64\nbox_length = 100.5\n[output]\nsnapshot_interval = 3\n",
    )
    .unwrap();
    let mut c = cli();
    c.steps = Some(12);
    c.particles = Some(16);
    let merged = hermes_rs::config::tree::merge_trees(base, cli_overrides(&c).unwrap());
    let v = hermes_rs::config::toml_bridge::build_configuration("", Some(merged), None).unwrap();
    let expected: toml::Value = toml::from_str(
        "[time]\nn_steps = 12\nstepping = \"log\"\n[simulation]\nn_cells = 16\nn_particles = 16\nbox_length = 100.5\n[output]\nsnapshot_interval = 3\n",
    )
    .unwrap();
    assert_eq!(v, expected);
}

#[test]
fn splatted_frames_stay_opaque() {
    let mut f = blank_frame(4, 4);
    splat_point(&mut f, 4, 4, 1, 2, 2, [255, 255, 255]);
    splat_point(&mut f, 4, 4, 3, 0, 1, [17, 0, 250]);
    for k in (3..f.len()).step_by(4) {
        assert_eq!(f[k], 255);
    }
}

#[test]
fn recording_needs_snapshots() {
    let empty: Vec<String> = vec!["notes.txt".to_string(), "snapshot_00001.bin".to_string()];
    assert_eq!(
        recording_frames("data/x", empty),
        Err(ConfigError::NoSnapshotsFound("data/x".to_string()))
    );
    assert_eq!(
        recording_frames("data/x", vec![]),
        Err(ConfigError::NoSnapshotsFound("data/x".to_string()))
    );
    let names: Vec<String> = vec!["snapshot-00002.bin".to_string(), "a".to_string(), "snapshot-00001.bin".to_string()];
    assert_eq!(
        recording_frames("data/x", names),
        Ok(vec!["snapshot-00001.bin".to_string(), "snapshot-00002.bin".to_string()])
    );
}

#[test]
fn splat_on_an_empty_frame_does_nothing() {
    let mut f: Vec<u8> = Vec::new();
    splat_point(&mut f, 0, 7, 0, 0, 3, [1, 2, 3]);
    assert!(f.is_empty());
    let mut g = blank_frame(3, 0);
    splat_point(&mut g, 3, 0, 1, 0, 1, [1, 2, 3]);
    assert!(g.is_empty());
}

#[test]
fn left_at_the_first_frame_keeps_playing() {
    let mut p = PlaybackCursor::new(5);
    assert!(p.step(PlaybackKeys { left: true, ..keys() }, true));
    assert_eq!(p.frame_index(), 1);
    assert!(!p.paused());
}
