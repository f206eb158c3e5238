use rue::config::{GameInfo, GameVersion, WindowConfig};
use rue::timestep::tick_lengths;

#[test]
fn long_frame_is_split_into_bounded_ticks() {
    assert_eq!(tick_lengths(40_000, 16_666), vec![16_666, 16_666, 6_668]);
}

#[test]
fn frame_of_exact_multiple_has_no_remainder_tick() {
    assert_eq!(tick_lengths(33_332, 16_666), vec![16_666, 16_666]);
}

#[test]
fn short_frame_is_one_tick() {
    assert_eq!(tick_lengths(5_000, 16_666), vec![5_000]);
}

#[test]
fn empty_frame_has_no_ticks() {
    assert!(tick_lengths(0, 16_666).is_empty());
}

#[test]
fn largest_frame_is_covered() {
    let ticks = tick_lengths(u64::MAX, u64::MAX / 2);
    assert_eq!(ticks, vec![u64::MAX / 2, u64::MAX / 2, 1]);
}

#[test]
fn window_config_builds_resizable_then_fixed() {
    let w = WindowConfig::build((800, 600));
    assert!(w.resizable);
    assert!(w.maximizable);
    assert_eq!(w.window_size, (800, 600));
    let f = w.fixed_size();
    assert!(!f.resizable);
    assert!(!f.maximizable);
    assert_eq!(f.window_size, (800, 600));
}

#[test]
fn default_game_info() {
    let g = GameInfo::default();
    assert_eq!(g.name, "My Rue Game");
    assert_eq!(g.target_fps, 60);
    let GameVersion(major, minor, patch) = g.version;
    assert_eq!((major, minor, patch), (0, 1, 0));
    assert_eq!(g.window_config.window_size, (640, 480));
    assert!(g.window_config.resizable);
    assert_eq!(g.frame_micros(), 16_666);
}
