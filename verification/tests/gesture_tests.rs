use arcglyph::config::{default_config, flatten_groups, Gesture};
use arcglyph::gesture::{has_gestures_for_app, pick, GestureState, MIN_TOTAL_MOVE, MOVE_THRESHOLD};
use arcglyph::keys::Key;

fn gesture(pattern: &str, keys: &[u16], apps: &[&str], enabled: bool) -> Gesture {
    Gesture {
        pattern: pattern.to_string(),
        keys: keys.iter().map(|c| Key(*c)).collect(),
        apps: apps.iter().map(|a| a.to_string()).collect(),
        label: None,
        enabled,
    }
}

fn stroke(moves: &[(i32, i32)]) -> Option<String> {
    let mut s = GestureState::new();
    s.start(Some("app".to_string()));
    for (dx, dy) in moves {
        s.feed(*dx, *dy);
    }
    s.finish()
}

#[test]
fn thresholds_are_as_documented() {
    assert_eq!(MOVE_THRESHOLD, 60);
    assert_eq!(MIN_TOTAL_MOVE, 20);
}

#[test]
fn new_state_is_idle() {
    let s = GestureState::new();
    assert!(!s.active);
    assert!(!s.bypass);
    assert!(!s.overlay_started);
    assert_eq!(s.total_dx, 0);
    assert_eq!(s.total_dy, 0);
    assert_eq!(s.app_id, None);
}

#[test]
fn start_resets_but_keeps_bypass() {
    let mut s = GestureState::new();
    s.bypass = true;
    s.start(Some("kitty".to_string()));
    s.feed(100, 0);
    s.start(Some("firefox".to_string()));
    assert!(s.active);
    assert!(s.bypass);
    assert_eq!(s.total_dx, 0);
    assert_eq!(s.app_id.as_deref(), Some("firefox"));
    assert_eq!(s.finish(), None);
}

#[test]
fn single_stroke_each_direction() {
    assert_eq!(stroke(&[(100, 0)]).as_deref(), Some("6"));
    assert_eq!(stroke(&[(-100, 0)]).as_deref(), Some("4"));
    assert_eq!(stroke(&[(0, 100)]).as_deref(), Some("2"));
    assert_eq!(stroke(&[(0, -100)]).as_deref(), Some("8"));
}

#[test]
fn l_shape_down_then_right() {
    assert_eq!(stroke(&[(0, 70), (0, 70), (70, 0), (70, 0)]).as_deref(), Some("26"));
}

#[test]
fn repeated_direction_is_recorded_once() {
    assert_eq!(stroke(&[(61, 0), (61, 0), (61, 0)]).as_deref(), Some("6"));
}

#[test]
fn back_and_forth_records_both() {
    assert_eq!(stroke(&[(-80, 0), (80, 0), (80, 0)]).as_deref(), Some("46"));
    // back to the start: the directions were recorded, so it is still the gesture
    assert_eq!(stroke(&[(-80, 0), (80, 0)]).as_deref(), Some("46"));
}

#[test]
fn diagonal_ties_go_horizontal() {
    assert_eq!(stroke(&[(50, 50)]).as_deref(), Some("6"));
    assert_eq!(stroke(&[(-50, -50)]).as_deref(), Some("4"));
    assert_eq!(stroke(&[(40, 50)]).as_deref(), Some("2"));
    assert_eq!(stroke(&[(40, -50)]).as_deref(), Some("8"));
}

#[test]
fn small_motion_records_nothing() {
    let mut s = GestureState::new();
    s.start(None);
    s.feed(30, 0);
    s.feed(0, 29);
    assert!(s.moved_enough());
    assert_eq!(s.finish(), None);
}

#[test]
fn below_min_total_move_is_a_click() {
    let mut s = GestureState::new();
    s.start(None);
    s.feed(19, 0);
    assert!(!s.moved_enough());
    assert_eq!(s.finish(), None);
    assert!(!s.active);
}

#[test]
fn exactly_threshold_squared_records() {
    // 60 * 60 == 3600 reaches the threshold
    assert_eq!(stroke(&[(60, 0)]).as_deref(), Some("6"));
    assert_eq!(stroke(&[(59, 0)]), None);
}

#[test]
fn finish_hands_out_pattern_once() {
    let mut s = GestureState::new();
    s.start(None);
    s.feed(0, -200);
    assert_eq!(s.finish().as_deref(), Some("8"));
    assert_eq!(s.finish(), None);
}

#[test]
fn can_feed_and_can_measure_guard_overflow() {
    let mut s = GestureState::new();
    s.start(None);
    assert!(s.can_feed(100, 0));
    assert!(!s.can_feed(50000, 50000));
    assert!(s.can_feed(i32::MAX, 0));
    s.feed(i32::MAX, 0);
    assert!(!s.can_feed(1, 0));
    assert!(s.can_measure());
    assert!(s.moved_enough());
}

#[test]
fn pick_prefers_app_specific_binding() {
    let gs = vec![
        gesture("46", &[56, 15], &[], true),
        gesture("46", &[63], &["chrome"], true),
    ];
    assert_eq!(pick(&gs, "46", Some("google-chrome")), Some(vec![Key(63)]));
    assert_eq!(pick(&gs, "46", Some("kitty")), Some(vec![Key(56), Key(15)]));
    assert_eq!(pick(&gs, "46", None), Some(vec![Key(56), Key(15)]));
    assert_eq!(pick(&gs, "4", Some("google-chrome")), None);
}

#[test]
fn pick_matches_apps_case_insensitively_by_substring() {
    let gs = vec![gesture("6", &[1], &["Chrom"], true)];
    assert_eq!(pick(&gs, "6", Some("GOOGLE-CHROME")), Some(vec![Key(1)]));
    assert_eq!(pick(&gs, "6", Some("firefox")), None);
}

#[test]
fn pick_skips_disabled_and_takes_first() {
    let gs = vec![
        gesture("2", &[1], &["term"], false),
        gesture("2", &[2], &["term"], true),
        gesture("2", &[3], &["term"], true),
    ];
    assert_eq!(pick(&gs, "2", Some("xterm")), Some(vec![Key(2)]));
}

#[test]
fn has_gestures_for_app_cases() {
    let gs = vec![gesture("6", &[1], &["chrome"], true), gesture("4", &[2], &["kitty"], false)];
    assert!(has_gestures_for_app(&gs, Some("Google-Chrome")));
    assert!(!has_gestures_for_app(&gs, Some("kitty")));
    assert!(!has_gestures_for_app(&gs, None));
    let global = vec![gesture("6", &[1], &[], true)];
    assert!(has_gestures_for_app(&global, None));
    assert!(!has_gestures_for_app(&[], Some("x")));
}

#[test]
fn no_gestures_for_app_means_no_binding() {
    let gs = vec![gesture("6", &[1], &["chrome"], true)];
    for p in ["6", "4", "26", ""] {
        assert!(!has_gestures_for_app(&gs, Some("kitty")));
        assert_eq!(pick(&gs, p, Some("kitty")), None);
    }
}

#[test]
fn readme_browser_gestures() {
    let cfg = default_config();
    let gs = flatten_groups(&cfg.groups).unwrap();
    assert_eq!(pick(&gs, "4", Some("google-chrome")), Some(vec![Key(56), Key(105)]));
    assert_eq!(pick(&gs, "6", Some("chromium")), Some(vec![Key(56), Key(106)]));
    assert_eq!(pick(&gs, "8", Some("microsoft-edge")), Some(vec![Key(102)]));
    assert_eq!(pick(&gs, "2", Some("chromium")), Some(vec![Key(107)]));
    assert_eq!(pick(&gs, "26", Some("chromium")), Some(vec![Key(29), Key(17)]));
    assert_eq!(pick(&gs, "24", Some("chromium")), Some(vec![Key(29), Key(42), Key(20)]));
    assert_eq!(pick(&gs, "46", Some("chromium")), Some(vec![Key(63)]));
    assert_eq!(pick(&gs, "46", Some("kitty")), None);
    assert!(!has_gestures_for_app(&gs, Some("kitty")));
}

#[test]
fn left_then_right_back_to_start_is_46() {
    let mut s = GestureState::new();
    s.start(None);
    s.feed(-100, 0);
    s.feed(100, 0);
    assert!(!s.moved_enough());
    assert_eq!(s.finish(), Some("46".to_string()));
    assert!(!s.active);
    assert_eq!(s.finish(), None);
}

#[test]
fn pattern_has_at_most_one_direction_per_motion() {
    let moves = [(-70, 0), (0, 70), (70, 0), (0, -70), (-70, 0), (0, 70)];
    let p = stroke(&moves).unwrap();
    assert_eq!(p, "426842");
    assert!(p.chars().count() <= moves.len());
    assert!(p.chars().all(|c| "2468".contains(c)));
}
