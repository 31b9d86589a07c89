use arcglyph::config::{default_config, flatten_groups, Gesture};
use arcglyph::daemon::{can_handle, handle_event, Effect, InputEvent};
use arcglyph::gesture::GestureState;
use arcglyph::keys::Key;
use arcglyph::overlay::Cmd;

const EV_KEY: u16 = 1;
const EV_REL: u16 = 2;
const BTN_RIGHT: u16 = 0x111;

fn right(value: i32) -> InputEvent {
    InputEvent { kind: EV_KEY, code: BTN_RIGHT, value }
}

fn rel(code: u16, value: i32) -> InputEvent {
    InputEvent { kind: EV_REL, code, value }
}

fn browser() -> Vec<Gesture> {
    flatten_groups(&default_config().groups).unwrap()
}

fn chrome_focus() -> (Option<String>, bool, bool) {
    (Some("google-chrome".to_string()), false, true)
}

#[test]
fn gesture_sends_chord() {
    let gs = browser();
    let mut st = GestureState::new();
    assert_eq!(handle_event(right(1), &mut st, &gs, true, chrome_focus()), vec![]);
    assert!(st.active);
    let ev = rel(0, 100);
    assert!(can_handle(&st, ev));
    assert_eq!(
        handle_event(ev, &mut st, &gs, true, chrome_focus()),
        vec![Effect::Overlay(Cmd::Start), Effect::Overlay(Cmd::Move(100, 0)), Effect::Mouse(ev)]
    );
    assert!(st.overlay_started);
    assert_eq!(
        handle_event(right(0), &mut st, &gs, true, chrome_focus()),
        vec![Effect::Overlay(Cmd::Finish), Effect::Shortcut(vec![Key(56), Key(106)])]
    );
    assert!(!st.active);
}

#[test]
fn plain_click_is_replayed_whole() {
    let gs = browser();
    let mut st = GestureState::new();
    handle_event(right(1), &mut st, &gs, true, chrome_focus());
    assert_eq!(
        handle_event(right(0), &mut st, &gs, true, chrome_focus()),
        vec![Effect::Mouse(right(1)), Effect::Mouse(right(0))]
    );
}

#[test]
fn unmatched_stroke_is_swallowed() {
    let gs = browser();
    let mut st = GestureState::new();
    handle_event(right(1), &mut st, &gs, true, chrome_focus());
    handle_event(rel(1, -100), &mut st, &gs, true, chrome_focus());
    handle_event(rel(0, 100), &mut st, &gs, true, chrome_focus());
    assert_eq!(
        handle_event(right(0), &mut st, &gs, true, chrome_focus()),
        vec![Effect::Overlay(Cmd::Finish)]
    );
}

#[test]
fn bypass_when_disabled_fullscreen_outside_or_unconfigured() {
    let gs = browser();
    let cases = [
        (false, chrome_focus()),
        (true, (Some("google-chrome".to_string()), true, true)),
        (true, (Some("google-chrome".to_string()), false, false)),
        (true, (Some("kitty".to_string()), false, true)),
        (true, (None, false, true)),
    ];
    for (enabled, focus) in cases {
        let mut st = GestureState::new();
        assert_eq!(handle_event(right(1), &mut st, &gs, enabled, focus.clone()), vec![Effect::Mouse(right(1))]);
        assert!(st.bypass);
        assert!(!st.active);
        let m = rel(0, 50);
        assert_eq!(handle_event(m, &mut st, &gs, enabled, focus.clone()), vec![Effect::Mouse(m)]);
        assert_eq!(handle_event(right(0), &mut st, &gs, enabled, focus), vec![Effect::Mouse(right(0))]);
        assert!(!st.bypass);
    }
}

#[test]
fn other_events_pass_through() {
    let gs = browser();
    let mut st = GestureState::new();
    let left = InputEvent { kind: EV_KEY, code: 0x110, value: 1 };
    assert_eq!(handle_event(left, &mut st, &gs, true, chrome_focus()), vec![Effect::Mouse(left)]);
    let syn = InputEvent { kind: 0, code: 0, value: 0 };
    assert_eq!(handle_event(syn, &mut st, &gs, true, chrome_focus()), vec![Effect::Mouse(syn)]);
    let repeat = right(2);
    assert_eq!(handle_event(repeat, &mut st, &gs, true, chrome_focus()), vec![Effect::Mouse(repeat)]);
    handle_event(right(1), &mut st, &gs, true, chrome_focus());
    let wheel = rel(8, 1);
    assert_eq!(handle_event(wheel, &mut st, &gs, true, chrome_focus()), vec![Effect::Mouse(wheel)]);
    assert_eq!(st.total_dx, 0);
}

#[test]
fn overlay_starts_only_after_min_travel() {
    let gs = browser();
    let mut st = GestureState::new();
    handle_event(right(1), &mut st, &gs, true, chrome_focus());
    let small = rel(0, 10);
    assert_eq!(handle_event(small, &mut st, &gs, true, chrome_focus()), vec![Effect::Mouse(small)]);
    let more = rel(1, 10);
    assert_eq!(
        handle_event(more, &mut st, &gs, true, chrome_focus()),
        vec![Effect::Overlay(Cmd::Start), Effect::Overlay(Cmd::Move(0, 10)), Effect::Mouse(more)]
    );
    let zero = rel(0, 0);
    assert_eq!(handle_event(zero, &mut st, &gs, true, chrome_focus()), vec![Effect::Mouse(zero)]);
}

#[test]
fn can_handle_rejects_overflow() {
    let mut st = GestureState::new();
    st.start(None);
    st.total_dx = i32::MAX;
    assert!(!can_handle(&st, rel(0, 1)));
    assert!(can_handle(&st, rel(1, 1)) == false);
    let mut st2 = GestureState::new();
    st2.start(None);
    st2.total_dx = i32::MIN;
    // ending a stroke measures nothing, so a release is always taken
    assert!(can_handle(&st2, right(0)));
    assert_eq!(
        handle_event(right(0), &mut st2, &browser(), true, chrome_focus()),
        vec![Effect::Mouse(right(1)), Effect::Mouse(right(0))]
    );
}

#[test]
fn bypassed_release_ignores_later_focus() {
    let gs = browser();
    let mut st = GestureState::new();
    let fullscreen = (Some("google-chrome".to_string()), true, true);
    assert_eq!(handle_event(right(1), &mut st, &gs, true, fullscreen), vec![Effect::Mouse(right(1))]);
    assert_eq!(handle_event(right(0), &mut st, &gs, true, chrome_focus()), vec![Effect::Mouse(right(0))]);
    assert!(!st.bypass);
    assert!(!st.active);
}

#[test]
fn app_group_overrides_global_pattern() {
    let mut cfg = default_config();
    cfg.groups.push(arcglyph::config::GroupCfg {
        name: "Global".to_string(),
        apps: vec![],
        enabled: true,
        gestures: vec![arcglyph::config::GestureCfg {
            label: Some("Switch window".to_string()),
            pattern: "46".to_string(),
            keys: vec!["LEFTALT".to_string(), "TAB".to_string()],
            enabled: true,
        }],
    });
    let gs = flatten_groups(&cfg.groups).unwrap();
    assert_eq!(arcglyph::gesture::pick(&gs, "46", Some("Google-Chrome")), Some(vec![Key(63)]));
    assert_eq!(arcglyph::gesture::pick(&gs, "46", Some("kitty")), Some(vec![Key(56), Key(15)]));
    assert_eq!(arcglyph::gesture::pick(&gs, "46", None), Some(vec![Key(56), Key(15)]));
}
