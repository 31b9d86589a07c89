use vstd::prelude::*;

use crate::config::{Gesture, GestureView};
use crate::gesture::{
    fed, feed_admissible, finished, has_gestures_for_app, has_gestures_spec, opt_str_view, pick,
    picked, started, travel_admissible, travelled_enough, GestureModel, GestureState,
};
use crate::keys::Key;
use crate::overlay::Cmd;

verus! {

/// Event type of key and button events (`EV_KEY`).
pub open spec fn ev_key() -> u16 {
    1
}

/// Event type of relative axis events (`EV_REL`).
pub open spec fn ev_rel() -> u16 {
    2
}

/// Code of the right mouse button (`BTN_RIGHT`).
pub open spec fn btn_right() -> u16 {
    0x111
}

/// Code of the horizontal relative axis (`REL_X`).
pub open spec fn rel_x() -> u16 {
    0
}

/// Code of the vertical relative axis (`REL_Y`).
pub open spec fn rel_y() -> u16 {
    1
}

/// `evdev::EventType::KEY`, as its number.
/// Claimed: the number is 1 (evdev's constants.rs: `KEY = 0x01`).
#[verifier::external_body]
fn key_event_type() -> (t: u16)
    ensures
        t == ev_key(),
{
    evdev::EventType::KEY.0
}

/// `evdev::EventType::RELATIVE`, as its number.
/// Claimed: the number is 2 (evdev's constants.rs: `RELATIVE = 0x02`).
#[verifier::external_body]
fn rel_event_type() -> (t: u16)
    ensures
        t == ev_rel(),
{
    evdev::EventType::RELATIVE.0
}

/// `evdev::Key::BTN_RIGHT.code()`.
/// Claimed: the code is 0x111 (evdev's scancodes.rs: `BTN_RIGHT = 0x111`).
#[verifier::external_body]
fn btn_right_code() -> (c: u16)
    ensures
        c == btn_right(),
{
    evdev::Key::BTN_RIGHT.code()
}

/// `evdev::RelativeAxisType::REL_X.0`.
/// Claimed: the code is 0 (evdev's constants.rs: `REL_X = 0x00`).
#[verifier::external_body]
fn rel_x_code() -> (c: u16)
    ensures
        c == rel_x(),
{
    evdev::RelativeAxisType::REL_X.0
}

/// `evdev::RelativeAxisType::REL_Y.0`.
/// Claimed: the code is 1 (evdev's constants.rs: `REL_Y = 0x01`).
#[verifier::external_body]
fn rel_y_code() -> (c: u16)
    ensures
        c == rel_y(),
{
    evdev::RelativeAxisType::REL_Y.0
}

/// An input event as read from a grabbed pointing device.
#[derive(Debug, Clone, Copy, PartialEq, Eq, Structural)]
pub struct InputEvent {
    pub kind: u16,
    pub code: u16,
    pub value: i32,
}

/// What the daemon does in answer to an input event.
#[derive(Debug, Clone, PartialEq, Eq)]
pub enum Effect {
    /// Replay this event through the virtual mouse.
    Mouse(InputEvent),
    /// Press these keys in order on the virtual keyboard, then release them in reverse order.
    Shortcut(Vec<Key>),
    /// Send this command to the trail overlay.
    Overlay(Cmd),
}

pub enum EffectView {
    Mouse(InputEvent),
    Shortcut(Seq<Key>),
    Overlay(Cmd),
}

impl DeepView for Effect {
    type V = EffectView;

    open spec fn deep_view(&self) -> EffectView {
        match self {
            Effect::Mouse(e) => EffectView::Mouse(*e),
            Effect::Shortcut(k) => EffectView::Shortcut(k@),
            Effect::Overlay(c) => EffectView::Overlay(*c),
        }
    }
}

/// The right button goes down.
pub open spec fn right_press() -> InputEvent {
    InputEvent { kind: ev_key(), code: btn_right(), value: 1 }
}

/// Motion on the x or y axis, as (dx, dy).
pub open spec fn motion_of(ev: InputEvent) -> (int, int) {
    if ev.code == rel_x() {
        (ev.value as int, 0)
    } else if ev.code == rel_y() {
        (0, ev.value as int)
    } else {
        (0, 0)
    }
}

/// Handling `ev` in state `m` keeps every counter of the recognizer in range.
pub open spec fn event_admissible(m: GestureModel, ev: InputEvent) -> bool {
    if ev.kind == ev_rel() && m.active && (ev.code == rel_x() || ev.code == rel_y()) {
        let (dx, dy) = motion_of(ev);
        &&& feed_admissible(m, dx, dy)
        &&& (ev.value != 0 && !m.overlay_started ==> travel_admissible(fed(m, dx, dy)))
    } else {
        true
    }
}

/// The new recognizer state and the effects of one input event.
/// Right button down: passed through (and the stroke bypassed) when gestures are off, the
/// focused window is fullscreen, the cursor is outside it, or no gesture applies to its app;
/// otherwise a stroke starts and the press is swallowed.
/// Right button up: a bypassed stroke passes the release through; otherwise the stroke ends,
/// the overlay is closed if it was shown, and the chord bound to its pattern is sent; with no
/// chord, a stroke that never showed the overlay replays a whole right click.
/// Motion during a stroke feeds the recognizer, starts the overlay once the stroke travelled
/// far enough, moves the trail, and is replayed. Everything else is replayed.
pub open spec fn handled(
    m: GestureModel,
    ev: InputEvent,
    gs: Seq<GestureView>,
    enabled: bool,
    app: Option<Seq<char>>,
    fullscreen: bool,
    inside: bool,
) -> (GestureModel, Seq<EffectView>) {
    if ev.kind == ev_key() && ev.code == btn_right() {
        if ev.value == 1 {
            if !enabled || fullscreen || !inside || !has_gestures_spec(gs, app) {
                (GestureModel { bypass: true, ..m }, seq![EffectView::Mouse(ev)])
            } else {
                (started(m, app), Seq::empty())
            }
        } else if ev.value == 0 {
            if m.bypass {
                (GestureModel { bypass: false, ..m }, seq![EffectView::Mouse(ev)])
            } else {
                let fin = finished(m);
                let closing = if m.overlay_started {
                    seq![EffectView::Overlay(Cmd::Finish)]
                } else {
                    Seq::empty()
                };
                let chord = match fin.1 {
                    Some(p) => picked(gs, p, m.app_id),
                    None => None,
                };
                let tail = match chord {
                    Some(k) => seq![EffectView::Shortcut(k)],
                    None => if !m.overlay_started {
                        seq![EffectView::Mouse(right_press()), EffectView::Mouse(ev)]
                    } else {
                        Seq::empty()
                    },
                };
                (fin.0, closing + tail)
            }
        } else {
            (m, seq![EffectView::Mouse(ev)])
        }
    } else if ev.kind == ev_rel() && m.active {
        if ev.code == rel_x() || ev.code == rel_y() {
            let (dx, dy) = motion_of(ev);
            let m1 = fed(m, dx, dy);
            if ev.value != 0 {
                let opens = !m1.overlay_started && travelled_enough(m1);
                let m2 = if opens {
                    GestureModel { overlay_started: true, ..m1 }
                } else {
                    m1
                };
                let first: Seq<EffectView> = if opens {
                    seq![EffectView::Overlay(Cmd::Start)]
                } else {
                    Seq::empty()
                };
                let trail: Seq<EffectView> = if m2.overlay_started {
                    seq![EffectView::Overlay(Cmd::Move(dx as i32, dy as i32))]
                } else {
                    Seq::empty()
                };
                (m2, first + trail + seq![EffectView::Mouse(ev)])
            } else {
                (m1, seq![EffectView::Mouse(ev)])
            }
        } else {
            (m, seq![EffectView::Mouse(ev)])
        }
    } else {
        (m, seq![EffectView::Mouse(ev)])
    }
}

/// The focused window as the focus tracker last saw it: app id, fullscreen, cursor inside.
pub type FocusSnapshot = (Option<String>, bool, bool);

/// Whether `handle_event` can take `ev` without a counter of the recognizer overflowing.
pub fn can_handle(state: &GestureState, ev: InputEvent) -> (b: bool)
    ensures
        b == event_admissible(state@, ev),
{
    let key = key_event_type();
    let rel = rel_event_type();
    let right = btn_right_code();
    let rx = rel_x_code();
    let ry = rel_y_code();
    if ev.kind == rel && state.active && (ev.code == rx || ev.code == ry) {
        let (dx, dy): (i32, i32) = if ev.code == rx {
            (ev.value, 0)
        } else {
            (0, ev.value)
        };
        if !state.can_feed(dx, dy) {
            return false;
        }
        if ev.value != 0 && !state.overlay_started {
            let mut probe = GestureState::new();
            probe.total_dx = state.total_dx + dx;
            probe.total_dy = state.total_dy + dy;
            probe.can_measure()
        } else {
            true
        }
    } else {
        true
    }
}

fn copy_opt_string(s: &Option<String>) -> (r: Option<String>)
    ensures
        r.deep_view() == s.deep_view(),
{
    match s {
        Some(x) => Some(x.clone()),
        None => None,
    }
}

fn opt_as_str(s: &Option<String>) -> (r: Option<&str>)
    ensures
        opt_str_view(r) == s.deep_view(),
{
    match s {
        Some(x) => Some(x.as_str()),
        None => None,
    }
}

/// Decides what one input event from a grabbed pointing device does: updates the
/// recognizer and lists the effects, in order, for the caller to perform.
pub fn handle_event(
    ev: InputEvent,
    state: &mut GestureState,
    gestures: &[Gesture],
    global_enabled: bool,
    focus: FocusSnapshot,
) -> (effects: Vec<Effect>)
    requires
        event_admissible(old(state)@, ev),
    ensures
        (final(state)@, effects.deep_view()) == handled(
            old(state)@,
            ev,
            gestures.deep_view(),
            global_enabled,
            focus.0.deep_view(),
            focus.1,
            focus.2,
        ),
{
    let key = key_event_type();
    let rel = rel_event_type();
    let right = btn_right_code();
    let rx = rel_x_code();
    let ry = rel_y_code();
    let mut out: Vec<Effect> = Vec::new();
    if ev.kind == key && ev.code == right {
        if ev.value == 1 {
            let (app, fullscreen, cursor_inside) = focus;
            if !global_enabled || fullscreen || !cursor_inside || !has_gestures_for_app(
                gestures,
                opt_as_str(&app),
            ) {
                state.bypass = true;
                out.push(Effect::Mouse(ev));
                proof {
                    assert(out.deep_view() =~= seq![EffectView::Mouse(ev)]);
                }
                return out;
            }
            state.start(app);
            proof {
                assert(out.deep_view() =~= Seq::<EffectView>::empty());
            }
            out
        } else if ev.value == 0 {
            if state.bypass {
                state.bypass = false;
                out.push(Effect::Mouse(ev));
                proof {
                    assert(out.deep_view() =~= seq![EffectView::Mouse(ev)]);
                }
                return out;
            }
            let moved = state.overlay_started;
            let app = copy_opt_string(&state.app_id);
            let matched = state.finish();
            if moved {
                out.push(Effect::Overlay(Cmd::Finish));
            }
            let ghost closing = out.deep_view();
            let picked_keys: Option<Vec<Key>> = match &matched {
                Some(p) => pick(gestures, p.as_str(), opt_as_str(&app)),
                None => None,
            };
            match picked_keys {
                Some(keys) => {
                    out.push(Effect::Shortcut(keys));
                },
                None => {
                    if !moved {
                        out.push(Effect::Mouse(InputEvent { kind: key, code: right, value: 1 }));
                        out.push(Effect::Mouse(ev));
                    }
                },
            }
            proof {
                let chord = match matched.deep_view() {
                    Some(p) => picked(gestures.deep_view(), p, old(state)@.app_id),
                    None => None,
                };
                let tail = match chord {
                    Some(k) => seq![EffectView::Shortcut(k)],
                    None => if !moved {
                        seq![EffectView::Mouse(right_press()), EffectView::Mouse(ev)]
                    } else {
                        Seq::empty()
                    },
                };
                assert(out.deep_view() =~= closing + tail);
            }
            out
        } else {
            out.push(Effect::Mouse(ev));
            proof {
                assert(out.deep_view() =~= seq![EffectView::Mouse(ev)]);
            }
            out
        }
    } else if ev.kind == rel && state.active {
        let mut dx: i32 = 0;
        let mut dy: i32 = 0;
        let is_motion = ev.code == rx || ev.code == ry;
        if ev.code == rx {
            dx = ev.value;
            state.feed(dx, 0);
        } else if ev.code == ry {
            dy = ev.value;
            state.feed(0, dy);
        }
        let ghost m1 = state@;
        let mut opened = false;
        if dx != 0 || dy != 0 {
            if !state.overlay_started && state.moved_enough() {
                state.overlay_started = true;
                opened = true;
                out.push(Effect::Overlay(Cmd::Start));
            }
            let ghost first = out.deep_view();
            if state.overlay_started {
                out.push(Effect::Overlay(Cmd::Move(dx, dy)));
            }
            let ghost trail = out.deep_view().subrange(first.len() as int, out.deep_view().len() as int);
            proof {
                assert(out.deep_view() =~= first + trail);
            }
        }
        out.push(Effect::Mouse(ev));
        proof {
            if is_motion && ev.value != 0 {
                let opens = !m1.overlay_started && travelled_enough(m1);
                assert(opens == opened);
                let first: Seq<EffectView> = if opens {
                    seq![EffectView::Overlay(Cmd::Start)]
                } else {
                    Seq::empty()
                };
                let trail: Seq<EffectView> = if state@.overlay_started {
                    seq![EffectView::Overlay(Cmd::Move(dx, dy))]
                } else {
                    Seq::empty()
                };
                assert(out.deep_view() =~= first + trail + seq![EffectView::Mouse(ev)]);
            } else {
                assert(out.deep_view() =~= seq![EffectView::Mouse(ev)]);
            }
        }
        out
    } else {
        out.push(Effect::Mouse(ev));
        proof {
            assert(out.deep_view() =~= seq![EffectView::Mouse(ev)]);
        }
        out
    }
}

/// The right button comes up.
pub open spec fn right_release() -> InputEvent {
    InputEvent { kind: ev_key(), code: btn_right(), value: 0 }
}

/// Law: a right press that is bypassed (gestures off, a fullscreen window, the cursor outside
/// the focused window, or no gesture for its app) reaches the system unchanged, and so does
/// the release that follows, whatever the focus is by then; no keys are sent for it.
pub proof fn lemma_bypassed_click_passes_through(
    m: GestureModel,
    gs: Seq<GestureView>,
    enabled: bool,
    app: Option<Seq<char>>,
    fullscreen: bool,
    inside: bool,
    app2: Option<Seq<char>>,
    fullscreen2: bool,
    inside2: bool,
)
    requires
        !enabled || fullscreen || !inside || !has_gestures_spec(gs, app),
    ensures
        handled(m, right_press(), gs, enabled, app, fullscreen, inside).1 == seq![
            EffectView::Mouse(right_press()),
        ],
        handled(
            handled(m, right_press(), gs, enabled, app, fullscreen, inside).0,
            right_release(),
            gs,
            enabled,
            app2,
            fullscreen2,
            inside2,
        ) == (GestureModel { bypass: false, ..m }, seq![EffectView::Mouse(right_release())]),
{
}

/// Law: a right click on a window with gestures, with no motion between press and release,
/// still reaches the app as a whole right click (press then release), and the stroke ends.
pub proof fn lemma_still_click_is_replayed(
    m: GestureModel,
    gs: Seq<GestureView>,
    enabled: bool,
    app: Option<Seq<char>>,
    fullscreen: bool,
    inside: bool,
    app2: Option<Seq<char>>,
    fullscreen2: bool,
    inside2: bool,
)
    requires
        !m.bypass,
        enabled && !fullscreen && inside && has_gestures_spec(gs, app),
    ensures
        handled(m, right_press(), gs, enabled, app, fullscreen, inside).1 == Seq::<EffectView>::empty(),
        handled(
            handled(m, right_press(), gs, enabled, app, fullscreen, inside).0,
            right_release(),
            gs,
            enabled,
            app2,
            fullscreen2,
            inside2,
        ).1 == seq![EffectView::Mouse(right_press()), EffectView::Mouse(right_release())],
        !handled(
            handled(m, right_press(), gs, enabled, app, fullscreen, inside).0,
            right_release(),
            gs,
            enabled,
            app2,
            fullscreen2,
            inside2,
        ).0.active,
{
    let m1 = started(m, app);
    assert(!travelled_enough(m1));
    assert(seq![EffectView::Mouse(right_press()), EffectView::Mouse(right_release())] =~= Seq::<
        EffectView,
    >::empty() + seq![EffectView::Mouse(right_press()), EffectView::Mouse(right_release())]);
}

/// Law: every event other than the right button is replayed through the virtual mouse,
/// exactly once and as the last effect, and never makes keys be sent.
pub proof fn lemma_other_events_replayed(
    m: GestureModel,
    ev: InputEvent,
    gs: Seq<GestureView>,
    enabled: bool,
    app: Option<Seq<char>>,
    fullscreen: bool,
    inside: bool,
)
    requires
        !(ev.kind == ev_key() && ev.code == btn_right()),
    ensures
        ({
            let fx = handled(m, ev, gs, enabled, app, fullscreen, inside).1;
            &&& fx.len() > 0
            &&& fx.last() == EffectView::Mouse(ev)
            &&& forall|i: int| 0 <= i < fx.len() ==> !(#[trigger] fx[i] is Shortcut)
            &&& forall|i: int| 0 <= i < fx.len() - 1 ==> !(#[trigger] fx[i] is Mouse)
        }),
{
}

/// Law: the trail is opened at most once per stroke and before it moves: an event sends
/// `Start` only when the overlay was not shown yet, and marks it shown; it sends `Move` only
/// when the overlay is shown after the event, and never before a `Start` of the same event.
pub proof fn lemma_overlay_start_once(
    m: GestureModel,
    ev: InputEvent,
    gs: Seq<GestureView>,
    enabled: bool,
    app: Option<Seq<char>>,
    fullscreen: bool,
    inside: bool,
)
    ensures
        ({
            let (m2, fx) = handled(m, ev, gs, enabled, app, fullscreen, inside);
            &&& forall|i: int|
                0 <= i < fx.len() && #[trigger] fx[i] == EffectView::Overlay(Cmd::Start)
                    ==> !m.overlay_started && m2.overlay_started
            &&& forall|i: int|
                0 <= i < fx.len() && (#[trigger] fx[i] matches EffectView::Overlay(Cmd::Move(_, _)))
                    ==> m2.overlay_started
            &&& forall|i: int, j: int|
                0 <= i < fx.len() && 0 <= j < fx.len() && #[trigger] fx[i] == EffectView::Overlay(
                    Cmd::Start,
                ) && (#[trigger] fx[j] matches EffectView::Overlay(Cmd::Move(_, _))) ==> i < j
        }),
{
}

/// Law: releasing the right button at the end of a stroke closes the trail exactly when the
/// trail was opened during that stroke, whether or not the stroke recorded a pattern and
/// whether or not a chord is bound to it; so every `Start` of a stroke is answered by a
/// `Finish` at its release, and a stroke that never opened the trail sends no `Finish`.
pub proof fn lemma_release_closes_trail(
    m: GestureModel,
    gs: Seq<GestureView>,
    enabled: bool,
    app: Option<Seq<char>>,
    fullscreen: bool,
    inside: bool,
)
    requires
        !m.bypass,
    ensures
        ({
            let (m2, fx) = handled(m, right_release(), gs, enabled, app, fullscreen, inside);
            &&& (exists|i: int| 0 <= i < fx.len() && #[trigger] fx[i] == EffectView::Overlay(Cmd::Finish))
                <==> m.overlay_started
            &&& m.overlay_started ==> fx[0] == EffectView::Overlay(Cmd::Finish)
            &&& !m2.active
            &&& m2.overlay_started == m.overlay_started
        }),
{
    let (m2, fx) = handled(m, right_release(), gs, enabled, app, fullscreen, inside);
    if m.overlay_started {
        assert(fx[0] == EffectView::Overlay(Cmd::Finish));
    } else {
        assert forall|i: int| 0 <= i < fx.len() implies #[trigger] fx[i] != EffectView::Overlay(
            Cmd::Finish,
        ) by {}
    }
}

} // verus!
