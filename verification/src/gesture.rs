use vstd::prelude::*;

use crate::config::{Gesture, GestureView};
use crate::keys::Key;
use crate::text::{ascii_lower, chars_of, contains, has_infix, lower_all, same, string_of};

verus! {

/// Squared length, in device units, that the motion since the last recorded direction must
/// reach before a new direction is recorded.
pub const MOVE_THRESHOLD: i32 = 60;

/// Distance from the start of a stroke (|dx| + |dy|) that the pointer must reach before the
/// trail is drawn.
pub const MIN_TOTAL_MOVE: i32 = 20;

/// The stroke recognizer of one right-button press.
pub struct GestureState {
    pub active: bool,
    pub bypass: bool,
    pub overlay_started: bool,
    pub total_dx: i32,
    pub total_dy: i32,
    pub acc_dx: i32,
    pub acc_dy: i32,
    pub pattern: Vec<char>,
    pub last_dir: Option<char>,
    pub app_id: Option<String>,
}

/// The abstract state of a recognizer.
pub struct GestureModel {
    pub active: bool,
    pub bypass: bool,
    pub overlay_started: bool,
    pub total_dx: int,
    pub total_dy: int,
    pub acc_dx: int,
    pub acc_dy: int,
    pub pattern: Seq<char>,
    pub last_dir: Option<char>,
    pub app_id: Option<Seq<char>>,
}

impl GestureState {
    pub open spec fn acc_x(&self) -> int {
        self.acc_dx as int
    }

    pub open spec fn acc_y(&self) -> int {
        self.acc_dy as int
    }

    pub open spec fn pattern_chars(&self) -> Seq<char> {
        self.pattern@
    }

    pub open spec fn last_direction(&self) -> Option<char> {
        self.last_dir
    }
}

impl View for GestureState {
    type V = GestureModel;

    open spec fn view(&self) -> GestureModel {
        GestureModel {
            active: self.active,
            bypass: self.bypass,
            overlay_started: self.overlay_started,
            total_dx: self.total_dx as int,
            total_dy: self.total_dy as int,
            acc_dx: self.acc_x(),
            acc_dy: self.acc_y(),
            pattern: self.pattern_chars(),
            last_dir: self.last_direction(),
            app_id: self.app_id.deep_view(),
        }
    }
}

/// One of the four direction digits of the numpad convention.
pub open spec fn is_direction(c: char) -> bool {
    c == '2' || c == '4' || c == '6' || c == '8'
}

/// Position of a direction on the circle: right, down, left, up (anything else counts as right).
pub open spec fn sector_of(c: char) -> int {
    if c == '6' {
        0
    } else if c == '2' {
        1
    } else if c == '4' {
        2
    } else if c == '8' {
        3
    } else {
        0
    }
}

/// Number of quarter turns between two directions, the shorter way round (0, 1 or 2).
pub open spec fn sector_gap(a: char, b: char) -> int {
    let d = (sector_of(a) - sector_of(b)) % 4;
    if d < 4 - d {
        d
    } else {
        4 - d
    }
}

pub open spec fn abs(x: int) -> int {
    if x < 0 {
        -x
    } else {
        x
    }
}

/// The direction of a motion vector (screen y grows downward): horizontal when
/// |dx| >= |dy|, each direction covering a 90 degree sector.
pub open spec fn classify_dir(dx: int, dy: int) -> char {
    if abs(dx) >= abs(dy) {
        if dx >= 0 {
            '6'
        } else {
            '4'
        }
    } else {
        if dy >= 0 {
            '2'
        } else {
            '8'
        }
    }
}

/// `a * a`, saturated at `i32::MAX`.
pub open spec fn sat_square(a: int) -> int {
    if a * a > i32::MAX {
        i32::MAX as int
    } else {
        a * a
    }
}

/// Feeding (dx, dy) to a recognizer in state `m` overflows none of its counters.
pub open spec fn feed_admissible(m: GestureModel, dx: int, dy: int) -> bool {
    &&& i32::MIN <= m.total_dx + dx <= i32::MAX
    &&& i32::MIN <= m.total_dy + dy <= i32::MAX
    &&& i32::MIN <= m.acc_dx + dx <= i32::MAX
    &&& i32::MIN <= m.acc_dy + dy <= i32::MAX
    &&& sat_square(m.acc_dx + dx) + sat_square(m.acc_dy + dy) <= i32::MAX
}

/// The pattern and last direction after a new direction `dir` was measured: the direction is
/// appended unless it repeats the last one recorded.
pub open spec fn record_dir(pattern: Seq<char>, last: Option<char>, dir: char) -> (
    Seq<char>,
    Option<char>,
) {
    match last {
        None => (pattern.push(dir), Some(dir)),
        Some(prev) => {
            if prev == dir {
                (pattern, last)
            } else if sector_gap(prev, dir) >= 1 {
                (pattern.push(dir), Some(dir))
            } else {
                (pattern, last)
            }
        },
    }
}

/// The recognizer after relative motion (dx, dy).
pub open spec fn fed(m: GestureModel, dx: int, dy: int) -> GestureModel {
    let ax = m.acc_dx + dx;
    let ay = m.acc_dy + dy;
    if sat_square(ax) + sat_square(ay) < MOVE_THRESHOLD * MOVE_THRESHOLD {
        GestureModel { total_dx: m.total_dx + dx, total_dy: m.total_dy + dy, acc_dx: ax, acc_dy: ay, ..m }
    } else {
        let rec = record_dir(m.pattern, m.last_dir, classify_dir(ax, ay));
        GestureModel {
            total_dx: m.total_dx + dx,
            total_dy: m.total_dy + dy,
            acc_dx: 0,
            acc_dy: 0,
            pattern: rec.0,
            last_dir: rec.1,
            ..m
        }
    }
}

/// |total_dx| + |total_dy| can be computed in `i32`.
pub open spec fn travel_admissible(m: GestureModel) -> bool {
    &&& m.total_dx != i32::MIN
    &&& m.total_dy != i32::MIN
    &&& abs(m.total_dx) + abs(m.total_dy) <= i32::MAX
}

/// The stroke has gone far enough from its start for the trail to be drawn.
pub open spec fn travelled_enough(m: GestureModel) -> bool {
    abs(m.total_dx) + abs(m.total_dy) >= MIN_TOTAL_MOVE
}

/// Ending a stroke: the recognizer goes inactive; when the stroke recorded a direction, its
/// pattern is handed out and the recognizer's pattern is emptied; a stroke that recorded none
/// is a plain click, and nothing is handed out. (Each recorded direction took a motion of at
/// least `MOVE_THRESHOLD`, so a stroke with a pattern has always travelled, along its path,
/// more than `MIN_TOTAL_MOVE`, even when it came back to where it started.)
pub open spec fn finished(m: GestureModel) -> (GestureModel, Option<Seq<char>>) {
    if m.pattern.len() == 0 {
        (GestureModel { active: false, ..m }, None)
    } else {
        (GestureModel { active: false, pattern: Seq::empty(), ..m }, Some(m.pattern))
    }
}

/// Starting a stroke for the app.
pub open spec fn started(m: GestureModel, app: Option<Seq<char>>) -> GestureModel {
    GestureModel {
        active: true,
        overlay_started: false,
        total_dx: 0,
        total_dy: 0,
        acc_dx: 0,
        acc_dy: 0,
        pattern: Seq::empty(),
        last_dir: None,
        app_id: app,
        ..m
    }
}

/// A well-formed pattern: direction digits only, never the same direction twice in a row.
pub open spec fn valid_pattern(p: Seq<char>) -> bool {
    &&& forall|i: int| 0 <= i < p.len() ==> is_direction(#[trigger] p[i])
    &&& forall|i: int| 0 <= i < p.len() - 1 ==> #[trigger] p[i] != p[i + 1]
}

/// What every recognizer state keeps: a well-formed pattern whose last entry is the last
/// recorded direction.
pub open spec fn recognizer_inv(m: GestureModel) -> bool {
    &&& valid_pattern(m.pattern)
    &&& (m.last_dir matches Some(d) ==> is_direction(d))
    &&& (m.pattern.len() > 0 ==> m.last_dir == Some(m.pattern.last()))
}

/// The fresh recognizer.
pub open spec fn idle_model() -> GestureModel {
    GestureModel {
        active: false,
        bypass: false,
        overlay_started: false,
        total_dx: 0,
        total_dy: 0,
        acc_dx: 0,
        acc_dy: 0,
        pattern: Seq::empty(),
        last_dir: None,
        app_id: None,
    }
}

/// Quantizes a motion vector into one of the four direction digits.
fn classify(dx: i32, dy: i32) -> (c: char)
    ensures
        c == classify_dir(dx as int, dy as int),
{
    let ax: i64 = if dx < 0 {
        -(dx as i64)
    } else {
        dx as i64
    };
    let ay: i64 = if dy < 0 {
        -(dy as i64)
    } else {
        dy as i64
    };
    if ax >= ay {
        if dx >= 0 {
            '6'
        } else {
            '4'
        }
    } else {
        if dy >= 0 {
            '2'
        } else {
            '8'
        }
    }
}

fn sector_index(c: char) -> (r: u32)
    ensures
        r == sector_of(c),
{
    match c {
        '6' => 0,
        '2' => 1,
        '4' => 2,
        '8' => 3,
        _ => 0,
    }
}

/// Shorter-way distance, in quarter turns, between two directions.
fn sector_distance(a: char, b: char) -> (r: u32)
    ensures
        r == sector_gap(a, b),
        r <= 2,
{
    let ia = sector_index(a);
    let ib = sector_index(b);
    let diff: i32 = ia as i32 - ib as i32;
    let d: u32 = if diff < 0 {
        (diff + 4) as u32
    } else {
        diff as u32
    };
    assert(d as int == (sector_of(a) - sector_of(b)) % 4);
    if d < 4 - d {
        d
    } else {
        4 - d
    }
}

/// `a * a` saturated at `i32::MAX` (std's `saturating_mul` of a value with itself).
fn saturating_square(a: i32) -> (r: i32)
    ensures
        r == sat_square(a as int),
        r >= 0,
{
    let w: i64 = a as i64;
    assert(0 <= w * w <= 0x4000_0000_0000_0000) by (nonlinear_arith)
        requires
            -0x8000_0000 <= w <= 0x7fff_ffff,
    ;
    let p: i64 = w * w;
    if p > 0x7fff_ffff {
        i32::MAX
    } else {
        p as i32
    }
}

impl Default for GestureState {
    fn default() -> (s: Self)
        ensures
            s@ == idle_model(),
    {
        GestureState {
            active: false,
            bypass: false,
            overlay_started: false,
            total_dx: 0,
            total_dy: 0,
            acc_dx: 0,
            acc_dy: 0,
            pattern: Vec::new(),
            last_dir: None,
            app_id: None,
        }
    }
}

impl GestureState {
    /// An idle recognizer.
    pub fn new() -> (s: Self)
        ensures
            s@ == idle_model(),
            recognizer_inv(s@),
    {
        Self::default()
    }

    /// Starts a stroke for the focused app: clears totals, accumulators and pattern.
    /// `bypass` is left as it was.
    pub fn start(&mut self, app_id: Option<String>)
        ensures
            final(self)@ == started(old(self)@, app_id.deep_view()),
            recognizer_inv(final(self)@),
    {
        self.active = true;
        self.overlay_started = false;
        self.total_dx = 0;
        self.total_dy = 0;
        self.acc_dx = 0;
        self.acc_dy = 0;
        self.pattern.clear();
        self.last_dir = None;
        self.app_id = app_id;
    }

    /// Whether `feed(dx, dy)` keeps every counter in range.
    pub fn can_feed(&self, dx: i32, dy: i32) -> (b: bool)
        ensures
            b == feed_admissible(self@, dx as int, dy as int),
    {
        let tx: i64 = self.total_dx as i64 + dx as i64;
        let ty: i64 = self.total_dy as i64 + dy as i64;
        let ax: i64 = self.acc_dx as i64 + dx as i64;
        let ay: i64 = self.acc_dy as i64 + dy as i64;
        if tx < i32::MIN as i64 || tx > i32::MAX as i64 || ty < i32::MIN as i64 || ty
            > i32::MAX as i64 || ax < i32::MIN as i64 || ax > i32::MAX as i64 || ay
            < i32::MIN as i64 || ay > i32::MAX as i64 {
            return false;
        }
        let sx = saturating_square(ax as i32);
        let sy = saturating_square(ay as i32);
        (sx as i64) + (sy as i64) <= i32::MAX as i64
    }

    /// Adds relative motion. Once the motion since the last recorded direction is long
    /// enough, its direction is recorded (unless it repeats the last one) and the
    /// accumulator restarts.
    pub fn feed(&mut self, dx: i32, dy: i32)
        requires
            feed_admissible(old(self)@, dx as int, dy as int),
        ensures
            final(self)@ == fed(old(self)@, dx as int, dy as int),
            recognizer_inv(old(self)@) ==> recognizer_inv(final(self)@),
    {
        let ghost m = self@;
        self.total_dx = self.total_dx + dx;
        self.total_dy = self.total_dy + dy;
        self.acc_dx = self.acc_dx + dx;
        self.acc_dy = self.acc_dy + dy;
        let sx = saturating_square(self.acc_dx);
        let sy = saturating_square(self.acc_dy);
        assert(self.acc_dx == m.acc_dx + dx && self.acc_dy == m.acc_dy + dy);
        let mag2: i32 = sx + sy;
        if mag2 < MOVE_THRESHOLD * MOVE_THRESHOLD {
            return;
        }
        let dir = classify(self.acc_dx, self.acc_dy);
        match self.last_dir {
            None => {
                self.pattern.push(dir);
                self.last_dir = Some(dir);
            },
            Some(prev) => {
                if prev == dir {
                } else if sector_distance(prev, dir) >= 1 {
                    self.pattern.push(dir);
                    self.last_dir = Some(dir);
                }
            },
        }
        self.acc_dx = 0;
        self.acc_dy = 0;
        proof {
            lemma_fed_step(m, dx as int, dy as int);
        }
    }

    /// Whether |total_dx| + |total_dy| can be computed.
    pub fn can_measure(&self) -> (b: bool)
        ensures
            b == travel_admissible(self@),
    {
        if self.total_dx == i32::MIN || self.total_dy == i32::MIN {
            return false;
        }
        let ax: i64 = if self.total_dx < 0 {
            -(self.total_dx as i64)
        } else {
            self.total_dx as i64
        };
        let ay: i64 = if self.total_dy < 0 {
            -(self.total_dy as i64)
        } else {
            self.total_dy as i64
        };
        ax + ay <= i32::MAX as i64
    }

    fn travel(&self) -> (t: i32)
        requires
            travel_admissible(self@),
        ensures
            t == abs(self.total_dx as int) + abs(self.total_dy as int),
    {
        let ax: i32 = if self.total_dx < 0 {
            -self.total_dx
        } else {
            self.total_dx
        };
        let ay: i32 = if self.total_dy < 0 {
            -self.total_dy
        } else {
            self.total_dy
        };
        ax + ay
    }

    /// Ends the stroke. Gives the recorded pattern (and leaves the recognizer's pattern empty)
    /// when the stroke recorded at least one direction; else `None`, a plain click.
    pub fn finish(&mut self) -> (r: Option<String>)
        ensures
            (final(self)@, r.deep_view()) == finished(old(self)@),
            recognizer_inv(old(self)@) ==> recognizer_inv(final(self)@),
            recognizer_inv(old(self)@) ==> (r matches Some(p) ==> valid_pattern(p@)),
    {
        self.active = false;
        if self.pattern.len() == 0 {
            None
        } else {
            let s = string_of(self.pattern.as_slice());
            self.pattern = Vec::new();
            Some(s)
        }
    }

    /// The stroke has travelled at least `MIN_TOTAL_MOVE`.
    pub fn moved_enough(&self) -> (b: bool)
        requires
            travel_admissible(self@),
        ensures
            b == travelled_enough(self@),
    {
        self.travel() >= MIN_TOTAL_MOVE
    }
}

/// Some configured app name, lower-cased, occurs in the lower-cased app id.
pub open spec fn app_matches(apps: Seq<Seq<char>>, app: Option<Seq<char>>) -> bool {
    match app {
        Some(a) => exists|j: int|
            0 <= j < apps.len() && has_infix(ascii_lower(a), ascii_lower(#[trigger] apps[j])),
        None => false,
    }
}

/// An enabled gesture that applies to the app: global (no apps) or naming it.
pub open spec fn serves_app(g: GestureView, app: Option<Seq<char>>) -> bool {
    g.enabled && (g.apps.len() == 0 || app_matches(g.apps, app))
}

/// Some gesture applies to the app.
pub open spec fn has_gestures_spec(gs: Seq<GestureView>, app: Option<Seq<char>>) -> bool {
    exists|i: int| 0 <= i < gs.len() && serves_app(#[trigger] gs[i], app)
}

/// An enabled gesture for the pattern that names the app.
pub open spec fn specific_match(g: GestureView, p: Seq<char>, app: Option<Seq<char>>) -> bool {
    g.enabled && g.pattern == p && g.apps.len() > 0 && app_matches(g.apps, app)
}

/// An enabled global gesture for the pattern.
pub open spec fn global_match(g: GestureView, p: Seq<char>) -> bool {
    g.enabled && g.pattern == p && g.apps.len() == 0
}

pub open spec fn is_first_specific(
    gs: Seq<GestureView>,
    p: Seq<char>,
    app: Option<Seq<char>>,
    i: int,
) -> bool {
    &&& 0 <= i < gs.len()
    &&& specific_match(gs[i], p, app)
    &&& forall|j: int| 0 <= j < i ==> !specific_match(#[trigger] gs[j], p, app)
}

pub open spec fn is_first_global(gs: Seq<GestureView>, p: Seq<char>, i: int) -> bool {
    &&& 0 <= i < gs.len()
    &&& global_match(gs[i], p)
    &&& forall|j: int| 0 <= j < i ==> !global_match(#[trigger] gs[j], p)
}

/// The chord bound to pattern `p` for the app: the first app-specific gesture wins,
/// else the first global one, else none.
pub open spec fn picked(gs: Seq<GestureView>, p: Seq<char>, app: Option<Seq<char>>) -> Option<
    Seq<Key>,
> {
    if exists|i: int| is_first_specific(gs, p, app, i) {
        Some(gs[choose|i: int| is_first_specific(gs, p, app, i)].keys)
    } else if exists|i: int| is_first_global(gs, p, i) {
        Some(gs[choose|i: int| is_first_global(gs, p, i)].keys)
    } else {
        None
    }
}

pub open spec fn opt_str_view(app: Option<&str>) -> Option<Seq<char>> {
    match app {
        Some(a) => Some(a@),
        None => None,
    }
}

fn lower_app(app_id: Option<&str>) -> (r: Option<Vec<char>>)
    ensures
        match opt_str_view(app_id) {
            Some(a) => r is Some && r->Some_0@ == ascii_lower(a),
            None => r is None,
        },
{
    match app_id {
        Some(a) => {
            let c = chars_of(a);
            Some(lower_all(c.as_slice()))
        },
        None => None,
    }
}

/// Whether one of `apps`, lower-cased, occurs in `app_lower`.
fn any_app_in(apps: &Vec<String>, app_lower: &Vec<char>) -> (r: bool)
    ensures
        r == exists|j: int|
            0 <= j < apps.deep_view().len() && has_infix(
                app_lower@,
                ascii_lower(#[trigger] apps.deep_view()[j]),
            ),
{
    let n = apps.len();
    for j in 0..n
        invariant
            n == apps.deep_view().len(),
            forall|k: int|
                0 <= k < j ==> !has_infix(app_lower@, ascii_lower(#[trigger] apps.deep_view()[k])),
    {
        let a = chars_of(apps[j].as_str());
        let la = lower_all(a.as_slice());
        if contains(app_lower.as_slice(), la.as_slice()) {
            assert(has_infix(app_lower@, ascii_lower(apps.deep_view()[j as int])));
            return true;
        }
    }
    false
}

fn app_is_named(apps: &Vec<String>, app_lower: &Option<Vec<char>>, app: Ghost<Option<Seq<char>>>) -> (r: bool)
    requires
        match app@ {
            Some(a) => app_lower is Some && app_lower->Some_0@ == ascii_lower(a),
            None => app_lower is None,
        },
    ensures
        r == app_matches(apps.deep_view(), app@),
{
    match app_lower {
        Some(al) => any_app_in(apps, al),
        None => false,
    }
}

fn copy_keys(v: &Vec<Key>) -> (r: Vec<Key>)
    ensures
        r@ == v@,
{
    let mut r: Vec<Key> = Vec::new();
    let n = v.len();
    for i in 0..n
        invariant
            n == v@.len(),
            r@ == v@.take(i as int),
    {
        r.push(v[i]);
        assert(r@ =~= v@.take(i + 1));
    }
    assert(v@.take(n as int) =~= v@);
    r
}

/// Whether some enabled gesture applies to the focused app (a global one, or one whose
/// group names the app). When none does, a right click passes through untouched.
pub fn has_gestures_for_app(gestures: &[Gesture], app_id: Option<&str>) -> (r: bool)
    ensures
        r == has_gestures_spec(gestures.deep_view(), opt_str_view(app_id)),
{
    let app_lower = lower_app(app_id);
    let ghost app = opt_str_view(app_id);
    let ghost gs = gestures.deep_view();
    let n = gestures.len();
    for i in 0..n
        invariant
            n == gs.len(),
            gs == gestures.deep_view(),
            app == opt_str_view(app_id),
            match app {
                Some(a) => app_lower is Some && app_lower->Some_0@ == ascii_lower(a),
                None => app_lower is None,
            },
            forall|k: int| 0 <= k < i ==> !serves_app(#[trigger] gs[k], app),
    {
        let g = &gestures[i];
        assert(g.deep_view() == gs[i as int]);
        if g.enabled {
            if g.apps.len() == 0 {
                assert(serves_app(gs[i as int], app));
                return true;
            }
            if app_is_named(&g.apps, &app_lower, Ghost(app)) {
                assert(serves_app(gs[i as int], app));
                return true;
            }
        }
    }
    false
}

/// The key chord bound to `pattern` for the focused app: the first enabled gesture of a
/// group that names the app wins; else the first enabled global gesture; else none.
pub fn pick(gestures: &[Gesture], pattern: &str, app_id: Option<&str>) -> (r: Option<Vec<Key>>)
    ensures
        match picked(gestures.deep_view(), pattern@, opt_str_view(app_id)) {
            Some(k) => r is Some && r->Some_0@ == k,
            None => r is None,
        },
{
    let app_lower = lower_app(app_id);
    let pat = chars_of(pattern);
    let ghost app = opt_str_view(app_id);
    let ghost gs = gestures.deep_view();
    let ghost p = pattern@;
    let n = gestures.len();
    for i in 0..n
        invariant
            n == gs.len(),
            gs == gestures.deep_view(),
            app == opt_str_view(app_id),
            p == pattern@,
            pat@ == p,
            match app {
                Some(a) => app_lower is Some && app_lower->Some_0@ == ascii_lower(a),
                None => app_lower is None,
            },
            forall|k: int| 0 <= k < i ==> !specific_match(#[trigger] gs[k], p, app),
    {
        let g = &gestures[i];
        assert(g.deep_view() == gs[i as int]);
        let gp = chars_of(g.pattern.as_str());
        if g.enabled && same(gp.as_slice(), pat.as_slice()) && g.apps.len() != 0 && app_is_named(
            &g.apps,
            &app_lower,
            Ghost(app),
        ) {
            assert(is_first_specific(gs, p, app, i as int));
            proof {
                let c = choose|c: int| is_first_specific(gs, p, app, c);
                if c < i {
                } else if c > i {
                }
            }
            return Some(copy_keys(&g.keys));
        }
    }
    assert(!exists|c: int| is_first_specific(gs, p, app, c));
    for i in 0..n
        invariant
            n == gs.len(),
            gs == gestures.deep_view(),
            app == opt_str_view(app_id),
            p == pattern@,
            pat@ == p,
            !exists|c: int| is_first_specific(gs, p, app, c),
            forall|k: int| 0 <= k < i ==> !global_match(#[trigger] gs[k], p),
    {
        let g = &gestures[i];
        assert(g.deep_view() == gs[i as int]);
        let gp = chars_of(g.pattern.as_str());
        if g.enabled && same(gp.as_slice(), pat.as_slice()) && g.apps.len() == 0 {
            assert(is_first_global(gs, p, i as int));
            proof {
                let c = choose|c: int| is_first_global(gs, p, c);
            }
            return Some(copy_keys(&g.keys));
        }
    }
    assert(!exists|c: int| is_first_global(gs, p, c));
    None
}

/// Law: when no gesture applies to an app, no pattern is bound for it, so a stroke in that
/// app never sends keys (which is why the daemon can let its right clicks pass).
pub proof fn lemma_no_gestures_no_binding(
    gs: Seq<GestureView>,
    p: Seq<char>,
    app: Option<Seq<char>>,
)
    requires
        !has_gestures_spec(gs, app),
    ensures
        picked(gs, p, app) is None,
{
    if exists|i: int| is_first_specific(gs, p, app, i) {
        let i = choose|i: int| is_first_specific(gs, p, app, i);
        assert(serves_app(gs[i], app));
    }
    if exists|i: int| is_first_global(gs, p, i) {
        let i = choose|i: int| is_first_global(gs, p, i);
        assert(serves_app(gs[i], app));
    }
}

/// Law: a bound chord always comes from an enabled gesture for that exact pattern that
/// applies to the app.
pub proof fn lemma_binding_serves_app(gs: Seq<GestureView>, p: Seq<char>, app: Option<Seq<char>>)
    requires
        picked(gs, p, app) is Some,
    ensures
        exists|i: int|
            0 <= i < gs.len() && (#[trigger] gs[i]).pattern == p && serves_app(gs[i], app)
                && gs[i].keys == picked(gs, p, app)->Some_0,
{
    if exists|i: int| is_first_specific(gs, p, app, i) {
        let i = choose|i: int| is_first_specific(gs, p, app, i);
        assert(serves_app(gs[i], app));
    } else {
        let i = choose|i: int| is_first_global(gs, p, i);
        assert(serves_app(gs[i], app));
    }
}

/// Law: the distance between two directions is symmetric, lies between 0 and 2, is 0 exactly
/// for the same direction, and is 2 exactly for opposite directions.
pub proof fn lemma_sector_gap(a: char, b: char)
    requires
        is_direction(a),
        is_direction(b),
    ensures
        sector_gap(a, b) == sector_gap(b, a),
        0 <= sector_gap(a, b) <= 2,
        sector_gap(a, b) == 0 <==> a == b,
        sector_gap(a, b) == 2 <==> ((a == '6' && b == '4') || (a == '4' && b == '6') || (a == '2'
            && b == '8') || (a == '8' && b == '2')),
{
}

/// Law: every motion vector falls in exactly one of the four direction sectors.
pub proof fn lemma_classify_is_direction(dx: int, dy: int)
    ensures
        is_direction(classify_dir(dx, dy)),
        classify_dir(dx, dy) == '6' <==> (abs(dx) >= abs(dy) && dx >= 0),
        classify_dir(dx, dy) == '4' <==> (abs(dx) >= abs(dy) && dx < 0),
        classify_dir(dx, dy) == '2' <==> (abs(dx) < abs(dy) && dy >= 0),
        classify_dir(dx, dy) == '8' <==> (abs(dx) < abs(dy) && dy < 0),
{
}

/// Law: a stroke is a plain click exactly when it recorded no direction; a finished stroke
/// is inactive, keeps its totals, switches, overlay flag and app, and a second finish hands
/// out nothing.
pub proof fn lemma_click_iff_no_direction(m: GestureModel)
    ensures
        finished(m).1 is None <==> m.pattern.len() == 0,
        finished(m).1 matches Some(p) ==> p == m.pattern && p.len() > 0,
        !finished(m).0.active,
        finished(m).0.total_dx == m.total_dx && finished(m).0.total_dy == m.total_dy,
        finished(m).0.bypass == m.bypass && finished(m).0.overlay_started == m.overlay_started,
        finished(m).0.app_id == m.app_id,
        finished(finished(m).0).1 is None,
{
}

/// The recognizer after the relative motions `moves`, in order.
pub open spec fn fed_all(m: GestureModel, moves: Seq<(int, int)>) -> GestureModel
    decreases moves.len(),
{
    if moves.len() == 0 {
        m
    } else {
        let prev = fed_all(m, moves.drop_last());
        fed(prev, moves.last().0, moves.last().1)
    }
}

/// One motion records at most one direction, and keeps the recognizer well formed.
pub proof fn lemma_fed_step(m: GestureModel, dx: int, dy: int)
    ensures
        fed(m, dx, dy).pattern.len() <= m.pattern.len() + 1,
        recognizer_inv(m) ==> recognizer_inv(fed(m, dx, dy)),
{
    let n = fed(m, dx, dy);
    let p = n.pattern;
    if recognizer_inv(m) && p.len() > m.pattern.len() {
        let dir = classify_dir(m.acc_dx + dx, m.acc_dy + dy);
        assert(p == m.pattern.push(dir));
        assert forall|i: int| 0 <= i < p.len() - 1 implies #[trigger] p[i] != p[i + 1] by {
            if i < p.len() - 2 {
                assert(p[i] == m.pattern[i] && p[i + 1] == m.pattern[i + 1]);
            }
        }
    }
}

/// Law: a stroke records at most one direction per motion event, and what it hands out when
/// it ends is a non-empty pattern of direction digits with no direction twice in a row.
pub proof fn lemma_stroke_pattern(m: GestureModel, app: Option<Seq<char>>, moves: Seq<(int, int)>)
    ensures
        recognizer_inv(fed_all(started(m, app), moves)),
        fed_all(started(m, app), moves).pattern.len() <= moves.len(),
        finished(fed_all(started(m, app), moves)).1 matches Some(p) ==> p.len() > 0 && p.len()
            <= moves.len() && valid_pattern(p),
    decreases moves.len(),
{
    if moves.len() > 0 {
        lemma_stroke_pattern(m, app, moves.drop_last());
        lemma_fed_step(fed_all(started(m, app), moves.drop_last()), moves.last().0, moves.last().1);
    }
}

proof fn lemma_first_specific_exists(gs: Seq<GestureView>, p: Seq<char>, app: Option<Seq<char>>, j: int)
    requires
        0 <= j < gs.len(),
        specific_match(gs[j], p, app),
    ensures
        exists|i: int| is_first_specific(gs, p, app, i),
    decreases j,
{
    if exists|k: int| 0 <= k < j && specific_match(#[trigger] gs[k], p, app) {
        let k = choose|k: int| 0 <= k < j && specific_match(#[trigger] gs[k], p, app);
        lemma_first_specific_exists(gs, p, app, k);
    } else {
        assert(is_first_specific(gs, p, app, j));
    }
}

/// Law: a gesture of a group that names the app overrides a global gesture with the same
/// pattern: when some enabled app-specific gesture has the pattern, the chord comes from the
/// first such gesture, whatever global gestures say.
pub proof fn lemma_app_group_overrides_global(
    gs: Seq<GestureView>,
    p: Seq<char>,
    app: Option<Seq<char>>,
    j: int,
)
    requires
        0 <= j < gs.len(),
        specific_match(gs[j], p, app),
    ensures
        exists|i: int|
            is_first_specific(gs, p, app, i) && picked(gs, p, app) == Some(gs[i].keys),
{
    lemma_first_specific_exists(gs, p, app, j);
    let i = choose|i: int| is_first_specific(gs, p, app, i);
    assert(is_first_specific(gs, p, app, i) && picked(gs, p, app) == Some(gs[i].keys));
}

/// Law: app names are matched without regard to ASCII letter case, on both sides.
pub proof fn lemma_app_match_ignores_case(
    apps1: Seq<Seq<char>>,
    apps2: Seq<Seq<char>>,
    a: Seq<char>,
    b: Seq<char>,
)
    requires
        ascii_lower(a) == ascii_lower(b),
        apps1.len() == apps2.len(),
        forall|j: int| 0 <= j < apps1.len() ==> ascii_lower(#[trigger] apps1[j]) == ascii_lower(apps2[j]),
    ensures
        app_matches(apps1, Some(a)) == app_matches(apps2, Some(b)),
{
    if app_matches(apps1, Some(a)) {
        let j = choose|j: int|
            0 <= j < apps1.len() && has_infix(ascii_lower(a), ascii_lower(#[trigger] apps1[j]));
        assert(has_infix(ascii_lower(b), ascii_lower(apps2[j])));
    }
    if app_matches(apps2, Some(b)) {
        let j = choose|j: int|
            0 <= j < apps2.len() && has_infix(ascii_lower(b), ascii_lower(#[trigger] apps2[j]));
        assert(ascii_lower(apps1[j]) == ascii_lower(apps2[j]));
        assert(has_infix(ascii_lower(a), ascii_lower(apps1[j])));
    }
}

/// Two recognizers that agree on everything a motion and the end of a stroke look at.
pub open spec fn same_stroke_state(a: GestureModel, b: GestureModel) -> bool {
    &&& a.total_dx == b.total_dx
    &&& a.total_dy == b.total_dy
    &&& a.acc_dx == b.acc_dx
    &&& a.acc_dy == b.acc_dy
    &&& a.pattern == b.pattern
    &&& a.last_dir == b.last_dir
}

proof fn lemma_same_stroke_fed(a: GestureModel, b: GestureModel, moves: Seq<(int, int)>)
    requires
        same_stroke_state(a, b),
    ensures
        same_stroke_state(fed_all(a, moves), fed_all(b, moves)),
    decreases moves.len(),
{
    if moves.len() > 0 {
        lemma_same_stroke_fed(a, b, moves.drop_last());
    }
}

/// Law: a stroke's outcome depends only on its own motions: whatever state the recognizer
/// was in before (a previous stroke's pattern, last direction, totals, trail), starting a
/// stroke and feeding it the same motions hands out the same pattern, with the same totals.
/// So drawing the same stroke twice gives the same gesture twice.
pub proof fn lemma_stroke_ignores_history(
    m1: GestureModel,
    m2: GestureModel,
    app: Option<Seq<char>>,
    moves: Seq<(int, int)>,
)
    ensures
        finished(fed_all(started(m1, app), moves)).1 == finished(fed_all(started(m2, app), moves)).1,
        same_stroke_state(fed_all(started(m1, app), moves), fed_all(started(m2, app), moves)),
{
    lemma_same_stroke_fed(started(m1, app), started(m2, app), moves);
}

} // verus!
