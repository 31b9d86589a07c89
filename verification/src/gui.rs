use vstd::prelude::*;

use crate::config::{
    put_group, take_group, Config, ConfigView, GestureCfg, GestureCfgView, GroupCfg, GroupCfgView,
};
use crate::focus::{decimal, push_decimal};
use crate::text::{chars_of, is_whitespace, is_ws, join, join_seqs, owned, string_of, trim, trimmed};

verus! {

broadcast use vstd::string::group_string_axioms;

/// A request from the tray to the preferences window.
#[derive(Debug, Clone, Copy, PartialEq, Eq, Structural)]
pub enum ExternalMsg {
    Show,
    Quit,
}

/// Separators of a key list as typed in the editor: comma, plus, or white space.
pub open spec fn is_list_sep(c: char) -> bool {
    c == ',' || c == '+' || is_ws(c)
}

/// The runs of `s` between separators, empty runs included.
pub open spec fn pieces(s: Seq<char>) -> Seq<Seq<char>>
    decreases s.len(),
{
    if s.len() == 0 {
        seq![Seq::empty()]
    } else {
        let p = pieces(s.drop_last());
        if is_list_sep(s.last()) {
            p.push(Seq::empty())
        } else {
            p.update(p.len() - 1, p.last().push(s.last()))
        }
    }
}

/// The non-empty members of `p`, in order.
pub open spec fn nonempty_only(p: Seq<Seq<char>>) -> Seq<Seq<char>>
    decreases p.len(),
{
    if p.len() == 0 {
        Seq::empty()
    } else {
        let r = nonempty_only(p.drop_last());
        if p.last().len() > 0 {
            r.push(p.last())
        } else {
            r
        }
    }
}

/// The items of a typed key list: the non-empty runs between separators.
pub open spec fn split_items(s: Seq<char>) -> Seq<Seq<char>> {
    nonempty_only(pieces(s))
}

proof fn lemma_pieces_nonempty(s: Seq<char>)
    ensures
        pieces(s).len() >= 1,
    decreases s.len(),
{
    if s.len() > 0 {
        lemma_pieces_nonempty(s.drop_last());
    }
}

/// No separator occurs in `w`.
pub open spec fn no_separators(w: Seq<char>) -> bool {
    forall|j: int| 0 <= j < w.len() ==> !is_list_sep(#[trigger] w[j])
}

proof fn lemma_pieces_clean(s: Seq<char>)
    ensures
        forall|i: int| 0 <= i < pieces(s).len() ==> no_separators(#[trigger] pieces(s)[i]),
    decreases s.len(),
{
    if s.len() > 0 {
        lemma_pieces_clean(s.drop_last());
        lemma_pieces_nonempty(s.drop_last());
        let p = pieces(s.drop_last());
        if !is_list_sep(s.last()) {
            assert forall|i: int| 0 <= i < pieces(s).len() implies no_separators(
                #[trigger] pieces(s)[i],
            ) by {
                if i == p.len() - 1 {
                    let w = p.last().push(s.last());
                    assert(pieces(s)[i] == w);
                    assert forall|j: int| 0 <= j < w.len() implies !is_list_sep(#[trigger] w[j]) by {
                        if j < w.len() - 1 {
                            assert(w[j] == p.last()[j]);
                        }
                    }
                }
            }
        }
    }
}

proof fn lemma_nonempty_clean(p: Seq<Seq<char>>)
    requires
        forall|i: int| 0 <= i < p.len() ==> no_separators(#[trigger] p[i]),
    ensures
        forall|i: int|
            0 <= i < nonempty_only(p).len() ==> (#[trigger] nonempty_only(p)[i]).len() > 0
                && no_separators(nonempty_only(p)[i]),
    decreases p.len(),
{
    if p.len() > 0 {
        let d = p.drop_last();
        assert forall|i: int| 0 <= i < d.len() implies no_separators(#[trigger] d[i]) by {
            assert(d[i] == p[i]);
        }
        lemma_nonempty_clean(d);
        assert(no_separators(p[p.len() - 1]));
        let r = nonempty_only(d);
        let n = nonempty_only(p);
        assert forall|i: int| 0 <= i < n.len() implies (#[trigger] n[i]).len() > 0 && no_separators(
            n[i],
        ) by {
            if i < r.len() {
                assert(n[i] == r[i]);
            } else {
                assert(n[i] == p.last());
            }
        }
    }
}

/// Law: every item of a typed key list is non-empty and holds no separator.
pub proof fn lemma_split_items_shape(s: Seq<char>)
    ensures
        forall|i: int|
            0 <= i < split_items(s).len() ==> (#[trigger] split_items(s)[i]).len() > 0
                && no_separators(split_items(s)[i]),
{
    lemma_pieces_clean(s);
    lemma_nonempty_clean(pieces(s));
}

proof fn lemma_pieces_extend(s: Seq<char>, w: Seq<char>)
    requires
        no_separators(w),
    ensures
        pieces(s + w) == pieces(s).update(pieces(s).len() - 1, pieces(s).last() + w),
    decreases w.len(),
{
    lemma_pieces_nonempty(s);
    let p = pieces(s);
    if w.len() == 0 {
        assert(s + w =~= s);
        assert(p.last() + w =~= p.last());
        assert(p.update(p.len() - 1, p.last() + w) =~= p);
    } else {
        let v = w.drop_last();
        assert(no_separators(v)) by {
            assert forall|j: int| 0 <= j < v.len() implies !is_list_sep(#[trigger] v[j]) by {
                assert(v[j] == w[j]);
            }
        }
        lemma_pieces_extend(s, v);
        assert((s + w).drop_last() =~= s + v);
        assert((s + w).last() == w.last());
        assert(!is_list_sep(w[w.len() - 1]));
        let q = pieces(s + v);
        assert(q.len() == p.len());
        assert(q.last() == p.last() + v);
        assert(pieces(s + w) == q.update(q.len() - 1, q.last().push(w.last())));
        assert((p.last() + v).push(w.last()) =~= p.last() + w);
        assert(p.last() + v + seq![w.last()] =~= p.last() + w);
        assert(q.update(q.len() - 1, q.last().push(w.last())) =~= p.update(
            p.len() - 1,
            p.last() + w,
        ));
    }
}

proof fn lemma_pieces_sep(s: Seq<char>, c: char)
    requires
        is_list_sep(c),
    ensures
        pieces(s.push(c)) == pieces(s).push(Seq::empty()),
{
    assert(s.push(c).drop_last() =~= s);
}

/// Law: a list of key names that are non-empty and hold no separator, written joined by
/// ` + ` (as the gesture card shows them), is split back into the same names.
pub proof fn lemma_split_join(keys: Seq<Seq<char>>)
    requires
        forall|i: int| 0 <= i < keys.len() ==> (#[trigger] keys[i]).len() > 0 && no_separators(
            keys[i],
        ),
    ensures
        split_items(join_seqs(keys, " + "@)) == keys,
    decreases keys.len(),
{
    let e = Seq::<char>::empty();
    if keys.len() == 0 {
        assert(pieces(e) == seq![e]);
        assert(seq![e].drop_last() =~= Seq::<Seq<char>>::empty());
        assert(nonempty_only(Seq::<Seq<char>>::empty()) == Seq::<Seq<char>>::empty());
        assert(seq![e].last() == e);
        assert(nonempty_only(seq![e]) =~= keys);
    } else if keys.len() == 1 {
        let k = keys[0];
        assert(join_seqs(keys, " + "@) == k);
        lemma_pieces_extend(e, k);
        assert(e + k =~= k);
        assert(pieces(e).update(0, e + k) =~= seq![k]);
        assert(seq![k].drop_last() =~= Seq::<Seq<char>>::empty());
        assert(nonempty_only(Seq::<Seq<char>>::empty()) == Seq::<Seq<char>>::empty());
        assert(seq![k].last() == k);
        assert(nonempty_only(seq![k]) == Seq::<Seq<char>>::empty().push(k));
        assert(nonempty_only(seq![k]) =~= keys);
    } else {
        reveal_strlit(" + ");
        let init = keys.drop_last();
        let k = keys.last();
        lemma_split_join(init);
        let j = join_seqs(init, " + "@);
        assert(join_seqs(keys, " + "@) == j + " + "@ + k);
        lemma_pieces_sep(j, ' ');
        lemma_pieces_sep(j.push(' '), '+');
        lemma_pieces_sep(j.push(' ').push('+'), ' ');
        assert(j + " + "@ =~= j.push(' ').push('+').push(' '));
        let q = pieces(j).push(e).push(e).push(e);
        assert(pieces(j + " + "@) == q);
        lemma_pieces_extend(j + " + "@, k);
        let r = pieces(j).push(e).push(e).push(k);
        assert(q.update(q.len() - 1, q.last() + k) =~= r);
        assert(e + k =~= k);
        assert(r.drop_last() =~= pieces(j).push(e).push(e));
        assert(r.drop_last().drop_last() =~= pieces(j).push(e));
        assert(r.drop_last().drop_last().drop_last() =~= pieces(j));
        assert(k.len() > 0);
        assert(r.last() == k);
        assert(r.drop_last().last() == e);
        assert(r.drop_last().drop_last().last() == e);
        assert(nonempty_only(r.drop_last().drop_last()) == nonempty_only(pieces(j)));
        assert(nonempty_only(r.drop_last()) == nonempty_only(pieces(j)));
        assert(nonempty_only(r) == nonempty_only(r.drop_last()).push(k));
        assert(nonempty_only(r) =~= init.push(k));
        assert(init.push(k) =~= keys);
    }
}

/// Splits a typed key list such as `LEFTCTRL + W` into its items.
pub fn split_list(s: &str) -> (r: Vec<String>)
    ensures
        r.deep_view() == split_items(s@),
{
    let chars = chars_of(s);
    let n = chars.len();
    let mut out: Vec<String> = Vec::new();
    let mut cur: Vec<char> = Vec::new();
    for i in 0..n
        invariant
            n == chars@.len(),
            chars@ == s@,
            pieces(chars@.take(i as int)).len() >= 1,
            cur@ == pieces(chars@.take(i as int)).last(),
            out.deep_view() == nonempty_only(pieces(chars@.take(i as int)).drop_last()),
    {
        let c = chars[i];
        let ghost pre = chars@.take(i as int);
        let ghost p = pieces(pre);
        assert(chars@.take(i + 1).drop_last() =~= pre);
        assert(chars@.take(i + 1).last() == c);
        assert(p.drop_last().push(p.last()) =~= p);
        if c == ',' || c == '+' || is_whitespace(c) {
            if cur.len() > 0 {
                let ghost before = out.deep_view();
                out.push(string_of(cur.as_slice()));
                assert(out.deep_view() =~= before.push(cur@));
            }
            cur = Vec::new();
            assert(pieces(chars@.take(i + 1)).drop_last() =~= p);
        } else {
            cur.push(c);
            assert(pieces(chars@.take(i + 1)).drop_last() =~= p.drop_last());
        }
    }
    assert(chars@.take(n as int) =~= s@);
    let ghost p = pieces(s@);
    assert(p.drop_last().push(p.last()) =~= p);
    if cur.len() > 0 {
        let ghost before = out.deep_view();
        out.push(string_of(cur.as_slice()));
        assert(out.deep_view() =~= before.push(cur@));
    }
    out
}

/// The arrow drawn for a direction digit of the numpad convention.
pub open spec fn arrow_of(c: char) -> char {
    if c == '8' {
        '↑'
    } else if c == '2' {
        '↓'
    } else if c == '4' {
        '←'
    } else if c == '6' {
        '→'
    } else if c == '7' {
        '↖'
    } else if c == '9' {
        '↗'
    } else if c == '1' {
        '↙'
    } else if c == '3' {
        '↘'
    } else {
        '?'
    }
}

/// The arrow for a direction digit.
pub fn pattern_arrow(c: char) -> (r: char)
    ensures
        r == arrow_of(c),
{
    match c {
        '8' => '↑',
        '2' => '↓',
        '4' => '←',
        '6' => '→',
        '7' => '↖',
        '9' => '↗',
        '1' => '↙',
        '3' => '↘',
        _ => '?',
    }
}

/// A pattern drawn as arrows, one per direction digit.
pub fn pattern_arrows(p: &str) -> (r: String)
    ensures
        r@ == p@.map_values(|c: char| arrow_of(c)),
{
    let chars = chars_of(p);
    let n = chars.len();
    let mut out: Vec<char> = Vec::new();
    for i in 0..n
        invariant
            n == chars@.len(),
            out@ == chars@.take(i as int).map_values(|c: char| arrow_of(c)),
    {
        out.push(pattern_arrow(chars[i]));
        assert(out@ =~= chars@.take(i + 1).map_values(|c: char| arrow_of(c)));
    }
    assert(chars@.take(n as int) =~= chars@);
    string_of(out.as_slice())
}

/// The word for a direction digit.
pub open spec fn word_of(c: char) -> Seq<char> {
    if c == '8' {
        "上"@
    } else if c == '2' {
        "下"@
    } else if c == '4' {
        "左"@
    } else if c == '6' {
        "右"@
    } else if c == '7' {
        "左上"@
    } else if c == '9' {
        "右上"@
    } else if c == '1' {
        "左下"@
    } else if c == '3' {
        "右下"@
    } else {
        "?"@
    }
}

fn direction_word(c: char) -> (r: String)
    ensures
        r@ == word_of(c),
{
    match c {
        '8' => owned("上"),
        '2' => owned("下"),
        '4' => owned("左"),
        '6' => owned("右"),
        '7' => owned("左上"),
        '9' => owned("右上"),
        '1' => owned("左下"),
        '3' => owned("右下"),
        _ => owned("?"),
    }
}

/// A pattern spelled out as direction words joined by arrows.
pub fn direction_words(p: &str) -> (r: String)
    ensures
        r@ == join_seqs(p@.map_values(|c: char| word_of(c)), " → "@),
{
    let chars = chars_of(p);
    let n = chars.len();
    let mut words: Vec<String> = Vec::new();
    for i in 0..n
        invariant
            n == chars@.len(),
            words.deep_view() == chars@.take(i as int).map_values(|c: char| word_of(c)),
    {
        let ghost before = words.deep_view();
        words.push(direction_word(chars[i]));
        assert(words.deep_view() =~= before.push(word_of(chars@[i as int])));
        assert(words.deep_view() =~= chars@.take(i + 1).map_values(|c: char| word_of(c)));
    }
    assert(chars@.take(n as int) =~= chars@);
    join(&words, " → ")
}

/// A handle for the preferences window, given out by the caller when it opens one.
#[derive(Debug, Clone, Copy, PartialEq, Eq, Structural)]
pub struct WindowId(pub u64);

/// Everything the preferences window can be told.
#[derive(Debug, Clone)]
pub enum Msg {
    SelectGroup(usize),
    AddGroup,
    RemoveGroup(usize),
    GroupNameChanged(String),
    GroupAppInput(String),
    GroupAttachApp,
    GroupDetachApp(String),
    ToggleGroup(bool),
    ToggleGlobal(bool),
    AddGesture,
    RemoveGesture(usize),
    KeysChanged(usize, String),
    LabelChanged(usize, String),
    PatternAppend(usize, char),
    PatternBackspace(usize),
    PatternClear(usize),
    ToggleGesture(usize, bool),
    Save,
    Toast(String),
    ToastClear,
    PickApp,
    PickAppResult(Option<String>),
    Tray(ExternalMsg),
    WindowOpened(WindowId),
    WindowClosed(WindowId),
}

/// What the caller does after the editor took a message.
#[derive(Debug, Clone, PartialEq, Eq)]
pub enum Action {
    Nothing,
    /// End the program.
    Exit,
    /// Open the preferences window and report it with `Msg::WindowOpened`.
    OpenWindow,
    /// Bring the window to the front.
    FocusWindow(WindowId),
    /// Write the configuration to disk and report the outcome with `save_finished`.
    SaveConfig,
    /// Minimize the window (if one is open), wait, ask which app has the focus and report it
    /// with `Msg::PickAppResult`.
    StartPick(Option<WindowId>),
    /// Restore and focus the window, then deliver `Msg::Toast` with this text.
    RestoreWindow(WindowId, String),
    /// Deliver `Msg::Toast` with this text.
    ShowToast(String),
    /// Deliver `Msg::ToastClear` after a short while.
    ClearToastLater,
}

pub enum ActionView {
    Nothing,
    Exit,
    OpenWindow,
    FocusWindow(WindowId),
    SaveConfig,
    StartPick(Option<WindowId>),
    RestoreWindow(WindowId, Seq<char>),
    ShowToast(Seq<char>),
    ClearToastLater,
}

impl DeepView for Action {
    type V = ActionView;

    open spec fn deep_view(&self) -> ActionView {
        match self {
            Action::Nothing => ActionView::Nothing,
            Action::Exit => ActionView::Exit,
            Action::OpenWindow => ActionView::OpenWindow,
            Action::FocusWindow(w) => ActionView::FocusWindow(*w),
            Action::SaveConfig => ActionView::SaveConfig,
            Action::StartPick(w) => ActionView::StartPick(*w),
            Action::RestoreWindow(w, t) => ActionView::RestoreWindow(*w, t@),
            Action::ShowToast(t) => ActionView::ShowToast(t@),
            Action::ClearToastLater => ActionView::ClearToastLater,
        }
    }
}

/// The state of the preferences window.
pub struct Editor {
    pub cfg: Config,
    pub toast: Option<String>,
    pub dirty: bool,
    pub window: Option<WindowId>,
    pub selected_group: usize,
    pub group_app_input: String,
    pub picking: bool,
}

pub struct EditorView {
    pub cfg: ConfigView,
    pub toast: Option<Seq<char>>,
    pub dirty: bool,
    pub window: Option<WindowId>,
    pub selected: int,
    pub app_input: Seq<char>,
    pub picking: bool,
}

impl DeepView for Editor {
    type V = EditorView;

    open spec fn deep_view(&self) -> EditorView {
        EditorView {
            cfg: self.cfg.deep_view(),
            toast: self.toast.deep_view(),
            dirty: self.dirty,
            window: self.window,
            selected: self.selected_group as int,
            app_input: self.group_app_input@,
            picking: self.picking,
        }
    }
}

/// The group that "add group" creates.
pub open spec fn new_group_view() -> GroupCfgView {
    GroupCfgView { name: "新分组"@, apps: Seq::empty(), enabled: true, gestures: Seq::empty() }
}

/// The gesture that "add gesture" creates: right, sending Alt+Right.
pub open spec fn new_gesture_view() -> GestureCfgView {
    GestureCfgView {
        label: Some("新手势"@),
        pattern: "6"@,
        keys: seq!["LEFTALT"@, "RIGHT"@],
        enabled: true,
    }
}

/// `apps` without the members equal to `name`.
pub open spec fn without(apps: Seq<Seq<char>>, name: Seq<char>) -> Seq<Seq<char>>
    decreases apps.len(),
{
    if apps.len() == 0 {
        Seq::empty()
    } else {
        let r = without(apps.drop_last(), name);
        if apps.last() == name {
            r
        } else {
            r.push(apps.last())
        }
    }
}

pub open spec fn group_selected(e: EditorView) -> bool {
    0 <= e.selected < e.cfg.groups.len()
}

pub open spec fn gesture_selected(e: EditorView, i: int) -> bool {
    group_selected(e) && 0 <= i < e.cfg.groups[e.selected].gestures.len()
}

/// The editor with the selected group replaced, marked unsaved.
pub open spec fn with_group(e: EditorView, g: GroupCfgView) -> EditorView {
    EditorView {
        cfg: ConfigView { groups: e.cfg.groups.update(e.selected, g), ..e.cfg },
        dirty: true,
        ..e
    }
}

/// The editor with gesture `i` of the selected group replaced, marked unsaved.
pub open spec fn with_gesture(e: EditorView, i: int, g: GestureCfgView) -> EditorView {
    let grp = e.cfg.groups[e.selected];
    with_group(e, GroupCfgView { gestures: grp.gestures.update(i, g), ..grp })
}

pub open spec fn sel_group(e: EditorView) -> GroupCfgView {
    e.cfg.groups[e.selected]
}

pub open spec fn sel_gesture(e: EditorView, i: int) -> GestureCfgView {
    e.cfg.groups[e.selected].gestures[i]
}

/// Attaching the app `a` to the selected group: appended unless already there.
pub open spec fn attach_app(e: EditorView, a: Seq<char>) -> EditorView {
    if group_selected(e) && !sel_group(e).apps.contains(a) {
        with_group(e, GroupCfgView { apps: sel_group(e).apps.push(a), ..sel_group(e) })
    } else {
        e
    }
}

/// The editor after one message, and what the caller must do.
pub open spec fn updated(e: EditorView, msg: Msg) -> (EditorView, ActionView) {
    match msg {
        Msg::Tray(ExternalMsg::Show) => match e.window {
            Some(w) => (e, ActionView::FocusWindow(w)),
            None => (e, ActionView::OpenWindow),
        },
        Msg::Tray(ExternalMsg::Quit) => (e, ActionView::Exit),
        Msg::WindowOpened(w) => (EditorView { window: Some(w), ..e }, ActionView::Nothing),
        Msg::WindowClosed(w) => if e.window == Some(w) {
            (EditorView { window: None, ..e }, ActionView::Nothing)
        } else {
            (e, ActionView::Nothing)
        },
        Msg::SelectGroup(i) => (
            EditorView { selected: i as int, app_input: Seq::empty(), ..e },
            ActionView::Nothing,
        ),
        Msg::AddGroup => (
            EditorView {
                cfg: ConfigView { groups: e.cfg.groups.push(new_group_view()), ..e.cfg },
                selected: e.cfg.groups.len() as int,
                dirty: true,
                ..e
            },
            ActionView::Nothing,
        ),
        Msg::RemoveGroup(i) => if i < e.cfg.groups.len() {
            let groups = e.cfg.groups.remove(i as int);
            let sel = if e.selected >= groups.len() && e.selected > 0 {
                e.selected - 1
            } else {
                e.selected
            };
            (
                EditorView {
                    cfg: ConfigView { groups: groups, ..e.cfg },
                    selected: sel,
                    dirty: true,
                    ..e
                },
                ActionView::Nothing,
            )
        } else {
            (e, ActionView::Nothing)
        },
        Msg::GroupNameChanged(v) => if group_selected(e) {
            (with_group(e, GroupCfgView { name: v@, ..sel_group(e) }), ActionView::Nothing)
        } else {
            (e, ActionView::Nothing)
        },
        Msg::GroupAppInput(v) => (EditorView { app_input: v@, ..e }, ActionView::Nothing),
        Msg::GroupAttachApp => {
            let val = trimmed(e.app_input);
            let e1 = if val.len() > 0 {
                attach_app(e, val)
            } else {
                e
            };
            (EditorView { app_input: Seq::empty(), ..e1 }, ActionView::Nothing)
        },
        Msg::GroupDetachApp(name) => if group_selected(e) && without(sel_group(e).apps, name@).len()
            != sel_group(e).apps.len() {
            (
                with_group(
                    e,
                    GroupCfgView { apps: without(sel_group(e).apps, name@), ..sel_group(e) },
                ),
                ActionView::Nothing,
            )
        } else {
            (e, ActionView::Nothing)
        },
        Msg::ToggleGroup(v) => if group_selected(e) && sel_group(e).enabled != v {
            (with_group(e, GroupCfgView { enabled: v, ..sel_group(e) }), ActionView::Nothing)
        } else {
            (e, ActionView::Nothing)
        },
        Msg::ToggleGlobal(v) => if e.cfg.enabled != v {
            (
                EditorView { cfg: ConfigView { enabled: v, ..e.cfg }, dirty: true, ..e },
                ActionView::Nothing,
            )
        } else {
            (e, ActionView::Nothing)
        },
        Msg::AddGesture => if group_selected(e) {
            (
                with_group(
                    e,
                    GroupCfgView {
                        gestures: sel_group(e).gestures.push(new_gesture_view()),
                        ..sel_group(e)
                    },
                ),
                ActionView::Nothing,
            )
        } else {
            (e, ActionView::Nothing)
        },
        Msg::RemoveGesture(i) => if gesture_selected(e, i as int) {
            (
                with_group(
                    e,
                    GroupCfgView {
                        gestures: sel_group(e).gestures.remove(i as int),
                        ..sel_group(e)
                    },
                ),
                ActionView::Nothing,
            )
        } else {
            (e, ActionView::Nothing)
        },
        Msg::KeysChanged(i, v) => if gesture_selected(e, i as int) {
            (
                with_gesture(
                    e,
                    i as int,
                    GestureCfgView { keys: split_items(v@), ..sel_gesture(e, i as int) },
                ),
                ActionView::Nothing,
            )
        } else {
            (e, ActionView::Nothing)
        },
        Msg::LabelChanged(i, v) => if gesture_selected(e, i as int) {
            (
                with_gesture(
                    e,
                    i as int,
                    GestureCfgView {
                        label: if v@.len() == 0 {
                            None
                        } else {
                            Some(v@)
                        },
                        ..sel_gesture(e, i as int)
                    },
                ),
                ActionView::Nothing,
            )
        } else {
            (e, ActionView::Nothing)
        },
        Msg::PatternAppend(i, c) => if gesture_selected(e, i as int) && (sel_gesture(
            e,
            i as int,
        ).pattern.len() == 0 || sel_gesture(e, i as int).pattern.last() != c) {
            (
                with_gesture(
                    e,
                    i as int,
                    GestureCfgView {
                        pattern: sel_gesture(e, i as int).pattern.push(c),
                        ..sel_gesture(e, i as int)
                    },
                ),
                ActionView::Nothing,
            )
        } else {
            (e, ActionView::Nothing)
        },
        Msg::PatternBackspace(i) => if gesture_selected(e, i as int) {
            let p = sel_gesture(e, i as int).pattern;
            (
                with_gesture(
                    e,
                    i as int,
                    GestureCfgView {
                        pattern: if p.len() > 0 {
                            p.drop_last()
                        } else {
                            p
                        },
                        ..sel_gesture(e, i as int)
                    },
                ),
                ActionView::Nothing,
            )
        } else {
            (e, ActionView::Nothing)
        },
        Msg::PatternClear(i) => if gesture_selected(e, i as int) {
            (
                with_gesture(
                    e,
                    i as int,
                    GestureCfgView { pattern: Seq::empty(), ..sel_gesture(e, i as int) },
                ),
                ActionView::Nothing,
            )
        } else {
            (e, ActionView::Nothing)
        },
        Msg::ToggleGesture(i, v) => if gesture_selected(e, i as int) && sel_gesture(
            e,
            i as int,
        ).enabled != v {
            (
                with_gesture(e, i as int, GestureCfgView { enabled: v, ..sel_gesture(e, i as int) }),
                ActionView::Nothing,
            )
        } else {
            (e, ActionView::Nothing)
        },
        Msg::Save => (e, ActionView::SaveConfig),
        Msg::Toast(t) => (EditorView { toast: Some(t@), ..e }, ActionView::ClearToastLater),
        Msg::ToastClear => (EditorView { toast: None, ..e }, ActionView::Nothing),
        Msg::PickApp => (EditorView { picking: true, ..e }, ActionView::StartPick(e.window)),
        Msg::PickAppResult(app) => {
            let e0 = EditorView { picking: false, ..e };
            match e.window {
                Some(w) => match app {
                    Some(a) => (
                        attach_app(e0, a@),
                        ActionView::RestoreWindow(w, "已添加: "@ + a@),
                    ),
                    None => (e0, ActionView::RestoreWindow(w, "未检测到应用"@)),
                },
                None => (e0, ActionView::Nothing),
            }
        },
    }
}

proof fn lemma_remove_insert<A>(s: Seq<A>, i: int, x: A)
    requires
        0 <= i < s.len(),
    ensures
        s.remove(i).insert(i, x) == s.update(i, x),
{
    assert(s.remove(i).insert(i, x) =~= s.update(i, x));
}

fn take_gesture(gestures: &mut Vec<GestureCfg>, i: usize) -> (g: GestureCfg)
    requires
        i < old(gestures)@.len(),
    ensures
        g.deep_view() == old(gestures).deep_view()[i as int],
        final(gestures).deep_view() == old(gestures).deep_view().remove(i as int),
{
    let g = gestures.remove(i);
    assert(gestures.deep_view() =~= old(gestures).deep_view().remove(i as int));
    g
}

fn put_gesture(gestures: &mut Vec<GestureCfg>, i: usize, g: GestureCfg)
    requires
        i <= old(gestures)@.len(),
    ensures
        final(gestures).deep_view() == old(gestures).deep_view().insert(i as int, g.deep_view()),
{
    let ghost gv = g.deep_view();
    gestures.insert(i, g);
    assert(gestures.deep_view() =~= old(gestures).deep_view().insert(i as int, gv));
}

/// Whether `v` holds a string equal to `s`.
fn contains_string(v: &Vec<String>, s: &String) -> (r: bool)
    ensures
        r == v.deep_view().contains(s@),
{
    let n = v.len();
    for j in 0..n
        invariant
            n == v.deep_view().len(),
            forall|k: int| 0 <= k < j ==> v.deep_view()[k] != s@,
    {
        if v[j] == *s {
            assert(v.deep_view()[j as int] == s@);
            return true;
        }
    }
    assert forall|k: int| 0 <= k < v.deep_view().len() implies v.deep_view()[k] != s@ by {}
    false
}

/// `v` without the strings equal to `name` (std's `retain`).
fn without_exec(v: &Vec<String>, name: &String) -> (r: Vec<String>)
    ensures
        r.deep_view() == without(v.deep_view(), name@),
{
    let n = v.len();
    let mut r: Vec<String> = Vec::new();
    for j in 0..n
        invariant
            n == v.deep_view().len(),
            r.deep_view() == without(v.deep_view().take(j as int), name@),
    {
        assert(v.deep_view().take(j + 1).drop_last() =~= v.deep_view().take(j as int));
        if v[j] != *name {
            let ghost before = r.deep_view();
            r.push(v[j].clone());
            assert(r.deep_view() =~= before.push(v.deep_view()[j as int]));
        }
    }
    assert(v.deep_view().take(n as int) =~= v.deep_view());
    r
}

fn new_group() -> (g: GroupCfg)
    ensures
        g.deep_view() == new_group_view(),
{
    let g = GroupCfg { name: owned("新分组"), apps: Vec::new(), enabled: true, gestures: Vec::new() };
    assert(g.deep_view().apps =~= Seq::<Seq<char>>::empty());
    assert(g.deep_view().gestures =~= Seq::<GestureCfgView>::empty());
    g
}

fn new_gesture() -> (g: GestureCfg)
    ensures
        g.deep_view() == new_gesture_view(),
{
    let mut keys: Vec<String> = Vec::new();
    keys.push(owned("LEFTALT"));
    keys.push(owned("RIGHT"));
    let g = GestureCfg { label: Some(owned("新手势")), pattern: owned("6"), keys, enabled: true };
    assert(g.deep_view().keys =~= seq!["LEFTALT"@, "RIGHT"@]);
    g
}

impl Editor {
    /// The editor of a freshly loaded configuration: nothing selected but the first group,
    /// nothing unsaved, no window.
    pub fn new(cfg: Config) -> (e: Editor)
        ensures
            e.deep_view() == (EditorView {
                cfg: cfg.deep_view(),
                toast: None,
                dirty: false,
                window: None,
                selected: 0,
                app_input: Seq::empty(),
                picking: false,
            }),
    {
        Editor {
            cfg,
            toast: None,
            dirty: false,
            window: None,
            selected_group: 0,
            group_app_input: String::new(),
            picking: false,
        }
    }

    /// The selected group, if the selection names one.
    pub fn current_group(&self) -> (g: Option<&GroupCfg>)
        ensures
            group_selected(self.deep_view()) ==> g is Some && g->Some_0.deep_view() == sel_group(
                self.deep_view(),
            ),
            !group_selected(self.deep_view()) ==> g is None,
    {
        if self.selected_group < self.cfg.groups.len() {
            Some(&self.cfg.groups[self.selected_group])
        } else {
            None
        }
    }

    fn take_selected(&mut self) -> (g: GroupCfg)
        requires
            group_selected(old(self).deep_view()),
        ensures
            g.deep_view() == sel_group(old(self).deep_view()),
            final(self).deep_view() == (EditorView {
                cfg: ConfigView {
                    groups: old(self).deep_view().cfg.groups.remove(old(self).selected_group as int),
                    ..old(self).deep_view().cfg
                },
                ..old(self).deep_view()
            }),
    {
        take_group(&mut self.cfg.groups, self.selected_group)
    }

    fn restore_selected(&mut self, g: GroupCfg, orig: Ghost<EditorView>)
        requires
            group_selected(orig@),
            old(self).deep_view() == (EditorView {
                cfg: ConfigView {
                    groups: orig@.cfg.groups.remove(orig@.selected),
                    ..orig@.cfg
                },
                ..orig@
            }),
        ensures
            final(self).deep_view() == with_group(orig@, g.deep_view()),
    {
        let ghost gv = g.deep_view();
        put_group(&mut self.cfg.groups, self.selected_group, g);
        self.dirty = true;
        proof {
            lemma_remove_insert(orig@.cfg.groups, orig@.selected, gv);
        }
    }

    fn on_remove_group(&mut self, i: usize)
        ensures
            final(self).deep_view() == updated(old(self).deep_view(), Msg::RemoveGroup(i)).0,
    {
        if i < self.cfg.groups.len() {
            let _removed = take_group(&mut self.cfg.groups, i);
            if self.selected_group >= self.cfg.groups.len() && self.selected_group > 0 {
                self.selected_group = self.selected_group - 1;
            }
            self.dirty = true;
        }
    }

    fn on_group_name(&mut self, v: String)
        ensures
            final(self).deep_view() == updated(
                old(self).deep_view(),
                Msg::GroupNameChanged(v),
            ).0,
    {
        if self.selected_group < self.cfg.groups.len() {
            let ghost orig = self.deep_view();
            let mut g = self.take_selected();
            g.name = v;
            self.restore_selected(g, Ghost(orig));
        }
    }

    fn attach(&mut self, a: String)
        ensures
            final(self).deep_view() == attach_app(old(self).deep_view(), a@),
    {
        if self.selected_group < self.cfg.groups.len() {
            if !contains_string(&self.cfg.groups[self.selected_group].apps, &a) {
                let ghost orig = self.deep_view();
                let mut g = self.take_selected();
                let ghost before = g.apps.deep_view();
                g.apps.push(a);
                assert(g.apps.deep_view() =~= before.push(a@));
                self.restore_selected(g, Ghost(orig));
            }
        }
    }

    fn on_attach_app(&mut self)
        ensures
            final(self).deep_view() == updated(old(self).deep_view(), Msg::GroupAttachApp).0,
    {
        let input = chars_of(self.group_app_input.as_str());
        let val = trim(input.as_slice());
        if val.len() > 0 {
            self.attach(string_of(val.as_slice()));
        }
        self.group_app_input = String::new();
    }

    fn on_detach_app(&mut self, name: String)
        ensures
            final(self).deep_view() == updated(old(self).deep_view(), Msg::GroupDetachApp(name)).0,
    {
        if self.selected_group < self.cfg.groups.len() {
            let kept = without_exec(&self.cfg.groups[self.selected_group].apps, &name);
            if kept.len() != self.cfg.groups[self.selected_group].apps.len() {
                let ghost orig = self.deep_view();
                let mut g = self.take_selected();
                g.apps = kept;
                self.restore_selected(g, Ghost(orig));
            }
        }
    }

    fn on_toggle_group(&mut self, v: bool)
        ensures
            final(self).deep_view() == updated(old(self).deep_view(), Msg::ToggleGroup(v)).0,
    {
        if self.selected_group < self.cfg.groups.len() {
            if self.cfg.groups[self.selected_group].enabled != v {
                let ghost orig = self.deep_view();
                let mut g = self.take_selected();
                g.enabled = v;
                self.restore_selected(g, Ghost(orig));
            }
        }
    }

    fn on_add_gesture(&mut self)
        ensures
            final(self).deep_view() == updated(old(self).deep_view(), Msg::AddGesture).0,
    {
        if self.selected_group < self.cfg.groups.len() {
            let ghost orig = self.deep_view();
            let mut g = self.take_selected();
            let ghost before = g.gestures.deep_view();
            let ng = new_gesture();
            g.gestures.push(ng);
            assert(g.gestures.deep_view() =~= before.push(new_gesture_view()));
            self.restore_selected(g, Ghost(orig));
        }
    }

    fn on_remove_gesture(&mut self, i: usize)
        ensures
            final(self).deep_view() == updated(old(self).deep_view(), Msg::RemoveGesture(i)).0,
    {
        if self.selected_group < self.cfg.groups.len() {
            if i < self.cfg.groups[self.selected_group].gestures.len() {
                let ghost orig = self.deep_view();
                let mut g = self.take_selected();
                let _gone = take_gesture(&mut g.gestures, i);
                self.restore_selected(g, Ghost(orig));
            }
        }
    }

    /// Takes gesture `i` out of the selected group, leaving the group taken out too.
    fn take_selected_gesture(&mut self, i: usize) -> (r: (GroupCfg, GestureCfg))
        requires
            gesture_selected(old(self).deep_view(), i as int),
        ensures
            r.1.deep_view() == sel_gesture(old(self).deep_view(), i as int),
            r.0.deep_view() == (GroupCfgView {
                gestures: sel_group(old(self).deep_view()).gestures.remove(i as int),
                ..sel_group(old(self).deep_view())
            }),
            i <= r.0.gestures@.len(),
            final(self).deep_view() == (EditorView {
                cfg: ConfigView {
                    groups: old(self).deep_view().cfg.groups.remove(old(self).selected_group as int),
                    ..old(self).deep_view().cfg
                },
                ..old(self).deep_view()
            }),
    {
        let mut g = self.take_selected();
        let gi = take_gesture(&mut g.gestures, i);
        assert(g.gestures.deep_view().len() == g.gestures@.len());
        (g, gi)
    }

    /// Puts gesture `i` back into its group and the group back into place, marking the
    /// editor unsaved.
    fn restore_selected_gesture(&mut self, g: GroupCfg, i: usize, gi: GestureCfg, orig: Ghost<EditorView>)
        requires
            gesture_selected(orig@, i as int),
            g.deep_view() == (GroupCfgView {
                gestures: sel_group(orig@).gestures.remove(i as int),
                ..sel_group(orig@)
            }),
            i <= g.gestures@.len(),
            old(self).deep_view() == (EditorView {
                cfg: ConfigView {
                    groups: orig@.cfg.groups.remove(orig@.selected),
                    ..orig@.cfg
                },
                ..orig@
            }),
        ensures
            final(self).deep_view() == with_gesture(orig@, i as int, gi.deep_view()),
    {
        let mut g = g;
        let ghost gv = gi.deep_view();
        put_gesture(&mut g.gestures, i, gi);
        proof {
            lemma_remove_insert(sel_group(orig@).gestures, i as int, gv);
        }
        self.restore_selected(g, orig);
    }

    fn on_keys_changed(&mut self, i: usize, v: String)
        ensures
            final(self).deep_view() == updated(old(self).deep_view(), Msg::KeysChanged(i, v)).0,
    {
        if self.selected_group < self.cfg.groups.len() {
            if i < self.cfg.groups[self.selected_group].gestures.len() {
                let ghost orig = self.deep_view();
                let (g, mut gi) = self.take_selected_gesture(i);
                gi.keys = split_list(v.as_str());
                self.restore_selected_gesture(g, i, gi, Ghost(orig));
            }
        }
    }

    fn on_label_changed(&mut self, i: usize, v: String)
        ensures
            final(self).deep_view() == updated(old(self).deep_view(), Msg::LabelChanged(i, v)).0,
    {
        if self.selected_group < self.cfg.groups.len() {
            if i < self.cfg.groups[self.selected_group].gestures.len() {
                let ghost orig = self.deep_view();
                let (g, mut gi) = self.take_selected_gesture(i);
                gi.label = if v.as_str().is_empty() {
                    None
                } else {
                    Some(v)
                };
                self.restore_selected_gesture(g, i, gi, Ghost(orig));
            }
        }
    }

    fn on_pattern_append(&mut self, i: usize, c: char)
        ensures
            final(self).deep_view() == updated(old(self).deep_view(), Msg::PatternAppend(i, c)).0,
    {
        if self.selected_group < self.cfg.groups.len() {
            if i < self.cfg.groups[self.selected_group].gestures.len() {
                let p = chars_of(self.cfg.groups[self.selected_group].gestures[i].pattern.as_str());
                if p.len() == 0 || p[p.len() - 1] != c {
                    let ghost orig = self.deep_view();
                    let (g, mut gi) = self.take_selected_gesture(i);
                    let mut q = p;
                    q.push(c);
                    gi.pattern = string_of(q.as_slice());
                    self.restore_selected_gesture(g, i, gi, Ghost(orig));
                }
            }
        }
    }

    fn on_pattern_backspace(&mut self, i: usize)
        ensures
            final(self).deep_view() == updated(old(self).deep_view(), Msg::PatternBackspace(i)).0,
    {
        if self.selected_group < self.cfg.groups.len() {
            if i < self.cfg.groups[self.selected_group].gestures.len() {
                let ghost orig = self.deep_view();
                let (g, mut gi) = self.take_selected_gesture(i);
                let mut q = chars_of(gi.pattern.as_str());
                if q.len() > 0 {
                    q.pop();
                }
                gi.pattern = string_of(q.as_slice());
                self.restore_selected_gesture(g, i, gi, Ghost(orig));
            }
        }
    }

    fn on_pattern_clear(&mut self, i: usize)
        ensures
            final(self).deep_view() == updated(old(self).deep_view(), Msg::PatternClear(i)).0,
    {
        if self.selected_group < self.cfg.groups.len() {
            if i < self.cfg.groups[self.selected_group].gestures.len() {
                let ghost orig = self.deep_view();
                let (g, mut gi) = self.take_selected_gesture(i);
                gi.pattern = String::new();
                self.restore_selected_gesture(g, i, gi, Ghost(orig));
            }
        }
    }

    fn on_toggle_gesture(&mut self, i: usize, v: bool)
        ensures
            final(self).deep_view() == updated(old(self).deep_view(), Msg::ToggleGesture(i, v)).0,
    {
        if self.selected_group < self.cfg.groups.len() {
            if i < self.cfg.groups[self.selected_group].gestures.len() {
                if self.cfg.groups[self.selected_group].gestures[i].enabled != v {
                    let ghost orig = self.deep_view();
                    let (g, mut gi) = self.take_selected_gesture(i);
                    gi.enabled = v;
                    self.restore_selected_gesture(g, i, gi, Ghost(orig));
                }
            }
        }
    }

    fn on_pick_result(&mut self, app: Option<String>) -> (act: Action)
        ensures
            (final(self).deep_view(), act.deep_view()) == updated(
                old(self).deep_view(),
                Msg::PickAppResult(app),
            ),
    {
        self.picking = false;
        match self.window {
            Some(w) => match app {
                Some(a) => {
                    let mut t = owned("已添加: ");
                    t.append(a.as_str());
                    self.attach(a);
                    Action::RestoreWindow(w, t)
                },
                None => Action::RestoreWindow(w, owned("未检测到应用")),
            },
            None => Action::Nothing,
        }
    }

    /// Takes one message: edits the configuration being shown, or tells the caller what to
    /// do with the window, the disk, the focus picker or the toast.
    pub fn update(&mut self, msg: Msg) -> (act: Action)
        ensures
            (final(self).deep_view(), act.deep_view()) == updated(old(self).deep_view(), msg),
    {
        let ghost m = msg;
        match msg {
            Msg::Tray(ExternalMsg::Show) => match self.window {
                Some(w) => Action::FocusWindow(w),
                None => Action::OpenWindow,
            },
            Msg::Tray(ExternalMsg::Quit) => Action::Exit,
            Msg::WindowOpened(w) => {
                self.window = Some(w);
                Action::Nothing
            },
            Msg::WindowClosed(w) => {
                if self.window == Some(w) {
                    self.window = None;
                }
                Action::Nothing
            },
            Msg::SelectGroup(i) => {
                self.selected_group = i;
                self.group_app_input = String::new();
                Action::Nothing
            },
            Msg::AddGroup => {
                let ghost before = self.cfg.groups.deep_view();
                let g = new_group();
                self.cfg.groups.push(g);
                assert(self.cfg.groups.deep_view() =~= before.push(new_group_view()));
                self.selected_group = self.cfg.groups.len() - 1;
                self.dirty = true;
                Action::Nothing
            },
            Msg::RemoveGroup(i) => {
                self.on_remove_group(i);
                Action::Nothing
            },
            Msg::GroupNameChanged(v) => {
                self.on_group_name(v);
                Action::Nothing
            },
            Msg::GroupAppInput(v) => {
                self.group_app_input = v;
                Action::Nothing
            },
            Msg::GroupAttachApp => {
                self.on_attach_app();
                Action::Nothing
            },
            Msg::GroupDetachApp(name) => {
                self.on_detach_app(name);
                Action::Nothing
            },
            Msg::ToggleGroup(v) => {
                self.on_toggle_group(v);
                Action::Nothing
            },
            Msg::ToggleGlobal(v) => {
                if self.cfg.enabled != v {
                    self.cfg.enabled = v;
                    self.dirty = true;
                }
                Action::Nothing
            },
            Msg::AddGesture => {
                self.on_add_gesture();
                Action::Nothing
            },
            Msg::RemoveGesture(i) => {
                self.on_remove_gesture(i);
                Action::Nothing
            },
            Msg::KeysChanged(i, v) => {
                self.on_keys_changed(i, v);
                Action::Nothing
            },
            Msg::LabelChanged(i, v) => {
                self.on_label_changed(i, v);
                Action::Nothing
            },
            Msg::PatternAppend(i, c) => {
                self.on_pattern_append(i, c);
                Action::Nothing
            },
            Msg::PatternBackspace(i) => {
                self.on_pattern_backspace(i);
                Action::Nothing
            },
            Msg::PatternClear(i) => {
                self.on_pattern_clear(i);
                Action::Nothing
            },
            Msg::ToggleGesture(i, v) => {
                self.on_toggle_gesture(i, v);
                Action::Nothing
            },
            Msg::Save => Action::SaveConfig,
            Msg::Toast(t) => {
                self.toast = Some(t);
                Action::ClearToastLater
            },
            Msg::ToastClear => {
                self.toast = None;
                Action::Nothing
            },
            Msg::PickApp => {
                self.picking = true;
                Action::StartPick(self.window)
            },
            Msg::PickAppResult(app) => self.on_pick_result(app),
        }
    }

    /// Takes the outcome of writing the configuration: on success the editor is no longer
    /// unsaved and says so; on failure it shows the error.
    pub fn save_finished(&mut self, outcome: Result<(), String>) -> (act: Action)
        ensures
            outcome is Ok ==> final(self).deep_view() == (EditorView {
                dirty: false,
                ..old(self).deep_view()
            }) && act.deep_view() == ActionView::ShowToast("已保存"@),
            outcome is Err ==> final(self).deep_view() == old(self).deep_view()
                && act.deep_view() == ActionView::ShowToast("保存失败: "@ + outcome->Err_0@),
    {
        match outcome {
            Ok(()) => {
                self.dirty = false;
                Action::ShowToast(owned("已保存"))
            },
            Err(e) => {
                let mut t = owned("保存失败: ");
                t.append(e.as_str());
                Action::ShowToast(t)
            },
        }
    }
}

/// The line under a group's name in the sidebar: "全局" for a group of every app, else its
/// apps comma separated.
pub open spec fn group_subtitle_text(apps: Seq<Seq<char>>) -> Seq<char> {
    if apps.len() == 0 {
        "全局"@
    } else {
        join_seqs(apps, ", "@)
    }
}

pub fn group_subtitle(apps: &Vec<String>) -> (r: String)
    ensures
        r@ == group_subtitle_text(apps.deep_view()),
{
    if apps.len() == 0 {
        owned("全局")
    } else {
        join(apps, ", ")
    }
}

/// The heading of the window: the selected group's name and "手势", or "无分组".
pub fn header_title(group: Option<&GroupCfg>) -> (r: String)
    ensures
        match group {
            Some(g) => r@ == g.name@ + " 手势"@,
            None => r@ == "无分组"@,
        },
{
    match group {
        Some(g) => {
            let mut t = g.name.clone();
            t.append(" 手势");
            t
        },
        None => owned("无分组"),
    }
}

/// The note beside the app chips: "适用于所有应用", or how many apps the group names.
pub fn apps_summary(apps: &Vec<String>) -> (r: String)
    ensures
        apps@.len() == 0 ==> r@ == "适用于所有应用"@,
        apps@.len() > 0 ==> r@ == "已关联 "@ + decimal(apps@.len()) + " 个"@,
{
    if apps.len() == 0 {
        owned("适用于所有应用")
    } else {
        let mut t = owned("已关联 ");
        push_decimal(apps.len() as u128, &mut t);
        t.append(" 个");
        t
    }
}

/// A gesture's pattern as arrows, or "（未设置）" when it has none.
pub fn pattern_preview(p: &str) -> (r: String)
    ensures
        p@.len() == 0 ==> r@ == "（未设置）"@,
        p@.len() > 0 ==> r@ == p@.map_values(|c: char| arrow_of(c)),
{
    if p.is_empty() {
        owned("（未设置）")
    } else {
        pattern_arrows(p)
    }
}

/// Law: every message that changes the configuration being edited marks it unsaved, so an
/// edit is never silently dropped from the "unsaved" indicator.
pub proof fn lemma_edits_mark_unsaved(e: EditorView, msg: Msg)
    ensures
        updated(e, msg).0.cfg != e.cfg ==> updated(e, msg).0.dirty,
{
}

/// Law: only the save action writes the configuration; every other message leaves the disk
/// untouched, and saving itself changes nothing in the editor until the outcome comes back.
pub proof fn lemma_only_save_writes(e: EditorView, msg: Msg)
    ensures
        updated(e, msg).1 == ActionView::SaveConfig <==> msg is Save,
        msg is Save ==> updated(e, msg).0 == e,
{
}

/// No direction follows itself in the pattern.
pub open spec fn no_repeats(p: Seq<char>) -> bool {
    forall|i: int| 0 <= i < p.len() - 1 ==> #[trigger] p[i] != p[i + 1]
}

/// Every gesture pattern of the configuration is free of repeats.
pub open spec fn patterns_ok(c: ConfigView) -> bool {
    forall|gi: int, ki: int|
        0 <= gi < c.groups.len() && 0 <= ki < c.groups[gi].gestures.len() ==> no_repeats(
            #[trigger] c.groups[gi].gestures[ki].pattern,
        )
}

/// Law: editing never puts the same direction twice in a row into a pattern; a
/// configuration whose patterns are free of repeats stays so whatever message comes.
pub proof fn lemma_editing_keeps_patterns(e: EditorView, msg: Msg)
    requires
        patterns_ok(e.cfg),
    ensures
        patterns_ok(updated(e, msg).0.cfg),
{
    let e2 = updated(e, msg).0;
    match msg {
        Msg::PatternAppend(i, c) => {
            if gesture_selected(e, i as int) && (sel_gesture(e, i as int).pattern.len() == 0
                || sel_gesture(e, i as int).pattern.last() != c) {
                let p = sel_gesture(e, i as int).pattern;
                assert(no_repeats(p));
                assert forall|gi: int, ki: int|
                    0 <= gi < e2.cfg.groups.len() && 0 <= ki < e2.cfg.groups[gi].gestures.len()
                        implies no_repeats(#[trigger] e2.cfg.groups[gi].gestures[ki].pattern) by {
                    if gi == e.selected && ki == i as int {
                        let q = p.push(c);
                        assert(e2.cfg.groups[gi].gestures[ki].pattern == q);
                        assert forall|j: int| 0 <= j < q.len() - 1 implies #[trigger] q[j] != q[j + 1] by {
                            if j < p.len() - 1 {
                                assert(q[j] == p[j] && q[j + 1] == p[j + 1]);
                            }
                        }
                    } else {
                        assert(e2.cfg.groups[gi].gestures[ki] == e.cfg.groups[gi].gestures[ki]);
                    }
                }
            }
        },
        Msg::PatternBackspace(i) => {
            if gesture_selected(e, i as int) {
                let p = sel_gesture(e, i as int).pattern;
                assert(no_repeats(p));
                assert forall|gi: int, ki: int|
                    0 <= gi < e2.cfg.groups.len() && 0 <= ki < e2.cfg.groups[gi].gestures.len()
                        implies no_repeats(#[trigger] e2.cfg.groups[gi].gestures[ki].pattern) by {
                    if gi == e.selected && ki == i as int {
                        let q = if p.len() > 0 { p.drop_last() } else { p };
                        assert(e2.cfg.groups[gi].gestures[ki].pattern == q);
                        assert forall|j: int| 0 <= j < q.len() - 1 implies #[trigger] q[j] != q[j + 1] by {
                            assert(q[j] == p[j] && q[j + 1] == p[j + 1]);
                        }
                    } else {
                        assert(e2.cfg.groups[gi].gestures[ki] == e.cfg.groups[gi].gestures[ki]);
                    }
                }
            }
        },
        Msg::PatternClear(i) => {
            if gesture_selected(e, i as int) {
                assert forall|gi: int, ki: int|
                    0 <= gi < e2.cfg.groups.len() && 0 <= ki < e2.cfg.groups[gi].gestures.len()
                        implies no_repeats(#[trigger] e2.cfg.groups[gi].gestures[ki].pattern) by {
                    if gi == e.selected && ki == i as int {
                        let q = e2.cfg.groups[gi].gestures[ki].pattern;
                        assert(q.len() == 0);
                    } else {
                        assert(e2.cfg.groups[gi].gestures[ki] == e.cfg.groups[gi].gestures[ki]);
                    }
                }
            }
        },
        Msg::KeysChanged(i, _) | Msg::LabelChanged(i, _) | Msg::ToggleGesture(i, _) => {
            assert forall|gi: int, ki: int|
                0 <= gi < e2.cfg.groups.len() && 0 <= ki < e2.cfg.groups[gi].gestures.len()
                    implies no_repeats(#[trigger] e2.cfg.groups[gi].gestures[ki].pattern) by {
                assert(e2.cfg.groups.len() == e.cfg.groups.len());
                assert(e2.cfg.groups[gi].gestures.len() == e.cfg.groups[gi].gestures.len());
                assert(e2.cfg.groups[gi].gestures[ki].pattern == e.cfg.groups[gi].gestures[ki].pattern);
            }
        },
        Msg::AddGesture => {
            if group_selected(e) {
                assert forall|gi: int, ki: int|
                    0 <= gi < e2.cfg.groups.len() && 0 <= ki < e2.cfg.groups[gi].gestures.len()
                        implies no_repeats(#[trigger] e2.cfg.groups[gi].gestures[ki].pattern) by {
                    if gi == e.selected && ki == sel_group(e).gestures.len() {
                        reveal_strlit("6");
                        assert(e2.cfg.groups[gi].gestures[ki].pattern == "6"@);
                        assert("6"@.len() == 1);
                    } else {
                        assert(e2.cfg.groups[gi].gestures[ki] == e.cfg.groups[gi].gestures[ki]);
                    }
                }
            }
        },
        Msg::RemoveGesture(i) => {
            if gesture_selected(e, i as int) {
                assert forall|gi: int, ki: int|
                    0 <= gi < e2.cfg.groups.len() && 0 <= ki < e2.cfg.groups[gi].gestures.len()
                        implies no_repeats(#[trigger] e2.cfg.groups[gi].gestures[ki].pattern) by {
                    if gi == e.selected {
                        if ki < i {
                            assert(e2.cfg.groups[gi].gestures[ki] == e.cfg.groups[gi].gestures[ki]);
                        } else {
                            assert(e2.cfg.groups[gi].gestures[ki] == e.cfg.groups[gi].gestures[ki + 1]);
                        }
                    } else {
                        assert(e2.cfg.groups[gi] == e.cfg.groups[gi]);
                    }
                }
            }
        },
        Msg::RemoveGroup(i) => {
            if i < e.cfg.groups.len() {
                assert forall|gi: int, ki: int|
                    0 <= gi < e2.cfg.groups.len() && 0 <= ki < e2.cfg.groups[gi].gestures.len()
                        implies no_repeats(#[trigger] e2.cfg.groups[gi].gestures[ki].pattern) by {
                    if gi < i {
                        assert(e2.cfg.groups[gi] == e.cfg.groups[gi]);
                    } else {
                        assert(e2.cfg.groups[gi] == e.cfg.groups[gi + 1]);
                    }
                }
            }
        },
        Msg::AddGroup => {
            assert forall|gi: int, ki: int|
                0 <= gi < e2.cfg.groups.len() && 0 <= ki < e2.cfg.groups[gi].gestures.len()
                    implies no_repeats(#[trigger] e2.cfg.groups[gi].gestures[ki].pattern) by {
                assert(gi < e.cfg.groups.len());
                assert(e2.cfg.groups[gi] == e.cfg.groups[gi]);
            }
        },
        _ => {
            assert forall|gi: int, ki: int|
                0 <= gi < e2.cfg.groups.len() && 0 <= ki < e2.cfg.groups[gi].gestures.len()
                    implies no_repeats(#[trigger] e2.cfg.groups[gi].gestures[ki].pattern) by {
                assert(e2.cfg.groups.len() == e.cfg.groups.len());
                assert(e2.cfg.groups[gi].gestures == e.cfg.groups[gi].gestures);
            }
        },
    }
}

/// `e2` differs from `e` at most in group `g` of the configuration and in the unsaved mark:
/// the switch, the language, the other groups, the selection and the rest of the window
/// state are the same.
pub open spec fn only_group_changed(e: EditorView, e2: EditorView, g: int) -> bool {
    &&& e2.cfg.enabled == e.cfg.enabled
    &&& e2.cfg.lang == e.cfg.lang
    &&& e2.cfg.groups.len() == e.cfg.groups.len()
    &&& forall|i: int| 0 <= i < e.cfg.groups.len() && i != g ==> #[trigger] e2.cfg.groups[i] == e.cfg.groups[i]
    &&& e2.selected == e.selected
    &&& e2.toast == e.toast
    &&& e2.window == e.window
    &&& e2.app_input == e.app_input
    &&& e2.picking == e.picking
}

/// `e2` differs from `e` at most in gesture `k` of group `g` and in the unsaved mark; the
/// group's name, apps, switch and other gestures are the same.
pub open spec fn only_gesture_changed(e: EditorView, e2: EditorView, g: int, k: int) -> bool {
    &&& only_group_changed(e, e2, g)
    &&& e2.cfg.groups[g].name == e.cfg.groups[g].name
    &&& e2.cfg.groups[g].apps == e.cfg.groups[g].apps
    &&& e2.cfg.groups[g].enabled == e.cfg.groups[g].enabled
    &&& e2.cfg.groups[g].gestures.len() == e.cfg.groups[g].gestures.len()
    &&& forall|j: int|
        0 <= j < e.cfg.groups[g].gestures.len() && j != k ==> #[trigger] e2.cfg.groups[g].gestures[j]
            == e.cfg.groups[g].gestures[j]
}

/// Law: switching the selected group on or off sets its switch to the given value and
/// changes nothing else but the unsaved mark, which is set when the switch really changed;
/// with no group selected nothing changes.
pub proof fn lemma_toggle_group_sets_switch(e: EditorView, v: bool)
    ensures
        ({
            let (e2, act) = updated(e, Msg::ToggleGroup(v));
            &&& act == ActionView::Nothing
            &&& group_selected(e) ==> {
                let g = e.selected;
                &&& e2.cfg.groups[g].enabled == v
                &&& e2.cfg.groups[g].name == e.cfg.groups[g].name
                &&& e2.cfg.groups[g].apps == e.cfg.groups[g].apps
                &&& e2.cfg.groups[g].gestures == e.cfg.groups[g].gestures
                &&& only_group_changed(e, e2, g)
                &&& e2.dirty == (e.dirty || e.cfg.groups[g].enabled != v)
            }
            &&& !group_selected(e) ==> e2 == e
        }),
{
}

/// Law: renaming the selected group sets its name to the given text and changes nothing else
/// but the unsaved mark, which is set; with no group selected nothing changes.
pub proof fn lemma_rename_group_sets_name(e: EditorView, name: String)
    ensures
        ({
            let (e2, act) = updated(e, Msg::GroupNameChanged(name));
            &&& act == ActionView::Nothing
            &&& group_selected(e) ==> {
                let g = e.selected;
                &&& e2.cfg.groups[g].name == name@
                &&& e2.cfg.groups[g].enabled == e.cfg.groups[g].enabled
                &&& e2.cfg.groups[g].apps == e.cfg.groups[g].apps
                &&& e2.cfg.groups[g].gestures == e.cfg.groups[g].gestures
                &&& only_group_changed(e, e2, g)
                &&& e2.dirty
            }
            &&& !group_selected(e) ==> e2 == e
        }),
{
}

/// Law: the global switch is set to the given value; the groups are untouched, and the
/// unsaved mark is set when the switch really changed.
pub proof fn lemma_toggle_global_sets_switch(e: EditorView, v: bool)
    ensures
        ({
            let (e2, act) = updated(e, Msg::ToggleGlobal(v));
            &&& act == ActionView::Nothing
            &&& e2.cfg.enabled == v
            &&& e2.cfg.groups == e.cfg.groups
            &&& e2.cfg.lang == e.cfg.lang
            &&& e2.dirty == (e.dirty || e.cfg.enabled != v)
            &&& e2.selected == e.selected
        }),
{
}

/// Law: switching gesture `i` of the selected group sets its switch to the given value and
/// keeps its label, pattern and keys, and everything else but the unsaved mark, which is set
/// when the switch really changed; with no such gesture nothing changes.
pub proof fn lemma_toggle_gesture_sets_switch(e: EditorView, i: usize, v: bool)
    ensures
        ({
            let (e2, act) = updated(e, Msg::ToggleGesture(i, v));
            &&& act == ActionView::Nothing
            &&& gesture_selected(e, i as int) ==> {
                let (g, k) = (e.selected, i as int);
                let old = e.cfg.groups[g].gestures[k];
                let new = e2.cfg.groups[g].gestures[k];
                &&& new.enabled == v
                &&& new.label == old.label && new.pattern == old.pattern && new.keys == old.keys
                &&& only_gesture_changed(e, e2, g, k)
                &&& e2.dirty == (e.dirty || old.enabled != v)
            }
            &&& !gesture_selected(e, i as int) ==> e2 == e
        }),
{
}

/// Law: editing the label of gesture `i` of the selected group sets it to the given text,
/// or to no label when the text is empty, keeps the gesture's other fields and everything
/// else, and marks the configuration unsaved; with no such gesture nothing changes.
pub proof fn lemma_label_edit_sets_label(e: EditorView, i: usize, t: String)
    ensures
        ({
            let (e2, act) = updated(e, Msg::LabelChanged(i, t));
            &&& act == ActionView::Nothing
            &&& gesture_selected(e, i as int) ==> {
                let (g, k) = (e.selected, i as int);
                let old = e.cfg.groups[g].gestures[k];
                let new = e2.cfg.groups[g].gestures[k];
                &&& (t@.len() == 0 ==> new.label is None)
                &&& (t@.len() > 0 ==> new.label == Some(t@))
                &&& new.enabled == old.enabled && new.pattern == old.pattern && new.keys == old.keys
                &&& only_gesture_changed(e, e2, g, k)
                &&& e2.dirty
            }
            &&& !gesture_selected(e, i as int) ==> e2 == e
        }),
{
}

/// Law: editing the keys of gesture `i` of the selected group sets them to the items of the
/// typed list, keeps the gesture's other fields and everything else, and marks the
/// configuration unsaved; with no such gesture nothing changes.
pub proof fn lemma_keys_edit_sets_keys(e: EditorView, i: usize, t: String)
    ensures
        ({
            let (e2, act) = updated(e, Msg::KeysChanged(i, t));
            &&& act == ActionView::Nothing
            &&& gesture_selected(e, i as int) ==> {
                let (g, k) = (e.selected, i as int);
                let old = e.cfg.groups[g].gestures[k];
                let new = e2.cfg.groups[g].gestures[k];
                &&& new.keys == split_items(t@)
                &&& new.enabled == old.enabled && new.pattern == old.pattern && new.label == old.label
                &&& only_gesture_changed(e, e2, g, k)
                &&& e2.dirty
            }
            &&& !gesture_selected(e, i as int) ==> e2 == e
        }),
{
}

} // verus!
