use vstd::prelude::*;

use crate::keys::{evdev_key_from_name, full_key_name, parse, Key, UnknownKey};
use crate::text::{
    join_path, path_join, chars_of, copy_string, join, join_seqs, owned, sort_texts, sorted_texts,
};

verus! {

/// Language of the preferences window.
#[derive(Debug, Clone, Copy, PartialEq, Eq, Structural)]
pub enum Lang {
    En,
    Zh,
}

impl Default for Lang {
    fn default() -> (l: Self)
        ensures
            l == Lang::En,
    {
        Lang::En
    }
}

/// One configured gesture: a direction pattern and the key chord it sends.
#[derive(Debug, Clone, PartialEq, Eq)]
pub struct GestureCfg {
    pub label: Option<String>,
    pub pattern: String,
    pub keys: Vec<String>,
    pub enabled: bool,
}

/// A group of gestures that applies to a set of apps (every app when `apps` is empty).
#[derive(Debug, Clone, PartialEq, Eq)]
pub struct GroupCfg {
    pub name: String,
    pub apps: Vec<String>,
    pub enabled: bool,
    pub gestures: Vec<GestureCfg>,
}

/// The whole configuration file.
#[derive(Debug, Clone, PartialEq, Eq)]
pub struct Config {
    pub enabled: bool,
    pub lang: Lang,
    pub groups: Vec<GroupCfg>,
}

/// A gesture as the daemon uses it: keys resolved, apps and switch taken from its group.
#[derive(Debug, Clone, PartialEq, Eq)]
pub struct Gesture {
    pub pattern: String,
    pub keys: Vec<Key>,
    pub apps: Vec<String>,
    pub label: Option<String>,
    pub enabled: bool,
}

pub struct GestureCfgView {
    pub label: Option<Seq<char>>,
    pub pattern: Seq<char>,
    pub keys: Seq<Seq<char>>,
    pub enabled: bool,
}

pub struct GroupCfgView {
    pub name: Seq<char>,
    pub apps: Seq<Seq<char>>,
    pub enabled: bool,
    pub gestures: Seq<GestureCfgView>,
}

pub struct ConfigView {
    pub enabled: bool,
    pub lang: Lang,
    pub groups: Seq<GroupCfgView>,
}

pub struct GestureView {
    pub pattern: Seq<char>,
    pub keys: Seq<Key>,
    pub apps: Seq<Seq<char>>,
    pub label: Option<Seq<char>>,
    pub enabled: bool,
}

impl DeepView for GestureCfg {
    type V = GestureCfgView;

    open spec fn deep_view(&self) -> GestureCfgView {
        GestureCfgView {
            label: self.label.deep_view(),
            pattern: self.pattern@,
            keys: self.keys.deep_view(),
            enabled: self.enabled,
        }
    }
}

impl DeepView for GroupCfg {
    type V = GroupCfgView;

    open spec fn deep_view(&self) -> GroupCfgView {
        GroupCfgView {
            name: self.name@,
            apps: self.apps.deep_view(),
            enabled: self.enabled,
            gestures: self.gestures.deep_view(),
        }
    }
}

impl DeepView for Config {
    type V = ConfigView;

    open spec fn deep_view(&self) -> ConfigView {
        ConfigView { enabled: self.enabled, lang: self.lang, groups: self.groups.deep_view() }
    }
}

impl DeepView for Gesture {
    type V = GestureView;

    open spec fn deep_view(&self) -> GestureView {
        GestureView {
            pattern: self.pattern@,
            keys: self.keys@,
            apps: self.apps.deep_view(),
            label: self.label.deep_view(),
            enabled: self.enabled,
        }
    }
}

impl Default for Config {
    fn default() -> (c: Self)
        ensures
            c.enabled,
            c.lang == Lang::En,
            c.groups@.len() == 0,
    {
        Config { enabled: true, lang: Lang::En, groups: Vec::new() }
    }
}

/// The configured key name resolves to a key.
pub open spec fn key_resolves(name: Seq<char>) -> bool {
    evdev_key_from_name(full_key_name(name)) is Some
}

/// The key a resolving key name stands for.
pub open spec fn resolved_key(name: Seq<char>) -> Key {
    Key(evdev_key_from_name(full_key_name(name))->Some_0)
}

/// Every key name of the list resolves.
pub open spec fn all_keys_resolve(names: Seq<Seq<char>>) -> bool {
    forall|i: int| 0 <= i < names.len() ==> key_resolves(#[trigger] names[i])
}

/// `i` is the first key name of the list that does not resolve.
pub open spec fn is_first_unresolved(names: Seq<Seq<char>>, i: int) -> bool {
    &&& 0 <= i < names.len()
    &&& !key_resolves(names[i])
    &&& forall|j: int| 0 <= j < i ==> key_resolves(#[trigger] names[j])
}

/// The gesture that a configured gesture becomes inside a group.
pub open spec fn gesture_from_cfg(
    cfg: GestureCfgView,
    group_apps: Seq<Seq<char>>,
    group_enabled: bool,
) -> GestureView {
    GestureView {
        pattern: cfg.pattern,
        keys: cfg.keys.map_values(|n: Seq<char>| resolved_key(n)),
        apps: group_apps,
        label: cfg.label,
        enabled: cfg.enabled && group_enabled,
    }
}

pub(crate) fn copy_strings(v: &[String]) -> (r: Vec<String>)
    ensures
        r.deep_view() == v.deep_view(),
{
    let mut r: Vec<String> = Vec::new();
    let n = v.len();
    for i in 0..n
        invariant
            n == v@.len(),
            r.deep_view() == v.deep_view().take(i as int),
    {
        let ghost before = r.deep_view();
        let s = copy_string(&v[i]);
        assert(s@ == v.deep_view()[i as int]);
        r.push(s);
        assert(r.deep_view() =~= before.push(s@));
        assert(v.deep_view().take(i + 1) =~= v.deep_view().take(i as int).push(s@));
    }
    assert(v.deep_view().take(n as int) =~= v.deep_view());
    r
}

pub(crate) fn copy_opt_string(s: &Option<String>) -> (r: Option<String>)
    ensures
        r.deep_view() == s.deep_view(),
{
    match s {
        Some(x) => Some(copy_string(x)),
        None => None,
    }
}

impl Gesture {
    /// Resolves a configured gesture inside a group with the given apps and switch.
    /// Fails with the first key name that evdev does not know.
    pub fn from_cfg(cfg: &GestureCfg, group_apps: &[String], group_enabled: bool) -> (r: Result<
        Gesture,
        UnknownKey,
    >)
        ensures
            all_keys_resolve(cfg.keys.deep_view()) ==> r is Ok && r->Ok_0.deep_view()
                == gesture_from_cfg(cfg.deep_view(), group_apps.deep_view(), group_enabled),
            !all_keys_resolve(cfg.keys.deep_view()) ==> r is Err && exists|i: int|
                is_first_unresolved(cfg.keys.deep_view(), i) && r->Err_0.name@ == (
                #[trigger] cfg.keys.deep_view()[i]),
    {
        let mut keys: Vec<Key> = Vec::new();
        let n = cfg.keys.len();
        let ghost names = cfg.keys.deep_view();
        for i in 0..n
            invariant
                n == names.len(),
                names == cfg.keys.deep_view(),
                keys@.len() == i,
                forall|j: int| 0 <= j < i ==> key_resolves(#[trigger] names[j]),
                forall|j: int| 0 <= j < i ==> keys@[j] == resolved_key(#[trigger] names[j]),
        {
            match parse(cfg.keys[i].as_str()) {
                Ok(k) => {
                    keys.push(k);
                },
                Err(e) => {
                    assert(is_first_unresolved(names, i as int));
                    return Err(e);
                },
            }
        }
        let g = Gesture {
            pattern: copy_string(&cfg.pattern),
            keys,
            apps: copy_strings(group_apps),
            label: copy_opt_string(&cfg.label),
            enabled: cfg.enabled && group_enabled,
        };
        assert(g.keys@ =~= names.map_values(|n: Seq<char>| resolved_key(n)));
        Ok(g)
    }
}

pub(crate) fn take_group(groups: &mut Vec<GroupCfg>, i: usize) -> (g: GroupCfg)
    requires
        i < old(groups)@.len(),
    ensures
        g.deep_view() == old(groups).deep_view()[i as int],
        final(groups).deep_view() == old(groups).deep_view().remove(i as int),
        final(groups)@.len() == old(groups)@.len() - 1,
{
    let g = groups.remove(i);
    assert(groups.deep_view() =~= old(groups).deep_view().remove(i as int));
    g
}

pub(crate) fn put_group(groups: &mut Vec<GroupCfg>, i: usize, g: GroupCfg)
    requires
        i <= old(groups)@.len(),
    ensures
        final(groups).deep_view() == old(groups).deep_view().insert(i as int, g.deep_view()),
{
    let ghost gv = g.deep_view();
    groups.insert(i, g);
    assert(groups.deep_view() =~= old(groups).deep_view().insert(i as int, gv));
}

/// A gesture of the older flat configuration, which named its apps itself.
#[derive(Debug, Clone, PartialEq, Eq)]
pub struct LegacyGestureCfg {
    pub label: Option<String>,
    pub pattern: String,
    pub keys: Vec<String>,
    pub apps: Vec<String>,
    pub enabled: bool,
}

/// The older flat configuration: a switch and a list of gestures.
#[derive(Debug, Clone, PartialEq, Eq)]
pub struct LegacyConfig {
    pub enabled: bool,
    pub gestures: Vec<LegacyGestureCfg>,
}

pub struct LegacyGestureView {
    pub label: Option<Seq<char>>,
    pub pattern: Seq<char>,
    pub keys: Seq<Seq<char>>,
    pub apps: Seq<Seq<char>>,
    pub enabled: bool,
}

impl DeepView for LegacyGestureCfg {
    type V = LegacyGestureView;

    open spec fn deep_view(&self) -> LegacyGestureView {
        LegacyGestureView {
            label: self.label.deep_view(),
            pattern: self.pattern@,
            keys: self.keys.deep_view(),
            apps: self.apps.deep_view(),
            enabled: self.enabled,
        }
    }
}

/// The name a group made from legacy gestures gets: "全局" for the group of every app,
/// else its apps in sorted order, comma separated.
pub open spec fn legacy_group_name(apps: Seq<Seq<char>>) -> Seq<char> {
    if apps.len() == 0 {
        "全局"@
    } else {
        join_seqs(sorted_texts(apps), ", "@)
    }
}

pub open spec fn legacy_as_cfg(lg: LegacyGestureView) -> GestureCfgView {
    GestureCfgView { label: lg.label, pattern: lg.pattern, keys: lg.keys, enabled: lg.enabled }
}

/// Group `i` is the first whose apps, sorted, equal `apps` sorted.
pub open spec fn is_first_same_apps(groups: Seq<GroupCfgView>, apps: Seq<Seq<char>>, i: int) -> bool {
    &&& 0 <= i < groups.len()
    &&& sorted_texts(groups[i].apps) == sorted_texts(apps)
    &&& forall|j: int| 0 <= j < i ==> sorted_texts(#[trigger] groups[j].apps) != sorted_texts(apps)
}

/// A legacy gesture joins the first group with the same set of apps, or opens a new group.
pub open spec fn add_legacy(groups: Seq<GroupCfgView>, lg: LegacyGestureView) -> Seq<GroupCfgView> {
    if exists|i: int| is_first_same_apps(groups, lg.apps, i) {
        let i = choose|i: int| is_first_same_apps(groups, lg.apps, i);
        groups.update(
            i,
            GroupCfgView { gestures: groups[i].gestures.push(legacy_as_cfg(lg)), ..groups[i] },
        )
    } else {
        groups.push(
            GroupCfgView {
                name: legacy_group_name(lg.apps),
                apps: lg.apps,
                enabled: true,
                gestures: seq![legacy_as_cfg(lg)],
            },
        )
    }
}

/// The groups that a list of legacy gestures becomes, in order of first appearance.
pub open spec fn legacy_groups(gs: Seq<LegacyGestureView>) -> Seq<GroupCfgView>
    decreases gs.len(),
{
    if gs.len() == 0 {
        Seq::empty()
    } else {
        add_legacy(legacy_groups(gs.drop_last()), gs.last())
    }
}

/// Number of gestures over all groups.
pub open spec fn gesture_count(groups: Seq<GroupCfgView>) -> nat
    decreases groups.len(),
{
    if groups.len() == 0 {
        0
    } else {
        gesture_count(groups.drop_last()) + groups.last().gestures.len()
    }
}

/// No two groups cover the same set of apps.
pub open spec fn distinct_app_sets(groups: Seq<GroupCfgView>) -> bool {
    forall|i: int, j: int|
        0 <= i < j < groups.len() ==> sorted_texts(#[trigger] groups[i].apps) != sorted_texts(
            #[trigger] groups[j].apps,
        )
}

proof fn lemma_count_update(groups: Seq<GroupCfgView>, i: int, g: GroupCfgView)
    requires
        0 <= i < groups.len(),
    ensures
        gesture_count(groups.update(i, g)) == gesture_count(groups) - groups[i].gestures.len()
            + g.gestures.len(),
    decreases groups.len(),
{
    if i == groups.len() - 1 {
        assert(groups.update(i, g).drop_last() =~= groups.drop_last());
    } else {
        lemma_count_update(groups.drop_last(), i, g);
        assert(groups.update(i, g).drop_last() =~= groups.drop_last().update(i, g));
    }
}

proof fn lemma_count_push(groups: Seq<GroupCfgView>, g: GroupCfgView)
    ensures
        gesture_count(groups.push(g)) == gesture_count(groups) + g.gestures.len(),
{
    assert(groups.push(g).drop_last() =~= groups);
}

proof fn lemma_first_same_apps(groups: Seq<GroupCfgView>, apps: Seq<Seq<char>>, j: int)
    requires
        0 <= j < groups.len(),
        sorted_texts(groups[j].apps) == sorted_texts(apps),
    ensures
        exists|i: int| is_first_same_apps(groups, apps, i),
    decreases j,
{
    if exists|k: int| 0 <= k < j && sorted_texts(#[trigger] groups[k].apps) == sorted_texts(apps) {
        let k = choose|k: int| 0 <= k < j && sorted_texts(#[trigger] groups[k].apps) == sorted_texts(apps);
        lemma_first_same_apps(groups, apps, k);
    } else {
        assert(is_first_same_apps(groups, apps, j));
    }
}

/// Law: regrouping legacy gestures loses none and adds none (the groups hold as many
/// gestures as the list), gives each set of apps one group, and every group it makes is
/// switched on and holds at least one gesture.
pub proof fn lemma_legacy_groups(gs: Seq<LegacyGestureView>)
    ensures
        gesture_count(legacy_groups(gs)) == gs.len(),
        distinct_app_sets(legacy_groups(gs)),
        forall|i: int| 0 <= i < legacy_groups(gs).len() ==> (#[trigger] legacy_groups(gs)[i]).enabled,
        forall|i: int|
            0 <= i < legacy_groups(gs).len() ==> (#[trigger] legacy_groups(gs)[i]).gestures.len() > 0,
    decreases gs.len(),
{
    if gs.len() > 0 {
        lemma_legacy_groups(gs.drop_last());
        let prev = legacy_groups(gs.drop_last());
        let lg = gs.last();
        if exists|i: int| is_first_same_apps(prev, lg.apps, i) {
            let i = choose|i: int| is_first_same_apps(prev, lg.apps, i);
            let ng = GroupCfgView { gestures: prev[i].gestures.push(legacy_as_cfg(lg)), ..prev[i] };
            lemma_count_update(prev, i, ng);
            let next = prev.update(i, ng);
            assert(legacy_groups(gs) == next);
            assert forall|a: int, b: int| 0 <= a < b < next.len() implies sorted_texts(
                #[trigger] next[a].apps,
            ) != sorted_texts(#[trigger] next[b].apps) by {
                assert(next[a].apps == prev[a].apps);
                assert(next[b].apps == prev[b].apps);
            }
        } else {
            let ng = GroupCfgView {
                name: legacy_group_name(lg.apps),
                apps: lg.apps,
                enabled: true,
                gestures: seq![legacy_as_cfg(lg)],
            };
            lemma_count_push(prev, ng);
            let next = prev.push(ng);
            assert(legacy_groups(gs) == next);
            assert forall|j: int| 0 <= j < prev.len() implies sorted_texts(
                #[trigger] prev[j].apps,
            ) != sorted_texts(lg.apps) by {
                if sorted_texts(prev[j].apps) == sorted_texts(lg.apps) {
                    lemma_first_same_apps(prev, lg.apps, j);
                }
            }
            assert forall|a: int, b: int| 0 <= a < b < next.len() implies sorted_texts(
                #[trigger] next[a].apps,
            ) != sorted_texts(#[trigger] next[b].apps) by {
                if b == prev.len() {
                    assert(next[a] == prev[a]);
                } else {
                    assert(next[a] == prev[a] && next[b] == prev[b]);
                }
            }
        }
    }
}

/// `x` carries the label, pattern, keys and switch of the legacy gesture `lg`.
pub open spec fn same_gesture_fields(x: GestureCfgView, lg: LegacyGestureView) -> bool {
    &&& x.label == lg.label
    &&& x.pattern == lg.pattern
    &&& x.keys == lg.keys
    &&& x.enabled == lg.enabled
}

/// Every gesture of every group comes, field by field, from a legacy gesture of `gs` with the
/// group's set of apps.
pub open spec fn gestures_come_from(groups: Seq<GroupCfgView>, gs: Seq<LegacyGestureView>) -> bool {
    forall|i: int, k: int|
        0 <= i < groups.len() && 0 <= k < groups[i].gestures.len() ==> exists|j: int|
            0 <= j < gs.len() && same_gesture_fields(#[trigger] groups[i].gestures[k], #[trigger] gs[j])
                && sorted_texts(gs[j].apps) == sorted_texts(groups[i].apps)
}

/// Every legacy gesture of `gs` is found, field by field, in a group with its set of apps.
pub open spec fn gestures_kept_in(groups: Seq<GroupCfgView>, gs: Seq<LegacyGestureView>) -> bool {
    forall|j: int|
        0 <= j < gs.len() ==> exists|i: int, k: int|
            0 <= i < groups.len() && 0 <= k < groups[i].gestures.len() && same_gesture_fields(
                #[trigger] groups[i].gestures[k],
                #[trigger] gs[j],
            ) && sorted_texts(gs[j].apps) == sorted_texts(groups[i].apps)
}

#[verifier::spinoff_prover]
proof fn lemma_come_from_step(
    prev: Seq<GroupCfgView>,
    gs: Seq<LegacyGestureView>,
    next: Seq<GroupCfgView>,
    c: int,
)
    requires
        gs.len() > 0,
        gestures_come_from(prev, gs.drop_last()),
        0 <= c <= prev.len(),
        next.len() == if c < prev.len() { prev.len() } else { prev.len() + 1 },
        sorted_texts(next[c].apps) == sorted_texts(gs.last().apps),
        next[c].gestures.len() == (if c < prev.len() { prev[c].gestures.len() } else { 0 }) + 1,
        same_gesture_fields(next[c].gestures[next[c].gestures.len() - 1], gs.last()),
        c < prev.len() ==> next[c].apps == prev[c].apps,
        forall|k: int| 0 <= k < next[c].gestures.len() - 1 ==> next[c].gestures[k] == prev[c].gestures[k],
        forall|i: int| 0 <= i < prev.len() && i != c ==> #[trigger] next[i] == prev[i],
    ensures
        gestures_come_from(next, gs),
{
    let init = gs.drop_last();
    let last = gs.len() - 1;
    assert(gs[last] == gs.last());
    assert forall|i: int, k: int|
        0 <= i < next.len() && 0 <= k < next[i].gestures.len() implies exists|j: int|
        0 <= j < gs.len() && same_gesture_fields(#[trigger] next[i].gestures[k], #[trigger] gs[j])
            && sorted_texts(gs[j].apps) == sorted_texts(next[i].apps) by {
        if i == c && k == next[c].gestures.len() - 1 {
            assert(same_gesture_fields(next[i].gestures[k], gs[last]));
        } else {
            if i == c {
                assert(next[i].gestures[k] == prev[i].gestures[k]);
            } else {
                assert(next[i] == prev[i]);
            }
            assert(0 <= i < prev.len() && 0 <= k < prev[i].gestures.len());
            let j = choose|j: int|
                0 <= j < init.len() && same_gesture_fields(#[trigger] prev[i].gestures[k], #[trigger] init[j])
                    && sorted_texts(init[j].apps) == sorted_texts(prev[i].apps);
            assert(gs[j] == init[j]);
            assert(same_gesture_fields(next[i].gestures[k], gs[j]));
        }
    }
}

#[verifier::spinoff_prover]
proof fn lemma_kept_in_step(
    prev: Seq<GroupCfgView>,
    gs: Seq<LegacyGestureView>,
    next: Seq<GroupCfgView>,
    c: int,
)
    requires
        gs.len() > 0,
        gestures_kept_in(prev, gs.drop_last()),
        0 <= c <= prev.len(),
        next.len() == if c < prev.len() { prev.len() } else { prev.len() + 1 },
        sorted_texts(next[c].apps) == sorted_texts(gs.last().apps),
        next[c].gestures.len() == (if c < prev.len() { prev[c].gestures.len() } else { 0 }) + 1,
        same_gesture_fields(next[c].gestures[next[c].gestures.len() - 1], gs.last()),
        c < prev.len() ==> next[c].apps == prev[c].apps,
        forall|k: int| 0 <= k < next[c].gestures.len() - 1 ==> next[c].gestures[k] == prev[c].gestures[k],
        forall|i: int| 0 <= i < prev.len() && i != c ==> #[trigger] next[i] == prev[i],
    ensures
        gestures_kept_in(next, gs),
{
    let init = gs.drop_last();
    let last = gs.len() - 1;
    assert(gs[last] == gs.last());
    assert forall|j: int| 0 <= j < gs.len() implies exists|i: int, k: int|
        0 <= i < next.len() && 0 <= k < next[i].gestures.len() && same_gesture_fields(
            #[trigger] next[i].gestures[k],
            #[trigger] gs[j],
        ) && sorted_texts(gs[j].apps) == sorted_texts(next[i].apps) by {
        if j == last {
            let k = next[c].gestures.len() - 1;
            assert(same_gesture_fields(next[c].gestures[k], gs[j]));
        } else {
            assert(gs[j] == init[j]);
            let (i, k) = choose|i: int, k: int|
                0 <= i < prev.len() && 0 <= k < prev[i].gestures.len() && same_gesture_fields(
                    #[trigger] prev[i].gestures[k],
                    #[trigger] init[j],
                ) && sorted_texts(init[j].apps) == sorted_texts(prev[i].apps);
            if i == c {
                assert(next[i].gestures[k] == prev[i].gestures[k]);
            } else {
                assert(next[i] == prev[i]);
            }
            assert(same_gesture_fields(next[i].gestures[k], gs[j]));
        }
    }
}

/// Law: regrouping keeps every legacy gesture as it was written. Each gesture of each group
/// carries the label, pattern, keys and switch of some legacy gesture with the same set of
/// apps as the group; and each legacy gesture is found, field by field, in a group with its
/// set of apps. (With `lemma_legacy_groups`, which keeps the count, no gesture is added or
/// lost; in particular a gesture switched off in the legacy file stays switched off.)
#[verifier::spinoff_prover]
pub proof fn lemma_legacy_groups_keep_gestures(gs: Seq<LegacyGestureView>)
    ensures
        gestures_come_from(legacy_groups(gs), gs),
        gestures_kept_in(legacy_groups(gs), gs),
    decreases gs.len(),
{
    if gs.len() > 0 {
        let init = gs.drop_last();
        lemma_legacy_groups_keep_gestures(init);
        let prev = legacy_groups(init);
        let lg = gs.last();
        let x = legacy_as_cfg(lg);
        let next = legacy_groups(gs);
        assert(next == add_legacy(prev, lg));
        if exists|c: int| is_first_same_apps(prev, lg.apps, c) {
            let c = choose|c: int| is_first_same_apps(prev, lg.apps, c);
            let ng = GroupCfgView { gestures: prev[c].gestures.push(x), ..prev[c] };
            assert(next == prev.update(c, ng));
            assert(next[c] == ng);
            lemma_come_from_step(prev, gs, next, c);
            lemma_kept_in_step(prev, gs, next, c);
        } else {
            let ng = GroupCfgView {
                name: legacy_group_name(lg.apps),
                apps: lg.apps,
                enabled: true,
                gestures: seq![x],
            };
            assert(next == prev.push(ng));
            let c = prev.len() as int;
            assert(next[c] == ng);
            lemma_come_from_step(prev, gs, next, c);
            lemma_kept_in_step(prev, gs, next, c);
        }
    }
}

fn same_texts(a: &Vec<String>, b: &Vec<String>) -> (r: bool)
    ensures
        r == (a.deep_view() == b.deep_view()),
{
    if a.len() != b.len() {
        assert(a.deep_view().len() != b.deep_view().len());
        return false;
    }
    let n = a.len();
    for i in 0..n
        invariant
            n == a.deep_view().len(),
            n == b.deep_view().len(),
            forall|k: int| 0 <= k < i ==> a.deep_view()[k] == b.deep_view()[k],
    {
        if a[i] != b[i] {
            assert(a.deep_view()[i as int] != b.deep_view()[i as int]);
            return false;
        }
    }
    assert(a.deep_view() =~= b.deep_view());
    true
}

fn copy_legacy_as_cfg(lg: &LegacyGestureCfg) -> (g: GestureCfg)
    ensures
        g.deep_view() == legacy_as_cfg(lg.deep_view()),
{
    GestureCfg {
        label: copy_opt_string(&lg.label),
        pattern: copy_string(&lg.pattern),
        keys: copy_strings(lg.keys.as_slice()),
        enabled: lg.enabled,
    }
}

fn legacy_name(apps: &Vec<String>) -> (r: String)
    ensures
        r@ == legacy_group_name(apps.deep_view()),
{
    if apps.len() == 0 {
        owned("全局")
    } else {
        let sorted = sort_texts(apps);
        join(&sorted, ", ")
    }
}

/// Groups legacy gestures by their set of apps: each gesture joins the first group with the
/// same apps (in any order), or opens a new enabled group named after its apps.
pub fn group_legacy(gestures: &Vec<LegacyGestureCfg>) -> (groups: Vec<GroupCfg>)
    ensures
        groups.deep_view() == legacy_groups(gestures.deep_view()),
{
    let mut groups: Vec<GroupCfg> = Vec::new();
    let n = gestures.len();
    for i in 0..n
        invariant
            n == gestures.deep_view().len(),
            groups.deep_view() == legacy_groups(gestures.deep_view().take(i as int)),
    {
        let lg = &gestures[i];
        let ghost lgv = gestures.deep_view()[i as int];
        assert(lg.deep_view() == lgv);
        let ghost before = groups.deep_view();
        assert(gestures.deep_view().take(i + 1).drop_last() =~= gestures.deep_view().take(i as int));
        let key = sort_texts(&lg.apps);
        let mut j: usize = 0;
        let m = groups.len();
        while j < m && !same_texts(&sort_texts(&groups[j].apps), &key)
            invariant
                m == groups.deep_view().len(),
                groups.deep_view() == before,
                j <= m,
                key.deep_view() == sorted_texts(lgv.apps),
                forall|k: int| 0 <= k < j ==> sorted_texts(#[trigger] before[k].apps) != sorted_texts(lgv.apps),
            decreases m - j,
        {
            j = j + 1;
        }
        let cfg = copy_legacy_as_cfg(lg);
        if j < m {
            assert(is_first_same_apps(before, lgv.apps, j as int));
            proof {
                let c = choose|c: int| is_first_same_apps(before, lgv.apps, c);
                if c < j {
                } else if c > j {
                }
            }
            let mut g = take_group(&mut groups, j);
            let ghost gbefore = g.gestures.deep_view();
            let ghost cv = cfg.deep_view();
            g.gestures.push(cfg);
            assert(g.gestures.deep_view() =~= gbefore.push(cv));
            let ghost gv = g.deep_view();
            put_group(&mut groups, j, g);
            assert(before.remove(j as int).insert(j as int, gv) =~= before.update(j as int, gv));
        } else {
            assert(!exists|c: int| is_first_same_apps(before, lgv.apps, c));
            let mut gs: Vec<GestureCfg> = Vec::new();
            let ghost cv = cfg.deep_view();
            gs.push(cfg);
            assert(gs.deep_view() =~= seq![cv]);
            let g = GroupCfg {
                name: legacy_name(&lg.apps),
                apps: copy_strings(lg.apps.as_slice()),
                enabled: true,
                gestures: gs,
            };
            let ghost gv = g.deep_view();
            groups.push(g);
            assert(groups.deep_view() =~= before.push(gv));
        }
    }
    assert(gestures.deep_view().take(n as int) =~= gestures.deep_view());
    groups
}

/// The configuration that a file's text stands for, given what it parses as: a grouped
/// configuration with at least one group is taken as it is; otherwise the text's legacy form
/// (a switch and a flat gesture list, or else a bare gesture list, switched on) is regrouped.
/// `None` when the text is none of these.
pub fn config_from_parses(
    modern: Option<Config>,
    legacy: Option<LegacyConfig>,
    bare: Option<Vec<LegacyGestureCfg>>,
) -> (r: Option<Config>)
    ensures
        modern matches Some(c) && c.groups@.len() > 0 ==> r == modern,
        !(modern matches Some(c) && c.groups@.len() > 0) ==> match legacy {
            Some(l) => r is Some && r->Some_0.deep_view() == (ConfigView {
                enabled: l.enabled,
                lang: Lang::En,
                groups: legacy_groups(l.gestures.deep_view()),
            }),
            None => match bare {
                Some(list) => r is Some && r->Some_0.deep_view() == (ConfigView {
                    enabled: true,
                    lang: Lang::En,
                    groups: legacy_groups(list.deep_view()),
                }),
                None => r is None,
            },
        },
{
    if let Some(c) = &modern {
        if c.groups.len() > 0 {
            return modern;
        }
    }
    match legacy {
        Some(l) => Some(Config { enabled: l.enabled, lang: Lang::En, groups: group_legacy(&l.gestures) }),
        None => match bare {
            Some(list) => Some(Config { enabled: true, lang: Lang::En, groups: group_legacy(&list) }),
            None => None,
        },
    }
}

/// Each configured gesture with its group's apps and switch, groups in order.
pub open spec fn flat_entries(groups: Seq<GroupCfgView>) -> Seq<(GestureCfgView, Seq<Seq<char>>, bool)>
    decreases groups.len(),
{
    if groups.len() == 0 {
        Seq::empty()
    } else {
        let g = groups.last();
        flat_entries(groups.drop_last()) + g.gestures.map_values(
            |c: GestureCfgView| (c, g.apps, g.enabled),
        )
    }
}

pub open spec fn entry_resolves(e: (GestureCfgView, Seq<Seq<char>>, bool)) -> bool {
    all_keys_resolve(e.0.keys)
}

pub open spec fn entry_gesture(e: (GestureCfgView, Seq<Seq<char>>, bool)) -> GestureView {
    gesture_from_cfg(e.0, e.1, e.2)
}

/// Entry `k` is the first whose keys do not all resolve, and `name` is its first bad key.
pub open spec fn first_bad_key(
    es: Seq<(GestureCfgView, Seq<Seq<char>>, bool)>,
    k: int,
    name: Seq<char>,
) -> bool {
    &&& 0 <= k < es.len()
    &&& forall|m: int| 0 <= m < k ==> entry_resolves(#[trigger] es[m])
    &&& exists|i: int| is_first_unresolved(es[k].0.keys, i) && name == (#[trigger] es[k].0.keys[i])
}

/// Every entry's keys resolve.
pub open spec fn all_resolve(es: Seq<(GestureCfgView, Seq<Seq<char>>, bool)>) -> bool {
    forall|k: int| 0 <= k < es.len() ==> entry_resolves(#[trigger] es[k])
}

/// Law: flattening gives one gesture per configured gesture over all groups, and a gesture
/// of a switched-off group is always switched off.
pub proof fn lemma_flat_entries(groups: Seq<GroupCfgView>)
    ensures
        flat_entries(groups).len() == gesture_count(groups),
        forall|k: int|
            0 <= k < flat_entries(groups).len() && !(#[trigger] flat_entries(groups)[k]).2
                ==> !entry_gesture(flat_entries(groups)[k]).enabled,
    decreases groups.len(),
{
    if groups.len() > 0 {
        lemma_flat_entries(groups.drop_last());
    }
}

/// All gestures of all groups, resolved, in order; the first bad key name fails it.
pub fn flatten_groups(groups: &[GroupCfg]) -> (r: Result<Vec<Gesture>, UnknownKey>)
    ensures
        all_resolve(flat_entries(groups.deep_view())) ==> r is Ok && r->Ok_0.deep_view()
            == flat_entries(groups.deep_view()).map_values(
            |e: (GestureCfgView, Seq<Seq<char>>, bool)| entry_gesture(e),
        ),
        !all_resolve(flat_entries(groups.deep_view())) ==> r is Err,
        r is Err ==> exists|k: int|
            first_bad_key(flat_entries(groups.deep_view()), k, r->Err_0.name@),
{
    let ghost gv = groups.deep_view();
    let mut out: Vec<Gesture> = Vec::new();
    let n = groups.len();
    for gi in 0..n
        invariant
            n == gv.len(),
            gv == groups.deep_view(),
            all_resolve(flat_entries(gv.take(gi as int))),
            out.deep_view() == flat_entries(gv.take(gi as int)).map_values(
                |e: (GestureCfgView, Seq<Seq<char>>, bool)| entry_gesture(e),
            ),
    {
        let grp = &groups[gi];
        let ghost g = gv[gi as int];
        assert(grp.deep_view() == g);
        let ghost done = flat_entries(gv.take(gi as int));
        let ghost mine = g.gestures.map_values(|c: GestureCfgView| (c, g.apps, g.enabled));
        assert(gv.take(gi + 1).drop_last() =~= gv.take(gi as int));
        assert(flat_entries(gv.take(gi + 1)) == done + mine);
        let m = grp.gestures.len();
        for j in 0..m
            invariant
                n == gv.len(),
                gi < n,
                gv == groups.deep_view(),
                g == gv[gi as int],
                g == grp.deep_view(),
                m == g.gestures.len(),
                done == flat_entries(gv.take(gi as int)),
                mine == g.gestures.map_values(|c: GestureCfgView| (c, g.apps, g.enabled)),
                flat_entries(gv.take(gi + 1)) == done + mine,
                all_resolve(done),
                all_resolve(mine.take(j as int)),
                out.deep_view() == (done + mine.take(j as int)).map_values(
                    |e: (GestureCfgView, Seq<Seq<char>>, bool)| entry_gesture(e),
                ),
        {
            let ghost e = mine[j as int];
            assert(e.0 == grp.gestures[j as int].deep_view());
            assert(e.1 == grp.apps.deep_view() && e.2 == grp.enabled);
            match Gesture::from_cfg(&grp.gestures[j], grp.apps.as_slice(), grp.enabled) {
                Ok(gest) => {
                    let ghost before = out.deep_view();
                    out.push(gest);
                    assert(out.deep_view() =~= before.push(entry_gesture(e)));
                    assert((done + mine.take(j + 1)) =~= (done + mine.take(j as int)).push(e));
                    assert(mine.take(j + 1) =~= mine.take(j as int).push(e));
                    assert(out.deep_view() =~= (done + mine.take(j + 1)).map_values(
                        |e: (GestureCfgView, Seq<Seq<char>>, bool)| entry_gesture(e),
                    ));
                },
                Err(err) => {
                    let ghost ename = err.name@;
                    let ghost es = flat_entries(gv);
                    proof {
                        let k = done.len() + j;
                        let whole = done + mine;
                        lemma_flat_prefix(gv, gi as int + 1);
                        assert(es.take(whole.len() as int) == whole);
                        assert(es.take(whole.len() as int)[k] == es[k]);
                        assert(whole[k] == e);
                        assert forall|q: int| 0 <= q < k implies entry_resolves(#[trigger] es[q]) by {
                            assert(es.take(whole.len() as int)[q] == es[q]);
                            if q < done.len() {
                                assert(whole[q] == done[q]);
                            } else {
                                assert(whole[q] == mine[q - done.len()]);
                                assert(mine.take(j as int)[q - done.len()] == mine[q - done.len()]);
                            }
                        }
                        assert(first_bad_key(es, k, err.name@));
                        assert(!entry_resolves(es[k]));
                        assert(exists|k2: int| first_bad_key(flat_entries(groups.deep_view()), k2, ename));
                    }
                    let res: Result<Vec<Gesture>, UnknownKey> = Err(err);
                    assert(res->Err_0.name@ == ename);
                    return res;
                },
            }
        }
        assert(mine.take(m as int) =~= mine);
        assert forall|k: int| 0 <= k < (done + mine).len() implies entry_resolves(
            #[trigger] (done + mine)[k],
        ) by {
            if k < done.len() {
                assert((done + mine)[k] == done[k]);
            } else {
                assert((done + mine)[k] == mine[k - done.len()]);
            }
        }
    }
    assert(gv.take(n as int) =~= gv);
    Ok(out)
}

/// The entries of the first groups are a prefix of the entries of all groups.
proof fn lemma_flat_prefix(groups: Seq<GroupCfgView>, k: int)
    requires
        0 <= k <= groups.len(),
    ensures
        flat_entries(groups).take(flat_entries(groups.take(k)).len() as int) == flat_entries(
            groups.take(k),
        ),
        flat_entries(groups.take(k)).len() <= flat_entries(groups).len(),
    decreases groups.len() - k,
{
    if k == groups.len() {
        assert(groups.take(k) =~= groups);
        assert(flat_entries(groups).take(flat_entries(groups).len() as int) =~= flat_entries(groups));
    } else {
        lemma_flat_prefix(groups, k + 1);
        let a = flat_entries(groups.take(k));
        let g = groups.take(k + 1).last();
        assert(groups.take(k + 1).drop_last() =~= groups.take(k));
        let b = a + g.gestures.map_values(|c: GestureCfgView| (c, g.apps, g.enabled));
        assert(flat_entries(groups.take(k + 1)) == b);
        assert(b.take(a.len() as int) =~= a);
        assert(flat_entries(groups).take(a.len() as int) =~= flat_entries(groups).take(b.len() as int).take(a.len() as int));
    }
}

/// The base directory of per-user configuration: `$XDG_CONFIG_HOME`, else `$HOME/.config`,
/// else `./.config`.
pub open spec fn config_home(xdg: Option<Seq<char>>, home: Option<Seq<char>>) -> Seq<char> {
    match xdg {
        Some(x) => x,
        None => path_join(
            match home {
                Some(h) => h,
                None => "."@,
            },
            ".config"@,
        ),
    }
}

/// Computes the per-user configuration directory from the environment's values
/// (`None` where a variable is unset or not unicode).
pub fn config_home_from(xdg: Option<String>, home: Option<String>) -> (r: String)
    ensures
        r@ == config_home(xdg.deep_view(), home.deep_view()),
{
    match xdg {
        Some(x) => x,
        None => {
            let h = match home {
                Some(h) => h,
                None => owned("."),
            };
            join_path(h, ".config")
        },
    }
}

/// Where the configuration file lives: `$ARCGLYPH_CONFIG` when set, else
/// `arcglyph/arcglyph.yaml` in the per-user configuration directory.
pub open spec fn config_path_spec(
    explicit: Option<Seq<char>>,
    xdg: Option<Seq<char>>,
    home: Option<Seq<char>>,
) -> Seq<char> {
    match explicit {
        Some(p) => p,
        None => path_join(path_join(config_home(xdg, home), "arcglyph"@), "arcglyph.yaml"@),
    }
}

/// The configuration file's path, from the values of `ARCGLYPH_CONFIG`, `XDG_CONFIG_HOME`
/// and `HOME`.
pub fn config_path_from(explicit: Option<String>, xdg: Option<String>, home: Option<String>) -> (r: String)
    ensures
        r@ == config_path_spec(explicit.deep_view(), xdg.deep_view(), home.deep_view()),
{
    match explicit {
        Some(p) => p,
        None => {
            let base = config_home_from(xdg, home);
            join_path(join_path(base, "arcglyph"), "arcglyph.yaml")
        },
    }
}

pub open spec fn preset(label: Seq<char>, pattern: Seq<char>, keys: Seq<Seq<char>>) -> GestureCfgView {
    GestureCfgView { label: Some(label), pattern, keys, enabled: true }
}

/// The configuration used when there is no file: one enabled "Browser" group for Chrome,
/// Chromium and Edge with back, forward, top, bottom, close tab, reopen tab and reload.
pub open spec fn default_config_view() -> ConfigView {
    ConfigView {
        enabled: true,
        lang: Lang::En,
        groups: seq![
            GroupCfgView {
                name: "Browser"@,
                apps: seq!["google-chrome"@, "chromium"@, "microsoft-edge"@],
                enabled: true,
                gestures: seq![
                    preset("Back"@, "4"@, seq!["LEFTALT"@, "LEFT"@]),
                    preset("Forward"@, "6"@, seq!["LEFTALT"@, "RIGHT"@]),
                    preset("Scroll to top"@, "8"@, seq!["HOME"@]),
                    preset("Scroll to bottom"@, "2"@, seq!["END"@]),
                    preset("Close tab"@, "26"@, seq!["LEFTCTRL"@, "W"@]),
                    preset("Reopen closed tab"@, "24"@, seq!["LEFTCTRL"@, "LEFTSHIFT"@, "T"@]),
                    preset("Reload"@, "46"@, seq!["F5"@]),
                ],
            },
        ],
    }
}

fn preset_cfg(label: &str, pattern: &str, keys: Vec<String>) -> (g: GestureCfg)
    ensures
        g.deep_view() == preset(label@, pattern@, keys.deep_view()),
{
    GestureCfg { label: Some(owned(label)), pattern: owned(pattern), keys, enabled: true }
}

fn one(a: &str) -> (r: Vec<String>)
    ensures
        r.deep_view() == seq![a@],
{
    let mut r: Vec<String> = Vec::new();
    r.push(owned(a));
    assert(r.deep_view() =~= seq![a@]);
    r
}

fn two(a: &str, b: &str) -> (r: Vec<String>)
    ensures
        r.deep_view() == seq![a@, b@],
{
    let mut r = one(a);
    let ghost before = r.deep_view();
    r.push(owned(b));
    assert(r.deep_view() =~= before.push(b@));
    assert(r.deep_view() =~= seq![a@, b@]);
    r
}

fn three(a: &str, b: &str, c: &str) -> (r: Vec<String>)
    ensures
        r.deep_view() == seq![a@, b@, c@],
{
    let mut r = two(a, b);
    let ghost before = r.deep_view();
    r.push(owned(c));
    assert(r.deep_view() =~= before.push(c@));
    assert(r.deep_view() =~= seq![a@, b@, c@]);
    r
}

/// The configuration used when no file exists yet.
pub fn default_config() -> (c: Config)
    ensures
        c.deep_view() == default_config_view(),
{
    let apps = three("google-chrome", "chromium", "microsoft-edge");
    let mut gestures: Vec<GestureCfg> = Vec::new();
    gestures.push(preset_cfg("Back", "4", two("LEFTALT", "LEFT")));
    gestures.push(preset_cfg("Forward", "6", two("LEFTALT", "RIGHT")));
    gestures.push(preset_cfg("Scroll to top", "8", one("HOME")));
    gestures.push(preset_cfg("Scroll to bottom", "2", one("END")));
    gestures.push(preset_cfg("Close tab", "26", two("LEFTCTRL", "W")));
    gestures.push(preset_cfg("Reopen closed tab", "24", three("LEFTCTRL", "LEFTSHIFT", "T")));
    gestures.push(preset_cfg("Reload", "46", one("F5")));
    let mut groups: Vec<GroupCfg> = Vec::new();
    groups.push(GroupCfg { name: owned("Browser"), apps, enabled: true, gestures });
    let c = Config { enabled: true, lang: Lang::En, groups };
    assert(c.deep_view().groups[0].apps =~= default_config_view().groups[0].apps);
    assert(c.deep_view().groups[0].gestures =~= default_config_view().groups[0].gestures);
    assert(c.deep_view().groups =~= default_config_view().groups);
    c
}

} // verus!
