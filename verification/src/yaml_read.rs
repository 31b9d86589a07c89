use vstd::prelude::*;

use crate::config::{ConfigView, GestureCfgView, GroupCfgView, Lang};
use crate::text::{has_prefix, join_seqs};
use crate::yaml::{
    bool_text, config_text, escaped, flow_list, gesture_fields, gesture_line, gestures_text,
    group_text, groups_text, lang_text, lemma_read_escaped, plain_safe, read_quoted,
    safe_plain_char, scalar_text, HEADER,
};

verus! {

/// `t` after its first `p.len()` chars.
pub open spec fn after(t: Seq<char>, p: Seq<char>) -> Seq<char> {
    t.subrange(p.len() as int, t.len() as int)
}

/// The run of chars at the start of `t` that a plain scalar may hold.
pub open spec fn plain_run(t: Seq<char>) -> Seq<char>
    decreases t.len(),
{
    if t.len() > 0 && safe_plain_char(t[0]) {
        seq![t[0]] + plain_run(t.drop_first())
    } else {
        Seq::empty()
    }
}

/// Reads the scalar at the start of `t` as a string: a double-quoted scalar, or a plain one
/// that YAML takes for a string (not a number, boolean or null). Gives the string and the text
/// after it.
#[verifier::opaque]
pub open spec fn read_scalar(t: Seq<char>) -> Option<(Seq<char>, Seq<char>)> {
    if t.len() > 0 && t[0] == '"' {
        read_quoted(t.drop_first())
    } else {
        let p = plain_run(t);
        if plain_safe(p) {
            Some((p, t.subrange(p.len() as int, t.len() as int)))
        } else {
            None
        }
    }
}

/// Reads the items of a flow list after its `[`: scalars separated by `, `, up to the `]`.
#[verifier::opaque]
pub open spec fn read_items(t: Seq<char>) -> Option<(Seq<Seq<char>>, Seq<char>)>
    decreases t.len(),
{
    match read_scalar(t) {
        Some(p) => if has_prefix(p.1, "]"@) {
            Some((seq![p.0], after(p.1, "]"@)))
        } else if has_prefix(p.1, ", "@) && after(p.1, ", "@).len() < t.len() {
            match read_items(after(p.1, ", "@)) {
                Some(q) => Some((seq![p.0] + q.0, q.1)),
                None => None,
            }
        } else {
            None
        },
        None => None,
    }
}

/// Reads a flow list of scalars, `[]` or `[a, b, ...]`.
#[verifier::opaque]
pub open spec fn read_flow_list(t: Seq<char>) -> Option<(Seq<Seq<char>>, Seq<char>)> {
    if has_prefix(t, "[]"@) {
        Some((Seq::empty(), after(t, "[]"@)))
    } else if has_prefix(t, "["@) {
        read_items(after(t, "["@))
    } else {
        None
    }
}

#[verifier::spinoff_prover]
proof fn lemma_after(p: Seq<char>, x: Seq<char>)
    ensures
        has_prefix(p + x, p),
        after(p + x, p) == x,
{
    assert((p + x).subrange(0, p.len() as int) =~= p);
    assert(after(p + x, p) =~= x);
}

#[verifier::spinoff_prover]
proof fn lemma_plain_run(s: Seq<char>, rest: Seq<char>)
    requires
        forall|i: int| 0 <= i < s.len() ==> safe_plain_char(#[trigger] s[i]),
        rest.len() == 0 || !safe_plain_char(rest[0]),
    ensures
        plain_run(s + rest) == s,
    decreases s.len(),
{
    if s.len() == 0 {
        assert(s + rest =~= rest);
        assert(s =~= Seq::<char>::empty());
    } else {
        assert((s + rest).drop_first() =~= s.drop_first() + rest);
        lemma_plain_run(s.drop_first(), rest);
        assert(s =~= seq![s[0]] + s.drop_first());
    }
}

/// Law: a string written as a scalar reads back as the same string, when a char that cannot
/// continue a plain scalar (a comma, bracket, brace, space or line break) follows it; what
/// follows is left untouched.
#[verifier::spinoff_prover]
pub proof fn lemma_read_scalar(s: Seq<char>, rest: Seq<char>)
    requires
        rest.len() > 0,
        !safe_plain_char(rest[0]),
    ensures
        read_scalar(scalar_text(s) + rest) == Some((s, rest)),
{
    reveal(scalar_text);
    reveal(read_scalar);
    let t = scalar_text(s) + rest;
    if plain_safe(s) {
        assert(!safe_plain_char('"'));
        assert(t[0] == s[0]);
        lemma_plain_run(s, rest);
        assert(t.subrange(s.len() as int, t.len() as int) =~= rest);
    } else {
        lemma_read_escaped(s, rest);
        assert(t.drop_first() =~= escaped(s) + seq!['"'] + rest);
    }
}

#[verifier::spinoff_prover]
proof fn lemma_join_front(a: Seq<char>, tail: Seq<Seq<char>>, sep: Seq<char>)
    requires
        tail.len() > 0,
    ensures
        join_seqs(seq![a] + tail, sep) == a + sep + join_seqs(tail, sep),
    decreases tail.len(),
{
    let l = seq![a] + tail;
    if tail.len() == 1 {
        assert(l.drop_last() =~= seq![a]);
        assert(join_seqs(seq![a], sep) == a);
        assert(l.last() == tail[0]);
        assert(join_seqs(l, sep) == join_seqs(l.drop_last(), sep) + sep + l.last());
        assert(join_seqs(tail, sep) == tail[0]);
    } else {
        lemma_join_front(a, tail.drop_last(), sep);
        assert(l.drop_last() =~= seq![a] + tail.drop_last());
        assert(l.last() == tail.last());
        assert(a + sep + join_seqs(tail, sep) =~= a + sep + join_seqs(tail.drop_last(), sep) + sep
            + tail.last());
    }
}

#[verifier::spinoff_prover]
proof fn lemma_read_items(items: Seq<Seq<char>>, rest: Seq<char>)
    requires
        items.len() > 0,
    ensures
        read_items(join_seqs(items.map_values(|x: Seq<char>| scalar_text(x)), ", "@) + "]"@ + rest)
            == Some((items, rest)),
    decreases items.len(),
{
    reveal(read_items);
    reveal_strlit("]");
    reveal_strlit(", ");
    let x = items[0];
    let tail = items.drop_first();
    let texts = items.map_values(|x: Seq<char>| scalar_text(x));
    let t = join_seqs(texts, ", "@) + "]"@ + rest;
    if items.len() == 1 {
        assert(join_seqs(texts, ", "@) == scalar_text(x));
        lemma_read_scalar(x, "]"@ + rest);
        assert(t =~= scalar_text(x) + ("]"@ + rest));
        lemma_after("]"@, rest);
        assert(seq![x] =~= items);
        assert(read_items(t) == Some((items, rest)));
    } else {
        let tail_texts = tail.map_values(|x: Seq<char>| scalar_text(x));
        assert(texts =~= seq![scalar_text(x)] + tail_texts);
        lemma_join_front(scalar_text(x), tail_texts, ", "@);
        let r = ", "@ + join_seqs(tail_texts, ", "@) + "]"@ + rest;
        assert(t =~= scalar_text(x) + r);
        lemma_read_scalar(x, r);
        assert(", "@[0] == ',');
        assert(r[0] == ',');
        assert(!has_prefix(r, "]"@)) by {
            if has_prefix(r, "]"@) {
                assert(r.subrange(0, 1)[0] == r[0]);
            }
        }
        assert(r =~= ", "@ + (join_seqs(tail_texts, ", "@) + "]"@ + rest));
        lemma_after(", "@, join_seqs(tail_texts, ", "@) + "]"@ + rest);
        assert(after(r, ", "@) =~= join_seqs(tail_texts, ", "@) + "]"@ + rest);
        lemma_read_items(tail, rest);
        lemma_scalar_first(x);
        assert(after(r, ", "@).len() < t.len());
        assert(seq![x] + tail =~= items);
        assert(read_items(t) == Some((items, rest)));
    }
}

/// Law: a flow list written by the library reads back as its items.
#[verifier::spinoff_prover]
pub proof fn lemma_read_flow_list(items: Seq<Seq<char>>, rest: Seq<char>)
    ensures
        read_flow_list(flow_list(items) + rest) == Some((items, rest)),
{
    reveal(read_flow_list);
    reveal_strlit("[]");
    reveal_strlit("[");
    reveal_strlit("]");
    let texts = items.map_values(|x: Seq<char>| scalar_text(x));
    let t = flow_list(items) + rest;
    if items.len() == 0 {
        assert(texts.len() == 0);
        assert(join_seqs(texts, ", "@) == Seq::<char>::empty());
        assert(t =~= "[]"@ + rest);
        lemma_after("[]"@, rest);
        assert(items =~= Seq::<Seq<char>>::empty());
    } else {
        let body = join_seqs(texts, ", "@) + "]"@ + rest;
        assert(t =~= "["@ + body);
        lemma_read_items(items, rest);
        lemma_after("["@, body);
        assert(!has_prefix(t, "[]"@)) by {
            assert(texts[0] == scalar_text(items[0]));
            lemma_scalar_first(items[0]);
            lemma_join_starts(texts, ", "@);
            assert(body[0] == texts[0][0]);
            assert(t[1] == body[0]);
            assert(t.subrange(0, 2)[1] == t[1]);
        }
    }
}

#[verifier::spinoff_prover]
proof fn lemma_join_starts(texts: Seq<Seq<char>>, sep: Seq<char>)
    requires
        texts.len() > 0,
    ensures
        join_seqs(texts, sep).len() >= texts[0].len(),
        forall|k: int| 0 <= k < texts[0].len() ==> join_seqs(texts, sep)[k] == texts[0][k],
    decreases texts.len(),
{
    if texts.len() > 1 {
        lemma_join_starts(texts.drop_last(), sep);
    }
}

/// A written scalar begins with a quote or with a char of a plain scalar, never with one of
/// the marks that end a flow list, a field or a line.
#[verifier::spinoff_prover]
proof fn lemma_scalar_first(s: Seq<char>)
    ensures
        scalar_text(s).len() > 0,
        scalar_text(s)[0] == '"' || safe_plain_char(scalar_text(s)[0]),
{
    reveal(scalar_text);
}

/// Reads `label: x, ` at the start of a gesture's fields, when it is there.
#[verifier::opaque]
pub open spec fn read_label(t: Seq<char>) -> Option<(Option<Seq<char>>, Seq<char>)> {
    if has_prefix(t, "label: "@) {
        match read_scalar(after(t, "label: "@)) {
            Some(p) => if has_prefix(p.1, ", "@) {
                Some((Some(p.0), after(p.1, ", "@)))
            } else {
                None
            },
            None => None,
        }
    } else {
        Some((None, t))
    }
}

/// Reads `enabled: false, ` when it is there: the gesture's switch and the text after.
#[verifier::opaque]
pub open spec fn read_gesture_switch(t: Seq<char>) -> (bool, Seq<char>) {
    if has_prefix(t, "enabled: false"@) && has_prefix(after(t, "enabled: false"@), ", "@) {
        (false, after(after(t, "enabled: false"@), ", "@))
    } else {
        (true, t)
    }
}

/// Reads `pattern: p, keys: [..]`: the pattern, the key names and the text after.
#[verifier::opaque]
pub open spec fn read_pattern_keys(t: Seq<char>) -> Option<(Seq<char>, Seq<Seq<char>>, Seq<char>)> {
    if has_prefix(t, "pattern: "@) {
        match read_scalar(after(t, "pattern: "@)) {
            Some(p) => {
                let k = after(p.1, ", "@);
                if has_prefix(p.1, ", "@) && has_prefix(k, "keys: "@) {
                    match read_flow_list(after(k, "keys: "@)) {
                        Some(l) => Some((p.0, l.0, l.1)),
                        None => None,
                    }
                } else {
                    None
                }
            },
            None => None,
        }
    } else {
        None
    }
}

/// Reads a gesture written as a flow mapping, `- { label: .., enabled: false, pattern: ..,
/// keys: [..] }`, where the label and the switch may be left out.
#[verifier::opaque]
pub open spec fn read_gesture(t: Seq<char>) -> Option<(GestureCfgView, Seq<char>)> {
    if has_prefix(t, "- { "@) {
        match read_label(after(t, "- { "@)) {
            Some(l) => {
                let sw = read_gesture_switch(l.1);
                match read_pattern_keys(sw.1) {
                    Some(pk) => if has_prefix(pk.2, " }"@) {
                        Some(
                            (
                                GestureCfgView {
                                    label: l.0,
                                    pattern: pk.0,
                                    keys: pk.1,
                                    enabled: sw.0,
                                },
                                after(pk.2, " }"@),
                            ),
                        )
                    } else {
                        None
                    },
                    None => None,
                }
            },
            None => None,
        }
    } else {
        None
    }
}

#[verifier::spinoff_prover]
proof fn lemma_not_prefix(t: Seq<char>, q: Seq<char>, i: int)
    requires
        0 <= i < q.len(),
        i < t.len(),
        t[i] != q[i],
    ensures
        !has_prefix(t, q),
{
    if has_prefix(t, q) {
        assert(t.subrange(0, q.len() as int)[i] == t[i]);
    }
}

#[verifier::spinoff_prover]
proof fn lemma_read_pattern_keys(p: Seq<char>, keys: Seq<Seq<char>>, rest: Seq<char>)
    ensures
        read_pattern_keys(
            "pattern: "@ + scalar_text(p) + ", "@ + ("keys: "@ + flow_list(keys)) + rest,
        ) == Some((p, keys, rest)),
{
    reveal(read_pattern_keys);
    reveal_strlit(", ");
    let t = "pattern: "@ + scalar_text(p) + ", "@ + ("keys: "@ + flow_list(keys)) + rest;
    let x = ", "@ + ("keys: "@ + (flow_list(keys) + rest));
    assert(t =~= "pattern: "@ + (scalar_text(p) + x));
    lemma_after("pattern: "@, scalar_text(p) + x);
    lemma_read_scalar(p, x);
    lemma_after(", "@, "keys: "@ + (flow_list(keys) + rest));
    lemma_after("keys: "@, flow_list(keys) + rest);
    lemma_read_flow_list(keys, rest);
}

#[verifier::spinoff_prover]
proof fn lemma_join_two(a: Seq<char>, b: Seq<char>, sep: Seq<char>)
    ensures
        join_seqs(seq![a, b], sep) == a + sep + b,
{
    lemma_join_front(a, seq![b], sep);
    assert(seq![a] + seq![b] =~= seq![a, b]);
    assert(join_seqs(seq![b], sep) == b);
}

/// The pattern and keys fields of a written gesture.
pub open spec fn pattern_keys_fields(g: GestureCfgView) -> Seq<Seq<char>> {
    seq!["pattern: "@ + scalar_text(g.pattern), "keys: "@ + flow_list(g.keys)]
}

/// The fields of a written gesture after its label.
pub open spec fn fields_after_label(g: GestureCfgView) -> Seq<Seq<char>> {
    if !g.enabled {
        seq!["enabled: false"@] + pattern_keys_fields(g)
    } else {
        pattern_keys_fields(g)
    }
}

#[verifier::spinoff_prover]
proof fn lemma_pattern_keys_start(g: GestureCfgView)
    ensures
        join_seqs(pattern_keys_fields(g), ", "@).len() > 0,
        join_seqs(pattern_keys_fields(g), ", "@)[0] == 'p',
{
    reveal_strlit("pattern: ");
    let pf = "pattern: "@ + scalar_text(g.pattern);
    let kf = "keys: "@ + flow_list(g.keys);
    lemma_join_two(pf, kf, ", "@);
    assert(pf[0] == 'p');
}

#[verifier::spinoff_prover]
proof fn lemma_read_pattern_keys_fields(g: GestureCfgView, rest: Seq<char>)
    ensures
        read_pattern_keys(join_seqs(pattern_keys_fields(g), ", "@) + " }"@ + rest) == Some(
            (g.pattern, g.keys, " }"@ + rest),
        ),
{
    let pf = "pattern: "@ + scalar_text(g.pattern);
    let kf = "keys: "@ + flow_list(g.keys);
    lemma_join_two(pf, kf, ", "@);
    lemma_read_pattern_keys(g.pattern, g.keys, " }"@ + rest);
    assert(pf + ", "@ + kf + (" }"@ + rest) =~= join_seqs(pattern_keys_fields(g), ", "@) + " }"@
        + rest);
}

#[verifier::spinoff_prover]
proof fn lemma_read_switch(g: GestureCfgView, rest: Seq<char>)
    ensures
        read_gesture_switch(join_seqs(fields_after_label(g), ", "@) + " }"@ + rest) == (
            g.enabled,
            join_seqs(pattern_keys_fields(g), ", "@) + " }"@ + rest,
        ),
        (join_seqs(fields_after_label(g), ", "@) + " }"@ + rest)[0] == 'p' || (join_seqs(
            fields_after_label(g),
            ", "@,
        ) + " }"@ + rest)[0] == 'e',
{
    reveal(read_gesture_switch);
    reveal_strlit("enabled: false");
    let ef = "enabled: false"@;
    let t = join_seqs(pattern_keys_fields(g), ", "@) + " }"@ + rest;
    lemma_pattern_keys_start(g);
    if !g.enabled {
        lemma_join_front(ef, pattern_keys_fields(g), ", "@);
        assert(join_seqs(fields_after_label(g), ", "@) + " }"@ + rest =~= ef + (", "@ + t));
        lemma_after(ef, ", "@ + t);
        lemma_after(", "@, t);
        assert(ef[0] == 'e');
    } else {
        assert(t[0] == 'p');
        lemma_not_prefix(t, ef, 0);
    }
}

#[verifier::spinoff_prover]
proof fn lemma_read_label(g: GestureCfgView, rest: Seq<char>)
    ensures
        read_label(join_seqs(gesture_fields(g), ", "@) + " }"@ + rest) == Some(
            (g.label, join_seqs(fields_after_label(g), ", "@) + " }"@ + rest),
        ),
{
    reveal(read_label);
    reveal_strlit("label: ");
    reveal_strlit(", ");
    let a = join_seqs(fields_after_label(g), ", "@) + " }"@ + rest;
    lemma_read_switch(g, rest);
    match g.label {
        Some(l) => {
            let lf = "label: "@ + scalar_text(l);
            assert(gesture_fields(g) =~= seq![lf] + fields_after_label(g));
            lemma_join_front(lf, fields_after_label(g), ", "@);
            let x = ", "@ + a;
            assert(join_seqs(gesture_fields(g), ", "@) + " }"@ + rest =~= "label: "@ + (scalar_text(l)
                + x));
            lemma_after("label: "@, scalar_text(l) + x);
            lemma_read_scalar(l, x);
            lemma_after(", "@, a);
        },
        None => {
            assert(gesture_fields(g) =~= fields_after_label(g));
            lemma_not_prefix(a, "label: "@, 0);
        },
    }
}

/// Law: a gesture written by the library reads back as the same gesture.
#[verifier::spinoff_prover]
pub proof fn lemma_read_gesture(g: GestureCfgView, rest: Seq<char>)
    ensures
        read_gesture(gesture_line(g) + rest) == Some((g, rest)),
{
    reveal(read_gesture);
    let body = join_seqs(gesture_fields(g), ", "@) + " }"@ + rest;
    assert(gesture_line(g) + rest =~= "- { "@ + body);
    lemma_after("- { "@, body);
    lemma_read_label(g, rest);
    lemma_read_switch(g, rest);
    lemma_read_pattern_keys_fields(g, rest);
    lemma_after(" }"@, rest);
}

/// Reads the gesture lines of a group, each indented by six spaces, as far as they go.
#[verifier::opaque]
pub open spec fn read_gesture_lines(t: Seq<char>) -> (Seq<GestureCfgView>, Seq<char>)
    decreases t.len(),
{
    if has_prefix(t, "      "@) {
        match read_gesture(after(t, "      "@)) {
            Some(e) => if has_prefix(e.1, "\n"@) && after(e.1, "\n"@).len() < t.len() {
                let r = read_gesture_lines(after(e.1, "\n"@));
                (seq![e.0] + r.0, r.1)
            } else {
                (Seq::empty(), t)
            },
            None => (Seq::empty(), t),
        }
    } else {
        (Seq::empty(), t)
    }
}

#[verifier::spinoff_prover]
proof fn lemma_gestures_text_front(g: GestureCfgView, gs: Seq<GestureCfgView>)
    ensures
        gestures_text(seq![g] + gs) == "      "@ + gesture_line(g) + "\n"@ + gestures_text(gs),
    decreases gs.len(),
{
    let l = seq![g] + gs;
    if gs.len() == 0 {
        assert(l =~= seq![g]);
        assert(l.drop_last() =~= Seq::<GestureCfgView>::empty());
        assert(l.last() == g);
        assert(gestures_text(Seq::<GestureCfgView>::empty()) == Seq::<char>::empty());
        assert(gestures_text(gs) == Seq::<char>::empty());
        assert(gestures_text(l) =~= "      "@ + gesture_line(g) + "\n"@ + gestures_text(gs));
    } else {
        lemma_gestures_text_front(g, gs.drop_last());
        assert(l.drop_last() =~= seq![g] + gs.drop_last());
        assert(l.last() == gs.last());
        assert(gestures_text(l) =~= "      "@ + gesture_line(g) + "\n"@ + gestures_text(gs));
    }
}

/// The gesture lines written for a group read back as its gestures, up to text that does not
/// start like a gesture line.
#[verifier::spinoff_prover]
pub proof fn lemma_read_gesture_lines(gs: Seq<GestureCfgView>, rest: Seq<char>)
    requires
        !has_prefix(rest, "      "@),
    ensures
        read_gesture_lines(gestures_text(gs) + rest) == (gs, rest),
    decreases gs.len(),
{
    reveal(read_gesture_lines);
    if gs.len() == 0 {
        assert(gestures_text(gs) + rest =~= rest);
        assert(gs =~= Seq::<GestureCfgView>::empty());
    } else {
        let g = gs[0];
        let tail = gs.drop_first();
        assert(gs =~= seq![g] + tail);
        lemma_gestures_text_front(g, tail);
        let x = "\n"@ + (gestures_text(tail) + rest);
        let t = gestures_text(gs) + rest;
        assert(t =~= "      "@ + (gesture_line(g) + x));
        lemma_after("      "@, gesture_line(g) + x);
        lemma_read_gesture(g, x);
        lemma_after("\n"@, gestures_text(tail) + rest);
        lemma_read_gesture_lines(tail, rest);
        assert(after(x, "\n"@).len() < t.len());
    }
}

/// Reads `    enabled: false` on a line of its own, when it is there: the group's switch.
#[verifier::opaque]
pub open spec fn read_group_switch(t: Seq<char>) -> (bool, Seq<char>) {
    if has_prefix(t, "    enabled: false\n"@) {
        (false, after(t, "    enabled: false\n"@))
    } else {
        (true, t)
    }
}

/// Reads `    apps: [..]` on a line of its own, when it is there; no line means no apps.
#[verifier::opaque]
pub open spec fn read_apps(t: Seq<char>) -> Option<(Seq<Seq<char>>, Seq<char>)> {
    if has_prefix(t, "    apps: "@) {
        match read_flow_list(after(t, "    apps: "@)) {
            Some(l) => if has_prefix(l.1, "\n"@) {
                Some((l.0, after(l.1, "\n"@)))
            } else {
                None
            },
            None => None,
        }
    } else {
        Some((Seq::empty(), t))
    }
}

/// Reads one group: its name line, its switch and apps lines when there, and its gestures.
#[verifier::opaque]
pub open spec fn read_group(t: Seq<char>) -> Option<(GroupCfgView, Seq<char>)> {
    if has_prefix(t, "  - name: "@) {
        match read_scalar(after(t, "  - name: "@)) {
            Some(n) => if has_prefix(n.1, "\n"@) {
                let sw = read_group_switch(after(n.1, "\n"@));
                match read_apps(sw.1) {
                    Some(a) => if has_prefix(a.1, "    gestures:\n"@) {
                        let gl = read_gesture_lines(after(a.1, "    gestures:\n"@));
                        Some(
                            (
                                GroupCfgView {
                                    name: n.0,
                                    apps: a.0,
                                    enabled: sw.0,
                                    gestures: gl.0,
                                },
                                gl.1,
                            ),
                        )
                    } else {
                        None
                    },
                    None => None,
                }
            } else {
                None
            },
            None => None,
        }
    } else {
        None
    }
}

/// Reads groups one after the other, as far as they go.
#[verifier::opaque]
pub open spec fn read_groups(t: Seq<char>) -> (Seq<GroupCfgView>, Seq<char>)
    decreases t.len(),
{
    match read_group(t) {
        Some(g) => if g.1.len() < t.len() {
            let r = read_groups(g.1);
            (seq![g.0] + r.0, r.1)
        } else {
            (Seq::empty(), t)
        },
        None => (Seq::empty(), t),
    }
}

/// The lines of a written group after its name line.
pub open spec fn group_lines_after_name(g: GroupCfgView) -> Seq<char> {
    (if !g.enabled {
        "    enabled: false\n"@
    } else {
        Seq::empty()
    }) + (if g.apps.len() > 0 {
        "    apps: "@ + flow_list(g.apps) + "\n"@
    } else {
        Seq::empty()
    }) + "    gestures:\n"@ + gestures_text(g.gestures)
}

#[verifier::spinoff_prover]
proof fn lemma_read_apps(g: GroupCfgView, rest: Seq<char>)
    requires
        !has_prefix(rest, "      "@),
    ensures
        read_apps(
            (if g.apps.len() > 0 {
                "    apps: "@ + flow_list(g.apps) + "\n"@
            } else {
                Seq::empty()
            }) + "    gestures:\n"@ + gestures_text(g.gestures) + rest,
        ) == Some((g.apps, "    gestures:\n"@ + gestures_text(g.gestures) + rest)),
{
    reveal(read_apps);
    reveal_strlit("    apps: ");
    reveal_strlit("    gestures:\n");
    let tail = "    gestures:\n"@ + gestures_text(g.gestures) + rest;
    if g.apps.len() > 0 {
        let t = "    apps: "@ + flow_list(g.apps) + "\n"@ + gestures_text(g.gestures) + rest;
        assert("    apps: "@ + flow_list(g.apps) + "\n"@ + "    gestures:\n"@ + gestures_text(
            g.gestures,
        ) + rest =~= "    apps: "@ + (flow_list(g.apps) + ("\n"@ + tail)));
        lemma_after("    apps: "@, flow_list(g.apps) + ("\n"@ + tail));
        lemma_read_flow_list(g.apps, "\n"@ + tail);
        lemma_after("\n"@, tail);
    } else {
        assert(Seq::<char>::empty() + "    gestures:\n"@ + gestures_text(g.gestures) + rest =~= tail);
        assert(tail[4] == 'g');
        lemma_not_prefix(tail, "    apps: "@, 4);
        assert(g.apps =~= Seq::<Seq<char>>::empty());
    }
}

#[verifier::spinoff_prover]
proof fn lemma_read_group_body(g: GroupCfgView, rest: Seq<char>)
    requires
        !has_prefix(rest, "      "@),
    ensures
        ({
            let t = group_lines_after_name(g) + rest;
            let sw = read_group_switch(t);
            &&& sw.0 == g.enabled
            &&& read_apps(sw.1) == Some((g.apps, "    gestures:\n"@ + gestures_text(g.gestures) + rest))
        }),
{
    reveal(read_group_switch);
    reveal_strlit("    enabled: false\n");
    reveal_strlit("    apps: ");
    reveal_strlit("    gestures:\n");
    let x = (if g.apps.len() > 0 {
        "    apps: "@ + flow_list(g.apps) + "\n"@
    } else {
        Seq::empty()
    }) + "    gestures:\n"@ + gestures_text(g.gestures) + rest;
    lemma_read_apps(g, rest);
    let t = group_lines_after_name(g) + rest;
    if !g.enabled {
        assert(t =~= "    enabled: false\n"@ + x);
        lemma_after("    enabled: false\n"@, x);
    } else {
        assert(t =~= x);
        if g.apps.len() > 0 {
            assert(x[4] == 'a');
        } else {
            assert(x[4] == 'g');
        }
        lemma_not_prefix(x, "    enabled: false\n"@, 4);
    }
}

/// Law: a group written by the library reads back as the same group.
#[verifier::spinoff_prover]
pub proof fn lemma_read_group(g: GroupCfgView, rest: Seq<char>)
    requires
        !has_prefix(rest, "      "@),
    ensures
        read_group(group_text(g) + rest) == Some((g, rest)),
{
    reveal(read_group);
    reveal_strlit("\n");
    let body = group_lines_after_name(g) + rest;
    let x = "\n"@ + body;
    let t = group_text(g) + rest;
    assert(t =~= "  - name: "@ + (scalar_text(g.name) + x));
    lemma_after("  - name: "@, scalar_text(g.name) + x);
    lemma_read_scalar(g.name, x);
    lemma_after("\n"@, body);
    lemma_read_group_body(g, rest);
    let a1 = "    gestures:\n"@ + gestures_text(g.gestures) + rest;
    assert(a1 =~= "    gestures:\n"@ + (gestures_text(g.gestures) + rest));
    lemma_after("    gestures:\n"@, gestures_text(g.gestures) + rest);
    lemma_read_gesture_lines(g.gestures, rest);
    let sw = read_group_switch(body);
    assert(sw.0 == g.enabled);
    assert(read_apps(sw.1) == Some((g.apps, a1)));
    assert(read_scalar(after(t, "  - name: "@)) == Some((g.name, x)));
}

#[verifier::spinoff_prover]
proof fn lemma_groups_text_front(g: GroupCfgView, gs: Seq<GroupCfgView>)
    ensures
        groups_text(seq![g] + gs) == group_text(g) + groups_text(gs),
    decreases gs.len(),
{
    let l = seq![g] + gs;
    if gs.len() == 0 {
        assert(l.drop_last() =~= Seq::<GroupCfgView>::empty());
        assert(l.last() == g);
        assert(groups_text(Seq::<GroupCfgView>::empty()) == Seq::<char>::empty());
        assert(groups_text(gs) == Seq::<char>::empty());
        assert(groups_text(l) =~= group_text(g) + groups_text(gs));
    } else {
        lemma_groups_text_front(g, gs.drop_last());
        assert(l.drop_last() =~= seq![g] + gs.drop_last());
        assert(l.last() == gs.last());
        assert(groups_text(l) =~= group_text(g) + groups_text(gs));
    }
}

#[verifier::spinoff_prover]
proof fn lemma_group_text_start(g: GroupCfgView, rest: Seq<char>)
    ensures
        (group_text(g) + rest).len() > 2,
        (group_text(g) + rest)[2] == '-',
{
    reveal_strlit("  - name: ");
    assert((group_text(g) + rest)[2] == "  - name: "@[2]);
}

#[verifier::spinoff_prover]
proof fn lemma_groups_not_gesture_line(gs: Seq<GroupCfgView>, rest: Seq<char>)
    requires
        !has_prefix(rest, "      "@),
    ensures
        !has_prefix(groups_text(gs) + rest, "      "@),
{
    reveal_strlit("      ");
    let r = groups_text(gs) + rest;
    if gs.len() > 0 {
        let g1 = gs[0];
        assert(gs =~= seq![g1] + gs.drop_first());
        lemma_groups_text_front(g1, gs.drop_first());
        lemma_group_text_start(g1, groups_text(gs.drop_first()) + rest);
        assert(r =~= group_text(g1) + (groups_text(gs.drop_first()) + rest));
        lemma_not_prefix(r, "      "@, 2);
    } else {
        assert(r =~= rest);
    }
}

/// The groups written by the library read back as the same groups, up to text that starts
/// neither a group nor a gesture line.
#[verifier::spinoff_prover]
pub proof fn lemma_read_groups(gs: Seq<GroupCfgView>, rest: Seq<char>)
    requires
        read_group(rest) is None,
        !has_prefix(rest, "      "@),
    ensures
        read_groups(groups_text(gs) + rest) == (gs, rest),
    decreases gs.len(),
{
    reveal(read_groups);
    if gs.len() == 0 {
        assert(groups_text(gs) + rest =~= rest);
        assert(gs =~= Seq::<GroupCfgView>::empty());
    } else {
        let g = gs[0];
        let tail = gs.drop_first();
        assert(gs =~= seq![g] + tail);
        lemma_groups_text_front(g, tail);
        let r = groups_text(tail) + rest;
        lemma_groups_not_gesture_line(tail, rest);
        lemma_read_group(g, r);
        lemma_read_groups(tail, rest);
        let t = groups_text(gs) + rest;
        assert(t =~= group_text(g) + r);
        lemma_group_text_start(g, r);
        assert(r.len() < t.len());
        assert(seq![g] + tail =~= gs);
    }
}

/// Reads `true` or `false`.
pub open spec fn read_bool(t: Seq<char>) -> Option<(bool, Seq<char>)> {
    if has_prefix(t, "true"@) {
        Some((true, after(t, "true"@)))
    } else if has_prefix(t, "false"@) {
        Some((false, after(t, "false"@)))
    } else {
        None
    }
}

/// Reads a language tag, `en` or `zh`.
pub open spec fn read_lang(t: Seq<char>) -> Option<(Lang, Seq<char>)> {
    if has_prefix(t, "en"@) {
        Some((Lang::En, after(t, "en"@)))
    } else if has_prefix(t, "zh"@) {
        Some((Lang::Zh, after(t, "zh"@)))
    } else {
        None
    }
}

/// Reads the configuration that follows the comment header: the switch, the language and
/// the groups, with nothing after them.
#[verifier::opaque]
pub open spec fn read_config_body(t: Seq<char>) -> Option<ConfigView> {
    if has_prefix(t, "enabled: "@) {
        match read_bool(after(t, "enabled: "@)) {
            Some(b) => {
                let t1 = after(b.1, "\n"@);
                if has_prefix(b.1, "\n"@) && has_prefix(t1, "lang: "@) {
                    match read_lang(after(t1, "lang: "@)) {
                        Some(l) => {
                            let t2 = after(l.1, "\n"@);
                            if has_prefix(l.1, "\n"@) && has_prefix(t2, "groups:\n"@) {
                                let gs = read_groups(after(t2, "groups:\n"@));
                                if gs.1.len() == 0 {
                                    Some(ConfigView { enabled: b.0, lang: l.0, groups: gs.0 })
                                } else {
                                    None
                                }
                            } else {
                                None
                            }
                        },
                        None => None,
                    }
                } else {
                    None
                }
            },
            None => None,
        }
    } else {
        None
    }
}

#[verifier::spinoff_prover]
proof fn lemma_read_bool(b: bool, rest: Seq<char>)
    ensures
        read_bool(bool_text(b) + rest) == Some((b, rest)),
{
    reveal_strlit("true");
    reveal_strlit("false");
    lemma_after(bool_text(b), rest);
    if !b {
        lemma_not_prefix(bool_text(b) + rest, "true"@, 0);
    }
}

#[verifier::spinoff_prover]
proof fn lemma_read_lang(l: Lang, rest: Seq<char>)
    ensures
        read_lang(lang_text(l) + rest) == Some((l, rest)),
{
    reveal_strlit("en");
    reveal_strlit("zh");
    lemma_after(lang_text(l), rest);
    if l == Lang::Zh {
        lemma_not_prefix(lang_text(l) + rest, "en"@, 0);
    }
}

#[verifier::spinoff_prover]
proof fn lemma_read_all_groups(gs: Seq<GroupCfgView>)
    ensures
        read_groups(groups_text(gs)) == (gs, Seq::<char>::empty()),
{
    reveal(read_group);
    reveal_strlit("      ");
    reveal_strlit("  - name: ");
    assert(groups_text(gs) + Seq::<char>::empty() =~= groups_text(gs));
    lemma_read_groups(gs, Seq::<char>::empty());
}

/// The text of the configuration after the `enabled` line.
pub open spec fn lang_and_groups_text(c: ConfigView) -> Seq<char> {
    "lang: "@ + lang_text(c.lang) + "\n"@ + ("groups:\n"@ + groups_text(c.groups))
}

#[verifier::spinoff_prover]
proof fn lemma_read_lang_and_groups(c: ConfigView)
    ensures
        ({
            let t1 = lang_and_groups_text(c);
            &&& has_prefix(t1, "lang: "@)
            &&& read_lang(after(t1, "lang: "@)) matches Some(l) && l.0 == c.lang && has_prefix(
                l.1,
                "\n"@,
            ) && has_prefix(after(l.1, "\n"@), "groups:\n"@) && read_groups(
                after(after(l.1, "\n"@), "groups:\n"@),
            ) == (c.groups, Seq::<char>::empty())
        }),
{
    let groups = "groups:\n"@ + groups_text(c.groups);
    let t1 = lang_and_groups_text(c);
    assert(t1 =~= "lang: "@ + (lang_text(c.lang) + ("\n"@ + groups)));
    lemma_after("lang: "@, lang_text(c.lang) + ("\n"@ + groups));
    lemma_read_lang(c.lang, "\n"@ + groups);
    lemma_after("\n"@, groups);
    lemma_after("groups:\n"@, groups_text(c.groups));
    lemma_read_all_groups(c.groups);
}

/// The text of the configuration after the comment header.
pub open spec fn body_text(c: ConfigView) -> Seq<char> {
    "enabled: "@ + bool_text(c.enabled) + "\n"@ + lang_and_groups_text(c)
}

#[verifier::spinoff_prover]
proof fn lemma_read_body(c: ConfigView)
    ensures
        read_config_body(body_text(c)) == Some(c),
{
    reveal(read_config_body);
    let rest = lang_and_groups_text(c);
    let body = body_text(c);
    assert(body =~= "enabled: "@ + (bool_text(c.enabled) + ("\n"@ + rest)));
    lemma_after("enabled: "@, bool_text(c.enabled) + ("\n"@ + rest));
    lemma_read_bool(c.enabled, "\n"@ + rest);
    lemma_after("\n"@, rest);
    lemma_read_lang_and_groups(c);
}

/// Law: what the library writes reads back as what it wrote: the written file is the comment
/// header followed by a body that a YAML reader of these block and flow forms (with the
/// scalars of `read_scalar`) takes for exactly the configuration that was written.
#[verifier::spinoff_prover]
pub proof fn lemma_config_text_reads_back(c: ConfigView)
    ensures
        has_prefix(config_text(c), HEADER@),
        read_config_body(after(config_text(c), HEADER@)) == Some(c),
{
    assert(config_text(c) == HEADER@ + body_text(c)) by {
        assert(config_text(c) =~= HEADER@ + body_text(c));
    }
    lemma_after(HEADER@, body_text(c));
    lemma_read_body(c);
}

} // verus!
