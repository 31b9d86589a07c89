use vstd::prelude::*;

use crate::config::{Config, ConfigView, GestureCfg, GestureCfgView, GroupCfg, GroupCfgView, Lang};
use crate::text::{ascii_lower, chars_of, join, join_seqs, lower_all, owned, same, string_of};

verus! {

broadcast use vstd::string::group_string_axioms;

pub open spec fn is_digit(c: char) -> bool {
    '0' <= c && c <= '9'
}

pub open spec fn is_exp_mark(c: char) -> bool {
    c == 'e' || c == 'E'
}

/// Digits with at most one decimal point, and at least one digit.
pub open spec fn valid_mantissa(m: Seq<char>) -> bool {
    &&& forall|i: int| 0 <= i < m.len() ==> is_digit(#[trigger] m[i]) || m[i] == '.'
    &&& forall|i: int, j: int| 0 <= i < j < m.len() && #[trigger] m[i] == '.' ==> #[trigger] m[j] != '.'
    &&& exists|i: int| 0 <= i < m.len() && is_digit(#[trigger] m[i])
}

/// `e` or `E`, an optional sign, and at least one digit.
pub open spec fn valid_exponent(x: Seq<char>) -> bool {
    let start: int = if x.len() > 1 && (x[1] == '+' || x[1] == '-') {
        2
    } else {
        1
    };
    &&& x.len() >= 1
    &&& is_exp_mark(x[0])
    &&& x.len() > start
    &&& forall|i: int| start <= i < x.len() ==> is_digit(#[trigger] x[i])
}

/// A decimal number: a mantissa, then an optional exponent.
pub open spec fn decimal_literal(b: Seq<char>) -> bool {
    exists|k: int|
        #![trigger b.subrange(0, k)]
        0 <= k <= b.len() && (forall|j: int| 0 <= j < k ==> !is_exp_mark(#[trigger] b[j])) && (k
            < b.len() ==> is_exp_mark(b[k])) && valid_mantissa(b.subrange(0, k)) && (k == b.len()
            || valid_exponent(b.subrange(k, b.len() as int)))
}

/// The text is one that std's `f64::from_str` accepts: an optional sign, then `inf`,
/// `infinity` or `nan` in any letter case, or a decimal number.
pub open spec fn parses_as_float(s: Seq<char>) -> bool {
    let body = if s.len() > 0 && (s[0] == '+' || s[0] == '-') {
        s.drop_first()
    } else {
        s
    };
    &&& body.len() > 0
    &&& {
        ||| ascii_lower(body) == seq!['i', 'n', 'f']
        ||| ascii_lower(body) == seq!['i', 'n', 'f', 'i', 'n', 'i', 't', 'y']
        ||| ascii_lower(body) == seq!['n', 'a', 'n']
        ||| decimal_literal(body)
    }
}

fn is_digit_exec(c: char) -> (r: bool)
    ensures
        r == is_digit(c),
{
    '0' <= c && c <= '9'
}

fn valid_exponent_exec(b: &[char], k: usize) -> (r: bool)
    requires
        k < b@.len(),
    ensures
        r == valid_exponent(b@.subrange(k as int, b@.len() as int)),
{
    let ghost x = b@.subrange(k as int, b@.len() as int);
    let n = b.len();
    if !(b[k] == 'e' || b[k] == 'E') {
        return false;
    }
    let start: usize = if n - k > 1 && (b[k + 1] == '+' || b[k + 1] == '-') {
        k + 2
    } else {
        k + 1
    };
    proof {
        assert(x[0] == b@[k as int]);
        if n - k > 1 {
            assert(x[1] == b@[k + 1]);
        }
        let spec_start: int = if x.len() > 1 && (x[1] == '+' || x[1] == '-') {
            2
        } else {
            1
        };
        assert(start - k == spec_start);
    }
    if start >= n {
        return false;
    }
    let mut i: usize = start;
    while i < n
        invariant
            k < start <= i <= n,
            n == b@.len(),
            x == b@.subrange(k as int, n as int),
            start - k == (if x.len() > 1 && (x[1] == '+' || x[1] == '-') {
                2int
            } else {
                1int
            }),
            is_exp_mark(x[0]),
            forall|q: int| start <= q < i ==> is_digit(#[trigger] b@[q]),
        decreases n - i,
    {
        if !is_digit_exec(b[i]) {
            assert(x[i - k] == b@[i as int]);
            return false;
        }
        i = i + 1;
    }
    assert forall|q: int| (start - k) <= q < x.len() implies is_digit(#[trigger] x[q]) by {
        assert(x[q] == b@[q + k]);
    }
    true
}

fn valid_mantissa_exec(b: &[char], k: usize) -> (r: bool)
    requires
        k <= b@.len(),
    ensures
        r == valid_mantissa(b@.subrange(0, k as int)),
{
    let ghost m = b@.subrange(0, k as int);
    let mut dots: usize = 0;
    let mut digits: bool = false;
    let mut i: usize = 0;
    while i < k
        invariant
            i <= k <= b@.len(),
            m == b@.subrange(0, k as int),
            dots <= 1,
            forall|q: int| 0 <= q < i ==> is_digit(#[trigger] m[q]) || m[q] == '.',
            dots == 0 ==> forall|q: int| 0 <= q < i ==> #[trigger] m[q] != '.',
            dots == 1 ==> exists|q: int| 0 <= q < i && #[trigger] m[q] == '.' && forall|p: int|
                0 <= p < i && p != q ==> #[trigger] m[p] != '.',
            digits == exists|q: int| 0 <= q < i && is_digit(#[trigger] m[q]),
        decreases k - i,
    {
        let c = b[i];
        assert(m[i as int] == c);
        if c == '.' {
            if dots == 1 {
                let ghost q = choose|q: int| 0 <= q < i && #[trigger] m[q] == '.' && forall|p: int|
                    0 <= p < i && p != q ==> #[trigger] m[p] != '.';
                assert(m[q] == '.' && m[i as int] == '.');
                return false;
            }
            dots = 1;
            assert(forall|p: int| 0 <= p < i + 1 && p != i ==> #[trigger] m[p] != '.');
        } else if is_digit_exec(c) {
            digits = true;
        } else {
            return false;
        }
        i = i + 1;
    }
    if !digits {
        return false;
    }
    assert forall|p: int, q: int| 0 <= p < q < m.len() && #[trigger] m[p] == '.' implies #[trigger] m[q] != '.' by {
        if dots == 1 {
            let w = choose|w: int| 0 <= w < i && #[trigger] m[w] == '.' && forall|x: int|
                0 <= x < i && x != w ==> #[trigger] m[x] != '.';
            if p != w {
            }
        }
    }
    true
}

fn decimal_literal_exec(b: &[char]) -> (r: bool)
    ensures
        r == decimal_literal(b@),
{
    let n = b.len();
    let mut k: usize = 0;
    while k < n && !(b[k] == 'e' || b[k] == 'E')
        invariant
            k <= n,
            n == b@.len(),
            forall|j: int| 0 <= j < k ==> !is_exp_mark(#[trigger] b@[j]),
        decreases n - k,
    {
        k = k + 1;
    }
    let ok = valid_mantissa_exec(b, k) && (k == n || valid_exponent_exec(b, k));
    proof {
        if !ok {
            assert forall|k2: int|
                0 <= k2 <= b@.len() && (forall|j: int| 0 <= j < k2 ==> !is_exp_mark(#[trigger] b@[j]))
                    && (k2 < b@.len() ==> is_exp_mark(b@[k2])) implies !(valid_mantissa(
                b@.subrange(0, k2),
            ) && (k2 == b@.len() || valid_exponent(b@.subrange(k2, b@.len() as int)))) by {
                if k2 < k {
                    assert(!is_exp_mark(b@[k2]));
                } else if k2 > k {
                    assert(is_exp_mark(b@[k as int]));
                }
            }
        } else {
            assert(b@.subrange(0, k as int) == b@.subrange(0, k as int));
        }
    }
    ok
}

fn equals_word(b: &[char], w: &[char]) -> (r: bool)
    ensures
        r == (ascii_lower(b@) == w@),
{
    let l = lower_all(b);
    same(l.as_slice(), w)
}

/// Whether std's `f64::from_str` accepts the text.
pub fn looks_like_float(s: &[char]) -> (r: bool)
    ensures
        r == parses_as_float(s@),
{
    let n = s.len();
    let start: usize = if n > 0 && (s[0] == '+' || s[0] == '-') {
        1
    } else {
        0
    };
    let mut body: Vec<char> = Vec::new();
    let mut i: usize = start;
    while i < n
        invariant
            start <= i <= n,
            n == s@.len(),
            body@ == s@.subrange(start as int, i as int),
        decreases n - i,
    {
        body.push(s[i]);
        assert(s@.subrange(start as int, i + 1) =~= s@.subrange(start as int, i as int).push(s@[i as int]));
        i = i + 1;
    }
    proof {
        if start == 1 {
            assert(body@ =~= s@.drop_first());
        } else {
            assert(body@ =~= s@);
        }
    }
    if body.len() == 0 {
        return false;
    }
    let inf: Vec<char> = vec!['i', 'n', 'f'];
    let infinity: Vec<char> = vec!['i', 'n', 'f', 'i', 'n', 'i', 't', 'y'];
    let nan: Vec<char> = vec!['n', 'a', 'n'];
    proof {
        assert(inf@ =~= seq!['i', 'n', 'f']);
        assert(infinity@ =~= seq!['i', 'n', 'f', 'i', 'n', 'i', 't', 'y']);
        assert(nan@ =~= seq!['n', 'a', 'n']);
    }
    equals_word(body.as_slice(), inf.as_slice()) || equals_word(body.as_slice(), infinity.as_slice())
        || equals_word(body.as_slice(), nan.as_slice()) || decimal_literal_exec(body.as_slice())
}

/// A char that may stand in a plain (unquoted) YAML scalar written by this library.
pub open spec fn safe_plain_char(c: char) -> bool {
    ||| ('a' <= c && c <= 'z')
    ||| ('A' <= c && c <= 'Z')
    ||| ('0' <= c && c <= '9')
    ||| c == '_'
    ||| c == '-'
    ||| c == '.'
    ||| c == '/'
    ||| c == '+'
    ||| c == ':'
    ||| (c as u32) > 0x7f
}

/// A word that YAML would read as a boolean or null.
pub open spec fn reserved_word(s: Seq<char>) -> bool {
    ||| s == seq!['t', 'r', 'u', 'e']
    ||| s == seq!['f', 'a', 'l', 's', 'e']
    ||| s == seq!['n', 'u', 'l', 'l']
    ||| s == seq!['y', 'e', 's']
    ||| s == seq!['n', 'o']
    ||| s == seq!['o', 'n']
    ||| s == seq!['o', 'f', 'f']
}

/// The text can be written unquoted and reads back as the same string.
pub open spec fn plain_safe(s: Seq<char>) -> bool {
    &&& s.len() > 0
    &&& forall|i: int| 0 <= i < s.len() ==> safe_plain_char(#[trigger] s[i])
    &&& !parses_as_float(s)
    &&& !reserved_word(s)
}

pub open spec fn escape_char(c: char) -> Seq<char> {
    if c == '\\' {
        seq!['\\', '\\']
    } else if c == '"' {
        seq!['\\', '"']
    } else {
        seq![c]
    }
}

/// The text with each backslash doubled and each double quote preceded by a backslash.
pub open spec fn escaped(s: Seq<char>) -> Seq<char>
    decreases s.len(),
{
    if s.len() == 0 {
        Seq::empty()
    } else {
        escaped(s.drop_last()) + escape_char(s.last())
    }
}

/// How a string is written as a YAML scalar: plain when that is safe, else double-quoted
/// with backslashes and quotes escaped.
#[verifier::opaque]
pub open spec fn scalar_text(s: Seq<char>) -> Seq<char> {
    if plain_safe(s) {
        s
    } else {
        seq!['"'] + escaped(s) + seq!['"']
    }
}

/// How a YAML reader takes a double-quoted scalar, starting right after the opening quote:
/// `\\` and `\"` stand for a backslash and a quote, any other char for itself, and the first
/// quote that is not escaped closes the scalar. Gives the text read and what follows the
/// closing quote; `None` when no quote closes it.
pub open spec fn read_quoted(t: Seq<char>) -> Option<(Seq<char>, Seq<char>)>
    decreases t.len(),
{
    if t.len() == 0 {
        None
    } else if t[0] == '"' {
        Some((Seq::empty(), t.drop_first()))
    } else if t[0] == '\\' && t.len() >= 2 && (t[1] == '\\' || t[1] == '"') {
        match read_quoted(t.subrange(2, t.len() as int)) {
            Some(p) => Some((seq![t[1]] + p.0, p.1)),
            None => None,
        }
    } else {
        match read_quoted(t.drop_first()) {
            Some(p) => Some((seq![t[0]] + p.0, p.1)),
            None => None,
        }
    }
}

proof fn lemma_escaped_concat(a: Seq<char>, b: Seq<char>)
    ensures
        escaped(a + b) == escaped(a) + escaped(b),
    decreases b.len(),
{
    if b.len() == 0 {
        assert(a + b =~= a);
        assert(escaped(a) + escaped(b) =~= escaped(a));
    } else {
        lemma_escaped_concat(a, b.drop_last());
        assert((a + b).drop_last() =~= a + b.drop_last());
        assert((a + b).last() == b.last());
        assert(escaped(a) + escaped(b) =~= escaped(a) + escaped(b.drop_last()) + escape_char(
            b.last(),
        ));
    }
}

pub(crate) proof fn lemma_read_escaped(s: Seq<char>, rest: Seq<char>)
    ensures
        read_quoted(escaped(s) + seq!['"'] + rest) == Some((s, rest)),
    decreases s.len(),
{
    let t = escaped(s) + seq!['"'] + rest;
    if s.len() == 0 {
        assert(escaped(s) =~= Seq::<char>::empty());
        assert(t[0] == '"');
        assert(t.drop_first() =~= rest);
    } else {
        let c = s[0];
        let tail = s.drop_first();
        assert(s =~= seq![c] + tail);
        lemma_escaped_concat(seq![c], tail);
        assert(seq![c].drop_last() =~= Seq::<char>::empty());
        assert(seq![c].last() == c);
        assert(escaped(Seq::<char>::empty()) == Seq::<char>::empty());
        assert(escaped(seq![c]) == escaped(Seq::<char>::empty()) + escape_char(c));
        assert(escaped(seq![c]) =~= escape_char(c));
        lemma_read_escaped(tail, rest);
        let inner = escaped(tail) + seq!['"'] + rest;
        assert(t =~= escape_char(c) + inner);
        if c == '\\' || c == '"' {
            assert(t[0] == '\\' && t[1] == c);
            assert(t.subrange(2, t.len() as int) =~= inner);
        } else {
            assert(t[0] == c);
            assert(t.drop_first() =~= inner);
        }
        assert(seq![c] + tail =~= s);
    }
}

fn safe_plain(c: char) -> (r: bool)
    ensures
        r == safe_plain_char(c),
{
    ('a' <= c && c <= 'z') || ('A' <= c && c <= 'Z') || ('0' <= c && c <= '9') || c == '_' || c
        == '-' || c == '.' || c == '/' || c == '+' || c == ':' || (c as u32) > 0x7f
}

fn is_reserved(s: &[char]) -> (r: bool)
    ensures
        r == reserved_word(s@),
{
    let t: Vec<char> = vec!['t', 'r', 'u', 'e'];
    let f: Vec<char> = vec!['f', 'a', 'l', 's', 'e'];
    let nl: Vec<char> = vec!['n', 'u', 'l', 'l'];
    let y: Vec<char> = vec!['y', 'e', 's'];
    let no: Vec<char> = vec!['n', 'o'];
    let on: Vec<char> = vec!['o', 'n'];
    let off: Vec<char> = vec!['o', 'f', 'f'];
    proof {
        assert(t@ =~= seq!['t', 'r', 'u', 'e']);
        assert(f@ =~= seq!['f', 'a', 'l', 's', 'e']);
        assert(nl@ =~= seq!['n', 'u', 'l', 'l']);
        assert(y@ =~= seq!['y', 'e', 's']);
        assert(no@ =~= seq!['n', 'o']);
        assert(on@ =~= seq!['o', 'n']);
        assert(off@ =~= seq!['o', 'f', 'f']);
    }
    same(s, t.as_slice()) || same(s, f.as_slice()) || same(s, nl.as_slice()) || same(s, y.as_slice())
        || same(s, no.as_slice()) || same(s, on.as_slice()) || same(s, off.as_slice())
}

/// Whether the text can be written unquoted.
pub fn is_plain_safe(s: &[char]) -> (r: bool)
    ensures
        r == plain_safe(s@),
{
    if s.len() == 0 {
        return false;
    }
    let n = s.len();
    for i in 0..n
        invariant
            n == s@.len(),
            forall|q: int| 0 <= q < i ==> safe_plain_char(#[trigger] s@[q]),
    {
        if !safe_plain(s[i]) {
            return false;
        }
    }
    !looks_like_float(s) && !is_reserved(s)
}

/// Writes a string as a YAML scalar: plain when safe, else double-quoted and escaped.
pub fn yaml_scalar(s: &str) -> (r: String)
    ensures
        r@ == scalar_text(s@),
{
    proof {
        reveal(scalar_text);
    }
    let c = chars_of(s);
    if is_plain_safe(c.as_slice()) {
        return owned(s);
    }
    let n = c.len();
    let mut out: Vec<char> = Vec::new();
    out.push('"');
    for i in 0..n
        invariant
            n == c@.len(),
            out@ == seq!['"'] + escaped(c@.take(i as int)),
    {
        let ch = c[i];
        assert(c@.take(i + 1).drop_last() =~= c@.take(i as int));
        let ghost before = out@;
        if ch == '\\' {
            out.push('\\');
            out.push('\\');
        } else if ch == '"' {
            out.push('\\');
            out.push('"');
        } else {
            out.push(ch);
        }
        assert(out@ =~= before + escape_char(ch));
    }
    assert(c@.take(n as int) =~= c@);
    out.push('"');
    string_of(out.as_slice())
}

/// The scalars of a list, comma separated, inside brackets.
pub open spec fn flow_list(items: Seq<Seq<char>>) -> Seq<char> {
    "["@ + join_seqs(items.map_values(|x: Seq<char>| scalar_text(x)), ", "@) + "]"@
}

fn flow_list_exec(items: &Vec<String>) -> (r: String)
    ensures
        r@ == flow_list(items.deep_view()),
{
    let mut parts: Vec<String> = Vec::new();
    let n = items.len();
    for i in 0..n
        invariant
            n == items.deep_view().len(),
            parts.deep_view() == items.deep_view().take(i as int).map_values(
                |x: Seq<char>| scalar_text(x),
            ),
    {
        let ghost before = parts.deep_view();
        parts.push(yaml_scalar(items[i].as_str()));
        assert(parts.deep_view() =~= before.push(scalar_text(items.deep_view()[i as int])));
        assert(parts.deep_view() =~= items.deep_view().take(i + 1).map_values(
            |x: Seq<char>| scalar_text(x),
        ));
    }
    assert(items.deep_view().take(n as int) =~= items.deep_view());
    let mut r = owned("[");
    let j = join(&parts, ", ");
    r.append(j.as_str());
    r.append("]");
    r
}

/// The fields of a gesture's flow mapping: label if any, `enabled: false` if off, pattern, keys.
pub open spec fn gesture_fields(g: GestureCfgView) -> Seq<Seq<char>> {
    let f1: Seq<Seq<char>> = match g.label {
        Some(l) => seq!["label: "@ + scalar_text(l)],
        None => Seq::empty(),
    };
    let f2 = if !g.enabled {
        f1.push("enabled: false"@)
    } else {
        f1
    };
    f2.push("pattern: "@ + scalar_text(g.pattern)).push("keys: "@ + flow_list(g.keys))
}

/// A gesture written as one YAML list item in flow style.
pub open spec fn gesture_line(g: GestureCfgView) -> Seq<char> {
    "- { "@ + join_seqs(gesture_fields(g), ", "@) + " }"@
}

fn prefixed(p: &str, s: String) -> (r: String)
    ensures
        r@ == p@ + s@,
{
    let mut r = owned(p);
    r.append(s.as_str());
    r
}

/// Writes a gesture as one YAML list item in flow style.
pub fn format_gesture_line(g: &GestureCfg) -> (r: String)
    ensures
        r@ == gesture_line(g.deep_view()),
{
    let ghost gv = g.deep_view();
    let mut fields: Vec<String> = Vec::new();
    if let Some(l) = &g.label {
        fields.push(prefixed("label: ", yaml_scalar(l.as_str())));
    }
    proof {
        let f1: Seq<Seq<char>> = match gv.label {
            Some(l) => seq!["label: "@ + scalar_text(l)],
            None => Seq::empty(),
        };
        assert(fields.deep_view() =~= f1);
    }
    let ghost d1 = fields.deep_view();
    if !g.enabled {
        fields.push(owned("enabled: false"));
    }
    let ghost d2 = fields.deep_view();
    assert(d2 =~= (if !gv.enabled {
        d1.push("enabled: false"@)
    } else {
        d1
    }));
    fields.push(prefixed("pattern: ", yaml_scalar(g.pattern.as_str())));
    let ghost d3 = fields.deep_view();
    assert(d3 =~= d2.push("pattern: "@ + scalar_text(gv.pattern)));
    fields.push(prefixed("keys: ", flow_list_exec(&g.keys)));
    assert(fields.deep_view() =~= d3.push("keys: "@ + flow_list(gv.keys)));
    let mut r = owned("- { ");
    let j = join(&fields, ", ");
    r.append(j.as_str());
    r.append(" }");
    r
}

/// The comment block at the top of a written configuration file.
pub const HEADER: &'static str = "# arcglyph gesture bindings\n#\n# enabled: global switch. false disables all gestures.\n# lang: GUI language. \"en\" (default) or \"zh\".\n# groups: each group associates a set of apps with a list of gestures.\n#   name: display name for the group\n#   apps: list of app_id substrings (case-insensitive). empty = every window.\n#   gestures[*].pattern: sequence of numpad-style direction digits\n#     7 8 9      up-left  up   up-right\n#     4 . 6      left     .    right\n#     1 2 3      down-left down down-right\n#   gestures[*].keys: evdev key names pressed together as a chord.\n#   gestures[*].label: free-form description shown in the GUI.\n#\n";

pub open spec fn bool_text(b: bool) -> Seq<char> {
    if b {
        "true"@
    } else {
        "false"@
    }
}

pub open spec fn lang_text(l: Lang) -> Seq<char> {
    match l {
        Lang::En => "en"@,
        Lang::Zh => "zh"@,
    }
}

/// The gesture lines of a group, each indented and ended by a newline.
pub open spec fn gestures_text(gs: Seq<GestureCfgView>) -> Seq<char>
    decreases gs.len(),
{
    if gs.len() == 0 {
        Seq::empty()
    } else {
        gestures_text(gs.drop_last()) + "      "@ + gesture_line(gs.last()) + "\n"@
    }
}

/// A group written as one YAML list item.
pub open spec fn group_text(g: GroupCfgView) -> Seq<char> {
    "  - name: "@ + scalar_text(g.name) + "\n"@ + (if !g.enabled {
        "    enabled: false\n"@
    } else {
        Seq::empty()
    }) + (if g.apps.len() > 0 {
        "    apps: "@ + flow_list(g.apps) + "\n"@
    } else {
        Seq::empty()
    }) + "    gestures:\n"@ + gestures_text(g.gestures)
}

pub open spec fn groups_text(gs: Seq<GroupCfgView>) -> Seq<char>
    decreases gs.len(),
{
    if gs.len() == 0 {
        Seq::empty()
    } else {
        groups_text(gs.drop_last()) + group_text(gs.last())
    }
}

/// The whole configuration file as it is written.
pub open spec fn config_text(c: ConfigView) -> Seq<char> {
    HEADER@ + "enabled: "@ + bool_text(c.enabled) + "\n"@ + "lang: "@ + lang_text(c.lang) + "\n"@
        + "groups:\n"@ + groups_text(c.groups)
}

fn format_group(g: &GroupCfg) -> (r: String)
    ensures
        r@ == group_text(g.deep_view()),
{
    let ghost gv = g.deep_view();
    let mut r = owned("  - name: ");
    let name = yaml_scalar(g.name.as_str());
    r.append(name.as_str());
    r.append("\n");
    if !g.enabled {
        r.append("    enabled: false\n");
    }
    if g.apps.len() > 0 {
        r.append("    apps: ");
        let l = flow_list_exec(&g.apps);
        r.append(l.as_str());
        r.append("\n");
    }
    r.append("    gestures:\n");
    let ghost head = r@;
    let n = g.gestures.len();
    for i in 0..n
        invariant
            n == gv.gestures.len(),
            gv == g.deep_view(),
            r@ == head + gestures_text(gv.gestures.take(i as int)),
    {
        assert(gv.gestures.take(i + 1).drop_last() =~= gv.gestures.take(i as int));
        r.append("      ");
        let line = format_gesture_line(&g.gestures[i]);
        r.append(line.as_str());
        r.append("\n");
    }
    assert(gv.gestures.take(n as int) =~= gv.gestures);
    r
}

/// Writes the configuration as YAML, after the comment header: switch, language, then each
/// group with its name, its switch when off, its apps when any, and one line per gesture.
pub fn format_config(cfg: &Config) -> (r: String)
    ensures
        r@ == config_text(cfg.deep_view()),
{
    let ghost cv = cfg.deep_view();
    let mut r = owned(HEADER);
    r.append("enabled: ");
    if cfg.enabled {
        r.append("true");
    } else {
        r.append("false");
    }
    r.append("\n");
    r.append("lang: ");
    match cfg.lang {
        Lang::En => r.append("en"),
        Lang::Zh => r.append("zh"),
    }
    r.append("\n");
    r.append("groups:\n");
    let ghost head = r@;
    let n = cfg.groups.len();
    for i in 0..n
        invariant
            n == cv.groups.len(),
            cv == cfg.deep_view(),
            r@ == head + groups_text(cv.groups.take(i as int)),
    {
        assert(cv.groups.take(i + 1).drop_last() =~= cv.groups.take(i as int));
        let t = format_group(&cfg.groups[i]);
        r.append(t.as_str());
    }
    assert(cv.groups.take(n as int) =~= cv.groups);
    r
}

} // verus!
