use vstd::prelude::*;

use crate::text::{
    ascii_upper, chars_of, has_prefix, owned, starts_with, string_of, upper_all,
};

verus! {

/// A key of the kernel input layer, named by its scancode.
#[derive(Debug, Clone, Copy, PartialEq, Eq, Structural)]
pub struct Key(pub u16);

impl Key {
    pub fn new(code: u16) -> (k: Key)
        ensures
            k.0 == code,
    {
        Key(code)
    }

    pub fn code(self) -> (c: u16)
        ensures
            c == self.0,
    {
        self.0
    }
}

/// The scancode that evdev's `Key::from_str` finds for `name` in its table of key names.
pub uninterp spec fn evdev_key_from_name(name: Seq<char>) -> Option<u16>;

/// The text that evdev's `Debug` impl writes for the key with scancode `code`.
pub uninterp spec fn evdev_key_debug_text(code: u16) -> Seq<char>;

/// Looks `name` up with `<evdev::Key as FromStr>::from_str`.
/// Claimed: the result is the named lookup of the argument; a name that is not in evdev's
/// table gives `None`. Nothing is claimed about which names the table holds.
#[verifier::external_body]
fn evdev_lookup(name: &str) -> (r: Option<u16>)
    ensures
        r == evdev_key_from_name(name@),
{
    match <evdev::Key as std::str::FromStr>::from_str(name) {
        Ok(k) => Some(k.code()),
        Err(_) => None,
    }
}

/// Formats `evdev::Key::new(code)` with `{:?}`.
/// Claimed: the text is the named debug text of `code`, and looking that text up again with
/// `from_str` gives nothing or `code` itself. evdev generates both impls from one table of
/// constants: `Debug` writes the first table name whose value is `code`, or "unknown key: N",
/// which is no name in the table; `from_str` gives the value of the table entry of that name.
/// Every table name is `KEY_` or `BTN_` followed by upper-case letters, digits and
/// underscores, and none continues with a second `KEY_` or `BTN_`; so when the text starts
/// with one of those prefixes it is a table name, written in upper case, and `from_str` gives
/// `code` back.
#[verifier::external_body]
fn evdev_debug_text(code: u16) -> (r: String)
    ensures
        r@ == evdev_key_debug_text(code),
        evdev_key_from_name(r@) matches Some(c) ==> c == code,
        has_prefix(r@, key_prefix()) || has_prefix(r@, btn_prefix()) ==> {
            &&& evdev_key_from_name(r@) == Some(code)
            &&& ascii_upper(r@) == r@
            &&& !has_prefix(r@.subrange(4, r@.len() as int), key_prefix())
            &&& !has_prefix(r@.subrange(4, r@.len() as int), btn_prefix())
        },
{
    format!("{:?}", evdev::Key::new(code))
}

pub open spec fn key_prefix() -> Seq<char> {
    seq!['K', 'E', 'Y', '_']
}

pub open spec fn btn_prefix() -> Seq<char> {
    seq!['B', 'T', 'N', '_']
}

/// The name that `parse` looks up for a configured key name: upper-cased, with `KEY_`
/// put in front unless it already starts with `KEY_` or `BTN_`.
pub open spec fn full_key_name(name: Seq<char>) -> Seq<char> {
    let up = ascii_upper(name);
    if has_prefix(up, key_prefix()) || has_prefix(up, btn_prefix()) {
        up
    } else {
        key_prefix() + up
    }
}

/// The short name shown for a debug text: without a leading `KEY_`, else without a
/// leading `BTN_`, else the text itself.
pub open spec fn short_key_name(text: Seq<char>) -> Seq<char> {
    if has_prefix(text, key_prefix()) {
        text.subrange(4, text.len() as int)
    } else if has_prefix(text, btn_prefix()) {
        text.subrange(4, text.len() as int)
    } else {
        text
    }
}

/// A key name that evdev does not know.
#[derive(Debug, Clone, PartialEq, Eq)]
pub struct UnknownKey {
    pub name: String,
}

impl UnknownKey {
    /// "unknown key: " followed by the name as it was written.
    pub fn message(&self) -> (m: String)
        ensures
            m@ == seq!['u', 'n', 'k', 'n', 'o', 'w', 'n', ' ', 'k', 'e', 'y', ':', ' '] + self.name@,
    {
        let mut v: Vec<char> = vec!['u', 'n', 'k', 'n', 'o', 'w', 'n', ' ', 'k', 'e', 'y', ':', ' '];
        let mut tail = chars_of(self.name.as_str());
        v.append(&mut tail);
        string_of(&v)
    }
}

fn key_prefix_chars() -> (v: Vec<char>)
    ensures
        v@ == key_prefix(),
{
    let v: Vec<char> = vec!['K', 'E', 'Y', '_'];
    assert(v@ =~= key_prefix());
    v
}

fn btn_prefix_chars() -> (v: Vec<char>)
    ensures
        v@ == btn_prefix(),
{
    let v: Vec<char> = vec!['B', 'T', 'N', '_'];
    assert(v@ =~= btn_prefix());
    v
}

/// Parses a configured key name such as `LEFTCTRL`, `key_w` or `BTN_LEFT` into a key.
pub fn parse(name: &str) -> (r: Result<Key, UnknownKey>)
    ensures
        match evdev_key_from_name(full_key_name(name@)) {
            Some(c) => r == Ok::<Key, UnknownKey>(Key(c)),
            None => r is Err && r->Err_0.name@ == name@,
        },
{
    let chars = chars_of(name);
    let up = upper_all(chars.as_slice());
    let kp = key_prefix_chars();
    let bp = btn_prefix_chars();
    let full: Vec<char> = if starts_with(up.as_slice(), kp.as_slice()) || starts_with(
        up.as_slice(),
        bp.as_slice(),
    ) {
        up
    } else {
        let mut f = kp;
        let mut rest = up;
        f.append(&mut rest);
        f
    };
    let full_s = string_of(full.as_slice());
    match evdev_lookup(full_s.as_str()) {
        Some(c) => Ok(Key(c)),
        None => Err(UnknownKey { name: owned(name) }),
    }
}

/// The short display name of a key: evdev's name for it without the `KEY_` or `BTN_` prefix.
/// For a key that evdev names `KEY_...`, parsing the short name finds the key again.
pub fn name(key: Key) -> (r: String)
    ensures
        r@ == short_key_name(evdev_key_debug_text(key.0)),
        has_prefix(evdev_key_debug_text(key.0), key_prefix()) ==> evdev_key_from_name(
            full_key_name(r@),
        ) == Some(key.0),
{
    let dbg = evdev_debug_text(key.0);
    proof {
        if has_prefix(dbg@, key_prefix()) {
            lemma_name_parse_roundtrip(dbg@);
        }
    }
    let chars = chars_of(dbg.as_str());
    let kp = key_prefix_chars();
    let bp = btn_prefix_chars();
    if starts_with(chars.as_slice(), kp.as_slice()) || starts_with(chars.as_slice(), bp.as_slice()) {
        let n = chars.len();
        let mut rest: Vec<char> = Vec::new();
        let mut i: usize = 4;
        while i < n
            invariant
                4 <= i <= n,
                n == chars@.len(),
                rest@ == chars@.subrange(4, i as int),
            decreases n - i,
        {
            rest.push(chars[i]);
            assert(chars@.subrange(4, i + 1) == chars@.subrange(4, i as int).push(chars@[i as int]));
            i = i + 1;
        }
        string_of(rest.as_slice())
    } else {
        dbg
    }
}

/// Law: key names are case-insensitive: two names that upper-case alike are looked up under
/// the same full name.
pub proof fn lemma_parse_ignores_case(a: Seq<char>, b: Seq<char>)
    requires
        ascii_upper(a) == ascii_upper(b),
    ensures
        full_key_name(a) == full_key_name(b),
{
}

/// Law: for a key whose evdev name is `KEY_` followed by an upper-case name (that does not
/// itself start with `KEY_` or `BTN_`), parsing the short name that `name` shows looks up
/// exactly that evdev name again, so the key comes back from `parse(name(k))`.
pub proof fn lemma_name_parse_roundtrip(t: Seq<char>)
    requires
        has_prefix(t, key_prefix()),
        ascii_upper(t) == t,
        !has_prefix(t.subrange(4, t.len() as int), key_prefix()),
        !has_prefix(t.subrange(4, t.len() as int), btn_prefix()),
    ensures
        full_key_name(short_key_name(t)) == t,
{
    let rest = t.subrange(4, t.len() as int);
    assert(short_key_name(t) == rest);
    assert(ascii_upper(rest) =~= rest) by {
        assert forall|i: int| 0 <= i < rest.len() implies ascii_upper(rest)[i] == rest[i] by {
            assert(ascii_upper(t)[i + 4] == t[i + 4]);
        }
    }
    assert(key_prefix() + rest =~= t) by {
        assert(t.subrange(0, 4) == key_prefix());
        assert forall|i: int| 0 <= i < 4 implies t[i] == key_prefix()[i] by {
            assert(t.subrange(0, 4)[i] == t[i]);
        }
    }
}

proof fn lemma_upper_concat(a: Seq<char>, b: Seq<char>)
    ensures
        ascii_upper(a + b) == ascii_upper(a) + ascii_upper(b),
{
    assert(ascii_upper(a + b) =~= ascii_upper(a) + ascii_upper(b));
}

/// Law: a configured name that already starts with `KEY_` or `BTN_` (in any letter case) is
/// looked up as it is written, only upper-cased: no second prefix is put in front.
pub proof fn lemma_full_name_keeps_given_prefix(n: Seq<char>)
    requires
        has_prefix(ascii_upper(n), key_prefix()) || has_prefix(ascii_upper(n), btn_prefix()),
    ensures
        full_key_name(n) == ascii_upper(n),
        has_prefix(full_key_name(n), key_prefix()) || has_prefix(full_key_name(n), btn_prefix()),
{
}

/// Law: writing a key with evdev's full name or with its short name is the same: `KEY_x` and
/// `x` (for an `x` that does not itself start with `KEY_` or `BTN_`) are looked up under the
/// same name, so `parse` gives the same key or the same failure for both.
pub proof fn lemma_full_and_short_names_agree(x: Seq<char>)
    requires
        !has_prefix(ascii_upper(x), key_prefix()),
        !has_prefix(ascii_upper(x), btn_prefix()),
    ensures
        full_key_name(key_prefix() + x) == full_key_name(x),
        full_key_name(x) == key_prefix() + ascii_upper(x),
{
    lemma_upper_concat(key_prefix(), x);
    assert(ascii_upper(key_prefix()) =~= key_prefix());
    let up = ascii_upper(key_prefix() + x);
    assert(up == key_prefix() + ascii_upper(x));
    assert(up.subrange(0, 4) =~= key_prefix());
}

} // verus!
