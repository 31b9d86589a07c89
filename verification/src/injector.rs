use vstd::prelude::*;

use crate::keys::Key;

verus! {

/// One key event sent through the virtual keyboard: a key and 1 (press) or 0 (release).
#[derive(Debug, Clone, Copy, PartialEq, Eq, Structural)]
pub struct KeyStroke {
    pub code: u16,
    pub value: i32,
}

/// The events of a chord: every key pressed in the given order, then every key released in
/// the reverse order.
pub open spec fn chord_strokes(keys: Seq<Key>) -> Seq<KeyStroke> {
    Seq::new(2 * keys.len(), |i: int| if i < keys.len() {
        KeyStroke { code: keys[i].0, value: 1 }
    } else {
        KeyStroke { code: keys[2 * keys.len() - 1 - i].0, value: 0 }
    })
}

/// The key events that send `keys` as one chord (the caller waits a little after each).
pub fn shortcut_strokes(keys: &[Key]) -> (r: Vec<KeyStroke>)
    ensures
        r@ == chord_strokes(keys@),
{
    let n = keys.len();
    let mut r: Vec<KeyStroke> = Vec::new();
    for i in 0..n
        invariant
            n == keys@.len(),
            r@.len() == i,
            forall|j: int| 0 <= j < i ==> r@[j] == chord_strokes(keys@)[j],
    {
        r.push(KeyStroke { code: keys[i].0, value: 1 });
    }
    let mut k: usize = n;
    while k > 0
        invariant
            n == keys@.len(),
            k <= n,
            r@.len() == n + (n - k),
            forall|j: int| 0 <= j < r@.len() ==> r@[j] == chord_strokes(keys@)[j],
        decreases k,
    {
        k = k - 1;
        r.push(KeyStroke { code: keys[k].0, value: 0 });
    }
    assert(r@ =~= chord_strokes(keys@));
    r
}

/// Law: a chord releases every key it pressed, and each release undoes the press made at the
/// mirrored position, so the last key pressed is the first released.
pub proof fn lemma_chord_releases_all(keys: Seq<Key>)
    ensures
        chord_strokes(keys).len() == 2 * keys.len(),
        forall|i: int|
            0 <= i < keys.len() ==> (#[trigger] chord_strokes(keys)[i]).value == 1 && chord_strokes(
                keys,
            )[2 * keys.len() - 1 - i] == (KeyStroke { code: chord_strokes(keys)[i].code, value: 0 }),
{
}

/// The scancodes that the virtual keyboard offers: 1 to 248.
pub fn keyboard_codes() -> (r: Vec<u16>)
    ensures
        r@.len() == 248,
        forall|i: int| 0 <= i < 248 ==> r@[i] == i + 1,
{
    let mut r: Vec<u16> = Vec::new();
    let mut c: u16 = 1;
    while c <= 248
        invariant
            1 <= c <= 249,
            r@.len() == c - 1,
            forall|i: int| 0 <= i < r@.len() ==> r@[i] == i + 1,
        decreases 249 - c,
    {
        r.push(c);
        c = c + 1;
    }
    r
}

} // verus!
