use vstd::prelude::*;

use crate::text::{chars_of, has_prefix, starts_with};

verus! {

/// The name of an event node of /dev/input: it begins with `event`.
pub open spec fn event_node_name(name: Seq<char>) -> bool {
    has_prefix(name, seq!['e', 'v', 'e', 'n', 't'])
}

/// Whether a /dev/input entry is an event node.
pub fn is_event_node(name: &str) -> (b: bool)
    ensures
        b == event_node_name(name@),
{
    let c = chars_of(name);
    let p: Vec<char> = vec!['e', 'v', 'e', 'n', 't'];
    assert(p@ =~= seq!['e', 'v', 'e', 'n', 't']);
    starts_with(c.as_slice(), p.as_slice())
}

/// A device is grabbed for gestures when it has a right button and both relative axes.
pub fn is_gesture_mouse(has_right_button: bool, has_rel_x: bool, has_rel_y: bool) -> (b: bool)
    ensures
        b == (has_right_button && has_rel_x && has_rel_y),
{
    has_right_button && has_rel_x && has_rel_y
}

} // verus!
