use vstd::prelude::*;

use crate::devices::{event_node_name, is_event_node};

verus! {

/// Result of the one-shot permission probe shown in the preferences window.
#[derive(Debug, Clone, Copy, PartialEq, Eq, Structural)]
pub struct PermStatus {
    /// Can read at least one /dev/input/event* node (or there is none to read).
    pub can_read_input: bool,
    /// Can open /dev/uinput for writing (or it does not exist yet).
    pub can_write_uinput: bool,
}

impl PermStatus {
    /// Both accesses that the daemon needs are there.
    pub fn ok(&self) -> (b: bool)
        ensures
            b == (self.can_read_input && self.can_write_uinput),
    {
        self.can_read_input && self.can_write_uinput
    }
}

/// An entry of /dev/input and whether it could be opened for reading.
#[derive(Debug, Clone)]
pub struct NodeProbe {
    pub name: String,
    pub readable: bool,
}

/// Input can be read: some event node opens, or there are no event nodes at all (that is no
/// permission problem). An unlistable /dev/input means it cannot.
pub open spec fn input_readable(nodes: Option<Seq<NodeProbe>>) -> bool {
    match nodes {
        None => false,
        Some(ns) => (exists|i: int|
            0 <= i < ns.len() && event_node_name((#[trigger] ns[i]).name@) && ns[i].readable) || !(
        exists|i: int| 0 <= i < ns.len() && event_node_name((#[trigger] ns[i]).name@)),
    }
}

pub open spec fn listing_view(nodes: Option<Vec<NodeProbe>>) -> Option<Seq<NodeProbe>> {
    match nodes {
        None => None,
        Some(v) => Some(v@),
    }
}

/// Whether the input nodes can be read, given the listing of /dev/input (`None` when it
/// could not be listed).
pub fn can_read_any_event(nodes: &Option<Vec<NodeProbe>>) -> (b: bool)
    ensures
        b == input_readable(listing_view(*nodes)),
{
    match nodes {
        None => false,
        Some(v) => {
            let ghost ns = v@;
            assert(listing_view(*nodes) == Some(ns));
            let mut saw_event = false;
            let mut witness: usize = 0;
            let n = v.len();
            let mut i: usize = 0;
            while i < n
                invariant
                    i <= n,
                    n == ns.len(),
                    ns == v@,
                    listing_view(*nodes) == Some(ns),
                    forall|k: int| 0 <= k < i && event_node_name((#[trigger] ns[k]).name@) ==> !ns[k].readable,
                    !saw_event ==> forall|k: int| 0 <= k < i ==> !event_node_name((#[trigger] ns[k]).name@),
                    saw_event ==> witness < n && event_node_name(ns[witness as int].name@),
                decreases n - i,
            {
                if is_event_node(v[i].name.as_str()) {
                    saw_event = true;
                    witness = i;
                    if v[i].readable {
                        assert(event_node_name(ns[i as int].name@) && ns[i as int].readable);
                        return true;
                    }
                }
                i = i + 1;
            }
            if saw_event {
                assert(exists|q: int| 0 <= q < ns.len() && event_node_name((#[trigger] ns[q]).name@));
                assert(!(exists|q: int|
                    0 <= q < ns.len() && event_node_name((#[trigger] ns[q]).name@)
                        && ns[q].readable));
                let ghost listed: Option<Seq<NodeProbe>> = Some(ns);
                assert(listed->Some_0 == ns);
                assert(!input_readable(listed));
            } else {
                assert(input_readable(Some(ns)));
            }
            !saw_event
        },
    }
}

/// Whether /dev/uinput can be written: it can when it opens for writing, and a missing node
/// counts as writable (the kernel module may load on first use).
pub fn can_write_uinput(present: bool, writable: bool) -> (b: bool)
    ensures
        b == (!present || writable),
{
    !present || writable
}

/// The permission status from what was found on the machine.
pub fn probe(nodes: &Option<Vec<NodeProbe>>, uinput_exists: bool, uinput_writable: bool) -> (s: PermStatus)
    ensures
        s.can_read_input == input_readable(listing_view(*nodes)),
        s.can_write_uinput == (!uinput_exists || uinput_writable),
{
    PermStatus {
        can_read_input: can_read_any_event(nodes),
        can_write_uinput: can_write_uinput(uinput_exists, uinput_writable),
    }
}

} // verus!
