//! How an AR client picks the simulation server it talks to: it follows its
//! current target while that server is online, and turns to the other one
//! when it is not.

use vstd::prelude::*;
use vstd::string::StringExecFns;
use crate::network::PeerInfo;

verus! {

/// The server to talk to, given which of the two servers are online and the
/// current target: the target if it is online, else the other one if that is
/// online, else none.
pub open spec fn target_of(present: Seq<bool>, target: int) -> Option<int> {
    if present[target] {
        Some(target)
    } else if present[1 - target] {
        Some(1 - target)
    } else {
        None
    }
}

/// The server to talk to next.
pub fn choose_target(present: &[bool; 2], target: usize) -> (next: Option<usize>)
    requires
        target < 2,
    ensures
        match next {
            Some(t) => target_of(present@, target as int) == Some(t as int),
            None => target_of(present@, target as int) is None,
        },
        present[target as int] ==> next == Some(target),
        !present[target as int] && present[1 - target] ==> next == Some((1 - target) as usize),
        !present[0] && !present[1] ==> next is None,
{
    if present[target] {
        Some(target)
    } else if present[1 - target] {
        Some(1 - target)
    } else {
        None
    }
}

/// The target after a round with one server: the other one.
pub fn next_round_target(target: usize) -> (next: usize)
    requires
        target < 2,
    ensures
        next == 1 - target,
{
    1 - target
}

/// Whether position `i` holds the first member named `name` that runs a
/// server.
pub open spec fn is_first_server_named(peers: Seq<PeerInfo>, name: Seq<char>, i: int) -> bool {
    &&& 0 <= i < peers.len()
    &&& peers[i].name@ == name && peers[i].is_server
    &&& forall|j: int| 0 <= j < i ==> !(peers[j].name@ == name && peers[j].is_server)
}

/// The position of the first member named `name` that runs a server.
pub fn find_server_named(peers: &Vec<PeerInfo>, name: &str) -> (pos: Option<usize>)
    ensures
        match pos {
            Some(i) => is_first_server_named(peers@, name@, i as int),
            None => forall|i: int| 0 <= i < peers@.len() ==> !(peers@[i].name@ == name@ && peers@[i].is_server),
        },
        pos matches Some(i) ==> {
            &&& i < peers@.len()
            &&& peers@[i as int].name@ == name@
            &&& peers@[i as int].is_server
            &&& forall|j: int| 0 <= j < i ==> !(peers@[j].name@ == name@ && peers@[j].is_server)
        },
{
    let wanted = String::from_str(name);
    let n = peers.len();
    let mut i: usize = 0;
    while i < n
        invariant
            n == peers@.len(),
            wanted@ == name@,
            0 <= i <= n,
            forall|j: int| 0 <= j < i ==> !(peers@[j].name@ == name@ && peers@[j].is_server),
        decreases n - i,
    {
        if peers[i].is_server && peers[i].name == wanted {
            return Some(i);
        }
        i = i + 1;
    }
    None
}

/// While both servers stay online, the client alternates between them;
/// while only one is, it stays with that one.
pub proof fn lemma_target_alternates(present: Seq<bool>, target: int)
    requires
        present.len() == 2,
        0 <= target < 2,
    ensures
        present[0] && present[1] ==> target_of(present, target) == Some(target)
            && target_of(present, 1 - target) == Some(1 - target),
        present[target] && !present[1 - target] ==> target_of(present, 1 - target) == Some(target),
        !present[0] && !present[1] ==> target_of(present, target) is None,
{
}

/// The client keeps its target while that server is online, whatever the
/// other one does; it turns to the other server only when its target is
/// offline and the other is online; with both offline it has none.
pub proof fn lemma_target_choice(present: Seq<bool>, target: int)
    requires
        present.len() == 2,
        0 <= target < 2,
    ensures
        present[target] ==> target_of(present, target) == Some(target),
        !present[target] && present[1 - target] ==> target_of(present, target) == Some(1 - target),
        !present[target] && !present[1 - target] ==> target_of(present, target) is None,
        target_of(present, target) matches Some(t) ==> present[t] && (t == target || t == 1 - target),
{
}

} // verus!
