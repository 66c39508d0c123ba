//! Lookups the simulation host makes on its group: where a member's
//! simulation can be reached, and which file a request for it names.

use vstd::prelude::*;
use vstd::string::StrSliceExecFns;
use vstd::string::StringExecFns;
use crate::network::PeerInfo;

verus! {

/// Whether position `i` holds the first member named `name`.
pub open spec fn is_first_named(peers: Seq<PeerInfo>, name: Seq<char>, i: int) -> bool {
    &&& 0 <= i < peers.len()
    &&& peers[i].name@ == name
    &&& forall|j: int| 0 <= j < i ==> peers[j].name@ != name
}

/// Where the simulation of the member named `name` can be reached: the
/// first member of that name, if it runs a simulation server. `None` if no
/// member has the name, or the first one does not run a server.
pub fn sim_info(peers: &Vec<PeerInfo>, name: &str) -> (addr: Option<iroh::EndpointAddr>)
    ensures
        match addr {
            Some(a) => exists|i: int| is_first_named(peers@, name@, i) && peers@[i].is_server && peers@[i].addr == a,
            None => forall|i: int| is_first_named(peers@, name@, i) ==> !peers@[i].is_server,
        },
{
    let wanted = String::from_str(name);
    let n = peers.len();
    let mut i: usize = 0;
    while i < n
        invariant
            n == peers@.len(),
            wanted@ == name@,
            0 <= i <= n,
            forall|j: int| 0 <= j < i ==> peers@[j].name@ != name@,
        decreases n - i,
    {
        if peers[i].name == wanted {
            assert(is_first_named(peers@, name@, i as int));
            if peers[i].is_server {
                return Some(peers[i].addr.clone());
            } else {
                assert forall|k: int| is_first_named(peers@, name@, k) implies !peers@[k].is_server by {
                    if k != i {
                        if k < i {
                        } else {
                            assert(peers@[i as int].name@ == name@);
                        }
                    }
                }
                return None;
            }
        }
        i = i + 1;
    }
    None
}

/// The number of slashes that `path` starts with.
pub open spec fn leading_slashes(path: Seq<char>, k: int) -> bool {
    &&& 0 <= k <= path.len()
    &&& forall|j: int| 0 <= j < k ==> path[j] == '/'
    &&& (k == path.len() || path[k] != '/')
}

/// The file a request names, relative to the simulation's folder: the
/// request's path without its leading slashes.
pub fn request_relative_path(path: &str) -> (rel: String)
    ensures
        exists|k: int| leading_slashes(path@, k) && rel@ == path@.skip(k),
{
    let n = path.unicode_len();
    let mut k: usize = 0;
    while k < n && path.get_char(k) == '/'
        invariant
            n == path@.len(),
            0 <= k <= n,
            forall|j: int| 0 <= j < k ==> path@[j] == '/',
        decreases n - k,
    {
        k = k + 1;
    }
    let rest = path.substring_char(k, n);
    assert(rest@ =~= path@.skip(k as int));
    assert(leading_slashes(path@, k as int));
    String::from_str(rest)
}

} // verus!
