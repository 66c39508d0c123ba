//! The AR clients that receive the simulation's output: after a round of
//! sends, the clients whose send failed are dropped.

use vstd::prelude::*;

verus! {

/// The elements of `s` whose positions are not in `dead`, in order.
pub open spec fn without_positions<T>(s: Seq<T>, dead: Set<int>) -> Seq<T>
    decreases s.len(),
{
    if s.len() == 0 {
        seq![]
    } else {
        let rest = without_positions(s.drop_last(), dead);
        if dead.contains(s.len() - 1) {
            rest
        } else {
            rest.push(s.last())
        }
    }
}

/// The positions listed, as a set.
pub open spec fn position_set(dead: Seq<usize>) -> Set<int> {
    Set::new(|p: int| exists|k: int| 0 <= k < dead.len() && dead[k] as int == p)
}

/// Drops the clients at the positions in `dead`, which lists positions in
/// increasing order (the order in which a round of sends found them dead);
/// the other clients stay, in their order.
pub fn remove_dead_clients<T>(clients: &mut Vec<T>, dead: &Vec<usize>)
    requires
        forall|k: int, l: int| 0 <= k < l < dead@.len() ==> dead@[k] < dead@[l],
        forall|k: int| 0 <= k < dead@.len() ==> dead@[k] < old(clients)@.len(),
    ensures
        final(clients)@ == without_positions(old(clients)@, position_set(dead@)),
{
    let ghost all = clients@;
    let ghost dead_set = position_set(dead@);
    let n = clients.len();
    let mut kept: Vec<T> = Vec::new();
    let mut i: usize = 0;
    let mut j: usize = 0;
    while i < n
        invariant
            n == all.len(),
            dead_set == position_set(dead@),
            forall|k: int, l: int| 0 <= k < l < dead@.len() ==> dead@[k] < dead@[l],
            0 <= i <= n,
            0 <= j <= dead@.len(),
            forall|k: int| 0 <= k < j ==> dead@[k] < i,
            j < dead@.len() ==> dead@[j as int] >= i,
            clients@ == all.skip(i as int),
            kept@ == without_positions(all.take(i as int), dead_set),
        decreases n - i,
    {
        let item = clients.remove(0);
        let is_dead = j < dead.len() && dead[j] == i;
        proof {
            assert(all.take(i + 1).drop_last() =~= all.take(i as int));
            assert(all.take(i + 1).last() == all[i as int]);
            assert(clients@ =~= all.skip(i + 1));
            if is_dead {
                assert(dead_set.contains(i as int));
            } else {
                assert forall|k: int| 0 <= k < dead@.len() implies dead@[k] != i by {
                    if k < j {
                    } else if j < dead@.len() {
                        assert(dead@[j as int] > i);
                        if k > j {
                            assert(dead@[j as int] < dead@[k]);
                        }
                    }
                }
                assert(!dead_set.contains(i as int));
            }
        }
        if is_dead {
            j = j + 1;
        } else {
            kept.push(item);
        }
        i = i + 1;
    }
    proof {
        assert(all.take(n as int) =~= all);
    }
    *clients = kept;
}

/// Dropping no client keeps them all, and dropping keeps the order of those
/// that stay: each one left is one of the old clients.
pub proof fn lemma_without_positions<T>(s: Seq<T>, dead: Set<int>)
    ensures
        without_positions(s, Set::empty()) == s,
        without_positions(s, dead).len() <= s.len(),
        forall|x: T| without_positions(s, dead).contains(x) ==> s.contains(x),
    decreases s.len(),
{
    if s.len() == 0 {
        assert(without_positions(s, Set::empty()) =~= s);
    } else {
        lemma_without_positions(s.drop_last(), dead);
        assert(s.drop_last().push(s.last()) =~= s);
        let rest = without_positions(s.drop_last(), dead);
        assert forall|x: T| without_positions(s, dead).contains(x) implies s.contains(x) by {
            if rest.contains(x) {
                let k = choose|k: int| 0 <= k < rest.len() && rest[k] == x;
                assert(s.drop_last().contains(x));
                let m = choose|m: int| 0 <= m < s.drop_last().len() && s.drop_last()[m] == x;
                assert(s[m] == x);
            } else {
                let k = choose|k: int| 0 <= k < without_positions(s, dead).len() && without_positions(s, dead)[k] == x;
                assert(s[s.len() - 1] == x);
            }
        }
    }
}

} // verus!
