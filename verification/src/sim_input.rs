//! The touch inputs that AR clients send to the simulation, and how a batch
//! of them is thinned out before one simulation step.

use vstd::prelude::*;

verus! {

/// The kind of a touch input; the input's coordinates do not matter here.
#[derive(PartialEq, Eq, Structural, Clone, Copy)]
pub enum UserInKind {
    TouchStart,
    Touching,
    TouchEnd,
}

/// Positions of the inputs of kind `kind`, in order.
pub open spec fn positions_of(kinds: Seq<UserInKind>, kind: UserInKind) -> Seq<int>
    decreases kinds.len(),
{
    if kinds.len() == 0 {
        seq![]
    } else {
        let rest = positions_of(kinds.drop_last(), kind);
        if kinds.last() == kind {
            rest.push(kinds.len() - 1)
        } else {
            rest
        }
    }
}

/// The position of the last `Touching` input, if any, as a sequence of at
/// most one element.
pub open spec fn last_touching(kinds: Seq<UserInKind>) -> Seq<int> {
    let all = positions_of(kinds, UserInKind::Touching);
    if all.len() == 0 {
        seq![]
    } else {
        seq![all.last()]
    }
}

/// The inputs that one step uses, as positions in the batch: every
/// `TouchStart` in order, then the last `Touching` only, then every
/// `TouchEnd` in order.
pub open spec fn dedup_order(kinds: Seq<UserInKind>) -> Seq<int> {
    positions_of(kinds, UserInKind::TouchStart) + last_touching(kinds)
        + positions_of(kinds, UserInKind::TouchEnd)
}

proof fn lemma_positions_in_range(kinds: Seq<UserInKind>, kind: UserInKind)
    ensures
        forall|k: int|
            0 <= k < positions_of(kinds, kind).len() ==> {
                &&& 0 <= #[trigger] positions_of(kinds, kind)[k] < kinds.len()
                &&& kinds[positions_of(kinds, kind)[k]] == kind
            },
        forall|k: int, l: int|
            0 <= k < l < positions_of(kinds, kind).len() ==> positions_of(kinds, kind)[k]
                < positions_of(kinds, kind)[l],
        positions_of(kinds, kind).len() <= kinds.len(),
    decreases kinds.len(),
{
    if kinds.len() > 0 {
        lemma_positions_in_range(kinds.drop_last(), kind);
    }
}

/// Positions of the inputs to keep, in the order in which the step takes
/// them.
pub fn dedup_inputs(kinds: &[UserInKind]) -> (order: Vec<usize>)
    ensures
        order@.map_values(|i: usize| i as int) == dedup_order(kinds@),
{
    let n = kinds.len();
    let mut starts: Vec<usize> = Vec::new();
    let mut ends: Vec<usize> = Vec::new();
    let mut last: Option<usize> = None;
    let mut i: usize = 0;
    while i < n
        invariant
            n == kinds@.len(),
            0 <= i <= n,
            starts@.map_values(|j: usize| j as int) == positions_of(kinds@.take(i as int), UserInKind::TouchStart),
            ends@.map_values(|j: usize| j as int) == positions_of(kinds@.take(i as int), UserInKind::TouchEnd),
            match last {
                Some(j) => last_touching(kinds@.take(i as int)) == seq![j as int],
                None => last_touching(kinds@.take(i as int)) == Seq::<int>::empty(),
            },
        decreases n - i,
    {
        let prefix = Ghost(kinds@.take(i as int));
        let next = Ghost(kinds@.take(i + 1));
        proof {
            assert(next@.drop_last() =~= prefix@);
            assert(next@.last() == kinds@[i as int]);
            assert(next@.len() - 1 == i);
        }
        match kinds[i] {
            UserInKind::TouchStart => {
                starts.push(i);
                assert(starts@.map_values(|j: usize| j as int) =~= positions_of(prefix@, UserInKind::TouchStart).push(i as int));
            },
            UserInKind::Touching => {
                last = Some(i);
            },
            UserInKind::TouchEnd => {
                ends.push(i);
                assert(ends@.map_values(|j: usize| j as int) =~= positions_of(prefix@, UserInKind::TouchEnd).push(i as int));
            },
        }
        i = i + 1;
    }
    proof {
        assert(kinds@.take(n as int) =~= kinds@);
    }
    let mut order = starts;
    let ghost with_starts = order@;
    match last {
        Some(j) => {
            order.push(j);
        },
        None => {},
    }
    let ghost with_touching = order@;
    assert(with_touching.map_values(|j: usize| j as int) =~= positions_of(kinds@, UserInKind::TouchStart) + last_touching(kinds@));
    let mut k: usize = 0;
    let m = ends.len();
    while k < m
        invariant
            m == ends@.len(),
            0 <= k <= m,
            order@ == with_touching + ends@.take(k as int),
        decreases m - k,
    {
        order.push(ends[k]);
        assert(ends@.take(k + 1) =~= ends@.take(k as int).push(ends@[k as int]));
        k = k + 1;
    }
    assert(ends@.take(m as int) =~= ends@);
    assert(order@.map_values(|j: usize| j as int) =~= with_touching.map_values(|j: usize| j as int) + ends@.map_values(|j: usize| j as int));
    order
}

/// Every kept position is in the batch, and it keeps every `TouchStart` and
/// every `TouchEnd` and at most one `Touching`: a batch with a `Touching`
/// keeps exactly one.
pub proof fn lemma_dedup_keeps(kinds: Seq<UserInKind>)
    ensures
        forall|k: int| 0 <= k < dedup_order(kinds).len() ==> 0 <= #[trigger] dedup_order(kinds)[k] < kinds.len(),
        last_touching(kinds).len() <= 1,
        positions_of(kinds, UserInKind::Touching).len() > 0 <==> last_touching(kinds).len() == 1,
        dedup_order(kinds).len() == positions_of(kinds, UserInKind::TouchStart).len()
            + last_touching(kinds).len() + positions_of(kinds, UserInKind::TouchEnd).len(),
        forall|k: int| 0 <= k < last_touching(kinds).len() ==> kinds[#[trigger] last_touching(kinds)[k]] == UserInKind::Touching,
{
    lemma_positions_in_range(kinds, UserInKind::TouchStart);
    lemma_positions_in_range(kinds, UserInKind::Touching);
    lemma_positions_in_range(kinds, UserInKind::TouchEnd);
    let d = dedup_order(kinds);
    let s = positions_of(kinds, UserInKind::TouchStart);
    let t = last_touching(kinds);
    let e = positions_of(kinds, UserInKind::TouchEnd);
    assert forall|k: int| 0 <= k < d.len() implies 0 <= #[trigger] d[k] < kinds.len() by {
        if k < s.len() {
            assert(d[k] == s[k]);
        } else if k < s.len() + t.len() {
            assert(d[k] == t[k - s.len()]);
        } else {
            assert(d[k] == e[k - s.len() - t.len()]);
        }
    }
}

/// The positions `from`, `from + 1`, ..., up to but not including `to`.
pub open spec fn range_seq(from: int, to: int) -> Seq<int> {
    Seq::new((if to >= from { to - from } else { 0 }) as nat, |i: int| from + i)
}

/// `m` inputs of one kind.
pub open spec fn repeat_kind(kind: UserInKind, m: nat) -> Seq<UserInKind> {
    Seq::new(m, |i: int| kind)
}

proof fn lemma_positions_append(s: Seq<UserInKind>, t: Seq<UserInKind>, kind: UserInKind)
    ensures
        positions_of(s + t, kind) == positions_of(s, kind) + positions_of(t, kind).map_values(|p: int| p + s.len()),
    decreases t.len(),
{
    if t.len() == 0 {
        assert(s + t =~= s);
        assert(positions_of(t, kind).map_values(|p: int| p + s.len()) =~= Seq::<int>::empty());
        assert(positions_of(s, kind) + Seq::<int>::empty() =~= positions_of(s, kind));
    } else {
        lemma_positions_append(s, t.drop_last(), kind);
        assert((s + t).drop_last() =~= s + t.drop_last());
        assert((s + t).last() == t.last());
        let rest = positions_of(t.drop_last(), kind).map_values(|p: int| p + s.len());
        if t.last() == kind {
            assert(positions_of(t, kind).map_values(|p: int| p + s.len()) =~= rest.push(t.len() - 1 + s.len()));
            assert(positions_of(s, kind) + rest.push(t.len() - 1 + s.len()) =~= (positions_of(s, kind) + rest).push(
                (s + t).len() - 1,
            ));
        } else {
            assert(positions_of(t, kind).map_values(|p: int| p + s.len()) =~= rest);
        }
    }
}

proof fn lemma_positions_repeat(kind: UserInKind, m: nat, of: UserInKind)
    ensures
        positions_of(repeat_kind(kind, m), of) == (if kind == of { range_seq(0, m as int) } else { Seq::<int>::empty() }),
    decreases m,
{
    if m > 0 {
        lemma_positions_repeat(kind, (m - 1) as nat, of);
        assert(repeat_kind(kind, m).drop_last() =~= repeat_kind(kind, (m - 1) as nat));
        if kind == of {
            assert(range_seq(0, (m - 1) as int).push(m - 1) =~= range_seq(0, m as int));
        }
    } else {
        assert(positions_of(repeat_kind(kind, m), of) =~= Seq::<int>::empty());
        assert(range_seq(0, 0) =~= Seq::<int>::empty());
    }
}

/// A batch that is already thinned out, every `TouchStart` first, then at
/// most one `Touching`, then every `TouchEnd`, is kept whole and in order.
pub proof fn lemma_dedup_of_thinned_batch(a: nat, b: nat, c: nat)
    requires
        b <= 1,
    ensures
        dedup_order(
            repeat_kind(UserInKind::TouchStart, a) + repeat_kind(UserInKind::Touching, b) + repeat_kind(
                UserInKind::TouchEnd,
                c,
            ),
        ) == range_seq(0, (a + b + c) as int),
{
    let s = repeat_kind(UserInKind::TouchStart, a);
    let t = repeat_kind(UserInKind::Touching, b);
    let e = repeat_kind(UserInKind::TouchEnd, c);
    let k = s + t + e;
    assert forall|kind: UserInKind| true implies positions_of(k, kind) == positions_of(s, kind)
        + positions_of(t, kind).map_values(|p: int| p + a) + positions_of(e, kind).map_values(|p: int| p + (a + b)) by {
        lemma_positions_append(s, t, kind);
        lemma_positions_append(s + t, e, kind);
        assert((s + t).len() == a + b);
    }
    lemma_positions_repeat(UserInKind::TouchStart, a, UserInKind::TouchStart);
    lemma_positions_repeat(UserInKind::Touching, b, UserInKind::TouchStart);
    lemma_positions_repeat(UserInKind::TouchEnd, c, UserInKind::TouchStart);
    lemma_positions_repeat(UserInKind::TouchStart, a, UserInKind::Touching);
    lemma_positions_repeat(UserInKind::Touching, b, UserInKind::Touching);
    lemma_positions_repeat(UserInKind::TouchEnd, c, UserInKind::Touching);
    lemma_positions_repeat(UserInKind::TouchStart, a, UserInKind::TouchEnd);
    lemma_positions_repeat(UserInKind::Touching, b, UserInKind::TouchEnd);
    lemma_positions_repeat(UserInKind::TouchEnd, c, UserInKind::TouchEnd);
    let ps = positions_of(k, UserInKind::TouchStart);
    let pt = positions_of(k, UserInKind::Touching);
    let pe = positions_of(k, UserInKind::TouchEnd);
    assert(ps =~= range_seq(0, a as int));
    assert(pt =~= range_seq(a as int, (a + b) as int));
    assert(pe =~= range_seq((a + b) as int, (a + b + c) as int));
    assert(last_touching(k) =~= range_seq(a as int, (a + b) as int));
    assert(dedup_order(k) =~= range_seq(0, (a + b + c) as int));
}

/// The inputs at the given positions.
pub open spec fn inputs_at(kinds: Seq<UserInKind>, order: Seq<int>) -> Seq<UserInKind> {
    order.map_values(|i: int| kinds[i])
}

/// Thinning out is idempotent: thinning out the inputs a step uses keeps
/// them all, in the same order.
pub proof fn lemma_dedup_idempotent(kinds: Seq<UserInKind>)
    ensures
        dedup_order(inputs_at(kinds, dedup_order(kinds))) == range_seq(0, dedup_order(kinds).len() as int),
{
    lemma_positions_in_range(kinds, UserInKind::TouchStart);
    lemma_positions_in_range(kinds, UserInKind::Touching);
    lemma_positions_in_range(kinds, UserInKind::TouchEnd);
    let s = positions_of(kinds, UserInKind::TouchStart);
    let t = last_touching(kinds);
    let e = positions_of(kinds, UserInKind::TouchEnd);
    let d = dedup_order(kinds);
    let thinned = inputs_at(kinds, d);
    let expected = repeat_kind(UserInKind::TouchStart, s.len()) + repeat_kind(UserInKind::Touching, t.len())
        + repeat_kind(UserInKind::TouchEnd, e.len());
    assert forall|k: int| 0 <= k < thinned.len() implies thinned[k] == expected[k] by {
        if k < s.len() {
            assert(d[k] == s[k]);
        } else if k < s.len() + t.len() {
            assert(d[k] == t[k - s.len()]);
            let all = positions_of(kinds, UserInKind::Touching);
            assert(t[k - s.len()] == all[all.len() - 1]);
        } else {
            assert(d[k] == e[k - s.len() - t.len()]);
        }
    }
    assert(thinned =~= expected);
    lemma_dedup_of_thinned_batch(s.len(), t.len(), e.len());
}

proof fn lemma_positions_complete(kinds: Seq<UserInKind>, kind: UserInKind)
    ensures
        forall|j: int|
            0 <= j < kinds.len() && kinds[j] == kind ==> exists|k: int|
                0 <= k < positions_of(kinds, kind).len() && #[trigger] positions_of(kinds, kind)[k] == j,
    decreases kinds.len(),
{
    if kinds.len() > 0 {
        let init = kinds.drop_last();
        lemma_positions_complete(init, kind);
        let p = positions_of(kinds, kind);
        let r = positions_of(init, kind);
        assert forall|j: int| 0 <= j < kinds.len() && kinds[j] == kind implies exists|k: int|
            0 <= k < p.len() && #[trigger] p[k] == j by {
            if j < init.len() {
                assert(init[j] == kinds[j]);
                let k = choose|k: int| 0 <= k < r.len() && #[trigger] r[k] == j;
                assert(p[k] == r[k]);
            } else {
                assert(p[r.len() as int] == j);
            }
        }
    }
}

/// What a thinned batch holds, over every batch: every `TouchStart` and
/// every `TouchEnd` is kept; a batch with a `Touching` keeps exactly one, and
/// no `Touching` comes after the kept one in the batch, so the step sees the
/// latest drag position.
pub proof fn lemma_dedup_keeps_latest_touching(kinds: Seq<UserInKind>)
    ensures
        forall|j: int|
            0 <= j < kinds.len() && kinds[j] != UserInKind::Touching ==> exists|k: int|
                0 <= k < dedup_order(kinds).len() && #[trigger] dedup_order(kinds)[k] == j,
        (exists|j: int| 0 <= j < kinds.len() && kinds[j] == UserInKind::Touching) ==> exists|k: int|
            0 <= k < dedup_order(kinds).len() && kinds[#[trigger] dedup_order(kinds)[k]] == UserInKind::Touching,
        forall|k: int, j: int|
            0 <= k < dedup_order(kinds).len() && kinds[#[trigger] dedup_order(kinds)[k]] == UserInKind::Touching
                && dedup_order(kinds)[k] < j < kinds.len() ==> #[trigger] kinds[j] != UserInKind::Touching,
        forall|k1: int, k2: int|
            0 <= k1 < dedup_order(kinds).len() && 0 <= k2 < dedup_order(kinds).len()
                && kinds[#[trigger] dedup_order(kinds)[k1]] == UserInKind::Touching
                && kinds[#[trigger] dedup_order(kinds)[k2]] == UserInKind::Touching ==> k1 == k2,
{
    lemma_positions_in_range(kinds, UserInKind::TouchStart);
    lemma_positions_in_range(kinds, UserInKind::Touching);
    lemma_positions_in_range(kinds, UserInKind::TouchEnd);
    lemma_positions_complete(kinds, UserInKind::TouchStart);
    lemma_positions_complete(kinds, UserInKind::Touching);
    lemma_positions_complete(kinds, UserInKind::TouchEnd);
    let d = dedup_order(kinds);
    let s = positions_of(kinds, UserInKind::TouchStart);
    let all = positions_of(kinds, UserInKind::Touching);
    let t = last_touching(kinds);
    let e = positions_of(kinds, UserInKind::TouchEnd);
    assert(d.len() == s.len() + t.len() + e.len());
    // the kind held at each kept position
    assert forall|k: int| 0 <= k < d.len() implies {
        &&& (k < s.len() ==> d[k] == s[k] && kinds[d[k]] == UserInKind::TouchStart)
        &&& (s.len() <= k < s.len() + t.len() ==> d[k] == all.last() && kinds[d[k]] == UserInKind::Touching)
        &&& (s.len() + t.len() <= k ==> d[k] == e[k - s.len() - t.len()] && kinds[d[k]] == UserInKind::TouchEnd)
    } by {
        if k < s.len() {
            assert(d[k] == s[k]);
        } else if k < s.len() + t.len() {
            assert(d[k] == t[k - s.len()]);
            assert(all[all.len() - 1] == all.last());
        } else {
            assert(d[k] == e[k - s.len() - t.len()]);
        }
    }
    assert forall|j: int| 0 <= j < kinds.len() && kinds[j] != UserInKind::Touching implies exists|k: int|
        0 <= k < d.len() && #[trigger] d[k] == j by {
        if kinds[j] == UserInKind::TouchStart {
            let k = choose|k: int| 0 <= k < s.len() && #[trigger] s[k] == j;
            assert(d[k] == s[k]);
        } else {
            assert(kinds[j] == UserInKind::TouchEnd);
            let k = choose|k: int| 0 <= k < e.len() && #[trigger] e[k] == j;
            assert(d[k + s.len() + t.len()] == e[k]);
        }
    }
    if exists|j: int| 0 <= j < kinds.len() && kinds[j] == UserInKind::Touching {
        let j = choose|j: int| 0 <= j < kinds.len() && kinds[j] == UserInKind::Touching;
        let k = choose|k: int| 0 <= k < all.len() && #[trigger] all[k] == j;
        assert(t.len() == 1);
        assert(d[s.len() as int] == all.last());
    }
    assert forall|k: int, j: int|
        0 <= k < d.len() && kinds[#[trigger] d[k]] == UserInKind::Touching && d[k] < j < kinds.len()
            implies #[trigger] kinds[j] != UserInKind::Touching by {
        if kinds[j] == UserInKind::Touching {
            assert(s.len() <= k < s.len() + t.len());
            let m = choose|m: int| 0 <= m < all.len() && #[trigger] all[m] == j;
            if m < all.len() - 1 {
                assert(all[m] < all[all.len() - 1]);
            }
        }
    }
}

} // verus!
