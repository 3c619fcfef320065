//! The order in which a room's effect atoms run: by phase, then by their order
//! within the phase, atoms of equal rank in the order they were collected; and
//! what runs between phases.
use vstd::prelude::*;

use crate::types::{phase_key, Phase};

verus! {

/// Rank of an atom: its phase's sort key, then its order within the phase.
pub open spec fn rank_of(k: (Phase, i32)) -> (int, int) {
    (phase_key(k.0), k.1 as int)
}

/// `a` runs strictly after `b`.
pub open spec fn ranks_after(a: (int, int), b: (int, int)) -> bool {
    a.0 > b.0 || (a.0 == b.0 && a.1 > b.1)
}

/// Where atom `i` is inserted into `order`: before the first atom that runs
/// strictly after it, searching from `from`.
pub open spec fn atom_insert_pos(order: Seq<int>, keys: Seq<(Phase, i32)>, i: int, from: int) -> int
    decreases order.len() - from,
{
    if from < 0 || from >= order.len() {
        order.len() as int
    } else if ranks_after(rank_of(keys[order[from]]), rank_of(keys[i])) {
        from
    } else {
        atom_insert_pos(order, keys, i, from + 1)
    }
}

/// The first `n` atoms in running order.
pub open spec fn atom_order_spec(keys: Seq<(Phase, i32)>, n: nat) -> Seq<int>
    decreases n,
{
    if n == 0 {
        Seq::empty()
    } else {
        let o = atom_order_spec(keys, (n - 1) as nat);
        o.insert(atom_insert_pos(o, keys, n - 1, 0), n - 1)
    }
}

proof fn lemma_atom_insert_pos(order: Seq<int>, keys: Seq<(Phase, i32)>, i: int, from: int)
    requires
        0 <= from <= order.len(),
    ensures
        from <= atom_insert_pos(order, keys, i, from) <= order.len(),
        forall|j: int|
            from <= j < atom_insert_pos(order, keys, i, from) ==> !ranks_after(rank_of(keys[order[j]]), rank_of(keys[i])),
        atom_insert_pos(order, keys, i, from) < order.len() ==> ranks_after(
            rank_of(keys[order[atom_insert_pos(order, keys, i, from)]]),
            rank_of(keys[i]),
        ),
    decreases order.len() - from,
{
    if from < order.len() && !ranks_after(rank_of(keys[order[from]]), rank_of(keys[i])) {
        lemma_atom_insert_pos(order, keys, i, from + 1);
    }
}

/// Atoms run in rank order and every atom runs once; atoms of equal rank run
/// in the order they were collected.
pub proof fn lemma_atom_order(keys: Seq<(Phase, i32)>, n: nat)
    requires
        n <= keys.len(),
    ensures
        atom_order_spec(keys, n).len() == n,
        forall|a: int| 0 <= a < n ==> 0 <= #[trigger] atom_order_spec(keys, n)[a] < n,
        forall|a: int, b: int|
            0 <= a < n && 0 <= b < n && a != b ==> atom_order_spec(keys, n)[a] != atom_order_spec(keys, n)[b],
        forall|a: int, b: int|
            #![trigger atom_order_spec(keys, n)[a], atom_order_spec(keys, n)[b]]
            0 <= a < b < n ==> !ranks_after(rank_of(keys[atom_order_spec(keys, n)[a]]), rank_of(keys[atom_order_spec(keys, n)[b]]))
                && (rank_of(keys[atom_order_spec(keys, n)[a]]) == rank_of(keys[atom_order_spec(keys, n)[b]])
                ==> atom_order_spec(keys, n)[a] < atom_order_spec(keys, n)[b]),
    decreases n,
{
    if n > 0 {
        let m = n - 1;
        let o = atom_order_spec(keys, m as nat);
        lemma_atom_order(keys, m as nat);
        let k = atom_insert_pos(o, keys, m, 0);
        lemma_atom_insert_pos(o, keys, m, 0);
        o.insert_ensures(k, m);
        let o2 = atom_order_spec(keys, n);
        assert(o2 == o.insert(k, m));
        assert forall|a: int| 0 <= a < n implies 0 <= #[trigger] o2[a] < n by {
            if a > k {
                assert(o2[a] == o[a - 1]);
            }
        }
        assert forall|a: int, b: int| 0 <= a < n && 0 <= b < n && a != b implies o2[a] != o2[b] by {
            if a > k {
                assert(o2[a] == o[a - 1]);
            }
            if b > k {
                assert(o2[b] == o[b - 1]);
            }
        }
        assert forall|a: int, b: int| 0 <= a < b < n implies !ranks_after(rank_of(keys[o2[a]]), rank_of(keys[o2[b]]))
            && (rank_of(keys[o2[a]]) == rank_of(keys[o2[b]]) ==> o2[a] < o2[b]) by {
            if a < k && b < k {
            } else if a < k && b == k {
            } else if a < k && b > k {
                assert(o2[b] == o[b - 1]);
                if k < b - 1 {
                    assert(!ranks_after(rank_of(keys[o[k]]), rank_of(keys[o[b - 1]])));
                }
            } else if a == k {
                assert(o2[b] == o[b - 1]);
                if k < b - 1 {
                    assert(!ranks_after(rank_of(keys[o[k]]), rank_of(keys[o[b - 1]])));
                }
            } else {
                assert(o2[a] == o[a - 1]);
                assert(o2[b] == o[b - 1]);
            }
        }
    }
}

/// Whether an atom of rank `k` runs strictly after rank `(ki, oi)`.
fn runs_after(k: &(Phase, i32), ki: i32, oi: i32) -> (r: bool)
    ensures
        r == ranks_after(rank_of(*k), (ki as int, oi as int)),
{
    let kk = k.0.sort_key();
    kk > ki || (kk == ki && k.1 > oi)
}

/// Positions of the atoms in running order.
pub fn atom_order(keys: &Vec<(Phase, i32)>) -> (r: Vec<usize>)
    ensures
        r@.map_values(|x: usize| x as int) == atom_order_spec(keys@, keys@.len()),
{
    let mut order: Vec<usize> = Vec::new();
    let mut i: usize = 0;
    assert(order@.map_values(|x: usize| x as int) =~= Seq::<int>::empty());
    while i < keys.len()
        invariant
            0 <= i <= keys@.len(),
            order@.map_values(|x: usize| x as int) == atom_order_spec(keys@, i as nat),
            forall|j: int| 0 <= j < order@.len() ==> order@[j] < i,
        decreases keys@.len() - i,
    {
        let ghost o = atom_order_spec(keys@, i as nat);
        let ki = keys[i].0.sort_key();
        let oi = keys[i].1;
        let mut k: usize = 0;
        while k < order.len() && !runs_after(&keys[order[k]], ki, oi)
            invariant
                0 <= k <= order@.len(),
                i < keys@.len(),
                ki == phase_key(keys@[i as int].0),
                oi == keys@[i as int].1,
                order@.map_values(|x: usize| x as int) == o,
                forall|j: int| 0 <= j < order@.len() ==> order@[j] < i,
                atom_insert_pos(o, keys@, i as int, 0) == atom_insert_pos(o, keys@, i as int, k as int),
            decreases order@.len() - k,
        {
            assert(o[k as int] == order@[k as int] as int);
            k = k + 1;
        }
        proof {
            if k < order@.len() {
                assert(o[k as int] == order@[k as int] as int);
            }
        }
        let ghost pre = order@;
        order.insert(k, i);
        proof {
            assert(pre.map_values(|x: usize| x as int).len() == o.len());
            assert(order@.map_values(|x: usize| x as int) =~= o.insert(k as int, i as int));
            assert forall|j: int| 0 <= j < order@.len() implies order@[j] < i + 1 by {
                if j > k {
                    assert(order@[j] == pre[j - 1]);
                } else if j < k {
                    assert(order@[j] == pre[j]);
                }
            }
        }
        i = i + 1;
    }
    order
}

/// What runs before an atom of phase group `group`, after atoms up to group
/// `last_group`: the gold-flow chain once, before the first atom from the
/// peer-absorb phase on; and the order-limit recomputation when the limit
/// phase is left behind.
pub fn phase_boundary(last_group: i32, group: i32, gold_flow_done: bool) -> (r: (bool, bool))
    ensures
        r.0 == (!gold_flow_done && group >= phase_key(Phase::PeerAbsorb)),
        r.1 == (group > phase_key(Phase::Limit) && last_group <= phase_key(Phase::Limit)),
{
    let peer_absorb = Phase::PeerAbsorb.sort_key();
    let limit = Phase::Limit.sort_key();
    (!gold_flow_done && group >= peer_absorb, group > limit && last_group <= limit)
}

} // verus!
