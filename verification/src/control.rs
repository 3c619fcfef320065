//! Which control-centre buffs are which: the passion trade chain, efficiency
//! injections, and hiring/mood buffs used to fill the last control seats.
use vstd::prelude::*;

use crate::names::{views, NameSet};
use crate::pool::{copy_skipped_entries, entry_view, skipped_view, ControlPool, ControlPoolEntry};
use crate::text::{contains_str, is_prefix, occurs_in, starts_with, str_eq, utf8};

verus! {

/// How the remaining control seats are filled: by efficiency, or (after a base
/// system pinned some seats) by hiring and mood buffs.
#[derive(Debug, Clone, Copy, PartialEq, Eq, Structural)]
pub enum ControlFillPolicy {
    Efficiency,
    HrAndMood,
}

/// Buffs of the passion trade chain.
pub open spec fn passion_chain_spec(b: Seq<char>) -> bool {
    b == "control_dorm_bd[000]"@ || b == "control_mp_bd&trade[000]"@ || b == "control_prod_bd_spd[000]"@
        || b == "control_prod_bd_spd[010]"@
}

/// Whether `buff_id` belongs to the passion trade chain (kept out of fill seats).
pub fn control_passion_chain_buff(buff_id: &str) -> (r: bool)
    ensures
        r == passion_chain_spec(buff_id@),
{
    str_eq(buff_id, "control_dorm_bd[000]") || str_eq(buff_id, "control_mp_bd&trade[000]") || str_eq(
        buff_id,
        "control_prod_bd_spd[000]",
    ) || str_eq(buff_id, "control_prod_bd_spd[010]")
}

/// `b` starts with `p`.
pub open spec fn starts(b: Seq<char>, p: Seq<char>) -> bool {
    is_prefix(utf8(b), utf8(p))
}

/// Buffs that inject production or trade efficiency.
pub open spec fn efficiency_inject_spec(b: Seq<char>) -> bool {
    starts(b, "control_prod_spd"@) || starts(b, "control_tra_spd"@) || starts(b, "control_token_prod_spd"@)
        || b == "control_mp_bd[000]"@
}

/// Whether `buff_id` injects production or trade efficiency.
pub fn control_efficiency_inject_buff(buff_id: &str) -> (r: bool)
    ensures
        r == efficiency_inject_spec(buff_id@),
{
    starts_with(buff_id, "control_prod_spd") || starts_with(buff_id, "control_tra_spd") || starts_with(
        buff_id,
        "control_token_prod_spd",
    ) || str_eq(buff_id, "control_mp_bd[000]")
}

/// Hiring and mood buffs.
pub open spec fn hr_mood_spec(b: Seq<char>) -> bool {
    ||| b == "control_hire_spd&bd[000]"@
    ||| b == "control_dorm_rec2[000]"@
    ||| b == "control_mp_cost[007]"@
    ||| b == "control_mp_cost[010]"@
    ||| b == "control_mp_cost[012]"@
    ||| b == "control_mp_psk[000]"@
    ||| (starts(b, "control_mp_cost["@) && !occurs_in(utf8(b), utf8("&"@)))
    ||| starts(b, "control_mp_cost&faction"@)
}

/// Whether `buff_id` is a hiring or mood buff.
pub fn control_hr_mood_buff(buff_id: &str) -> (r: bool)
    ensures
        r == hr_mood_spec(buff_id@),
{
    str_eq(buff_id, "control_hire_spd&bd[000]") || str_eq(buff_id, "control_dorm_rec2[000]") || str_eq(
        buff_id,
        "control_mp_cost[007]",
    ) || str_eq(buff_id, "control_mp_cost[010]") || str_eq(buff_id, "control_mp_cost[012]") || str_eq(
        buff_id,
        "control_mp_psk[000]",
    ) || (starts_with(buff_id, "control_mp_cost[") && !contains_str(buff_id, "&")) || starts_with(
        buff_id,
        "control_mp_cost&faction",
    )
}

/// An entry fit for a fill seat: no passion-chain or efficiency buff, and at
/// least one hiring or mood buff.
pub open spec fn hr_mood_fill_spec(buffs: Seq<Seq<char>>) -> bool {
    &&& forall|i: int| 0 <= i < buffs.len() ==> !passion_chain_spec(#[trigger] buffs[i]) && !efficiency_inject_spec(buffs[i])
    &&& exists|i: int| 0 <= i < buffs.len() && hr_mood_spec(#[trigger] buffs[i])
}

/// Whether a control-pool entry may take a seat left after pinning.
pub fn control_entry_hr_mood_fill(entry: &ControlPoolEntry) -> (r: bool)
    ensures
        r == hr_mood_fill_spec(views(entry.buff_ids@)),
{
    let ghost b = views(entry.buff_ids@);
    let mut i: usize = 0;
    while i < entry.buff_ids.len()
        invariant
            0 <= i <= entry.buff_ids@.len(),
            b == views(entry.buff_ids@),
            forall|j: int| 0 <= j < i ==> !passion_chain_spec(#[trigger] b[j]) && !efficiency_inject_spec(b[j]),
        decreases entry.buff_ids@.len() - i,
    {
        let id = entry.buff_ids[i].as_str();
        assert(b[i as int] == id@);
        if control_passion_chain_buff(id) || control_efficiency_inject_buff(id) {
            return false;
        }
        i = i + 1;
    }
    let mut k: usize = 0;
    while k < entry.buff_ids.len()
        invariant
            0 <= k <= entry.buff_ids@.len(),
            b == views(entry.buff_ids@),
            forall|j: int| 0 <= j < b.len() ==> !passion_chain_spec(#[trigger] b[j]) && !efficiency_inject_spec(b[j]),
            forall|j: int| 0 <= j < k ==> !hr_mood_spec(#[trigger] b[j]),
        decreases entry.buff_ids@.len() - k,
    {
        let id = entry.buff_ids[k].as_str();
        assert(b[k as int] == id@);
        if control_hr_mood_buff(id) {
            return true;
        }
        k = k + 1;
    }
    false
}

/// An entry the fill search may use: unused or pinned, and under the
/// hiring-and-mood policy pinned or fit for a fill seat.
pub open spec fn fill_keeps(
    e: ControlPoolEntry,
    used: Set<Seq<char>>,
    pinned: Set<Seq<char>>,
    policy: ControlFillPolicy,
) -> bool {
    &&& !used.contains(e.name@) || pinned.contains(e.name@)
    &&& policy != ControlFillPolicy::HrAndMood || pinned.contains(e.name@) || hr_mood_fill_spec(views(e.buff_ids@))
}

/// The control pool the fill search runs on (order kept; skipped operators kept).
pub fn filter_control_pool_for_fill(
    pool: &ControlPool,
    used: &NameSet,
    pinned: &NameSet,
    policy: ControlFillPolicy,
) -> (r: ControlPool)
    ensures
        r.entries@.map_values(|e: ControlPoolEntry| entry_view(e)) == pool.entries@.filter(
            |e: ControlPoolEntry| fill_keeps(e, used@, pinned@, policy),
        ).map_values(|e: ControlPoolEntry| entry_view(e)),
        r.skipped@.map_values(|s: (String, u8, crate::pool::PoolSkip)| skipped_view(s)) == pool.skipped@.map_values(
            |s: (String, u8, crate::pool::PoolSkip)| skipped_view(s),
        ),
{
    let ghost keep = |e: ControlPoolEntry| fill_keeps(e, used@, pinned@, policy);
    let mut entries: Vec<ControlPoolEntry> = Vec::new();
    let mut i: usize = 0;
    assert(entries@.map_values(|e: ControlPoolEntry| entry_view(e)) =~= pool.entries@.subrange(0, 0).filter(keep).map_values(
        |e: ControlPoolEntry| entry_view(e),
    ));
    while i < pool.entries.len()
        invariant
            0 <= i <= pool.entries@.len(),
            keep == (|e: ControlPoolEntry| fill_keeps(e, used@, pinned@, policy)),
            entries@.map_values(|e: ControlPoolEntry| entry_view(e)) == pool.entries@.subrange(0, i as int).filter(
                keep,
            ).map_values(|e: ControlPoolEntry| entry_view(e)),
        decreases pool.entries@.len() - i,
    {
        let ghost pre = pool.entries@.subrange(0, i as int).filter(keep);
        let ghost prev = entries@;
        let e = &pool.entries[i];
        let name = e.name.as_str();
        let free = !used.contains(name) || pinned.contains(name);
        let fits = policy != ControlFillPolicy::HrAndMood || pinned.contains(name) || control_entry_hr_mood_fill(e);
        if free && fits {
            entries.push(e.duplicate());
        }
        proof {
            let sub2 = pool.entries@.subrange(0, i + 1);
            assert(sub2.drop_last() =~= pool.entries@.subrange(0, i as int));
            assert(sub2.last() == pool.entries@[i as int]);
            reveal(Seq::filter);
            if keep(sub2.last()) {
                assert(sub2.filter(keep) == pre.push(sub2.last()));
                assert(entries@.map_values(|e: ControlPoolEntry| entry_view(e)) =~= prev.map_values(
                    |e: ControlPoolEntry| entry_view(e),
                ).push(entry_view(pool.entries@[i as int])));
                assert(pre.push(sub2.last()).map_values(|e: ControlPoolEntry| entry_view(e)) =~= pre.map_values(
                    |e: ControlPoolEntry| entry_view(e),
                ).push(entry_view(pool.entries@[i as int])));
            } else {
                assert(sub2.filter(keep) == pre);
                assert(entries@ == prev);
            }
        }
        i = i + 1;
    }
    assert(pool.entries@.subrange(0, pool.entries@.len() as int) =~= pool.entries@);
    ControlPool { entries, skipped: copy_skipped_entries(&pool.skipped) }
}

} // verus!
