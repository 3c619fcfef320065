//! Operator pools: the operators that can staff a facility, the ones passed
//! over and why, and sub-pools without the operators already placed.
use vstd::prelude::*;

use crate::combinatorics::{choose_rounds, choose_steps, n_choose_k_u64};
use crate::instances::{copy_strings, find_entry, trade_binding, vec_has, OperatorInstances};
use crate::skills::SkillCatalog;
use crate::tier::PromotionTier;
use crate::trade::TradeOperator;
use crate::names::{views, NameSet};
use crate::text::{contains_str, occurs_in, str_eq, utf8};

verus! {

/// Why an operator was left out of a pool.
#[derive(Debug, Clone, PartialEq, Eq)]
pub enum PoolSkip {
    /// It has no binding for the facility.
    NoTradeBinding,
    /// One of its buffs is not modelled.
    UnmodeledBuff(String),
}

/// A skip reason seen as the unmodelled buff id, if that is the reason.
pub open spec fn skip_view(s: PoolSkip) -> Option<Seq<char>> {
    match s {
        PoolSkip::NoTradeBinding => None,
        PoolSkip::UnmodeledBuff(id) => Some(id@),
    }
}

impl PoolSkip {
    /// An independent copy.
    pub fn duplicate(&self) -> (r: PoolSkip)
        ensures
            skip_view(r) == skip_view(*self),
    {
        match self {
            PoolSkip::NoTradeBinding => PoolSkip::NoTradeBinding,
            PoolSkip::UnmodeledBuff(id) => PoolSkip::UnmodeledBuff(id.clone()),
        }
    }
}

/// Size of a pool: operators ready, operators skipped, and the number of
/// three-operator combinations of the ready ones (where counted).
#[derive(Debug, Clone, Copy)]
pub struct PoolStats {
    pub ready: usize,
    pub skipped: usize,
    pub combinations_3: u64,
}

/// An operator as the control-centre search takes it.
pub struct ControlOperator {
    pub name: String,
    pub elite: u8,
    pub buff_ids: Vec<String>,
    pub tags: Vec<String>,
}

/// One operator of the control-centre pool.
pub struct ControlPoolEntry {
    pub name: String,
    pub elite: u8,
    pub buff_ids: Vec<String>,
    pub tags: Vec<String>,
}

/// An entry seen as `(name, elite, buff ids, tags)`.
pub open spec fn entry_view(e: ControlPoolEntry) -> (Seq<char>, u8, Seq<Seq<char>>, Seq<Seq<char>>) {
    (e.name@, e.elite, views(e.buff_ids@), views(e.tags@))
}

/// A skipped operator seen as `(name, elite, reason)`.
pub open spec fn skipped_view(s: (String, u8, PoolSkip)) -> (Seq<char>, u8, Option<Seq<char>>) {
    (s.0@, s.1, skip_view(s.2))
}

impl ControlPoolEntry {
    /// The entry as an operator of the control-centre search.
    pub fn to_control_operator(&self) -> (r: ControlOperator)
        ensures
            r.name@ == self.name@,
            r.elite == self.elite,
            views(r.buff_ids@) == views(self.buff_ids@),
            views(r.tags@) == views(self.tags@),
    {
        ControlOperator {
            name: self.name.clone(),
            elite: self.elite,
            buff_ids: copy_strings(&self.buff_ids),
            tags: copy_strings(&self.tags),
        }
    }

    /// An independent copy.
    pub fn duplicate(&self) -> (r: ControlPoolEntry)
        ensures
            entry_view(r) == entry_view(*self),
    {
        ControlPoolEntry {
            name: self.name.clone(),
            elite: self.elite,
            buff_ids: copy_strings(&self.buff_ids),
            tags: copy_strings(&self.tags),
        }
    }
}

/// The control-centre pool: ready operators and skipped ones.
pub struct ControlPool {
    pub entries: Vec<ControlPoolEntry>,
    pub skipped: Vec<(String, u8, PoolSkip)>,
}

/// Index of the first entry named `name`, searching from `from`.
pub open spec fn entry_index(entries: Seq<ControlPoolEntry>, name: Seq<char>, from: int) -> Option<int>
    decreases entries.len() - from,
{
    if from < 0 || from >= entries.len() {
        None
    } else if entries[from].name@ == name {
        Some(from)
    } else {
        entry_index(entries, name, from + 1)
    }
}

impl ControlPool {
    /// Ready and skipped counts; combinations are not counted for this pool.
    pub fn stats(&self) -> (r: PoolStats)
        ensures
            r.ready == self.entries@.len(),
            r.skipped == self.skipped@.len(),
            r.combinations_3 == 0,
    {
        PoolStats { ready: self.entries.len(), skipped: self.skipped.len(), combinations_3: 0 }
    }

    /// The first entry named `name`.
    pub fn entry(&self, name: &str) -> (r: Option<&ControlPoolEntry>)
        ensures
            match r {
                Some(e) => entry_index(self.entries@, name@, 0) matches Some(i) && *e == self.entries@[i],
                None => entry_index(self.entries@, name@, 0) is None,
            },
    {
        let mut i: usize = 0;
        while i < self.entries.len()
            invariant
                0 <= i <= self.entries@.len(),
                entry_index(self.entries@, name@, 0) == entry_index(self.entries@, name@, i as int),
            decreases self.entries@.len() - i,
        {
            if str_eq(self.entries[i].name.as_str(), name) {
                return Some(&self.entries[i]);
            }
            i = i + 1;
        }
        None
    }
}

/// Copies the skipped operators of a pool.
pub(crate) fn copy_skipped_entries(v: &Vec<(String, u8, PoolSkip)>) -> (r: Vec<(String, u8, PoolSkip)>)
    ensures
        r@.map_values(|s: (String, u8, PoolSkip)| skipped_view(s)) == v@.map_values(|s: (String, u8, PoolSkip)| skipped_view(s)),
{
    let mut r: Vec<(String, u8, PoolSkip)> = Vec::new();
    let mut i: usize = 0;
    while i < v.len()
        invariant
            0 <= i <= v@.len(),
            r@.map_values(|s: (String, u8, PoolSkip)| skipped_view(s)) == v@.subrange(0, i as int).map_values(
                |s: (String, u8, PoolSkip)| skipped_view(s),
            ),
        decreases v@.len() - i,
    {
        let ghost pre = r@;
        let item = (v[i].0.clone(), v[i].1, v[i].2.duplicate());
        r.push(item);
        assert(r@.map_values(|s: (String, u8, PoolSkip)| skipped_view(s)) =~= pre.map_values(
            |s: (String, u8, PoolSkip)| skipped_view(s),
        ).push(skipped_view(v@[i as int])));
        assert(v@.subrange(0, i + 1).map_values(|s: (String, u8, PoolSkip)| skipped_view(s)) =~= v@.subrange(
            0,
            i as int,
        ).map_values(|s: (String, u8, PoolSkip)| skipped_view(s)).push(skipped_view(v@[i as int])));
        i = i + 1;
    }
    assert(v@.subrange(0, v@.len() as int) =~= v@);
    r
}

/// The pool without the operators in `exclude` (order kept); the skipped
/// operators are kept as they are.
pub fn filter_control_pool(pool: &ControlPool, exclude: &NameSet) -> (r: ControlPool)
    ensures
        r.entries@.map_values(|e: ControlPoolEntry| entry_view(e)) == pool.entries@.map_values(
            |e: ControlPoolEntry| entry_view(e),
        ).filter(|v: (Seq<char>, u8, Seq<Seq<char>>, Seq<Seq<char>>)| !exclude@.contains(v.0)),
        r.skipped@.map_values(|s: (String, u8, PoolSkip)| skipped_view(s)) == pool.skipped@.map_values(
            |s: (String, u8, PoolSkip)| skipped_view(s),
        ),
{
    let ghost all = pool.entries@.map_values(|e: ControlPoolEntry| entry_view(e));
    let ghost keep = |v: (Seq<char>, u8, Seq<Seq<char>>, Seq<Seq<char>>)| !exclude@.contains(v.0);
    let mut entries: Vec<ControlPoolEntry> = Vec::new();
    let mut i: usize = 0;
    assert(entries@.map_values(|e: ControlPoolEntry| entry_view(e)) =~= all.subrange(0, 0).filter(keep));
    while i < pool.entries.len()
        invariant
            0 <= i <= pool.entries@.len(),
            all == pool.entries@.map_values(|e: ControlPoolEntry| entry_view(e)),
            keep == (|v: (Seq<char>, u8, Seq<Seq<char>>, Seq<Seq<char>>)| !exclude@.contains(v.0)),
            entries@.map_values(|e: ControlPoolEntry| entry_view(e)) == all.subrange(0, i as int).filter(keep),
        decreases pool.entries@.len() - i,
    {
        let ghost pre = entries@.map_values(|e: ControlPoolEntry| entry_view(e));
        let ghost sub = all.subrange(0, i as int);
        if !exclude.contains(pool.entries[i].name.as_str()) {
            entries.push(pool.entries[i].duplicate());
        }
        proof {
            let sub2 = all.subrange(0, i + 1);
            assert(sub2.drop_last() =~= sub);
            assert(sub2.last() == entry_view(pool.entries@[i as int]));
            reveal(Seq::filter);
            if keep(sub2.last()) {
                assert(entries@.map_values(|e: ControlPoolEntry| entry_view(e)) =~= pre.push(sub2.last()));
            } else {
                assert(entries@.map_values(|e: ControlPoolEntry| entry_view(e)) =~= pre);
            }
        }
        i = i + 1;
    }
    assert(all.subrange(0, all.len() as int) =~= all);
    ControlPool { entries, skipped: copy_skipped_entries(&pool.skipped) }
}

/// Whether a skill id belongs to a gold-flow line (its effect runs through the
/// gold-order bookkeeping rather than a flat efficiency).
pub fn is_gold_flow_skill(id: &str) -> (r: bool)
    ensures
        r == (occurs_in(utf8(id@), utf8("line_gold"@)) || occurs_in(utf8(id@), utf8("spd&gold"@))
            || occurs_in(utf8(id@), utf8("line_durin"@))),
{
    contains_str(id, "line_gold") || contains_str(id, "spd&gold") || contains_str(id, "line_durin")
}

/// The street vendor of the trade line.
pub open spec fn jie_name() -> Seq<char> {
    "孑"@
}

/// The street vendor at elite 0, with her tier-0 trade buffs; none when she
/// has none. The recovery shift leads a trade room with her.
pub fn jie_e0_trade_operator(instances: &OperatorInstances) -> (r: Option<TradeOperator>)
    ensures
        match r {
            Some(op) => instances.spec_trade_ids(jie_name(), PromotionTier::Tier0).len() > 0 && op.name@ == jie_name()
                && op.elite == 0 && views(op.buff_ids@) == instances.spec_trade_ids(jie_name(), PromotionTier::Tier0)
                && op.tags@.len() == 0,
            None => instances.spec_trade_ids(jie_name(), PromotionTier::Tier0).len() == 0,
        },
{
    let buff_ids = instances.resolve_trade_buff_ids("孑", PromotionTier::Tier0);
    if buff_ids.len() == 0 {
        return None;
    }
    Some(TradeOperator::new("孑", 0, buff_ids))
}

/// The street vendor at elite 1 with her market buff (order limit by count);
/// none unless her upper-tier trade buffs include it.
pub fn jie_market_trade_operator(instances: &OperatorInstances) -> (r: Option<TradeOperator>)
    ensures
        match r {
            Some(op) => instances.spec_trade_ids(jie_name(), PromotionTier::TierUp).contains("trade_ord_limit_count[000]"@)
                && op.name@ == jie_name() && op.elite == 1 && views(op.buff_ids@) == instances.spec_trade_ids(
                jie_name(),
                PromotionTier::TierUp,
            ) && op.tags@.len() == 0,
            None => !instances.spec_trade_ids(jie_name(), PromotionTier::TierUp).contains("trade_ord_limit_count[000]"@),
        },
{
    let buff_ids = instances.resolve_trade_buff_ids("孑", PromotionTier::TierUp);
    if !vec_has(&buff_ids, "trade_ord_limit_count[000]") {
        return None;
    }
    Some(TradeOperator::new("孑", 1, buff_ids))
}


/// One operator of the trade pool.
pub struct TradePoolEntry {
    pub name: String,
    pub elite: u8,
    pub buff_ids: Vec<String>,
    pub tags: Vec<String>,
}

/// A trade entry seen as `(name, elite, buff ids, tags)`.
pub open spec fn trade_entry_view(e: TradePoolEntry) -> (Seq<char>, u8, Seq<Seq<char>>, Seq<Seq<char>>) {
    (e.name@, e.elite, views(e.buff_ids@), views(e.tags@))
}

impl TradePoolEntry {
    /// The entry as an operator of a trade room.
    pub fn to_trade_operator(&self) -> (r: TradeOperator)
        ensures
            r.name@ == self.name@,
            r.elite == self.elite,
            views(r.buff_ids@) == views(self.buff_ids@),
            views(r.tags@) == views(self.tags@),
    {
        TradeOperator {
            name: self.name.clone(),
            elite: self.elite,
            buff_ids: copy_strings(&self.buff_ids),
            tags: copy_strings(&self.tags),
        }
    }

    /// An independent copy.
    pub fn duplicate(&self) -> (r: TradePoolEntry)
        ensures
            trade_entry_view(r) == trade_entry_view(*self),
    {
        TradePoolEntry {
            name: self.name.clone(),
            elite: self.elite,
            buff_ids: copy_strings(&self.buff_ids),
            tags: copy_strings(&self.tags),
        }
    }
}

/// The trade pool: ready operators and skipped ones.
pub struct TradePool {
    pub entries: Vec<TradePoolEntry>,
    pub skipped: Vec<(String, u8, PoolSkip)>,
}

/// Index of the first trade entry named `name`, searching from `from`.
pub open spec fn trade_entry_index(entries: Seq<TradePoolEntry>, name: Seq<char>, from: int) -> Option<int>
    decreases entries.len() - from,
{
    if from < 0 || from >= entries.len() {
        None
    } else if entries[from].name@ == name {
        Some(from)
    } else {
        trade_entry_index(entries, name, from + 1)
    }
}

impl TradePool {
    /// Ready and skipped counts, and the three-operator combinations of the
    /// ready ones.
    pub fn stats(&self) -> (r: PoolStats)
        ensures
            r.ready == self.entries@.len(),
            r.skipped == self.skipped@.len(),
            r.combinations_3 == (if self.entries@.len() < 3 {
                0
            } else {
                choose_steps(self.entries@.len() as nat, choose_rounds(self.entries@.len() as nat, 3))
            }),
    {
        let n = self.entries.len();
        PoolStats { ready: n, skipped: self.skipped.len(), combinations_3: n_choose_k_u64(n, 3) }
    }

    /// The first entry named `name`.
    pub fn entry(&self, name: &str) -> (r: Option<&TradePoolEntry>)
        ensures
            match r {
                Some(e) => trade_entry_index(self.entries@, name@, 0) matches Some(i) && *e == self.entries@[i],
                None => trade_entry_index(self.entries@, name@, 0) is None,
            },
    {
        let mut i: usize = 0;
        while i < self.entries.len()
            invariant
                0 <= i <= self.entries@.len(),
                trade_entry_index(self.entries@, name@, 0) == trade_entry_index(self.entries@, name@, i as int),
            decreases self.entries@.len() - i,
        {
            if str_eq(self.entries[i].name.as_str(), name) {
                return Some(&self.entries[i]);
            }
            i = i + 1;
        }
        None
    }
}

/// The trade pool without the operators in `exclude` (order kept); the
/// skipped operators are kept as they are.
pub fn filter_trade_pool(pool: &TradePool, exclude: &NameSet) -> (r: TradePool)
    ensures
        r.entries@.map_values(|e: TradePoolEntry| trade_entry_view(e)) == pool.entries@.map_values(
            |e: TradePoolEntry| trade_entry_view(e),
        ).filter(|v: (Seq<char>, u8, Seq<Seq<char>>, Seq<Seq<char>>)| !exclude@.contains(v.0)),
        r.skipped@.map_values(|s: (String, u8, PoolSkip)| skipped_view(s)) == pool.skipped@.map_values(
            |s: (String, u8, PoolSkip)| skipped_view(s),
        ),
{
    let ghost all = pool.entries@.map_values(|e: TradePoolEntry| trade_entry_view(e));
    let ghost keep = |v: (Seq<char>, u8, Seq<Seq<char>>, Seq<Seq<char>>)| !exclude@.contains(v.0);
    let mut entries: Vec<TradePoolEntry> = Vec::new();
    let mut i: usize = 0;
    assert(entries@.map_values(|e: TradePoolEntry| trade_entry_view(e)) =~= all.subrange(0, 0).filter(keep));
    while i < pool.entries.len()
        invariant
            0 <= i <= pool.entries@.len(),
            all == pool.entries@.map_values(|e: TradePoolEntry| trade_entry_view(e)),
            keep == (|v: (Seq<char>, u8, Seq<Seq<char>>, Seq<Seq<char>>)| !exclude@.contains(v.0)),
            entries@.map_values(|e: TradePoolEntry| trade_entry_view(e)) == all.subrange(0, i as int).filter(keep),
        decreases pool.entries@.len() - i,
    {
        let ghost pre = entries@.map_values(|e: TradePoolEntry| trade_entry_view(e));
        let ghost sub = all.subrange(0, i as int);
        if !exclude.contains(pool.entries[i].name.as_str()) {
            entries.push(pool.entries[i].duplicate());
        }
        proof {
            let sub2 = all.subrange(0, i + 1);
            assert(sub2.drop_last() =~= sub);
            assert(sub2.last() == trade_entry_view(pool.entries@[i as int]));
            reveal(Seq::filter);
            if keep(sub2.last()) {
                assert(entries@.map_values(|e: TradePoolEntry| trade_entry_view(e)) =~= pre.push(sub2.last()));
            } else {
                assert(entries@.map_values(|e: TradePoolEntry| trade_entry_view(e)) =~= pre);
            }
        }
        i = i + 1;
    }
    assert(all.subrange(0, all.len() as int) =~= all);
    TradePool { entries, skipped: copy_skipped_entries(&pool.skipped) }
}

/// Position of the first id of `ids[0..n]` that `known` lacks.
pub open spec fn first_unknown(ids: Seq<Seq<char>>, known: Seq<Seq<char>>, n: int) -> Option<int>
    decreases n,
{
    if n <= 0 {
        None
    } else {
        match first_unknown(ids, known, n - 1) {
            Some(i) => Some(i),
            None => if !known.contains(ids[n - 1]) {
                Some(n - 1)
            } else {
                None
            },
        }
    }
}

/// Whether an operator at `elite` (of promotion tier `tier`) is ready for the
/// trade pool. Without an instance or a trade binding at that tier, without
/// resolved trade buffs, or as the street vendor above elite 0 (she leads the
/// recovery shift at elite 0 only), it has no trade binding (`Err(None)`); a
/// resolved buff missing from the skill table is unmodelled
/// (`Err(Some(id))`, the first such id). Otherwise it is ready with its
/// resolved buffs and its instance's tags.
pub open spec fn trade_readiness(
    name: Seq<char>,
    elite: u8,
    tier: PromotionTier,
    instances: OperatorInstances,
    known: Seq<Seq<char>>,
) -> Result<(Seq<Seq<char>>, Seq<Seq<char>>), Option<Seq<char>>> {
    match instances.spec_get(name, tier) {
        None => Err(None),
        Some(inst) => {
            let ids = instances.spec_trade_ids(name, tier);
            if trade_binding(inst) is None || ids.len() == 0 || (name == jie_name() && elite > 0) {
                Err(None)
            } else {
                match first_unknown(ids, known, ids.len() as int) {
                    Some(i) => Err(Some(ids[i])),
                    None => Ok((ids, views(inst.tags@))),
                }
            }
        },
    }
}

/// The trade-pool entry of `name` at `elite` (of tier `tier`), or why it is
/// skipped.
pub fn try_trade_entry(
    name: &str,
    elite: u8,
    tier: PromotionTier,
    instances: &OperatorInstances,
    catalog: &SkillCatalog,
) -> (r: Result<TradePoolEntry, PoolSkip>)
    ensures
        match r {
            Ok(e) => trade_readiness(name@, elite, tier, *instances, catalog@) == Ok::<
                (Seq<Seq<char>>, Seq<Seq<char>>),
                Option<Seq<char>>,
            >((views(e.buff_ids@), views(e.tags@))) && e.name@ == name@ && e.elite == elite,
            Err(s) => trade_readiness(name@, elite, tier, *instances, catalog@) == Err::<
                (Seq<Seq<char>>, Seq<Seq<char>>),
                Option<Seq<char>>,
            >(skip_view(s)),
        },
{
    let inst = match instances.get(name, tier) {
        None => return Err(PoolSkip::NoTradeBinding),
        Some(i) => i,
    };
    if find_entry(&inst.facilities, "trade").is_none() {
        return Err(PoolSkip::NoTradeBinding);
    }
    let buff_ids = instances.resolve_trade_buff_ids(name, tier);
    if buff_ids.len() == 0 {
        return Err(PoolSkip::NoTradeBinding);
    }
    if str_eq(name, "孑") && elite > 0 {
        return Err(PoolSkip::NoTradeBinding);
    }
    let ghost ids = views(buff_ids@);
    assert(name@ == jie_name() ==> elite == 0);
    let mut i: usize = 0;
    while i < buff_ids.len()
        invariant
            0 <= i <= buff_ids@.len(),
            ids == views(buff_ids@),
            ids == instances.spec_trade_ids(name@, tier),
            ids.len() > 0,
            instances.spec_get(name@, tier) == Some(*inst),
            trade_binding(*inst) is Some,
            !(name@ == jie_name() && elite > 0),
            first_unknown(ids, catalog@, i as int) is None,
        decreases buff_ids@.len() - i,
    {
        if !catalog.contains(buff_ids[i].as_str()) {
            assert(first_unknown(ids, catalog@, i + 1) == Some(i as int));
            proof {
                lemma_first_unknown_stays(ids, catalog@, i + 1, ids.len() as int);
            }
            return Err(PoolSkip::UnmodeledBuff(buff_ids[i].clone()));
        }
        i = i + 1;
    }
    Ok(TradePoolEntry { name: name.to_owned(), elite, buff_ids, tags: copy_strings(&inst.tags) })
}

proof fn lemma_first_unknown_stays(ids: Seq<Seq<char>>, known: Seq<Seq<char>>, k: int, m: int)
    requires
        0 <= k <= m,
        first_unknown(ids, known, k) is Some,
    ensures
        first_unknown(ids, known, m) == first_unknown(ids, known, k),
    decreases m - k,
{
    if k < m {
        lemma_first_unknown_stays(ids, known, k, m - 1);
    }
}

/// One operator of the power pool.
pub struct PowerPoolEntry {
    pub name: String,
    pub elite: u8,
    pub buff_ids: Vec<String>,
    pub tags: Vec<String>,
    /// One of its skills hands the station over to another (no own atoms).
    pub has_l2_delegate: bool,
}

/// A power entry seen as `(name, elite, buff ids, tags, delegates)`.
pub open spec fn power_entry_view(e: PowerPoolEntry) -> (Seq<char>, u8, Seq<Seq<char>>, Seq<Seq<char>>, bool) {
    (e.name@, e.elite, views(e.buff_ids@), views(e.tags@), e.has_l2_delegate)
}

impl PowerPoolEntry {
    /// An independent copy.
    pub fn duplicate(&self) -> (r: PowerPoolEntry)
        ensures
            power_entry_view(r) == power_entry_view(*self),
    {
        PowerPoolEntry {
            name: self.name.clone(),
            elite: self.elite,
            buff_ids: copy_strings(&self.buff_ids),
            tags: copy_strings(&self.tags),
            has_l2_delegate: self.has_l2_delegate,
        }
    }
}

/// The power pool: ready operators and skipped ones.
pub struct PowerPool {
    pub entries: Vec<PowerPoolEntry>,
    pub skipped: Vec<(String, u8, PoolSkip)>,
}

impl PowerPool {
    /// Ready and skipped counts; each ready operator is one choice for a station.
    pub fn stats(&self) -> (r: PoolStats)
        ensures
            r.ready == self.entries@.len(),
            r.skipped == self.skipped@.len(),
            r.combinations_3 == self.entries@.len(),
    {
        let n = self.entries.len();
        PoolStats { ready: n, skipped: self.skipped.len(), combinations_3: n as u64 }
    }
}

/// The power pool without the operators in `exclude` (order kept); the
/// skipped operators are kept as they are.
pub fn filter_power_pool(pool: &PowerPool, exclude: &NameSet) -> (r: PowerPool)
    ensures
        r.entries@.map_values(|e: PowerPoolEntry| power_entry_view(e)) == pool.entries@.map_values(
            |e: PowerPoolEntry| power_entry_view(e),
        ).filter(|v: (Seq<char>, u8, Seq<Seq<char>>, Seq<Seq<char>>, bool)| !exclude@.contains(v.0)),
        r.skipped@.map_values(|s: (String, u8, PoolSkip)| skipped_view(s)) == pool.skipped@.map_values(
            |s: (String, u8, PoolSkip)| skipped_view(s),
        ),
{
    let ghost all = pool.entries@.map_values(|e: PowerPoolEntry| power_entry_view(e));
    let ghost keep = |v: (Seq<char>, u8, Seq<Seq<char>>, Seq<Seq<char>>, bool)| !exclude@.contains(v.0);
    let mut entries: Vec<PowerPoolEntry> = Vec::new();
    let mut i: usize = 0;
    assert(entries@.map_values(|e: PowerPoolEntry| power_entry_view(e)) =~= all.subrange(0, 0).filter(keep));
    while i < pool.entries.len()
        invariant
            0 <= i <= pool.entries@.len(),
            all == pool.entries@.map_values(|e: PowerPoolEntry| power_entry_view(e)),
            keep == (|v: (Seq<char>, u8, Seq<Seq<char>>, Seq<Seq<char>>, bool)| !exclude@.contains(v.0)),
            entries@.map_values(|e: PowerPoolEntry| power_entry_view(e)) == all.subrange(0, i as int).filter(keep),
        decreases pool.entries@.len() - i,
    {
        let ghost pre = entries@.map_values(|e: PowerPoolEntry| power_entry_view(e));
        let ghost sub = all.subrange(0, i as int);
        if !exclude.contains(pool.entries[i].name.as_str()) {
            entries.push(pool.entries[i].duplicate());
        }
        proof {
            let sub2 = all.subrange(0, i + 1);
            assert(sub2.drop_last() =~= sub);
            assert(sub2.last() == power_entry_view(pool.entries@[i as int]));
            reveal(Seq::filter);
            if keep(sub2.last()) {
                assert(entries@.map_values(|e: PowerPoolEntry| power_entry_view(e)) =~= pre.push(sub2.last()));
            } else {
                assert(entries@.map_values(|e: PowerPoolEntry| power_entry_view(e)) =~= pre);
            }
        }
        i = i + 1;
    }
    assert(all.subrange(0, all.len() as int) =~= all);
    PowerPool { entries, skipped: copy_skipped_entries(&pool.skipped) }
}

} // verus!
