//! The skill table's ids: checked when the table is loaded, and used to find
//! skills by id and to check that operators only reference known skills.
use vstd::prelude::*;

use crate::error::Error;
use crate::instances::{trade_binding, OperatorInstances};
use crate::names::{distinct, views, NameSet};
use crate::text::{is_prefix, starts_with, str_eq, utf8};
use crate::tier::PromotionTier;

verus! {

/// A skill id in the legacy `skill_` namespace.
pub open spec fn is_legacy_id(id: Seq<char>) -> bool {
    is_prefix(utf8(id), utf8("skill_"@))
}

/// Id `ids[i]` is refused: legacy, or already seen before position `i`.
pub open spec fn refused_at(ids: Seq<Seq<char>>, i: int) -> bool {
    is_legacy_id(ids[i]) || ids.subrange(0, i).contains(ids[i])
}

/// The first refused id among `ids[0..n]`.
pub open spec fn first_refused(ids: Seq<Seq<char>>, n: int) -> Option<int>
    decreases n,
{
    if n <= 0 {
        None
    } else {
        match first_refused(ids, n - 1) {
            Some(i) => Some(i),
            None => if refused_at(ids, n - 1) {
                Some(n - 1)
            } else {
                None
            },
        }
    }
}

/// The ids of the skill table, in file order: none legacy, none twice.
pub struct SkillCatalog {
    ids: Vec<String>,
}

impl View for SkillCatalog {
    type V = Seq<Seq<char>>;

    closed spec fn view(&self) -> Seq<Seq<char>> {
        views(self.ids@)
    }
}

/// Position of `id` in `ids`, searching from `from`.
pub open spec fn id_position(ids: Seq<Seq<char>>, id: Seq<char>, from: int) -> Option<int>
    decreases ids.len() - from,
{
    if from < 0 || from >= ids.len() {
        None
    } else if ids[from] == id {
        Some(from)
    } else {
        id_position(ids, id, from + 1)
    }
}

proof fn lemma_first_refused_none(ids: Seq<Seq<char>>, n: int)
    requires
        0 <= n <= ids.len(),
        first_refused(ids, n) is None,
    ensures
        forall|i: int| 0 <= i < n ==> !refused_at(ids, i),
    decreases n,
{
    if n > 0 {
        lemma_first_refused_none(ids, n - 1);
    }
}

proof fn lemma_first_refused_stays(ids: Seq<Seq<char>>, k: int, m: int)
    requires
        0 <= k <= m,
        first_refused(ids, k) is Some,
    ensures
        first_refused(ids, m) == first_refused(ids, k),
    decreases m - k,
{
    if k < m {
        lemma_first_refused_stays(ids, k, m - 1);
    }
}

impl SkillCatalog {
    #[verifier::type_invariant]
    closed spec fn inv(self) -> bool {
        &&& distinct(views(self.ids@))
        &&& forall|i: int| 0 <= i < self.ids@.len() ==> !is_legacy_id(#[trigger] self.ids@[i]@)
    }

    /// Checks the skill ids in file order: the first one that is legacy, or that
    /// was seen before, is refused (legacy is checked first).
    pub fn from_ids(ids: Vec<String>) -> (r: Result<Self, Error>)
        ensures
            match first_refused(views(ids@), ids@.len() as int) {
                None => r matches Ok(c) && c@ == views(ids@),
                Some(i) => if is_legacy_id(views(ids@)[i]) {
                    r matches Err(Error::LegacySkillId { id }) && id@ == views(ids@)[i]
                } else {
                    r matches Err(Error::DuplicateSkillId { id }) && id@ == views(ids@)[i]
                },
            },
    {
        let ghost v = views(ids@);
        let mut seen = NameSet::new();
        let mut i: usize = 0;
        while i < ids.len()
            invariant
                0 <= i <= ids@.len(),
                v == views(ids@),
                first_refused(v, i as int) is None,
                seen@ == v.subrange(0, i as int).to_set(),
            decreases ids@.len() - i,
        {
            let ghost sub = v.subrange(0, i as int);
            assert(v[i as int] == ids@[i as int]@);
            if starts_with(ids[i].as_str(), "skill_") {
                proof {
                    lemma_first_refused_stays(v, i + 1, ids@.len() as int);
                }
                return Err(Error::LegacySkillId { id: ids[i].clone() });
            }
            if !seen.insert(ids[i].clone()) {
                proof {
                    assert(sub.to_set().contains(v[i as int]));
                    assert(sub.contains(v[i as int]));
                    lemma_first_refused_stays(v, i + 1, ids@.len() as int);
                }
                return Err(Error::DuplicateSkillId { id: ids[i].clone() });
            }
            proof {
                assert(!sub.contains(v[i as int])) by {
                    if sub.contains(v[i as int]) {
                        assert(sub.to_set().contains(v[i as int]));
                    }
                }
                crate::assign::lemma_push_to_set(sub, v[i as int]);
                assert(v.subrange(0, i + 1) =~= sub.push(v[i as int]));
            }
            i = i + 1;
        }
        proof {
            lemma_first_refused_none(v, ids@.len() as int);
            assert forall|a: int, b: int| 0 <= a < v.len() && 0 <= b < v.len() && a != b implies v[a] != v[b] by {
                if a < b {
                    assert(v.subrange(0, b)[a] == v[a]);
                    assert(!refused_at(v, b));
                } else {
                    assert(v.subrange(0, a)[b] == v[b]);
                    assert(!refused_at(v, a));
                }
            }
            assert forall|k: int| 0 <= k < ids@.len() implies !is_legacy_id(#[trigger] ids@[k]@) by {
                assert(!refused_at(v, k));
            }
        }
        Ok(SkillCatalog { ids })
    }

    /// Position of skill `id`.
    pub fn index_of(&self, id: &str) -> (r: Option<usize>)
        ensures
            match r {
                Some(i) => id_position(self@, id@, 0) == Some(i as int) && i < self@.len(),
                None => id_position(self@, id@, 0) is None,
            },
    {
        let mut i: usize = 0;
        while i < self.ids.len()
            invariant
                0 <= i <= self.ids@.len(),
                id_position(self@, id@, 0) == id_position(self@, id@, i as int),
            decreases self.ids@.len() - i,
        {
            assert(self@[i as int] == self.ids@[i as int]@);
            if str_eq(self.ids[i].as_str(), id) {
                return Some(i);
            }
            i = i + 1;
        }
        None
    }

    /// Whether skill `id` is in the table.
    pub fn contains(&self, id: &str) -> (r: bool)
        ensures
            r == self@.contains(id@),
    {
        let r = self.index_of(id);
        proof {
            lemma_id_position(self@, id@, 0);
        }
        r.is_some()
    }

    /// Positions of the given ids; fails on the first unknown one.
    pub fn resolve_indices(&self, ids: &Vec<String>) -> (r: Result<Vec<usize>, Error>)
        ensures
            match r {
                Ok(v) => v@.len() == ids@.len() && forall|k: int|
                    0 <= k < ids@.len() ==> id_position(self@, (#[trigger] ids@[k])@, 0) == Some(v@[k] as int),
                Err(e) => exists|k: int|
                    0 <= k < ids@.len() && id_position(self@, (#[trigger] ids@[k])@, 0) is None && (forall|j: int|
                        0 <= j < k ==> id_position(self@, (#[trigger] ids@[j])@, 0) is Some) && (e matches Error::UnknownSkillId {
                        id,
                    } && id@ == ids@[k]@),
            },
    {
        let mut out: Vec<usize> = Vec::new();
        let mut i: usize = 0;
        while i < ids.len()
            invariant
                0 <= i <= ids@.len(),
                out@.len() == i,
                forall|k: int| 0 <= k < i ==> id_position(self@, (#[trigger] ids@[k])@, 0) == Some(out@[k] as int),
            decreases ids@.len() - i,
        {
            match self.index_of(ids[i].as_str()) {
                Some(idx) => {
                    out.push(idx);
                },
                None => {
                    proof {
                        assert forall|j: int| 0 <= j < i implies id_position(self@, (#[trigger] ids@[j])@, 0) is Some by {
                            assert(id_position(self@, ids@[j]@, 0) == Some(out@[j] as int));
                        }
                    }
                    return Err(Error::UnknownSkillId { id: ids[i].clone() });
                },
            }
            i = i + 1;
        }
        Ok(out)
    }

    /// The trade buff references of the registry that are not in the table,
    /// as `(operator, buff id)`, registry entry after entry.
    pub fn validate_operator_refs(&self, instances: &OperatorInstances) -> (r: Vec<(String, String)>)
        ensures
            r@.map_values(|p: (String, String)| (p.0@, p.1@)) == unknown_refs(self@, instances.entries(), instances.entries().len() as int),
    {
        let entries = instances.iter();
        let mut out: Vec<(String, String)> = Vec::new();
        let mut i: usize = 0;
        assert(out@.map_values(|p: (String, String)| (p.0@, p.1@)) =~= Seq::<(Seq<char>, Seq<char>)>::empty());
        while i < entries.len()
            invariant
                0 <= i <= entries@.len(),
                entries@ == instances.entries(),
                out@.map_values(|p: (String, String)| (p.0@, p.1@)) == unknown_refs(self@, entries@, i as int),
            decreases entries@.len() - i,
        {
            let inst = &entries[i].1;
            let bids = inst.trade_buff_ids();
            let ghost base = out@.map_values(|p: (String, String)| (p.0@, p.1@));
            let ghost bv = bids@.map_values(|s: &str| s@);
            let mut j: usize = 0;
            assert(base + missing_of(self@, inst.name@, bv, 0) =~= base);
            while j < bids.len()
                invariant
                    0 <= j <= bids@.len(),
                    bv == bids@.map_values(|s: &str| s@),
                    out@.map_values(|p: (String, String)| (p.0@, p.1@)) == base + missing_of(self@, inst.name@, bv, j as int),
                decreases bids@.len() - j,
            {
                let ghost pre = out@.map_values(|p: (String, String)| (p.0@, p.1@));
                assert(bv[j as int] == bids@[j as int]@);
                if !self.contains(bids[j]) {
                    out.push((inst.name.clone(), bids[j].to_owned()));
                    assert(out@.map_values(|p: (String, String)| (p.0@, p.1@)) =~= pre.push((inst.name@, bv[j as int])));
                }
                j = j + 1;
            }
            proof {
                assert(bv == match trade_binding(*inst) {
                    Some(b) => views(b.buff_ids@),
                    None => Seq::<Seq<char>>::empty(),
                });
                assert(entries@[i as int].1 == *inst);
            }
            i = i + 1;
        }
        out
    }

    /// Checks that every resolved trade buff of the listed operators (at each
    /// tier the registry has them) is in the table; otherwise lists the missing
    /// ones as `(operator, tier, buff id)`.
    pub fn validate_pilot_operators(&self, instances: &OperatorInstances, operators: &Vec<String>) -> (r: Result<(), Error>)
        ensures
            ({
                let missing = pilot_missing(self@, *instances, views(operators@), operators@.len() as int);
                &&& r is Ok <==> missing.len() == 0
                &&& r matches Err(e) ==> (e matches Error::MissingPilotBuffs { missing: m } && m@.map_values(
                    |t: (String, PromotionTier, String)| (t.0@, t.1, t.2@),
                ) == missing)
            }),
    {
        let mut missing: Vec<(String, PromotionTier, String)> = Vec::new();
        let mut i: usize = 0;
        assert(missing@.map_values(|t: (String, PromotionTier, String)| (t.0@, t.1, t.2@)) =~= Seq::<
            (Seq<char>, PromotionTier, Seq<char>),
        >::empty());
        while i < operators.len()
            invariant
                0 <= i <= operators@.len(),
                missing@.map_values(|t: (String, PromotionTier, String)| (t.0@, t.1, t.2@)) == pilot_missing(
                    self@,
                    *instances,
                    views(operators@),
                    i as int,
                ),
            decreases operators@.len() - i,
        {
            let name = operators[i].as_str();
            assert(views(operators@)[i as int] == name@);
            let ghost before = missing@.map_values(|t: (String, PromotionTier, String)| (t.0@, t.1, t.2@));
            self.collect_missing(instances, name, PromotionTier::Tier0, &mut missing);
            self.collect_missing(instances, name, PromotionTier::TierUp, &mut missing);
            proof {
                assert(missing@.map_values(|t: (String, PromotionTier, String)| (t.0@, t.1, t.2@)) == before
                    + tier_missing(self@, *instances, name@, PromotionTier::Tier0) + tier_missing(
                    self@,
                    *instances,
                    name@,
                    PromotionTier::TierUp,
                ));
            }
            i = i + 1;
        }
        if missing.len() == 0 {
            Ok(())
        } else {
            Err(Error::MissingPilotBuffs { missing })
        }
    }

    /// Appends the trade buffs of `name` at `tier` that are not in the table
    /// (nothing when the registry has no instance there).
    fn collect_missing(
        &self,
        instances: &OperatorInstances,
        name: &str,
        tier: PromotionTier,
        missing: &mut Vec<(String, PromotionTier, String)>,
    )
        ensures
            final(missing)@.map_values(|t: (String, PromotionTier, String)| (t.0@, t.1, t.2@)) == old(missing)@.map_values(
                |t: (String, PromotionTier, String)| (t.0@, t.1, t.2@),
            ) + tier_missing(self@, *instances, name@, tier),
    {
        let ghost base = missing@.map_values(|t: (String, PromotionTier, String)| (t.0@, t.1, t.2@));
        if instances.get(name, tier).is_none() {
            assert(base + tier_missing(self@, *instances, name@, tier) =~= base);
            return;
        }
        let bids = instances.resolve_trade_buff_ids(name, tier);
        let ghost bv = views(bids@);
        let mut j: usize = 0;
        assert(base + absent_in(self@, name@, tier, bv, 0) =~= base);
        while j < bids.len()
            invariant
                0 <= j <= bids@.len(),
                bv == views(bids@),
                bv == instances.spec_trade_ids(name@, tier),
                missing@.map_values(|t: (String, PromotionTier, String)| (t.0@, t.1, t.2@)) == base + absent_in(
                    self@,
                    name@,
                    tier,
                    bv,
                    j as int,
                ),
            decreases bids@.len() - j,
        {
            let ghost pre = missing@.map_values(|t: (String, PromotionTier, String)| (t.0@, t.1, t.2@));
            assert(bv[j as int] == bids@[j as int]@);
            if !self.contains(bids[j].as_str()) {
                missing.push((name.to_owned(), tier, bids[j].clone()));
                assert(missing@.map_values(|t: (String, PromotionTier, String)| (t.0@, t.1, t.2@)) =~= pre.push(
                    (name@, tier, bv[j as int]),
                ));
            }
            j = j + 1;
        }
    }
}

proof fn lemma_id_position(ids: Seq<Seq<char>>, id: Seq<char>, from: int)
    requires
        0 <= from,
    ensures
        id_position(ids, id, from) is Some <==> exists|k: int| from <= k < ids.len() && ids[k] == id,
    decreases ids.len() - from,
{
    if from < ids.len() {
        lemma_id_position(ids, id, from + 1);
        if ids[from] == id {
        } else {
            if exists|k: int| from <= k < ids.len() && ids[k] == id {
                let k = choose|k: int| from <= k < ids.len() && ids[k] == id;
                assert(from + 1 <= k);
            }
        }
    }
}

/// The buffs among `bids[0..n]` that the table lacks, as `(operator, buff id)`.
pub open spec fn missing_of(table: Seq<Seq<char>>, name: Seq<char>, bids: Seq<Seq<char>>, n: int) -> Seq<(Seq<char>, Seq<char>)>
    decreases n,
{
    if n <= 0 {
        Seq::empty()
    } else if table.contains(bids[n - 1]) {
        missing_of(table, name, bids, n - 1)
    } else {
        missing_of(table, name, bids, n - 1).push((name, bids[n - 1]))
    }
}

/// The unknown trade references of the first `n` registry entries.
pub open spec fn unknown_refs(
    table: Seq<Seq<char>>,
    entries: Seq<(String, crate::instances::OperatorInstance)>,
    n: int,
) -> Seq<(Seq<char>, Seq<char>)>
    decreases n,
{
    if n <= 0 {
        Seq::empty()
    } else {
        let inst = entries[n - 1].1;
        let bids = match trade_binding(inst) {
            Some(b) => views(b.buff_ids@),
            None => Seq::empty(),
        };
        unknown_refs(table, entries, n - 1) + missing_of(table, inst.name@, bids, bids.len() as int)
    }
}

/// The buffs among `bids[0..n]` that the table lacks, as `(operator, tier, buff id)`.
pub open spec fn absent_in(
    table: Seq<Seq<char>>,
    name: Seq<char>,
    tier: PromotionTier,
    bids: Seq<Seq<char>>,
    n: int,
) -> Seq<(Seq<char>, PromotionTier, Seq<char>)>
    decreases n,
{
    if n <= 0 {
        Seq::empty()
    } else if table.contains(bids[n - 1]) {
        absent_in(table, name, tier, bids, n - 1)
    } else {
        absent_in(table, name, tier, bids, n - 1).push((name, tier, bids[n - 1]))
    }
}

/// The resolved trade buffs of `name` at `tier` that the table lacks; none when
/// the registry has no instance there.
pub open spec fn tier_missing(
    table: Seq<Seq<char>>,
    instances: OperatorInstances,
    name: Seq<char>,
    tier: PromotionTier,
) -> Seq<(Seq<char>, PromotionTier, Seq<char>)> {
    if instances.spec_get(name, tier) is None {
        Seq::empty()
    } else {
        let bids = instances.spec_trade_ids(name, tier);
        absent_in(table, name, tier, bids, bids.len() as int)
    }
}

/// The missing pilot buffs of the first `n` listed operators, tier 0 before tier up.
pub open spec fn pilot_missing(
    table: Seq<Seq<char>>,
    instances: OperatorInstances,
    names: Seq<Seq<char>>,
    n: int,
) -> Seq<(Seq<char>, PromotionTier, Seq<char>)>
    decreases n,
{
    if n <= 0 {
        Seq::empty()
    } else {
        pilot_missing(table, instances, names, n - 1) + tier_missing(table, instances, names[n - 1], PromotionTier::Tier0)
            + tier_missing(table, instances, names[n - 1], PromotionTier::TierUp)
    }
}

} // verus!
