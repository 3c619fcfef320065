//! Trade-post inputs and the integer bookkeeping of a trade room: order limit,
//! order gap, order tags and replacements set by order mechanics, and how
//! those mechanics change the gold of an order.
use vstd::prelude::*;

use crate::instances::{copy_strings, vec_has};
use crate::names::views;
use crate::text::str_eq;
use crate::tier::PromotionTier;

verus! {

/// What a trade room's skills read of the rest of the base.
pub struct TradeLayoutContext {
    pub meeting_max_level: u8,
    pub dorm_level_sum: u16,
    pub manu_recipe_kinds: u8,
    pub elite_facility_count: u8,
    pub sui_facility_count: u8,
    /// Operators resting in all dormitories together.
    pub dorm_occupant_count: u8,
    /// Monster-cuisine layers written by the dormitory chain.
    pub monster_cuisine_layers: u8,
    /// Operators working anywhere in the base.
    pub base_workforce: Vec<String>,
}

impl TradeLayoutContext {
    /// The reference layout used by the search: level-3 meeting room, four
    /// recipe kinds, full dormitories, and the usual partner operators at work.
    pub fn search_baseline() -> (r: Self)
        ensures
            r.meeting_max_level == 3,
            r.dorm_level_sum == 12,
            r.manu_recipe_kinds == 4,
            r.elite_facility_count == 6,
            r.sui_facility_count == 2,
            r.dorm_occupant_count == 20,
            r.monster_cuisine_layers == 3,
            views(r.base_workforce@) == seq!["伺夜"@, "乌尔比安"@],
    {
        let base_workforce = vec!["伺夜".to_owned(), "乌尔比安".to_owned()];
        assert(views(base_workforce@) =~= seq!["伺夜"@, "乌尔比安"@]);
        TradeLayoutContext {
            meeting_max_level: 3,
            dorm_level_sum: 12,
            manu_recipe_kinds: 4,
            elite_facility_count: 6,
            sui_facility_count: 2,
            dorm_occupant_count: 20,
            monster_cuisine_layers: 3,
            base_workforce,
        }
    }
}

impl Default for TradeLayoutContext {
    fn default() -> (r: Self)
        ensures
            r.meeting_max_level == 0,
            r.dorm_level_sum == 0,
            r.manu_recipe_kinds == 0,
            r.elite_facility_count == 0,
            r.sui_facility_count == 0,
            r.dorm_occupant_count == 0,
            r.monster_cuisine_layers == 0,
            r.base_workforce@.len() == 0,
    {
        TradeLayoutContext {
            meeting_max_level: 0,
            dorm_level_sum: 0,
            manu_recipe_kinds: 0,
            elite_facility_count: 0,
            sui_facility_count: 0,
            dorm_occupant_count: 0,
            monster_cuisine_layers: 0,
            base_workforce: Vec::new(),
        }
    }
}

/// An operator as a trade room takes it.
pub struct TradeOperator {
    pub name: String,
    pub elite: u8,
    pub buff_ids: Vec<String>,
    pub tags: Vec<String>,
}

impl TradeOperator {
    /// The operator's promotion tier.
    pub fn tier(&self) -> (t: PromotionTier)
        ensures
            t == (if self.elite >= 2 { PromotionTier::TierUp } else { PromotionTier::Tier0 }),
    {
        PromotionTier::from_elite(self.elite)
    }

    /// Whether the operator carries `tag`.
    pub fn has_tag(&self, tag: &str) -> (r: bool)
        ensures
            r == views(self.tags@).contains(tag@),
    {
        vec_has(&self.tags, tag)
    }

    /// An operator with no tags.
    pub fn new(name: &str, elite: u8, buff_ids: Vec<String>) -> (r: Self)
        ensures
            r.name@ == name@,
            r.elite == elite,
            r.buff_ids@ == buff_ids@,
            r.tags@.len() == 0,
    {
        TradeOperator { name: name.to_owned(), elite, buff_ids, tags: Vec::new() }
    }

    /// An independent copy.
    pub fn duplicate(&self) -> (r: Self)
        ensures
            r.name@ == self.name@,
            r.elite == self.elite,
            views(r.buff_ids@) == views(self.buff_ids@),
            views(r.tags@) == views(self.tags@),
    {
        TradeOperator {
            name: self.name.clone(),
            elite: self.elite,
            buff_ids: copy_strings(&self.buff_ids),
            tags: copy_strings(&self.tags),
        }
    }
}

/// Order limit of a trade post by level: 6, 9, 12 (12 beyond level 3).
pub open spec fn base_limit_of(level: u8) -> i32 {
    if level == 1 {
        6
    } else if level == 2 {
        9
    } else {
        12
    }
}

/// Order limit of a trade post of the given level before skills.
pub fn facility_base_limit(level: u8) -> (r: i32)
    ensures
        r == base_limit_of(level),
{
    match level {
        1 => 6,
        2 => 9,
        3 => 12,
        _ => 12,
    }
}

/// Sum of the first `n` limit contributions.
pub open spec fn sum_prefix(v: Seq<i32>, n: int) -> int
    decreases n,
{
    if n <= 0 {
        0
    } else {
        sum_prefix(v, n - 1) + v[n - 1]
    }
}

/// Whether every partial sum of `v` fits in an `i32`.
pub open spec fn sums_fit(v: Seq<i32>) -> bool {
    forall|n: int| 0 <= n <= v.len() ==> i32::MIN <= #[trigger] sum_prefix(v, n) <= i32::MAX
}

/// The room's order limit: base limit plus the operators' contributions less
/// the compression, and never below one order.
pub open spec fn order_limit(base: i32, contribs: Seq<i32>, compression: i32) -> int {
    let l = base + sum_prefix(contribs, contribs.len() as int) - compression;
    if l < 1 {
        1
    } else {
        l
    }
}

/// Recomputes the order limit: gives the operators' total contribution and
/// the final order limit.
pub fn recompute_limit(base: i32, contribs: &Vec<i32>, compression: i32) -> (r: (i32, i32))
    requires
        sums_fit(contribs@),
        i32::MIN <= base + sum_prefix(contribs@, contribs@.len() as int) - compression <= i32::MAX,
        i32::MIN <= base + sum_prefix(contribs@, contribs@.len() as int) <= i32::MAX,
    ensures
        r.0 == sum_prefix(contribs@, contribs@.len() as int),
        r.1 == order_limit(base, contribs@, compression),
{
    let mut gross: i32 = 0;
    let mut i: usize = 0;
    while i < contribs.len()
        invariant
            0 <= i <= contribs@.len(),
            sums_fit(contribs@),
            gross == sum_prefix(contribs@, i as int),
        decreases contribs@.len() - i,
    {
        assert(i32::MIN <= sum_prefix(contribs@, i + 1) <= i32::MAX);
        gross = gross + contribs[i];
        i = i + 1;
    }
    let l = base + gross - compression;
    let limit = if l < 1 {
        1
    } else {
        l
    };
    (gross, limit)
}

/// Orders still missing to reach the limit, never negative.
pub fn order_gap(final_order_limit: i32, order_count: i32) -> (r: i32)
    requires
        i32::MIN <= final_order_limit - order_count <= i32::MAX,
    ensures
        r == (if final_order_limit - order_count > 0 { final_order_limit - order_count } else { 0 }),
{
    let d = final_order_limit - order_count;
    if d > 0 {
        d
    } else {
        0
    }
}

/// What the order mechanics of a room allow: the law chain (orders below four
/// gold breach), the gold a breach adds, and closure special orders.
#[derive(Debug, Clone, Copy)]
pub struct MechanicCaps {
    pub law: bool,
    pub breach_add: i32,
    pub closure: bool,
}

/// Order type of the closure special order.
pub open spec fn closure_special() -> Seq<char> {
    "closure_special"@
}

/// Whether an order replacement is the closure special order.
pub open spec fn is_closure(replace_order: Option<String>) -> bool {
    replace_order matches Some(t) && t@ == closure_special()
}

/// The order state a trade room's order mechanics write: order tags (each at
/// most once), the replacement order type, whether the law chain is active,
/// the gold a breach adds and the flat LMD bonus on gold orders.
pub struct OrderState {
    pub order_tags: Vec<String>,
    pub replace_order: Option<String>,
    pub law_active: bool,
    pub breach_gold_add: i32,
    pub order_lmd_bonus: i32,
}

/// An order-mechanic action of a skill.
pub enum OrderAction {
    /// Tags the room's orders; the tag `breach` activates the law chain.
    TagOrder { tag: String },
    /// A breach adds at least `n` gold.
    AddGoldDelivery { n: u8 },
    /// Orders are replaced by this order type.
    ReplaceOrder { order_type: String },
    /// Adds a flat LMD bonus to gold orders.
    AddOrderLmdBonus { bonus: i32 },
}

/// The order state seen as plain values.
pub open spec fn order_view(s: OrderState) -> (Seq<Seq<char>>, Option<Seq<char>>, bool, i32, i32) {
    (
        views(s.order_tags@),
        match s.replace_order {
            Some(t) => Some(t@),
            None => None,
        },
        s.law_active,
        s.breach_gold_add,
        s.order_lmd_bonus,
    )
}

/// The order state after one action.
pub open spec fn order_step(
    s: (Seq<Seq<char>>, Option<Seq<char>>, bool, i32, i32),
    a: OrderAction,
) -> (Seq<Seq<char>>, Option<Seq<char>>, bool, i32, i32) {
    match a {
        OrderAction::TagOrder { tag } => (
            if s.0.contains(tag@) {
                s.0
            } else {
                s.0.push(tag@)
            },
            s.1,
            s.2 || tag@ == "breach"@,
            s.3,
            s.4,
        ),
        OrderAction::AddGoldDelivery { n } => (s.0, s.1, s.2, if s.3 >= n { s.3 } else { n as i32 }, s.4),
        OrderAction::ReplaceOrder { order_type } => (s.0, Some(order_type@), s.2, s.3, s.4),
        OrderAction::AddOrderLmdBonus { bonus } => (s.0, s.1, s.2, s.3, (s.4 + bonus) as i32),
    }
}

impl OrderState {
    /// No tags, no replacement, no law chain, nothing added.
    pub fn new() -> (r: Self)
        ensures
            order_view(r) == (Seq::<Seq<char>>::empty(), None::<Seq<char>>, false, 0i32, 0i32),
    {
        let r = OrderState {
            order_tags: Vec::new(),
            replace_order: None,
            law_active: false,
            breach_gold_add: 0,
            order_lmd_bonus: 0,
        };
        assert(views(r.order_tags@) =~= Seq::<Seq<char>>::empty());
        r
    }

    /// What the room's order mechanics allow.
    pub fn mechanic_caps(&self) -> (r: MechanicCaps)
        ensures
            r.law == self.law_active,
            r.breach_add == self.breach_gold_add,
            r.closure == is_closure(self.replace_order),
    {
        let closure = match &self.replace_order {
            Some(t) => str_eq(t.as_str(), "closure_special"),
            None => false,
        };
        MechanicCaps { law: self.law_active, breach_add: self.breach_gold_add, closure }
    }

    /// Applies one order-mechanic action.
    pub fn apply(&mut self, action: &OrderAction)
        requires
            action matches OrderAction::AddOrderLmdBonus { bonus } ==> i32::MIN <= old(self).order_lmd_bonus + *bonus
                <= i32::MAX,
        ensures
            order_view(*final(self)) == order_step(order_view(*old(self)), *action),
    {
        match action {
            OrderAction::TagOrder { tag } => {
                if !vec_has(&self.order_tags, tag.as_str()) {
                    let ghost pre = views(self.order_tags@);
                    self.order_tags.push(tag.clone());
                    assert(views(self.order_tags@) =~= pre.push(tag@));
                }
                if str_eq(tag.as_str(), "breach") {
                    self.law_active = true;
                }
            },
            OrderAction::AddGoldDelivery { n } => {
                let add: i32 = *n as i32;
                if self.breach_gold_add < add {
                    self.breach_gold_add = add;
                }
            },
            OrderAction::ReplaceOrder { order_type } => {
                self.replace_order = Some(order_type.clone());
            },
            OrderAction::AddOrderLmdBonus { bonus } => {
                self.order_lmd_bonus = self.order_lmd_bonus + *bonus;
            },
        }
    }
}

/// Applying the same tag, gold delivery or replacement twice is the same as
/// applying it once.
pub proof fn lemma_order_step_idempotent(s: (Seq<Seq<char>>, Option<Seq<char>>, bool, i32, i32), a: OrderAction)
    requires
        !(a is AddOrderLmdBonus),
    ensures
        order_step(order_step(s, a), a) == order_step(s, a),
{
    match a {
        OrderAction::TagOrder { tag } => {
            if !s.0.contains(tag@) {
                assert(s.0.push(tag@)[s.0.len() as int] == tag@);
                assert(s.0.push(tag@).contains(tag@));
            }
        },
        _ => {},
    }
}

/// Tagging an order leaves the tag on it, and the law chain active exactly
/// when it was or the tag is `breach`; a replacement sets the replacement
/// order; an LMD bonus adds to the bonus (when the sum fits). Each action
/// touches only its own part of the state.
pub proof fn lemma_order_step_effects(s: (Seq<Seq<char>>, Option<Seq<char>>, bool, i32, i32), a: OrderAction)
    ensures
        a matches OrderAction::TagOrder { tag } ==> order_step(s, a).0.contains(tag@) && (order_step(s, a).2 <==> (s.2
            || tag@ == "breach"@)) && order_step(s, a).1 == s.1 && order_step(s, a).3 == s.3 && order_step(s, a).4
            == s.4,
        a matches OrderAction::ReplaceOrder { order_type } ==> order_step(s, a).1 == Some(order_type@) && order_step(
            s,
            a,
        ).0 == s.0 && order_step(s, a).2 == s.2 && order_step(s, a).3 == s.3 && order_step(s, a).4 == s.4,
        a matches OrderAction::AddOrderLmdBonus { bonus } ==> (i32::MIN <= s.4 + bonus <= i32::MAX ==> order_step(
            s,
            a,
        ).4 == s.4 + bonus) && order_step(s, a).0 == s.0 && order_step(s, a).1 == s.1 && order_step(s, a).2 == s.2
            && order_step(s, a).3 == s.3,
{
    if let OrderAction::TagOrder { tag } = a {
        if !s.0.contains(tag@) {
            assert(s.0.push(tag@)[s.0.len() as int] == tag@);
        }
    }
}

/// A gold delivery of `n` leaves the breach gold at the larger of what it
/// was and `n`, and touches nothing else; two deliveries give the same state
/// in either order.
pub proof fn lemma_gold_delivery_is_max(s: (Seq<Seq<char>>, Option<Seq<char>>, bool, i32, i32), n: u8, m: u8)
    ensures
        order_step(s, OrderAction::AddGoldDelivery { n }).3 >= n,
        order_step(s, OrderAction::AddGoldDelivery { n }).3 >= s.3,
        order_step(s, OrderAction::AddGoldDelivery { n }).3 == s.3 || order_step(s, OrderAction::AddGoldDelivery { n }).3
            == n,
        order_step(s, OrderAction::AddGoldDelivery { n }).0 == s.0,
        order_step(s, OrderAction::AddGoldDelivery { n }).1 == s.1,
        order_step(s, OrderAction::AddGoldDelivery { n }).2 == s.2,
        order_step(s, OrderAction::AddGoldDelivery { n }).4 == s.4,
        order_step(order_step(s, OrderAction::AddGoldDelivery { n }), OrderAction::AddGoldDelivery { n: m })
            == order_step(order_step(s, OrderAction::AddGoldDelivery { n: m }), OrderAction::AddGoldDelivery { n }),
{
}

/// Order mechanics never drop a tag, never deactivate the law chain, never
/// lower the gold a breach adds, and never tag an order twice.
pub proof fn lemma_order_step_monotone(s: (Seq<Seq<char>>, Option<Seq<char>>, bool, i32, i32), a: OrderAction)
    requires
        crate::names::distinct(s.0),
    ensures
        forall|t: Seq<char>| s.0.contains(t) ==> order_step(s, a).0.contains(t),
        s.2 ==> order_step(s, a).2,
        order_step(s, a).3 >= s.3,
        crate::names::distinct(order_step(s, a).0),
{
    match a {
        OrderAction::TagOrder { tag } => {
            if !s.0.contains(tag@) {
                let t2 = s.0.push(tag@);
                assert forall|t: Seq<char>| s.0.contains(t) implies t2.contains(t) by {
                    let i = choose|i: int| 0 <= i < s.0.len() && s.0[i] == t;
                    assert(t2[i] == t);
                }
                assert forall|i: int, j: int| 0 <= i < t2.len() && 0 <= j < t2.len() && i != j implies t2[i] != t2[j] by {
                    if i == s.0.len() {
                        assert(s.0.contains(t2[j]));
                    } else if j == s.0.len() {
                        assert(s.0.contains(t2[i]));
                    }
                }
            }
        },
        _ => {},
    }
}

/// Gold an order delivers when no order is replaced: 2 under a closure
/// special order, otherwise 3.
pub fn default_gold_delivery(replace_order: &Option<String>) -> (r: u8)
    ensures
        r == (if is_closure(*replace_order) { 2u8 } else { 3u8 }),
{
    match replace_order {
        Some(t) => {
            if str_eq(t.as_str(), "closure_special") {
                2
            } else {
                3
            }
        },
        None => 3,
    }
}

/// What dominates a room's orders.
#[derive(Debug, Clone, Copy, PartialEq, Eq, Structural)]
pub enum SpecialOrderKind {
    NormalGold,
    ClosureSpecial,
}

/// Which gold-order distribution a room sees: the regular one or the peak
/// distributions of the two tailor lines.
#[derive(Debug, Clone, Copy, PartialEq, Eq, Structural)]
pub enum GoldDistributionKind {
    Regular,
    AlphaPeak,
    BetaPeak,
}

/// The tailor-beta tag wins over the tailor-alpha tag; without either the
/// distribution is the regular one.
pub open spec fn distribution_of(tags: Seq<Seq<char>>) -> GoldDistributionKind {
    if tags.contains("tailor_beta"@) {
        GoldDistributionKind::BetaPeak
    } else if tags.contains("tailor_alpha"@) {
        GoldDistributionKind::AlphaPeak
    } else {
        GoldDistributionKind::Regular
    }
}

/// The gold-order distribution of a room with these order tags.
pub fn gold_distribution_kind(order_tags: &Vec<String>) -> (r: GoldDistributionKind)
    ensures
        r == distribution_of(views(order_tags@)),
{
    if vec_has(order_tags, "tailor_beta") {
        GoldDistributionKind::BetaPeak
    } else if vec_has(order_tags, "tailor_alpha") {
        GoldDistributionKind::AlphaPeak
    } else {
        GoldDistributionKind::Regular
    }
}

/// How a room's order mechanic is evaluated.
#[derive(Debug, Clone, Copy, PartialEq, Eq, Structural)]
pub enum OrderRoute {
    /// Closure special orders.
    Closure,
    /// Eureka replacement orders.
    Eureka,
    /// Pepe's exclusive orders.
    PepeExclusive,
    /// Gold orders, with law-chain breaches and LMD bonuses.
    NormalGold,
}

/// Closure special orders come first, then the eureka and pepe replacements;
/// any other room trades normal gold orders.
pub open spec fn route_of(caps: MechanicCaps, replace_order: Option<Seq<char>>) -> OrderRoute {
    if caps.closure {
        OrderRoute::Closure
    } else if replace_order == Some("eureka"@) {
        OrderRoute::Eureka
    } else if replace_order == Some("pepe_exclusive"@) {
        OrderRoute::PepeExclusive
    } else {
        OrderRoute::NormalGold
    }
}

/// Picks how the room's order mechanic is evaluated.
pub fn order_route(caps: &MechanicCaps, replace_order: &Option<String>) -> (r: OrderRoute)
    ensures
        r == route_of(
            *caps,
            match replace_order {
                Some(t) => Some(t@),
                None => None,
            },
        ),
{
    if caps.closure {
        return OrderRoute::Closure;
    }
    match replace_order {
        Some(t) => {
            if str_eq(t.as_str(), "eureka") {
                OrderRoute::Eureka
            } else if str_eq(t.as_str(), "pepe_exclusive") {
                OrderRoute::PepeExclusive
            } else {
                OrderRoute::NormalGold
            }
        },
        None => OrderRoute::NormalGold,
    }
}

/// Minutes and LMD of a gold order by its gold: 2 gold 144 min 1000 LMD,
/// 3 gold 210 min 1500 LMD, 4 gold 276 min 2000 LMD (others as 2 gold).
pub open spec fn tier_params_of(gold: u8) -> (u32, u32) {
    if gold == 3 {
        (210, 1500)
    } else if gold == 4 {
        (276, 2000)
    } else {
        (144, 1000)
    }
}

/// Duration in minutes and LMD of a gold order.
pub fn tier_params(gold: u8) -> (r: (u32, u32))
    ensures
        r == tier_params_of(gold),
{
    match gold {
        2 => (144, 1000),
        3 => (210, 1500),
        4 => (276, 2000),
        _ => (144, 1000),
    }
}

/// Gold an order delivers after the law chain: an order below four gold
/// breaches and gains the breach gold when there is any.
pub open spec fn mechanic_gold_of(base_gold: u8, caps: MechanicCaps) -> int {
    if caps.law && base_gold < 4 && caps.breach_add > 0 {
        base_gold + caps.breach_add
    } else {
        base_gold as int
    }
}

/// The gold of an order of `base_gold` gold under the room's mechanics.
pub fn mechanic_gold(base_gold: u8, caps: &MechanicCaps) -> (r: i32)
    requires
        caps.law && base_gold < 4 && caps.breach_add > 0 ==> base_gold + caps.breach_add <= i32::MAX,
    ensures
        r == mechanic_gold_of(base_gold, *caps),
{
    let mut gold: i32 = base_gold as i32;
    let breach = caps.law && gold < 4;
    if breach && caps.breach_add > 0 {
        gold = gold + caps.breach_add;
    }
    gold
}

/// A breach never lowers an order's gold.
pub proof fn lemma_mechanic_gold_not_lower(base_gold: u8, caps: MechanicCaps)
    ensures
        mechanic_gold_of(base_gold, caps) >= base_gold,
{
}

} // verus!
