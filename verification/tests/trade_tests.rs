use infra_core::pool::{
    filter_control_pool, is_gold_flow_skill, ControlPool, ControlPoolEntry, PoolSkip,
};
use infra_core::names::NameSet;
use infra_core::tier::PromotionTier;
use infra_core::trade::{
    default_gold_delivery, facility_base_limit, gold_distribution_kind, mechanic_gold, order_gap,
    order_route, recompute_limit, tier_params, GoldDistributionKind, MechanicCaps, OrderAction,
    OrderRoute, OrderState, TradeLayoutContext, TradeOperator,
};

fn strings(v: &[&str]) -> Vec<String> {
    v.iter().map(|s| s.to_string()).collect()
}

#[test]
fn search_baseline_layout() {
    let l = TradeLayoutContext::search_baseline();
    assert_eq!(l.meeting_max_level, 3);
    assert_eq!(l.dorm_level_sum, 12);
    assert_eq!(l.manu_recipe_kinds, 4);
    assert_eq!(l.elite_facility_count, 6);
    assert_eq!(l.sui_facility_count, 2);
    assert_eq!(l.dorm_occupant_count, 20);
    assert_eq!(l.monster_cuisine_layers, 3);
    assert!(l.base_workforce.iter().any(|n| n == "伺夜"));
    assert!(l.base_workforce.iter().any(|n| n == "乌尔比安"));
    let d = TradeLayoutContext::default();
    assert_eq!(d.meeting_max_level, 0);
    assert!(d.base_workforce.is_empty());
}

#[test]
fn trade_operator_basics() {
    let mut op = TradeOperator::new("能天使", 2, strings(&["trade_ord_spd[010]"]));
    assert_eq!(op.name, "能天使");
    assert_eq!(op.tier(), PromotionTier::TierUp);
    assert!(!op.has_tag("penguin"));
    op.tags.push("penguin".to_string());
    assert!(op.has_tag("penguin"));
    let low = TradeOperator::new("x", 1, Vec::new());
    assert_eq!(low.tier(), PromotionTier::Tier0);
    let copy = op.duplicate();
    assert_eq!(copy.buff_ids, op.buff_ids);
    assert_eq!(copy.tags, op.tags);
}

#[test]
fn base_limits_by_level() {
    assert_eq!(facility_base_limit(1), 6);
    assert_eq!(facility_base_limit(2), 9);
    assert_eq!(facility_base_limit(3), 12);
    assert_eq!(facility_base_limit(0), 12);
    assert_eq!(facility_base_limit(7), 12);
}

#[test]
fn order_limit_and_gap() {
    assert_eq!(recompute_limit(12, &vec![5], 0), (5, 17));
    assert_eq!(recompute_limit(12, &vec![2, 1], 4), (3, 11));
    assert_eq!(recompute_limit(6, &vec![], 9), (0, 1));
    assert_eq!(order_gap(12, 8), 4);
    assert_eq!(order_gap(12, 15), 0);
}

#[test]
fn order_mechanics_update_state() {
    let mut s = OrderState::new();
    s.apply(&OrderAction::TagOrder { tag: "tailor_alpha".to_string() });
    s.apply(&OrderAction::TagOrder { tag: "tailor_alpha".to_string() });
    assert_eq!(s.order_tags, strings(&["tailor_alpha"]));
    assert!(!s.law_active);
    s.apply(&OrderAction::TagOrder { tag: "breach".to_string() });
    assert!(s.law_active);
    s.apply(&OrderAction::AddGoldDelivery { n: 2 });
    s.apply(&OrderAction::AddGoldDelivery { n: 1 });
    assert_eq!(s.breach_gold_add, 2);
    s.apply(&OrderAction::AddOrderLmdBonus { bonus: 250 });
    s.apply(&OrderAction::AddOrderLmdBonus { bonus: 250 });
    assert_eq!(s.order_lmd_bonus, 500);
    let caps = s.mechanic_caps();
    assert!(caps.law && !caps.closure);
    assert_eq!(caps.breach_add, 2);
    assert_eq!(default_gold_delivery(&s.replace_order), 3);
    s.apply(&OrderAction::ReplaceOrder { order_type: "closure_special".to_string() });
    assert!(s.mechanic_caps().closure);
    assert_eq!(default_gold_delivery(&s.replace_order), 2);
}

#[test]
fn distributions_and_routes() {
    assert_eq!(gold_distribution_kind(&strings(&["tailor_alpha", "tailor_beta"])), GoldDistributionKind::BetaPeak);
    assert_eq!(gold_distribution_kind(&strings(&["tailor_alpha"])), GoldDistributionKind::AlphaPeak);
    assert_eq!(gold_distribution_kind(&strings(&["breach"])), GoldDistributionKind::Regular);
    let plain = MechanicCaps { law: false, breach_add: 0, closure: false };
    let closure = MechanicCaps { law: false, breach_add: 0, closure: true };
    assert_eq!(order_route(&closure, &Some("eureka".to_string())), OrderRoute::Closure);
    assert_eq!(order_route(&plain, &Some("eureka".to_string())), OrderRoute::Eureka);
    assert_eq!(order_route(&plain, &Some("pepe_exclusive".to_string())), OrderRoute::PepeExclusive);
    assert_eq!(order_route(&plain, &None), OrderRoute::NormalGold);
    assert_eq!(order_route(&plain, &Some("other".to_string())), OrderRoute::NormalGold);
}

#[test]
fn gold_orders_under_law_chain() {
    assert_eq!(tier_params(2), (144, 1000));
    assert_eq!(tier_params(3), (210, 1500));
    assert_eq!(tier_params(4), (276, 2000));
    assert_eq!(tier_params(9), (144, 1000));
    let law = MechanicCaps { law: true, breach_add: 2, closure: false };
    assert_eq!(mechanic_gold(2, &law), 4);
    assert_eq!(mechanic_gold(3, &law), 5);
    assert_eq!(mechanic_gold(4, &law), 4);
    let no_add = MechanicCaps { law: true, breach_add: 0, closure: false };
    assert_eq!(mechanic_gold(2, &no_add), 2);
    let no_law = MechanicCaps { law: false, breach_add: 2, closure: false };
    assert_eq!(mechanic_gold(2, &no_law), 2);
}

fn entry(name: &str) -> ControlPoolEntry {
    ControlPoolEntry { name: name.to_string(), elite: 2, buff_ids: strings(&["control_x[000]"]), tags: Vec::new() }
}

#[test]
fn control_pool_filter_and_stats() {
    let pool = ControlPool {
        entries: vec![entry("A"), entry("B"), entry("C")],
        skipped: vec![
            ("D".to_string(), 0, PoolSkip::NoTradeBinding),
            ("E".to_string(), 1, PoolSkip::UnmodeledBuff("x[000]".to_string())),
        ],
    };
    let stats = pool.stats();
    assert_eq!(stats.ready, 3);
    assert_eq!(stats.skipped, 2);
    assert_eq!(stats.combinations_3, 0);
    assert_eq!(pool.entry("B").unwrap().name, "B");
    assert!(pool.entry("Z").is_none());
    let mut exclude = NameSet::new();
    exclude.insert("B".to_string());
    let filtered = filter_control_pool(&pool, &exclude);
    let names: Vec<&str> = filtered.entries.iter().map(|e| e.name.as_str()).collect();
    assert_eq!(names, vec!["A", "C"]);
    assert_eq!(filtered.skipped.len(), 2);
    assert_eq!(filtered.skipped[1].2, PoolSkip::UnmodeledBuff("x[000]".to_string()));
    let op = pool.entries[0].to_control_operator();
    assert_eq!(op.name, "A");
    assert_eq!(op.buff_ids, strings(&["control_x[000]"]));
}

#[test]
fn gold_flow_skill_ids() {
    assert!(is_gold_flow_skill("manu_prod_line_gold[000]"));
    assert!(is_gold_flow_skill("trade_ord_spd&gold[001]"));
    assert!(is_gold_flow_skill("x_line_durin[000]"));
    assert!(!is_gold_flow_skill("trade_ord_spd[000]"));
}

use infra_core::instances::{FacilityBinding, OperatorInstance, OperatorInstances};
use infra_core::pool::{jie_e0_trade_operator, jie_market_trade_operator};

fn jie_instance(tier: &str, ids: &[&str]) -> OperatorInstance {
    OperatorInstance {
        name: "孑".to_string(),
        tier: tier.to_string(),
        tags: Vec::new(),
        facilities: vec![("trade".to_string(), FacilityBinding { buff_ids: strings(ids), stepwise: false })],
    }
}

#[test]
fn street_vendor_operators() {
    let reg = OperatorInstances::from_entries(vec![
        ("孑@tier_0".to_string(), jie_instance("tier_0", &["trade_ord_limit_diff[000]"])),
        ("孑@tier_up".to_string(), jie_instance("tier_up", &["trade_ord_limit_count[000]"])),
    ]);
    let e0 = jie_e0_trade_operator(&reg).expect("e0");
    assert_eq!(e0.elite, 0);
    assert_eq!(e0.buff_ids, strings(&["trade_ord_limit_diff[000]"]));
    let market = jie_market_trade_operator(&reg).expect("market");
    assert_eq!(market.elite, 1);
    assert_eq!(market.name, "孑");
    let empty = OperatorInstances::from_entries(Vec::new());
    assert!(jie_e0_trade_operator(&empty).is_none());
    assert!(jie_market_trade_operator(&empty).is_none());
}

use infra_core::pool::{
    filter_power_pool, filter_trade_pool, try_trade_entry, PowerPool, PowerPoolEntry, TradePool, TradePoolEntry,
};
use infra_core::skills::SkillCatalog;

fn trade_instance(name: &str, tier: &str, tags: &[&str], trade: Option<&[&str]>) -> OperatorInstance {
    let mut facilities = Vec::new();
    if let Some(ids) = trade {
        facilities.push(("trade".to_string(), FacilityBinding { buff_ids: strings(ids), stepwise: false }));
    }
    OperatorInstance { name: name.to_string(), tier: tier.to_string(), tags: strings(tags), facilities }
}

#[test]
fn trade_pool_readiness_rules() {
    let reg = OperatorInstances::from_entries(vec![
        ("但书@tier_up".to_string(), trade_instance("但书", "tier_up", &["cc.law"], Some(&["trade_ord_law[000]"]))),
        ("银灰@tier_up".to_string(), trade_instance("银灰", "tier_up", &[], None)),
        ("空@tier_up".to_string(), trade_instance("空", "tier_up", &[], Some(&[]))),
        ("怪@tier_0".to_string(), trade_instance("怪", "tier_0", &[], Some(&["trade_ord_law[000]", "trade_x[000]"]))),
        ("孑@tier_0".to_string(), trade_instance("孑", "tier_0", &[], Some(&["trade_ord_limit_diff[000]"]))),
    ]);
    let catalog = SkillCatalog::from_ids(strings(&["trade_ord_law[000]", "trade_ord_limit_diff[000]"])).unwrap();
    let docus = try_trade_entry("但书", 2, PromotionTier::TierUp, &reg, &catalog).unwrap();
    assert_eq!((docus.name.as_str(), docus.elite), ("但书", 2));
    assert_eq!(docus.buff_ids, strings(&["trade_ord_law[000]"]));
    assert_eq!(docus.tags, strings(&["cc.law"]));
    assert_eq!(try_trade_entry("但书", 0, PromotionTier::Tier0, &reg, &catalog).err(), Some(PoolSkip::NoTradeBinding));
    assert_eq!(try_trade_entry("银灰", 2, PromotionTier::TierUp, &reg, &catalog).err(), Some(PoolSkip::NoTradeBinding));
    assert_eq!(try_trade_entry("空", 2, PromotionTier::TierUp, &reg, &catalog).err(), Some(PoolSkip::NoTradeBinding));
    assert_eq!(
        try_trade_entry("怪", 0, PromotionTier::Tier0, &reg, &catalog).err(),
        Some(PoolSkip::UnmodeledBuff("trade_x[000]".to_string()))
    );
    assert!(try_trade_entry("孑", 0, PromotionTier::Tier0, &reg, &catalog).is_ok());
    assert_eq!(try_trade_entry("孑", 1, PromotionTier::Tier0, &reg, &catalog).err(), Some(PoolSkip::NoTradeBinding));
}

#[test]
fn registry_keeps_the_last_entry_of_a_key() {
    let mut twice = trade_instance("甲", "tier_0", &[], Some(&["a[000]"]));
    twice.facilities.push(("trade".to_string(), FacilityBinding { buff_ids: strings(&["b[000]"]), stepwise: false }));
    let reg = OperatorInstances::from_entries(vec![
        ("甲@tier_0".to_string(), trade_instance("甲", "tier_0", &[], Some(&["old[000]"]))),
        ("乙@tier_0".to_string(), trade_instance("乙", "tier_0", &[], Some(&["c[000]"]))),
        ("甲@tier_0".to_string(), twice),
    ]);
    assert_eq!(reg.iter().len(), 2);
    assert_eq!(reg.resolve_trade_buff_ids("甲", PromotionTier::Tier0), strings(&["b[000]"]));
    assert_eq!(reg.get("甲", PromotionTier::Tier0).unwrap().facilities.len(), 1);
    assert_eq!(reg.resolve_trade_buff_ids("乙", PromotionTier::Tier0), strings(&["c[000]"]));
}

fn trade_entry(name: &str) -> TradePoolEntry {
    TradePoolEntry { name: name.to_string(), elite: 2, buff_ids: strings(&["trade_x[000]"]), tags: Vec::new() }
}

#[test]
fn trade_and_power_pool_filters() {
    let pool = TradePool {
        entries: vec![trade_entry("A"), trade_entry("B"), trade_entry("C"), trade_entry("D")],
        skipped: vec![("E".to_string(), 0, PoolSkip::NoTradeBinding)],
    };
    let stats = pool.stats();
    assert_eq!((stats.ready, stats.skipped, stats.combinations_3), (4, 1, 4));
    assert_eq!(pool.entry("C").unwrap().name, "C");
    assert!(pool.entry("Z").is_none());
    let op = pool.entries[1].to_trade_operator();
    assert_eq!((op.name.as_str(), op.elite), ("B", 2));
    let mut used = NameSet::new();
    used.insert("B".to_string());
    used.insert("D".to_string());
    let sub = filter_trade_pool(&pool, &used);
    let names: Vec<&str> = sub.entries.iter().map(|e| e.name.as_str()).collect();
    assert_eq!(names, vec!["A", "C"]);
    assert_eq!(sub.skipped.len(), 1);
    assert_eq!(sub.stats().combinations_3, 0);

    let power = PowerPool {
        entries: vec![
            PowerPoolEntry { name: "P".to_string(), elite: 2, buff_ids: Vec::new(), tags: Vec::new(), has_l2_delegate: true },
            PowerPoolEntry { name: "B".to_string(), elite: 1, buff_ids: Vec::new(), tags: Vec::new(), has_l2_delegate: false },
        ],
        skipped: Vec::new(),
    };
    assert_eq!(power.stats().combinations_3, 2);
    let left = filter_power_pool(&power, &used);
    assert_eq!(left.entries.len(), 1);
    assert!(left.entries[0].has_l2_delegate);
    assert!(filter_power_pool(&left, &{
        let mut all = NameSet::new();
        all.insert("P".to_string());
        all
    })
    .entries
    .is_empty());
}
