use infra_core::instances::{
    buff_stem, merge_stepwise, resolve_buff_ids, FacilityBinding, OperatorInstance, OperatorInstances,
};
use infra_core::tier::PromotionTier;

fn strings(v: &[&str]) -> Vec<String> {
    v.iter().map(|s| s.to_string()).collect()
}

#[test]
fn merge_stepwise_superset_returns_tier_up() {
    let t0 = vec!["trade_ord_spd[010]".into()];
    let up = vec!["trade_ord_spd[010]".into(), "trade_ord_spd[020]".into()];
    assert_eq!(merge_stepwise(&t0, &up), up);
}

#[test]
fn merge_stepwise_replaces_same_stem() {
    let t0 = vec![
        "trade_ord_against[000]".into(),
        "trade_ord_law[000]".into(),
    ];
    let up = vec![
        "trade_ord_against[010]".into(),
        "trade_ord_law[000]".into(),
    ];
    let expected: Vec<String> = vec![
        "trade_ord_law[000]".to_string(),
        "trade_ord_against[010]".to_string(),
    ];
    assert_eq!(merge_stepwise(&t0, &up), expected);
}

#[test]
fn resolve_buff_ids_non_stepwise_override() {
    let binding = FacilityBinding {
        buff_ids: vec!["trade_ord_limit&cost_P[001]".into()],
        stepwise: false,
    };
    let t0 = FacilityBinding {
        buff_ids: vec!["trade_ord_limit&cost_P[000]".into()],
        stepwise: false,
    };
    assert_eq!(
        resolve_buff_ids(PromotionTier::TierUp, &binding, Some(&t0)),
        vec!["trade_ord_limit&cost_P[001]".to_string()]
    );
}

#[test]
fn buff_stem_cuts_index_suffix() {
    assert_eq!(buff_stem("trade_ord_spd[010]"), "trade_ord_spd");
    assert_eq!(buff_stem("trade_ord_wt&cost[a][b]"), "trade_ord_wt&cost[a]");
    assert_eq!(buff_stem("no_suffix"), "no_suffix");
    assert_eq!(buff_stem(""), "");
}

#[test]
fn resolve_buff_ids_tier0_keeps_binding() {
    let binding = FacilityBinding { buff_ids: strings(&["a[000]", "b[000]"]), stepwise: true };
    let t0 = FacilityBinding { buff_ids: strings(&["c[000]"]), stepwise: true };
    assert_eq!(resolve_buff_ids(PromotionTier::Tier0, &binding, Some(&t0)), strings(&["a[000]", "b[000]"]));
}

#[test]
fn resolve_buff_ids_stepwise_merges_with_tier0() {
    let up = FacilityBinding { buff_ids: strings(&["spd[010]", "cost[000]"]), stepwise: true };
    let t0 = FacilityBinding { buff_ids: strings(&["spd[000]", "limit[000]"]), stepwise: true };
    assert_eq!(
        resolve_buff_ids(PromotionTier::TierUp, &up, Some(&t0)),
        strings(&["limit[000]", "spd[010]", "cost[000]"])
    );
    assert_eq!(resolve_buff_ids(PromotionTier::TierUp, &up, None), strings(&["spd[010]", "cost[000]"]));
}

#[test]
fn merge_stepwise_keeps_tier0_order_for_untouched_stems() {
    let t0 = strings(&["a[000]", "b[000]", "c[000]"]);
    let up = strings(&["b[010]"]);
    assert_eq!(merge_stepwise(&t0, &up), strings(&["a[000]", "c[000]", "b[010]"]));
}

fn instance(name: &str, tier: &str, trade: Option<(Vec<String>, bool)>) -> OperatorInstance {
    let mut facilities = Vec::new();
    if let Some((ids, stepwise)) = trade {
        facilities.push(("trade".to_string(), FacilityBinding { buff_ids: ids, stepwise }));
    }
    OperatorInstance { name: name.to_string(), tier: tier.to_string(), tags: Vec::new(), facilities }
}

#[test]
fn registry_resolves_trade_ids_per_tier() {
    let reg = OperatorInstances::from_entries(vec![
        ("Exusiai@tier_0".to_string(), instance("Exusiai", "tier_0", Some((strings(&["trade_ord_spd[000]"]), true)))),
        (
            "Exusiai@tier_up".to_string(),
            instance("Exusiai", "tier_up", Some((strings(&["trade_ord_spd[010]", "trade_ord_spd[020]"]), true))),
        ),
        ("Nobody@tier_0".to_string(), instance("Nobody", "tier_0", None)),
    ]);
    assert!(reg.get("Exusiai", PromotionTier::TierUp).is_some());
    assert!(reg.get("Exusiai", PromotionTier::Tier0).is_some());
    assert!(reg.get("Texas", PromotionTier::Tier0).is_none());
    // Both tier-up ids share the stem of the tier-0 id, so the later one replaces the earlier.
    assert_eq!(reg.resolve_trade_buff_ids("Exusiai", PromotionTier::TierUp), strings(&["trade_ord_spd[020]"]));
    assert_eq!(reg.trade_buff_ids_for("Exusiai", PromotionTier::TierUp), strings(&["trade_ord_spd[020]"]));
    assert_eq!(reg.resolve_trade_buff_ids("Exusiai", PromotionTier::Tier0), strings(&["trade_ord_spd[000]"]));
    assert!(reg.resolve_trade_buff_ids("Nobody", PromotionTier::Tier0).is_empty());
    assert!(reg.resolve_trade_buff_ids("Texas", PromotionTier::Tier0).is_empty());
    let inst = reg.get("Exusiai", PromotionTier::TierUp).unwrap();
    assert_eq!(inst.trade_buff_ids(), vec!["trade_ord_spd[010]", "trade_ord_spd[020]"]);
}

#[test]
fn tier_from_elite_and_text() {
    assert_eq!(PromotionTier::from_elite(0), PromotionTier::Tier0);
    assert_eq!(PromotionTier::from_elite(1), PromotionTier::Tier0);
    assert_eq!(PromotionTier::from_elite(2), PromotionTier::TierUp);
    assert_eq!(PromotionTier::TierUp.as_str(), "tier_up");
    assert_eq!(PromotionTier::Tier0.as_str(), "tier_0");
    assert_eq!(PromotionTier::parse("  tier_up\n"), Some(PromotionTier::TierUp));
    assert_eq!(PromotionTier::parse("tier_0"), Some(PromotionTier::Tier0));
    assert_eq!(PromotionTier::parse("tier_2"), None);
    assert_eq!(PromotionTier::parse("\u{3000}tier_0\u{a0}\t"), Some(PromotionTier::Tier0));
    assert_eq!(PromotionTier::parse_exact(" tier_0"), None);
    assert_eq!(PromotionTier::parse(PromotionTier::TierUp.as_str()), Some(PromotionTier::TierUp));
}
