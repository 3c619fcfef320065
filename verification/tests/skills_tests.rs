use infra_core::error::Error;
use infra_core::instances::{FacilityBinding, OperatorInstance, OperatorInstances};
use infra_core::skills::SkillCatalog;
use infra_core::tier::PromotionTier;

fn strings(v: &[&str]) -> Vec<String> {
    v.iter().map(|s| s.to_string()).collect()
}

fn catalog() -> SkillCatalog {
    SkillCatalog::from_ids(strings(&["trade_ord_spd[000]", "trade_ord_spd[010]", "trade_ord_law[000]"])).unwrap()
}

#[test]
fn catalog_rejects_legacy_and_duplicate_ids() {
    match SkillCatalog::from_ids(strings(&["a[000]", "skill_trade_1", "a[000]"])) {
        Err(Error::LegacySkillId { id }) => assert_eq!(id, "skill_trade_1"),
        _ => panic!("expected a legacy id"),
    }
    match SkillCatalog::from_ids(strings(&["a[000]", "b[000]", "a[000]", "skill_x"])) {
        Err(Error::DuplicateSkillId { id }) => assert_eq!(id, "a[000]"),
        _ => panic!("expected a duplicate id"),
    }
    assert!(SkillCatalog::from_ids(Vec::new()).is_ok());
}

#[test]
fn catalog_lookups() {
    let c = catalog();
    assert_eq!(c.index_of("trade_ord_law[000]"), Some(2));
    assert_eq!(c.index_of("nope"), None);
    assert!(c.contains("trade_ord_spd[010]"));
    assert_eq!(c.resolve_indices(&strings(&["trade_ord_law[000]", "trade_ord_spd[000]"])).unwrap(), vec![2, 0]);
    match c.resolve_indices(&strings(&["trade_ord_spd[000]", "x[1]", "y[2]"])) {
        Err(Error::UnknownSkillId { id }) => assert_eq!(id, "x[1]"),
        _ => panic!("expected an unknown id"),
    }
}

fn inst(name: &str, ids: &[&str]) -> OperatorInstance {
    OperatorInstance {
        name: name.to_string(),
        tier: "tier_0".to_string(),
        tags: Vec::new(),
        facilities: vec![("trade".to_string(), FacilityBinding { buff_ids: strings(ids), stepwise: true })],
    }
}

#[test]
fn operator_references_are_checked() {
    let c = catalog();
    let reg = OperatorInstances::from_entries(vec![
        ("A@tier_0".to_string(), inst("A", &["trade_ord_spd[000]", "ghost[000]"])),
        ("B@tier_0".to_string(), inst("B", &["trade_ord_law[000]"])),
        ("B@tier_up".to_string(), inst("B", &["other[001]"])),
    ]);
    assert_eq!(
        c.validate_operator_refs(&reg),
        vec![("A".to_string(), "ghost[000]".to_string()), ("B".to_string(), "other[001]".to_string())]
    );
    assert!(c.validate_pilot_operators(&reg, &strings(&["Nobody"])).is_ok());
    match c.validate_pilot_operators(&reg, &strings(&["A", "B"])) {
        Err(Error::MissingPilotBuffs { missing }) => assert_eq!(
            missing,
            vec![
                ("A".to_string(), PromotionTier::Tier0, "ghost[000]".to_string()),
                ("B".to_string(), PromotionTier::TierUp, "other[001]".to_string()),
            ]
        ),
        _ => panic!("expected missing buffs"),
    }
}
