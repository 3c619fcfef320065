use infra_core::names::NameSet;
use infra_core::text::{contains_str, starts_with, str_lt};
use infra_core::types::{Phase, StateKey};

#[test]
fn phase_sort_keys_order_phases() {
    assert_eq!(Phase::StateWrite.sort_key(), 10);
    assert_eq!(Phase::Constant.sort_key(), 20);
    assert_eq!(Phase::GlobalInject.sort_key(), 92);
    assert_eq!(Phase::Limit.sort_key(), 40);
    assert_eq!(Phase::OrderVar.sort_key(), 50);
    assert_eq!(Phase::LimitVar.sort_key(), 55);
    assert_eq!(Phase::PeerAbsorb.sort_key(), 70);
    assert_eq!(Phase::Mood.sort_key(), 95);
    assert!(Phase::Limit.sort_key() < Phase::PeerAbsorb.sort_key());
    assert!(Phase::OrderMechanic.sort_key() < Phase::GlobalInject.sort_key());
    assert!(Phase::GlobalInject.sort_key() < Phase::Mood.sort_key());
}

#[test]
fn state_keys_parse_both_spellings() {
    assert_eq!(StateKey::parse("HumanFireworks"), Some(StateKey::HumanFireworks));
    assert_eq!(StateKey::parse("人间烟火"), Some(StateKey::HumanFireworks));
    assert_eq!(StateKey::parse("感知信息"), Some(StateKey::Perception));
    assert_eq!(StateKey::parse("SilentEcho"), Some(StateKey::SilentEcho));
    assert_eq!(StateKey::parse("魔物料理"), Some(StateKey::MonsterCuisine));
    assert_eq!(StateKey::parse("Unknown"), None);
}

#[test]
fn name_set_operations() {
    let mut s = NameSet::new();
    assert!(s.is_empty());
    assert!(s.insert("a".to_string()));
    assert!(!s.insert("a".to_string()));
    assert!(s.insert("b".to_string()));
    assert!(s.contains("a"));
    assert!(s.remove("a"));
    assert!(!s.remove("a"));
    assert!(!s.contains("a"));
    assert_eq!(s.names(), &vec!["b".to_string()]);
    let t = NameSet::from_names(&vec!["x".to_string(), "x".to_string(), "y".to_string()]);
    assert_eq!(t.names().len(), 2);
}

#[test]
fn byte_string_helpers() {
    assert!(contains_str("trade_ord_spd&gold[001]", "spd&gold"));
    assert!(!contains_str("abc", "abcd"));
    assert!(starts_with("skill_trade", "skill_"));
    assert!(!starts_with("trade", "skill_"));
    assert!(str_lt("a", "b"));
    assert!(str_lt("a", "ab"));
    assert!(!str_lt("b", "ab"));
    assert!(!str_lt("a", "a"));
    assert_eq!(str_lt("能", "天"), "能" < "天");
}
