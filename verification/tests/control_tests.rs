use infra_core::control::{
    control_efficiency_inject_buff, control_entry_hr_mood_fill, control_hr_mood_buff, control_passion_chain_buff,
    filter_control_pool_for_fill, ControlFillPolicy,
};
use infra_core::names::NameSet;
use infra_core::pool::{ControlPool, ControlPoolEntry, PoolSkip};

fn entry(name: &str, buffs: &[&str]) -> ControlPoolEntry {
    ControlPoolEntry {
        name: name.to_string(),
        elite: 2,
        buff_ids: buffs.iter().map(|s| s.to_string()).collect(),
        tags: Vec::new(),
    }
}

#[test]
fn control_buff_classes() {
    assert!(control_passion_chain_buff("control_mp_bd&trade[000]"));
    assert!(!control_passion_chain_buff("control_mp_bd[000]"));
    assert!(control_efficiency_inject_buff("control_prod_spd[010]"));
    assert!(control_efficiency_inject_buff("control_tra_spd[000]"));
    assert!(control_efficiency_inject_buff("control_mp_bd[000]"));
    assert!(!control_efficiency_inject_buff("control_mp_cost[000]"));
    assert!(control_hr_mood_buff("control_hire_spd&bd[000]"));
    assert!(control_hr_mood_buff("control_mp_cost[003]"));
    assert!(!control_hr_mood_buff("control_mp_cost[003]&x"));
    assert!(control_hr_mood_buff("control_mp_cost&faction[001]"));
    assert!(!control_hr_mood_buff("control_tra_spd[000]"));
}

#[test]
fn fill_entries_need_mood_and_no_chain() {
    assert!(control_entry_hr_mood_fill(&entry("a", &["control_mp_cost[010]"])));
    assert!(!control_entry_hr_mood_fill(&entry("b", &["control_mp_cost[010]", "control_prod_spd[000]"])));
    assert!(!control_entry_hr_mood_fill(&entry("c", &["control_dorm_bd[000]", "control_mp_psk[000]"])));
    assert!(!control_entry_hr_mood_fill(&entry("d", &["control_other[000]"])));
    assert!(!control_entry_hr_mood_fill(&entry("e", &[])));
}

#[test]
fn fill_pool_keeps_pinned_and_fit_entries() {
    let pool = ControlPool {
        entries: vec![
            entry("pinned", &["control_prod_spd[000]"]),
            entry("mood", &["control_mp_cost[010]"]),
            entry("eff", &["control_tra_spd[000]"]),
            entry("used_mood", &["control_mp_cost[010]"]),
        ],
        skipped: vec![("s".to_string(), 0, PoolSkip::NoTradeBinding)],
    };
    let mut used = NameSet::new();
    used.insert("pinned".to_string());
    used.insert("used_mood".to_string());
    let mut pinned = NameSet::new();
    pinned.insert("pinned".to_string());
    let hr = filter_control_pool_for_fill(&pool, &used, &pinned, ControlFillPolicy::HrAndMood);
    let names: Vec<&str> = hr.entries.iter().map(|e| e.name.as_str()).collect();
    assert_eq!(names, vec!["pinned", "mood"]);
    let eff = filter_control_pool_for_fill(&pool, &used, &pinned, ControlFillPolicy::Efficiency);
    let names: Vec<&str> = eff.entries.iter().map(|e| e.name.as_str()).collect();
    assert_eq!(names, vec!["pinned", "mood", "eff"]);
    assert_eq!(eff.skipped.len(), 1);
}

use infra_core::layout::{AssignedOperator, BaseAssignment, RoomId};
use infra_core::trade_meta::{next_trade_meta, MetaLead};

fn rid(s: &str) -> RoomId {
    RoomId(s.to_string())
}

#[test]
fn meta_leads_take_empty_trade_rooms_in_order() {
    let ids = vec![rid("trade_1"), rid("trade_2"), rid("trade_3")];
    let mut a = BaseAssignment::new();
    assert_eq!(next_trade_meta(&ids, &a, 0, 0), Some((MetaLead::Docus, 0)));
    a.set_room(rid("trade_1"), vec![AssignedOperator::new("但书", 2)]);
    assert_eq!(next_trade_meta(&ids, &a, 1, 1), Some((MetaLead::Witch, 1)));
    a.set_room(rid("trade_2"), vec![AssignedOperator::new("巫恋", 2)]);
    assert_eq!(next_trade_meta(&ids, &a, 0, 2), Some((MetaLead::Closure, 2)));
    a.set_room(rid("trade_3"), vec![AssignedOperator::new("x", 0)]);
    assert_eq!(next_trade_meta(&ids, &a, 2, 3), None);
    let mut full = BaseAssignment::new();
    full.set_room(rid("trade_1"), vec![AssignedOperator::new("x", 0)]);
    full.set_room(rid("trade_2"), vec![AssignedOperator::new("y", 0)]);
    full.set_room(rid("trade_3"), vec![AssignedOperator::new("z", 0)]);
    assert_eq!(next_trade_meta(&ids, &full, 0, 0), None);
}
