use infra_core::error::Error;
use infra_core::layout::{
    AssignedOperator, BaseAssignment, BaseBlueprint, FacilityKind, RoomBlueprint, RoomId,
};
use infra_core::names::NameSet;
use infra_core::operbox::{OperBox, OwnedOperator};
use infra_core::system::{
    claim_base_systems, facility_kind, mode_allowed, systems_by_priority, AssignShiftMode,
    BaseSystemDef, SystemOperatorFixed, SystemOperatorPickOne, SystemOperatorSpec, SystemSlotDef,
};

fn room(id: &str, kind: FacilityKind) -> RoomBlueprint {
    RoomBlueprint { id: RoomId(id.to_string()), kind }
}

fn blueprint() -> BaseBlueprint {
    BaseBlueprint {
        rooms: vec![
            room("control", FacilityKind::ControlCenter),
            room("trade_1", FacilityKind::TradePost),
            room("trade_2", FacilityKind::TradePost),
            room("manu_1", FacilityKind::Factory),
            room("power_1", FacilityKind::PowerPlant),
        ],
    }
}

fn operbox(ops: &[(&str, u8)]) -> OperBox {
    OperBox {
        operators: ops
            .iter()
            .map(|(n, e)| OwnedOperator { name: n.to_string(), elite: *e })
            .collect(),
    }
}

fn fixed(name: &str, elite: u8) -> SystemOperatorSpec {
    SystemOperatorSpec::Fixed(SystemOperatorFixed { name: name.to_string(), elite })
}

fn pick(names: &[&str], elite: u8) -> SystemOperatorSpec {
    SystemOperatorSpec::PickOne(SystemOperatorPickOne {
        pick_one: names.iter().map(|s| s.to_string()).collect(),
        elite,
    })
}

fn slot(facility: &str, room_id: Option<&str>, operators: Vec<SystemOperatorSpec>) -> SystemSlotDef {
    SystemSlotDef {
        facility: facility.to_string(),
        room_id: room_id.map(|s| s.to_string()),
        trade_role: None,
        operators,
    }
}

fn system(id: &str, priority: i32, group: Option<&str>, modes: &[&str], slots: Vec<SystemSlotDef>) -> BaseSystemDef {
    BaseSystemDef {
        id: id.to_string(),
        label: String::new(),
        priority,
        segment_id: None,
        exclusive_group: group.map(|s| s.to_string()),
        shift_modes: modes.iter().map(|s| s.to_string()).collect(),
        slots,
    }
}

fn names_in(a: &BaseAssignment, id: &str) -> Vec<String> {
    a.operators_in(&RoomId(id.to_string())).into_iter().map(|o| o.name).collect()
}

#[test]
fn facility_names_map_to_kinds() {
    assert_eq!(facility_kind("control"), Some(FacilityKind::ControlCenter));
    assert_eq!(facility_kind("trade_post"), Some(FacilityKind::TradePost));
    assert_eq!(facility_kind("factory"), Some(FacilityKind::Factory));
    assert_eq!(facility_kind("power_plant"), Some(FacilityKind::PowerPlant));
    assert_eq!(facility_kind("dormitory"), Some(FacilityKind::Dormitory));
    assert_eq!(facility_kind("office"), None);
}

#[test]
fn systems_without_modes_serve_peak_only() {
    let s = system("s", 0, None, &[], vec![]);
    assert!(mode_allowed(&s, AssignShiftMode::Peak));
    assert!(!mode_allowed(&s, AssignShiftMode::Recovery));
    let r = system("r", 0, None, &["recovery"], vec![]);
    assert!(!mode_allowed(&r, AssignShiftMode::Peak));
    assert!(mode_allowed(&r, AssignShiftMode::Recovery));
}

#[test]
fn priority_order_is_stable_descending() {
    let systems = vec![
        system("a", 1, None, &[], vec![]),
        system("b", 5, None, &[], vec![]),
        system("c", 1, None, &[], vec![]),
        system("d", 5, None, &[], vec![]),
        system("e", -2, None, &[], vec![]),
    ];
    assert_eq!(systems_by_priority(&systems), vec![1, 3, 0, 2, 4]);
}

#[test]
fn exclusive_group_prefers_higher_priority_system() {
    let bp = blueprint();
    let ob = operbox(&[("Docus", 2), ("Lingzhi", 2), ("Jie", 1), ("Shamare", 2)]);
    let systems = vec![
        system("ling_jie", 10, Some("meta"), &[], vec![slot("trade_post", Some("trade_2"), vec![fixed("Lingzhi", 2), fixed("Jie", 0)])]),
        system("docus", 20, Some("meta"), &[], vec![slot("trade_post", Some("trade_2"), vec![fixed("Docus", 2)])]),
    ];
    let mut a = BaseAssignment::new();
    let mut used = NameSet::new();
    claim_base_systems(&bp, &ob, &systems, AssignShiftMode::Peak, &mut a, &mut used).unwrap();
    assert!(!used.contains("Lingzhi"));
    assert!(used.contains("Docus"));
    assert_eq!(names_in(&a, "trade_2"), vec!["Docus".to_string()]);
}

#[test]
fn claim_fills_rooms_and_control_joins() {
    let bp = blueprint();
    let ob = operbox(&[("A", 2), ("B", 2), ("C", 1), ("D", 0), ("E", 2)]);
    let systems = vec![
        system(
            "combo",
            3,
            None,
            &["peak", "recovery"],
            vec![
                slot("control", None, vec![fixed("A", 2)]),
                slot("trade_post", None, vec![fixed("B", 2), pick(&["D", "C"], 1)]),
            ],
        ),
        system("second", 1, None, &["recovery"], vec![slot("control", None, vec![fixed("E", 2)])]),
    ];
    let mut a = BaseAssignment::new();
    a.set_room(RoomId("control".to_string()), vec![AssignedOperator::new("D", 0)]);
    let mut used = NameSet::new();
    used.insert("D".to_string());
    claim_base_systems(&bp, &ob, &systems, AssignShiftMode::Recovery, &mut a, &mut used).unwrap();
    assert_eq!(names_in(&a, "control"), vec!["D".to_string(), "A".to_string(), "E".to_string()]);
    assert_eq!(names_in(&a, "trade_1"), vec!["B".to_string(), "C".to_string()]);
    assert!(names_in(&a, "trade_2").is_empty());
    for n in ["A", "B", "C", "D", "E"] {
        assert!(used.contains(n));
    }
}

#[test]
fn infeasible_systems_are_passed_over() {
    let bp = blueprint();
    let ob = operbox(&[("A", 1), ("B", 2)]);
    let systems = vec![
        system("needs_e2", 5, None, &[], vec![slot("factory", None, vec![fixed("A", 2)])]),
        system("unowned_pick", 4, None, &[], vec![slot("factory", None, vec![pick(&["Z", "B"], 0)])]),
        system("unknown_facility", 3, None, &[], vec![slot("office", None, vec![fixed("B", 0)])]),
        system("ok", 1, None, &[], vec![slot("power_plant", None, vec![fixed("B", 2)])]),
    ];
    let mut a = BaseAssignment::new();
    let mut used = NameSet::new();
    claim_base_systems(&bp, &ob, &systems, AssignShiftMode::Peak, &mut a, &mut used).unwrap();
    assert!(names_in(&a, "manu_1").is_empty());
    assert_eq!(names_in(&a, "power_1"), vec!["B".to_string()]);
    assert!(!used.contains("A"));
}

#[test]
fn control_capacity_limits_claims() {
    let bp = blueprint();
    let ob = operbox(&[("A", 2), ("B", 2), ("C", 2), ("D", 2), ("E", 2), ("F", 2)]);
    let systems = vec![
        system("four", 2, None, &[], vec![slot("control", None, vec![fixed("A", 0), fixed("B", 0), fixed("C", 0), fixed("D", 0)])]),
        system("two_more", 1, None, &[], vec![slot("control", None, vec![fixed("E", 0), fixed("F", 0)])]),
    ];
    let mut a = BaseAssignment::new();
    let mut used = NameSet::new();
    claim_base_systems(&bp, &ob, &systems, AssignShiftMode::Peak, &mut a, &mut used).unwrap();
    assert_eq!(names_in(&a, "control").len(), 4);
    assert!(!used.contains("E"));
}

#[test]
fn duplicate_within_a_system_is_an_error() {
    let bp = blueprint();
    let ob = operbox(&[("A", 2)]);
    let systems = vec![system(
        "twice",
        1,
        None,
        &[],
        vec![
            slot("trade_post", None, vec![fixed("A", 0)]),
            slot("factory", None, vec![pick(&["A"], 0)]),
        ],
    )];
    let mut a = BaseAssignment::new();
    let mut used = NameSet::new();
    let err = claim_base_systems(&bp, &ob, &systems, AssignShiftMode::Peak, &mut a, &mut used).unwrap_err();
    match err {
        Error::SlotOperatorsVanished { system } => assert_eq!(system, "twice"),
        other => panic!("unexpected error {:?}", other),
    }
    assert_eq!(names_in(&a, "trade_1"), vec!["A".to_string()]);
}

#[test]
fn fixed_operator_twice_in_a_slot_is_a_duplicate() {
    let bp = blueprint();
    let ob = operbox(&[("A", 2)]);
    let systems = vec![system("dup", 1, None, &[], vec![slot("trade_post", None, vec![fixed("A", 0), fixed("A", 0)])])];
    let mut a = BaseAssignment::new();
    let mut used = NameSet::new();
    let err = claim_base_systems(&bp, &ob, &systems, AssignShiftMode::Peak, &mut a, &mut used).unwrap_err();
    match err {
        Error::SystemDuplicate { system, name } => {
            assert_eq!(system, "dup");
            assert_eq!(name, "A");
        }
        other => panic!("unexpected error {:?}", other),
    }
    assert!(used.contains("A"));
    assert!(names_in(&a, "trade_1").is_empty());
}

#[test]
fn room_vanishing_between_slots_is_an_error() {
    let bp = BaseBlueprint { rooms: vec![room("manu_1", FacilityKind::Factory)] };
    let ob = operbox(&[("A", 2), ("B", 2)]);
    let systems = vec![system(
        "two_factories",
        1,
        None,
        &[],
        vec![slot("factory", None, vec![fixed("A", 0)]), slot("factory", None, vec![fixed("B", 0)])],
    )];
    let mut a = BaseAssignment::new();
    let mut used = NameSet::new();
    let err = claim_base_systems(&bp, &ob, &systems, AssignShiftMode::Peak, &mut a, &mut used).unwrap_err();
    match err {
        Error::SlotRoomVanished { system } => assert_eq!(system, "two_factories"),
        other => panic!("unexpected error {:?}", other),
    }
    assert_eq!(names_in(&a, "manu_1"), vec!["A".to_string()]);
}

#[test]
fn operbox_elite_lookup() {
    let ob = operbox(&[("A", 2), ("B", 0)]);
    assert_eq!(ob.elite_of("A"), Some(2));
    assert_eq!(ob.elite_of("B"), Some(0));
    assert_eq!(ob.elite_of("C"), None);
}
