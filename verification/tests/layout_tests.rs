use infra_core::assign::{
    assignment_has_blackkey_trade_anchor, assignment_has_matatabi_consumer, assignment_has_operator,
    assignment_operator_names, blackkey_witch_same_trade_room, commit_anchor_room, commit_control_combo,
    commit_operators_to_room, first_nonempty_names, names_disjoint, next_empty_trade_room,
    partial_room_anchors, pick_cached_or_rescan_control, pick_control_extending_pins, ControlPickSource, pick_first_disjoint, pinned_assignment,
    rotating_workers, trade_room_has_operator,
};
use infra_core::error::Error;
use infra_core::layout::{
    AssignedOperator, BaseAssignment, BaseBlueprint, FacilityKind, RoomBlueprint, RoomId,
};
use infra_core::names::NameSet;

fn room(id: &str, kind: FacilityKind) -> RoomBlueprint {
    RoomBlueprint { id: RoomId(id.to_string()), kind }
}

fn blueprint() -> BaseBlueprint {
    BaseBlueprint {
        rooms: vec![
            room("control", FacilityKind::ControlCenter),
            room("trade_1", FacilityKind::TradePost),
            room("trade_2", FacilityKind::TradePost),
            room("manu_1", FacilityKind::Factory),
            room("power_1", FacilityKind::PowerPlant),
            room("dorm_1", FacilityKind::Dormitory),
        ],
    }
}

fn ops(names: &[&str]) -> Vec<AssignedOperator> {
    names.iter().map(|n| AssignedOperator::new(n, 2)).collect()
}

fn rid(s: &str) -> RoomId {
    RoomId(s.to_string())
}

fn strings(v: &[&str]) -> Vec<String> {
    v.iter().map(|s| s.to_string()).collect()
}

fn sample() -> BaseAssignment {
    let mut a = BaseAssignment::new();
    a.set_room(rid("control"), ops(&["C1", "C2"]));
    a.set_room(rid("trade_1"), ops(&["黑键", "T2"]));
    a.set_room(rid("manu_1"), ops(&["M1"]));
    a.set_room(rid("dorm_1"), ops(&["D1"]));
    a.set_room(rid("power_1"), ops(&["P1"]));
    a
}

#[test]
fn set_room_replaces_and_reads_back() {
    let mut a = BaseAssignment::new();
    a.set_room(rid("trade_1"), ops(&["A"]));
    a.set_room(rid("trade_2"), ops(&["B"]));
    a.set_room(rid("trade_1"), ops(&["C", "D"]));
    let names: Vec<String> = a.operators_in(&rid("trade_1")).into_iter().map(|o| o.name).collect();
    assert_eq!(names, strings(&["C", "D"]));
    assert_eq!(a.room_len(&rid("trade_2")), 1);
    assert!(a.room_is_empty(&rid("manu_1")));
    assert_eq!(a.rooms.len(), 2);
}

#[test]
fn blueprint_rooms_of_kind_in_order() {
    let bp = blueprint();
    let trades: Vec<String> = bp.rooms_of(FacilityKind::TradePost).iter().map(|r| r.id.0.clone()).collect();
    assert_eq!(trades, strings(&["trade_1", "trade_2"]));
    assert!(bp.room(&rid("manu_1")).is_some());
    assert!(bp.room(&rid("office")).is_none());
}

#[test]
fn names_and_rotation_sets() {
    let a = sample();
    let bp = blueprint();
    let all = assignment_operator_names(&a);
    for n in ["C1", "C2", "黑键", "T2", "M1", "D1", "P1"] {
        assert!(all.contains(n));
    }
    let rot = rotating_workers(&a, &bp);
    assert!(rot.contains("T2") && rot.contains("M1") && rot.contains("P1"));
    assert!(!rot.contains("C1") && !rot.contains("D1"));
    let pinned = pinned_assignment(&a, &bp);
    assert_eq!(pinned.operators_in(&rid("control")).len(), 2);
    assert_eq!(pinned.operators_in(&rid("dorm_1")).len(), 1);
    assert!(pinned.room_is_empty(&rid("trade_1")));
    assert!(pinned.room_is_empty(&rid("manu_1")));
}

fn seen(a: &BaseAssignment) -> Vec<(String, Vec<(String, u8)>)> {
    a.rooms
        .iter()
        .map(|r| (r.room_id.0.clone(), r.operators.iter().map(|o| (o.name.clone(), o.elite)).collect()))
        .collect()
}

#[test]
fn pinning_twice_changes_nothing() {
    let a = sample();
    let bp = blueprint();
    let pinned = pinned_assignment(&a, &bp);
    let again = pinned_assignment(&pinned, &bp);
    assert_eq!(seen(&again), seen(&pinned));
    assert!(rotating_workers(&pinned, &bp).is_empty());
    assert_eq!(seen(&pinned).len(), 2);
}

#[test]
fn operator_lookups() {
    let a = sample();
    let bp = blueprint();
    assert!(trade_room_has_operator(&a, &rid("trade_1"), "T2"));
    assert!(!trade_room_has_operator(&a, &rid("trade_2"), "T2"));
    assert!(assignment_has_operator(&a, "D1"));
    assert!(!assignment_has_operator(&a, "nobody"));
    assert!(assignment_has_blackkey_trade_anchor(&a, &bp));
    assert!(!blackkey_witch_same_trade_room(&a, &bp));
    assert!(!assignment_has_matatabi_consumer(&a));
    let mut b = sample();
    b.set_room(rid("trade_1"), ops(&["黑键", "巫恋"]));
    assert!(blackkey_witch_same_trade_room(&b, &bp));
}

#[test]
fn empty_trade_rooms_and_anchors() {
    let a = sample();
    let bp = blueprint();
    let trades = bp.rooms_of(FacilityKind::TradePost);
    let (i, r) = next_empty_trade_room(&trades, &a, 0).unwrap();
    assert_eq!(i, 1);
    assert_eq!(r.id.0, "trade_2");
    assert!(next_empty_trade_room(&trades, &a, 2).is_none());
    assert_eq!(partial_room_anchors(&a, &rid("trade_1")), Some(strings(&["黑键", "T2"])));
    assert_eq!(partial_room_anchors(&a, &rid("trade_2")), None);
    let mut full = sample();
    full.set_room(rid("trade_2"), ops(&["X", "Y", "Z"]));
    assert_eq!(partial_room_anchors(&full, &rid("trade_2")), None);
}

#[test]
fn candidate_selection() {
    let mut used = NameSet::new();
    used.insert("A".to_string());
    let hits = vec![strings(&["A", "B"]), strings(&["C", "D"]), strings(&["E"])];
    assert_eq!(pick_first_disjoint(&hits, &used), Some(1));
    assert!(!names_disjoint(&strings(&["B", "A"]), &used));
    assert!(names_disjoint(&strings(&["B"]), &used));
    let blocked = vec![strings(&["A"])];
    assert_eq!(pick_first_disjoint(&blocked, &used), None);
    let empty: Vec<String> = Vec::new();
    let b = strings(&["b"]);
    let c = strings(&["c"]);
    assert_eq!(first_nonempty_names(&empty, &b, &c), &b);
    assert_eq!(first_nonempty_names(&empty, &empty, &c), &c);
}

#[test]
fn control_candidates_must_extend_pins() {
    let mut pinned = NameSet::new();
    pinned.insert("P".to_string());
    let mut used = NameSet::new();
    used.insert("P".to_string());
    used.insert("U".to_string());
    let hits = vec![strings(&["X", "Y"]), strings(&["P", "U"]), strings(&["P", "Z"])];
    assert_eq!(pick_control_extending_pins(&hits, &pinned, &used), Some(2));
}

#[test]
fn control_pick_falls_back_to_the_rescan() {
    let mut pinned = NameSet::new();
    pinned.insert("P".to_string());
    let mut used = NameSet::new();
    used.insert("P".to_string());
    used.insert("U".to_string());
    let stale = vec![strings(&["P", "U"]), strings(&["X", "Y"])];
    let fresh = vec![strings(&["Q", "R"]), strings(&["P", "Z"])];
    let good = vec![strings(&["P", "W"])];
    assert_eq!(pick_cached_or_rescan_control(&good, &fresh, &pinned, &used).unwrap(), (ControlPickSource::Cached, 0));
    assert_eq!(pick_cached_or_rescan_control(&stale, &fresh, &pinned, &used).unwrap(), (ControlPickSource::Rescanned, 1));
    assert!(matches!(pick_cached_or_rescan_control(&stale, &stale, &pinned, &used), Err(Error::NoControlCombo)));
}

#[test]
fn commits_never_place_anyone_twice() {
    let mut a = BaseAssignment::new();
    let mut used = NameSet::new();
    commit_operators_to_room(&mut a, &rid("trade_1"), &strings(&["A", "B", "C"]), |_| 2, &mut used, "trade").unwrap();
    commit_operators_to_room(&mut a, &rid("manu_1"), &strings(&["D", "E"]), |_| 2, &mut used, "manufacture").unwrap();
    assert!(commit_operators_to_room(&mut a, &rid("power_1"), &strings(&["F", "F"]), |_| 2, &mut used, "power").is_err());
    assert!(commit_operators_to_room(&mut a, &rid("power_1"), &strings(&["B"]), |_| 2, &mut used, "power").is_err());
    let mut all: Vec<String> = a.rooms.iter().flat_map(|r| r.operators.iter().map(|o| o.name.clone())).collect();
    let n = all.len();
    all.sort();
    all.dedup();
    assert_eq!(all.len(), n);
    assert!(all.iter().all(|x| used.contains(x)));
}

#[test]
fn commit_records_and_rejects_duplicates() {
    let mut a = BaseAssignment::new();
    let mut used = NameSet::new();
    commit_operators_to_room(&mut a, &rid("trade_1"), &strings(&["A", "B"]), |_| 2, &mut used, "trade").unwrap();
    assert!(used.contains("A") && used.contains("B"));
    let names: Vec<String> = a.operators_in(&rid("trade_1")).into_iter().map(|o| o.name).collect();
    assert_eq!(names, strings(&["A", "B"]));
    let err = commit_operators_to_room(&mut a, &rid("manu_1"), &strings(&["C", "A"]), |_| 1, &mut used, "manufacture")
        .unwrap_err();
    match err {
        Error::Duplicate { facility, name } => {
            assert_eq!(facility, "manufacture");
            assert_eq!(name, "A");
        }
        other => panic!("unexpected {:?}", other),
    }
    assert!(used.contains("C"));
    assert!(a.room_is_empty(&rid("manu_1")));
}

#[test]
fn anchors_and_control_pins_are_not_recorded_twice() {
    let mut a = BaseAssignment::new();
    let mut used = NameSet::new();
    used.insert("K".to_string());
    commit_anchor_room(&mut a, &rid("trade_1"), &strings(&["K", "L", "M"]), |_| 0, &mut used, &strings(&["K"]), "trade")
        .unwrap();
    assert_eq!(a.room_len(&rid("trade_1")), 3);
    let mut pins = NameSet::new();
    pins.insert("K".to_string());
    let r = commit_control_combo(&mut a, &rid("control"), &strings(&["K", "L"]), |_| 2, &mut used, &pins);
    match r {
        Err(Error::Duplicate { facility, name }) => {
            assert_eq!(facility, "control");
            assert_eq!(name, "L");
        }
        other => panic!("unexpected {:?}", other),
    }
}
