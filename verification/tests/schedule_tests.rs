use infra_core::error::Error;
use infra_core::layout::{AssignedOperator, BaseAssignment, BaseBlueprint, FacilityKind, RoomBlueprint, RoomId};
use infra_core::names::NameSet;
use infra_core::schedule::{
    assert_disjoint, merge_rooms, operator_team_map, operators_of, production_half_from_peak,
    split_production_facilities, workers_sorted, BaseShiftRole, TeamAssignment, TeamLabel,
};

fn rid(s: &str) -> RoomId {
    RoomId(s.to_string())
}

fn ops(names: &[&str]) -> Vec<AssignedOperator> {
    names.iter().map(|n| AssignedOperator::new(n, 2)).collect()
}

fn strings(v: &[&str]) -> Vec<String> {
    v.iter().map(|s| s.to_string()).collect()
}

fn set(v: &[&str]) -> NameSet {
    let mut s = NameSet::new();
    for n in v {
        s.insert(n.to_string());
    }
    s
}

fn ids(v: &[RoomId]) -> Vec<String> {
    v.iter().map(|r| r.0.clone()).collect()
}

#[test]
fn workers_come_sorted_once() {
    let s = set(&["b", "a", "c", "ab", "能天使"]);
    assert_eq!(workers_sorted(&s), strings(&["a", "ab", "b", "c", "能天使"]));
    assert!(workers_sorted(&NameSet::new()).is_empty());
}

#[test]
fn operators_of_sorts_and_dedups() {
    let mut a = BaseAssignment::new();
    a.set_room(rid("trade_1"), ops(&["Texas", "Exusiai"]));
    a.set_room(rid("manu_1"), ops(&["Texas", "Amiya"]));
    assert_eq!(operators_of(&a), strings(&["Amiya", "Exusiai", "Texas"]));
}

#[test]
fn disjoint_shifts_pass_and_overlap_is_reported() {
    assert!(assert_disjoint(&set(&["a", "b"]), &set(&["c"]), "peak/recovery").is_ok());
    match assert_disjoint(&set(&["a", "b", "c"]), &set(&["c", "a", "z"]), "peak/recovery") {
        Err(Error::ShiftOverlap { label, overlap }) => {
            assert_eq!(label, "peak/recovery");
            let mut o = overlap.clone();
            o.sort();
            assert_eq!(o, strings(&["a", "c"]));
        }
        other => panic!("unexpected {:?}", other),
    }
}

fn room(id: &str, kind: FacilityKind) -> RoomBlueprint {
    RoomBlueprint { id: RoomId(id.to_string()), kind }
}

#[test]
fn production_rooms_alternate_between_halves() {
    let bp = BaseBlueprint {
        rooms: vec![
            room("control", FacilityKind::ControlCenter),
            room("trade_1", FacilityKind::TradePost),
            room("manu_1", FacilityKind::Factory),
            room("trade_2", FacilityKind::TradePost),
            room("manu_2", FacilityKind::Factory),
            room("manu_3", FacilityKind::Factory),
            room("power_1", FacilityKind::PowerPlant),
        ],
    };
    let [h1, h2] = split_production_facilities(&bp);
    assert_eq!(ids(&h1.trade), strings(&["trade_1"]));
    assert_eq!(ids(&h2.trade), strings(&["trade_2"]));
    assert_eq!(ids(&h1.manu), strings(&["manu_1", "manu_3"]));
    assert_eq!(ids(&h2.manu), strings(&["manu_2"]));
    assert_eq!(ids(&h1.power), strings(&["power_1"]));
    assert!(h2.power.is_empty());

    let mut peak = BaseAssignment::new();
    peak.set_room(rid("control"), ops(&["C"]));
    peak.set_room(rid("trade_1"), ops(&["T1"]));
    peak.set_room(rid("manu_3"), ops(&["M3"]));
    let half = production_half_from_peak(&peak, &h1);
    assert_eq!(half.rooms.len(), 2);
    assert_eq!(half.operators_in(&rid("trade_1")).len(), 1);
    assert_eq!(half.operators_in(&rid("manu_3"))[0].name, "M3");
    assert!(half.room_is_empty(&rid("control")));
}

#[test]
fn merged_rooms_replace_target_rooms() {
    let mut target = BaseAssignment::new();
    target.set_room(rid("control"), ops(&["C"]));
    target.set_room(rid("trade_1"), ops(&["Old"]));
    let mut source = BaseAssignment::new();
    source.set_room(rid("trade_1"), ops(&["New"]));
    source.set_room(rid("manu_1"), ops(&["M"]));
    merge_rooms(&mut target, &source);
    assert_eq!(target.operators_in(&rid("trade_1"))[0].name, "New");
    assert_eq!(target.operators_in(&rid("manu_1"))[0].name, "M");
    assert_eq!(target.operators_in(&rid("control"))[0].name, "C");
}

#[test]
fn team_map_takes_first_team() {
    let teams = vec![
        TeamAssignment { label: TeamLabel::Alpha, operators: strings(&["a", "x"]) },
        TeamAssignment { label: TeamLabel::Beta, operators: strings(&["b", "x"]) },
        TeamAssignment { label: TeamLabel::Gamma, operators: strings(&["g", "a", "g"]) },
    ];
    let map = operator_team_map(&teams);
    assert_eq!(map.len(), 4);
    let label = |n: &str| map.iter().find(|(k, _)| k == n).map(|(_, l)| *l);
    assert_eq!(label("a"), Some(TeamLabel::Alpha));
    assert_eq!(label("x"), Some(TeamLabel::Alpha));
    assert_eq!(label("b"), Some(TeamLabel::Beta));
    assert_eq!(label("g"), Some(TeamLabel::Gamma));
    assert_eq!(label("q"), None);
    assert_eq!(TeamLabel::all(), [TeamLabel::Alpha, TeamLabel::Beta, TeamLabel::Gamma]);
    assert_ne!(BaseShiftRole::Peak, BaseShiftRole::Recovery);
}
