use infra_core::colocate::blackkey_colocation_candidates;
use infra_core::error::Error;
use infra_core::layout::{AssignedOperator, BaseAssignment, BaseBlueprint, FacilityKind, RoomBlueprint, RoomId};
use infra_core::names::NameSet;
use infra_core::operbox::{OperBox, OwnedOperator};
use infra_core::power::{commit_power_stations, empty_power_rooms};
use infra_core::schedule::{
    assemble_shift, peak_rotation_seed, plan_base_rotation, team_roster, team_shift_specs, BaseShiftRole, TeamLabel,
};
use infra_core::shift::{next_shift_stage, ShiftStage};
use infra_core::system::AssignShiftMode;

fn rid(s: &str) -> RoomId {
    RoomId(s.to_string())
}

fn ops(names: &[&str]) -> Vec<AssignedOperator> {
    names.iter().map(|n| AssignedOperator::new(n, 2)).collect()
}

fn strings(v: &[&str]) -> Vec<String> {
    v.iter().map(|s| s.to_string()).collect()
}

fn room(id: &str, kind: FacilityKind) -> RoomBlueprint {
    RoomBlueprint { id: RoomId(id.to_string()), kind }
}

fn names_in(a: &BaseAssignment, id: &str) -> Vec<String> {
    a.operators_in(&rid(id)).into_iter().map(|o| o.name).collect()
}

fn layout() -> BaseBlueprint {
    BaseBlueprint {
        rooms: vec![
            room("control", FacilityKind::ControlCenter),
            room("trade_1", FacilityKind::TradePost),
            room("trade_2", FacilityKind::TradePost),
            room("manu_1", FacilityKind::Factory),
            room("power_1", FacilityKind::PowerPlant),
            room("power_2", FacilityKind::PowerPlant),
            room("dorm_1", FacilityKind::Dormitory),
        ],
    }
}

#[test]
fn team_shifts_rest_each_team_once() {
    let specs = team_shift_specs();
    assert_eq!(specs.iter().map(|s| s.hours as u32).sum::<u32>(), 24);
    assert_eq!(specs[0].hours, 12);
    assert_eq!(specs[0].active, [TeamLabel::Alpha, TeamLabel::Beta]);
    assert_eq!(specs[0].resting, TeamLabel::Gamma);
    assert_eq!(specs[1].resting, TeamLabel::Alpha);
    assert_eq!(specs[2].resting, TeamLabel::Beta);
    for s in &specs {
        assert!(!s.active.contains(&s.resting));
    }
}

#[test]
fn roster_and_shift_assembly() {
    let mut alpha = BaseAssignment::new();
    alpha.set_room(rid("trade_1"), ops(&["b", "a"]));
    let mut beta = BaseAssignment::new();
    beta.set_room(rid("trade_2"), ops(&["c"]));
    let mut g1 = BaseAssignment::new();
    g1.set_room(rid("trade_1"), ops(&["y", "x"]));
    let mut g2 = BaseAssignment::new();
    g2.set_room(rid("trade_2"), ops(&["x", "z"]));
    let teams = team_roster(&alpha, &beta, &g1, &g2);
    assert_eq!(teams.len(), 3);
    assert_eq!(teams[0].operators, strings(&["a", "b"]));
    assert_eq!(teams[1].operators, strings(&["c"]));
    assert_eq!(teams[2].label, TeamLabel::Gamma);
    assert_eq!(teams[2].operators, strings(&["x", "y", "z"]));

    let mut shared = BaseAssignment::new();
    shared.set_room(rid("control"), ops(&["C"]));
    let s2 = assemble_shift(&shared, &beta, &g1);
    assert_eq!(names_in(&s2, "control"), strings(&["C"]));
    assert_eq!(names_in(&s2, "trade_2"), strings(&["c"]));
    assert_eq!(names_in(&s2, "trade_1"), strings(&["y", "x"]));
}

#[test]
fn aba_rotation_plans_and_overlap() {
    let bp = layout();
    let mut peak = BaseAssignment::new();
    peak.set_room(rid("control"), ops(&["C"]));
    peak.set_room(rid("trade_1"), ops(&["t2", "t1"]));
    peak.set_room(rid("dorm_1"), ops(&["D"]));
    let (rot, pinned) = peak_rotation_seed(&peak, &bp).unwrap();
    assert!(rot.contains("t1") && rot.contains("t2") && !rot.contains("C"));
    assert_eq!(pinned.rooms.len(), 2);
    assert!(pinned.room_is_empty(&rid("trade_1")));

    let mut recovery = pinned;
    recovery.set_room(rid("trade_1"), ops(&["r1"]));
    let plans = plan_base_rotation(&bp, &peak, &recovery).unwrap();
    assert_eq!(plans.len(), 3);
    assert_eq!(plans[0].role, BaseShiftRole::Peak);
    assert_eq!(plans[1].role, BaseShiftRole::Recovery);
    assert_eq!(plans[2].reused_from_shift, Some(0));
    assert_eq!(plans[0].rotating_workers, strings(&["t1", "t2"]));
    assert_eq!(plans[1].rotating_workers, strings(&["r1"]));
    assert_eq!(plans[2].rotating_workers, plans[0].rotating_workers);

    let mut clash = BaseAssignment::new();
    clash.set_room(rid("manu_1"), ops(&["t1"]));
    match plan_base_rotation(&bp, &peak, &clash) {
        Err(Error::ShiftOverlap { overlap, .. }) => assert_eq!(overlap, strings(&["t1"])),
        _ => panic!("expected an overlap"),
    }

    let mut idle = BaseAssignment::new();
    idle.set_room(rid("control"), ops(&["C"]));
    assert!(matches!(peak_rotation_seed(&idle, &bp), Err(Error::NoPeakRotation)));
}

#[test]
fn recovery_box_excludes_peak_rotation() {
    let ob = OperBox {
        operators: vec![
            OwnedOperator { name: "a".to_string(), elite: 2 },
            OwnedOperator { name: "b".to_string(), elite: 1 },
            OwnedOperator { name: "c".to_string(), elite: 0 },
        ],
    };
    let mut ex = NameSet::new();
    ex.insert("b".to_string());
    let rest = ob.excluding(&ex);
    let names: Vec<&str> = rest.operators.iter().map(|o| o.name.as_str()).collect();
    assert_eq!(names, vec!["a", "c"]);
    assert_eq!(rest.elite_of("c"), Some(0));
    assert_eq!(rest.elite_of("b"), None);
}

#[test]
fn blackkey_candidates_move_three_operators() {
    let bp = layout();
    let mut a = BaseAssignment::new();
    a.set_room(rid("trade_1"), ops(&["黑键", "p", "q"]));
    a.set_room(rid("trade_2"), ops(&["但书", "r", "s"]));
    let plan = blackkey_colocation_candidates(&bp, &a).expect("plan");
    assert_eq!(plan.blackkey_room.0, "trade_1");
    assert_eq!(plan.meta_room.0, "trade_2");
    assert_eq!(plan.candidates.len(), 4);
    let first = &plan.candidates[0];
    assert_eq!(names_in(first, "trade_2"), strings(&["但书", "黑键", "p"]));
    assert_eq!(names_in(first, "trade_1"), strings(&["q", "r", "s"]));
    let last = &plan.candidates[3];
    assert_eq!(names_in(last, "trade_2"), strings(&["但书", "黑键", "s"]));
    assert_eq!(names_in(last, "trade_1"), strings(&["p", "q", "r"]));

    let mut with_witch = BaseAssignment::new();
    with_witch.set_room(rid("trade_1"), ops(&["黑键", "p", "q"]));
    with_witch.set_room(rid("trade_2"), ops(&["但书", "巫恋", "s"]));
    assert!(blackkey_colocation_candidates(&bp, &with_witch).is_none());

    let mut closure = BaseAssignment::new();
    closure.set_room(rid("trade_1"), ops(&["可露希尔", "x", "y"]));
    closure.set_room(rid("trade_2"), ops(&["黑键", "p", "q"]));
    let plan = blackkey_colocation_candidates(&bp, &closure).expect("closure plan");
    assert_eq!(plan.meta_room.0, "trade_1");

    let mut not_full = BaseAssignment::new();
    not_full.set_room(rid("trade_1"), ops(&["黑键", "p"]));
    not_full.set_room(rid("trade_2"), ops(&["但书", "r", "s"]));
    assert!(blackkey_colocation_candidates(&bp, &not_full).is_none());
}

#[test]
fn power_stations_fill_empty_plants() {
    let bp = layout();
    let mut a = BaseAssignment::new();
    a.set_room(rid("power_1"), ops(&["P"]));
    let wanted = vec![rid("power_1"), rid("power_2"), rid("trade_1"), rid("nowhere")];
    let empty = empty_power_rooms(&bp, &wanted, &a);
    assert_eq!(empty.iter().map(|r| r.0.clone()).collect::<Vec<_>>(), strings(&["power_2"]));

    let mut used = NameSet::new();
    used.insert("P".to_string());
    let stations = vec![("Q".to_string(), 1u8)];
    commit_power_stations(&mut a, &empty, &stations, &mut used).unwrap();
    assert_eq!(names_in(&a, "power_2"), strings(&["Q"]));
    assert!(used.contains("Q"));

    let too_many = vec![("R".to_string(), 0u8), ("S".to_string(), 0u8)];
    match commit_power_stations(&mut a, &empty, &too_many, &mut used) {
        Err(Error::PowerStationCount { expected, got }) => {
            assert_eq!(expected, 1);
            assert_eq!(got, 2);
        }
        _ => panic!("expected a count error"),
    }

    let rooms = vec![rid("power_x"), rid("power_y")];
    let dup = vec![("T".to_string(), 0u8), ("P".to_string(), 0u8)];
    match commit_power_stations(&mut a, &rooms, &dup, &mut used) {
        Err(Error::Duplicate { facility, name }) => {
            assert_eq!(facility, "power");
            assert_eq!(name, "P");
        }
        _ => panic!("expected a duplicate"),
    }
    assert_eq!(names_in(&a, "power_x"), strings(&["T"]));
}

#[test]
fn shift_stages_follow_the_mode() {
    let mut peak = Vec::new();
    let mut done = None;
    while let Some(s) = next_shift_stage(AssignShiftMode::Peak, done, 2) {
        peak.push(s);
        done = Some(s);
    }
    assert_eq!(peak.first(), Some(&ShiftStage::ClaimSystems));
    assert_eq!(peak[1], ShiftStage::Control);
    assert_eq!(peak.last(), Some(&ShiftStage::ColocateBlackkey));
    assert_eq!(peak.len(), 10);
    assert_eq!(next_shift_stage(AssignShiftMode::Peak, Some(ShiftStage::ClaimSystems), 5), Some(ShiftStage::DormProducers));
    let mut rec = Vec::new();
    let mut done = None;
    while let Some(s) = next_shift_stage(AssignShiftMode::Recovery, done, 0) {
        rec.push(s);
        done = Some(s);
    }
    assert_eq!(rec, vec![ShiftStage::TradeJieRemainder, ShiftStage::Manufacture, ShiftStage::PowerStations]);
}
