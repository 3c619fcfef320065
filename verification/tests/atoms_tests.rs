use infra_core::atoms::{atom_order, phase_boundary};
use infra_core::types::Phase;

#[test]
fn atoms_run_by_phase_then_order_stably() {
    let keys = vec![
        (Phase::Mood, 0),
        (Phase::Constant, 2),
        (Phase::Limit, 0),
        (Phase::Constant, 1),
        (Phase::Constant, 2),
        (Phase::StateWrite, 5),
    ];
    assert_eq!(atom_order(&keys), vec![5, 3, 1, 4, 2, 0]);
    assert!(atom_order(&Vec::new()).is_empty());
}

#[test]
fn phase_boundaries_trigger_gold_flow_and_limit() {
    let limit = Phase::Limit.sort_key();
    let absorb = Phase::PeerAbsorb.sort_key();
    assert_eq!(phase_boundary(limit, Phase::OrderVar.sort_key(), false), (false, true));
    assert_eq!(phase_boundary(Phase::OrderVar.sort_key(), Phase::EffVar.sort_key(), false), (false, false));
    assert_eq!(phase_boundary(Phase::EffVar.sort_key(), absorb, false), (true, false));
    assert_eq!(phase_boundary(Phase::EffVar.sort_key(), absorb, true), (false, false));
    assert_eq!(phase_boundary(Phase::Constant.sort_key(), Phase::Mood.sort_key(), false), (true, true));
}

use infra_core::conditions::{condition_verdict, ConditionVerdict};
use infra_core::trade::{OrderAction, OrderState, TradeLayoutContext, TradeOperator};
use infra_core::types::Condition;

#[test]
fn skill_conditions_in_a_room() {
    let mut order = OrderState::new();
    order.apply(&OrderAction::TagOrder { tag: "breach".to_string() });
    let mut tagged = TradeOperator::new("焰狐龙梓兰", 2, Vec::new());
    tagged.tags.push("cc.g.snhunt".to_string());
    let ops = vec![tagged, TradeOperator::new("银灰", 2, Vec::new())];
    let layout = TradeLayoutContext::search_baseline();
    let v = |c: Option<Condition>| condition_verdict(&c, &order, &ops, &layout);
    assert_eq!(v(None), ConditionVerdict::Holds(true));
    assert_eq!(v(Some(Condition::GoldDeliveryBelow { n: 4 })), ConditionVerdict::Holds(true));
    assert_eq!(v(Some(Condition::GoldDeliveryAbove { n: 3 })), ConditionVerdict::Holds(false));
    assert_eq!(v(Some(Condition::GoldOrderInvestEligible {})), ConditionVerdict::Holds(false));
    assert_eq!(v(Some(Condition::OrderHasTag { tag: "breach".to_string() })), ConditionVerdict::Holds(true));
    assert_eq!(v(Some(Condition::OrderNotHasTag { tag: "breach".to_string() })), ConditionVerdict::Holds(false));
    assert_eq!(v(Some(Condition::MoodAbove { n: 12 })), ConditionVerdict::MoodAbove(12));
    assert_eq!(v(Some(Condition::MoodBelowOrEq { n: 8 })), ConditionVerdict::MoodAtMost(8));
    assert_eq!(v(Some(Condition::PartnerInRoom { name: "银灰".to_string() })), ConditionVerdict::Holds(true));
    assert_eq!(v(Some(Condition::TagPresentInRoom { tag: "cc.g.snhunt".to_string() })), ConditionVerdict::Holds(true));
    assert_eq!(v(Some(Condition::OperatorInBase { name: "乌尔比安".to_string() })), ConditionVerdict::Holds(true));
    assert_eq!(v(Some(Condition::OperatorInBase { name: "深巡".to_string() })), ConditionVerdict::Holds(false));
    let mut closure = OrderState::new();
    closure.apply(&OrderAction::ReplaceOrder { order_type: "closure_special".to_string() });
    assert_eq!(
        condition_verdict(&Some(Condition::GoldDeliveryBelow { n: 3 }), &closure, &ops, &layout),
        ConditionVerdict::Holds(true)
    );
}

use infra_core::selectors::{selector_value, SelectorValue, TradeRoomCounts};
use infra_core::types::Selector;

#[test]
fn selectors_read_room_counts() {
    let room = TradeRoomCounts {
        facility_level: 3,
        facility_base_limit: 10,
        final_order_limit: 14,
        order_count: 9,
        limit_contribs: vec![2, -1, 3],
    };
    let mut tagged = TradeOperator::new("可露希尔", 2, Vec::new());
    tagged.tags.push("cc.tag.x".to_string());
    let ops = vec![tagged, TradeOperator::new("银灰", 2, Vec::new()), TradeOperator::new("可萝尔", 0, Vec::new())];
    let order = OrderState::new();
    let layout = TradeLayoutContext::search_baseline();
    let read = |s: Option<Selector>, owner: &str| selector_value(&s, &room, &ops, owner, &order, &layout);
    assert_eq!(read(None, "银灰"), SelectorValue::Int(0));
    assert_eq!(read(Some(Selector::FinalOrderLimit), "银灰"), SelectorValue::Int(14));
    assert_eq!(read(Some(Selector::LimitExcess), "银灰"), SelectorValue::Int(4));
    assert_eq!(read(Some(Selector::OrderGap), "银灰"), SelectorValue::Int(5));
    assert_eq!(read(Some(Selector::FacilityLevel), "银灰"), SelectorValue::Int(3));
    assert_eq!(read(Some(Selector::LimitContribSum), "银灰"), SelectorValue::Int(4));
    assert_eq!(read(Some(Selector::TaggedCountInRoom { tag: "cc.tag.x".to_string() }), "银灰"), SelectorValue::Int(1));
    assert_eq!(read(Some(Selector::RoomPeerCount), "银灰"), SelectorValue::Int(2));
    assert_eq!(read(Some(Selector::RoomPeerCount), "不在场"), SelectorValue::Int(3));
    assert_eq!(read(Some(Selector::DormOccupantCount), "银灰"), SelectorValue::Int(20));
    assert_eq!(read(Some(Selector::GoldDeliveryCount), "银灰"), SelectorValue::Int(3));
    assert_eq!(read(Some(Selector::Mood), "银灰"), SelectorValue::Mood);
    let full = TradeRoomCounts { order_count: 20, final_order_limit: 8, ..room };
    assert_eq!(selector_value(&Some(Selector::OrderGap), &full, &ops, "银灰", &order, &layout), SelectorValue::Int(0));
    assert_eq!(selector_value(&Some(Selector::LimitExcess), &full, &ops, "银灰", &order, &layout), SelectorValue::Int(0));
}

#[test]
fn room_counts_start_at_the_base_limit() {
    let room = TradeRoomCounts::from_room(2, 3, None);
    assert_eq!((room.facility_level, room.facility_base_limit, room.final_order_limit, room.order_count), (2, 9, 9, 9));
    assert_eq!(room.limit_contribs, vec![0, 0, 0]);
    let room = TradeRoomCounts::from_room(1, 0, Some(4));
    assert_eq!((room.facility_base_limit, room.order_count), (6, 4));
    assert!(room.limit_contribs.is_empty());
}
