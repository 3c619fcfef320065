//! When a skill's condition holds in a trade room. Conditions on the room's
//! mood are handed back as the threshold to compare against, since mood is a
//! fractional quantity.
use vstd::prelude::*;

use crate::instances::vec_has;
use crate::names::views;
use crate::trade::{is_closure, OrderState, TradeLayoutContext, TradeOperator};
use crate::types::Condition;

verus! {

/// Whether a condition holds, or which mood comparison decides it.
#[derive(Debug, Clone, Copy, PartialEq, Eq, Structural)]
pub enum ConditionVerdict {
    /// The condition holds (`true`) or not (`false`).
    Holds(bool),
    /// It holds when the room's mood is above this value.
    MoodAbove(u8),
    /// It holds when the room's mood is at most this value.
    MoodAtMost(u8),
}

/// Gold an order delivers: 2 under closure special orders, else 3.
pub open spec fn delivery_of(replace_order: Option<String>) -> int {
    if is_closure(replace_order) {
        2
    } else {
        3
    }
}

/// Some operator of the room carries `tag`.
pub open spec fn tag_in_room(ops: Seq<TradeOperator>, tag: Seq<char>) -> bool {
    exists|i: int| 0 <= i < ops.len() && views((#[trigger] ops[i]).tags@).contains(tag)
}

/// Some operator of the room is named `name`.
pub open spec fn name_in_room(ops: Seq<TradeOperator>, name: Seq<char>) -> bool {
    exists|i: int| 0 <= i < ops.len() && (#[trigger] ops[i]).name@ == name
}

/// The verdict of a skill condition in a room.
pub open spec fn verdict_spec(
    cond: Option<Condition>,
    order: OrderState,
    ops: Seq<TradeOperator>,
    layout: TradeLayoutContext,
) -> ConditionVerdict {
    match cond {
        None => ConditionVerdict::Holds(true),
        Some(c) => match c {
            Condition::GoldDeliveryBelow { n } => ConditionVerdict::Holds(delivery_of(order.replace_order) < n),
            Condition::GoldDeliveryAbove { n } => ConditionVerdict::Holds(delivery_of(order.replace_order) > n),
            Condition::GoldOrderInvestEligible {  } => ConditionVerdict::Holds(
                delivery_of(order.replace_order) > 3 && !views(order.order_tags@).contains("breach"@),
            ),
            Condition::OrderHasTag { tag } => ConditionVerdict::Holds(views(order.order_tags@).contains(tag@)),
            Condition::OrderNotHasTag { tag } => ConditionVerdict::Holds(!views(order.order_tags@).contains(tag@)),
            Condition::MoodAbove { n } => ConditionVerdict::MoodAbove(n),
            Condition::MoodBelowOrEq { n } => ConditionVerdict::MoodAtMost(n),
            Condition::PartnerInRoom { name } => ConditionVerdict::Holds(name_in_room(ops, name@)),
            Condition::TagPresentInRoom { tag } => ConditionVerdict::Holds(tag_in_room(ops, tag@)),
            Condition::OperatorInBase { name } => ConditionVerdict::Holds(
                views(layout.base_workforce@).contains(name@),
            ),
        },
    }
}

/// An order delivers at most three gold without a breach, so the
/// gold-investment condition (more than three gold, no breach) never holds,
/// "more than n gold" never holds for n of three or more, "fewer than n gold"
/// always holds for n above three, and "more than n" and "fewer than n" never
/// hold together.
pub proof fn lemma_delivery_conditions(
    order: OrderState,
    ops: Seq<TradeOperator>,
    layout: TradeLayoutContext,
    n: u8,
)
    ensures
        verdict_spec(Some(Condition::GoldOrderInvestEligible {  }), order, ops, layout) == ConditionVerdict::Holds(
            false,
        ),
        n >= 3 ==> verdict_spec(Some(Condition::GoldDeliveryAbove { n }), order, ops, layout) == ConditionVerdict::Holds(
            false,
        ),
        n > 3 ==> verdict_spec(Some(Condition::GoldDeliveryBelow { n }), order, ops, layout) == ConditionVerdict::Holds(
            true,
        ),
        !(verdict_spec(Some(Condition::GoldDeliveryAbove { n }), order, ops, layout) == ConditionVerdict::Holds(true)
            && verdict_spec(Some(Condition::GoldDeliveryBelow { n }), order, ops, layout) == ConditionVerdict::Holds(
            true,
        )),
{
}

/// "The order has tag t" holds exactly when the order carries t, and "the
/// order lacks tag t" always gives the opposite verdict; mood conditions hand
/// back their own threshold; no condition at all always holds.
pub proof fn lemma_tag_and_mood_conditions(
    order: OrderState,
    ops: Seq<TradeOperator>,
    layout: TradeLayoutContext,
    tag: String,
    n: u8,
)
    ensures
        verdict_spec(Some(Condition::OrderHasTag { tag }), order, ops, layout) == ConditionVerdict::Holds(
            views(order.order_tags@).contains(tag@),
        ),
        verdict_spec(Some(Condition::OrderNotHasTag { tag }), order, ops, layout) == ConditionVerdict::Holds(
            !views(order.order_tags@).contains(tag@),
        ),
        verdict_spec(Some(Condition::MoodAbove { n }), order, ops, layout) == ConditionVerdict::MoodAbove(n),
        verdict_spec(Some(Condition::MoodBelowOrEq { n }), order, ops, layout) == ConditionVerdict::MoodAtMost(n),
        verdict_spec(None, order, ops, layout) == ConditionVerdict::Holds(true),
{
}

fn any_name(ops: &Vec<TradeOperator>, name: &str) -> (r: bool)
    ensures
        r == name_in_room(ops@, name@),
{
    let mut i: usize = 0;
    while i < ops.len()
        invariant
            0 <= i <= ops@.len(),
            forall|j: int| 0 <= j < i ==> (#[trigger] ops@[j]).name@ != name@,
        decreases ops@.len() - i,
    {
        if crate::text::str_eq(ops[i].name.as_str(), name) {
            return true;
        }
        i = i + 1;
    }
    false
}

fn any_tag(ops: &Vec<TradeOperator>, tag: &str) -> (r: bool)
    ensures
        r == tag_in_room(ops@, tag@),
{
    let mut i: usize = 0;
    while i < ops.len()
        invariant
            0 <= i <= ops@.len(),
            forall|j: int| 0 <= j < i ==> !views((#[trigger] ops@[j]).tags@).contains(tag@),
        decreases ops@.len() - i,
    {
        if ops[i].has_tag(tag) {
            return true;
        }
        i = i + 1;
    }
    false
}

/// The verdict of a skill's condition in a room with these order state,
/// operators and base layout.
pub fn condition_verdict(
    cond: &Option<Condition>,
    order: &OrderState,
    ops: &Vec<TradeOperator>,
    layout: &TradeLayoutContext,
) -> (r: ConditionVerdict)
    ensures
        r == verdict_spec(*cond, *order, ops@, *layout),
{
    let delivery: u8 = crate::trade::default_gold_delivery(&order.replace_order);
    match cond {
        None => ConditionVerdict::Holds(true),
        Some(c) => match c {
            Condition::GoldDeliveryBelow { n } => ConditionVerdict::Holds(delivery < *n),
            Condition::GoldDeliveryAbove { n } => ConditionVerdict::Holds(delivery > *n),
            Condition::GoldOrderInvestEligible {  } => ConditionVerdict::Holds(
                delivery > 3 && !vec_has(&order.order_tags, "breach"),
            ),
            Condition::OrderHasTag { tag } => ConditionVerdict::Holds(vec_has(&order.order_tags, tag.as_str())),
            Condition::OrderNotHasTag { tag } => ConditionVerdict::Holds(!vec_has(&order.order_tags, tag.as_str())),
            Condition::MoodAbove { n } => ConditionVerdict::MoodAbove(*n),
            Condition::MoodBelowOrEq { n } => ConditionVerdict::MoodAtMost(*n),
            Condition::PartnerInRoom { name } => ConditionVerdict::Holds(any_name(ops, name.as_str())),
            Condition::TagPresentInRoom { tag } => ConditionVerdict::Holds(any_tag(ops, tag.as_str())),
            Condition::OperatorInBase { name } => ConditionVerdict::Holds(vec_has(&layout.base_workforce, name.as_str())),
        },
    }
}

} // verus!
