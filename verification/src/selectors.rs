//! The values a skill's selector reads in a trade room. Selectors on the
//! room's efficiency or mood read fractional quantities; they are handed back
//! by kind.
use vstd::prelude::*;

use crate::names::views;
use crate::trade::{base_limit_of, facility_base_limit, is_closure, sum_prefix, sums_fit, OrderState, TradeLayoutContext, TradeOperator};
use crate::types::Selector;

verus! {

/// The integer state of a trade room that selectors read.
pub struct TradeRoomCounts {
    pub facility_level: u8,
    pub facility_base_limit: i32,
    pub final_order_limit: i32,
    pub order_count: i32,
    /// Each operator's contribution to the order limit.
    pub limit_contribs: Vec<i32>,
}

impl TradeRoomCounts {
    /// A room of the given level as it stands before any skill acts: the
    /// order limit is the facility's base limit, each of the `n_operators`
    /// contributes nothing to it, and the order count is `order_count`, or
    /// the base limit when none is given.
    pub fn from_room(level: u8, n_operators: usize, order_count: Option<i32>) -> (r: Self)
        ensures
            r.facility_level == level,
            r.facility_base_limit == base_limit_of(level),
            r.final_order_limit == base_limit_of(level),
            r.order_count == (match order_count {
                Some(c) => c,
                None => base_limit_of(level),
            }),
            r.limit_contribs@ == Seq::new(n_operators as nat, |_i: int| 0i32),
    {
        let base = facility_base_limit(level);
        let mut limit_contribs: Vec<i32> = Vec::new();
        let mut i: usize = 0;
        while i < n_operators
            invariant
                i <= n_operators,
                limit_contribs@ == Seq::new(i as nat, |_i: int| 0i32),
            decreases n_operators - i,
        {
            limit_contribs.push(0);
            i = i + 1;
        }
        let order_count = match order_count {
            Some(c) => c,
            None => base,
        };
        TradeRoomCounts {
            facility_level: level,
            facility_base_limit: base,
            final_order_limit: base,
            order_count,
            limit_contribs,
        }
    }
}

/// A selector's value: a whole number, or the fractional quantity it reads.
#[derive(Debug, Clone, Copy, PartialEq, Eq, Structural)]
pub enum SelectorValue {
    Int(i64),
    /// The direct efficiency of the other operators.
    OtherOpsDirectEff,
    /// The whole efficiency of the other operators.
    OtherOpsTotalEff,
    /// The room's mood.
    Mood,
}

/// Operators of `ops[0..n]` carrying `tag`.
pub open spec fn count_tagged(ops: Seq<TradeOperator>, tag: Seq<char>, n: int) -> int
    decreases n,
{
    if n <= 0 {
        0
    } else {
        count_tagged(ops, tag, n - 1) + if views(ops[n - 1].tags@).contains(tag) {
            1int
        } else {
            0int
        }
    }
}

/// Operators of `ops[0..n]` not named `owner`.
pub open spec fn count_peers(ops: Seq<TradeOperator>, owner: Seq<char>, n: int) -> int
    decreases n,
{
    if n <= 0 {
        0
    } else {
        count_peers(ops, owner, n - 1) + if ops[n - 1].name@ != owner {
            1int
        } else {
            0int
        }
    }
}

proof fn lemma_counts_bounded(ops: Seq<TradeOperator>, tag: Seq<char>, owner: Seq<char>, n: int)
    requires
        0 <= n,
    ensures
        0 <= count_tagged(ops, tag, n) <= n,
        0 <= count_peers(ops, owner, n) <= n,
    decreases n,
{
    if n > 0 {
        lemma_counts_bounded(ops, tag, owner, n - 1);
    }
}

/// `x` when positive, else 0.
pub open spec fn pos(x: int) -> int {
    if x > 0 {
        x
    } else {
        0
    }
}

/// What selector `sel` reads for the operator `owner`.
pub open spec fn selector_spec(
    sel: Option<Selector>,
    room: TradeRoomCounts,
    ops: Seq<TradeOperator>,
    owner: Seq<char>,
    order: OrderState,
    layout: TradeLayoutContext,
) -> SelectorValue {
    match sel {
        None => SelectorValue::Int(0),
        Some(s) => match s {
            Selector::FinalOrderLimit => SelectorValue::Int(room.final_order_limit as i64),
            Selector::LimitExcess => SelectorValue::Int(pos(room.final_order_limit - room.facility_base_limit) as i64),
            Selector::FacilityLevel => SelectorValue::Int(room.facility_level as i64),
            Selector::TaggedCountInRoom { tag } => SelectorValue::Int(count_tagged(ops, tag@, ops.len() as int) as i64),
            Selector::LimitContribSum => SelectorValue::Int(
                sum_prefix(room.limit_contribs@, room.limit_contribs@.len() as int) as i64,
            ),
            Selector::MeetingMaxLevel => SelectorValue::Int(layout.meeting_max_level as i64),
            Selector::DormLevelSum => SelectorValue::Int(layout.dorm_level_sum as i64),
            Selector::ManuRecipeKinds => SelectorValue::Int(layout.manu_recipe_kinds as i64),
            Selector::EliteFacilityCount => SelectorValue::Int(layout.elite_facility_count as i64),
            Selector::SuiFacilityCount => SelectorValue::Int(layout.sui_facility_count as i64),
            Selector::DormOccupantCount => SelectorValue::Int(layout.dorm_occupant_count as i64),
            Selector::OrderGap => SelectorValue::Int(pos(room.final_order_limit - room.order_count) as i64),
            Selector::OtherOpsDirectEff => SelectorValue::OtherOpsDirectEff,
            Selector::OtherOpsTotalEff => SelectorValue::OtherOpsTotalEff,
            Selector::RoomPeerCount => SelectorValue::Int(count_peers(ops, owner, ops.len() as int) as i64),
            Selector::Mood => SelectorValue::Mood,
            Selector::GoldDeliveryCount => SelectorValue::Int(
                if is_closure(order.replace_order) {
                    2
                } else {
                    3
                },
            ),
        },
    }
}

fn tagged_count(ops: &Vec<TradeOperator>, tag: &str) -> (r: usize)
    ensures
        r == count_tagged(ops@, tag@, ops@.len() as int),
{
    let mut c: usize = 0;
    let mut i: usize = 0;
    while i < ops.len()
        invariant
            0 <= i <= ops@.len(),
            c == count_tagged(ops@, tag@, i as int),
        decreases ops@.len() - i,
    {
        proof {
            lemma_counts_bounded(ops@, tag@, Seq::empty(), i as int);
        }
        if ops[i].has_tag(tag) {
            c = c + 1;
        }
        i = i + 1;
    }
    c
}

fn peer_count(ops: &Vec<TradeOperator>, owner: &str) -> (r: usize)
    ensures
        r == count_peers(ops@, owner@, ops@.len() as int),
{
    let mut c: usize = 0;
    let mut i: usize = 0;
    while i < ops.len()
        invariant
            0 <= i <= ops@.len(),
            c == count_peers(ops@, owner@, i as int),
        decreases ops@.len() - i,
    {
        proof {
            lemma_counts_bounded(ops@, Seq::empty(), owner@, i as int);
        }
        if !crate::text::str_eq(ops[i].name.as_str(), owner) {
            c = c + 1;
        }
        i = i + 1;
    }
    c
}

/// The value selector `sel` reads for the operator `owner` in this room.
pub fn selector_value(
    sel: &Option<Selector>,
    room: &TradeRoomCounts,
    ops: &Vec<TradeOperator>,
    owner: &str,
    order: &OrderState,
    layout: &TradeLayoutContext,
) -> (r: SelectorValue)
    requires
        sums_fit(room.limit_contribs@),
    ensures
        r == selector_spec(*sel, *room, ops@, owner@, *order, *layout),
{
    match sel {
        None => SelectorValue::Int(0),
        Some(s) => match s {
            Selector::FinalOrderLimit => SelectorValue::Int(room.final_order_limit as i64),
            Selector::LimitExcess => {
                let d: i64 = room.final_order_limit as i64 - room.facility_base_limit as i64;
                SelectorValue::Int(
                    if d > 0 {
                        d
                    } else {
                        0
                    },
                )
            },
            Selector::FacilityLevel => SelectorValue::Int(room.facility_level as i64),
            Selector::TaggedCountInRoom { tag } => SelectorValue::Int(tagged_count(ops, tag.as_str()) as i64),
            Selector::LimitContribSum => {
                let (gross, _) = crate::trade::recompute_limit(0, &room.limit_contribs, 0);
                SelectorValue::Int(gross as i64)
            },
            Selector::MeetingMaxLevel => SelectorValue::Int(layout.meeting_max_level as i64),
            Selector::DormLevelSum => SelectorValue::Int(layout.dorm_level_sum as i64),
            Selector::ManuRecipeKinds => SelectorValue::Int(layout.manu_recipe_kinds as i64),
            Selector::EliteFacilityCount => SelectorValue::Int(layout.elite_facility_count as i64),
            Selector::SuiFacilityCount => SelectorValue::Int(layout.sui_facility_count as i64),
            Selector::DormOccupantCount => SelectorValue::Int(layout.dorm_occupant_count as i64),
            Selector::OrderGap => {
                let d: i64 = room.final_order_limit as i64 - room.order_count as i64;
                SelectorValue::Int(
                    if d > 0 {
                        d
                    } else {
                        0
                    },
                )
            },
            Selector::OtherOpsDirectEff => SelectorValue::OtherOpsDirectEff,
            Selector::OtherOpsTotalEff => SelectorValue::OtherOpsTotalEff,
            Selector::RoomPeerCount => SelectorValue::Int(peer_count(ops, owner) as i64),
            Selector::Mood => SelectorValue::Mood,
            Selector::GoldDeliveryCount => SelectorValue::Int(
                crate::trade::default_gold_delivery(&order.replace_order) as i64,
            ),
        },
    }
}

} // verus!
