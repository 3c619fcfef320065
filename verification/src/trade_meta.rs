//! The meta trade line-ups of a peak shift: the law chain, then the witch line,
//! then closure orders, each in the next empty trade room.
use vstd::prelude::*;

use crate::assign::{assignment_has_operator, placed_anywhere, AssignView};
use crate::layout::{ops_in, BaseAssignment, RoomId};
use crate::schedule::ids_view;

verus! {

/// The lead operator of a meta trade line-up.
#[derive(Debug, Clone, Copy, PartialEq, Eq, Structural)]
pub enum MetaLead {
    /// The law chain's lead.
    Docus,
    /// The witch line's lead.
    Witch,
    /// The closure lead.
    Closure,
}

/// The lead tried at each stage: law chain, witch, closure.
pub open spec fn lead_at(stage: int) -> MetaLead {
    if stage == 0 {
        MetaLead::Docus
    } else if stage == 1 {
        MetaLead::Witch
    } else {
        MetaLead::Closure
    }
}

/// The lead's operator name.
pub open spec fn lead_name(l: MetaLead) -> Seq<char> {
    match l {
        MetaLead::Docus => "但书"@,
        MetaLead::Witch => "巫恋"@,
        MetaLead::Closure => "可露希尔"@,
    }
}

/// Position of the first empty room among `ids`, from `from` on.
pub open spec fn first_empty(rooms: AssignView, ids: Seq<Seq<char>>, from: int) -> Option<int>
    decreases ids.len() - from,
{
    if from < 0 || from >= ids.len() {
        None
    } else if ops_in(rooms, ids[from]).len() == 0 {
        Some(from)
    } else {
        first_empty(rooms, ids, from + 1)
    }
}

/// The next meta line-up to search for, from stage `stage` on and with trade
/// rooms from position `cursor` on: a lead already placed is passed over; a
/// lead gets the first empty room; when no room is left the meta stage ends
/// (for the law-chain lead, the witch and closure leads are still tried).
pub open spec fn meta_next_spec(rooms: AssignView, ids: Seq<Seq<char>>, stage: int, cursor: int) -> Option<(MetaLead, int)>
    decreases 3 - stage,
{
    if stage < 0 || stage >= 3 {
        None
    } else if placed_anywhere(rooms, lead_name(lead_at(stage))) {
        meta_next_spec(rooms, ids, stage + 1, cursor)
    } else {
        match first_empty(rooms, ids, cursor) {
            Some(r) => Some((lead_at(stage), r)),
            None => if stage == 0 {
                meta_next_spec(rooms, ids, 1, cursor)
            } else {
                None
            },
        }
    }
}

/// The first empty room among `ids` from `from` on.
fn first_empty_room(ids: &Vec<RoomId>, assignment: &BaseAssignment, from: usize) -> (r: Option<usize>)
    ensures
        match r {
            Some(i) => first_empty(assignment@, ids_view(ids@), from as int) == Some(i as int) && i < ids@.len(),
            None => first_empty(assignment@, ids_view(ids@), from as int) is None,
        },
{
    let mut i: usize = from;
    while i < ids.len()
        invariant
            from <= i,
            first_empty(assignment@, ids_view(ids@), from as int) == first_empty(assignment@, ids_view(ids@), i as int),
        decreases ids@.len() - i,
    {
        assert(ids_view(ids@)[i as int] == ids@[i as int].0@);
        if assignment.room_is_empty(&ids[i]) {
            return Some(i);
        }
        i = i + 1;
    }
    None
}

/// The next meta line-up to search for and the trade room (by position among
/// `trade_ids`) it goes to; none when the meta stage is over. After committing
/// it, the caller continues from the following stage and room (or stops when
/// the black key already holds a trade room).
pub fn next_trade_meta(
    trade_ids: &Vec<RoomId>,
    assignment: &BaseAssignment,
    stage: usize,
    cursor: usize,
) -> (r: Option<(MetaLead, usize)>)
    ensures
        match r {
            Some((l, i)) => meta_next_spec(assignment@, ids_view(trade_ids@), stage as int, cursor as int) == Some(
                (l, i as int),
            ),
            None => meta_next_spec(assignment@, ids_view(trade_ids@), stage as int, cursor as int) is None,
        },
    decreases 3 - stage,
{
    if stage >= 3 {
        return None;
    }
    let (lead, name): (MetaLead, &str) = if stage == 0 {
        (MetaLead::Docus, "但书")
    } else if stage == 1 {
        (MetaLead::Witch, "巫恋")
    } else {
        (MetaLead::Closure, "可露希尔")
    };
    assert(lead == lead_at(stage as int) && name@ == lead_name(lead));
    if assignment_has_operator(assignment, name) {
        return next_trade_meta(trade_ids, assignment, stage + 1, cursor);
    }
    match first_empty_room(trade_ids, assignment, cursor) {
        Some(i) => Some((lead, i)),
        None => {
            if stage == 0 {
                next_trade_meta(trade_ids, assignment, 1, cursor)
            } else {
                None
            }
        },
    }
}

} // verus!
