//! Power stations: which of a set of rooms still need an operator, and placing
//! the operators a search found, one per station.
use vstd::prelude::*;

use crate::error::Error;
use crate::layout::{bp_index, ops_in, ops_view, with_room, AssignedOperator, BaseAssignment, BaseBlueprint, FacilityKind, RoomId};
use crate::names::NameSet;
use crate::schedule::ids_view;

verus! {

/// Room `id` is a power plant of the layout and holds nobody yet.
pub open spec fn empty_power_room(layout: Seq<crate::layout::RoomBlueprint>, rooms: crate::assign::AssignView, id: Seq<char>) -> bool {
    &&& bp_index(layout, id, 0) matches Some(i) && layout[i].kind == FacilityKind::PowerPlant
    &&& ops_in(rooms, id).len() == 0
}

/// The given rooms that are empty power plants, in the given order.
pub fn empty_power_rooms(blueprint: &BaseBlueprint, rooms: &Vec<RoomId>, assignment: &BaseAssignment) -> (r: Vec<RoomId>)
    ensures
        ids_view(r@) == ids_view(rooms@).filter(|id: Seq<char>| empty_power_room(blueprint.rooms@, assignment@, id)),
{
    let ghost all = ids_view(rooms@);
    let ghost keep = |id: Seq<char>| empty_power_room(blueprint.rooms@, assignment@, id);
    let mut r: Vec<RoomId> = Vec::new();
    let mut i: usize = 0;
    assert(ids_view(r@) =~= all.subrange(0, 0).filter(keep));
    while i < rooms.len()
        invariant
            0 <= i <= rooms@.len(),
            all == ids_view(rooms@),
            keep == (|id: Seq<char>| empty_power_room(blueprint.rooms@, assignment@, id)),
            ids_view(r@) == all.subrange(0, i as int).filter(keep),
        decreases rooms@.len() - i,
    {
        let ghost pre = ids_view(r@);
        let ghost sub = all.subrange(0, i as int);
        let is_power = match blueprint.room(&rooms[i]) {
            Some(room) => room.kind == FacilityKind::PowerPlant,
            None => false,
        };
        if is_power && assignment.room_is_empty(&rooms[i]) {
            r.push(rooms[i].duplicate());
        }
        proof {
            let sub2 = all.subrange(0, i + 1);
            assert(sub2.drop_last() =~= sub);
            assert(sub2.last() == rooms@[i as int].0@);
            reveal(Seq::filter);
            if keep(sub2.last()) {
                assert(ids_view(r@) =~= pre.push(sub2.last()));
            } else {
                assert(ids_view(r@) =~= pre);
            }
        }
        i = i + 1;
    }
    assert(all.subrange(0, all.len() as int) =~= all);
    r
}

/// Placing the first `n` station operators one per room, recording each name;
/// stops at the first operator already used and names it.
pub open spec fn power_commit(
    rooms: crate::assign::AssignView,
    used: Set<Seq<char>>,
    ids: Seq<Seq<char>>,
    stations: Seq<(Seq<char>, u8)>,
    n: int,
) -> (crate::assign::AssignView, Set<Seq<char>>, Option<Seq<char>>)
    decreases n,
{
    if n <= 0 {
        (rooms, used, None)
    } else {
        let prev = power_commit(rooms, used, ids, stations, n - 1);
        let x = stations[n - 1];
        if prev.2 is Some {
            prev
        } else if prev.1.contains(x.0) {
            (prev.0, prev.1, Some(x.0))
        } else {
            (with_room(prev.0, ids[n - 1], seq![x]), prev.1.insert(x.0), None)
        }
    }
}

proof fn lemma_power_commit_failed_stays(
    rooms: crate::assign::AssignView,
    used: Set<Seq<char>>,
    ids: Seq<Seq<char>>,
    stations: Seq<(Seq<char>, u8)>,
    k: int,
    m: int,
)
    requires
        0 <= k <= m,
        power_commit(rooms, used, ids, stations, k).2 is Some,
    ensures
        power_commit(rooms, used, ids, stations, m) == power_commit(rooms, used, ids, stations, k),
    decreases m - k,
{
    if k < m {
        lemma_power_commit_failed_stays(rooms, used, ids, stations, k, m - 1);
    }
}

/// Places the station operators found by the search, one per empty station in
/// order. Fails when their numbers differ (nothing placed), or at the first
/// operator already used (the stations before it stay placed).
pub fn commit_power_stations(
    assignment: &mut BaseAssignment,
    rooms: &Vec<RoomId>,
    stations: &Vec<(String, u8)>,
    used: &mut NameSet,
) -> (r: Result<(), Error>)
    ensures
        stations@.len() != rooms@.len() ==> (r matches Err(Error::PowerStationCount { expected, got })
            && expected == rooms@.len() && got == stations@.len() && final(assignment)@ == old(assignment)@
            && final(used)@ == old(used)@),
        stations@.len() == rooms@.len() ==> ({
            let out = power_commit(
                old(assignment)@,
                old(used)@,
                ids_view(rooms@),
                stations@.map_values(|s: (String, u8)| (s.0@, s.1)),
                rooms@.len() as int,
            );
            &&& final(assignment)@ == out.0
            &&& final(used)@ == out.1
            &&& r is Ok <==> out.2 is None
            &&& r matches Err(e) ==> (e matches Error::Duplicate { facility, name } && facility@ == "power"@ && Some(name@)
                == out.2)
        }),
{
    if stations.len() != rooms.len() {
        return Err(Error::PowerStationCount { expected: rooms.len(), got: stations.len() });
    }
    let ghost ids = ids_view(rooms@);
    let ghost st = stations@.map_values(|s: (String, u8)| (s.0@, s.1));
    let mut i: usize = 0;
    while i < rooms.len()
        invariant
            0 <= i <= rooms@.len(),
            stations@.len() == rooms@.len(),
            ids == ids_view(rooms@),
            st == stations@.map_values(|s: (String, u8)| (s.0@, s.1)),
            power_commit(old(assignment)@, old(used)@, ids, st, i as int).0 == assignment@,
            power_commit(old(assignment)@, old(used)@, ids, st, i as int).1 == used@,
            power_commit(old(assignment)@, old(used)@, ids, st, i as int).2 is None,
        decreases rooms@.len() - i,
    {
        let name = &stations[i].0;
        let elite = stations[i].1;
        assert(st[i as int] == (name@, elite));
        assert(ids[i as int] == rooms@[i as int].0@);
        if !used.insert(name.clone()) {
            proof {
                lemma_power_commit_failed_stays(old(assignment)@, old(used)@, ids, st, i + 1, rooms@.len() as int);
            }
            return Err(Error::Duplicate { facility: "power".to_owned(), name: name.clone() });
        }
        let op = vec![AssignedOperator::new(name.as_str(), elite)];
        assert(ops_view(op@) =~= seq![(name@, elite)]);
        assignment.set_room(rooms[i].duplicate(), op);
        i = i + 1;
    }
    Ok(())
}

} // verus!
