//! Moving the black-key trade anchor into the law-chain (or closure) room: the
//! candidate line-ups of the two rooms, to be scored against the current ones.
use vstd::prelude::*;

use crate::assign::{blackkey, ops_have, room_has, witch, AssignView};
use crate::layout::{
    ops_in, ops_view, with_room, AssignedOperator, BaseAssignment, BaseBlueprint, FacilityKind,
    RoomId,
};
use crate::schedule::{ids_view, kind_ids};
use crate::text::str_eq;

verus! {

/// The law-chain lead.
pub open spec fn docus_lead() -> Seq<char> {
    "但书"@
}

/// The closure lead.
pub open spec fn closure_lead() -> Seq<char> {
    "可露希尔"@
}

/// Room `id` holds three operators, one of them `name`.
pub open spec fn full_with(rooms: AssignView, id: Seq<char>, name: Seq<char>) -> bool {
    ops_in(rooms, id).len() == 3 && room_has(rooms, id, name)
}

/// Position among `ids` of the first room, from `from` on, that is full with `name`.
pub open spec fn first_full_with(rooms: AssignView, ids: Seq<Seq<char>>, name: Seq<char>, from: int) -> Option<int>
    decreases ids.len() - from,
{
    if from < 0 || from >= ids.len() {
        None
    } else if full_with(rooms, ids[from], name) {
        Some(from)
    } else {
        first_full_with(rooms, ids, name, from + 1)
    }
}

/// The first trade room full with `lead`, when it is not the black-key room
/// `bk` and the witch is not in it.
pub open spec fn meta_room_for(rooms: AssignView, ids: Seq<Seq<char>>, bk: int, lead: Seq<char>) -> Option<int> {
    match first_full_with(rooms, ids, lead, 0) {
        Some(m) => if ids[m] != ids[bk] && !room_has(rooms, ids[m], witch()) {
            Some(m)
        } else {
            None
        },
        None => None,
    }
}

/// The meta room to join: the law-chain lead's room first, else the closure lead's.
pub open spec fn meta_choice(rooms: AssignView, ids: Seq<Seq<char>>, bk: int) -> Option<(Seq<char>, int)> {
    match meta_room_for(rooms, ids, bk, docus_lead()) {
        Some(m) => Some((docus_lead(), m)),
        None => match meta_room_for(rooms, ids, bk, closure_lead()) {
            Some(m) => Some((closure_lead(), m)),
            None => None,
        },
    }
}

proof fn lemma_first_full_with(rooms: AssignView, ids: Seq<Seq<char>>, name: Seq<char>, from: int)
    requires
        0 <= from,
    ensures
        first_full_with(rooms, ids, name, from) matches Some(i) ==> from <= i < ids.len() && full_with(
            rooms,
            ids[i],
            name,
        ),
    decreases ids.len() - from,
{
    if from < ids.len() && !full_with(rooms, ids[from], name) {
        lemma_first_full_with(rooms, ids, name, from + 1);
    }
}

/// The room the black key joins is a trade room other than hers, without the
/// witch, holding three operators with the law-chain lead or the closure lead,
/// and the first such room of that lead. The law-chain lead comes first: when
/// the first room full with her is not the black-key room and has no witch,
/// that is the room joined; the closure lead's room is joined only otherwise.
/// The black-key room is the first trade room full with the black key.
pub proof fn lemma_colocation_meta_room(rooms: AssignView, ids: Seq<Seq<char>>)
    ensures
        colocation_spec(rooms, ids) matches Some((bk, m, c)) ==> {
            &&& first_full_with(rooms, ids, blackkey(), 0) == Some(bk)
            &&& 0 <= bk < ids.len() && 0 <= m < ids.len()
            &&& ids[m] != ids[bk]
            &&& !room_has(rooms, ids[m], witch())
            &&& first_full_with(rooms, ids, docus_lead(), 0) == Some(m) || first_full_with(
                rooms,
                ids,
                closure_lead(),
                0,
            ) == Some(m)
            &&& full_with(rooms, ids[m], docus_lead()) || full_with(rooms, ids[m], closure_lead())
            &&& forall|d: int|
                first_full_with(rooms, ids, docus_lead(), 0) == Some(d) && ids[d] != ids[bk] && !room_has(
                    rooms,
                    ids[d],
                    witch(),
                ) ==> m == d
        },
        forall|bk: int|
            #![trigger meta_choice(rooms, ids, bk)]
            meta_choice(rooms, ids, bk) matches Some((lead, m)) ==> (lead == docus_lead() || lead == closure_lead())
                && first_full_with(rooms, ids, lead, 0) == Some(m) && ids[m] != ids[bk] && !room_has(rooms, ids[m], witch())
                && (lead == closure_lead() ==> !(first_full_with(rooms, ids, docus_lead(), 0) matches Some(d) && ids[d]
                != ids[bk] && !room_has(rooms, ids[d], witch()))),
{
    lemma_first_full_with(rooms, ids, blackkey(), 0);
    lemma_first_full_with(rooms, ids, docus_lead(), 0);
    lemma_first_full_with(rooms, ids, closure_lead(), 0);
    reveal_strlit("但书");
    reveal_strlit("可露希尔");
    assert(docus_lead() != closure_lead()) by {
        assert(docus_lead().len() != closure_lead().len());
    }
}

/// Position of the first operator named `name`, from `from` on.
pub open spec fn first_named(s: Seq<(Seq<char>, u8)>, name: Seq<char>, from: int) -> Option<int>
    decreases s.len() - from,
{
    if from < 0 || from >= s.len() {
        None
    } else if s[from].0 == name {
        Some(from)
    } else {
        first_named(s, name, from + 1)
    }
}

/// The operators of `six` other than the lead, the black key and `third`, in order.
pub open spec fn others(six: Seq<(Seq<char>, u8)>, lead: Seq<char>, third: Seq<char>) -> Seq<(Seq<char>, u8)> {
    six.filter(|o: (Seq<char>, u8)| o.0 != lead && o.0 != blackkey() && o.0 != third)
}

/// The candidate with `six[k]` as the third member of the meta room: the meta
/// room takes the lead, the black key and `six[k]`; the black-key room takes
/// the others (when they are two or three).
pub open spec fn candidate(
    rooms: AssignView,
    meta_id: Seq<char>,
    bk_id: Seq<char>,
    six: Seq<(Seq<char>, u8)>,
    lead: Seq<char>,
    lead_op: (Seq<char>, u8),
    bk_op: (Seq<char>, u8),
    k: int,
) -> Option<AssignView> {
    let third = six[k];
    if third.0 == lead || third.0 == blackkey() {
        None
    } else {
        let o = others(six, lead, third.0);
        if o.len() != 2 && o.len() != 3 {
            None
        } else {
            Some(with_room(with_room(rooms, meta_id, seq![lead_op, bk_op, third]), bk_id, o))
        }
    }
}

/// The candidates for the first `n` choices of the third member, in order.
pub open spec fn candidates_upto(
    rooms: AssignView,
    meta_id: Seq<char>,
    bk_id: Seq<char>,
    six: Seq<(Seq<char>, u8)>,
    lead: Seq<char>,
    lead_op: (Seq<char>, u8),
    bk_op: (Seq<char>, u8),
    n: int,
) -> Seq<AssignView>
    decreases n,
{
    if n <= 0 {
        Seq::empty()
    } else {
        let prev = candidates_upto(rooms, meta_id, bk_id, six, lead, lead_op, bk_op, n - 1);
        match candidate(rooms, meta_id, bk_id, six, lead, lead_op, bk_op, n - 1) {
            Some(c) => prev.push(c),
            None => prev,
        }
    }
}

/// The black-key room, the meta room and the candidates: none when no trade
/// room is full with the black key, or no meta room qualifies.
pub open spec fn colocation_spec(rooms: AssignView, ids: Seq<Seq<char>>) -> Option<(int, int, Seq<AssignView>)> {
    match first_full_with(rooms, ids, blackkey(), 0) {
        None => None,
        Some(bk) => match meta_choice(rooms, ids, bk) {
            None => None,
            Some((lead, m)) => {
                let six = ops_in(rooms, ids[bk]) + ops_in(rooms, ids[m]);
                match (first_named(six, lead, 0), first_named(six, blackkey(), 0)) {
                    (Some(li), Some(bi)) => Some(
                        (bk, m, candidates_upto(rooms, ids[m], ids[bk], six, lead, six[li], six[bi], six.len() as int)),
                    ),
                    _ => None,
                }
            },
        },
    }
}

/// The two rooms and the candidate line-ups of a black-key colocation.
pub struct ColocationPlan {
    pub blackkey_room: RoomId,
    pub meta_room: RoomId,
    pub candidates: Vec<BaseAssignment>,
}

/// Ids of the trade rooms of the layout, in layout order.
fn trade_room_ids(blueprint: &BaseBlueprint) -> (r: Vec<RoomId>)
    ensures
        ids_view(r@) == kind_ids(blueprint.rooms@, FacilityKind::TradePost),
{
    let rooms = blueprint.rooms_of(FacilityKind::TradePost);
    let ghost ids = kind_ids(blueprint.rooms@, FacilityKind::TradePost);
    proof {
        assert(ids =~= rooms@.map_values(|x: &crate::layout::RoomBlueprint| *x).map_values(
            |r: crate::layout::RoomBlueprint| r.id.0@,
        ));
    }
    let mut r: Vec<RoomId> = Vec::new();
    let mut i: usize = 0;
    while i < rooms.len()
        invariant
            0 <= i <= rooms@.len(),
            ids.len() == rooms@.len(),
            forall|k: int| 0 <= k < rooms@.len() ==> ids[k] == (#[trigger] rooms@[k]).id.0@,
            ids_view(r@) == ids.subrange(0, i as int),
        decreases rooms@.len() - i,
    {
        let ghost pre = ids_view(r@);
        r.push(rooms[i].id.duplicate());
        assert(ids_view(r@) =~= pre.push(ids[i as int]));
        assert(ids.subrange(0, i + 1) =~= ids.subrange(0, i as int).push(ids[i as int]));
        i = i + 1;
    }
    assert(ids.subrange(0, ids.len() as int) =~= ids);
    r
}

/// The first of `ids` whose room is full with `name`.
fn room_full_with(ids: &Vec<RoomId>, assignment: &BaseAssignment, name: &str) -> (r: Option<usize>)
    ensures
        match r {
            Some(i) => first_full_with(assignment@, ids_view(ids@), name@, 0) == Some(i as int) && i < ids@.len(),
            None => first_full_with(assignment@, ids_view(ids@), name@, 0) is None,
        },
{
    let mut i: usize = 0;
    while i < ids.len()
        invariant
            0 <= i <= ids@.len(),
            first_full_with(assignment@, ids_view(ids@), name@, 0) == first_full_with(
                assignment@,
                ids_view(ids@),
                name@,
                i as int,
            ),
        decreases ids@.len() - i,
    {
        let ops = assignment.operators_in(&ids[i]);
        assert(ids_view(ids@)[i as int] == ids@[i as int].0@);
        if ops.len() == 3 && ops_have(&ops, name) {
            return Some(i);
        }
        i = i + 1;
    }
    None
}

/// The room of `lead` if it can host the black key: full with `lead`, not the
/// black-key room, and without the witch.
fn meta_room(ids: &Vec<RoomId>, assignment: &BaseAssignment, bk: usize, lead: &str) -> (r: Option<usize>)
    requires
        bk < ids@.len(),
    ensures
        match r {
            Some(m) => meta_room_for(assignment@, ids_view(ids@), bk as int, lead@) == Some(m as int) && m < ids@.len(),
            None => meta_room_for(assignment@, ids_view(ids@), bk as int, lead@) is None,
        },
{
    match room_full_with(ids, assignment, lead) {
        None => None,
        Some(m) => {
            assert(ids_view(ids@)[m as int] == ids@[m as int].0@);
            assert(ids_view(ids@)[bk as int] == ids@[bk as int].0@);
            let ops = assignment.operators_in(&ids[m]);
            if !ids[m].same(&ids[bk]) && !ops_have(&ops, "巫恋") {
                Some(m)
            } else {
                None
            }
        },
    }
}

/// Position of the first operator named `name`.
fn find_named(six: &Vec<AssignedOperator>, name: &str) -> (r: Option<usize>)
    ensures
        match r {
            Some(i) => first_named(ops_view(six@), name@, 0) == Some(i as int) && i < six@.len(),
            None => first_named(ops_view(six@), name@, 0) is None,
        },
{
    let mut i: usize = 0;
    while i < six.len()
        invariant
            0 <= i <= six@.len(),
            first_named(ops_view(six@), name@, 0) == first_named(ops_view(six@), name@, i as int),
        decreases six@.len() - i,
    {
        assert(ops_view(six@)[i as int] == (six@[i as int].name@, six@[i as int].elite));
        if str_eq(six[i].name.as_str(), name) {
            return Some(i);
        }
        i = i + 1;
    }
    None
}

/// The operators of `six` other than `lead`, the black key and `third`.
fn others_of(six: &Vec<AssignedOperator>, lead: &str, third: &str) -> (r: Vec<AssignedOperator>)
    ensures
        ops_view(r@) == others(ops_view(six@), lead@, third@),
{
    let ghost all = ops_view(six@);
    let ghost keep = |o: (Seq<char>, u8)| o.0 != lead@ && o.0 != blackkey() && o.0 != third@;
    let mut r: Vec<AssignedOperator> = Vec::new();
    let mut i: usize = 0;
    assert(ops_view(r@) =~= all.subrange(0, 0).filter(keep));
    while i < six.len()
        invariant
            0 <= i <= six@.len(),
            all == ops_view(six@),
            keep == (|o: (Seq<char>, u8)| o.0 != lead@ && o.0 != blackkey() && o.0 != third@),
            ops_view(r@) == all.subrange(0, i as int).filter(keep),
        decreases six@.len() - i,
    {
        let ghost pre = ops_view(r@);
        let ghost sub = all.subrange(0, i as int);
        let nm = six[i].name.as_str();
        if !str_eq(nm, lead) && !str_eq(nm, "黑键") && !str_eq(nm, third) {
            r.push(six[i].duplicate());
        }
        proof {
            let sub2 = all.subrange(0, i + 1);
            assert(sub2.drop_last() =~= sub);
            assert(sub2.last() == (six@[i as int].name@, six@[i as int].elite));
            reveal(Seq::filter);
            if keep(sub2.last()) {
                assert(ops_view(r@) =~= pre.push(sub2.last()));
            } else {
                assert(ops_view(r@) =~= pre);
            }
        }
        i = i + 1;
    }
    assert(all.subrange(0, all.len() as int) =~= all);
    assert(others(all, lead@, third@) == all.filter(keep));
    r
}

/// The candidate line-ups for moving the black key into the law-chain lead's
/// trade room (or, failing that, the closure lead's): both rooms must be full,
/// the meta room must not be the black key's own and must not hold the witch.
/// Each candidate puts the lead, the black key and one of the other four
/// operators in the meta room and the remaining ones in the black key's room.
pub fn blackkey_colocation_candidates(blueprint: &BaseBlueprint, assignment: &BaseAssignment) -> (r: Option<ColocationPlan>)
    ensures
        match r {
            None => colocation_spec(assignment@, kind_ids(blueprint.rooms@, FacilityKind::TradePost)) is None,
            Some(plan) => colocation_spec(assignment@, kind_ids(blueprint.rooms@, FacilityKind::TradePost)) matches Some(
                (bk, m, cands),
            ) && plan.blackkey_room.0@ == kind_ids(blueprint.rooms@, FacilityKind::TradePost)[bk]
                && plan.meta_room.0@ == kind_ids(blueprint.rooms@, FacilityKind::TradePost)[m]
                && plan.candidates@.map_values(|a: BaseAssignment| a@) == cands,
        },
{
    let ids = trade_room_ids(blueprint);
    let ghost idv = ids_view(ids@);
    let bk = match room_full_with(&ids, assignment, "黑键") {
        Some(b) => b,
        None => {
            return None;
        },
    };
    let (lead, m): (&str, usize) = match meta_room(&ids, assignment, bk, "但书") {
        Some(m) => ("但书", m),
        None => match meta_room(&ids, assignment, bk, "可露希尔") {
            Some(m) => ("可露希尔", m),
            None => {
                return None;
            },
        },
    };
    assert(meta_choice(assignment@, idv, bk as int) == Some((lead@, m as int)));
    assert(idv[bk as int] == ids@[bk as int].0@);
    assert(idv[m as int] == ids@[m as int].0@);
    let mut six = assignment.operators_in(&ids[bk]);
    let mut second = assignment.operators_in(&ids[m]);
    let ghost sv = ops_view(six@) + ops_view(second@);
    six.append(&mut second);
    assert(ops_view(six@) =~= sv);
    let li = match find_named(&six, lead) {
        Some(i) => i,
        None => {
            return None;
        },
    };
    let bi = match find_named(&six, "黑键") {
        Some(i) => i,
        None => {
            return None;
        },
    };
    let ghost lead_op = ops_view(six@)[li as int];
    let ghost bk_op = ops_view(six@)[bi as int];
    let mut candidates: Vec<BaseAssignment> = Vec::new();
    let mut k: usize = 0;
    assert(candidates@.map_values(|a: BaseAssignment| a@) =~= Seq::<AssignView>::empty());
    while k < six.len()
        invariant
            0 <= k <= six@.len(),
            li < six@.len(),
            bi < six@.len(),
            m < ids@.len(),
            bk < ids@.len(),
            lead_op == ops_view(six@)[li as int],
            bk_op == ops_view(six@)[bi as int],
            candidates@.map_values(|a: BaseAssignment| a@) == candidates_upto(
                assignment@,
                ids@[m as int].0@,
                ids@[bk as int].0@,
                ops_view(six@),
                lead@,
                lead_op,
                bk_op,
                k as int,
            ),
        decreases six@.len() - k,
    {
        let ghost pre = candidates@.map_values(|a: BaseAssignment| a@);
        let third = &six[k];
        assert(ops_view(six@)[k as int] == (third.name@, third.elite));
        if !str_eq(third.name.as_str(), lead) && !str_eq(third.name.as_str(), "黑键") {
            let rest = others_of(&six, lead, third.name.as_str());
            if rest.len() == 2 || rest.len() == 3 {
                let mut cand = assignment.duplicate();
                let meta_ops = vec![six[li].duplicate(), six[bi].duplicate(), third.duplicate()];
                assert(ops_view(meta_ops@) =~= seq![lead_op, bk_op, ops_view(six@)[k as int]]);
                cand.set_room(ids[m].duplicate(), meta_ops);
                cand.set_room(ids[bk].duplicate(), rest);
                candidates.push(cand);
                assert(candidates@.map_values(|a: BaseAssignment| a@) =~= pre.push(cand@));
            }
        }
        k = k + 1;
    }
    Some(ColocationPlan { blackkey_room: ids[bk].duplicate(), meta_room: ids[m].duplicate(), candidates })
}

} // verus!
