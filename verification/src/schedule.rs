//! Shift rotation helpers: sorted operator lists, the overlap check between
//! shifts, the split of production rooms into two halves, and the α/β/γ teams.
use vstd::prelude::*;

use crate::assign::{
    flat_names, flat_names_of_kind, lemma_push_to_set, pinned_assignment,
    pinned_prefix, rotating_workers, AssignView,
};
use crate::error::Error;
use crate::layout::{
    op_names, ops_in, ops_view, room_view, with_room, BaseAssignment, BaseBlueprint, FacilityKind,
    RoomBlueprint, RoomId, copy_ops,
};
use crate::names::{views, NameSet};
use crate::text::{lemma_lex_total, lemma_lex_transitive, lemma_utf8_injective, lex_lt, str_eq, str_lt, utf8};

verus! {

/// Role of a shift in the A-B-A rotation.
#[derive(Debug, Clone, Copy, PartialEq, Eq, Structural)]
pub enum BaseShiftRole {
    Peak,
    Recovery,
}

/// Names in strictly increasing byte order (so each at most once).
pub open spec fn sorted_names(v: Seq<Seq<char>>) -> bool {
    forall|i: int, j: int| 0 <= i < j < v.len() ==> lex_lt(utf8(#[trigger] v[i]), utf8(#[trigger] v[j]))
}

/// Inserts `name` into the sorted list `v` unless it is there already.
fn insert_sorted(v: &mut Vec<String>, name: &String)
    requires
        sorted_names(views(old(v)@)),
    ensures
        sorted_names(views(final(v)@)),
        views(final(v)@).to_set() == views(old(v)@).to_set().insert(name@),
{
    let ghost pre = views(v@);
    let mut k: usize = 0;
    while k < v.len() && str_lt(v[k].as_str(), name.as_str())
        invariant
            0 <= k <= v@.len(),
            pre == views(v@),
            sorted_names(pre),
            forall|j: int| 0 <= j < k ==> lex_lt(utf8(#[trigger] pre[j]), utf8(name@)),
        decreases v@.len() - k,
    {
        k = k + 1;
    }
    if k < v.len() && str_eq(v[k].as_str(), name.as_str()) {
        proof {
            assert(pre[k as int] == name@);
            assert(pre.to_set().insert(name@) =~= pre.to_set());
        }
        return;
    }
    proof {
        if k < pre.len() {
            lemma_utf8_injective(pre[k as int], name@);
            lemma_lex_total(utf8(pre[k as int]), utf8(name@));
            assert(lex_lt(utf8(name@), utf8(pre[k as int])));
        }
    }
    v.insert(k, name.clone());
    proof {
        let post = views(v@);
        assert(post =~= pre.insert(k as int, name@));
        assert forall|i: int, j: int| 0 <= i < j < post.len() implies lex_lt(utf8(#[trigger] post[i]), utf8(#[trigger] post[j])) by {
            if j < k {
                assert(post[i] == pre[i] && post[j] == pre[j]);
            } else if j == k {
                assert(post[i] == pre[i]);
            } else if i < k {
                assert(post[i] == pre[i] && post[j] == pre[j - 1]);
                lemma_lex_transitive(utf8(pre[i]), utf8(name@), utf8(pre[k as int]));
                if j - 1 > k {
                    lemma_lex_transitive(utf8(pre[i]), utf8(pre[k as int]), utf8(pre[j - 1]));
                }
            } else if i == k {
                assert(post[j] == pre[j - 1]);
                if j - 1 > k {
                    lemma_lex_transitive(utf8(name@), utf8(pre[k as int]), utf8(pre[j - 1]));
                }
            } else {
                assert(post[i] == pre[i - 1] && post[j] == pre[j - 1]);
            }
        }
        assert forall|x: Seq<char>| post.contains(x) <==> pre.to_set().insert(name@).contains(x) by {
            if post.contains(x) {
                let i = choose|i: int| 0 <= i < post.len() && post[i] == x;
                if i < k {
                    assert(pre[i] == x);
                } else if i > k {
                    assert(pre[i - 1] == x);
                }
            }
            if pre.contains(x) {
                let i = choose|i: int| 0 <= i < pre.len() && pre[i] == x;
                if i < k {
                    assert(post[i] == x);
                } else {
                    assert(post[i + 1] == x);
                }
            }
            if x == name@ {
                assert(post[k as int] == x);
            }
        }
        assert(post.to_set() =~= pre.to_set().insert(name@));
    }
}

/// The members of a set of workers in byte order.
pub fn workers_sorted(set: &NameSet) -> (r: Vec<String>)
    ensures
        sorted_names(views(r@)),
        views(r@).to_set() == set@,
{
    let names = set.names();
    let mut r: Vec<String> = Vec::new();
    let mut i: usize = 0;
    assert(views(r@).to_set() =~= views(names@).subrange(0, 0).to_set());
    while i < names.len()
        invariant
            0 <= i <= names@.len(),
            views(names@).to_set() == set@,
            sorted_names(views(r@)),
            views(r@).to_set() == views(names@).subrange(0, i as int).to_set(),
        decreases names@.len() - i,
    {
        let ghost sub = views(names@).subrange(0, i as int);
        insert_sorted(&mut r, &names[i]);
        proof {
            assert(views(names@).subrange(0, i + 1) =~= sub.push(names@[i as int]@));
            lemma_push_to_set(sub, names@[i as int]@);
        }
        i = i + 1;
    }
    assert(views(names@).subrange(0, names@.len() as int) =~= views(names@));
    r
}

/// Every operator of an assignment once, in byte order.
pub fn operators_of(assignment: &BaseAssignment) -> (r: Vec<String>)
    ensures
        sorted_names(views(r@)),
        views(r@).to_set() == flat_names(assignment@).to_set(),
{
    let mut r: Vec<String> = Vec::new();
    let mut i: usize = 0;
    assert(views(r@).to_set() =~= flat_names(assignment@.subrange(0, 0)).to_set());
    while i < assignment.rooms.len()
        invariant
            0 <= i <= assignment.rooms@.len(),
            sorted_names(views(r@)),
            views(r@).to_set() == flat_names(assignment@.subrange(0, i as int)).to_set(),
        decreases assignment.rooms@.len() - i,
    {
        let ops = &assignment.rooms[i].operators;
        let ghost base = flat_names(assignment@.subrange(0, i as int));
        let mut j: usize = 0;
        assert(base + op_names(ops_view(ops@)).subrange(0, 0) =~= base);
        while j < ops.len()
            invariant
                0 <= j <= ops@.len(),
                sorted_names(views(r@)),
                views(r@).to_set() == (base + op_names(ops_view(ops@)).subrange(0, j as int)).to_set(),
            decreases ops@.len() - j,
        {
            let ghost g = base + op_names(ops_view(ops@)).subrange(0, j as int);
            insert_sorted(&mut r, &ops[j].name);
            proof {
                lemma_push_to_set(g, ops@[j as int].name@);
                assert(base + op_names(ops_view(ops@)).subrange(0, j + 1) =~= g.push(ops@[j as int].name@));
            }
            j = j + 1;
        }
        proof {
            assert(op_names(ops_view(ops@)).subrange(0, ops@.len() as int) =~= op_names(ops_view(ops@)));
            let p = assignment@.subrange(0, i + 1);
            assert(p.drop_last() =~= assignment@.subrange(0, i as int));
            assert(p.last() == room_view(assignment.rooms@[i as int]));
        }
        i = i + 1;
    }
    assert(assignment@.subrange(0, assignment@.len() as int) =~= assignment@);
    r
}

/// Checks that two shifts share no rotating operator; otherwise the error
/// lists the shared ones.
pub fn assert_disjoint(a: &NameSet, b: &NameSet, label: &str) -> (r: Result<(), Error>)
    ensures
        r is Ok <==> a@.disjoint(b@),
        r is Err ==> (r matches Err(Error::ShiftOverlap { label: l, overlap: o }) && l@ == label@ && views(o@).to_set()
            == a@.intersect(b@)),
{
    let names = a.names();
    let mut overlap: Vec<String> = Vec::new();
    let mut i: usize = 0;
    assert(views(overlap@).to_set() =~= views(names@).subrange(0, 0).to_set().intersect(b@));
    while i < names.len()
        invariant
            0 <= i <= names@.len(),
            views(names@).to_set() == a@,
            views(overlap@).to_set() == views(names@).subrange(0, i as int).to_set().intersect(b@),
        decreases names@.len() - i,
    {
        let ghost sub = views(names@).subrange(0, i as int);
        let ghost pre = views(overlap@);
        let ghost x = names@[i as int]@;
        proof {
            assert(views(names@).subrange(0, i + 1) =~= sub.push(x));
            lemma_push_to_set(sub, x);
        }
        if b.contains(names[i].as_str()) {
            overlap.push(names[i].clone());
            proof {
                assert(views(overlap@) =~= pre.push(x));
                lemma_push_to_set(pre, x);
                assert(views(overlap@).to_set() =~= sub.push(x).to_set().intersect(b@));
            }
        } else {
            assert(views(overlap@).to_set() =~= sub.push(x).to_set().intersect(b@));
        }
        i = i + 1;
    }
    assert(views(names@).subrange(0, names@.len() as int) =~= views(names@));
    if overlap.len() == 0 {
        proof {
            assert(views(overlap@).to_set() =~= Set::<Seq<char>>::empty());
            assert forall|x: Seq<char>| !(a@.contains(x) && b@.contains(x)) by {
                if a@.contains(x) && b@.contains(x) {
                    assert(a@.intersect(b@).contains(x));
                }
            }
        }
        Ok(())
    } else {
        proof {
            assert(views(overlap@)[0] == overlap@[0]@);
            assert(views(overlap@).to_set().contains(overlap@[0]@));
        }
        Err(Error::ShiftOverlap { label: label.to_owned(), overlap })
    }
}

/// The three rotation teams.
#[derive(Debug, Clone, Copy, PartialEq, Eq, Structural)]
pub enum TeamLabel {
    Alpha,
    Beta,
    Gamma,
}

impl TeamLabel {
    /// The three teams in order.
    pub fn all() -> (r: [TeamLabel; 3])
        ensures
            r@ == seq![TeamLabel::Alpha, TeamLabel::Beta, TeamLabel::Gamma],
    {
        let r = [TeamLabel::Alpha, TeamLabel::Beta, TeamLabel::Gamma];
        assert(r@ =~= seq![TeamLabel::Alpha, TeamLabel::Beta, TeamLabel::Gamma]);
        r
    }
}

/// A team: the operators that rest together for one shift.
pub struct TeamAssignment {
    pub label: TeamLabel,
    pub operators: Vec<String>,
}

/// The label of the first team (from `from` on) listing `name`.
pub open spec fn first_team_from(teams: Seq<TeamAssignment>, name: Seq<char>, from: int) -> Option<TeamLabel>
    decreases teams.len() - from,
{
    if from < 0 || from >= teams.len() {
        None
    } else if views(teams[from].operators@).contains(name) {
        Some(teams[from].label)
    } else {
        first_team_from(teams, name, from + 1)
    }
}

proof fn lemma_first_team_skip(teams: Seq<TeamAssignment>, name: Seq<char>, i: int)
    requires
        0 <= i <= teams.len(),
        forall|t: int| 0 <= t < i ==> !views((#[trigger] teams[t]).operators@).contains(name),
    ensures
        first_team_from(teams, name, 0) == first_team_from(teams, name, i),
    decreases i,
{
    if i > 0 {
        lemma_first_team_skip(teams, name, i - 1);
    }
}

/// Whether `x` is among the names of `r`.
pub open spec fn in_map(r: Seq<(String, TeamLabel)>, x: Seq<char>) -> bool {
    exists|k: int| 0 <= k < r.len() && (#[trigger] r[k]).0@ == x
}

/// Whether one of the first `i` teams lists `x`.
pub open spec fn listed_before(teams: Seq<TeamAssignment>, i: int, x: Seq<char>) -> bool {
    exists|t: int| 0 <= t < i && views((#[trigger] teams[t]).operators@).contains(x)
}

/// Each operator with the team that first lists it: every listed operator
/// once, with the label of the first team that lists it.
pub fn operator_team_map(teams: &Vec<TeamAssignment>) -> (r: Vec<(String, TeamLabel)>)
    ensures
        forall|a: int, b: int| 0 <= a < b < r@.len() ==> (#[trigger] r@[a]).0@ != (#[trigger] r@[b]).0@,
        forall|k: int| 0 <= k < r@.len() ==> first_team_from(teams@, (#[trigger] r@[k]).0@, 0) == Some(r@[k].1),
        forall|x: Seq<char>| first_team_from(teams@, x, 0) is Some ==> #[trigger] in_map(r@, x),
{
    let mut r: Vec<(String, TeamLabel)> = Vec::new();
    let mut i: usize = 0;
    while i < teams.len()
        invariant
            0 <= i <= teams@.len(),
            forall|a: int, b: int| 0 <= a < b < r@.len() ==> (#[trigger] r@[a]).0@ != (#[trigger] r@[b]).0@,
            forall|k: int| 0 <= k < r@.len() ==> first_team_from(teams@, (#[trigger] r@[k]).0@, 0) == Some(r@[k].1),
            forall|x: Seq<char>| #[trigger] in_map(r@, x) <==> listed_before(teams@, i as int, x),
        decreases teams@.len() - i,
    {
        let team = &teams[i];
        let mut j: usize = 0;
        while j < team.operators.len()
            invariant
                0 <= i < teams@.len(),
                0 <= j <= team.operators@.len(),
                *team == teams@[i as int],
                forall|a: int, b: int| 0 <= a < b < r@.len() ==> (#[trigger] r@[a]).0@ != (#[trigger] r@[b]).0@,
                forall|k: int| 0 <= k < r@.len() ==> first_team_from(teams@, (#[trigger] r@[k]).0@, 0) == Some(r@[k].1),
                forall|x: Seq<char>|
                    #[trigger] in_map(r@, x) <==> (listed_before(teams@, i as int, x) || views(team.operators@).subrange(
                        0,
                        j as int,
                    ).contains(x)),
            decreases team.operators@.len() - j,
        {
            let name = &team.operators[j];
            let ghost x = name@;
            let ghost pre = r@;
            let ghost done = views(team.operators@).subrange(0, j as int);
            let ghost next = views(team.operators@).subrange(0, j + 1);
            let mut seen = false;
            let mut k: usize = 0;
            while k < r.len()
                invariant
                    0 <= k <= r@.len(),
                    !seen ==> forall|m: int| 0 <= m < k ==> (#[trigger] r@[m]).0@ != x,
                    seen ==> in_map(r@, x),
                    x == name@,
                decreases r@.len() - k,
            {
                if !seen && str_eq(r[k].0.as_str(), name.as_str()) {
                    seen = true;
                }
                k = k + 1;
            }
            proof {
                assert(next =~= done.push(x));
                assert forall|y: Seq<char>| next.contains(y) <==> (done.contains(y) || y == x) by {
                    if next.contains(y) {
                        let m = choose|m: int| 0 <= m < next.len() && next[m] == y;
                        if m < j {
                            assert(done[m] == y);
                        }
                    }
                    if done.contains(y) {
                        let m = choose|m: int| 0 <= m < done.len() && done[m] == y;
                        assert(next[m] == y);
                    }
                    if y == x {
                        assert(next[j as int] == y);
                    }
                }
            }
            if !seen {
                proof {
                    assert(!in_map(r@, x));
                    assert forall|t: int| 0 <= t < i implies !views((#[trigger] teams@[t]).operators@).contains(x) by {
                        if views(teams@[t].operators@).contains(x) {
                            assert(listed_before(teams@, i as int, x));
                        }
                    }
                    lemma_first_team_skip(teams@, x, i as int);
                    assert(views(team.operators@)[j as int] == x);
                    assert(views(teams@[i as int].operators@).contains(x));
                }
                r.push((name.clone(), team.label));
                proof {
                    assert forall|y: Seq<char>|
                        #[trigger] in_map(r@, y) <==> (listed_before(teams@, i as int, y) || next.contains(y)) by {
                        if in_map(r@, y) {
                            let k = choose|k: int| 0 <= k < r@.len() && (#[trigger] r@[k]).0@ == y;
                            if k < pre.len() {
                                assert(pre[k].0@ == y);
                                assert(in_map(pre, y));
                            }
                        }
                        if in_map(pre, y) {
                            let k = choose|k: int| 0 <= k < pre.len() && (#[trigger] pre[k]).0@ == y;
                            assert(r@[k].0@ == y);
                        }
                        if y == x {
                            assert(r@[pre.len() as int].0@ == y);
                        }
                    }
                }
            } else {
                proof {
                    assert forall|y: Seq<char>|
                        #[trigger] in_map(r@, y) <==> (listed_before(teams@, i as int, y) || next.contains(y)) by {
                    }
                }
            }
            j = j + 1;
        }
        proof {
            assert(views(team.operators@).subrange(0, team.operators@.len() as int) =~= views(team.operators@));
            assert forall|x: Seq<char>| #[trigger] in_map(r@, x) <==> listed_before(teams@, i + 1, x) by {
                if views(team.operators@).contains(x) {
                    assert(views(teams@[i as int].operators@).contains(x));
                }
                if listed_before(teams@, i + 1, x) {
                    let t = choose|t: int| 0 <= t < i + 1 && views((#[trigger] teams@[t]).operators@).contains(x);
                    if t == i {
                        assert(views(team.operators@).contains(x));
                    } else {
                        assert(listed_before(teams@, i as int, x));
                    }
                }
                if listed_before(teams@, i as int, x) {
                    let t = choose|t: int| 0 <= t < i && views((#[trigger] teams@[t]).operators@).contains(x);
                    assert(listed_before(teams@, i + 1, x));
                }
            }
        }
        i = i + 1;
    }
    proof {
        assert forall|x: Seq<char>| first_team_from(teams@, x, 0) is Some implies #[trigger] in_map(r@, x) by {
            lemma_first_team_some(teams@, x, 0);
            let t = choose|t: int| 0 <= t < teams@.len() && views((#[trigger] teams@[t]).operators@).contains(x);
            assert(listed_before(teams@, teams@.len() as int, x));
        }
    }
    r
}

proof fn lemma_first_team_some(teams: Seq<TeamAssignment>, name: Seq<char>, from: int)
    requires
        0 <= from,
        first_team_from(teams, name, from) is Some,
    ensures
        exists|t: int| from <= t < teams.len() && views((#[trigger] teams[t]).operators@).contains(name),
    decreases teams.len() - from,
{
    if from < teams.len() && !views(teams[from].operators@).contains(name) {
        lemma_first_team_some(teams, name, from + 1);
    }
}

/// One half of the production rooms: some trade, factory and power rooms.
pub struct FacilityHalf {
    pub trade: Vec<RoomId>,
    pub manu: Vec<RoomId>,
    pub power: Vec<RoomId>,
}

/// Room ids seen as character sequences.
pub open spec fn ids_view(v: Seq<RoomId>) -> Seq<Seq<char>> {
    v.map_values(|r: RoomId| r.0@)
}

/// Ids of the layout rooms of one kind, in layout order.
pub open spec fn kind_ids(layout: Seq<RoomBlueprint>, kind: FacilityKind) -> Seq<Seq<char>> {
    layout.filter(|r: RoomBlueprint| r.kind == kind).map_values(|r: RoomBlueprint| r.id.0@)
}

/// The items of `s[0..n]` at even positions (`p == 0`) or odd positions (`p == 1`).
pub open spec fn alternate(s: Seq<Seq<char>>, p: int, n: int) -> Seq<Seq<char>>
    decreases n,
{
    if n <= 0 {
        Seq::empty()
    } else if (n - 1) % 2 == p {
        alternate(s, p, n - 1).push(s[n - 1])
    } else {
        alternate(s, p, n - 1)
    }
}

/// The two halves' ids of the rooms of one kind: rooms alternate between the halves.
fn split_kind(blueprint: &BaseBlueprint, kind: FacilityKind) -> (r: (Vec<RoomId>, Vec<RoomId>))
    ensures
        ids_view(r.0@) == alternate(kind_ids(blueprint.rooms@, kind), 0, kind_ids(blueprint.rooms@, kind).len() as int),
        ids_view(r.1@) == alternate(kind_ids(blueprint.rooms@, kind), 1, kind_ids(blueprint.rooms@, kind).len() as int),
{
    let rooms = blueprint.rooms_of(kind);
    let ghost ids = kind_ids(blueprint.rooms@, kind);
    proof {
        assert(ids =~= rooms@.map_values(|x: &RoomBlueprint| *x).map_values(|r: RoomBlueprint| r.id.0@));
    }
    let mut a: Vec<RoomId> = Vec::new();
    let mut b: Vec<RoomId> = Vec::new();
    let mut i: usize = 0;
    assert(ids_view(a@) =~= alternate(ids, 0, 0));
    assert(ids_view(b@) =~= alternate(ids, 1, 0));
    while i < rooms.len()
        invariant
            0 <= i <= rooms@.len(),
            ids.len() == rooms@.len(),
            forall|k: int| 0 <= k < rooms@.len() ==> ids[k] == (#[trigger] rooms@[k]).id.0@,
            ids_view(a@) == alternate(ids, 0, i as int),
            ids_view(b@) == alternate(ids, 1, i as int),
        decreases rooms@.len() - i,
    {
        let ghost pa = ids_view(a@);
        let ghost pb = ids_view(b@);
        assert(ids[i as int] == rooms@[i as int].id.0@);
        if i % 2 == 0 {
            a.push(rooms[i].id.duplicate());
            assert(ids_view(a@) =~= pa.push(ids[i as int]));
        } else {
            b.push(rooms[i].id.duplicate());
            assert(ids_view(b@) =~= pb.push(ids[i as int]));
        }
        i = i + 1;
    }
    (a, b)
}

/// Splits the production rooms in two halves: the trade, factory and power
/// rooms of the layout alternate between the halves, first room to the first half.
pub fn split_production_facilities(blueprint: &BaseBlueprint) -> (r: [FacilityHalf; 2])
    ensures
        forall|h: int|
            0 <= h < 2 ==> {
                &&& ids_view((#[trigger] r@[h]).trade@) == alternate(
                    kind_ids(blueprint.rooms@, FacilityKind::TradePost),
                    h,
                    kind_ids(blueprint.rooms@, FacilityKind::TradePost).len() as int,
                )
                &&& ids_view(r@[h].manu@) == alternate(
                    kind_ids(blueprint.rooms@, FacilityKind::Factory),
                    h,
                    kind_ids(blueprint.rooms@, FacilityKind::Factory).len() as int,
                )
                &&& ids_view(r@[h].power@) == alternate(
                    kind_ids(blueprint.rooms@, FacilityKind::PowerPlant),
                    h,
                    kind_ids(blueprint.rooms@, FacilityKind::PowerPlant).len() as int,
                )
            },
{
    let (t0, t1) = split_kind(blueprint, FacilityKind::TradePost);
    let (m0, m1) = split_kind(blueprint, FacilityKind::Factory);
    let (p0, p1) = split_kind(blueprint, FacilityKind::PowerPlant);
    let r = [FacilityHalf { trade: t0, manu: m0, power: p0 }, FacilityHalf { trade: t1, manu: m1, power: p1 }];
    assert(r@[0].trade@ == r[0].trade@);
    r
}

/// The room ids of a half: trade, then factory, then power rooms.
pub open spec fn half_ids(half: FacilityHalf) -> Seq<Seq<char>> {
    ids_view(half.trade@) + ids_view(half.manu@) + ids_view(half.power@)
}

/// The rooms of `ids[0..n]` that hold operators in `peak`, copied one after another.
pub open spec fn copy_rooms(peak: AssignView, ids: Seq<Seq<char>>, n: int) -> AssignView
    decreases n,
{
    if n <= 0 {
        Seq::empty()
    } else if ops_in(peak, ids[n - 1]).len() > 0 {
        with_room(copy_rooms(peak, ids, n - 1), ids[n - 1], ops_in(peak, ids[n - 1]))
    } else {
        copy_rooms(peak, ids, n - 1)
    }
}

/// Copies the given rooms of `peak` that hold operators into `target`.
fn copy_listed_rooms(
    peak: &BaseAssignment,
    ids: &Vec<RoomId>,
    target: &mut BaseAssignment,
    Ghost(all): Ghost<Seq<Seq<char>>>,
    Ghost(offset): Ghost<int>,
)
    requires
        0 <= offset,
        offset + ids@.len() <= all.len(),
        forall|k: int| 0 <= k < ids@.len() ==> all[offset + k] == (#[trigger] ids@[k]).0@,
        old(target)@ == copy_rooms(peak@, all, offset),
    ensures
        final(target)@ == copy_rooms(peak@, all, offset + ids@.len()),
{
    let mut i: usize = 0;
    while i < ids.len()
        invariant
            0 <= i <= ids@.len(),
            0 <= offset,
            offset + ids@.len() <= all.len(),
            forall|k: int| 0 <= k < ids@.len() ==> all[offset + k] == (#[trigger] ids@[k]).0@,
            target@ == copy_rooms(peak@, all, offset + i),
        decreases ids@.len() - i,
    {
        assert(all[offset + i] == ids@[i as int].0@);
        let ops = peak.operators_in(&ids[i]);
        if ops.len() > 0 {
            target.set_room(ids[i].duplicate(), ops);
        }
        i = i + 1;
    }
}

/// The peak assignment restricted to one half: the half's rooms that hold
/// operators at peak, with the same operators.
pub fn production_half_from_peak(peak: &BaseAssignment, half: &FacilityHalf) -> (r: BaseAssignment)
    ensures
        r@ == copy_rooms(peak@, half_ids(*half), half_ids(*half).len() as int),
{
    let ghost all = half_ids(*half);
    let ghost nt = half.trade@.len() as int;
    let ghost nm = half.manu@.len() as int;
    let mut r = BaseAssignment::new();
    assert(r@ =~= copy_rooms(peak@, all, 0));
    copy_listed_rooms(peak, &half.trade, &mut r, Ghost(all), Ghost(0));
    copy_listed_rooms(peak, &half.manu, &mut r, Ghost(all), Ghost(nt));
    copy_listed_rooms(peak, &half.power, &mut r, Ghost(all), Ghost(nt + nm));
    r
}

/// `target` with the first `n` rooms of `source` set one after another.
pub open spec fn merge_fold(target: AssignView, source: AssignView, n: int) -> AssignView
    decreases n,
{
    if n <= 0 {
        target
    } else {
        with_room(merge_fold(target, source, n - 1), source[n - 1].0, source[n - 1].1)
    }
}

/// Sets every room of `source` in `target`, replacing what it held.
pub fn merge_rooms(target: &mut BaseAssignment, source: &BaseAssignment)
    ensures
        final(target)@ == merge_fold(old(target)@, source@, source@.len() as int),
{
    let mut i: usize = 0;
    while i < source.rooms.len()
        invariant
            0 <= i <= source.rooms@.len(),
            target@ == merge_fold(old(target)@, source@, i as int),
        decreases source.rooms@.len() - i,
    {
        let room = &source.rooms[i];
        assert(source@[i as int] == room_view(*room));
        target.set_room(room.room_id.duplicate(), copy_ops(&room.operators));
        i = i + 1;
    }
}

/// One shift of the three-team rotation: its length in hours, the two teams
/// at work and the team at rest.
pub struct TeamShiftSpec {
    pub hours: u8,
    pub active: [TeamLabel; 2],
    pub resting: TeamLabel,
}

/// Shift `i` of the rotation as `(hours, first active, second active, resting)`:
/// 12 h with α and β (γ rests), 6 h with β and γ (α rests), 6 h with γ and α (β rests).
pub open spec fn team_shift(i: int) -> (u8, TeamLabel, TeamLabel, TeamLabel) {
    if i == 0 {
        (12, TeamLabel::Alpha, TeamLabel::Beta, TeamLabel::Gamma)
    } else if i == 1 {
        (6, TeamLabel::Beta, TeamLabel::Gamma, TeamLabel::Alpha)
    } else {
        (6, TeamLabel::Gamma, TeamLabel::Alpha, TeamLabel::Beta)
    }
}

/// The three shifts of the α/β/γ rotation.
pub fn team_shift_specs() -> (r: [TeamShiftSpec; 3])
    ensures
        forall|i: int|
            0 <= i < 3 ==> ((#[trigger] r@[i]).hours, r@[i].active@[0], r@[i].active@[1], r@[i].resting) == team_shift(i),
{
    let r = [
        TeamShiftSpec { hours: 12, active: [TeamLabel::Alpha, TeamLabel::Beta], resting: TeamLabel::Gamma },
        TeamShiftSpec { hours: 6, active: [TeamLabel::Beta, TeamLabel::Gamma], resting: TeamLabel::Alpha },
        TeamShiftSpec { hours: 6, active: [TeamLabel::Gamma, TeamLabel::Alpha], resting: TeamLabel::Beta },
    ];
    assert(r@[0].active@[0] == TeamLabel::Alpha);
    assert(r@[1].active@[0] == TeamLabel::Beta);
    assert(r@[2].active@[0] == TeamLabel::Gamma);
    r
}

/// The rotation covers a day (12 + 6 + 6 hours); each team rests in exactly
/// one shift, and in every shift the two other teams work.
pub proof fn lemma_team_rotation_balanced()
    ensures
        team_shift(0).0 + team_shift(1).0 + team_shift(2).0 == 24,
        set![team_shift(0).3, team_shift(1).3, team_shift(2).3] == set![TeamLabel::Alpha, TeamLabel::Beta, TeamLabel::Gamma],
        forall|i: int, j: int|
            0 <= i < 3 && 0 <= j < 3 && i != j ==> (#[trigger] team_shift(i)).3 != (#[trigger] team_shift(j)).3,
        forall|i: int|
            0 <= i < 3 ==> {
                let s = #[trigger] team_shift(i);
                s.1 != s.2 && s.1 != s.3 && s.2 != s.3
            },
{
    assert(set![team_shift(0).3, team_shift(1).3, team_shift(2).3] =~= set![TeamLabel::Alpha, TeamLabel::Beta, TeamLabel::Gamma]);
}

/// The assignment of one shift: the shared rooms with the two working halves set over them.
pub fn assemble_shift(shared: &BaseAssignment, first: &BaseAssignment, second: &BaseAssignment) -> (r: BaseAssignment)
    ensures
        r@ == merge_fold(merge_fold(shared@, first@, first@.len() as int), second@, second@.len() as int),
{
    let mut r = shared.duplicate();
    merge_rooms(&mut r, first);
    merge_rooms(&mut r, second);
    r
}

/// The three teams: α and β are the operators of their halves at peak; γ is
/// everyone of its two stand-in halves. Each team's operators come sorted, each once.
pub fn team_roster(
    alpha: &BaseAssignment,
    beta: &BaseAssignment,
    gamma_h1: &BaseAssignment,
    gamma_h2: &BaseAssignment,
) -> (r: Vec<TeamAssignment>)
    ensures
        r@.len() == 3,
        r@[0].label == TeamLabel::Alpha && r@[1].label == TeamLabel::Beta && r@[2].label == TeamLabel::Gamma,
        forall|i: int| 0 <= i < 3 ==> sorted_names(views((#[trigger] r@[i]).operators@)),
        views(r@[0].operators@).to_set() == flat_names(alpha@).to_set(),
        views(r@[1].operators@).to_set() == flat_names(beta@).to_set(),
        views(r@[2].operators@).to_set() == flat_names(gamma_h1@).to_set() + flat_names(gamma_h2@).to_set(),
{
    let mut gamma = operators_of(gamma_h1);
    let second = operators_of(gamma_h2);
    let ghost base = flat_names(gamma_h1@).to_set();
    let mut i: usize = 0;
    assert(views(second@).subrange(0, 0).to_set() =~= Set::<Seq<char>>::empty());
    assert(base + Set::<Seq<char>>::empty() =~= base);
    while i < second.len()
        invariant
            0 <= i <= second@.len(),
            sorted_names(views(gamma@)),
            views(gamma@).to_set() == base + views(second@).subrange(0, i as int).to_set(),
        decreases second@.len() - i,
    {
        let ghost sub = views(second@).subrange(0, i as int);
        insert_sorted(&mut gamma, &second[i]);
        proof {
            assert(views(second@).subrange(0, i + 1) =~= sub.push(second@[i as int]@));
            lemma_push_to_set(sub, second@[i as int]@);
            assert(base + sub.push(second@[i as int]@).to_set() =~= (base + sub.to_set()).insert(second@[i as int]@));
        }
        i = i + 1;
    }
    assert(views(second@).subrange(0, second@.len() as int) =~= views(second@));
    let teams = vec![
        TeamAssignment { label: TeamLabel::Alpha, operators: operators_of(alpha) },
        TeamAssignment { label: TeamLabel::Beta, operators: operators_of(beta) },
        TeamAssignment { label: TeamLabel::Gamma, operators: gamma },
    ];
    teams
}

/// One shift of the A-B-A rotation: its role, assignment, rotating workers
/// (sorted) and, for the third shift, the shift it repeats.
pub struct ShiftPlan {
    pub index: usize,
    pub role: BaseShiftRole,
    pub assignment: BaseAssignment,
    pub rotating_workers: Vec<String>,
    pub reused_from_shift: Option<usize>,
}

/// What the recovery shift starts from: the peak shift's rotating workers
/// (who rest during recovery) and its pinned rooms (control centre,
/// dormitories and offices, which keep their operators). Fails when the peak shift
/// has nobody in trade, factory or power rooms.
pub fn peak_rotation_seed(peak: &BaseAssignment, blueprint: &BaseBlueprint) -> (r: Result<(NameSet, BaseAssignment), Error>)
    ensures
        match r {
            Ok((rot, pinned)) => {
                &&& rot@ == flat_names_of_kind(peak@, blueprint.rooms@, true).to_set()
                &&& rot@ != Set::<Seq<char>>::empty()
                &&& pinned@ == pinned_prefix(peak@, blueprint.rooms@, peak@.len())
            },
            Err(e) => e is NoPeakRotation && flat_names_of_kind(peak@, blueprint.rooms@, true).to_set() == Set::<Seq<char>>::empty(),
        },
{
    let rot = rotating_workers(peak, blueprint);
    if rot.is_empty() {
        return Err(Error::NoPeakRotation);
    }
    let pinned = pinned_assignment(peak, blueprint);
    Ok((rot, pinned))
}

/// The A-B-A rotation: peak, recovery, then the peak shift again (reusing
/// the first); fails when the two shifts share a rotating worker.
pub fn plan_base_rotation(
    blueprint: &BaseBlueprint,
    peak: &BaseAssignment,
    recovery: &BaseAssignment,
) -> (r: Result<Vec<ShiftPlan>, Error>)
    ensures
        ({
            let pr = flat_names_of_kind(peak@, blueprint.rooms@, true).to_set();
            let rr = flat_names_of_kind(recovery@, blueprint.rooms@, true).to_set();
            &&& r is Ok <==> pr.disjoint(rr)
            &&& r is Err ==> (r matches Err(Error::ShiftOverlap { overlap: o, .. }) && views(o@).to_set() == pr.intersect(rr))
            &&& r matches Ok(plans) ==> {
                &&& plans@.len() == 3
                &&& plans@[0].index == 0 && plans@[1].index == 1 && plans@[2].index == 2
                &&& plans@[0].role == BaseShiftRole::Peak && plans@[1].role == BaseShiftRole::Recovery && plans@[2].role
                    == BaseShiftRole::Peak
                &&& plans@[0].assignment@ == peak@ && plans@[1].assignment@ == recovery@ && plans@[2].assignment@ == peak@
                &&& plans@[0].reused_from_shift is None && plans@[1].reused_from_shift is None
                    && plans@[2].reused_from_shift == Some(0usize)
                &&& sorted_names(views(plans@[0].rotating_workers@)) && views(plans@[0].rotating_workers@).to_set() == pr
                &&& sorted_names(views(plans@[1].rotating_workers@)) && views(plans@[1].rotating_workers@).to_set() == rr
                &&& sorted_names(views(plans@[2].rotating_workers@)) && views(plans@[2].rotating_workers@).to_set() == pr
            }
        }),
{
    let peak_rot = rotating_workers(peak, blueprint);
    let rec_rot = rotating_workers(recovery, blueprint);
    match assert_disjoint(&peak_rot, &rec_rot, "高峰班与恢复班") {
        Err(e) => {
            return Err(e);
        },
        Ok(()) => {},
    }
    let plans = vec![
        ShiftPlan {
            index: 0,
            role: BaseShiftRole::Peak,
            assignment: peak.duplicate(),
            rotating_workers: workers_sorted(&peak_rot),
            reused_from_shift: None,
        },
        ShiftPlan {
            index: 1,
            role: BaseShiftRole::Recovery,
            assignment: recovery.duplicate(),
            rotating_workers: workers_sorted(&rec_rot),
            reused_from_shift: None,
        },
        ShiftPlan {
            index: 2,
            role: BaseShiftRole::Peak,
            assignment: peak.duplicate(),
            rotating_workers: workers_sorted(&peak_rot),
            reused_from_shift: Some(0),
        },
    ];
    Ok(plans)
}

} // verus!
