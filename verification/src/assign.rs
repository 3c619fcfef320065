//! Helpers of the shift assignment: who is placed where, which rooms rotate
//! between shifts, and committing operators to rooms without placing anyone twice.
use vstd::prelude::*;

use crate::error::Error;
use crate::layout::{
    kind_of, op_names, ops_in, ops_view, room_index, room_view, with_room, AssignedOperator, BaseAssignment,
    BaseBlueprint, FacilityKind, RoomBlueprint, RoomId, copy_ops,
};
use crate::names::{views, NameSet};
use crate::text::str_eq;

verus! {

/// Seen form of an assignment: rooms with their `(name, elite)` operators.
pub type AssignView = Seq<(Seq<char>, Seq<(Seq<char>, u8)>)>;

/// All operator names of an assignment, room after room.
pub open spec fn flat_names(rooms: AssignView) -> Seq<Seq<char>>
    decreases rooms.len(),
{
    if rooms.len() == 0 {
        Seq::empty()
    } else {
        flat_names(rooms.drop_last()) + op_names(rooms.last().1)
    }
}

pub(crate) proof fn lemma_push_to_set(s: Seq<Seq<char>>, x: Seq<char>)
    ensures
        s.push(x).to_set() == s.to_set().insert(x),
{
    assert forall|k: Seq<char>| s.push(x).contains(k) <==> s.to_set().insert(x).contains(k) by {
        if s.push(x).contains(k) {
            let i = choose|i: int| 0 <= i < s.push(x).len() && s.push(x)[i] == k;
            if i < s.len() {
                assert(s[i] == k);
            }
        }
        if s.contains(k) {
            let i = choose|i: int| 0 <= i < s.len() && s[i] == k;
            assert(s.push(x)[i] == k);
        }
        if k == x {
            assert(s.push(x)[s.len() as int] == k);
        }
    }
    assert(s.push(x).to_set() =~= s.to_set().insert(x));
}

/// Adds the names of `ops` to `set`.
fn add_names(set: &mut NameSet, ops: &Vec<AssignedOperator>, Ghost(base): Ghost<Seq<Seq<char>>>)
    requires
        old(set)@ == base.to_set(),
    ensures
        final(set)@ == (base + op_names(ops_view(ops@))).to_set(),
{
    let mut j: usize = 0;
    while j < ops.len()
        invariant
            0 <= j <= ops@.len(),
            set@ == (base + op_names(ops_view(ops@)).subrange(0, j as int)).to_set(),
        decreases ops@.len() - j,
    {
        let ghost g = base + op_names(ops_view(ops@)).subrange(0, j as int);
        set.insert(ops[j].name.clone());
        proof {
            lemma_push_to_set(g, ops@[j as int].name@);
            assert(base + op_names(ops_view(ops@)).subrange(0, j + 1) =~= g.push(ops@[j as int].name@));
        }
        j = j + 1;
    }
    assert(op_names(ops_view(ops@)).subrange(0, ops@.len() as int) =~= op_names(ops_view(ops@)));
}

/// Every operator placed anywhere in the assignment.
pub fn assignment_operator_names(assignment: &BaseAssignment) -> (r: NameSet)
    ensures
        r@ == flat_names(assignment@).to_set(),
{
    let mut names = NameSet::new();
    let mut i: usize = 0;
    assert(flat_names(assignment@.subrange(0, 0)).to_set() =~= Set::<Seq<char>>::empty());
    while i < assignment.rooms.len()
        invariant
            0 <= i <= assignment.rooms@.len(),
            names@ == flat_names(assignment@.subrange(0, i as int)).to_set(),
        decreases assignment.rooms@.len() - i,
    {
        let ghost base = flat_names(assignment@.subrange(0, i as int));
        add_names(&mut names, &assignment.rooms[i].operators, Ghost(base));
        proof {
            let ghost p = assignment@.subrange(0, i + 1);
            assert(p.drop_last() =~= assignment@.subrange(0, i as int));
            assert(p.last() == room_view(assignment.rooms@[i as int]));
        }
        i = i + 1;
    }
    assert(assignment@.subrange(0, assignment@.len() as int) =~= assignment@);
    names
}

/// Trade, factory and power rooms change operators between shifts.
pub open spec fn is_rotating_kind(k: FacilityKind) -> bool {
    k == FacilityKind::TradePost || k == FacilityKind::Factory || k == FacilityKind::PowerPlant
}

/// Names in the rooms whose layout kind satisfies `keep`, room after room.
pub open spec fn flat_names_of_kind(
    rooms: AssignView,
    layout: Seq<RoomBlueprint>,
    rotating: bool,
) -> Seq<Seq<char>>
    decreases rooms.len(),
{
    if rooms.len() == 0 {
        Seq::empty()
    } else {
        let rest = flat_names_of_kind(rooms.drop_last(), layout, rotating);
        match kind_of(layout, rooms.last().0) {
            Some(k) => if is_rotating_kind(k) == rotating {
                rest + op_names(rooms.last().1)
            } else {
                rest
            },
            None => rest,
        }
    }
}

/// Operators of the trade, factory and power rooms (the rotating posts).
pub fn rotating_workers(assignment: &BaseAssignment, blueprint: &BaseBlueprint) -> (r: NameSet)
    ensures
        r@ == flat_names_of_kind(assignment@, blueprint.rooms@, true).to_set(),
{
    let mut names = NameSet::new();
    let mut i: usize = 0;
    assert(flat_names_of_kind(assignment@.subrange(0, 0), blueprint.rooms@, true).to_set() =~= Set::<Seq<char>>::empty());
    while i < assignment.rooms.len()
        invariant
            0 <= i <= assignment.rooms@.len(),
            names@ == flat_names_of_kind(assignment@.subrange(0, i as int), blueprint.rooms@, true).to_set(),
        decreases assignment.rooms@.len() - i,
    {
        let ghost base = flat_names_of_kind(assignment@.subrange(0, i as int), blueprint.rooms@, true);
        let room = &assignment.rooms[i];
        let ghost p = assignment@.subrange(0, i + 1);
        proof {
            assert(p.drop_last() =~= assignment@.subrange(0, i as int));
            assert(p.last() == room_view(assignment.rooms@[i as int]));
        }
        match blueprint.room(&room.room_id) {
            None => {},
            Some(bp) => {
                if bp.kind == FacilityKind::TradePost || bp.kind == FacilityKind::Factory
                    || bp.kind == FacilityKind::PowerPlant {
                    add_names(&mut names, &room.operators, Ghost(base));
                } else {
                }
            },
        }
        i = i + 1;
    }
    assert(assignment@.subrange(0, assignment@.len() as int) =~= assignment@);
    names
}

/// Control centre, dormitories and offices keep their operators over all shifts.
pub open spec fn is_pinned_kind(k: FacilityKind) -> bool {
    k == FacilityKind::ControlCenter || k == FacilityKind::Dormitory || k == FacilityKind::Office
}

/// The pinned rooms of the first `n` assigned rooms, in order.
pub open spec fn pinned_prefix(rooms: AssignView, layout: Seq<RoomBlueprint>, n: nat) -> AssignView
    decreases n,
{
    if n == 0 || n > rooms.len() {
        Seq::empty()
    } else {
        let prev = pinned_prefix(rooms, layout, (n - 1) as nat);
        let r = rooms[n - 1];
        match kind_of(layout, r.0) {
            Some(k) => if is_pinned_kind(k) && r.1.len() > 0 {
                with_room(prev, r.0, r.1)
            } else {
                prev
            },
            None => prev,
        }
    }
}

/// The control centre, dormitory and office rooms with operators (kept over all shifts).
pub fn pinned_assignment(assignment: &BaseAssignment, blueprint: &BaseBlueprint) -> (r: BaseAssignment)
    ensures
        r@ == pinned_prefix(assignment@, blueprint.rooms@, assignment@.len()),
{
    let mut pinned = BaseAssignment::new();
    let mut i: usize = 0;
    while i < assignment.rooms.len()
        invariant
            0 <= i <= assignment.rooms@.len(),
            pinned@ == pinned_prefix(assignment@, blueprint.rooms@, i as nat),
        decreases assignment.rooms@.len() - i,
    {
        let room = &assignment.rooms[i];
        assert(assignment@[i as int] == room_view(*room));
        match blueprint.room(&room.room_id) {
            None => {},
            Some(bp) => {
                if (bp.kind == FacilityKind::ControlCenter || bp.kind == FacilityKind::Dormitory
                    || bp.kind == FacilityKind::Office) && room.operators.len() > 0 {
                    pinned.set_room(room.room_id.duplicate(), copy_ops(&room.operators));
                }
            },
        }
        i = i + 1;
    }
    pinned
}

/// The room is of a pinned kind in the layout and has operators.
pub open spec fn keeps_pinned(r: (Seq<char>, Seq<(Seq<char>, u8)>), layout: Seq<RoomBlueprint>) -> bool {
    match kind_of(layout, r.0) {
        Some(k) => is_pinned_kind(k) && r.1.len() > 0,
        None => false,
    }
}

/// No room id is listed twice.
pub open spec fn room_ids_distinct(rooms: AssignView) -> bool {
    forall|i: int, j: int| 0 <= i < rooms.len() && 0 <= j < rooms.len() && i != j ==> rooms[i].0 != rooms[j].0
}

proof fn lemma_pinned_prefix_shape(rooms: AssignView, layout: Seq<RoomBlueprint>, n: nat)
    requires
        n <= rooms.len(),
    ensures
        room_ids_distinct(pinned_prefix(rooms, layout, n)),
        forall|j: int| 0 <= j < pinned_prefix(rooms, layout, n).len() ==> keeps_pinned(
            #[trigger] pinned_prefix(rooms, layout, n)[j],
            layout,
        ) && exists|i: int| 0 <= i < n && rooms[i] == pinned_prefix(rooms, layout, n)[j],
    decreases n,
{
    if n > 0 {
        lemma_pinned_prefix_shape(rooms, layout, (n - 1) as nat);
        let prev = pinned_prefix(rooms, layout, (n - 1) as nat);
        let r = rooms[n - 1];
        if keeps_pinned(r, layout) {
            let w = with_room(prev, r.0, r.1);
            assert(w == pinned_prefix(rooms, layout, n));
            assert(r == (r.0, r.1));
            crate::layout::lemma_room_index(prev, r.0, 0);
            assert forall|j: int| 0 <= j < w.len() implies keeps_pinned(#[trigger] w[j], layout) && exists|i: int|
                0 <= i < n && rooms[i] == w[j] by {
                if j < prev.len() && w[j] == prev[j] {
                    let i = choose|i: int| 0 <= i < n - 1 && rooms[i] == prev[j];
                    assert(rooms[i] == w[j]);
                } else {
                    assert(w[j] == r);
                    assert(rooms[n - 1] == w[j]);
                }
            }
        } else {
            assert(prev == pinned_prefix(rooms, layout, n));
            assert forall|j: int| 0 <= j < prev.len() implies keeps_pinned(#[trigger] prev[j], layout) && exists|i: int|
                0 <= i < n && rooms[i] == prev[j] by {
                let i = choose|i: int| 0 <= i < n - 1 && rooms[i] == prev[j];
            }
        }
    }
}

proof fn lemma_pinned_prefix_fixed(rooms: AssignView, layout: Seq<RoomBlueprint>, m: nat)
    requires
        m <= rooms.len(),
        room_ids_distinct(rooms),
        forall|j: int| 0 <= j < rooms.len() ==> keeps_pinned(#[trigger] rooms[j], layout),
    ensures
        pinned_prefix(rooms, layout, m) == rooms.subrange(0, m as int),
    decreases m,
{
    if m == 0 {
        assert(rooms.subrange(0, 0) =~= Seq::<(Seq<char>, Seq<(Seq<char>, u8)>)>::empty());
    } else {
        lemma_pinned_prefix_fixed(rooms, layout, (m - 1) as nat);
        let prev = rooms.subrange(0, m - 1);
        let r = rooms[m - 1];
        assert(keeps_pinned(r, layout));
        crate::layout::lemma_room_index(prev, r.0, 0);
        if let Some(i) = room_index(prev, r.0, 0) {
            assert(prev[i] == rooms[i]);
        }
        assert(prev.push((r.0, r.1)) =~= rooms.subrange(0, m as int));
    }
}

proof fn lemma_pinned_none_rotate(rooms: AssignView, layout: Seq<RoomBlueprint>)
    requires
        forall|j: int| 0 <= j < rooms.len() ==> keeps_pinned(#[trigger] rooms[j], layout),
    ensures
        flat_names_of_kind(rooms, layout, true) == Seq::<Seq<char>>::empty(),
    decreases rooms.len(),
{
    if rooms.len() > 0 {
        let d = rooms.drop_last();
        assert forall|j: int| 0 <= j < d.len() implies keeps_pinned(#[trigger] d[j], layout) by {
            assert(d[j] == rooms[j]);
        }
        lemma_pinned_none_rotate(d, layout);
        assert(keeps_pinned(rooms[rooms.len() - 1], layout));
    }
}

proof fn lemma_pinned_prefix_reads(rooms: AssignView, layout: Seq<RoomBlueprint>, n: nat)
    requires
        n <= rooms.len(),
        room_ids_distinct(rooms),
    ensures
        forall|i: int|
            0 <= i < n && keeps_pinned(#[trigger] rooms[i], layout) ==> ops_in(pinned_prefix(rooms, layout, n), rooms[i].0)
                == rooms[i].1,
    decreases n,
{
    if n > 0 {
        lemma_pinned_prefix_reads(rooms, layout, (n - 1) as nat);
        let prev = pinned_prefix(rooms, layout, (n - 1) as nat);
        let r = rooms[n - 1];
        if keeps_pinned(r, layout) {
            assert forall|i: int| 0 <= i < n && keeps_pinned(#[trigger] rooms[i], layout) implies ops_in(
                pinned_prefix(rooms, layout, n),
                rooms[i].0,
            ) == rooms[i].1 by {
                if i == n - 1 {
                    crate::layout::lemma_with_room_read_back(prev, r.0, r.1);
                } else {
                    crate::layout::lemma_with_room_others(prev, r.0, r.1, rooms[i].0);
                }
            }
        }
    }
}

/// Pinning is idempotent: pinning the pinned rooms again gives them back, and
/// none of them is a rotating post. Every pinned room is a room of the
/// assignment of a pinned kind with operators, listed once; when the
/// assignment lists no room twice, each such room keeps exactly its operators.
pub proof fn lemma_pinned_assignment_laws(a: AssignView, layout: Seq<RoomBlueprint>)
    ensures
        pinned_prefix(pinned_prefix(a, layout, a.len()), layout, pinned_prefix(a, layout, a.len()).len())
            == pinned_prefix(a, layout, a.len()),
        flat_names_of_kind(pinned_prefix(a, layout, a.len()), layout, true) == Seq::<Seq<char>>::empty(),
        room_ids_distinct(pinned_prefix(a, layout, a.len())),
        forall|j: int|
            0 <= j < pinned_prefix(a, layout, a.len()).len() ==> keeps_pinned(
                #[trigger] pinned_prefix(a, layout, a.len())[j],
                layout,
            ) && exists|i: int| 0 <= i < a.len() && a[i] == pinned_prefix(a, layout, a.len())[j],
        room_ids_distinct(a) ==> forall|i: int|
            0 <= i < a.len() && keeps_pinned(#[trigger] a[i], layout) ==> ops_in(
                pinned_prefix(a, layout, a.len()),
                a[i].0,
            ) == a[i].1,
{
    let p = pinned_prefix(a, layout, a.len());
    lemma_pinned_prefix_shape(a, layout, a.len());
    lemma_pinned_prefix_fixed(p, layout, p.len());
    assert(p.subrange(0, p.len() as int) =~= p);
    lemma_pinned_none_rotate(p, layout);
    if room_ids_distinct(a) {
        lemma_pinned_prefix_reads(a, layout, a.len());
    }
}

/// `name` sits in room `id`.
pub open spec fn room_has(rooms: AssignView, id: Seq<char>, name: Seq<char>) -> bool {
    op_names(ops_in(rooms, id)).contains(name)
}

/// Whether `name` is among `ops`.
pub(crate) fn ops_have(ops: &Vec<AssignedOperator>, name: &str) -> (r: bool)
    ensures
        r == op_names(ops_view(ops@)).contains(name@),
{
    let mut i: usize = 0;
    while i < ops.len()
        invariant
            0 <= i <= ops@.len(),
            forall|j: int| 0 <= j < i ==> ops@[j].name@ != name@,
        decreases ops@.len() - i,
    {
        if str_eq(ops[i].name.as_str(), name) {
            assert(op_names(ops_view(ops@))[i as int] == name@);
            return true;
        }
        i = i + 1;
    }
    proof {
        if op_names(ops_view(ops@)).contains(name@) {
            let k = choose|k: int| 0 <= k < op_names(ops_view(ops@)).len() && op_names(ops_view(ops@))[k] == name@;
            assert(ops@[k].name@ == name@);
        }
    }
    false
}

/// Whether `name` sits in room `room_id`.
pub fn trade_room_has_operator(assignment: &BaseAssignment, room_id: &RoomId, name: &str) -> (r: bool)
    ensures
        r == room_has(assignment@, room_id.0@, name@),
{
    let ops = assignment.operators_in(room_id);
    ops_have(&ops, name)
}

/// `name` sits in some room.
pub open spec fn placed_anywhere(rooms: AssignView, name: Seq<char>) -> bool {
    exists|i: int| 0 <= i < rooms.len() && op_names(#[trigger] rooms[i].1).contains(name)
}

/// Whether `name` sits in any room.
pub fn assignment_has_operator(assignment: &BaseAssignment, name: &str) -> (r: bool)
    ensures
        r == placed_anywhere(assignment@, name@),
{
    let mut i: usize = 0;
    while i < assignment.rooms.len()
        invariant
            0 <= i <= assignment.rooms@.len(),
            forall|j: int| 0 <= j < i ==> !op_names(#[trigger] assignment@[j].1).contains(name@),
        decreases assignment.rooms@.len() - i,
    {
        assert(assignment@[i as int] == room_view(assignment.rooms@[i as int]));
        if ops_have(&assignment.rooms[i].operators, name) {
            assert(op_names(assignment@[i as int].1).contains(name@));
            return true;
        }
        i = i + 1;
    }
    false
}

/// The survey-corps consumer of matatabi.
pub open spec fn matatabi_consumer() -> Seq<char> {
    "泰拉大陆调查团"@
}

/// Whether the survey corps works anywhere in this shift.
pub fn assignment_has_matatabi_consumer(assignment: &BaseAssignment) -> (r: bool)
    ensures
        r == placed_anywhere(assignment@, matatabi_consumer()),
{
    assignment_has_operator(assignment, "泰拉大陆调查团")
}

pub open spec fn blackkey() -> Seq<char> {
    "黑键"@
}

pub open spec fn witch() -> Seq<char> {
    "巫恋"@
}

/// Some trade post of the layout holds `name`.
pub open spec fn trade_post_has(rooms: AssignView, layout: Seq<RoomBlueprint>, name: Seq<char>) -> bool {
    exists|i: int|
        0 <= i < layout.len() && (#[trigger] layout[i]).kind == FacilityKind::TradePost && room_has(
            rooms,
            layout[i].id.0@,
            name,
        )
}

/// Whether Black Key anchors some trade post.
pub fn assignment_has_blackkey_trade_anchor(assignment: &BaseAssignment, blueprint: &BaseBlueprint) -> (r: bool)
    ensures
        r == trade_post_has(assignment@, blueprint.rooms@, blackkey()),
{
    let mut i: usize = 0;
    while i < blueprint.rooms.len()
        invariant
            0 <= i <= blueprint.rooms@.len(),
            forall|j: int|
                0 <= j < i ==> !((#[trigger] blueprint.rooms@[j]).kind == FacilityKind::TradePost
                    && room_has(assignment@, blueprint.rooms@[j].id.0@, blackkey())),
        decreases blueprint.rooms@.len() - i,
    {
        let room = &blueprint.rooms[i];
        if room.kind == FacilityKind::TradePost && trade_room_has_operator(assignment, &room.id, "黑键") {
            return true;
        }
        i = i + 1;
    }
    false
}

/// Some trade post holds both Black Key and Shamare.
pub open spec fn blackkey_with_witch(rooms: AssignView, layout: Seq<RoomBlueprint>) -> bool {
    exists|i: int|
        0 <= i < layout.len() && (#[trigger] layout[i]).kind == FacilityKind::TradePost && room_has(
            rooms,
            layout[i].id.0@,
            blackkey(),
        ) && room_has(rooms, layout[i].id.0@, witch())
}

/// Whether Black Key and Shamare share a trade post (which the planner must avoid).
pub fn blackkey_witch_same_trade_room(assignment: &BaseAssignment, blueprint: &BaseBlueprint) -> (r: bool)
    ensures
        r == blackkey_with_witch(assignment@, blueprint.rooms@),
{
    let mut i: usize = 0;
    while i < blueprint.rooms.len()
        invariant
            0 <= i <= blueprint.rooms@.len(),
            forall|j: int|
                0 <= j < i ==> !((#[trigger] blueprint.rooms@[j]).kind == FacilityKind::TradePost
                    && room_has(assignment@, blueprint.rooms@[j].id.0@, blackkey())
                    && room_has(assignment@, blueprint.rooms@[j].id.0@, witch())),
        decreases blueprint.rooms@.len() - i,
    {
        let room = &blueprint.rooms[i];
        if room.kind == FacilityKind::TradePost && trade_room_has_operator(assignment, &room.id, "黑键")
            && trade_room_has_operator(assignment, &room.id, "巫恋") {
            return true;
        }
        i = i + 1;
    }
    false
}

/// First empty room among `rooms` at or after position `from`, with its position.
pub fn next_empty_trade_room<'a>(
    rooms: &Vec<&'a RoomBlueprint>,
    assignment: &BaseAssignment,
    from: usize,
) -> (r: Option<(usize, &'a RoomBlueprint)>)
    ensures
        match r {
            Some((i, room)) => from <= i < rooms@.len() && *room == *rooms@[i as int] && ops_in(
                assignment@,
                room.id.0@,
            ).len() == 0 && forall|j: int|
                from <= j < i ==> ops_in(assignment@, (#[trigger] rooms@[j]).id.0@).len() > 0,
            None => forall|j: int|
                from <= j < rooms@.len() ==> ops_in(assignment@, (#[trigger] rooms@[j]).id.0@).len() > 0,
        },
{
    let mut i: usize = from;
    while i < rooms.len()
        invariant
            from <= i,
            forall|j: int| from <= j < i && j < rooms@.len() ==> ops_in(assignment@, (#[trigger] rooms@[j]).id.0@).len() > 0,
        decreases rooms@.len() - i,
    {
        if assignment.room_is_empty(&rooms[i].id) {
            return Some((i, rooms[i]));
        }
        i = i + 1;
    }
    None
}

/// Names of the operators of room `room_id` when it holds one or two of them
/// (anchors placed by a base system); `None` when empty or full.
pub fn partial_room_anchors(assignment: &BaseAssignment, room_id: &RoomId) -> (r: Option<Vec<String>>)
    ensures
        match r {
            Some(v) => 0 < ops_in(assignment@, room_id.0@).len() < 3 && views(v@) == op_names(
                ops_in(assignment@, room_id.0@),
            ),
            None => ops_in(assignment@, room_id.0@).len() == 0 || ops_in(assignment@, room_id.0@).len()
                >= 3,
        },
{
    let ops = assignment.operators_in(room_id);
    if ops.len() == 0 || ops.len() >= 3 {
        return None;
    }
    let mut v: Vec<String> = Vec::new();
    let mut i: usize = 0;
    while i < ops.len()
        invariant
            0 <= i <= ops@.len(),
            views(v@) == op_names(ops_view(ops@)).subrange(0, i as int),
        decreases ops@.len() - i,
    {
        let ghost pre = v@;
        let nm = ops[i].name.clone();
        v.push(nm);
        assert(v@ == pre.push(nm));
        assert(views(v@) =~= views(pre).push(ops@[i as int].name@));
        assert(op_names(ops_view(ops@))[i as int] == ops@[i as int].name@);
        assert(views(v@) =~= op_names(ops_view(ops@)).subrange(0, i + 1));
        i = i + 1;
    }
    assert(op_names(ops_view(ops@)).subrange(0, ops@.len() as int) =~= op_names(ops_view(ops@)));
    Some(v)
}

/// None of `names` is in `used`.
pub fn names_disjoint(names: &Vec<String>, used: &NameSet) -> (r: bool)
    ensures
        r == forall|i: int| 0 <= i < names@.len() ==> !used@.contains(#[trigger] names@[i]@),
{
    let mut i: usize = 0;
    while i < names.len()
        invariant
            0 <= i <= names@.len(),
            forall|j: int| 0 <= j < i ==> !used@.contains(#[trigger] names@[j]@),
        decreases names@.len() - i,
    {
        if used.contains(names[i].as_str()) {
            return false;
        }
        i = i + 1;
    }
    true
}

/// None of `names` is in `used_wo` (the used names without the room's anchors).
pub fn names_disjoint_except(names: &Vec<String>, used_wo: &NameSet) -> (r: bool)
    ensures
        r == forall|i: int| 0 <= i < names@.len() ==> !used_wo@.contains(#[trigger] names@[i]@),
{
    names_disjoint(names, used_wo)
}

/// The first of three name lists that is not empty (the last one otherwise).
pub fn first_nonempty_names<'a>(a: &'a Vec<String>, b: &'a Vec<String>, c: &'a Vec<String>) -> (r: &'a Vec<String>)
    ensures
        r == (if a@.len() > 0 {
            a
        } else if b@.len() > 0 {
            b
        } else {
            c
        }),
{
    if a.len() > 0 {
        a
    } else if b.len() > 0 {
        b
    } else {
        c
    }
}

/// Some of `names` is in `used`.
pub open spec fn clashes(names: Seq<Seq<char>>, used: Set<Seq<char>>) -> bool {
    exists|i: int| 0 <= i < names.len() && used.contains(#[trigger] names[i])
}

/// Position of the first candidate whose names are all outside `used`.
pub fn pick_first_disjoint(hits: &Vec<Vec<String>>, used: &NameSet) -> (r: Option<usize>)
    ensures
        match r {
            Some(k) => k < hits@.len() && !clashes(views(hits@[k as int]@), used@)
                && forall|m: int| 0 <= m < k ==> clashes(views((#[trigger] hits@[m])@), used@),
            None => forall|m: int| 0 <= m < hits@.len() ==> clashes(views((#[trigger] hits@[m])@), used@),
        },
{
    let mut k: usize = 0;
    while k < hits.len()
        invariant
            0 <= k <= hits@.len(),
            forall|m: int| 0 <= m < k ==> clashes(views((#[trigger] hits@[m])@), used@),
        decreases hits@.len() - k,
    {
        let ok = names_disjoint(&hits[k], used);
        proof {
            let v = views(hits@[k as int]@);
            if ok {
                assert forall|i: int| 0 <= i < v.len() implies !used@.contains(#[trigger] v[i]) by {
                    assert(v[i] == hits@[k as int]@[i]@);
                }
            } else {
                let i = choose|i: int| 0 <= i < hits@[k as int]@.len() && used@.contains(#[trigger] hits@[k as int]@[i]@);
                assert(v[i] == hits@[k as int]@[i]@);
            }
        }
        if ok {
            return Some(k);
        }
        k = k + 1;
    }
    None
}

/// Position of the first candidate holding every pinned name, whose other
/// names are all outside `used`.
pub fn pick_control_extending_pins(hits: &Vec<Vec<String>>, pinned: &NameSet, used: &NameSet) -> (r: Option<usize>)
    ensures
        match r {
            Some(k) => k < hits@.len() && extends_pins(views(hits@[k as int]@), pinned@, used@)
                && forall|m: int| 0 <= m < k ==> !extends_pins(views((#[trigger] hits@[m])@), pinned@, used@),
            None => forall|m: int| 0 <= m < hits@.len() ==> !extends_pins(views((#[trigger] hits@[m])@), pinned@, used@),
        },
{
    let mut k: usize = 0;
    while k < hits.len()
        invariant
            0 <= k <= hits@.len(),
            forall|m: int| 0 <= m < k ==> !extends_pins(views((#[trigger] hits@[m])@), pinned@, used@),
        decreases hits@.len() - k,
    {
        let names = &hits[k];
        let pins = pinned.names();
        let mut all_pins = true;
        let mut p: usize = 0;
        while p < pins.len()
            invariant
                0 <= p <= pins@.len(),
                views(pins@).to_set() == pinned@,
                all_pins == forall|q: int| 0 <= q < p ==> views(names@).contains(#[trigger] pins@[q]@),
            decreases pins@.len() - p,
        {
            let has = crate::instances::vec_has(names, pins[p].as_str());
            proof {
                if all_pins && has {
                    assert forall|q: int| 0 <= q < p + 1 implies views(names@).contains(#[trigger] pins@[q]@) by {}
                }
            }
            all_pins = all_pins && has;
            p = p + 1;
        }
        let mut others_free = true;
        let mut i: usize = 0;
        while i < names.len()
            invariant
                0 <= i <= names@.len(),
                others_free == forall|q: int| 0 <= q < i ==> (pinned@.contains(#[trigger] names@[q]@) || !used@.contains(names@[q]@)),
            decreases names@.len() - i,
        {
            let ok = pinned.contains(names[i].as_str()) || !used.contains(names[i].as_str());
            proof {
                if others_free && ok {
                    assert forall|q: int| 0 <= q < i + 1 implies (pinned@.contains(#[trigger] names@[q]@) || !used@.contains(names@[q]@)) by {}
                }
            }
            others_free = others_free && ok;
            i = i + 1;
        }
        proof {
            let v = views(names@);
            if all_pins {
                assert forall|x: Seq<char>| pinned@.contains(x) implies v.contains(x) by {
                    let q = choose|q: int| 0 <= q < views(pins@).len() && views(pins@)[q] == x;
                    assert(v.contains(pins@[q]@));
                }
            } else {
                let q = choose|q: int| 0 <= q < pins@.len() && !v.contains(#[trigger] pins@[q]@);
                assert(views(pins@)[q] == pins@[q]@);
                assert(pinned@.contains(pins@[q]@));
            }
            if others_free {
                assert forall|x: Seq<char>| v.contains(x) implies pinned@.contains(x) || !used@.contains(x) by {
                    let q = choose|q: int| 0 <= q < v.len() && v[q] == x;
                    assert(names@[q]@ == x);
                }
            } else {
                let q = choose|q: int| 0 <= q < names@.len() && !(pinned@.contains(#[trigger] names@[q]@) || !used@.contains(names@[q]@));
                assert(v[q] == names@[q]@);
            }
        }
        if all_pins && others_free {
            return Some(k);
        }
        k = k + 1;
    }
    None
}

/// The candidate `names` holds every pinned name, and each of its names is pinned or unused.
pub open spec fn extends_pins(names: Seq<Seq<char>>, pinned: Set<Seq<char>>, used: Set<Seq<char>>) -> bool {
    (forall|x: Seq<char>| pinned.contains(x) ==> names.contains(x))
    && (forall|x: Seq<char>| names.contains(x) ==> pinned.contains(x) || !used.contains(x))
}

/// Placing `names` in order: the ones in `skip` are already placed and are not
/// recorded again; every other name must be new and is recorded. Gives how many
/// names were placed before the first clash, or all of them.
pub open spec fn placed_before_clash(names: Seq<Seq<char>>, skip: Set<Seq<char>>, used: Set<Seq<char>>) -> nat
    decreases names.len(),
{
    if names.len() == 0 {
        0
    } else {
        let k = placed_before_clash(names.drop_last(), skip, used);
        if k < names.len() - 1 {
            k
        } else {
            let x = names.last();
            let seen = used + names.drop_last().to_set();
            if skip.contains(x) || !seen.contains(x) {
                names.len()
            } else {
                k
            }
        }
    }
}

pub(crate) proof fn lemma_placed_prefix(names: Seq<Seq<char>>, skip: Set<Seq<char>>, used: Set<Seq<char>>, n: int)
    requires
        0 <= n <= names.len(),
        placed_before_clash(names.subrange(0, n), skip, used) < n,
    ensures
        placed_before_clash(names, skip, used) == placed_before_clash(names.subrange(0, n), skip, used),
    decreases names.len(),
{
    if names.len() == n {
        assert(names.subrange(0, n) =~= names);
    } else {
        assert(names.drop_last().subrange(0, n) =~= names.subrange(0, n));
        lemma_placed_prefix(names.drop_last(), skip, used, n);
    }
}

pub(crate) proof fn lemma_placed_bound(names: Seq<Seq<char>>, skip: Set<Seq<char>>, used: Set<Seq<char>>)
    ensures
        placed_before_clash(names, skip, used) <= names.len(),
    decreases names.len(),
{
    if names.len() > 0 {
        lemma_placed_bound(names.drop_last(), skip, used);
    }
}

/// When every name is placed, each name outside `skip` was not used before
/// and does not occur earlier among the names: nobody is placed twice.
pub proof fn lemma_placed_all_fresh(names: Seq<Seq<char>>, skip: Set<Seq<char>>, used: Set<Seq<char>>)
    requires
        placed_before_clash(names, skip, used) == names.len(),
    ensures
        forall|j: int| 0 <= j < names.len() && !skip.contains(#[trigger] names[j]) ==> !used.contains(names[j]),
        forall|i: int, j: int|
            0 <= i < j < names.len() && !skip.contains(names[j]) ==> #[trigger] names[i] != #[trigger] names[j],
    decreases names.len(),
{
    if names.len() > 0 {
        let init = names.drop_last();
        lemma_placed_bound(init, skip, used);
        assert(placed_before_clash(init, skip, used) == init.len());
        lemma_placed_all_fresh(init, skip, used);
        let x = names.last();
        assert forall|j: int| 0 <= j < names.len() && !skip.contains(#[trigger] names[j]) implies !used.contains(names[j]) by {
            if j < init.len() {
                assert(init[j] == names[j]);
            }
        }
        assert forall|i: int, j: int|
            0 <= i < j < names.len() && !skip.contains(names[j]) implies #[trigger] names[i] != #[trigger] names[j] by {
            if j < init.len() {
                assert(init[i] == names[i] && init[j] == names[j]);
            } else {
                assert(init[i] == names[i]);
                assert(init.to_set().contains(init[i]));
                assert((used + init.to_set()).contains(names[i]));
            }
        }
    }
}

/// Where a control-centre combination was found.
#[derive(Debug, Clone, Copy, PartialEq, Eq, Structural)]
pub enum ControlPickSource {
    Cached,
    Rescanned,
}

/// Picks a control-centre combination extending the pins: the first fitting
/// one among the `cached` search results, else the first fitting one among
/// the `rescanned` results, else `NoControlCombo`. The rescan is only
/// consulted when no cached combination fits.
pub fn pick_cached_or_rescan_control(
    cached: &Vec<Vec<String>>,
    rescanned: &Vec<Vec<String>>,
    pinned: &NameSet,
    used: &NameSet,
) -> (r: Result<(ControlPickSource, usize), Error>)
    ensures
        match r {
            Ok((ControlPickSource::Cached, k)) => k < cached@.len() && extends_pins(views(cached@[k as int]@), pinned@, used@)
                && forall|m: int| 0 <= m < k ==> !extends_pins(views((#[trigger] cached@[m])@), pinned@, used@),
            Ok((ControlPickSource::Rescanned, k)) => (forall|m: int|
                0 <= m < cached@.len() ==> !extends_pins(views((#[trigger] cached@[m])@), pinned@, used@)) && k
                < rescanned@.len() && extends_pins(views(rescanned@[k as int]@), pinned@, used@) && forall|m: int|
                0 <= m < k ==> !extends_pins(views((#[trigger] rescanned@[m])@), pinned@, used@),
            Err(e) => e is NoControlCombo && (forall|m: int|
                0 <= m < cached@.len() ==> !extends_pins(views((#[trigger] cached@[m])@), pinned@, used@)) && forall|m: int|
                0 <= m < rescanned@.len() ==> !extends_pins(views((#[trigger] rescanned@[m])@), pinned@, used@),
        },
{
    match pick_control_extending_pins(cached, pinned, used) {
        Some(k) => Ok((ControlPickSource::Cached, k)),
        None => match pick_control_extending_pins(rescanned, pinned, used) {
            Some(k) => Ok((ControlPickSource::Rescanned, k)),
            None => Err(Error::NoControlCombo),
        },
    }
}

/// No operator sits in two places of the assignment.
pub open spec fn placed_once(rooms: AssignView) -> bool {
    forall|i1: int, j1: int, i2: int, j2: int|
        0 <= i1 < rooms.len() && 0 <= j1 < rooms[i1].1.len() && 0 <= i2 < rooms.len() && 0 <= j2 < rooms[i2].1.len()
            && (#[trigger] rooms[i1].1[j1]).0 == (#[trigger] rooms[i2].1[j2]).0 ==> i1 == i2 && j1 == j2
}

/// Every placed operator is recorded in `used`.
pub open spec fn all_recorded(rooms: AssignView, used: Set<Seq<char>>) -> bool {
    forall|i: int, j: int| 0 <= i < rooms.len() && 0 <= j < rooms[i].1.len() ==> used.contains((#[trigger] rooms[i].1[j]).0)
}

/// A name of `skip` sits, if anywhere, only in the room entry `target`.
pub open spec fn skip_only_in(rooms: AssignView, skip: Set<Seq<char>>, target: Option<int>) -> bool {
    forall|i: int, j: int|
        0 <= i < rooms.len() && 0 <= j < rooms[i].1.len() && skip.contains((#[trigger] rooms[i].1[j]).0) ==> target
            == Some(i)
}

/// Committing a room keeps the shift free of doubles. Suppose nobody sits in
/// two places, everyone placed is recorded in `used`, the already-placed names
/// of `skip` are recorded and sit, if anywhere, only in the target room, and no
/// such name is listed twice. When a commit of `names` succeeds, its room
/// holding exactly `names` and `used` gaining the names outside `skip`, the
/// same holds afterwards. An empty target room with nothing skipped is the
/// plain case.
pub proof fn lemma_commit_keeps_placed_once(
    rooms: AssignView,
    id: Seq<char>,
    ops: Seq<(Seq<char>, u8)>,
    names: Seq<Seq<char>>,
    skip: Set<Seq<char>>,
    used: Set<Seq<char>>,
)
    requires
        placed_once(rooms),
        all_recorded(rooms, used),
        skip.subset_of(used),
        skip_only_in(rooms, skip, room_index(rooms, id, 0)),
        forall|a: int, b: int| 0 <= a < b < names.len() && #[trigger] names[a] == #[trigger] names[b] ==> !skip.contains(names[b]),
        placed_before_clash(names, skip, used) == names.len(),
        op_names(ops) == names,
    ensures
        placed_once(with_room(rooms, id, ops)),
        all_recorded(with_room(rooms, id, ops), used + names.to_set().difference(skip)),
{
    crate::layout::lemma_room_index(rooms, id, 0);
    lemma_placed_all_fresh(names, skip, used);
    let w = with_room(rooms, id, ops);
    let k: int = match room_index(rooms, id, 0) {
        Some(i) => i,
        None => rooms.len() as int,
    };
    assert(k < w.len() && w[k].1 == ops);
    assert forall|i: int| 0 <= i < w.len() && i != k implies w[i] == rooms[i] by {}
    assert forall|j: int| 0 <= j < ops.len() implies (#[trigger] ops[j]).0 == names[j] by {
        assert(op_names(ops)[j] == ops[j].0);
    }
    let nu = used + names.to_set().difference(skip);
    assert forall|i1: int, j1: int, i2: int, j2: int|
        0 <= i1 < w.len() && 0 <= j1 < w[i1].1.len() && 0 <= i2 < w.len() && 0 <= j2 < w[i2].1.len()
            && (#[trigger] w[i1].1[j1]).0 == (#[trigger] w[i2].1[j2]).0 implies i1 == i2 && j1 == j2 by {
        let x = w[i1].1[j1].0;
        if i1 != k && i2 != k {
            assert(rooms[i1].1[j1] == w[i1].1[j1]);
            assert(rooms[i2].1[j2] == w[i2].1[j2]);
        } else if i1 == k && i2 == k {
            assert(x == names[j1] && x == names[j2]);
            if j1 < j2 {
                assert(names[j1] == names[j2]);
            } else if j2 < j1 {
                assert(names[j2] == names[j1]);
            }
        } else if i1 == k {
            assert(x == names[j1]);
            assert(rooms[i2].1[j2] == w[i2].1[j2]);
            assert(used.contains(rooms[i2].1[j2].0));
            if skip.contains(x) {
                assert(skip.contains(rooms[i2].1[j2].0));
            }
        } else {
            assert(x == w[i2].1[j2].0);
            assert(w[i2].1[j2].0 == names[j2]);
            assert(rooms[i1].1[j1] == w[i1].1[j1]);
            assert(used.contains(rooms[i1].1[j1].0));
            if skip.contains(x) {
                assert(skip.contains(rooms[i1].1[j1].0));
            }
        }
    }
    assert forall|i: int, j: int| 0 <= i < w.len() && 0 <= j < w[i].1.len() implies nu.contains((#[trigger] w[i].1[j]).0) by {
        if i == k {
            let x = names[j];
            assert(w[i].1[j].0 == x);
            if !skip.contains(x) {
                assert(names.to_set().contains(x));
            }
        } else {
            assert(rooms[i].1[j] == w[i].1[j]);
        }
    }
}

/// Places `names` in room `room_id` (elites from `elite_of`); names in `skip`
/// are taken as already recorded in `used`, every other name is recorded and
/// must not be there yet. On the first clash nothing is placed and the error
/// names the clashing operator; `used` then holds the names recorded before it.
pub fn commit_names_to_room<F: Fn(&String) -> u8>(
    assignment: &mut BaseAssignment,
    room_id: &RoomId,
    names: &Vec<String>,
    elite_of: F,
    used: &mut NameSet,
    skip: &NameSet,
    facility: &str,
) -> (r: Result<(), Error>)
    requires
        forall|s: &String| elite_of.requires((s,)),
    ensures
        ({
            let k = placed_before_clash(views(names@), skip@, old(used)@);
            &&& r is Ok <==> k == names@.len()
            &&& final(used)@ == old(used)@ + views(names@).subrange(0, k as int).to_set().difference(skip@)
            &&& r is Ok ==> exists|ops: Seq<(Seq<char>, u8)>|
                #[trigger] op_names(ops) == views(names@)
                && (forall|i: int| 0 <= i < ops.len() ==> elite_of.ensures((&names@[i],), (#[trigger] ops[i]).1))
                && final(assignment)@ == with_room(old(assignment)@, room_id.0@, ops)
            &&& r is Err ==> final(assignment)@ == old(assignment)@
            &&& r matches Err(Error::Duplicate { facility: f, name: n }) ==> f@ == facility@ && n@ == names@[k as int]@
            &&& r is Err ==> (r matches Err(Error::Duplicate { .. }))
        }),
{
    let mut ops: Vec<AssignedOperator> = Vec::new();
    let mut i: usize = 0;
    while i < names.len()
        invariant
            0 <= i <= names@.len(),
            placed_before_clash(views(names@).subrange(0, i as int), skip@, old(used)@) == i,
            used@ == old(used)@ + views(names@).subrange(0, i as int).to_set().difference(skip@),
            op_names(ops_view(ops@)) == views(names@).subrange(0, i as int),
            forall|j: int| 0 <= j < i ==> elite_of.ensures((&names@[j],), (#[trigger] ops_view(ops@)[j]).1),
            forall|s: &String| elite_of.requires((s,)),
            assignment@ == old(assignment)@,
        decreases names@.len() - i,
    {
        let name = &names[i];
        let ghost pre_used = used@;
        let ghost prefix = views(names@).subrange(0, i as int);
        let ghost next = views(names@).subrange(0, i + 1);
        proof {
            assert(next.drop_last() =~= prefix);
            assert(next.last() == name@);
        }
        if !skip.contains(name.as_str()) {
            if !used.insert(name.clone()) {
                proof {
                    assert((old(used)@ + prefix.to_set()).contains(name@)) by {
                        if !old(used)@.contains(name@) {
                            assert(pre_used.contains(name@));
                        }
                    }
                    assert(placed_before_clash(next, skip@, old(used)@) == i);
                    lemma_placed_prefix(views(names@), skip@, old(used)@, i + 1);
                    assert(views(names@)[i as int] == name@);
                }
                return Err(Error::Duplicate { facility: facility.to_owned(), name: name.clone() });
            }
            proof {
                assert(!(old(used)@ + prefix.to_set()).contains(name@)) by {
                    if old(used)@.contains(name@) {
                        assert(pre_used.contains(name@));
                    }
                    if prefix.to_set().contains(name@) && !skip@.contains(name@) {
                        assert(pre_used.contains(name@));
                    }
                    if prefix.to_set().contains(name@) && skip@.contains(name@) {
                    }
                }
                assert(placed_before_clash(next, skip@, old(used)@) == i + 1);
                assert(used@ =~= old(used)@ + next.to_set().difference(skip@)) by {
                    assert forall|x: Seq<char>| next.to_set().contains(x) <==> prefix.to_set().contains(x) || x == name@ by {
                        if next.contains(x) {
                            let j = choose|j: int| 0 <= j < next.len() && next[j] == x;
                            if j < i {
                                assert(prefix[j] == x);
                            }
                        }
                        if prefix.contains(x) {
                            let j = choose|j: int| 0 <= j < prefix.len() && prefix[j] == x;
                            assert(next[j] == x);
                        }
                        if x == name@ {
                            assert(next[i as int] == x);
                        }
                    }
                }
            }
        } else {
            proof {
                assert(placed_before_clash(next, skip@, old(used)@) == i + 1);
                assert(used@ =~= old(used)@ + next.to_set().difference(skip@)) by {
                    assert forall|x: Seq<char>| next.to_set().contains(x) <==> prefix.to_set().contains(x) || x == name@ by {
                        if next.contains(x) {
                            let j = choose|j: int| 0 <= j < next.len() && next[j] == x;
                            if j < i {
                                assert(prefix[j] == x);
                            }
                        }
                        if prefix.contains(x) {
                            let j = choose|j: int| 0 <= j < prefix.len() && prefix[j] == x;
                            assert(next[j] == x);
                        }
                        if x == name@ {
                            assert(next[i as int] == x);
                        }
                    }
                }
            }
        }
        let elite = elite_of(name);
        let ghost pre_ops = ops_view(ops@);
        ops.push(AssignedOperator::new(name.as_str(), elite));
        proof {
            assert(ops_view(ops@) =~= pre_ops.push((name@, elite)));
            assert(op_names(ops_view(ops@)) =~= next);
        }
        i = i + 1;
    }
    proof {
        assert(views(names@).subrange(0, names@.len() as int) =~= views(names@));
    }
    let ghost ov = ops_view(ops@);
    assignment.set_room(room_id.duplicate(), ops);
    proof {
        assert(op_names(ov) == views(names@));
    }
    Ok(())
}

/// Places `names` in room `room_id`, recording each in `used`; fails on the
/// first name already placed.
pub fn commit_operators_to_room<F: Fn(&String) -> u8>(
    assignment: &mut BaseAssignment,
    room_id: &RoomId,
    names: &Vec<String>,
    elite_of: F,
    used: &mut NameSet,
    facility: &str,
) -> (r: Result<(), Error>)
    requires
        forall|s: &String| elite_of.requires((s,)),
    ensures
        ({
            let k = placed_before_clash(views(names@), Set::empty(), old(used)@);
            &&& r is Ok <==> k == names@.len()
            &&& final(used)@ == old(used)@ + views(names@).subrange(0, k as int).to_set()
            &&& r is Ok ==> exists|ops: Seq<(Seq<char>, u8)>|
                #[trigger] op_names(ops) == views(names@)
                && (forall|i: int| 0 <= i < ops.len() ==> elite_of.ensures((&names@[i],), (#[trigger] ops[i]).1))
                && final(assignment)@ == with_room(old(assignment)@, room_id.0@, ops)
            &&& r is Err ==> final(assignment)@ == old(assignment)@
            &&& r matches Err(Error::Duplicate { facility: f, name: n }) ==> f@ == facility@ && n@ == names@[k as int]@
            &&& r is Err ==> (r matches Err(Error::Duplicate { .. }))
        }),
{
    let skip = NameSet::new();
    let ghost u = views(names@).subrange(0, placed_before_clash(views(names@), Set::empty(), old(used)@) as int).to_set();
    let r = commit_names_to_room(assignment, room_id, names, elite_of, used, &skip, facility);
    assert(u.difference(Set::<Seq<char>>::empty()) =~= u);
    r
}

/// Completes a room that already holds `anchors`: the anchors are not recorded
/// again, every other name is recorded in `used` and must be new.
pub fn commit_anchor_room<F: Fn(&String) -> u8>(
    assignment: &mut BaseAssignment,
    room_id: &RoomId,
    names: &Vec<String>,
    elite_of: F,
    used: &mut NameSet,
    anchors: &Vec<String>,
    facility: &str,
) -> (r: Result<(), Error>)
    requires
        forall|s: &String| elite_of.requires((s,)),
    ensures
        ({
            let skip = views(anchors@).to_set();
            let k = placed_before_clash(views(names@), skip, old(used)@);
            &&& r is Ok <==> k == names@.len()
            &&& final(used)@ == old(used)@ + views(names@).subrange(0, k as int).to_set().difference(skip)
            &&& r is Ok ==> exists|ops: Seq<(Seq<char>, u8)>|
                #[trigger] op_names(ops) == views(names@)
                && (forall|i: int| 0 <= i < ops.len() ==> elite_of.ensures((&names@[i],), (#[trigger] ops[i]).1))
                && final(assignment)@ == with_room(old(assignment)@, room_id.0@, ops)
            &&& r is Err ==> final(assignment)@ == old(assignment)@
            &&& r matches Err(Error::Duplicate { facility: f, name: n }) ==> f@ == facility@ && n@ == names@[k as int]@
            &&& r is Err ==> (r matches Err(Error::Duplicate { .. }))
        }),
{
    let skip = NameSet::from_names(anchors);
    commit_names_to_room(assignment, room_id, names, elite_of, used, &skip, facility)
}

/// Places the control-centre combination `names` in room `room_id`; names in
/// `pinned` are already placed, every other name must be new.
pub fn commit_control_combo<F: Fn(&String) -> u8>(
    assignment: &mut BaseAssignment,
    room_id: &RoomId,
    names: &Vec<String>,
    elite_of: F,
    used: &mut NameSet,
    pinned: &NameSet,
) -> (r: Result<(), Error>)
    requires
        forall|s: &String| elite_of.requires((s,)),
    ensures
        ({
            let k = placed_before_clash(views(names@), pinned@, old(used)@);
            &&& r is Ok <==> k == names@.len()
            &&& final(used)@ == old(used)@ + views(names@).subrange(0, k as int).to_set().difference(pinned@)
            &&& r is Ok ==> exists|ops: Seq<(Seq<char>, u8)>|
                #[trigger] op_names(ops) == views(names@)
                && (forall|i: int| 0 <= i < ops.len() ==> elite_of.ensures((&names@[i],), (#[trigger] ops[i]).1))
                && final(assignment)@ == with_room(old(assignment)@, room_id.0@, ops)
            &&& r is Err ==> final(assignment)@ == old(assignment)@
            &&& r matches Err(Error::Duplicate { facility: f, name: n }) ==> f@ == "control"@ && n@ == names@[k as int]@
            &&& r is Err ==> (r matches Err(Error::Duplicate { .. }))
        }),
{
    commit_names_to_room(assignment, room_id, names, elite_of, used, pinned, "control")
}

} // verus!
