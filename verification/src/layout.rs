//! Base layout (rooms and their facility kinds) and the assignment of operators
//! to rooms.
use vstd::prelude::*;

use crate::text::str_eq;

verus! {

/// Identifier of a room, e.g. `trade_1` or `control`.
pub struct RoomId(pub String);

impl RoomId {
    pub fn from_str(s: &str) -> (r: RoomId)
        ensures
            r.0@ == s@,
    {
        RoomId(s.to_owned())
    }

    pub fn duplicate(&self) -> (r: RoomId)
        ensures
            r.0@ == self.0@,
    {
        RoomId(self.0.clone())
    }

    pub fn same(&self, other: &RoomId) -> (r: bool)
        ensures
            r == (self.0@ == other.0@),
    {
        str_eq(self.0.as_str(), other.0.as_str())
    }
}

/// Kind of facility a room holds.
#[derive(Debug, Clone, Copy, PartialEq, Eq, Hash, Structural)]
pub enum FacilityKind {
    ControlCenter,
    TradePost,
    Factory,
    PowerPlant,
    Dormitory,
    Office,
}

/// One room of a base layout.
pub struct RoomBlueprint {
    pub id: RoomId,
    pub kind: FacilityKind,
}

/// A base layout: its rooms in order.
pub struct BaseBlueprint {
    pub rooms: Vec<RoomBlueprint>,
}

/// A room of the layout seen as `(id, kind)`.
pub open spec fn bp_view(r: RoomBlueprint) -> (Seq<char>, FacilityKind) {
    (r.id.0@, r.kind)
}

/// Index of the first layout room with id `id`.
pub open spec fn bp_index(rooms: Seq<RoomBlueprint>, id: Seq<char>, from: int) -> Option<int>
    decreases rooms.len() - from,
{
    if from < 0 || from >= rooms.len() {
        None
    } else if rooms[from].id.0@ == id {
        Some(from)
    } else {
        bp_index(rooms, id, from + 1)
    }
}

/// Kind of the first layout room with id `id`.
pub open spec fn kind_of(rooms: Seq<RoomBlueprint>, id: Seq<char>) -> Option<FacilityKind> {
    match bp_index(rooms, id, 0) {
        Some(i) => Some(rooms[i].kind),
        None => None,
    }
}

impl BaseBlueprint {
    /// The first room with id `id`.
    pub fn room(&self, id: &RoomId) -> (r: Option<&RoomBlueprint>)
        ensures
            match r {
                Some(room) => bp_index(self.rooms@, id.0@, 0) matches Some(i) && *room == self.rooms@[i]
                    && room.id.0@ == id.0@,
                None => bp_index(self.rooms@, id.0@, 0) is None,
            },
    {
        let mut i: usize = 0;
        while i < self.rooms.len()
            invariant
                0 <= i <= self.rooms@.len(),
                bp_index(self.rooms@, id.0@, 0) == bp_index(self.rooms@, id.0@, i as int),
            decreases self.rooms@.len() - i,
        {
            if self.rooms[i].id.same(id) {
                return Some(&self.rooms[i]);
            }
            i = i + 1;
        }
        None
    }

    /// The rooms of one kind, in layout order.
    pub fn rooms_of(&self, kind: FacilityKind) -> (r: Vec<&RoomBlueprint>)
        ensures
            r@.map_values(|x: &RoomBlueprint| *x) == self.rooms@.filter(|x: RoomBlueprint| x.kind == kind),
    {
        let mut r: Vec<&RoomBlueprint> = Vec::new();
        let mut i: usize = 0;
        while i < self.rooms.len()
            invariant
                0 <= i <= self.rooms@.len(),
                r@.map_values(|x: &RoomBlueprint| *x) == self.rooms@.subrange(0, i as int).filter(
                    |x: RoomBlueprint| x.kind == kind,
                ),
            decreases self.rooms@.len() - i,
        {
            let ghost pre = r@;
            let ghost sub = self.rooms@.subrange(0, i as int);
            if self.rooms[i].kind == kind {
                r.push(&self.rooms[i]);
            }
            proof {
                let sub2 = self.rooms@.subrange(0, i + 1);
                assert(sub2.drop_last() =~= sub);
                reveal(Seq::filter);
                if self.rooms@[i as int].kind == kind {
                    assert(r@.map_values(|x: &RoomBlueprint| *x) =~= pre.map_values(|x: &RoomBlueprint| *x).push(self.rooms@[i as int]));
                } else {
                    assert(r@ == pre);
                }
            }
            i = i + 1;
        }
        assert(self.rooms@.subrange(0, self.rooms@.len() as int) =~= self.rooms@);
        r
    }
}

/// An operator placed in a room, with its elite level.
pub struct AssignedOperator {
    pub name: String,
    pub elite: u8,
}

/// An operator seen as `(name, elite)`.
pub open spec fn op_view(o: AssignedOperator) -> (Seq<char>, u8) {
    (o.name@, o.elite)
}

pub open spec fn ops_view(v: Seq<AssignedOperator>) -> Seq<(Seq<char>, u8)> {
    v.map_values(|o: AssignedOperator| op_view(o))
}

/// Names of a list of placed operators.
pub open spec fn op_names(v: Seq<(Seq<char>, u8)>) -> Seq<Seq<char>> {
    v.map_values(|o: (Seq<char>, u8)| o.0)
}

impl AssignedOperator {
    pub fn new(name: &str, elite: u8) -> (r: AssignedOperator)
        ensures
            r.name@ == name@,
            r.elite == elite,
    {
        AssignedOperator { name: name.to_owned(), elite }
    }

    pub fn duplicate(&self) -> (r: AssignedOperator)
        ensures
            op_view(r) == op_view(*self),
    {
        AssignedOperator { name: self.name.clone(), elite: self.elite }
    }
}

/// Copies a list of placed operators.
pub fn copy_ops(v: &Vec<AssignedOperator>) -> (r: Vec<AssignedOperator>)
    ensures
        ops_view(r@) == ops_view(v@),
{
    let mut r: Vec<AssignedOperator> = Vec::new();
    let mut i: usize = 0;
    while i < v.len()
        invariant
            0 <= i <= v@.len(),
            ops_view(r@) == ops_view(v@).subrange(0, i as int),
        decreases v@.len() - i,
    {
        let ghost pre = r@;
        r.push(v[i].duplicate());
        assert(ops_view(r@) =~= ops_view(pre).push(op_view(v@[i as int])));
        assert(ops_view(v@).subrange(0, i + 1) =~= ops_view(v@).subrange(0, i as int).push(op_view(v@[i as int])));
        i = i + 1;
    }
    assert(ops_view(v@).subrange(0, v@.len() as int) =~= ops_view(v@));
    r
}

/// The operators of one room.
pub struct RoomAssignment {
    pub room_id: RoomId,
    pub operators: Vec<AssignedOperator>,
}

/// A room's operators seen as `(room id, [(name, elite)])`.
pub open spec fn room_view(r: RoomAssignment) -> (Seq<char>, Seq<(Seq<char>, u8)>) {
    (r.room_id.0@, ops_view(r.operators@))
}

/// Which operators sit in which rooms.
pub struct BaseAssignment {
    pub rooms: Vec<RoomAssignment>,
}

impl View for BaseAssignment {
    type V = Seq<(Seq<char>, Seq<(Seq<char>, u8)>)>;

    open spec fn view(&self) -> Seq<(Seq<char>, Seq<(Seq<char>, u8)>)> {
        self.rooms@.map_values(|r: RoomAssignment| room_view(r))
    }
}

/// Index of the first assigned room with id `id`.
pub open spec fn room_index(
    rooms: Seq<(Seq<char>, Seq<(Seq<char>, u8)>)>,
    id: Seq<char>,
    from: int,
) -> Option<int>
    decreases rooms.len() - from,
{
    if from < 0 || from >= rooms.len() {
        None
    } else if rooms[from].0 == id {
        Some(from)
    } else {
        room_index(rooms, id, from + 1)
    }
}

/// Operators of the first assigned room with id `id`; none when it is not assigned.
pub open spec fn ops_in(rooms: Seq<(Seq<char>, Seq<(Seq<char>, u8)>)>, id: Seq<char>) -> Seq<(Seq<char>, u8)> {
    match room_index(rooms, id, 0) {
        Some(i) => rooms[i].1,
        None => Seq::empty(),
    }
}

/// The assignment with room `id` holding `ops`: its first entry replaced, or a new entry last.
pub open spec fn with_room(
    rooms: Seq<(Seq<char>, Seq<(Seq<char>, u8)>)>,
    id: Seq<char>,
    ops: Seq<(Seq<char>, u8)>,
) -> Seq<(Seq<char>, Seq<(Seq<char>, u8)>)> {
    match room_index(rooms, id, 0) {
        Some(i) => rooms.update(i, (id, ops)),
        None => rooms.push((id, ops)),
    }
}

pub proof fn lemma_room_index(rooms: Seq<(Seq<char>, Seq<(Seq<char>, u8)>)>, id: Seq<char>, from: int)
    requires
        0 <= from,
    ensures
        match room_index(rooms, id, from) {
            Some(i) => from <= i < rooms.len() && rooms[i].0 == id && forall|j: int| from <= j < i ==> rooms[j].0 != id,
            None => forall|j: int| from <= j < rooms.len() ==> rooms[j].0 != id,
        },
    decreases rooms.len() - from,
{
    if from < rooms.len() && rooms[from].0 != id {
        lemma_room_index(rooms, id, from + 1);
    }
}

/// Reading a room back after setting it gives what was set.
pub proof fn lemma_with_room_read_back(
    rooms: Seq<(Seq<char>, Seq<(Seq<char>, u8)>)>,
    id: Seq<char>,
    ops: Seq<(Seq<char>, u8)>,
)
    ensures
        ops_in(with_room(rooms, id, ops), id) == ops,
{
    lemma_room_index(rooms, id, 0);
    let w = with_room(rooms, id, ops);
    lemma_room_index(w, id, 0);
    match room_index(rooms, id, 0) {
        Some(i) => {
            match room_index(w, id, 0) {
                Some(k) => {
                    if k < i {
                        assert(w[k] == rooms[k]);
                    } else if k > i {
                        assert(w[i].0 == id);
                    }
                },
                None => {
                    assert(w[i].0 == id);
                },
            }
        },
        None => {
            match room_index(w, id, 0) {
                Some(k) => {
                    if k < rooms.len() {
                        assert(w[k] == rooms[k]);
                    }
                },
                None => {
                    assert(w[rooms.len() as int].0 == id);
                },
            }
        },
    }
}

/// Setting one room leaves every other room as it was.
pub proof fn lemma_with_room_others(
    rooms: Seq<(Seq<char>, Seq<(Seq<char>, u8)>)>,
    id: Seq<char>,
    ops: Seq<(Seq<char>, u8)>,
    other: Seq<char>,
)
    requires
        other != id,
    ensures
        ops_in(with_room(rooms, id, ops), other) == ops_in(rooms, other),
{
    lemma_room_index(rooms, id, 0);
    lemma_room_index(rooms, other, 0);
    let w = with_room(rooms, id, ops);
    lemma_room_index(w, other, 0);
    match room_index(rooms, other, 0) {
        Some(i) => {
            assert(w[i] == rooms[i]);
            match room_index(w, other, 0) {
                Some(k) => {
                    if k < i {
                        if k < rooms.len() {
                            assert(w[k] == rooms[k] || w[k].0 == id);
                        }
                    } else if k > i {
                        assert(w[i].0 == other);
                    }
                },
                None => {},
            }
        },
        None => {
            match room_index(w, other, 0) {
                Some(k) => {
                    if k < rooms.len() {
                        assert(w[k] == rooms[k] || w[k].0 == id);
                    } else {
                        assert(w[k].0 == id);
                    }
                },
                None => {},
            }
        },
    }
}

impl BaseAssignment {
    pub fn new() -> (a: BaseAssignment)
        ensures
            a@ == Seq::<(Seq<char>, Seq<(Seq<char>, u8)>)>::empty(),
    {
        let a = BaseAssignment { rooms: Vec::new() };
        assert(a@ =~= Seq::<(Seq<char>, Seq<(Seq<char>, u8)>)>::empty());
        a
    }

    fn find_room(&self, id: &RoomId) -> (r: Option<usize>)
        ensures
            match r {
                Some(i) => room_index(self@, id.0@, 0) == Some(i as int) && i < self.rooms@.len(),
                None => room_index(self@, id.0@, 0) is None,
            },
    {
        let mut i: usize = 0;
        while i < self.rooms.len()
            invariant
                0 <= i <= self.rooms@.len(),
                room_index(self@, id.0@, 0) == room_index(self@, id.0@, i as int),
            decreases self.rooms@.len() - i,
        {
            if self.rooms[i].room_id.same(id) {
                return Some(i);
            }
            i = i + 1;
        }
        None
    }

    /// The operators of room `id` (none when the room is not assigned).
    pub fn operators_in(&self, id: &RoomId) -> (r: Vec<AssignedOperator>)
        ensures
            ops_view(r@) == ops_in(self@, id.0@),
    {
        match self.find_room(id) {
            Some(i) => copy_ops(&self.rooms[i].operators),
            None => {
                let r: Vec<AssignedOperator> = Vec::new();
                assert(ops_view(r@) =~= Seq::<(Seq<char>, u8)>::empty());
                r
            },
        }
    }

    /// Whether room `id` holds nobody.
    pub fn room_is_empty(&self, id: &RoomId) -> (r: bool)
        ensures
            r == (ops_in(self@, id.0@).len() == 0),
    {
        match self.find_room(id) {
            Some(i) => self.rooms[i].operators.len() == 0,
            None => true,
        }
    }

    /// Number of operators in room `id`.
    pub fn room_len(&self, id: &RoomId) -> (r: usize)
        ensures
            r == ops_in(self@, id.0@).len(),
    {
        match self.find_room(id) {
            Some(i) => self.rooms[i].operators.len(),
            None => 0,
        }
    }

    /// Puts `ops` into room `id`, replacing what it held.
    pub fn set_room(&mut self, id: RoomId, ops: Vec<AssignedOperator>)
        ensures
            final(self)@ == with_room(old(self)@, id.0@, ops_view(ops@)),
    {
        let ghost pre = self@;
        match self.find_room(&id) {
            Some(i) => {
                let ghost key = id.0@;
                self.rooms.set(i, RoomAssignment { room_id: id, operators: ops });
                assert(self@ =~= pre.update(i as int, (key, ops_view(ops@))));
            },
            None => {
                let ghost key = id.0@;
                let ghost ov = ops_view(ops@);
                self.rooms.push(RoomAssignment { room_id: id, operators: ops });
                assert(self@ =~= pre.push((key, ov)));
            },
        }
    }

    /// The control centre's operators.
    pub fn control_operators(&self) -> (r: Vec<AssignedOperator>)
        ensures
            ops_view(r@) == ops_in(self@, "control"@),
    {
        let id = RoomId::from_str("control");
        self.operators_in(&id)
    }

    /// An independent copy.
    pub fn duplicate(&self) -> (r: BaseAssignment)
        ensures
            r@ == self@,
    {
        let mut rooms: Vec<RoomAssignment> = Vec::new();
        let mut i: usize = 0;
        while i < self.rooms.len()
            invariant
                0 <= i <= self.rooms@.len(),
                rooms@.map_values(|r: RoomAssignment| room_view(r)) == self@.subrange(0, i as int),
            decreases self.rooms@.len() - i,
        {
            let ghost pre = rooms@;
            let room = RoomAssignment {
                room_id: self.rooms[i].room_id.duplicate(),
                operators: copy_ops(&self.rooms[i].operators),
            };
            rooms.push(room);
            assert(rooms@.map_values(|r: RoomAssignment| room_view(r)) =~= pre.map_values(|r: RoomAssignment| room_view(r)).push(room_view(room)));
            assert(self@.subrange(0, i + 1) =~= self@.subrange(0, i as int).push(self@[i as int]));
            i = i + 1;
        }
        let r = BaseAssignment { rooms };
        assert(self@.subrange(0, self@.len() as int) =~= self@);
        assert(r@ =~= self@);
        r
    }
}

} // verus!
