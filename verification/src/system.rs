//! Base systems: fixed cross-facility line-ups (a control-centre pair with its
//! trade and factory partners, ...) claimed greedily by priority before the
//! per-facility search fills the remaining rooms.
use vstd::prelude::*;

use crate::assign::{lemma_placed_all_fresh, lemma_placed_bound, lemma_placed_prefix, lemma_push_to_set, placed_before_clash, AssignView};
use crate::error::Error;
use crate::layout::{
    bp_index, op_names, ops_in, ops_view, with_room, AssignedOperator, BaseAssignment, BaseBlueprint,
    FacilityKind, RoomBlueprint, RoomId,
};
use crate::names::NameSet;
use crate::operbox::{owned_elite, OperBox, OwnedOperator};
use crate::text::str_eq;

verus! {

/// Which shift is being assigned: the peak shift or the recovery shift.
#[derive(Debug, Clone, Copy, PartialEq, Eq, Structural)]
pub enum AssignShiftMode {
    Peak,
    Recovery,
}

/// A fixed operator of a slot, with the least elite level it needs.
pub struct SystemOperatorFixed {
    pub name: String,
    pub elite: u8,
}

/// The first available of several operators, with the least elite level it needs.
pub struct SystemOperatorPickOne {
    pub pick_one: Vec<String>,
    pub elite: u8,
}

/// One operator entry of a slot.
pub enum SystemOperatorSpec {
    Fixed(SystemOperatorFixed),
    PickOne(SystemOperatorPickOne),
}

/// One room of a base system: its facility, optionally a fixed room, and its operators.
pub struct SystemSlotDef {
    pub facility: String,
    pub room_id: Option<String>,
    pub trade_role: Option<String>,
    pub operators: Vec<SystemOperatorSpec>,
}

/// A base system: a line-up spanning several rooms.
pub struct BaseSystemDef {
    pub id: String,
    pub label: String,
    pub priority: i32,
    pub segment_id: Option<String>,
    pub exclusive_group: Option<String>,
    pub shift_modes: Vec<String>,
    pub slots: Vec<SystemSlotDef>,
}

/// The facility kind a slot's facility name stands for.
pub open spec fn facility_kind_of(raw: Seq<char>) -> Option<FacilityKind> {
    if raw == "control"@ {
        Some(FacilityKind::ControlCenter)
    } else if raw == "trade_post"@ {
        Some(FacilityKind::TradePost)
    } else if raw == "factory"@ {
        Some(FacilityKind::Factory)
    } else if raw == "power_plant"@ {
        Some(FacilityKind::PowerPlant)
    } else if raw == "dormitory"@ {
        Some(FacilityKind::Dormitory)
    } else {
        None
    }
}

/// Maps a slot's facility name to its facility kind.
pub fn facility_kind(raw: &str) -> (r: Option<FacilityKind>)
    ensures
        r == facility_kind_of(raw@),
{
    if str_eq(raw, "control") {
        Some(FacilityKind::ControlCenter)
    } else if str_eq(raw, "trade_post") {
        Some(FacilityKind::TradePost)
    } else if str_eq(raw, "factory") {
        Some(FacilityKind::Factory)
    } else if str_eq(raw, "power_plant") {
        Some(FacilityKind::PowerPlant)
    } else if str_eq(raw, "dormitory") {
        Some(FacilityKind::Dormitory)
    } else {
        None
    }
}

/// The name a shift mode has in a system's `shift_modes`.
pub open spec fn mode_text(mode: AssignShiftMode) -> Seq<char> {
    match mode {
        AssignShiftMode::Peak => "peak"@,
        AssignShiftMode::Recovery => "recovery"@,
    }
}

/// A system with no listed modes serves the peak shift only; otherwise the
/// shifts it lists.
pub open spec fn mode_allowed_spec(modes: Seq<String>, mode: AssignShiftMode) -> bool {
    if modes.len() == 0 {
        mode == AssignShiftMode::Peak
    } else {
        exists|i: int| 0 <= i < modes.len() && (#[trigger] modes[i])@ == mode_text(mode)
    }
}

/// Whether `system` may be claimed for the shift `mode`.
pub fn mode_allowed(system: &BaseSystemDef, mode: AssignShiftMode) -> (r: bool)
    ensures
        r == mode_allowed_spec(system.shift_modes@, mode),
{
    if system.shift_modes.len() == 0 {
        return mode == AssignShiftMode::Peak;
    }
    let want: &str = match mode {
        AssignShiftMode::Peak => "peak",
        AssignShiftMode::Recovery => "recovery",
    };
    let mut i: usize = 0;
    while i < system.shift_modes.len()
        invariant
            0 <= i <= system.shift_modes@.len(),
            want@ == mode_text(mode),
            forall|j: int| 0 <= j < i ==> (#[trigger] system.shift_modes@[j])@ != mode_text(mode),
        decreases system.shift_modes@.len() - i,
    {
        if str_eq(system.shift_modes[i].as_str(), want) {
            return true;
        }
        i = i + 1;
    }
    false
}

/// The operator a pick-one entry resolves to, scanning its candidates from
/// position `i`: candidates already used are passed over, the first owned one
/// at the needed elite level is taken, and a candidate the player does not own
/// ends the scan without a pick.
pub open spec fn pick_from(
    owned: Seq<OwnedOperator>,
    names: Seq<String>,
    min_elite: u8,
    used: Set<Seq<char>>,
    i: int,
) -> Option<(Seq<char>, u8)>
    decreases names.len() - i,
{
    if i < 0 || i >= names.len() {
        None
    } else if used.contains(names[i]@) {
        pick_from(owned, names, min_elite, used, i + 1)
    } else {
        match owned_elite(owned, names[i]@) {
            None => None,
            Some(e) => if e >= min_elite {
                Some((names[i]@, e))
            } else {
                pick_from(owned, names, min_elite, used, i + 1)
            },
        }
    }
}

/// A pick-one entry resolves to an owned, unused candidate at least at the
/// required elite, with its owned elite; every candidate before it is used or
/// owned below that elite. When it resolves to nobody, each unused candidate
/// owned at the required elite comes after an unused candidate the player does
/// not own.
pub proof fn lemma_pick_one_law(
    owned: Seq<OwnedOperator>,
    names: Seq<String>,
    min_elite: u8,
    used: Set<Seq<char>>,
    i: int,
)
    requires
        0 <= i,
    ensures
        pick_from(owned, names, min_elite, used, i) matches Some((n, e)) ==> {
            &&& e >= min_elite
            &&& owned_elite(owned, n) == Some(e)
            &&& !used.contains(n)
            &&& exists|k: int|
                i <= k < names.len() && (#[trigger] names[k])@ == n && forall|j: int|
                    i <= j < k ==> used.contains((#[trigger] names[j])@) || (owned_elite(owned, names[j]@) matches Some(
                        f,
                    ) && f < min_elite)
        },
        pick_from(owned, names, min_elite, used, i) is None ==> forall|k: int|
            i <= k < names.len() && !used.contains((#[trigger] names[k])@) && (owned_elite(owned, names[k]@) matches Some(
                f,
            ) && f >= min_elite) ==> exists|j: int|
                i <= j < k && !used.contains((#[trigger] names[j])@) && owned_elite(owned, names[j]@) is None,
    decreases names.len() - i,
{
    if i < names.len() {
        lemma_pick_one_law(owned, names, min_elite, used, i + 1);
        let r = pick_from(owned, names, min_elite, used, i);
        let here = names[i]@;
        if used.contains(here) || (owned_elite(owned, here) matches Some(f) && f < min_elite) {
            assert(r == pick_from(owned, names, min_elite, used, i + 1));
            if let Some((n, e)) = r {
                let k = choose|k: int|
                    i + 1 <= k < names.len() && (#[trigger] names[k])@ == n && forall|j: int|
                        i + 1 <= j < k ==> used.contains((#[trigger] names[j])@) || (owned_elite(owned, names[j]@) matches Some(
                            f,
                        ) && f < min_elite);
                assert forall|j: int| i <= j < k implies used.contains((#[trigger] names[j])@) || (owned_elite(
                    owned,
                    names[j]@,
                ) matches Some(f) && f < min_elite) by {}
            } else {
                assert forall|k: int|
                    i <= k < names.len() && !used.contains((#[trigger] names[k])@) && (owned_elite(owned, names[k]@) matches Some(
                        f,
                    ) && f >= min_elite) implies exists|j: int|
                    i <= j < k && !used.contains((#[trigger] names[j])@) && owned_elite(owned, names[j]@) is None by {
                    if k == i {
                    } else {
                        let j = choose|j: int|
                            i + 1 <= j < k && !used.contains((#[trigger] names[j])@) && owned_elite(owned, names[j]@) is None;
                        assert(i <= j < k);
                    }
                }
            }
        } else if owned_elite(owned, here) is None {
            assert(r is None);
            assert forall|k: int|
                i <= k < names.len() && !used.contains((#[trigger] names[k])@) && (owned_elite(owned, names[k]@) matches Some(
                    f,
                ) && f >= min_elite) implies exists|j: int|
                i <= j < k && !used.contains((#[trigger] names[j])@) && owned_elite(owned, names[j]@) is None by {
                assert(k != i);
                assert(!used.contains(names[i]@) && owned_elite(owned, names[i]@) is None);
            }
        } else {
            assert(r == Some((here, owned_elite(owned, here)->0)));
            assert(names[i]@ == here);
        }
    }
}

/// The operator one entry of a slot resolves to.
pub open spec fn resolve_entry(
    owned: Seq<OwnedOperator>,
    entry: SystemOperatorSpec,
    used: Set<Seq<char>>,
) -> Option<(Seq<char>, u8)> {
    match entry {
        SystemOperatorSpec::Fixed(f) => match owned_elite(owned, f.name@) {
            None => None,
            Some(e) => if e < f.elite || used.contains(f.name@) {
                None
            } else {
                Some((f.name@, e))
            },
        },
        SystemOperatorSpec::PickOne(p) => pick_from(owned, p.pick_one@, p.elite, used, 0),
    }
}

/// The required elite of a slot entry.
pub open spec fn entry_min_elite(entry: SystemOperatorSpec) -> u8 {
    match entry {
        SystemOperatorSpec::Fixed(f) => f.elite,
        SystemOperatorSpec::PickOne(p) => p.elite,
    }
}

/// A slot entry resolves only to an owned, unused operator at least at the
/// entry's required elite, with its owned elite; a fixed entry to its own
/// operator, and always when that operator is owned at that elite and unused.
pub proof fn lemma_resolve_entry_law(owned: Seq<OwnedOperator>, entry: SystemOperatorSpec, used: Set<Seq<char>>)
    ensures
        resolve_entry(owned, entry, used) matches Some((n, e)) ==> owned_elite(owned, n) == Some(e) && !used.contains(n)
            && e >= entry_min_elite(entry) && (entry matches SystemOperatorSpec::Fixed(f) ==> n == f.name@),
        entry matches SystemOperatorSpec::Fixed(f) ==> (owned_elite(owned, f.name@) matches Some(e) && e >= f.elite
            && !used.contains(f.name@) ==> resolve_entry(owned, entry, used) is Some),
{
    if let SystemOperatorSpec::PickOne(p) = entry {
        lemma_pick_one_law(owned, p.pick_one@, p.elite, used, 0);
    }
}

/// The operators the first `n` entries of a slot resolve to; none as soon as
/// one entry does not resolve.
pub open spec fn slot_ops_upto(
    owned: Seq<OwnedOperator>,
    entries: Seq<SystemOperatorSpec>,
    used: Set<Seq<char>>,
    n: int,
) -> Option<Seq<(Seq<char>, u8)>>
    decreases n,
{
    if n <= 0 {
        Some(Seq::empty())
    } else {
        match slot_ops_upto(owned, entries, used, n - 1) {
            None => None,
            Some(prev) => match resolve_entry(owned, entries[n - 1], used) {
                None => None,
                Some(x) => Some(prev.push(x)),
            },
        }
    }
}

/// The operators a whole slot resolves to.
pub open spec fn slot_ops(
    owned: Seq<OwnedOperator>,
    entries: Seq<SystemOperatorSpec>,
    used: Set<Seq<char>>,
) -> Option<Seq<(Seq<char>, u8)>> {
    slot_ops_upto(owned, entries, used, entries.len() as int)
}

proof fn lemma_slot_ops_none_stays(
    owned: Seq<OwnedOperator>,
    entries: Seq<SystemOperatorSpec>,
    used: Set<Seq<char>>,
    k: int,
    m: int,
)
    requires
        0 <= k <= m,
        slot_ops_upto(owned, entries, used, k) is None,
    ensures
        slot_ops_upto(owned, entries, used, m) is None,
    decreases m - k,
{
    if k < m {
        lemma_slot_ops_none_stays(owned, entries, used, k, m - 1);
    }
}

/// Resolves a pick-one entry against the box and the operators already used.
fn resolve_pick_one(operbox: &OperBox, pick: &SystemOperatorPickOne, used: &NameSet) -> (r: Option<AssignedOperator>)
    ensures
        match r {
            Some(op) => pick_from(operbox.operators@, pick.pick_one@, pick.elite, used@, 0) == Some((op.name@, op.elite)),
            None => pick_from(operbox.operators@, pick.pick_one@, pick.elite, used@, 0) is None,
        },
{
    let mut i: usize = 0;
    while i < pick.pick_one.len()
        invariant
            0 <= i <= pick.pick_one@.len(),
            pick_from(operbox.operators@, pick.pick_one@, pick.elite, used@, 0) == pick_from(
                operbox.operators@,
                pick.pick_one@,
                pick.elite,
                used@,
                i as int,
            ),
        decreases pick.pick_one@.len() - i,
    {
        let name = &pick.pick_one[i];
        if !used.contains(name.as_str()) {
            match operbox.elite_of(name.as_str()) {
                None => {
                    return None;
                },
                Some(elite) => {
                    if elite >= pick.elite {
                        return Some(AssignedOperator::new(name.as_str(), elite));
                    }
                },
            }
        }
        i = i + 1;
    }
    None
}

/// Resolves every entry of a slot; none when one of them cannot be filled.
fn resolve_slot_operators(operbox: &OperBox, slot: &SystemSlotDef, used: &NameSet) -> (r: Option<Vec<AssignedOperator>>)
    ensures
        match r {
            Some(v) => slot_ops(operbox.operators@, slot.operators@, used@) == Some(ops_view(v@)),
            None => slot_ops(operbox.operators@, slot.operators@, used@) is None,
        },
{
    let mut resolved: Vec<AssignedOperator> = Vec::new();
    let mut i: usize = 0;
    assert(ops_view(resolved@) =~= Seq::<(Seq<char>, u8)>::empty());
    while i < slot.operators.len()
        invariant
            0 <= i <= slot.operators@.len(),
            slot_ops_upto(operbox.operators@, slot.operators@, used@, i as int) == Some(ops_view(resolved@)),
        decreases slot.operators@.len() - i,
    {
        let ghost pre = ops_view(resolved@);
        match &slot.operators[i] {
            SystemOperatorSpec::Fixed(fixed) => {
                match operbox.elite_of(fixed.name.as_str()) {
                    None => {
                        proof {
                            lemma_slot_ops_none_stays(operbox.operators@, slot.operators@, used@, i + 1, slot.operators@.len() as int);
                        }
                        return None;
                    },
                    Some(elite) => {
                        if elite < fixed.elite || used.contains(fixed.name.as_str()) {
                            proof {
                                lemma_slot_ops_none_stays(operbox.operators@, slot.operators@, used@, i + 1, slot.operators@.len() as int);
                            }
                            return None;
                        }
                        resolved.push(AssignedOperator::new(fixed.name.as_str(), elite));
                    },
                }
            },
            SystemOperatorSpec::PickOne(pick) => {
                match resolve_pick_one(operbox, pick, used) {
                    None => {
                        proof {
                            lemma_slot_ops_none_stays(operbox.operators@, slot.operators@, used@, i + 1, slot.operators@.len() as int);
                        }
                        return None;
                    },
                    Some(op) => {
                        resolved.push(op);
                    },
                }
            },
        }
        assert(ops_view(resolved@) =~= pre.push(ops_view(resolved@).last()));
        i = i + 1;
    }
    Some(resolved)
}

/// Whether layout room `r` can take a slot of kind `kind`: a control centre
/// while it holds fewer than five operators, any other room while it is empty.
pub open spec fn room_is_free(rooms: AssignView, r: RoomBlueprint, kind: FacilityKind) -> bool {
    &&& r.kind == kind
    &&& if kind == FacilityKind::ControlCenter {
        ops_in(rooms, r.id.0@).len() < 5
    } else {
        ops_in(rooms, r.id.0@).len() == 0
    }
}

/// Index of the first layout room from `from` on that can take a slot of kind `kind`.
pub open spec fn free_room_from(layout: Seq<RoomBlueprint>, rooms: AssignView, kind: FacilityKind, from: int) -> Option<int>
    decreases layout.len() - from,
{
    if from < 0 || from >= layout.len() {
        None
    } else if room_is_free(rooms, layout[from], kind) {
        Some(from)
    } else {
        free_room_from(layout, rooms, kind, from + 1)
    }
}

/// The layout room a slot goes to: its fixed room while that is empty, or the
/// first free room of its facility kind.
pub open spec fn slot_room(layout: Seq<RoomBlueprint>, rooms: AssignView, slot: SystemSlotDef) -> Option<int> {
    match slot.room_id {
        Some(id) => match bp_index(layout, id@, 0) {
            None => None,
            Some(i) => if ops_in(rooms, id@).len() > 0 {
                None
            } else {
                Some(i)
            },
        },
        None => match facility_kind_of(slot.facility@) {
            None => None,
            Some(kind) => free_room_from(layout, rooms, kind, 0),
        },
    }
}

/// Finds the room a slot goes to.
fn resolve_slot_room<'a>(blueprint: &'a BaseBlueprint, assignment: &BaseAssignment, slot: &SystemSlotDef) -> (r: Option<&'a RoomBlueprint>)
    ensures
        match r {
            Some(room) => slot_room(blueprint.rooms@, assignment@, *slot) matches Some(i) && *room == blueprint.rooms@[i],
            None => slot_room(blueprint.rooms@, assignment@, *slot) is None,
        },
{
    match &slot.room_id {
        Some(id) => {
            let rid = RoomId::from_str(id.as_str());
            match blueprint.room(&rid) {
                None => None,
                Some(room) => {
                    if !assignment.room_is_empty(&room.id) {
                        None
                    } else {
                        assert(room.id.0@ == id@);
                        Some(room)
                    }
                },
            }
        },
        None => {
            let kind = match facility_kind(slot.facility.as_str()) {
                None => {
                    return None;
                },
                Some(k) => k,
            };
            let mut i: usize = 0;
            while i < blueprint.rooms.len()
                invariant
                    0 <= i <= blueprint.rooms@.len(),
                    facility_kind_of(slot.facility@) == Some(kind),
                    slot.room_id is None,
                    free_room_from(blueprint.rooms@, assignment@, kind, 0) == free_room_from(
                        blueprint.rooms@,
                        assignment@,
                        kind,
                        i as int,
                    ),
                decreases blueprint.rooms@.len() - i,
            {
                let room = &blueprint.rooms[i];
                if room.kind == kind {
                    let n = assignment.room_len(&room.id);
                    let free = if kind == FacilityKind::ControlCenter {
                        n < 5
                    } else {
                        n == 0
                    };
                    if free {
                        assert(room_is_free(assignment@, blueprint.rooms@[i as int], kind));
                        return Some(room);
                    }
                }
                i = i + 1;
            }
            None
        },
    }
}

/// Whether one slot can be filled on the current assignment: its facility is
/// known, it has a room, its operators resolve, and a control-centre slot
/// keeps the control centre at five operators at most.
pub open spec fn slot_feasible(
    layout: Seq<RoomBlueprint>,
    owned: Seq<OwnedOperator>,
    rooms: AssignView,
    used: Set<Seq<char>>,
    slot: SystemSlotDef,
) -> bool {
    &&& facility_kind_of(slot.facility@) is Some
    &&& slot_room(layout, rooms, slot) is Some
    &&& slot_ops(owned, slot.operators@, used) is Some
    &&& slot.facility@ == "control"@ ==> ops_in(rooms, "control"@).len() + slot_ops(owned, slot.operators@, used).unwrap().len() <= 5
}

/// Whether every slot of a system can be filled on the current assignment.
pub open spec fn system_feasible_spec(
    layout: Seq<RoomBlueprint>,
    owned: Seq<OwnedOperator>,
    rooms: AssignView,
    used: Set<Seq<char>>,
    slots: Seq<SystemSlotDef>,
) -> bool {
    forall|i: int| 0 <= i < slots.len() ==> slot_feasible(layout, owned, rooms, used, #[trigger] slots[i])
}

/// Checks, each against the current assignment, that every slot of `system` can be filled.
pub fn system_feasible(
    blueprint: &BaseBlueprint,
    operbox: &OperBox,
    assignment: &BaseAssignment,
    used: &NameSet,
    system: &BaseSystemDef,
) -> (r: bool)
    ensures
        r == system_feasible_spec(blueprint.rooms@, operbox.operators@, assignment@, used@, system.slots@),
{
    let mut i: usize = 0;
    while i < system.slots.len()
        invariant
            0 <= i <= system.slots@.len(),
            forall|j: int| 0 <= j < i ==> slot_feasible(blueprint.rooms@, operbox.operators@, assignment@, used@, #[trigger] system.slots@[j]),
        decreases system.slots@.len() - i,
    {
        let slot = &system.slots[i];
        if facility_kind(slot.facility.as_str()).is_none() {
            return false;
        }
        if resolve_slot_room(blueprint, assignment, slot).is_none() {
            return false;
        }
        let resolved = match resolve_slot_operators(operbox, slot, used) {
            Some(ops) => ops,
            None => {
                return false;
            },
        };
        if str_eq(slot.facility.as_str(), "control") {
            let current = assignment.control_operators().len();
            if current > 5 || resolved.len() > 5 - current {
                return false;
            }
        }
        i = i + 1;
    }
    true
}

/// What stopped the claim of a system part-way.
pub enum ClaimFailure {
    /// A slot found no room on the assignment as it then stood.
    RoomVanished,
    /// A slot's operators no longer resolved.
    OperatorsVanished,
    /// This operator was about to be placed a second time.
    Duplicate(Seq<char>),
}

/// Claiming one slot on `(rooms, used)`: the new assignment, the new used
/// names, and what failed, if anything. The slot's operators are recorded as
/// used one after another up to the first one already used; a control-centre
/// slot joins the operators already in the room `control`, any other slot
/// fills its room.
pub open spec fn claim_slot(
    layout: Seq<RoomBlueprint>,
    owned: Seq<OwnedOperator>,
    rooms: AssignView,
    used: Set<Seq<char>>,
    slot: SystemSlotDef,
) -> (AssignView, Set<Seq<char>>, Option<ClaimFailure>) {
    match slot_room(layout, rooms, slot) {
        None => (rooms, used, Some(ClaimFailure::RoomVanished)),
        Some(ri) => match slot_ops(owned, slot.operators@, used) {
            None => (rooms, used, Some(ClaimFailure::OperatorsVanished)),
            Some(ops) => {
                let names = op_names(ops);
                let k = placed_before_clash(names, Set::empty(), used);
                let used2 = used + names.subrange(0, k as int).to_set();
                if k < names.len() {
                    (rooms, used2, Some(ClaimFailure::Duplicate(names[k as int])))
                } else if slot.facility@ == "control"@ {
                    (with_room(rooms, "control"@, ops_in(rooms, "control"@) + ops), used2, None)
                } else {
                    (with_room(rooms, layout[ri].id.0@, ops), used2, None)
                }
            },
        },
    }
}

/// Claiming the first `n` slots in order, stopping at the first failure.
pub open spec fn claim_slots(
    layout: Seq<RoomBlueprint>,
    owned: Seq<OwnedOperator>,
    rooms: AssignView,
    used: Set<Seq<char>>,
    slots: Seq<SystemSlotDef>,
    n: int,
) -> (AssignView, Set<Seq<char>>, Option<ClaimFailure>)
    decreases n,
{
    if n <= 0 {
        (rooms, used, None)
    } else {
        let prev = claim_slots(layout, owned, rooms, used, slots, n - 1);
        if prev.2 is Some {
            prev
        } else {
            claim_slot(layout, owned, prev.0, prev.1, slots[n - 1])
        }
    }
}

/// The error reported for a failure while claiming the system `system`.
pub open spec fn claim_error(system: Seq<char>, failure: ClaimFailure, e: Error) -> bool {
    match failure {
        ClaimFailure::RoomVanished => e matches Error::SlotRoomVanished { system: s } && s@ == system,
        ClaimFailure::OperatorsVanished => e matches Error::SlotOperatorsVanished { system: s } && s@ == system,
        ClaimFailure::Duplicate(n) => e matches Error::SystemDuplicate { system: s, name: m } && s@ == system && m@ == n,
    }
}

/// Records the names of `ops` in `used` in order and stops at the first name
/// already there, giving its position.
fn record_names(used: &mut NameSet, ops: &Vec<AssignedOperator>) -> (r: Option<usize>)
    ensures
        ({
            let names = op_names(ops_view(ops@));
            let k = placed_before_clash(names, Set::empty(), old(used)@);
            &&& final(used)@ == old(used)@ + names.subrange(0, k as int).to_set()
            &&& match r {
                Some(i) => i == k && k < names.len(),
                None => k == names.len(),
            }
        }),
{
    let ghost names = op_names(ops_view(ops@));
    let ghost empty = Set::<Seq<char>>::empty();
    let mut i: usize = 0;
    assert(names.subrange(0, 0).to_set() =~= empty);
    assert(used@ =~= old(used)@ + empty);
    while i < ops.len()
        invariant
            0 <= i <= ops@.len(),
            names == op_names(ops_view(ops@)),
            empty == Set::<Seq<char>>::empty(),
            placed_before_clash(names.subrange(0, i as int), empty, old(used)@) == i,
            used@ == old(used)@ + names.subrange(0, i as int).to_set(),
        decreases ops@.len() - i,
    {
        let ghost prefix = names.subrange(0, i as int);
        let ghost next = names.subrange(0, i + 1);
        let ghost pre_used = used@;
        proof {
            assert(next.drop_last() =~= prefix);
            assert(next.last() == ops@[i as int].name@);
        }
        if !used.insert(ops[i].name.clone()) {
            proof {
                assert(placed_before_clash(next, empty, old(used)@) == i);
                lemma_placed_prefix(names, empty, old(used)@, i + 1);
            }
            return Some(i);
        }
        proof {
            assert(placed_before_clash(next, empty, old(used)@) == i + 1);
            assert(next =~= prefix.push(ops@[i as int].name@));
            lemma_push_to_set(prefix, ops@[i as int].name@);
            assert(used@ =~= old(used)@ + next.to_set());
        }
        i = i + 1;
    }
    assert(names.subrange(0, ops@.len() as int) =~= names);
    None
}

/// Claims every slot of `system` in order on the assignment as it stands
/// after the slots before it.
pub fn claim_system(
    blueprint: &BaseBlueprint,
    operbox: &OperBox,
    assignment: &mut BaseAssignment,
    used: &mut NameSet,
    system: &BaseSystemDef,
) -> (r: Result<(), Error>)
    ensures
        ({
            let out = claim_slots(blueprint.rooms@, operbox.operators@, old(assignment)@, old(used)@, system.slots@, system.slots@.len() as int);
            &&& final(assignment)@ == out.0
            &&& final(used)@ == out.1
            &&& r is Ok <==> out.2 is None
            &&& r matches Err(e) ==> claim_error(system.id@, out.2.unwrap(), e)
        }),
{
    let ghost layout = blueprint.rooms@;
    let ghost owned = operbox.operators@;
    let mut i: usize = 0;
    while i < system.slots.len()
        invariant
            0 <= i <= system.slots@.len(),
            layout == blueprint.rooms@,
            owned == operbox.operators@,
            claim_slots(layout, owned, old(assignment)@, old(used)@, system.slots@, i as int).0 == assignment@,
            claim_slots(layout, owned, old(assignment)@, old(used)@, system.slots@, i as int).1 == used@,
            claim_slots(layout, owned, old(assignment)@, old(used)@, system.slots@, i as int).2 is None,
        decreases system.slots@.len() - i,
    {
        let slot = &system.slots[i];
        let ghost rooms0 = assignment@;
        let ghost used0 = used@;
        proof {
            assert(system.slots@[i as int] == *slot);
        }
        let room = match resolve_slot_room(blueprint, assignment, slot) {
            Some(room) => room,
            None => {
                proof {
                    lemma_claim_slots_failed_stays(layout, owned, old(assignment)@, old(used)@, system.slots@, i + 1, system.slots@.len() as int);
                }
                return Err(Error::SlotRoomVanished { system: system.id.clone() });
            },
        };
        let resolved = match resolve_slot_operators(operbox, slot, used) {
            Some(ops) => ops,
            None => {
                proof {
                    lemma_claim_slots_failed_stays(layout, owned, old(assignment)@, old(used)@, system.slots@, i + 1, system.slots@.len() as int);
                }
                return Err(Error::SlotOperatorsVanished { system: system.id.clone() });
            },
        };
        match record_names(used, &resolved) {
            Some(k) => {
                proof {
                    lemma_claim_slots_failed_stays(layout, owned, old(assignment)@, old(used)@, system.slots@, i + 1, system.slots@.len() as int);
                }
                return Err(Error::SystemDuplicate { system: system.id.clone(), name: resolved[k].name.clone() });
            },
            None => {},
        }
        if str_eq(slot.facility.as_str(), "control") {
            let mut existing = assignment.control_operators();
            let ghost ev = ops_view(existing@);
            let ghost rv = ops_view(resolved@);
            let mut more = resolved;
            existing.append(&mut more);
            assert(ops_view(existing@) =~= ev + rv);
            assignment.set_room(RoomId::from_str("control"), existing);
        } else {
            assignment.set_room(room.id.duplicate(), resolved);
        }
        i = i + 1;
    }
    Ok(())
}

proof fn lemma_claim_slots_failed_stays(
    layout: Seq<RoomBlueprint>,
    owned: Seq<OwnedOperator>,
    rooms: AssignView,
    used: Set<Seq<char>>,
    slots: Seq<SystemSlotDef>,
    k: int,
    m: int,
)
    requires
        0 <= k <= m,
        claim_slots(layout, owned, rooms, used, slots, k).2 is Some,
    ensures
        claim_slots(layout, owned, rooms, used, slots, m) == claim_slots(layout, owned, rooms, used, slots, k),
    decreases m - k,
{
    if k < m {
        lemma_claim_slots_failed_stays(layout, owned, rooms, used, slots, k, m - 1);
    }
}

/// The priorities of a list of systems.
pub open spec fn priorities(systems: Seq<BaseSystemDef>) -> Seq<i32> {
    systems.map_values(|s: BaseSystemDef| s.priority)
}

/// Where system `i` is inserted into `order`: after every listed system whose
/// priority is at least its own, searching from position `from`.
pub open spec fn insert_pos(order: Seq<int>, prio: Seq<i32>, i: int, from: int) -> int
    decreases order.len() - from,
{
    if from < 0 || from >= order.len() {
        order.len() as int
    } else if prio[order[from]] < prio[i] {
        from
    } else {
        insert_pos(order, prio, i, from + 1)
    }
}

/// The first `n` systems ordered by descending priority, systems of equal
/// priority in their listed order.
pub open spec fn priority_order(prio: Seq<i32>, n: nat) -> Seq<int>
    decreases n,
{
    if n == 0 {
        Seq::empty()
    } else {
        let o = priority_order(prio, (n - 1) as nat);
        o.insert(insert_pos(o, prio, n - 1, 0), n - 1)
    }
}

proof fn lemma_insert_pos(order: Seq<int>, prio: Seq<i32>, i: int, from: int)
    requires
        0 <= from <= order.len(),
    ensures
        from <= insert_pos(order, prio, i, from) <= order.len(),
        forall|j: int| from <= j < insert_pos(order, prio, i, from) ==> prio[order[j]] >= prio[i],
        insert_pos(order, prio, i, from) < order.len() ==> prio[order[insert_pos(order, prio, i, from)]] < prio[i],
    decreases order.len() - from,
{
    if from < order.len() && prio[order[from]] >= prio[i] {
        lemma_insert_pos(order, prio, i, from + 1);
    }
}

/// Systems are tried in descending priority, ties in their listed order, and
/// every system is tried exactly once.
pub proof fn lemma_priority_order(prio: Seq<i32>, n: nat)
    requires
        n <= prio.len(),
    ensures
        priority_order(prio, n).len() == n,
        forall|a: int| 0 <= a < n ==> 0 <= #[trigger] priority_order(prio, n)[a] < n,
        forall|a: int, b: int|
            0 <= a < n && 0 <= b < n && a != b ==> priority_order(prio, n)[a] != priority_order(prio, n)[b],
        forall|a: int, b: int|
            #![trigger priority_order(prio, n)[a], priority_order(prio, n)[b]]
            0 <= a < b < n ==> prio[priority_order(prio, n)[a]] > prio[priority_order(prio, n)[b]] || (
            prio[priority_order(prio, n)[a]] == prio[priority_order(prio, n)[b]] && priority_order(prio, n)[a]
                < priority_order(prio, n)[b]),
    decreases n,
{
    if n > 0 {
        let m = n - 1;
        let o = priority_order(prio, m as nat);
        lemma_priority_order(prio, m as nat);
        let k = insert_pos(o, prio, m, 0);
        lemma_insert_pos(o, prio, m, 0);
        o.insert_ensures(k, m);
        let o2 = priority_order(prio, n);
        assert(o2 == o.insert(k, m));
        assert forall|a: int| 0 <= a < n implies 0 <= #[trigger] o2[a] < n by {
            if a > k {
                assert(o2[a] == o[a - 1]);
            }
        }
        assert forall|a: int, b: int| 0 <= a < n && 0 <= b < n && a != b implies o2[a] != o2[b] by {
            if a > k {
                assert(o2[a] == o[a - 1]);
            }
            if b > k {
                assert(o2[b] == o[b - 1]);
            }
        }
        assert forall|a: int, b: int| 0 <= a < b < n implies prio[o2[a]] > prio[o2[b]] || (prio[o2[a]] == prio[o2[b]]
            && o2[a] < o2[b]) by {
            if a < k && b < k {
            } else if a < k && b == k {
            } else if a < k && b > k {
                assert(o2[b] == o[b - 1]);
                assert(prio[o[a]] >= prio[m]);
                assert(prio[o[k]] < prio[m]);
                if k < b - 1 {
                    assert(prio[o[k]] > prio[o[b - 1]] || prio[o[k]] == prio[o[b - 1]]);
                }
            } else if a == k {
                assert(o2[b] == o[b - 1]);
                assert(prio[o[k]] < prio[m]);
                if k < b - 1 {
                    assert(prio[o[k]] > prio[o[b - 1]] || prio[o[k]] == prio[o[b - 1]]);
                }
            } else {
                assert(o2[a] == o[a - 1]);
                assert(o2[b] == o[b - 1]);
            }
        }
    }
}

/// The systems' indices in the order they are tried: descending priority,
/// ties in listed order.
pub fn systems_by_priority(systems: &Vec<BaseSystemDef>) -> (r: Vec<usize>)
    ensures
        r@.map_values(|x: usize| x as int) == priority_order(priorities(systems@), systems@.len()),
{
    let ghost prio = priorities(systems@);
    let mut order: Vec<usize> = Vec::new();
    let mut i: usize = 0;
    assert(order@.map_values(|x: usize| x as int) =~= Seq::<int>::empty());
    while i < systems.len()
        invariant
            0 <= i <= systems@.len(),
            prio == priorities(systems@),
            order@.map_values(|x: usize| x as int) == priority_order(prio, i as nat),
            forall|j: int| 0 <= j < order@.len() ==> order@[j] < i,
        decreases systems@.len() - i,
    {
        let ghost o = priority_order(prio, i as nat);
        let mut k: usize = 0;
        while k < order.len() && !(systems[order[k]].priority < systems[i].priority)
            invariant
                0 <= k <= order@.len(),
                i < systems@.len(),
                prio == priorities(systems@),
                order@.map_values(|x: usize| x as int) == o,
                forall|j: int| 0 <= j < order@.len() ==> order@[j] < i,
                insert_pos(o, prio, i as int, 0) == insert_pos(o, prio, i as int, k as int),
            decreases order@.len() - k,
        {
            assert(o[k as int] == order@[k as int] as int);
            k = k + 1;
        }
        proof {
            if k < order@.len() {
                assert(o[k as int] == order@[k as int] as int);
            }
        }
        let ghost pre = order@;
        order.insert(k, i);
        proof {
            assert(pre.map_values(|x: usize| x as int).len() == o.len());
            assert(order@.map_values(|x: usize| x as int) =~= o.insert(k as int, i as int));
            assert forall|j: int| 0 <= j < order@.len() implies order@[j] < i + 1 by {
                if j > k {
                    assert(order@[j] == pre[j - 1]);
                } else if j < k {
                    assert(order@[j] == pre[j]);
                }
            }
        }
        i = i + 1;
    }
    order
}

/// Where the claim of base systems stands: the assignment, the used names,
/// the exclusive groups already claimed, the systems claimed (by index, in
/// claim order) and the failure that stopped it, if any (with the index of
/// the system being claimed).
pub struct ClaimState {
    pub rooms: AssignView,
    pub used: Set<Seq<char>>,
    pub groups: Set<Seq<char>>,
    pub claimed: Seq<int>,
    pub failure: Option<(int, ClaimFailure)>,
}

/// The exclusive group of a system, if it has one.
pub open spec fn group_of(s: BaseSystemDef) -> Option<Seq<char>> {
    match s.exclusive_group {
        Some(g) => Some(g@),
        None => None,
    }
}

/// Trying system `idx` on `st`: it is passed over when the claim already
/// failed, when it does not serve the shift, when its exclusive group is
/// already claimed, or when one of its slots cannot be filled; otherwise its
/// slots are claimed.
pub open spec fn claim_step(
    layout: Seq<RoomBlueprint>,
    owned: Seq<OwnedOperator>,
    systems: Seq<BaseSystemDef>,
    mode: AssignShiftMode,
    st: ClaimState,
    idx: int,
) -> ClaimState {
    let s = systems[idx];
    if st.failure is Some {
        st
    } else if !mode_allowed_spec(s.shift_modes@, mode) {
        st
    } else if group_of(s) matches Some(g) && st.groups.contains(g) {
        st
    } else if !system_feasible_spec(layout, owned, st.rooms, st.used, s.slots@) {
        st
    } else {
        let out = claim_slots(layout, owned, st.rooms, st.used, s.slots@, s.slots@.len() as int);
        match out.2 {
            Some(f) => ClaimState {
                rooms: out.0,
                used: out.1,
                groups: st.groups,
                claimed: st.claimed,
                failure: Some((idx, f)),
            },
            None => ClaimState {
                rooms: out.0,
                used: out.1,
                groups: match group_of(s) {
                    Some(g) => st.groups.insert(g),
                    None => st.groups,
                },
                claimed: st.claimed.push(idx),
                failure: None,
            },
        }
    }
}

/// Trying the systems `order[0..n]` one after another from `start`.
pub open spec fn claim_upto(
    layout: Seq<RoomBlueprint>,
    owned: Seq<OwnedOperator>,
    systems: Seq<BaseSystemDef>,
    order: Seq<int>,
    mode: AssignShiftMode,
    start: ClaimState,
    n: int,
) -> ClaimState
    decreases n,
{
    if n <= 0 {
        start
    } else {
        claim_step(layout, owned, systems, mode, claim_upto(layout, owned, systems, order, mode, start, n - 1), order[n - 1])
    }
}

/// The state a claim starts from.
pub open spec fn claim_start(rooms: AssignView, used: Set<Seq<char>>) -> ClaimState {
    ClaimState { rooms, used, groups: Set::empty(), claimed: Seq::empty(), failure: None }
}

/// Claiming base systems: every system tried once, by descending priority.
pub open spec fn claim_all(
    layout: Seq<RoomBlueprint>,
    owned: Seq<OwnedOperator>,
    systems: Seq<BaseSystemDef>,
    mode: AssignShiftMode,
    rooms: AssignView,
    used: Set<Seq<char>>,
) -> ClaimState {
    claim_upto(
        layout,
        owned,
        systems,
        priority_order(priorities(systems), systems.len()),
        mode,
        claim_start(rooms, used),
        systems.len() as int,
    )
}

proof fn lemma_claim_upto_failed_stays(
    layout: Seq<RoomBlueprint>,
    owned: Seq<OwnedOperator>,
    systems: Seq<BaseSystemDef>,
    order: Seq<int>,
    mode: AssignShiftMode,
    start: ClaimState,
    k: int,
    m: int,
)
    requires
        0 <= k <= m,
        claim_upto(layout, owned, systems, order, mode, start, k).failure is Some,
    ensures
        claim_upto(layout, owned, systems, order, mode, start, m) == claim_upto(layout, owned, systems, order, mode, start, k),
    decreases m - k,
{
    if k < m {
        lemma_claim_upto_failed_stays(layout, owned, systems, order, mode, start, k, m - 1);
    }
}

/// Claims, by descending priority, every base system that serves the shift
/// `mode`, whose exclusive group is not claimed yet and whose slots can all be
/// filled; writes the operators into `assignment` and records them in `used`.
pub fn claim_base_systems(
    blueprint: &BaseBlueprint,
    operbox: &OperBox,
    systems: &Vec<BaseSystemDef>,
    mode: AssignShiftMode,
    assignment: &mut BaseAssignment,
    used: &mut NameSet,
) -> (r: Result<(), Error>)
    ensures
        ({
            let st = claim_all(blueprint.rooms@, operbox.operators@, systems@, mode, old(assignment)@, old(used)@);
            &&& final(assignment)@ == st.rooms
            &&& final(used)@ == st.used
            &&& r is Ok <==> st.failure is None
            &&& r matches Err(e) ==> claim_error(systems@[st.failure.unwrap().0].id@, st.failure.unwrap().1, e)
        }),
{
    let ghost layout = blueprint.rooms@;
    let ghost owned = operbox.operators@;
    let ghost prio = priorities(systems@);
    let ghost start = claim_start(assignment@, used@);
    let order = systems_by_priority(systems);
    let ghost o = priority_order(prio, systems@.len());
    proof {
        lemma_priority_order(prio, systems@.len());
    }
    let mut claimed_groups = NameSet::new();
    let mut p: usize = 0;
    while p < order.len()
        invariant
            0 <= p <= order@.len(),
            layout == blueprint.rooms@,
            owned == operbox.operators@,
            prio == priorities(systems@),
            o == priority_order(prio, systems@.len()),
            order@.map_values(|x: usize| x as int) == o,
            o.len() == systems@.len(),
            forall|a: int| 0 <= a < systems@.len() ==> 0 <= #[trigger] o[a] < systems@.len(),
            start == claim_start(old(assignment)@, old(used)@),
            claim_upto(layout, owned, systems@, o, mode, start, p as int).rooms == assignment@,
            claim_upto(layout, owned, systems@, o, mode, start, p as int).used == used@,
            claim_upto(layout, owned, systems@, o, mode, start, p as int).groups == claimed_groups@,
            claim_upto(layout, owned, systems@, o, mode, start, p as int).failure is None,
        decreases order@.len() - p,
    {
        let idx = order[p];
        proof {
            assert(o[p as int] == idx as int);
        }
        let system = &systems[idx];
        let ghost st = claim_upto(layout, owned, systems@, o, mode, start, p as int);
        if mode_allowed(system, mode) {
            let group_taken = match &system.exclusive_group {
                Some(g) => claimed_groups.contains(g.as_str()),
                None => false,
            };
            if !group_taken && system_feasible(blueprint, operbox, assignment, used, system) {
                match claim_system(blueprint, operbox, assignment, used, system) {
                    Err(e) => {
                        proof {
                            lemma_claim_upto_failed_stays(layout, owned, systems@, o, mode, start, p + 1, systems@.len() as int);
                        }
                        return Err(e);
                    },
                    Ok(()) => {},
                }
                match &system.exclusive_group {
                    Some(g) => {
                        claimed_groups.insert(g.clone());
                    },
                    None => {},
                }
            }
        }
        p = p + 1;
    }
    Ok(())
}

/// The exclusive groups of the claimed systems.
pub open spec fn groups_of(systems: Seq<BaseSystemDef>, claimed: Seq<int>) -> Set<Seq<char>>
    decreases claimed.len(),
{
    if claimed.len() == 0 {
        Set::empty()
    } else {
        let prev = groups_of(systems, claimed.drop_last());
        match group_of(systems[claimed.last()]) {
            Some(g) => prev.insert(g),
            None => prev,
        }
    }
}

proof fn lemma_groups_of_contains(systems: Seq<BaseSystemDef>, claimed: Seq<int>, a: int)
    requires
        0 <= a < claimed.len(),
        group_of(systems[claimed[a]]) is Some,
    ensures
        groups_of(systems, claimed).contains(group_of(systems[claimed[a]]).unwrap()),
    decreases claimed.len(),
{
    if a < claimed.len() - 1 {
        lemma_groups_of_contains(systems, claimed.drop_last(), a);
        assert(claimed.drop_last()[a] == claimed[a]);
    }
}

proof fn lemma_claim_slots_used_grows(
    layout: Seq<RoomBlueprint>,
    owned: Seq<OwnedOperator>,
    rooms: AssignView,
    used: Set<Seq<char>>,
    slots: Seq<SystemSlotDef>,
    n: int,
)
    ensures
        used.subset_of(claim_slots(layout, owned, rooms, used, slots, n).1),
    decreases n,
{
    if n > 0 {
        lemma_claim_slots_used_grows(layout, owned, rooms, used, slots, n - 1);
    }
}

/// What holds after trying the first `n` systems of the priority order.
pub open spec fn claim_invariant(
    systems: Seq<BaseSystemDef>,
    mode: AssignShiftMode,
    used: Set<Seq<char>>,
    st: ClaimState,
    n: int,
) -> bool {
    let prio = priorities(systems);
    let o = priority_order(prio, systems.len());
    &&& used.subset_of(st.used)
    &&& forall|a: int| 0 <= a < st.claimed.len() ==> 0 <= #[trigger] st.claimed[a] < systems.len()
    &&& forall|a: int| 0 <= a < st.claimed.len() ==> mode_allowed_spec(systems[#[trigger] st.claimed[a]].shift_modes@, mode)
    &&& st.groups == groups_of(systems, st.claimed)
    &&& forall|a: int, b: int|
        #![trigger st.claimed[a], st.claimed[b]]
        0 <= a < b < st.claimed.len() && group_of(systems[st.claimed[a]]) is Some && group_of(systems[st.claimed[b]]) is Some
            ==> group_of(systems[st.claimed[a]]) != group_of(systems[st.claimed[b]])
    &&& forall|a: int, q: int|
        #![trigger st.claimed[a], o[q]]
        0 <= a < st.claimed.len() && n <= q < systems.len() ==> prio[st.claimed[a]] >= prio[o[q]]
    &&& forall|a: int, b: int|
        #![trigger st.claimed[a], st.claimed[b]]
        0 <= a < b < st.claimed.len() ==> prio[st.claimed[a]] >= prio[st.claimed[b]]
}

proof fn lemma_claim_upto_invariant(
    layout: Seq<RoomBlueprint>,
    owned: Seq<OwnedOperator>,
    systems: Seq<BaseSystemDef>,
    mode: AssignShiftMode,
    rooms: AssignView,
    used: Set<Seq<char>>,
    n: int,
)
    requires
        0 <= n <= systems.len(),
    ensures
        claim_invariant(
            systems,
            mode,
            used,
            claim_upto(layout, owned, systems, priority_order(priorities(systems), systems.len()), mode, claim_start(rooms, used), n),
            n,
        ),
    decreases n,
{
    let prio = priorities(systems);
    let o = priority_order(prio, systems.len());
    lemma_priority_order(prio, systems.len());
    let start = claim_start(rooms, used);
    if n == 0 {
        assert(groups_of(systems, Seq::<int>::empty()) =~= Set::<Seq<char>>::empty());
    } else {
        lemma_claim_upto_invariant(layout, owned, systems, mode, rooms, used, n - 1);
        let st = claim_upto(layout, owned, systems, o, mode, start, n - 1);
        let idx = o[n - 1];
        let s = systems[idx];
        let st2 = claim_upto(layout, owned, systems, o, mode, start, n);
        assert(st2 == claim_step(layout, owned, systems, mode, st, idx));
        if st.failure is Some || !mode_allowed_spec(s.shift_modes@, mode) || (group_of(s) matches Some(g) && st.groups.contains(g))
            || !system_feasible_spec(layout, owned, st.rooms, st.used, s.slots@) {
            assert(st2 == st);
        } else {
            let out = claim_slots(layout, owned, st.rooms, st.used, s.slots@, s.slots@.len() as int);
            lemma_claim_slots_used_grows(layout, owned, st.rooms, st.used, s.slots@, s.slots@.len() as int);
            if out.2 is None {
                let c = st.claimed;
                let c2 = st2.claimed;
                assert(c2 == c.push(idx));
                assert(c2.drop_last() =~= c);
                assert forall|a: int| 0 <= a < c2.len() implies 0 <= #[trigger] c2[a] < systems.len() by {
                    if a < c.len() {
                        assert(c2[a] == c[a]);
                    }
                }
                assert forall|a: int| 0 <= a < c2.len() implies mode_allowed_spec(systems[#[trigger] c2[a]].shift_modes@, mode) by {
                    if a < c.len() {
                        assert(c2[a] == c[a]);
                    }
                }
                assert forall|a: int, b: int|
                    #![trigger c2[a], c2[b]]
                    0 <= a < b < c2.len() && group_of(systems[c2[a]]) is Some && group_of(systems[c2[b]]) is Some
                    implies group_of(systems[c2[a]]) != group_of(systems[c2[b]]) by {
                    assert(c2[a] == c[a]);
                    if b < c.len() {
                        assert(c2[b] == c[b]);
                    } else {
                        lemma_groups_of_contains(systems, c, a);
                    }
                }
                assert forall|a: int, q: int|
                    #![trigger c2[a], o[q]]
                    0 <= a < c2.len() && n <= q < systems.len() implies prio[c2[a]] >= prio[o[q]] by {
                    if a < c.len() {
                        assert(c2[a] == c[a]);
                        assert(prio[c[a]] >= prio[o[q]]);
                    } else {
                        assert(prio[o[n - 1]] > prio[o[q]] || prio[o[n - 1]] == prio[o[q]]);
                    }
                }
                assert forall|a: int, b: int|
                    #![trigger c2[a], c2[b]]
                    0 <= a < b < c2.len() implies prio[c2[a]] >= prio[c2[b]] by {
                    assert(c2[a] == c[a]);
                    if b < c.len() {
                        assert(c2[b] == c[b]);
                    } else {
                        assert(prio[c[a]] >= prio[o[n - 1]]);
                    }
                }
            }
        }
    }
}

/// Claiming base systems never releases a used name; it claims only systems
/// that serve the shift, each at most once, at most one system of each
/// exclusive group, and claims them in descending priority.
pub proof fn lemma_claim_all_laws(
    layout: Seq<RoomBlueprint>,
    owned: Seq<OwnedOperator>,
    systems: Seq<BaseSystemDef>,
    mode: AssignShiftMode,
    rooms: AssignView,
    used: Set<Seq<char>>,
)
    ensures
        ({
            let st = claim_all(layout, owned, systems, mode, rooms, used);
            &&& used.subset_of(st.used)
            &&& forall|a: int| 0 <= a < st.claimed.len() ==> 0 <= #[trigger] st.claimed[a] < systems.len()
            &&& forall|a: int| 0 <= a < st.claimed.len() ==> mode_allowed_spec(systems[#[trigger] st.claimed[a]].shift_modes@, mode)
            &&& forall|a: int, b: int|
                #![trigger st.claimed[a], st.claimed[b]]
                0 <= a < b < st.claimed.len() ==> st.claimed[a] != st.claimed[b]
            &&& forall|a: int, b: int|
                #![trigger st.claimed[a], st.claimed[b]]
                0 <= a < b < st.claimed.len() && group_of(systems[st.claimed[a]]) is Some && group_of(systems[st.claimed[b]]) is Some
                    ==> group_of(systems[st.claimed[a]]) != group_of(systems[st.claimed[b]])
            &&& forall|a: int, b: int|
                #![trigger st.claimed[a], st.claimed[b]]
                0 <= a < b < st.claimed.len() ==> systems[st.claimed[a]].priority >= systems[st.claimed[b]].priority
        }),
{
    lemma_claim_upto_invariant(layout, owned, systems, mode, rooms, used, systems.len() as int);
    let st = claim_all(layout, owned, systems, mode, rooms, used);
    lemma_claim_upto_claimed_distinct(layout, owned, systems, mode, rooms, used, systems.len() as int);
    assert forall|a: int, b: int|
        #![trigger st.claimed[a], st.claimed[b]]
        0 <= a < b < st.claimed.len() implies systems[st.claimed[a]].priority >= systems[st.claimed[b]].priority by {
        assert(priorities(systems)[st.claimed[a]] >= priorities(systems)[st.claimed[b]]);
    }
}

proof fn lemma_claim_upto_claimed_distinct(
    layout: Seq<RoomBlueprint>,
    owned: Seq<OwnedOperator>,
    systems: Seq<BaseSystemDef>,
    mode: AssignShiftMode,
    rooms: AssignView,
    used: Set<Seq<char>>,
    n: int,
)
    requires
        0 <= n <= systems.len(),
    ensures
        ({
            let o = priority_order(priorities(systems), systems.len());
            let st = claim_upto(layout, owned, systems, o, mode, claim_start(rooms, used), n);
            &&& forall|a: int| 0 <= a < st.claimed.len() ==> exists|j: int| 0 <= j < n && #[trigger] o[j] == #[trigger] st.claimed[a]
            &&& forall|a: int, b: int|
                #![trigger st.claimed[a], st.claimed[b]]
                0 <= a < b < st.claimed.len() ==> st.claimed[a] != st.claimed[b]
        }),
    decreases n,
{
    let prio = priorities(systems);
    let o = priority_order(prio, systems.len());
    lemma_priority_order(prio, systems.len());
    let start = claim_start(rooms, used);
    if n > 0 {
        lemma_claim_upto_claimed_distinct(layout, owned, systems, mode, rooms, used, n - 1);
        let st = claim_upto(layout, owned, systems, o, mode, start, n - 1);
        let idx = o[n - 1];
        let st2 = claim_upto(layout, owned, systems, o, mode, start, n);
        assert(st2 == claim_step(layout, owned, systems, mode, st, idx));
        let c = st.claimed;
        let c2 = st2.claimed;
        if c2 != c {
            assert(c2 == c.push(idx));
            assert forall|a: int| 0 <= a < c2.len() implies exists|j: int| 0 <= j < n && #[trigger] o[j] == #[trigger] c2[a] by {
                if a < c.len() {
                    assert(c2[a] == c[a]);
                    let j = choose|j: int| 0 <= j < n - 1 && #[trigger] o[j] == c[a];
                    assert(o[j] == c2[a]);
                } else {
                    assert(o[n - 1] == c2[a]);
                }
            }
            assert forall|a: int, b: int|
                #![trigger c2[a], c2[b]]
                0 <= a < b < c2.len() implies c2[a] != c2[b] by {
                assert(c2[a] == c[a]);
                if b < c.len() {
                    assert(c2[b] == c[b]);
                } else {
                    let j = choose|j: int| 0 <= j < n - 1 && #[trigger] o[j] == c[a];
                    assert(o[j] != o[n - 1]);
                }
            }
        } else {
            assert forall|a: int| 0 <= a < c2.len() implies exists|j: int| 0 <= j < n && #[trigger] o[j] == #[trigger] c2[a] by {
                let j = choose|j: int| 0 <= j < n - 1 && #[trigger] o[j] == c[a];
                assert(o[j] == c2[a]);
            }
        }
    }
}

/// A slot claimed without failure places operators that were all unused and
/// are pairwise different, and records exactly those in the used names.
pub proof fn lemma_claim_slot_fresh(
    layout: Seq<RoomBlueprint>,
    owned: Seq<OwnedOperator>,
    rooms: AssignView,
    used: Set<Seq<char>>,
    slot: SystemSlotDef,
)
    requires
        claim_slot(layout, owned, rooms, used, slot).2 is None,
    ensures
        slot_ops(owned, slot.operators@, used) matches Some(ops) && {
            let names = op_names(ops);
            &&& forall|j: int| 0 <= j < names.len() ==> !used.contains(#[trigger] names[j])
            &&& forall|i: int, j: int| 0 <= i < j < names.len() ==> #[trigger] names[i] != #[trigger] names[j]
            &&& claim_slot(layout, owned, rooms, used, slot).1 == used + names.to_set()
        },
{
    let ops = slot_ops(owned, slot.operators@, used).unwrap();
    let names = op_names(ops);
    let empty = Set::<Seq<char>>::empty();
    assert(slot_room(layout, rooms, slot) is Some);
    lemma_placed_bound(names, empty, used);
    assert(placed_before_clash(names, empty, used) == names.len());
    lemma_placed_all_fresh(names, empty, used);
    assert(names.subrange(0, names.len() as int) =~= names);
}

} // verus!
