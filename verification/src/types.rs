//! Vocabulary of the effect-atom model: phases, selectors, conditions, state keys.
use vstd::prelude::*;

use crate::text::str_eq;

verus! {

/// Execution phase of an effect atom.
#[derive(Debug, Clone, Copy, PartialEq, Eq, Hash, Structural)]
pub enum Phase {
    StateWrite,
    Constant,
    PeerShare,
    Limit,
    /// After limit recompute: eff from net order-limit gain.
    LimitVar,
    OrderVar,
    EffVar,
    /// After peer eff settles: zero other ops and credit owner.
    PeerAbsorb,
    OrderMechanic,
    GlobalInject,
    Mood,
}

/// Sort key of a phase; atoms run in ascending key order.
pub open spec fn phase_key(p: Phase) -> int {
    match p {
        Phase::StateWrite => 10,
        Phase::Constant => 20,
        Phase::PeerShare => 35,
        Phase::Limit => 40,
        Phase::LimitVar => 55,
        Phase::OrderVar => 50,
        Phase::EffVar => 60,
        Phase::PeerAbsorb => 70,
        Phase::OrderMechanic => 90,
        Phase::GlobalInject => 92,
        Phase::Mood => 95,
    }
}

impl Phase {
    pub fn sort_key(self) -> (k: i32)
        ensures
            k == phase_key(self),
    {
        match self {
            Self::StateWrite => 10,
            Self::Constant => 20,
            Self::PeerShare => 35,
            Self::Limit => 40,
            Self::LimitVar => 55,
            Self::OrderVar => 50,
            Self::EffVar => 60,
            Self::PeerAbsorb => 70,
            Self::OrderMechanic => 90,
            Self::GlobalInject => 92,
            Self::Mood => 95,
        }
    }
}

/// Distinct phases have distinct sort keys, so phases are totally ordered.
pub proof fn lemma_phase_key_injective(a: Phase, b: Phase)
    ensures
        phase_key(a) == phase_key(b) <==> a == b,
{
}

/// State writes run first and mood effects last. In between, phases run as
/// constant, limit, order variables, efficiency variables, peer absorption,
/// order mechanics and global injection; the limit settles before the
/// variables that read it.
pub proof fn lemma_phase_order()
    ensures
        forall|p: Phase| p != Phase::StateWrite ==> phase_key(Phase::StateWrite) < #[trigger] phase_key(p),
        forall|p: Phase| p != Phase::Mood ==> #[trigger] phase_key(p) < phase_key(Phase::Mood),
        phase_key(Phase::Constant) < phase_key(Phase::Limit),
        phase_key(Phase::Limit) < phase_key(Phase::OrderVar),
        phase_key(Phase::Limit) < phase_key(Phase::LimitVar),
        phase_key(Phase::Limit) < phase_key(Phase::EffVar),
        phase_key(Phase::OrderVar) < phase_key(Phase::EffVar),
        phase_key(Phase::EffVar) < phase_key(Phase::PeerAbsorb),
        phase_key(Phase::PeerAbsorb) < phase_key(Phase::OrderMechanic),
        phase_key(Phase::OrderMechanic) < phase_key(Phase::GlobalInject),
{
}

/// Where a skill reads its input from.
#[derive(Debug, Clone, PartialEq)]
pub enum Selector {
    GoldDeliveryCount,
    OtherOpsDirectEff,
    OtherOpsTotalEff,
    RoomPeerCount,
    FinalOrderLimit,
    /// `final_order_limit - facility_base_limit`.
    LimitExcess,
    /// Trade post facility level (1-3).
    FacilityLevel,
    /// Count of room peers carrying `tag`.
    TaggedCountInRoom { tag: String },
    /// Sum of per-operator `limit_contrib`.
    LimitContribSum,
    MeetingMaxLevel,
    DormLevelSum,
    ManuRecipeKinds,
    EliteFacilityCount,
    SuiFacilityCount,
    DormOccupantCount,
    OrderGap,
    Mood,
}

/// When a skill triggers.
#[derive(Debug, Clone, PartialEq)]
pub enum Condition {
    GoldDeliveryBelow { n: u8 },
    GoldDeliveryAbove { n: u8 },
    GoldOrderInvestEligible {},
    OrderHasTag { tag: String },
    OrderNotHasTag { tag: String },
    MoodAbove { n: u8 },
    MoodBelowOrEq { n: u8 },
    PartnerInRoom { name: String },
    TagPresentInRoom { tag: String },
    OperatorInBase { name: String },
}

/// Which operators a mood-drain change applies to.
#[derive(Debug, Clone, Copy, PartialEq, Eq, Structural)]
pub enum MoodDrainScope {
    SelfOp,
    RoomOperators,
}

/// Keys of the shared state pool.
#[derive(Debug, Clone, Copy, PartialEq, Eq, Hash, Structural)]
pub enum StateKey {
    HumanFireworks,
    Perception,
    SilentEcho,
    MonsterCuisine,
}

/// The state key a name denotes, by its English or Chinese name.
pub open spec fn state_key_of(s: Seq<char>) -> Option<StateKey> {
    if s == "HumanFireworks"@ || s == "人间烟火"@ {
        Some(StateKey::HumanFireworks)
    } else if s == "Perception"@ || s == "感知信息"@ {
        Some(StateKey::Perception)
    } else if s == "SilentEcho"@ || s == "无声共鸣"@ {
        Some(StateKey::SilentEcho)
    } else if s == "MonsterCuisine"@ || s == "魔物料理"@ {
        Some(StateKey::MonsterCuisine)
    } else {
        None
    }
}

impl StateKey {
    pub fn parse(s: &str) -> (r: Option<Self>)
        ensures
            r == state_key_of(s@),
    {
        if str_eq(s, "HumanFireworks") || str_eq(s, "人间烟火") {
            Some(Self::HumanFireworks)
        } else if str_eq(s, "Perception") || str_eq(s, "感知信息") {
            Some(Self::Perception)
        } else if str_eq(s, "SilentEcho") || str_eq(s, "无声共鸣") {
            Some(Self::SilentEcho)
        } else if str_eq(s, "MonsterCuisine") || str_eq(s, "魔物料理") {
            Some(Self::MonsterCuisine)
        } else {
            None
        }
    }
}

} // verus!
