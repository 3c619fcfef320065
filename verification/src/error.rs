//! Errors of the library.
use vstd::prelude::*;

use crate::tier::PromotionTier;

verus! {

/// What went wrong while placing operators.
#[derive(Debug)]
pub enum Error {
    /// An operator was placed twice (`facility` names the kind of placement).
    Duplicate { facility: String, name: String },
    /// A base system's slot no longer had a free room when it was claimed.
    SlotRoomVanished { system: String },
    /// A base system's slot no longer had its operators when it was claimed.
    SlotOperatorsVanished { system: String },
    /// A base system would place the same operator twice.
    SystemDuplicate { system: String, name: String },
    /// The peak shift has nobody in trade, factory or power rooms.
    NoPeakRotation,
    /// Power stations to fill and operators found for them differ in number.
    PowerStationCount { expected: usize, got: usize },
    /// A skill id still uses the legacy `skill_` namespace.
    LegacySkillId { id: String },
    /// A skill id occurs twice in the skill table.
    DuplicateSkillId { id: String },
    /// A buff id is not in the skill table.
    UnknownSkillId { id: String },
    /// Resolved trade buffs of listed operators missing from the skill table,
    /// as `(operator, tier, buff id)`.
    MissingPilotBuffs { missing: Vec<(String, PromotionTier, String)> },
    /// No control-centre combination holds the pinned operators and otherwise
    /// only unused ones, neither among the cached nor among the rescanned ones.
    NoControlCombo,
    /// Two shifts share rotating operators.
    ShiftOverlap { label: String, overlap: Vec<String> },
}

} // verus!
