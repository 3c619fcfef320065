//! The order in which one shift is filled: base systems first, then the
//! control centre and dormitory producers, then trade, factory and power rooms.
use vstd::prelude::*;

use crate::system::AssignShiftMode;

verus! {

/// One stage of filling a shift.
#[derive(Debug, Clone, Copy, PartialEq, Eq, Structural)]
pub enum ShiftStage {
    /// Claim the base systems (peak only).
    ClaimSystems,
    /// Fill the control centre up to five operators (peak, when not full).
    Control,
    /// Place the dormitory producers (peak).
    DormProducers,
    /// Complete the factory rooms anchored by a base system.
    ManuAnchors,
    /// Place the meta trade line-ups (law chain, witch, closure).
    TradeMeta,
    /// Complete the trade rooms anchored by a base system.
    TradeAnchors,
    /// Fill the power stations.
    PowerStations,
    /// Fill the factory rooms.
    Manufacture,
    /// Fill the remaining trade rooms.
    TradeRemainder,
    /// Try moving the black key into the meta trade room.
    ColocateBlackkey,
    /// Recovery trade: one room led by the elite-0 street vendor, the rest greedy.
    TradeJieRemainder,
}

/// The stage after `done` (`None`: before the first stage); `None` when the
/// shift is complete. The control stage runs only when the control centre holds
/// fewer than five operators after the base systems are claimed.
pub open spec fn next_stage_spec(mode: AssignShiftMode, done: Option<ShiftStage>, control_len: nat) -> Option<ShiftStage> {
    match mode {
        AssignShiftMode::Peak => match done {
            None => Some(ShiftStage::ClaimSystems),
            Some(ShiftStage::ClaimSystems) => if control_len < 5 {
                Some(ShiftStage::Control)
            } else {
                Some(ShiftStage::DormProducers)
            },
            Some(ShiftStage::Control) => Some(ShiftStage::DormProducers),
            Some(ShiftStage::DormProducers) => Some(ShiftStage::ManuAnchors),
            Some(ShiftStage::ManuAnchors) => Some(ShiftStage::TradeMeta),
            Some(ShiftStage::TradeMeta) => Some(ShiftStage::TradeAnchors),
            Some(ShiftStage::TradeAnchors) => Some(ShiftStage::PowerStations),
            Some(ShiftStage::PowerStations) => Some(ShiftStage::Manufacture),
            Some(ShiftStage::Manufacture) => Some(ShiftStage::TradeRemainder),
            Some(ShiftStage::TradeRemainder) => Some(ShiftStage::ColocateBlackkey),
            _ => None,
        },
        AssignShiftMode::Recovery => match done {
            None => Some(ShiftStage::TradeJieRemainder),
            Some(ShiftStage::TradeJieRemainder) => Some(ShiftStage::Manufacture),
            Some(ShiftStage::Manufacture) => Some(ShiftStage::PowerStations),
            _ => None,
        },
    }
}

/// The stage that follows `done` in a shift of mode `mode`.
pub fn next_shift_stage(mode: AssignShiftMode, done: Option<ShiftStage>, control_len: usize) -> (r: Option<ShiftStage>)
    ensures
        r == next_stage_spec(mode, done, control_len as nat),
{
    match mode {
        AssignShiftMode::Peak => match done {
            None => Some(ShiftStage::ClaimSystems),
            Some(ShiftStage::ClaimSystems) => {
                if control_len < 5 {
                    Some(ShiftStage::Control)
                } else {
                    Some(ShiftStage::DormProducers)
                }
            },
            Some(ShiftStage::Control) => Some(ShiftStage::DormProducers),
            Some(ShiftStage::DormProducers) => Some(ShiftStage::ManuAnchors),
            Some(ShiftStage::ManuAnchors) => Some(ShiftStage::TradeMeta),
            Some(ShiftStage::TradeMeta) => Some(ShiftStage::TradeAnchors),
            Some(ShiftStage::TradeAnchors) => Some(ShiftStage::PowerStations),
            Some(ShiftStage::PowerStations) => Some(ShiftStage::Manufacture),
            Some(ShiftStage::Manufacture) => Some(ShiftStage::TradeRemainder),
            Some(ShiftStage::TradeRemainder) => Some(ShiftStage::ColocateBlackkey),
            _ => None,
        },
        AssignShiftMode::Recovery => match done {
            None => Some(ShiftStage::TradeJieRemainder),
            Some(ShiftStage::TradeJieRemainder) => Some(ShiftStage::Manufacture),
            Some(ShiftStage::Manufacture) => Some(ShiftStage::PowerStations),
            _ => None,
        },
    }
}

/// Position of a stage in the run of its mode.
pub open spec fn stage_rank(mode: AssignShiftMode, s: ShiftStage) -> int {
    match mode {
        AssignShiftMode::Peak => match s {
            ShiftStage::ClaimSystems => 1,
            ShiftStage::Control => 2,
            ShiftStage::DormProducers => 3,
            ShiftStage::ManuAnchors => 4,
            ShiftStage::TradeMeta => 5,
            ShiftStage::TradeAnchors => 6,
            ShiftStage::PowerStations => 7,
            ShiftStage::Manufacture => 8,
            ShiftStage::TradeRemainder => 9,
            ShiftStage::ColocateBlackkey => 10,
            ShiftStage::TradeJieRemainder => 11,
        },
        AssignShiftMode::Recovery => match s {
            ShiftStage::TradeJieRemainder => 1,
            ShiftStage::Manufacture => 2,
            ShiftStage::PowerStations => 3,
            _ => 4,
        },
    }
}

/// A peak shift starts by claiming the base systems and ends with the
/// black-key colocation; a recovery shift neither claims base systems nor
/// fills the control centre or the dormitories, and ends with the power
/// stations. Every stage comes after the one before it, so none runs twice.
pub proof fn lemma_shift_stage_order(mode: AssignShiftMode, done: Option<ShiftStage>, control_len: nat)
    ensures
        next_stage_spec(AssignShiftMode::Peak, None, control_len) == Some(ShiftStage::ClaimSystems),
        next_stage_spec(AssignShiftMode::Peak, Some(ShiftStage::ColocateBlackkey), control_len) is None,
        next_stage_spec(AssignShiftMode::Recovery, Some(ShiftStage::PowerStations), control_len) is None,
        next_stage_spec(AssignShiftMode::Recovery, done, control_len) != Some(ShiftStage::ClaimSystems),
        next_stage_spec(AssignShiftMode::Recovery, done, control_len) != Some(ShiftStage::Control),
        next_stage_spec(AssignShiftMode::Recovery, done, control_len) != Some(ShiftStage::DormProducers),
        next_stage_spec(mode, done, control_len) matches Some(n) ==> match done {
            Some(d) => stage_rank(mode, d) < stage_rank(mode, n),
            None => stage_rank(mode, n) == 1,
        },
{
}

} // verus!
