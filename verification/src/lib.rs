//! Verified core of the Arknights base (infrastructure) trade-post calculator:
//! operator tiers, buff resolution, operator pools and combination enumeration,
//! order-mechanic bookkeeping, shortcut classification, base-system claiming and
//! shift-rotation helpers.
pub mod text;
pub mod tier;
pub mod names;
pub mod instances;
pub mod types;
pub mod combinatorics;
pub mod layout;
pub mod error;
pub mod assign;
pub mod operbox;
pub mod system;
pub mod pool;
pub mod trade;
pub mod shortcut;
pub mod schedule;
pub mod colocate;
pub mod power;
pub mod skills;
pub mod shift;
pub mod control;
pub mod trade_meta;
pub mod atoms;
pub mod conditions;
pub mod selectors;
