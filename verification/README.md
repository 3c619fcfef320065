# infra_core

A verified library of the integer and string logic behind planning the trade
posts and shift rotations of an Arknights base: claiming base systems, pools,
committing operators to rooms, rotation structure, order mechanics and skill
bookkeeping. The floating-point searches and scoring that choose among
candidates are not part of it. Every function in `src/` carries a Verus
contract and is proved, except `trim_str` in `src/tier.rs`, a trusted wrapper
around `str::trim` whose contract Verus takes on trust.

## Layout

- `src/text.rs`, `src/names.rs` — byte-level string helpers and a set of names.
- `src/tier.rs`, `src/types.rs` — promotion tiers, effect phases, state keys.
- `src/instances.rs` — operator instances and tier-up buff merging.
- `src/skills.rs` — the skill table's ids: load-time checks and reference checks.
- `src/combinatorics.rs` — binomial counts and index combinations.
- `src/layout.rs`, `src/assign.rs` — rooms, assignments, committing operators.
- `src/operbox.rs`, `src/system.rs` — owned operators and base-system claiming.
- `src/pool.rs`, `src/control.rs` — operator pools and control-seat filling.
- `src/trade.rs`, `src/shortcut.rs`, `src/trade_meta.rs` — trade-room bookkeeping,
  shortcut classification and meta line-ups.
- `src/colocate.rs`, `src/power.rs`, `src/shift.rs` — black-key colocation
  candidates, power stations, shift stages.
- `src/schedule.rs` — A-B-A and α/β/γ rotation helpers.
- `src/atoms.rs`, `src/conditions.rs`, `src/selectors.rs` — the order in which
  skill effects run, what their conditions decide and what their selectors read.
- `tests/` — tests of the library.
- `app/` — command line: data loading (JSON, CSV), floating-point shortcut
  matching, and the `verify` / `check` commands.
