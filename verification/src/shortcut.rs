//! Trade shortcuts: recognising the curated witch-line rooms (and rooms with
//! closure special orders) whose result is read from a table instead of being
//! simulated.
use vstd::prelude::*;

use crate::names::views;
use crate::text::str_eq;
use crate::trade::{GoldDistributionKind, TradeOperator};

verus! {

/// Tailor tier a shortcut entry assumes.
#[derive(Debug, Clone, Copy, PartialEq, Eq, Structural)]
pub enum ShortcutTailorTier {
    Regular,
    Alpha,
    Beta,
    Docus,
}

/// An entry without a tailor tier assumes the regular one.
pub fn default_tailor_tier() -> (r: ShortcutTailorTier)
    ensures
        r == ShortcutTailorTier::Regular,
{
    ShortcutTailorTier::Regular
}

/// How a shortcut entry is matched: its kind, and for closure tiers the trade
/// percentage of the station it stands for.
pub struct ShortcutMatchRule {
    pub kind: String,
    pub station_trade_pct: Option<i32>,
}

/// Whether an entry's match rule is a closure tier.
pub open spec fn is_closure_rule(rule: Option<ShortcutMatchRule>) -> bool {
    rule matches Some(m) && m.kind@ == "closure"@
}

/// Whether an entry's match rule is a closure tier.
pub fn closure_rule(rule: &Option<ShortcutMatchRule>) -> (r: bool)
    ensures
        r == is_closure_rule(*rule),
{
    match rule {
        Some(m) => str_eq(m.kind.as_str(), "closure"),
        None => false,
    }
}

/// The station trade percentage a closure tier stands for; 0 when not given.
pub fn closure_tier(rule: &Option<ShortcutMatchRule>) -> (r: i32)
    ensures
        r == (match *rule {
            Some(m) => match m.station_trade_pct {
                Some(p) => p,
                None => 0,
            },
            None => 0,
        }),
{
    match rule {
        Some(m) => match m.station_trade_pct {
            Some(p) => p,
            None => 0,
        },
        None => 0,
    }
}

/// Distribution of gold orders a shortcut entry assumes: below level 3 the
/// regular one; at level 3 the peak of its tailor line.
pub fn distribution_for_tier(tier: ShortcutTailorTier, level: u8) -> (r: GoldDistributionKind)
    ensures
        r == (if level < 3 {
            GoldDistributionKind::Regular
        } else {
            match tier {
                ShortcutTailorTier::Beta => GoldDistributionKind::BetaPeak,
                ShortcutTailorTier::Alpha => GoldDistributionKind::AlphaPeak,
                _ => GoldDistributionKind::Regular,
            }
        }),
{
    if level < 3 {
        return GoldDistributionKind::Regular;
    }
    match tier {
        ShortcutTailorTier::Beta => GoldDistributionKind::BetaPeak,
        ShortcutTailorTier::Alpha => GoldDistributionKind::AlphaPeak,
        ShortcutTailorTier::Regular | ShortcutTailorTier::Docus => GoldDistributionKind::Regular,
    }
}

/// What the shortcut logic reads of a skill: whether it absorbs its peers'
/// efficiency, the order tags it sets and the order types it replaces orders with.
pub struct SkillMarks {
    pub id: String,
    pub vodfox: bool,
    pub order_tags: Vec<String>,
    pub replace_orders: Vec<String>,
}

/// The marks of every modelled skill.
pub struct SkillMarkTable {
    pub skills: Vec<SkillMarks>,
}

/// Index of the first skill with id `id`, searching from `from`.
pub open spec fn marks_index(skills: Seq<SkillMarks>, id: Seq<char>, from: int) -> Option<int>
    decreases skills.len() - from,
{
    if from < 0 || from >= skills.len() {
        None
    } else if skills[from].id@ == id {
        Some(from)
    } else {
        marks_index(skills, id, from + 1)
    }
}

/// The marks of skill `id`, if it is modelled.
pub open spec fn marks_of(skills: Seq<SkillMarks>, id: Seq<char>) -> Option<SkillMarks> {
    match marks_index(skills, id, 0) {
        Some(i) => Some(skills[i]),
        None => None,
    }
}

impl SkillMarkTable {
    /// The marks of skill `id`.
    pub fn get(&self, id: &str) -> (r: Option<&SkillMarks>)
        ensures
            match r {
                Some(s) => marks_of(self.skills@, id@) == Some(*s),
                None => marks_of(self.skills@, id@) is None,
            },
    {
        let mut i: usize = 0;
        while i < self.skills.len()
            invariant
                0 <= i <= self.skills@.len(),
                marks_index(self.skills@, id@, 0) == marks_index(self.skills@, id@, i as int),
            decreases self.skills@.len() - i,
        {
            if str_eq(self.skills[i].id.as_str(), id) {
                return Some(&self.skills[i]);
            }
            i = i + 1;
        }
        None
    }
}

/// Whether some string of `v` equals `s`.
fn strings_have(v: &Vec<String>, s: &str) -> (r: bool)
    ensures
        r == views(v@).contains(s@),
{
    crate::instances::vec_has(v, s)
}

/// The mechanics a buff can carry for the shortcut logic.
#[derive(Debug, Clone, Copy, PartialEq, Eq, Structural)]
pub enum BuffMark {
    /// Absorbs the peers' efficiency (the witch's skill).
    Vodfox,
    /// Breach orders of the law chain.
    Docus,
    /// Tailor-beta orders.
    TailorBeta,
    /// Tailor-alpha orders.
    TailorAlpha,
    /// Closure special orders.
    Closure,
}

/// Whether skill `bid` sets the order tag `tag`.
pub open spec fn sets_tag(skills: Seq<SkillMarks>, bid: Seq<char>, tag: Seq<char>) -> bool {
    marks_of(skills, bid) matches Some(s) && views(s.order_tags@).contains(tag)
}

/// The tailor-beta buff ids of the witch line.
pub open spec fn is_tailor_beta_id_spec(bid: Seq<char>) -> bool {
    bid == "trade_ord_wt&cost[010]"@ || bid == "trade_ord_wt&cost[011]"@ || bid == "trade_ord_wt&cost[012]"@
}

/// The tailor-alpha buff ids of the witch line.
pub open spec fn is_tailor_alpha_id_spec(bid: Seq<char>) -> bool {
    bid == "trade_ord_wt&cost[000]"@ || bid == "trade_ord_wt&cost[001]"@ || bid == "trade_ord_wt&cost[002]"@
        || bid == "trade_ord_wt&cost[003]"@
}

/// Whether buff `bid` carries mark `m`, by its id or by its modelled skill.
pub open spec fn buff_has_mark(skills: Seq<SkillMarks>, bid: Seq<char>, m: BuffMark) -> bool {
    match m {
        BuffMark::Vodfox => bid == "trade_ord_vodfox[000]"@ || (marks_of(skills, bid) matches Some(s) && s.vodfox),
        BuffMark::Docus => bid == "trade_ord_law[000]"@ || sets_tag(skills, bid, "breach"@),
        BuffMark::TailorBeta => is_tailor_beta_id_spec(bid) || sets_tag(skills, bid, "tailor_beta"@),
        BuffMark::TailorAlpha => is_tailor_alpha_id_spec(bid) || sets_tag(skills, bid, "tailor_alpha"@),
        BuffMark::Closure => marks_of(skills, bid) matches Some(s) && views(s.replace_orders@).contains(
            "closure_special"@,
        ),
    }
}

/// Whether one of the operator's buffs carries mark `m`.
pub open spec fn op_has_mark(skills: Seq<SkillMarks>, op: TradeOperator, m: BuffMark) -> bool {
    exists|i: int| 0 <= i < op.buff_ids@.len() && buff_has_mark(skills, (#[trigger] op.buff_ids@[i])@, m)
}

/// Whether `bid` is a tailor-beta buff id.
pub fn is_tailor_beta_id(bid: &str) -> (r: bool)
    ensures
        r == is_tailor_beta_id_spec(bid@),
{
    str_eq(bid, "trade_ord_wt&cost[010]") || str_eq(bid, "trade_ord_wt&cost[011]") || str_eq(
        bid,
        "trade_ord_wt&cost[012]",
    )
}

/// Whether `bid` is a tailor-alpha buff id.
pub fn is_tailor_alpha_id(bid: &str) -> (r: bool)
    ensures
        r == is_tailor_alpha_id_spec(bid@),
{
    str_eq(bid, "trade_ord_wt&cost[000]") || str_eq(bid, "trade_ord_wt&cost[001]") || str_eq(
        bid,
        "trade_ord_wt&cost[002]",
    ) || str_eq(bid, "trade_ord_wt&cost[003]")
}

/// Whether buff `bid` carries mark `m`.
pub fn buff_mark(bid: &str, marks: &SkillMarkTable, m: BuffMark) -> (r: bool)
    ensures
        r == buff_has_mark(marks.skills@, bid@, m),
{
    let skill = marks.get(bid);
    match m {
        BuffMark::Vodfox => str_eq(bid, "trade_ord_vodfox[000]") || match skill {
            Some(s) => s.vodfox,
            None => false,
        },
        BuffMark::Docus => str_eq(bid, "trade_ord_law[000]") || match skill {
            Some(s) => strings_have(&s.order_tags, "breach"),
            None => false,
        },
        BuffMark::TailorBeta => is_tailor_beta_id(bid) || match skill {
            Some(s) => strings_have(&s.order_tags, "tailor_beta"),
            None => false,
        },
        BuffMark::TailorAlpha => is_tailor_alpha_id(bid) || match skill {
            Some(s) => strings_have(&s.order_tags, "tailor_alpha"),
            None => false,
        },
        BuffMark::Closure => match skill {
            Some(s) => strings_have(&s.replace_orders, "closure_special"),
            None => false,
        },
    }
}

/// Whether one of the operator's buffs carries mark `m`.
pub fn operator_has_mark(op: &TradeOperator, marks: &SkillMarkTable, m: BuffMark) -> (r: bool)
    ensures
        r == op_has_mark(marks.skills@, *op, m),
{
    let mut i: usize = 0;
    while i < op.buff_ids.len()
        invariant
            0 <= i <= op.buff_ids@.len(),
            forall|j: int| 0 <= j < i ==> !buff_has_mark(marks.skills@, (#[trigger] op.buff_ids@[j])@, m),
        decreases op.buff_ids@.len() - i,
    {
        if buff_mark(op.buff_ids[i].as_str(), marks, m) {
            return true;
        }
        i = i + 1;
    }
    false
}

/// Whether the operator carries the law chain's breach buff.
pub fn has_docus_buff(op: &TradeOperator, marks: &SkillMarkTable) -> (r: bool)
    ensures
        r == op_has_mark(marks.skills@, *op, BuffMark::Docus),
{
    operator_has_mark(op, marks, BuffMark::Docus)
}

/// Whether the operator carries a tailor-beta buff.
pub fn has_tailor_beta(op: &TradeOperator, marks: &SkillMarkTable) -> (r: bool)
    ensures
        r == op_has_mark(marks.skills@, *op, BuffMark::TailorBeta),
{
    operator_has_mark(op, marks, BuffMark::TailorBeta)
}

/// Whether the operator carries a tailor-alpha buff.
pub fn has_tailor_alpha(op: &TradeOperator, marks: &SkillMarkTable) -> (r: bool)
    ensures
        r == op_has_mark(marks.skills@, *op, BuffMark::TailorAlpha),
{
    operator_has_mark(op, marks, BuffMark::TailorAlpha)
}

/// The witch.
pub open spec fn witch_name() -> Seq<char> {
    "巫恋"@
}

/// The partner whose elite level splits the long lines.
pub open spec fn long_name() -> Seq<char> {
    "龙舌兰"@
}

/// The operator of the law chain.
pub open spec fn docus_name() -> Seq<char> {
    "但书"@
}

/// A third operator that brings no mechanic of its own: neither the witch nor
/// her partner, and no tailor or law-chain buff.
pub open spec fn is_filler_spec(skills: Seq<SkillMarks>, op: TradeOperator) -> bool {
    &&& op.name@ != witch_name()
    &&& op.name@ != long_name()
    &&& !op_has_mark(skills, op, BuffMark::TailorBeta)
    &&& !op_has_mark(skills, op, BuffMark::TailorAlpha)
    &&& !op_has_mark(skills, op, BuffMark::Docus)
}

/// Whether `op` only fills a seat.
pub fn is_mechanic_filler(op: &TradeOperator, marks: &SkillMarkTable) -> (r: bool)
    ensures
        r == is_filler_spec(marks.skills@, *op),
{
    if str_eq(op.name.as_str(), "巫恋") || str_eq(op.name.as_str(), "龙舌兰") {
        return false;
    }
    !has_tailor_beta(op, marks) && !has_tailor_alpha(op, marks) && !has_docus_buff(op, marks)
}

/// Whether some operator of the room only fills a seat.
pub fn has_blank_third(ops: &Vec<TradeOperator>, marks: &SkillMarkTable) -> (r: bool)
    ensures
        r == exists|i: int| 0 <= i < ops@.len() && is_filler_spec(marks.skills@, #[trigger] ops@[i]),
{
    let mut i: usize = 0;
    while i < ops.len()
        invariant
            0 <= i <= ops@.len(),
            forall|j: int| 0 <= j < i ==> !is_filler_spec(marks.skills@, #[trigger] ops@[j]),
        decreases ops@.len() - i,
    {
        if is_mechanic_filler(&ops[i], marks) {
            return true;
        }
        i = i + 1;
    }
    false
}

/// An operator at elite 2 whose buffs bring closure special orders.
pub open spec fn closure_op(skills: Seq<SkillMarks>, op: TradeOperator) -> bool {
    op.elite >= 2 && op_has_mark(skills, op, BuffMark::Closure)
}

/// Whether the room brings closure special orders.
pub fn has_closure(ops: &Vec<TradeOperator>, marks: &SkillMarkTable) -> (r: bool)
    ensures
        r == exists|i: int| 0 <= i < ops@.len() && closure_op(marks.skills@, #[trigger] ops@[i]),
{
    let mut i: usize = 0;
    while i < ops.len()
        invariant
            0 <= i <= ops@.len(),
            forall|j: int| 0 <= j < i ==> !closure_op(marks.skills@, #[trigger] ops@[j]),
        decreases ops@.len() - i,
    {
        if ops[i].elite >= 2 && operator_has_mark(&ops[i], marks, BuffMark::Closure) {
            return true;
        }
        i = i + 1;
    }
    false
}

/// The witch at elite 2 with her absorbing buff.
pub open spec fn witch_e2_op(skills: Seq<SkillMarks>, op: TradeOperator) -> bool {
    op.name@ == witch_name() && op.elite >= 2 && op_has_mark(skills, op, BuffMark::Vodfox)
}

/// Whether the witch works in the room at elite 2 with her absorbing buff.
pub fn has_witch_e2(ops: &Vec<TradeOperator>, marks: &SkillMarkTable) -> (r: bool)
    ensures
        r == exists|i: int| 0 <= i < ops@.len() && witch_e2_op(marks.skills@, #[trigger] ops@[i]),
{
    let mut i: usize = 0;
    while i < ops.len()
        invariant
            0 <= i <= ops@.len(),
            forall|j: int| 0 <= j < i ==> !witch_e2_op(marks.skills@, #[trigger] ops@[j]),
        decreases ops@.len() - i,
    {
        if str_eq(ops[i].name.as_str(), "巫恋") && ops[i].elite >= 2 && operator_has_mark(&ops[i], marks, BuffMark::Vodfox) {
            return true;
        }
        i = i + 1;
    }
    false
}

/// Index of the first operator named `name`, searching from `from`.
pub open spec fn op_index(ops: Seq<TradeOperator>, name: Seq<char>, from: int) -> Option<int>
    decreases ops.len() - from,
{
    if from < 0 || from >= ops.len() {
        None
    } else if ops[from].name@ == name {
        Some(from)
    } else {
        op_index(ops, name, from + 1)
    }
}

/// The first operator named `name`.
pub fn find_op<'a>(ops: &'a Vec<TradeOperator>, name: &str) -> (r: Option<&'a TradeOperator>)
    ensures
        match r {
            Some(o) => op_index(ops@, name@, 0) matches Some(i) && *o == ops@[i],
            None => op_index(ops@, name@, 0) is None,
        },
{
    let mut i: usize = 0;
    while i < ops.len()
        invariant
            0 <= i <= ops@.len(),
            op_index(ops@, name@, 0) == op_index(ops@, name@, i as int),
        decreases ops@.len() - i,
    {
        if str_eq(ops[i].name.as_str(), name) {
            return Some(&ops[i]);
        }
        i = i + 1;
    }
    None
}

/// The curated witch-line rooms.
#[derive(Debug, Clone, Copy, PartialEq, Eq, Structural)]
pub enum WitchRoomKind {
    LongE2Docus,
    LongE2Beta,
    LongE2Alpha,
    LongE2Blank,
    LongE0Blank,
    BetaBlankNoLongE2,
}

/// Whether some operator other than the witch carries mark `m`.
pub open spec fn partner_has(skills: Seq<SkillMarks>, ops: Seq<TradeOperator>, m: BuffMark) -> bool {
    exists|i: int| 0 <= i < ops.len() && (#[trigger] ops[i]).name@ != witch_name() && op_has_mark(skills, ops[i], m)
}

/// Whether the law-chain operator works in the room with her breach buff.
pub open spec fn docus_present(skills: Seq<SkillMarks>, ops: Seq<TradeOperator>) -> bool {
    exists|i: int| 0 <= i < ops.len() && (#[trigger] ops[i]).name@ == docus_name() && op_has_mark(skills, ops[i], BuffMark::Docus)
}

/// Which curated witch room the room is, if any. It needs the witch at
/// elite 2; then, in order: her partner at elite 2 with the law chain, with a
/// tailor-beta partner, with a tailor-alpha partner (and no beta), with none of
/// these; her partner below elite 2 with none of these; or, without the
/// partner at elite 2, a tailor-beta partner, no law chain and a seat filler.
pub open spec fn classify_spec(skills: Seq<SkillMarks>, ops: Seq<TradeOperator>) -> Option<WitchRoomKind> {
    if !(exists|i: int| 0 <= i < ops.len() && witch_e2_op(skills, #[trigger] ops[i])) {
        None
    } else {
        let long = op_index(ops, long_name(), 0);
        let long_e2 = long matches Some(i) && ops[i].elite >= 2;
        let long_e0_only = long matches Some(i) && ops[i].elite < 2;
        let docus = docus_present(skills, ops);
        let beta = partner_has(skills, ops, BuffMark::TailorBeta);
        let alpha = partner_has(skills, ops, BuffMark::TailorAlpha);
        let blank = exists|i: int| 0 <= i < ops.len() && is_filler_spec(skills, #[trigger] ops[i]);
        if long_e2 && docus {
            Some(WitchRoomKind::LongE2Docus)
        } else if long_e2 && beta {
            Some(WitchRoomKind::LongE2Beta)
        } else if long_e2 && alpha && !beta {
            Some(WitchRoomKind::LongE2Alpha)
        } else if long_e2 && !beta && !alpha && !docus {
            Some(WitchRoomKind::LongE2Blank)
        } else if long_e0_only && !beta && !alpha && !docus {
            Some(WitchRoomKind::LongE0Blank)
        } else if !long_e2 && beta && !docus && blank {
            Some(WitchRoomKind::BetaBlankNoLongE2)
        } else {
            None
        }
    }
}

/// Tequila works in the room at elite 2 (her first listing).
pub open spec fn long_at_e2(ops: Seq<TradeOperator>) -> bool {
    op_index(ops, long_name(), 0) matches Some(i) && ops[i].elite >= 2
}

/// Tequila works in the room below elite 2 (her first listing).
pub open spec fn long_below_e2(ops: Seq<TradeOperator>) -> bool {
    op_index(ops, long_name(), 0) matches Some(i) && ops[i].elite < 2
}

/// What each curated witch room is. Every one has the witch at elite 2.
/// Tequila at elite 2 with the law chain is the law-chain room; otherwise,
/// with Tequila at elite 2, a tailor-beta partner makes the beta room, a
/// tailor-alpha one (no beta) the alpha room, and no such partner the blank
/// room. With Tequila below elite 2 the room is blank only without law
/// chain, beta or alpha partner. The beta room without Tequila at elite 2
/// needs a beta partner, a seat filler and no law chain. With the witch and
/// Tequila at elite 2 the room is always one of the four Tequila rooms.
pub proof fn lemma_witch_room_kinds(skills: Seq<SkillMarks>, ops: Seq<TradeOperator>)
    ensures
        classify_spec(skills, ops) is Some ==> exists|i: int| 0 <= i < ops.len() && witch_e2_op(skills, #[trigger] ops[i]),
        classify_spec(skills, ops) == Some(WitchRoomKind::LongE2Docus) ==> long_at_e2(ops) && docus_present(skills, ops),
        classify_spec(skills, ops) == Some(WitchRoomKind::LongE2Beta) ==> long_at_e2(ops) && partner_has(
            skills,
            ops,
            BuffMark::TailorBeta,
        ) && !docus_present(skills, ops),
        classify_spec(skills, ops) == Some(WitchRoomKind::LongE2Alpha) ==> long_at_e2(ops) && partner_has(
            skills,
            ops,
            BuffMark::TailorAlpha,
        ) && !partner_has(skills, ops, BuffMark::TailorBeta) && !docus_present(skills, ops),
        classify_spec(skills, ops) == Some(WitchRoomKind::LongE2Blank) ==> long_at_e2(ops) && !partner_has(
            skills,
            ops,
            BuffMark::TailorAlpha,
        ) && !partner_has(skills, ops, BuffMark::TailorBeta) && !docus_present(skills, ops),
        classify_spec(skills, ops) == Some(WitchRoomKind::LongE0Blank) ==> long_below_e2(ops) && !partner_has(
            skills,
            ops,
            BuffMark::TailorAlpha,
        ) && !partner_has(skills, ops, BuffMark::TailorBeta) && !docus_present(skills, ops),
        classify_spec(skills, ops) == Some(WitchRoomKind::BetaBlankNoLongE2) ==> !long_at_e2(ops) && partner_has(
            skills,
            ops,
            BuffMark::TailorBeta,
        ) && !docus_present(skills, ops) && exists|i: int| 0 <= i < ops.len() && is_filler_spec(skills, #[trigger] ops[i]),
        (exists|i: int| 0 <= i < ops.len() && witch_e2_op(skills, #[trigger] ops[i])) && long_at_e2(ops) ==> classify_spec(
            skills,
            ops,
        ) is Some,
{
}

/// Whether some partner of the witch carries mark `m`.
fn partner_mark(ops: &Vec<TradeOperator>, marks: &SkillMarkTable, m: BuffMark) -> (r: bool)
    ensures
        r == partner_has(marks.skills@, ops@, m),
{
    let mut i: usize = 0;
    while i < ops.len()
        invariant
            0 <= i <= ops@.len(),
            forall|j: int|
                0 <= j < i ==> !((#[trigger] ops@[j]).name@ != witch_name() && op_has_mark(marks.skills@, ops@[j], m)),
        decreases ops@.len() - i,
    {
        if !str_eq(ops[i].name.as_str(), "巫恋") && operator_has_mark(&ops[i], marks, m) {
            return true;
        }
        i = i + 1;
    }
    false
}

/// Whether the law-chain operator works in the room with her breach buff.
fn docus_in_room(ops: &Vec<TradeOperator>, marks: &SkillMarkTable) -> (r: bool)
    ensures
        r == docus_present(marks.skills@, ops@),
{
    let mut i: usize = 0;
    while i < ops.len()
        invariant
            0 <= i <= ops@.len(),
            forall|j: int|
                0 <= j < i ==> !((#[trigger] ops@[j]).name@ == docus_name() && op_has_mark(
                    marks.skills@,
                    ops@[j],
                    BuffMark::Docus,
                )),
        decreases ops@.len() - i,
    {
        if str_eq(ops[i].name.as_str(), "但书") && has_docus_buff(&ops[i], marks) {
            return true;
        }
        i = i + 1;
    }
    false
}

/// Which curated witch room the room is, if any.
pub fn classify_witch_room(ops: &Vec<TradeOperator>, marks: &SkillMarkTable) -> (r: Option<WitchRoomKind>)
    ensures
        r == classify_spec(marks.skills@, ops@),
{
    if !has_witch_e2(ops, marks) {
        return None;
    }
    let long = find_op(ops, "龙舌兰");
    let long_e2 = match long {
        Some(o) => o.elite >= 2,
        None => false,
    };
    let long_e0_only = match long {
        Some(o) => o.elite < 2,
        None => false,
    };
    let has_docus = docus_in_room(ops, marks);
    let has_beta = partner_mark(ops, marks, BuffMark::TailorBeta);
    let has_alpha = partner_mark(ops, marks, BuffMark::TailorAlpha);
    if long_e2 && has_docus {
        return Some(WitchRoomKind::LongE2Docus);
    }
    if long_e2 && has_beta {
        return Some(WitchRoomKind::LongE2Beta);
    }
    if long_e2 && has_alpha && !has_beta {
        return Some(WitchRoomKind::LongE2Alpha);
    }
    if long_e2 && !has_beta && !has_alpha && !has_docus {
        return Some(WitchRoomKind::LongE2Blank);
    }
    if long_e0_only && !has_beta && !has_alpha && !has_docus {
        return Some(WitchRoomKind::LongE0Blank);
    }
    if !long_e2 && has_beta && !has_docus && has_blank_third(ops, marks) {
        return Some(WitchRoomKind::BetaBlankNoLongE2);
    }
    None
}

/// The shortcut entry id of each curated witch room.
pub open spec fn witch_id_of(kind: WitchRoomKind) -> Seq<char> {
    match kind {
        WitchRoomKind::LongE2Docus => "gsl_witch_long_docus"@,
        WitchRoomKind::LongE2Beta => "gsl_witch_long_beta"@,
        WitchRoomKind::LongE2Alpha => "gsl_witch_long_alpha"@,
        WitchRoomKind::LongE2Blank => "gsl_witch_long_blank"@,
        WitchRoomKind::LongE0Blank => "gsl_witch_long0_blank"@,
        WitchRoomKind::BetaBlankNoLongE2 => "gsl_witch_beta_blank"@,
    }
}

/// The shortcut entry id of a curated witch room.
pub fn witch_shortcut_id(kind: WitchRoomKind) -> (r: &'static str)
    ensures
        r@ == witch_id_of(kind),
{
    match kind {
        WitchRoomKind::LongE2Docus => "gsl_witch_long_docus",
        WitchRoomKind::LongE2Beta => "gsl_witch_long_beta",
        WitchRoomKind::LongE2Alpha => "gsl_witch_long_alpha",
        WitchRoomKind::LongE2Blank => "gsl_witch_long_blank",
        WitchRoomKind::LongE0Blank => "gsl_witch_long0_blank",
        WitchRoomKind::BetaBlankNoLongE2 => "gsl_witch_beta_blank",
    }
}

/// Index of the first entry id equal to `id`, searching from `from`.
pub open spec fn id_index(ids: Seq<Seq<char>>, id: Seq<char>, from: int) -> Option<int>
    decreases ids.len() - from,
{
    if from < 0 || from >= ids.len() {
        None
    } else if ids[from] == id {
        Some(from)
    } else {
        id_index(ids, id, from + 1)
    }
}

/// The shortcut entry (by its position among `entry_ids`) of a curated witch
/// room: none when the room is not one, or when the table has no entry for it.
pub fn match_witch_group_shortcut(
    ops: &Vec<TradeOperator>,
    marks: &SkillMarkTable,
    entry_ids: &Vec<String>,
) -> (r: Option<usize>)
    ensures
        r == (match classify_spec(marks.skills@, ops@) {
            Some(k) => match id_index(views(entry_ids@), witch_id_of(k), 0) {
                Some(i) => Some(i as usize),
                None => None,
            },
            None => None,
        }),
{
    let kind = match classify_witch_room(ops, marks) {
        Some(k) => k,
        None => {
            return None;
        },
    };
    let id = witch_shortcut_id(kind);
    let mut i: usize = 0;
    while i < entry_ids.len()
        invariant
            0 <= i <= entry_ids@.len(),
            id@ == witch_id_of(kind),
            classify_spec(marks.skills@, ops@) == Some(kind),
            id_index(views(entry_ids@), id@, 0) == id_index(views(entry_ids@), id@, i as int),
        decreases entry_ids@.len() - i,
    {
        if str_eq(entry_ids[i].as_str(), id) {
            return Some(i);
        }
        i = i + 1;
    }
    None
}

} // verus!
