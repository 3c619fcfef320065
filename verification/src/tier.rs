//! Promotion tier of an operator (elite 0/1 versus elite 2).
use vstd::prelude::*;

use crate::text::str_eq;

verus! {

#[derive(Debug, Clone, Copy, PartialEq, Eq, Hash, Structural)]
pub enum PromotionTier {
    Tier0,
    TierUp,
}

/// Text form of a tier.
pub open spec fn tier_text(t: PromotionTier) -> Seq<char> {
    match t {
        PromotionTier::Tier0 => "tier_0"@,
        PromotionTier::TierUp => "tier_up"@,
    }
}

/// Unicode `White_Space` characters: U+0009..U+000D, U+0020, U+0085, U+00A0,
/// U+1680, U+2000..U+200A, U+2028, U+2029, U+202F, U+205F and U+3000.
pub open spec fn is_white_space(c: char) -> bool {
    let u = c as u32;
    ||| 0x09 <= u <= 0x0D
    ||| u == 0x20
    ||| u == 0x85
    ||| u == 0xA0
    ||| u == 0x1680
    ||| 0x2000 <= u <= 0x200A
    ||| u == 0x2028
    ||| u == 0x2029
    ||| u == 0x202F
    ||| u == 0x205F
    ||| u == 0x3000
}

/// `s` without its leading white space.
pub open spec fn trim_start_spec(s: Seq<char>) -> Seq<char>
    decreases s.len(),
{
    if s.len() > 0 && is_white_space(s[0]) {
        trim_start_spec(s.drop_first())
    } else {
        s
    }
}

/// `s` without its trailing white space.
pub open spec fn trim_end_spec(s: Seq<char>) -> Seq<char>
    decreases s.len(),
{
    if s.len() > 0 && is_white_space(s.last()) {
        trim_end_spec(s.drop_last())
    } else {
        s
    }
}

/// `s` without leading and trailing white space.
pub open spec fn trimmed(s: Seq<char>) -> Seq<char> {
    trim_end_spec(trim_start_spec(s))
}

/// Calls `str::trim`, which the standard library documents as removing
/// leading and trailing white space, white space being the Unicode
/// `White_Space` property. Claimed: the result is `trimmed` of the argument.
#[verifier::external_body]
fn trim_str(s: &str) -> (r: &str)
    ensures
        r@ == trimmed(s@),
{
    s.trim()
}

impl PromotionTier {
    /// Elite 2 promotes to the upper tier; elite 0 and 1 stay at tier 0.
    pub fn from_elite(elite: u8) -> (t: Self)
        ensures
            t == (if elite >= 2 { PromotionTier::TierUp } else { PromotionTier::Tier0 }),
    {
        if elite >= 2 {
            Self::TierUp
        } else {
            Self::Tier0
        }
    }

    pub fn as_str(self) -> (s: &'static str)
        ensures
            s@ == tier_text(self),
    {
        match self {
            Self::Tier0 => "tier_0",
            Self::TierUp => "tier_up",
        }
    }

    /// Parses an exact tier text (no surrounding white space allowed).
    pub fn parse_exact(raw: &str) -> (t: Option<Self>)
        ensures
            t == (if raw@ == tier_text(PromotionTier::Tier0) {
                Some(PromotionTier::Tier0)
            } else if raw@ == tier_text(PromotionTier::TierUp) {
                Some(PromotionTier::TierUp)
            } else {
                None
            }),
    {
        if str_eq(raw, "tier_0") {
            Some(Self::Tier0)
        } else if str_eq(raw, "tier_up") {
            Some(Self::TierUp)
        } else {
            None
        }
    }

    /// Parses a tier text after trimming surrounding white space.
    pub fn parse(raw: &str) -> (t: Option<Self>)
        ensures
            t == (if trimmed(raw@) == tier_text(PromotionTier::Tier0) {
                Some(PromotionTier::Tier0)
            } else if trimmed(raw@) == tier_text(PromotionTier::TierUp) {
                Some(PromotionTier::TierUp)
            } else {
                None
            }),
    {
        Self::parse_exact(trim_str(raw))
    }
}

/// Parsing the text of a tier gives that tier back.
pub proof fn lemma_tier_text_roundtrip(t: PromotionTier)
    ensures
        tier_text(t) != tier_text(PromotionTier::Tier0) || t == PromotionTier::Tier0,
        tier_text(t) != tier_text(PromotionTier::TierUp) || t == PromotionTier::TierUp,
{
    reveal_strlit("tier_0");
    reveal_strlit("tier_up");
    assert("tier_0"@[5] != "tier_up"@[5]);
}

} // verus!
