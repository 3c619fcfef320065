//! Operator instances: which buff ids an operator carries per facility and tier,
//! and how tier-up bindings are merged with tier-0 bindings.
use vstd::prelude::*;
use vstd::string::*;
use vstd::utf8::*;

use crate::names::views;
use crate::text::{bytes_eq, last_index_of, rfind_byte, str_eq, utf8};
use crate::tier::{tier_text, PromotionTier};

verus! {

broadcast use vstd::utf8::group_utf8_lib;

/// The byte `[` that opens the index suffix of a buff id.
pub open spec fn open_bracket() -> u8 {
    0x5Bu8
}

/// Bytes of a buff id before its last `[`, or all of them when there is none.
pub open spec fn stem_bytes(b: Seq<u8>) -> Seq<u8> {
    match last_index_of(b, open_bracket()) {
        Some(i) => b.subrange(0, i),
        None => b,
    }
}

/// Stem of a buff id, as bytes.
pub open spec fn stem_of(id: Seq<char>) -> Seq<u8> {
    stem_bytes(utf8(id))
}

/// Stem of a buff id before the `[` index suffix, e.g. `trade_ord_spd[010]` gives `trade_ord_spd`.
pub fn buff_stem(id: &str) -> (r: &str)
    ensures
        utf8(r@) == stem_of(id@),
{
    let bytes = id.as_bytes();
    assert(bytes@ == utf8(id@));
    match rfind_byte(bytes, 0x5Bu8) {
        Some(i) => {
            proof {
                crate::text::lemma_last_index_of(bytes@, 0x5Bu8);
                assert(valid_utf8(bytes@));
                is_char_boundary_iff_not_is_continuation_byte(bytes@, i as int);
                assert(!is_continuation_byte(bytes@[i as int]));
            }
            let (head, _tail) = id.split_at(i);
            proof {
                assert(head.spec_bytes() == utf8(head@));
            }
            head
        },
        None => id,
    }
}

/// Whether two buff ids share a stem.
fn same_stem(a: &str, b: &str) -> (r: bool)
    ensures
        r == (stem_of(a@) == stem_of(b@)),
{
    let sa = buff_stem(a);
    let sb = buff_stem(b);
    let xa = sa.as_bytes();
    let xb = sb.as_bytes();
    assert(xa@ == utf8(sa@));
    assert(xb@ == utf8(sb@));
    bytes_eq(xa, xb)
}

/// Whether `v` holds a string equal to `s`.
pub fn vec_has(v: &Vec<String>, s: &str) -> (r: bool)
    ensures
        r == views(v@).contains(s@),
{
    let mut i: usize = 0;
    while i < v.len()
        invariant
            0 <= i <= v@.len(),
            forall|j: int| 0 <= j < i ==> v@[j]@ != s@,
        decreases v@.len() - i,
    {
        if str_eq(v[i].as_str(), s) {
            assert(views(v@)[i as int] == s@);
            return true;
        }
        i = i + 1;
    }
    proof {
        if views(v@).contains(s@) {
            let k = choose|k: int| 0 <= k < views(v@).len() && views(v@)[k] == s@;
            assert(v@[k]@ == s@);
        }
    }
    false
}

/// Copies a vector of strings.
pub fn copy_strings(v: &Vec<String>) -> (r: Vec<String>)
    ensures
        views(r@) == views(v@),
{
    let r = v.clone();
    assert(views(r@) =~= views(v@));
    r
}

/// `out` without the ids whose stem is `stem`, order kept.
pub open spec fn drop_stem(out: Seq<Seq<char>>, stem: Seq<u8>) -> Seq<Seq<char>>
    decreases out.len(),
{
    if out.len() == 0 {
        out
    } else {
        let rest = drop_stem(out.drop_last(), stem);
        if stem_of(out.last()) == stem {
            rest
        } else {
            rest.push(out.last())
        }
    }
}

/// Merging one tier-up id: kept as is when already present, otherwise it
/// replaces every id of the same stem and goes last.
pub open spec fn merge_step(out: Seq<Seq<char>>, id: Seq<char>) -> Seq<Seq<char>> {
    if out.contains(id) {
        out
    } else {
        drop_stem(out, stem_of(id)).push(id)
    }
}

/// Merging the first `n` tier-up ids into the tier-0 ids.
pub open spec fn merge_prefix(t0: Seq<Seq<char>>, up: Seq<Seq<char>>, n: nat) -> Seq<Seq<char>>
    decreases n,
{
    if n == 0 {
        t0
    } else {
        merge_step(merge_prefix(t0, up, (n - 1) as nat), up[n - 1])
    }
}

/// Every tier-0 id is among the tier-up ids.
pub open spec fn superset_of(up: Seq<Seq<char>>, t0: Seq<Seq<char>>) -> bool {
    forall|i: int| 0 <= i < t0.len() ==> up.contains(#[trigger] t0[i])
}

/// Stepwise merge of tier-0 and tier-up ids.
pub open spec fn spec_merge_stepwise(t0: Seq<Seq<char>>, up: Seq<Seq<char>>) -> Seq<Seq<char>> {
    if superset_of(up, t0) {
        up
    } else {
        merge_prefix(t0, up, up.len())
    }
}

fn drop_stem_exec(out: Vec<String>, stem: &str) -> (r: Vec<String>)
    ensures
        views(r@) == drop_stem(views(out@), utf8(stem@)),
{
    let mut r: Vec<String> = Vec::new();
    let mut i: usize = 0;
    let ghost o = views(out@);
    while i < out.len()
        invariant
            0 <= i <= out@.len(),
            o == views(out@),
            views(r@) == drop_stem(o.subrange(0, i as int), utf8(stem@)),
        decreases out@.len() - i,
    {
        let keep = {
            let s = buff_stem(out[i].as_str());
            let xs = s.as_bytes();
            let xt = stem.as_bytes();
            assert(xs@ == utf8(s@));
            assert(xt@ == utf8(stem@));
            !bytes_eq(xs, xt)
        };
        let ghost pre = views(r@);
        if keep {
            r.push(out[i].clone());
        }
        proof {
            let p = o.subrange(0, i + 1);
            assert(p.drop_last() =~= o.subrange(0, i as int));
            assert(p.last() == out@[i as int]@);
            if keep {
                assert(views(r@) =~= pre.push(out@[i as int]@));
            } else {
                assert(views(r@) =~= pre);
            }
        }
        i = i + 1;
    }
    assert(o.subrange(0, out@.len() as int) =~= o);
    r
}

pub fn merge_stepwise(t0: &Vec<String>, up: &Vec<String>) -> (r: Vec<String>)
    ensures
        views(r@) == spec_merge_stepwise(views(t0@), views(up@)),
{
    let mut all_in = true;
    let mut k: usize = 0;
    while k < t0.len()
        invariant
            0 <= k <= t0@.len(),
            all_in == (forall|i: int| 0 <= i < k ==> views(up@).contains(#[trigger] views(t0@)[i])),
        decreases t0@.len() - k,
    {
        let has = vec_has(up, t0[k].as_str());
        proof {
            assert(views(t0@)[k as int] == t0@[k as int]@);
            if all_in && has {
                assert forall|i: int| 0 <= i < k + 1 implies views(up@).contains(#[trigger] views(t0@)[i]) by {}
            }
        }
        all_in = all_in && has;
        k = k + 1;
    }
    if all_in {
        return copy_strings(up);
    }
    let mut out = copy_strings(t0);
    let mut n: usize = 0;
    while n < up.len()
        invariant
            0 <= n <= up@.len(),
            views(out@) == merge_prefix(views(t0@), views(up@), n as nat),
        decreases up@.len() - n,
    {
        let id = &up[n];
        let ghost pre = views(out@);
        assert(views(up@)[n as int] == id@);
        if !vec_has(&out, id.as_str()) {
            let stem = buff_stem(id.as_str());
            out = drop_stem_exec(out, stem);
            out.push(id.clone());
            proof {
                assert(views(out@) =~= drop_stem(pre, stem_of(id@)).push(id@));
            }
        }
        n = n + 1;
    }
    out
}

/// Buff ids bound to one facility, and whether tier-up ids merge stepwise with tier-0 ids.
pub struct FacilityBinding {
    pub buff_ids: Vec<String>,
    pub stepwise: bool,
}

/// Ids resolved from a binding (see `resolve_buff_ids`).
pub open spec fn spec_resolve_buff_ids(
    tier: PromotionTier,
    binding: Seq<Seq<char>>,
    stepwise: bool,
    tier0: Option<Seq<Seq<char>>>,
) -> Seq<Seq<char>> {
    if tier == PromotionTier::Tier0 || !stepwise || tier0 is None {
        binding
    } else {
        spec_merge_stepwise(tier0->0, binding)
    }
}

pub open spec fn binding_ids(b: Option<&FacilityBinding>) -> Option<Seq<Seq<char>>> {
    match b {
        Some(x) => Some(views(x.buff_ids@)),
        None => None,
    }
}

/// Expand tier bindings into the buff ids used at runtime.
///
/// - `tier_0`: binding ids as they are
/// - `tier_up`, not stepwise: binding ids as they are (replacement skills)
/// - `tier_up`, stepwise: when the tier-up ids hold every tier-0 id, the tier-up
///   ids; otherwise the tier-0 ids with each new tier-up id replacing its stem
pub fn resolve_buff_ids(
    tier: PromotionTier,
    binding: &FacilityBinding,
    tier0_binding: Option<&FacilityBinding>,
) -> (r: Vec<String>)
    ensures
        views(r@) == spec_resolve_buff_ids(
            tier,
            views(binding.buff_ids@),
            binding.stepwise,
            binding_ids(tier0_binding),
        ),
{
    if tier == PromotionTier::Tier0 {
        return copy_strings(&binding.buff_ids);
    }
    if !binding.stepwise {
        return copy_strings(&binding.buff_ids);
    }
    match tier0_binding {
        None => copy_strings(&binding.buff_ids),
        Some(t0) => merge_stepwise(&t0.buff_ids, &binding.buff_ids),
    }
}

/// Index of the first entry whose key is `k`, searching from `from`.
pub open spec fn find_key<T>(e: Seq<(String, T)>, k: Seq<char>, from: int) -> Option<int>
    decreases e.len() - from,
{
    if from < 0 || from >= e.len() {
        None
    } else if e[from].0@ == k {
        Some(from)
    } else {
        find_key(e, k, from + 1)
    }
}

/// Value of the first entry whose key is `k`.
pub open spec fn lookup<T>(e: Seq<(String, T)>, k: Seq<char>) -> Option<T> {
    match find_key(e, k, 0) {
        Some(i) => Some(e[i].1),
        None => None,
    }
}

proof fn lemma_find_key<T>(e: Seq<(String, T)>, k: Seq<char>, from: int)
    requires
        0 <= from,
    ensures
        match find_key(e, k, from) {
            Some(i) => from <= i < e.len() && e[i].0@ == k,
            None => forall|j: int| from <= j < e.len() ==> e[j].0@ != k,
        },
    decreases e.len() - from,
{
    if from < e.len() && e[from].0@ != k {
        lemma_find_key(e, k, from + 1);
    }
}

/// The value of the first entry keyed `key`.
pub fn find_entry<'a, T>(e: &'a Vec<(String, T)>, key: &str) -> (r: Option<&'a T>)
    ensures
        match r {
            Some(v) => lookup(e@, key@) == Some(*v),
            None => lookup(e@, key@) is None,
        },
{
    let mut i: usize = 0;
    while i < e.len()
        invariant
            0 <= i <= e@.len(),
            find_key(e@, key@, 0) == find_key(e@, key@, i as int),
        decreases e@.len() - i,
    {
        if str_eq(e[i].0.as_str(), key) {
            return Some(&e[i].1);
        }
        i = i + 1;
    }
    None
}

/// No key occurs twice.
pub open spec fn keys_distinct<T>(e: Seq<(String, T)>) -> bool {
    forall|i: int, j: int| 0 <= i < e.len() && 0 <= j < e.len() && i != j ==> (#[trigger] e[i]).0@ != (#[trigger] e[j]).0@
}

/// Value of the last entry whose key is `k`: what a map that inserts the
/// entries in order holds for `k`.
pub open spec fn last_lookup<T>(e: Seq<(String, T)>, k: Seq<char>) -> Option<T>
    decreases e.len(),
{
    if e.len() == 0 {
        None
    } else if e.last().0@ == k {
        Some(e.last().1)
    } else {
        last_lookup(e.drop_last(), k)
    }
}

proof fn lemma_find_key_same_keys<T>(e: Seq<(String, T)>, f: Seq<(String, T)>, k: Seq<char>, from: int)
    requires
        e.len() == f.len(),
        forall|i: int| 0 <= i < e.len() ==> (#[trigger] e[i]).0@ == f[i].0@,
    ensures
        find_key(e, k, from) == find_key(f, k, from),
    decreases e.len() - from,
{
    if 0 <= from < e.len() && e[from].0@ != k {
        lemma_find_key_same_keys(e, f, k, from + 1);
    }
}

proof fn lemma_find_key_push<T>(e: Seq<(String, T)>, x: (String, T), k: Seq<char>, from: int)
    requires
        0 <= from,
        forall|i: int| 0 <= i < e.len() ==> (#[trigger] e[i]).0@ != x.0@,
    ensures
        find_key(e.push(x), k, from) == (if k == x.0@ && from <= e.len() {
            Some(e.len() as int)
        } else {
            find_key(e, k, from)
        }),
    decreases e.len() + 1 - from,
{
    if from < e.len() {
        assert(e.push(x)[from] == e[from]);
        assert(e[from].0@ != x.0@);
        if e[from].0@ != k {
            lemma_find_key_push(e, x, k, from + 1);
        }
    } else if from == e.len() {
        assert(e.push(x)[from] == x);
        if k != x.0@ {
            assert(find_key(e.push(x), k, from + 1) is None);
        }
    }
}

/// Position of the first entry keyed `key`.
fn key_position<T>(e: &Vec<(String, T)>, key: &str) -> (r: Option<usize>)
    ensures
        match r {
            Some(i) => find_key(e@, key@, 0) == Some(i as int),
            None => find_key(e@, key@, 0) is None,
        },
{
    let mut i: usize = 0;
    while i < e.len()
        invariant
            0 <= i <= e@.len(),
            find_key(e@, key@, 0) == find_key(e@, key@, i as int),
        decreases e@.len() - i,
    {
        if str_eq(e[i].0.as_str(), key) {
            return Some(i);
        }
        i = i + 1;
    }
    None
}

/// The entries with each key once, holding the value of its last entry (as a
/// map does that inserts them in order); keys stay where they first occur.
pub fn keep_last_by_key<T>(v: Vec<(String, T)>) -> (r: Vec<(String, T)>)
    ensures
        keys_distinct(r@),
        forall|k: Seq<char>| #[trigger] lookup(r@, k) == last_lookup(v@, k),
{
    let ghost orig = v@;
    let mut v = v;
    let mut r: Vec<(String, T)> = Vec::new();
    let ghost mut n: int = 0;
    assert(orig.subrange(n, orig.len() as int) =~= orig);
    while v.len() > 0
        invariant
            0 <= n <= orig.len(),
            v@ == orig.subrange(n, orig.len() as int),
            keys_distinct(r@),
            forall|k: Seq<char>| #[trigger] lookup(r@, k) == last_lookup(orig.subrange(0, n), k),
        decreases v@.len(),
    {
        let x = v.remove(0);
        let ghost pre = r@;
        proof {
            assert(x == orig[n]);
            assert(orig.subrange(0, n + 1).drop_last() =~= orig.subrange(0, n));
            assert(orig.subrange(0, n + 1).last() == x);
            assert(v@ =~= orig.subrange(n + 1, orig.len() as int));
        }
        match key_position(&r, x.0.as_str()) {
            Some(j) => {
                proof {
                    lemma_find_key(pre, x.0@, 0);
                }
                r.set(j, x);
                proof {
                    assert forall|i: int| 0 <= i < pre.len() implies (#[trigger] pre[i]).0@ == r@[i].0@ by {}
                    assert forall|k: Seq<char>| #[trigger] lookup(r@, k) == last_lookup(orig.subrange(0, n + 1), k) by {
                        lemma_find_key_same_keys(pre, r@, k, 0);
                        lemma_find_key(pre, k, 0);
                        assert(lookup(pre, k) == last_lookup(orig.subrange(0, n), k));
                        if k != x.0@ {
                            if let Some(i) = find_key(pre, k, 0) {
                                assert(r@[i] == pre[i]);
                            }
                        }
                    }
                }
            },
            None => {
                proof {
                    lemma_find_key(pre, x.0@, 0);
                }
                r.push(x);
                proof {
                    assert forall|i: int| 0 <= i < pre.len() implies (#[trigger] pre[i]).0@ != x.0@ by {}
                    assert forall|k: Seq<char>| #[trigger] lookup(r@, k) == last_lookup(orig.subrange(0, n + 1), k) by {
                        lemma_find_key_push(pre, x, k, 0);
                        lemma_find_key(pre, k, 0);
                        assert(lookup(pre, k) == last_lookup(orig.subrange(0, n), k));
                        if let Some(i) = find_key(pre, k, 0) {
                            assert(r@[i] == pre[i]);
                        }
                    }
                }
            },
        }
        proof {
            n = n + 1;
        }
    }
    proof {
        assert(orig.subrange(0, n) =~= orig);
    }
    r
}

/// One operator at one tier.
pub struct OperatorInstance {
    pub name: String,
    pub tier: String,
    pub tags: Vec<String>,
    /// Facility name to binding (see `facilities_wf`; a registry keeps the last binding of a name).
    pub facilities: Vec<(String, FacilityBinding)>,
}

/// The trade binding of an instance.
pub open spec fn trade_binding(inst: OperatorInstance) -> Option<FacilityBinding> {
    lookup(inst.facilities@, "trade"@)
}

pub open spec fn ids_of(b: Option<FacilityBinding>) -> Option<Seq<Seq<char>>> {
    match b {
        Some(x) => Some(views(x.buff_ids@)),
        None => None,
    }
}

impl OperatorInstance {
    /// Trade buff ids as bound, or none without a trade binding.
    pub fn trade_buff_ids(&self) -> (r: Vec<&str>)
        ensures
            r@.map_values(|s: &str| s@) == match trade_binding(*self) {
                Some(b) => views(b.buff_ids@),
                None => Seq::<Seq<char>>::empty(),
            },
    {
        let mut r: Vec<&str> = Vec::new();
        match find_entry(&self.facilities, "trade") {
            None => {
                assert(r@.map_values(|s: &str| s@) =~= Seq::<Seq<char>>::empty());
            },
            Some(b) => {
                let mut i: usize = 0;
                while i < b.buff_ids.len()
                    invariant
                        0 <= i <= b.buff_ids@.len(),
                        r@.map_values(|s: &str| s@) == views(b.buff_ids@).subrange(0, i as int),
                    decreases b.buff_ids@.len() - i,
                {
                    let ghost pre = r@;
                    let x = b.buff_ids[i].as_str();
                    r.push(x);
                    assert(r@ == pre.push(x));
                    assert(r@.map_values(|s: &str| s@) =~= pre.map_values(|s: &str| s@).push(b.buff_ids@[i as int]@));
                    assert(r@.map_values(|s: &str| s@) =~= views(b.buff_ids@).subrange(0, i + 1));
                    i = i + 1;
                }
                assert(views(b.buff_ids@).subrange(0, b.buff_ids@.len() as int) =~= views(b.buff_ids@));
            },
        }
        r
    }
}

/// No facility of the instance is bound twice.
pub open spec fn facilities_wf(inst: OperatorInstance) -> bool {
    keys_distinct(inst.facilities@)
}

/// `got` is `want` with each facility at its last binding.
pub open spec fn loaded_as(got: Option<OperatorInstance>, want: Option<OperatorInstance>) -> bool {
    match (got, want) {
        (None, None) => true,
        (Some(g), Some(w)) => g.name == w.name && g.tier == w.tier && g.tags == w.tags && forall|f: Seq<char>|
            #[trigger] lookup(g.facilities@, f) == last_lookup(w.facilities@, f),
        _ => false,
    }
}

fn normalize_instance(inst: OperatorInstance) -> (r: OperatorInstance)
    ensures
        facilities_wf(r),
        loaded_as(Some(r), Some(inst)),
{
    let OperatorInstance { name, tier, tags, facilities } = inst;
    OperatorInstance { name, tier, tags, facilities: keep_last_by_key(facilities) }
}

fn normalize_all(v: Vec<(String, OperatorInstance)>) -> (r: Vec<(String, OperatorInstance)>)
    ensures
        keys_distinct(r@),
        forall|j: int| 0 <= j < r@.len() ==> facilities_wf(#[trigger] r@[j].1),
        forall|k: Seq<char>| #[trigger] loaded_as(lookup(r@, k), last_lookup(v@, k)),
{
    let d = keep_last_by_key(v);
    let ghost dv = d@;
    let mut d = d;
    let mut r: Vec<(String, OperatorInstance)> = Vec::new();
    let ghost mut n: int = 0;
    assert(dv.subrange(0, dv.len() as int) =~= dv);
    while d.len() > 0
        invariant
            0 <= n <= dv.len(),
            d@ == dv.subrange(n, dv.len() as int),
            r@.len() == n,
            forall|i: int| 0 <= i < n ==> (#[trigger] r@[i]).0@ == dv[i].0@,
            forall|i: int| 0 <= i < n ==> facilities_wf(#[trigger] r@[i].1),
            forall|i: int| 0 <= i < n ==> loaded_as(Some(#[trigger] r@[i].1), Some(dv[i].1)),
        decreases d@.len(),
    {
        let (k, inst) = d.remove(0);
        proof {
            assert((k, inst) == dv[n]);
            assert(d@ =~= dv.subrange(n + 1, dv.len() as int));
        }
        let ni = normalize_instance(inst);
        r.push((k, ni));
        proof {
            n = n + 1;
        }
    }
    proof {
        assert forall|i: int, j: int| 0 <= i < r@.len() && 0 <= j < r@.len() && i != j implies (#[trigger] r@[i]).0@
            != (#[trigger] r@[j]).0@ by {
            assert(dv[i].0@ != dv[j].0@);
        }
        assert forall|k: Seq<char>| #[trigger] loaded_as(lookup(r@, k), last_lookup(v@, k)) by {
            assert forall|i: int| 0 <= i < dv.len() implies (#[trigger] dv[i]).0@ == r@[i].0@ by {}
            lemma_find_key_same_keys(dv, r@, k, 0);
            lemma_find_key(dv, k, 0);
            assert(lookup(dv, k) == last_lookup(v@, k));
        }
    }
    r
}

/// On-disk form of the instances registry.
pub struct OperatorInstancesFile {
    pub version: u32,
    /// `name@tier` to instance; a key listed twice keeps its last instance.
    pub instances: Vec<(String, OperatorInstance)>,
}

/// Registry key of an operator at a tier: `name@tier_0` or `name@tier_up`.
pub open spec fn instance_key(name: Seq<char>, tier: PromotionTier) -> Seq<char> {
    name + "@"@ + tier_text(tier)
}

/// The registry of operator instances, keyed by `name@tier`.
pub struct OperatorInstances {
    instances: Vec<(String, OperatorInstance)>,
}

impl OperatorInstances {
    pub closed spec fn entries(self) -> Seq<(String, OperatorInstance)> {
        self.instances@
    }

    /// The instance registered for `name` at `tier`.
    pub open spec fn spec_get(self, name: Seq<char>, tier: PromotionTier) -> Option<OperatorInstance> {
        lookup(self.entries(), instance_key(name, tier))
    }

    /// The trade buff ids that `resolve_trade_buff_ids` gives.
    pub open spec fn spec_trade_ids(self, name: Seq<char>, tier: PromotionTier) -> Seq<Seq<char>> {
        match self.spec_get(name, tier) {
            None => Seq::empty(),
            Some(inst) => match trade_binding(inst) {
                None => Seq::empty(),
                Some(b) => spec_resolve_buff_ids(
                    tier,
                    views(b.buff_ids@),
                    b.stepwise,
                    match self.spec_get(name, PromotionTier::Tier0) {
                        Some(i0) => ids_of(trade_binding(i0)),
                        None => None,
                    },
                ),
            },
        }
    }

    #[verifier::type_invariant]
    closed spec fn inv(self) -> bool {
        &&& keys_distinct(self.instances@)
        &&& forall|j: int| 0 <= j < self.instances@.len() ==> facilities_wf(#[trigger] self.instances@[j].1)
    }

    /// The registry of a file: each key holds the last instance listed under
    /// it, each facility of an instance its last binding (as maps filled in
    /// file order hold them).
    pub fn from_file(file: OperatorInstancesFile) -> (r: Self)
        ensures
            forall|k: Seq<char>| #[trigger] loaded_as(lookup(r.entries(), k), last_lookup(file.instances@, k)),
    {
        let OperatorInstancesFile { version: _, instances } = file;
        Self::from_entries(instances)
    }

    /// The registry of `(key, instance)` entries: each key holds the last
    /// instance listed under it, each facility of an instance its last binding.
    pub fn from_entries(instances: Vec<(String, OperatorInstance)>) -> (r: Self)
        ensures
            forall|k: Seq<char>| #[trigger] loaded_as(lookup(r.entries(), k), last_lookup(instances@, k)),
    {
        OperatorInstances { instances: normalize_all(instances) }
    }

    pub fn get(&self, name: &str, tier: PromotionTier) -> (r: Option<&OperatorInstance>)
        ensures
            match r {
                Some(i) => self.spec_get(name@, tier) == Some(*i),
                None => self.spec_get(name@, tier) is None,
            },
    {
        let mut key = name.to_owned();
        key.append("@");
        key.append(tier.as_str());
        assert(key@ == instance_key(name@, tier));
        find_entry(&self.instances, key.as_str())
    }

    /// All `(key, instance)` entries.
    pub fn iter(&self) -> (r: &Vec<(String, OperatorInstance)>)
        ensures
            r@ == self.entries(),
            keys_distinct(r@),
            forall|j: int| 0 <= j < r@.len() ==> facilities_wf(#[trigger] r@[j].1),
    {
        proof {
            use_type_invariant(self);
        }
        &self.instances
    }

    pub fn resolve_trade_buff_ids(&self, name: &str, tier: PromotionTier) -> (r: Vec<String>)
        ensures
            views(r@) == self.spec_trade_ids(name@, tier),
    {
        let binding = match self.get(name, tier) {
            None => {
                let v: Vec<String> = Vec::new();
                assert(views(v@) =~= Seq::<Seq<char>>::empty());
                return v;
            },
            Some(inst) => match find_entry(&inst.facilities, "trade") {
                None => {
                    let v: Vec<String> = Vec::new();
                    assert(views(v@) =~= Seq::<Seq<char>>::empty());
                    return v;
                },
                Some(b) => b,
            },
        };
        let tier0 = match self.get(name, PromotionTier::Tier0) {
            None => None,
            Some(i0) => find_entry(&i0.facilities, "trade"),
        };
        resolve_buff_ids(tier, binding, tier0)
    }

    pub fn trade_buff_ids_for(&self, name: &str, tier: PromotionTier) -> (r: Vec<String>)
        ensures
            views(r@) == self.spec_trade_ids(name@, tier),
    {
        self.resolve_trade_buff_ids(name, tier)
    }
}

/// A tier-0 binding resolves to its own ids; so does a tier-up binding that is not stepwise.
pub proof fn lemma_resolve_keeps_plain_bindings(
    tier: PromotionTier,
    binding: Seq<Seq<char>>,
    stepwise: bool,
    tier0: Option<Seq<Seq<char>>>,
)
    requires
        tier == PromotionTier::Tier0 || !stepwise,
    ensures
        spec_resolve_buff_ids(tier, binding, stepwise, tier0) == binding,
{
}

/// When the tier-up ids hold every tier-0 id, a stepwise merge gives the tier-up ids.
pub proof fn lemma_merge_superset(t0: Seq<Seq<char>>, up: Seq<Seq<char>>)
    requires
        superset_of(up, t0),
    ensures
        spec_merge_stepwise(t0, up) == up,
{
}

proof fn lemma_drop_stem_subset(out: Seq<Seq<char>>, stem: Seq<u8>)
    ensures
        forall|x: Seq<char>| #[trigger] drop_stem(out, stem).contains(x) ==> out.contains(x) && stem_of(x) != stem,
    decreases out.len(),
{
    if out.len() > 0 {
        let d = out.drop_last();
        lemma_drop_stem_subset(d, stem);
        let rest = drop_stem(d, stem);
        assert forall|x: Seq<char>| #[trigger] drop_stem(out, stem).contains(x) implies out.contains(x) && stem_of(x) != stem by {
            if rest.contains(x) {
                assert(d.contains(x));
                let i = choose|i: int| 0 <= i < d.len() && d[i] == x;
                assert(out[i] == x);
            } else {
                if stem_of(out.last()) == stem {
                    assert(drop_stem(out, stem) == rest);
                } else {
                    assert(drop_stem(out, stem) == rest.push(out.last()));
                    let w = rest.push(out.last());
                    let i = choose|i: int| 0 <= i < w.len() && w[i] == x;
                    if i < rest.len() {
                        assert(rest[i] == x);
                    }
                    assert(x == out.last());
                    assert(out[out.len() - 1] == x);
                }
            }
        }
    }
}

proof fn lemma_merge_prefix_subset(t0: Seq<Seq<char>>, up: Seq<Seq<char>>, n: nat)
    requires
        n <= up.len(),
    ensures
        forall|x: Seq<char>| merge_prefix(t0, up, n).contains(x) ==> t0.contains(x) || up.contains(x),
    decreases n,
{
    if n > 0 {
        lemma_merge_prefix_subset(t0, up, (n - 1) as nat);
        let prev = merge_prefix(t0, up, (n - 1) as nat);
        let id = up[n - 1];
        lemma_drop_stem_subset(prev, stem_of(id));
        assert forall|x: Seq<char>| merge_prefix(t0, up, n).contains(x) implies t0.contains(x) || up.contains(x) by {
            if prev.contains(id) {
                assert(merge_prefix(t0, up, n) == prev);
            } else {
                assert(merge_prefix(t0, up, n) == drop_stem(prev, stem_of(id)).push(id));
                let s = drop_stem(prev, stem_of(id));
                if x != id {
                    let i = choose|i: int| 0 <= i < s.push(id).len() && s.push(id)[i] == x;
                    assert(s[i] == x);
                    assert(s.contains(x));
                    assert(prev.contains(x));
                } else {
                    assert(up[n - 1] == x);
                }
            }
        }
    }
}

/// A merged id list only holds ids of the tier-0 or tier-up list.
pub proof fn lemma_merge_only_known_ids(t0: Seq<Seq<char>>, up: Seq<Seq<char>>)
    ensures
        forall|x: Seq<char>| spec_merge_stepwise(t0, up).contains(x) ==> t0.contains(x) || up.contains(x),
{
    if !superset_of(up, t0) {
        lemma_merge_prefix_subset(t0, up, up.len());
    }
}

/// After a stepwise merge, the last tier-up id is present.
pub proof fn lemma_merge_last_id_present(t0: Seq<Seq<char>>, up: Seq<Seq<char>>)
    requires
        up.len() > 0,
    ensures
        spec_merge_stepwise(t0, up).contains(up.last()),
{
    if !superset_of(up, t0) {
        let prev = merge_prefix(t0, up, (up.len() - 1) as nat);
        let id = up[up.len() - 1];
        if !prev.contains(id) {
            let s = drop_stem(prev, stem_of(id));
            assert(s.push(id)[s.len() as int] == id);
        }
    } else {
        assert(up[up.len() - 1] == up.last());
    }
}

} // verus!
