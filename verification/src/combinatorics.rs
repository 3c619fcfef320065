//! Binomial coefficients and enumeration of index combinations in
//! lexicographic order.
use vstd::prelude::*;

verus! {

/// The binomial coefficient, by Pascal's rule.
pub open spec fn binom(n: nat, k: nat) -> nat
    decreases n,
{
    if k == 0 {
        1
    } else if n == 0 {
        0
    } else {
        binom((n - 1) as nat, (k - 1) as nat) + binom((n - 1) as nat, k)
    }
}

pub proof fn lemma_binom_zero_above(n: nat, k: nat)
    requires
        k > n,
    ensures
        binom(n, k) == 0,
    decreases n,
{
    if n > 0 {
        lemma_binom_zero_above((n - 1) as nat, (k - 1) as nat);
        lemma_binom_zero_above((n - 1) as nat, k);
    }
}

/// `binom(m, j + 1) * (j + 1) == binom(m, j) * (m - j)`.
#[verifier::spinoff_prover]
pub proof fn lemma_binom_step(m: nat, j: nat)
    requires
        j <= m,
    ensures
        (binom(m, j + 1) as int) * (j + 1) == (binom(m, j) as int) * (m - j),
    decreases m,
{
    if j == m {
        lemma_binom_zero_above(m, j + 1);
        assert((binom(m, j + 1) as int) * (j + 1) == 0);
        assert((binom(m, j) as int) * (m - j) == 0);
    } else {
        let n = (m - 1) as nat;
        lemma_binom_step(n, j);
        let a = binom(n, j) as int;
        let b = binom(n, j + 1) as int;
        assert(binom(m, j + 1) as int == a + b);
        assert(b * (j + 1) == a * (n - j));
        assert((a + b) * (j + 1) == a * (j + 1) + b * (j + 1)) by (nonlinear_arith);
        assert(a * (j + 1) + a * (n - j) == a * (m as int)) by (nonlinear_arith)
            requires
                n + 1 == m,
                j <= n,
        ;
        assert((binom(m, j + 1) as int) * (j + 1) == a * (m as int));
        if j == 0 {
            assert(binom(m, 0) == 1);
            assert(binom(n, 0) == 1);
        } else {
            let jp = (j - 1) as nat;
            lemma_binom_step(n, jp);
            let c = binom(n, jp) as int;
            assert(jp + 1 == j);
            assert(binom(m, j) as int == c + a);
            assert(a * (j as int) == c * (n - jp));
            assert((c + a) * (m - j) == c * (m - j) + a * (m - j)) by (nonlinear_arith);
            assert(n - jp == m - j);
            assert(a * (j as int) + a * (m - j) == a * (m as int)) by (nonlinear_arith);
            assert((binom(m, j) as int) * (m - j) == a * (m as int));
        }
        assert((binom(m, j) as int) * (m - j) == a * (m as int));
    }
}

/// `binom(n, k) == binom(n, n - k)`.
pub proof fn lemma_binom_symmetric(n: nat, k: nat)
    requires
        k <= n,
    ensures
        binom(n, k) == binom(n, (n - k) as nat),
    decreases n,
{
    if n == 0 {
    } else if k == 0 {
        lemma_binom_all(n);
    } else if k == n {
        lemma_binom_all(n);
    } else {
        let m = (n - 1) as nat;
        lemma_binom_symmetric(m, (k - 1) as nat);
        lemma_binom_symmetric(m, k);
        assert(binom(n, (n - k) as nat) == binom(m, (n - k - 1) as nat) + binom(m, (n - k) as nat));
    }
}

/// `binom(n, n) == 1`.
pub proof fn lemma_binom_all(n: nat)
    ensures
        binom(n, n) == 1,
    decreases n,
{
    if n > 0 {
        lemma_binom_all((n - 1) as nat);
        lemma_binom_zero_above((n - 1) as nat, n);
    }
}

/// The loop of `n_choose_k_u64` after `i` steps: multiply by `n - (i - 1)`,
/// saturating at `u64::MAX`, then divide by `i`.
pub open spec fn choose_steps(n: nat, i: nat) -> nat
    decreases i,
{
    if i == 0 {
        1
    } else {
        let prod = choose_steps(n, (i - 1) as nat) * (n - (i - 1));
        let sat = if prod > u64::MAX { u64::MAX as int } else { prod };
        (sat / (i as int)) as nat
    }
}

/// The number of steps `n_choose_k_u64` takes.
pub open spec fn choose_rounds(n: nat, k: nat) -> nat {
    if k <= n - k { k } else { (n - k) as nat }
}

/// `C(n, k)` computed with a saturating multiplication at each step; 0 when `k > n`.
pub fn n_choose_k_u64(n: usize, k: usize) -> (c: u64)
    ensures
        k > n ==> c == 0,
        k <= n ==> c == choose_steps(n as nat, choose_rounds(n as nat, k as nat)),
{
    if k > n {
        return 0;
    }
    let k = if k < n - k { k } else { n - k };
    let mut c: u64 = 1;
    let mut i: usize = 0;
    while i < k
        invariant
            0 <= i <= k <= n,
            c == choose_steps(n as nat, i as nat),
            c <= u64::MAX,
        decreases k - i,
    {
        let f = (n - i) as u64;
        let prod = match c.checked_mul(f) {
            Some(p) => p,
            None => u64::MAX,
        };
        let d = (i + 1) as u64;
        proof {
            assert(prod == if c * f > u64::MAX { u64::MAX as int } else { c * f });
        }
        c = prod / d;
        i = i + 1;
    }
    c
}

/// When no step saturates, the saturating loop computes the binomial coefficient.
pub proof fn lemma_choose_steps_exact(n: nat, i: nat)
    requires
        i <= n,
        forall|j: nat| 1 <= j <= i ==> #[trigger] binom(n, j) * j <= u64::MAX,
    ensures
        choose_steps(n, i) == binom(n, i),
    decreases i,
{
    if i > 0 {
        let p = (i - 1) as nat;
        lemma_choose_steps_exact(n, p);
        lemma_binom_step(n, p);
        assert(binom(n, i) * i <= u64::MAX);
        assert(p + 1 == i);
        assert(choose_steps(n, p) * (n - p) == binom(n, i) * i);
        assert(((binom(n, i) * i) as int) / (i as int) == binom(n, i)) by (nonlinear_arith)
            requires
                i > 0,
        ;
    }
}

/// `n_choose_k_u64` is `C(n, k)` whenever `C(n, j) * j` fits in a `u64` for
/// every step `j` it takes.
pub proof fn lemma_n_choose_k_is_binomial(n: nat, k: nat)
    requires
        k <= n,
        forall|j: nat| 1 <= j <= choose_rounds(n, k) ==> #[trigger] binom(n, j) * j <= u64::MAX,
    ensures
        choose_steps(n, choose_rounds(n, k)) == binom(n, k),
{
    lemma_choose_steps_exact(n, choose_rounds(n, k));
    lemma_binom_symmetric(n, k);
}

/// All strictly increasing sequences of length `k` over `[start, n)`, in lexicographic order.
pub open spec fn combos_from(start: nat, n: nat, k: nat) -> Seq<Seq<usize>>
    decreases n - start, k,
{
    if k == 0 {
        seq![Seq::<usize>::empty()]
    } else if start >= n {
        Seq::empty()
    } else {
        combos_from(start + 1, n, (k - 1) as nat).map_values(
            |c: Seq<usize>| seq![start as usize] + c,
        ) + combos_from(start + 1, n, k)
    }
}

/// There are `binom(n - start, k)` such sequences.
pub proof fn lemma_combos_count(start: nat, n: nat, k: nat)
    requires
        start <= n,
    ensures
        combos_from(start, n, k).len() == binom((n - start) as nat, k),
    decreases n - start, k,
{
    if k == 0 {
    } else if start >= n {
        assert(binom(0, k) == 0);
    } else {
        lemma_combos_count(start + 1, n, (k - 1) as nat);
        lemma_combos_count(start + 1, n, k);
        let a = combos_from(start + 1, n, (k - 1) as nat);
        let am = a.map_values(|c: Seq<usize>| seq![start as usize] + c);
        assert(am.len() == a.len());
        assert(combos_from(start, n, k).len() == am.len() + combos_from(start + 1, n, k).len());
        assert(binom((n - start) as nat, k) == binom((n - start - 1) as nat, (k - 1) as nat) + binom(
            (n - start - 1) as nat,
            k,
        ));
    }
}

/// A strictly increasing sequence of length `k` with entries in `[start, n)`.
pub open spec fn is_combo(c: Seq<usize>, start: nat, n: nat, k: nat) -> bool {
    &&& c.len() == k
    &&& forall|i: int| 0 <= i < c.len() ==> start <= #[trigger] c[i] < n
    &&& forall|i: int, j: int| 0 <= i < j < c.len() ==> c[i] < c[j]
}

/// Each enumerated sequence is a strictly increasing selection of `k` indices.
pub proof fn lemma_combos_valid(start: nat, n: nat, k: nat)
    requires
        n <= usize::MAX,
    ensures
        forall|i: int| 0 <= i < combos_from(start, n, k).len() ==> is_combo(
            #[trigger] combos_from(start, n, k)[i],
            start,
            n,
            k,
        ),
    decreases n - start, k,
{
    if k == 0 {
    } else if start >= n {
    } else {
        lemma_combos_valid(start + 1, n, (k - 1) as nat);
        lemma_combos_valid(start + 1, n, k);
        let a = combos_from(start + 1, n, (k - 1) as nat);
        let am = a.map_values(|c: Seq<usize>| seq![start as usize] + c);
        let b = combos_from(start + 1, n, k);
        assert forall|i: int| 0 <= i < combos_from(start, n, k).len() implies is_combo(
            #[trigger] combos_from(start, n, k)[i],
            start,
            n,
            k,
        ) by {
            if i < am.len() {
                let c = a[i];
                assert(combos_from(start, n, k)[i] == seq![start as usize] + c);
                assert(is_combo(c, start + 1, n, (k - 1) as nat));
                let d = seq![start as usize] + c;
                assert forall|x: int, y: int| 0 <= x < y < d.len() implies d[x] < d[y] by {
                    if x == 0 {
                        assert(d[y] == c[y - 1]);
                    } else {
                        assert(d[x] == c[x - 1]);
                        assert(d[y] == c[y - 1]);
                    }
                }
                assert forall|x: int| 0 <= x < d.len() implies start <= #[trigger] d[x] < n by {
                    if x == 0 {
                        assert(d[0] == start as usize);
                    } else {
                        assert(d[x] == c[x - 1]);
                    }
                }
            } else {
                assert(combos_from(start, n, k)[i] == b[i - am.len()]);
                assert(is_combo(b[i - am.len()], start + 1, n, k));
            }
        }
    }
}

fn combos_exec(start: usize, n: usize, k: usize) -> (r: Vec<Vec<usize>>)
    requires
        start <= n,
    ensures
        r@.map_values(|c: Vec<usize>| c@) == combos_from(start as nat, n as nat, k as nat),
    decreases n - start, k,
{
    if k == 0 {
        let mut r: Vec<Vec<usize>> = Vec::new();
        r.push(Vec::new());
        assert(r@.map_values(|c: Vec<usize>| c@) =~= seq![Seq::<usize>::empty()]);
        return r;
    }
    if start >= n {
        let r: Vec<Vec<usize>> = Vec::new();
        assert(r@.map_values(|c: Vec<usize>| c@) =~= Seq::<Seq<usize>>::empty());
        return r;
    }
    let with_first = combos_exec(start + 1, n, k - 1);
    let without_first = combos_exec(start + 1, n, k);
    let ghost a = combos_from((start + 1) as nat, n as nat, (k - 1) as nat);
    let ghost am = a.map_values(|c: Seq<usize>| seq![start as usize] + c);
    let mut r: Vec<Vec<usize>> = Vec::new();
    let mut i: usize = 0;
    while i < with_first.len()
        invariant
            0 <= i <= with_first@.len(),
            with_first@.map_values(|c: Vec<usize>| c@) == a,
            am == a.map_values(|c: Seq<usize>| seq![start as usize] + c),
            r@.map_values(|c: Vec<usize>| c@) == am.subrange(0, i as int),
        decreases with_first@.len() - i,
    {
        let mut c: Vec<usize> = Vec::new();
        c.push(start);
        let tail = &with_first[i];
        let mut j: usize = 0;
        while j < tail.len()
            invariant
                0 <= j <= tail@.len(),
                c@ == seq![start] + tail@.subrange(0, j as int),
            decreases tail@.len() - j,
        {
            c.push(tail[j]);
            assert(c@ =~= seq![start] + tail@.subrange(0, j + 1));
            j = j + 1;
        }
        assert(tail@.subrange(0, tail@.len() as int) =~= tail@);
        assert(a[i as int] == tail@);
        let ghost pre = r@;
        r.push(c);
        assert(r@.map_values(|c: Vec<usize>| c@) =~= am.subrange(0, i + 1)) by {
            assert(r@ == pre.push(c));
            assert(am[i as int] == seq![start as usize] + a[i as int]);
            assert(pre.push(c).map_values(|c: Vec<usize>| c@) =~= pre.map_values(|c: Vec<usize>| c@).push(c@));
            assert(am.subrange(0, i + 1) =~= am.subrange(0, i as int).push(am[i as int]));
        }
        i = i + 1;
    }
    assert(am.subrange(0, am.len() as int) =~= am);
    let ghost mid = r@.map_values(|c: Vec<usize>| c@);
    let mut i: usize = 0;
    while i < without_first.len()
        invariant
            0 <= i <= without_first@.len(),
            r@.map_values(|c: Vec<usize>| c@) == mid + without_first@.map_values(|c: Vec<usize>| c@).subrange(0, i as int),
        decreases without_first@.len() - i,
    {
        let c = without_first[i].clone();
        let ghost pre = r@;
        r.push(c);
        assert(r@.map_values(|c: Vec<usize>| c@) =~= mid + without_first@.map_values(|c: Vec<usize>| c@).subrange(0, i + 1)) by {
            let w = without_first@.map_values(|c: Vec<usize>| c@);
            assert(r@ == pre.push(c));
            assert(c@ == without_first@[i as int]@);
            assert(pre.push(c).map_values(|c: Vec<usize>| c@) =~= pre.map_values(|c: Vec<usize>| c@).push(c@));
            assert(w.subrange(0, i + 1) =~= w.subrange(0, i as int).push(w[i as int]));
        }
        i = i + 1;
    }
    assert(without_first@.map_values(|c: Vec<usize>| c@).subrange(0, without_first@.len() as int) =~= without_first@.map_values(|c: Vec<usize>| c@));
    r
}

/// All index combinations of size `k` from `n` items, in lexicographic order.
pub fn combinations_indices(n: usize, k: usize) -> (r: Vec<Vec<usize>>)
    ensures
        r@.map_values(|c: Vec<usize>| c@) == combos_from(0, n as nat, k as nat),
{
    combos_exec(0, n, k)
}

/// `t` is a strictly increasing triple of indices below `n`.
pub open spec fn is_triple(t: Seq<usize>, n: nat) -> bool {
    t.len() == 3 && t[0] < t[1] && t[1] < t[2] && t[2] < n
}

/// Lexicographic order on triples.
pub open spec fn lex_lt(s: Seq<usize>, t: Seq<usize>) -> bool {
    s[0] < t[0] || (s[0] == t[0] && (s[1] < t[1] || (s[1] == t[1] && s[2] < t[2])))
}

/// `t` is the first triple below `n` in lexicographic order.
pub open spec fn is_first_triple(t: Seq<usize>, n: nat) -> bool {
    is_triple(t, n) && forall|u: Seq<usize>| #[trigger] is_triple(u, n) ==> !lex_lt(u, t)
}

/// `t` is the triple that comes right after `s` in lexicographic order.
pub open spec fn is_next_triple(s: Seq<usize>, t: Seq<usize>, n: nat) -> bool {
    &&& is_triple(t, n)
    &&& lex_lt(s, t)
    &&& forall|u: Seq<usize>| #[trigger] is_triple(u, n) && lex_lt(s, u) ==> !lex_lt(u, t)
}

/// No triple below `n` comes after `s`.
pub open spec fn no_triple_after(s: Seq<usize>, n: nat) -> bool {
    forall|u: Seq<usize>| #[trigger] is_triple(u, n) ==> !lex_lt(s, u)
}

/// Streams the triples `[a, b, c]` with `a < b < c < n` in lexicographic order,
/// without allocating.
pub struct CombinationsTripleIter {
    n: usize,
    combo: [usize; 3],
    started: bool,
    done: bool,
}

impl CombinationsTripleIter {
    #[verifier::type_invariant]
    closed spec fn inv(self) -> bool {
        &&& !self.done ==> is_triple(self.combo@, self.n as nat)
        &&& !self.started && !self.done ==> self.combo@ == seq![0usize, 1usize, 2usize]
        &&& !self.started ==> (self.done <==> self.n < 3)
    }

    /// The bound `n` of the indices.
    pub closed spec fn bound(self) -> nat {
        self.n as nat
    }

    /// The triple returned last, if any has been returned.
    pub closed spec fn last_returned(self) -> Option<Seq<usize>> {
        if self.started && !self.done {
            Some(self.combo@)
        } else {
            None
        }
    }

    /// Whether a triple has been returned yet.
    pub closed spec fn has_started(self) -> bool {
        self.started
    }

    /// Whether the enumeration is over.
    pub closed spec fn finished(self) -> bool {
        self.done
    }

    /// The next triple in lexicographic order, or `None` once all are returned.
    pub fn next(&mut self) -> (r: Option<[usize; 3]>)
        ensures
            final(self).bound() == old(self).bound(),
            old(self).finished() ==> r is None && final(self).finished(),
            !old(self).finished() && !old(self).has_started() ==> r is Some && is_first_triple(
                r->0@,
                old(self).bound(),
            ),
            !old(self).finished() && old(self).has_started() ==> match r {
                Some(t) => is_next_triple(old(self).last_returned()->0, t@, old(self).bound()),
                None => no_triple_after(old(self).last_returned()->0, old(self).bound())
                    && final(self).finished(),
            },
            r matches Some(t) ==> final(self).last_returned() == Some(t@) && final(self).has_started()
                && !final(self).finished(),
    {
        proof {
            use_type_invariant(&*self);
        }
        if self.done {
            return None;
        }
        let n = self.n;
        if !self.started {
            let out = self.combo;
            *self = CombinationsTripleIter { n, combo: out, started: true, done: false };
            proof {
                assert(out@ == seq![0usize, 1usize, 2usize]);
                assert forall|u: Seq<usize>| #[trigger] is_triple(u, n as nat) implies !lex_lt(u, out@) by {}
            }
            return Some(out);
        }
        let a = self.combo[0];
        let b = self.combo[1];
        let c = self.combo[2];
        let ghost s = self.combo@;
        let next = if c != n - 1 {
            [a, b, c + 1]
        } else if b != n - 2 {
            [a, b + 1, b + 2]
        } else if a != n - 3 {
            [a + 1, a + 2, a + 3]
        } else {
            *self = CombinationsTripleIter { n, combo: [a, b, c], started: true, done: true };
            proof {
                assert forall|u: Seq<usize>| #[trigger] is_triple(u, n as nat) implies !lex_lt(s, u) by {}
            }
            return None;
        };
        *self = CombinationsTripleIter { n, combo: next, started: true, done: false };
        proof {
            assert(is_triple(next@, n as nat));
            assert forall|u: Seq<usize>| #[trigger] is_triple(u, n as nat) && lex_lt(s, u) implies !lex_lt(u, next@) by {}
        }
        Some(next)
    }
}

/// All triples `[a, b, c]` with `a < b < c < n`, streamed in lexicographic order.
pub fn combinations_triples(n: usize) -> (r: CombinationsTripleIter)
    ensures
        r.bound() == n,
        !r.has_started(),
        r.finished() == (n < 3),
{
    CombinationsTripleIter { n, combo: [0, 1, 2], started: false, done: n < 3 }
}

/// With fewer than three indices there is no triple.
pub proof fn lemma_no_triple_below_three(n: nat)
    requires
        n < 3,
    ensures
        forall|u: Seq<usize>| !#[trigger] is_triple(u, n),
{
}

/// Lexicographic order on index sequences, compared entry by entry.
pub open spec fn combo_lt(s: Seq<usize>, t: Seq<usize>) -> bool
    decreases s.len(),
{
    if s.len() == 0 || t.len() == 0 {
        false
    } else {
        s[0] < t[0] || (s[0] == t[0] && combo_lt(s.drop_first(), t.drop_first()))
    }
}

/// The enumerated sequences come in strictly ascending lexicographic order.
proof fn lemma_combos_sorted(start: nat, n: nat, k: nat)
    requires
        n <= usize::MAX,
    ensures
        forall|i: int, j: int|
            0 <= i < j < combos_from(start, n, k).len() ==> combo_lt(
                #[trigger] combos_from(start, n, k)[i],
                #[trigger] combos_from(start, n, k)[j],
            ),
    decreases n - start, k,
{
    if k == 0 || start >= n {
    } else {
        lemma_combos_sorted(start + 1, n, (k - 1) as nat);
        lemma_combos_sorted(start + 1, n, k);
        lemma_combos_valid(start + 1, n, (k - 1) as nat);
        lemma_combos_valid(start + 1, n, k);
        let a = combos_from(start + 1, n, (k - 1) as nat);
        let am = a.map_values(|c: Seq<usize>| seq![start as usize] + c);
        let b = combos_from(start + 1, n, k);
        let c = combos_from(start, n, k);
        assert(c == am + b);
        assert forall|i: int, j: int| 0 <= i < j < c.len() implies combo_lt(
            #[trigger] c[i],
            #[trigger] c[j],
        ) by {
            if j < am.len() {
                assert(c[i] == seq![start as usize] + a[i]);
                assert(c[j] == seq![start as usize] + a[j]);
                assert(c[i].drop_first() =~= a[i]);
                assert(c[j].drop_first() =~= a[j]);
                assert(combo_lt(a[i], a[j]));
            } else if i < am.len() {
                assert(c[i] == seq![start as usize] + a[i]);
                assert(c[j] == b[j - am.len()]);
                assert(is_combo(b[j - am.len()], start + 1, n, k));
                assert(c[j][0] >= start + 1);
            } else {
                assert(c[i] == b[i - am.len()]);
                assert(c[j] == b[j - am.len()]);
                assert(combo_lt(b[i - am.len()], b[j - am.len()]));
            }
        }
    }
}

/// Every strictly increasing selection of `k` indices is enumerated.
proof fn lemma_combos_complete(start: nat, n: nat, k: nat)
    requires
        n <= usize::MAX,
    ensures
        forall|c: Seq<usize>| #[trigger] is_combo(c, start, n, k) ==> exists|j: int|
            0 <= j < combos_from(start, n, k).len() && combos_from(start, n, k)[j] == c,
    decreases n - start, k,
{
    if k == 0 {
        assert forall|c: Seq<usize>| #[trigger] is_combo(c, start, n, k) implies exists|j: int|
            0 <= j < combos_from(start, n, k).len() && combos_from(start, n, k)[j] == c by {
            assert(c =~= Seq::<usize>::empty());
            assert(combos_from(start, n, k)[0] == c);
        }
    } else if start >= n {
        assert forall|c: Seq<usize>| #[trigger] is_combo(c, start, n, k) implies exists|j: int|
            0 <= j < combos_from(start, n, k).len() && combos_from(start, n, k)[j] == c by {
            assert(start <= c[0] < n);
        }
    } else {
        lemma_combos_complete(start + 1, n, (k - 1) as nat);
        lemma_combos_complete(start + 1, n, k);
        let a = combos_from(start + 1, n, (k - 1) as nat);
        let am = a.map_values(|c: Seq<usize>| seq![start as usize] + c);
        let b = combos_from(start + 1, n, k);
        let cs = combos_from(start, n, k);
        assert(cs == am + b);
        assert forall|c: Seq<usize>| #[trigger] is_combo(c, start, n, k) implies exists|j: int|
            0 <= j < cs.len() && cs[j] == c by {
            if c[0] == start {
                let d = c.drop_first();
                assert forall|i: int| 0 <= i < d.len() implies start + 1 <= #[trigger] d[i] < n by {
                    assert(d[i] == c[i + 1]);
                    assert(c[0] < c[i + 1]);
                }
                assert forall|i: int, j: int| 0 <= i < j < d.len() implies d[i] < d[j] by {
                    assert(d[i] == c[i + 1]);
                    assert(d[j] == c[j + 1]);
                }
                assert(is_combo(d, start + 1, n, (k - 1) as nat));
                let j = choose|j: int| 0 <= j < a.len() && a[j] == d;
                assert(cs[j] == seq![start as usize] + a[j]);
                assert(seq![start as usize] + d =~= c);
            } else {
                assert forall|i: int| 0 <= i < c.len() implies start + 1 <= #[trigger] c[i] < n by {
                    if i > 0 {
                        assert(c[0] < c[i]);
                    }
                }
                assert(is_combo(c, start + 1, n, k));
                let j = choose|j: int| 0 <= j < b.len() && b[j] == c;
                assert(cs[am.len() + j] == b[j]);
            }
        }
    }
}

proof fn lemma_combo_lt_triple(s: Seq<usize>, t: Seq<usize>)
    requires
        s.len() == 3,
        t.len() == 3,
    ensures
        combo_lt(s, t) == lex_lt(s, t),
{
    let s1 = s.drop_first();
    let t1 = t.drop_first();
    let s2 = s1.drop_first();
    let t2 = t1.drop_first();
    assert(s1[0] == s[1] && s1[1] == s[2] && s2[0] == s[2]);
    assert(t1[0] == t[1] && t1[1] == t[2] && t2[0] == t[2]);
    assert(combo_lt(s2.drop_first(), t2.drop_first()) == false);
    assert(combo_lt(s2, t2) == (s2[0] < t2[0]));
    assert(combo_lt(s1, t1) == (s1[0] < t1[0] || (s1[0] == t1[0] && combo_lt(s2, t2))));
}

proof fn lemma_triple_is_combo(c: Seq<usize>, n: nat)
    ensures
        is_combo(c, 0, n, 3) == is_triple(c, n),
{
    if is_triple(c, n) {
        assert forall|i: int| 0 <= i < c.len() implies 0 <= #[trigger] c[i] < n by {}
        assert forall|i: int, j: int| 0 <= i < j < c.len() implies c[i] < c[j] by {}
    }
    if is_combo(c, 0, n, 3) {
        assert(c[0] < c[1] && c[1] < c[2] && c[2] < n);
    }
}

/// The triple iterator walks exactly the index combinations of size three
/// (`combinations_indices(n, 3)`) in their order: its first triple is the
/// first entry, the triple after entry `k` is entry `k + 1`, nothing comes
/// after the last entry, and there is no entry at all when `n < 3`.
pub proof fn lemma_triples_follow_combos(n: nat)
    requires
        n <= usize::MAX,
    ensures
        combos_from(0, n, 3).len() == 0 <==> n < 3,
        combos_from(0, n, 3).len() > 0 ==> is_first_triple(combos_from(0, n, 3)[0], n),
        forall|t: Seq<usize>| #[trigger] is_first_triple(t, n) ==> combos_from(0, n, 3).len() > 0 && t
            == combos_from(0, n, 3)[0],
        forall|k: int|
            0 <= k < combos_from(0, n, 3).len() - 1 ==> is_next_triple(
                #[trigger] combos_from(0, n, 3)[k],
                combos_from(0, n, 3)[k + 1],
                n,
            ),
        forall|k: int, t: Seq<usize>|
            0 <= k < combos_from(0, n, 3).len() && #[trigger] is_next_triple(combos_from(0, n, 3)[k], t, n)
                ==> k + 1 < combos_from(0, n, 3).len() && t == combos_from(0, n, 3)[k + 1],
        forall|k: int|
            0 <= k < combos_from(0, n, 3).len() ==> (no_triple_after(#[trigger] combos_from(0, n, 3)[k], n)
                <==> k == combos_from(0, n, 3).len() - 1),
{
    let c = combos_from(0, n, 3);
    lemma_combos_valid(0, n, 3);
    lemma_combos_sorted(0, n, 3);
    lemma_combos_complete(0, n, 3);
    assert forall|j: int| 0 <= j < c.len() implies #[trigger] is_triple(c[j], n) by {
        assert(is_combo(c[j], 0, n, 3));
        lemma_triple_is_combo(c[j], n);
    }
    assert forall|i: int, j: int| 0 <= i < j < c.len() implies #[trigger] lex_lt(c[i], c[j]) by {
        assert(combo_lt(c[i], c[j]));
        lemma_combo_lt_triple(c[i], c[j]);
    }
    // Each triple is some entry.
    assert forall|u: Seq<usize>| #[trigger] is_triple(u, n) implies exists|j: int| 0 <= j < c.len() && c[j] == u by {
        lemma_triple_is_combo(u, n);
        assert(is_combo(u, 0, n, 3));
    }
    if n >= 3 {
        let u = seq![0usize, 1usize, 2usize];
        assert(is_triple(u, n));
    } else {
        if c.len() > 0 {
            assert(is_triple(c[0], n));
        }
    }
    if c.len() > 0 {
        assert forall|u: Seq<usize>| #[trigger] is_triple(u, n) implies !lex_lt(u, c[0]) by {
            let j = choose|j: int| 0 <= j < c.len() && c[j] == u;
            if j > 0 {
                assert(lex_lt(c[0], c[j]));
            }
        }
    }
    assert forall|t: Seq<usize>| #[trigger] is_first_triple(t, n) implies c.len() > 0 && t == c[0] by {
        let j = choose|j: int| 0 <= j < c.len() && c[j] == t;
        if j > 0 {
            assert(is_triple(c[0], n));
            assert(lex_lt(c[0], c[j]));
        }
    }
    assert forall|k: int| 0 <= k < c.len() - 1 implies is_next_triple(#[trigger] c[k], c[k + 1], n) by {
        assert(lex_lt(c[k], c[k + 1]));
        assert forall|u: Seq<usize>| #[trigger] is_triple(u, n) && lex_lt(c[k], u) implies !lex_lt(u, c[k + 1]) by {
            let j = choose|j: int| 0 <= j < c.len() && c[j] == u;
            if j < k {
                assert(lex_lt(c[j], c[k]));
            } else if j > k + 1 {
                assert(lex_lt(c[k + 1], c[j]));
            }
        }
    }
    assert forall|k: int, t: Seq<usize>|
        0 <= k < c.len() && #[trigger] is_next_triple(c[k], t, n) implies k + 1 < c.len() && t == c[k + 1] by {
        let j = choose|j: int| 0 <= j < c.len() && c[j] == t;
        if j < k {
            assert(lex_lt(c[j], c[k]));
        } else if j > k + 1 {
            assert(is_triple(c[k + 1], n));
            assert(lex_lt(c[k], c[k + 1]));
            assert(lex_lt(c[k + 1], c[j]));
        }
    }
    assert forall|k: int| 0 <= k < c.len() implies (no_triple_after(#[trigger] c[k], n) <==> k == c.len() - 1) by {
        if k < c.len() - 1 {
            assert(is_triple(c[k + 1], n));
            assert(lex_lt(c[k], c[k + 1]));
        } else {
            assert forall|u: Seq<usize>| #[trigger] is_triple(u, n) implies !lex_lt(c[k], u) by {
                let j = choose|j: int| 0 <= j < c.len() && c[j] == u;
                if j < k {
                    assert(lex_lt(c[j], c[k]));
                }
            }
        }
    }
}

/// `i < j < n` and neither is the anchor.
pub open spec fn free_pair(n: nat, anchor: usize, i: usize, j: usize) -> bool {
    i < j < n && i != anchor && j != anchor
}

/// The anchored triple `t` has free members `i` and `j`.
pub open spec fn holds_pair(t: [usize; 3], i: usize, j: usize) -> bool {
    t@[1] == i && t@[2] == j
}

/// `t` is `[anchor, i, j]` with `i < j < n` and neither `i` nor `j` the anchor.
pub open spec fn is_anchor_triple(t: Seq<usize>, n: nat, anchor: usize) -> bool {
    t.len() == 3 && t[0] == anchor && t[1] < t[2] && t[2] < n && t[1] != anchor && t[2] != anchor
}

/// Order of anchored triples by their two free members.
pub open spec fn pair_lt(s: Seq<usize>, t: Seq<usize>) -> bool {
    s[1] < t[1] || (s[1] == t[1] && s[2] < t[2])
}

/// The anchor with every pair of the other indices below `n`, pairs in
/// lexicographic order.
pub fn combinations_triples_with_anchor(n: usize, anchor: usize) -> (r: Vec<[usize; 3]>)
    ensures
        forall|k: int| 0 <= k < r@.len() ==> is_anchor_triple(#[trigger] r@[k]@, n as nat, anchor),
        forall|k: int, l: int| 0 <= k < l < r@.len() ==> pair_lt(#[trigger] r@[k]@, #[trigger] r@[l]@),
        forall|i: usize, j: usize| #[trigger] free_pair(n as nat, anchor, i, j) ==> exists|k: int|
            0 <= k < r@.len() && #[trigger] holds_pair(r@[k], i, j),
{
    let mut r: Vec<[usize; 3]> = Vec::new();
    let mut i: usize = 0;
    while i < n
        invariant
            0 <= i <= n,
            forall|k: int| 0 <= k < r@.len() ==> is_anchor_triple(#[trigger] r@[k]@, n as nat, anchor),
            forall|k: int| 0 <= k < r@.len() ==> (#[trigger] r@[k]@)[1] < i,
            forall|k: int, l: int| 0 <= k < l < r@.len() ==> pair_lt(#[trigger] r@[k]@, #[trigger] r@[l]@),
            forall|x: usize, y: usize| #[trigger] free_pair(n as nat, anchor, x, y) && x < i ==> exists|k: int|
                0 <= k < r@.len() && #[trigger] holds_pair(r@[k], x, y),
        decreases n - i,
    {
        let mut j: usize = i + 1;
        let ghost before = r@;
        while j < n
            invariant
                0 <= i < n,
                i + 1 <= j <= n,
                before.len() <= r@.len(),
                forall|k: int| 0 <= k < before.len() ==> r@[k] == before[k],
                forall|k: int| 0 <= k < r@.len() ==> is_anchor_triple(#[trigger] r@[k]@, n as nat, anchor),
                forall|k: int| 0 <= k < before.len() ==> (#[trigger] r@[k]@)[1] < i,
                forall|k: int| before.len() <= k < r@.len() ==> (#[trigger] r@[k]@)[1] == i && r@[k]@[2] < j,
                forall|k: int, l: int| 0 <= k < l < r@.len() ==> pair_lt(#[trigger] r@[k]@, #[trigger] r@[l]@),
                forall|x: usize, y: usize| #[trigger] free_pair(n as nat, anchor, x, y) && x < i ==> exists|k: int|
                    0 <= k < before.len() && #[trigger] holds_pair(before[k], x, y),
                forall|y: usize| #[trigger] free_pair(n as nat, anchor, i, y) && y < j ==> exists|k: int|
                    0 <= k < r@.len() && #[trigger] holds_pair(r@[k], i, y),
            decreases n - j,
        {
            if i != anchor && j != anchor {
                let t = [anchor, i, j];
                let ghost pre = r@;
                r.push(t);
                proof {
                    assert(r@[pre.len() as int] == t);
                    assert(holds_pair(t, i, j));
                    assert forall|y: usize| #[trigger] free_pair(n as nat, anchor, i, y) && y < j + 1 implies exists|k: int|
                        0 <= k < r@.len() && #[trigger] holds_pair(r@[k], i, y) by {
                        if y == j {
                            assert(holds_pair(r@[pre.len() as int], i, y));
                        } else {
                            let k = choose|k: int| 0 <= k < pre.len() && #[trigger] holds_pair(pre[k], i, y);
                            assert(holds_pair(r@[k], i, y));
                        }
                    }
                }
            }
            j = j + 1;
        }
        proof {
            assert forall|x: usize, y: usize| #[trigger] free_pair(n as nat, anchor, x, y) && x < i + 1 implies exists|k: int|
                0 <= k < r@.len() && #[trigger] holds_pair(r@[k], x, y) by {
                if x == i {
                    assert(free_pair(n as nat, anchor, i, y) && y < j);
                    let k = choose|k: int| 0 <= k < r@.len() && #[trigger] holds_pair(r@[k], i, y);
                    assert(holds_pair(r@[k], x, y));
                } else {
                    let k = choose|k: int| 0 <= k < before.len() && #[trigger] holds_pair(before[k], x, y);
                    assert(holds_pair(r@[k], x, y));
                }
            }
        }
        i = i + 1;
    }
    r
}

} // verus!
