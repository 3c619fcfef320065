//! Byte-level string helpers with exact contracts.
//!
//! Names and buff ids are UTF-8 strings. Their character views are compared
//! through their UTF-8 encodings, which is injective.
use vstd::prelude::*;
use vstd::utf8::*;

verus! {

broadcast use vstd::utf8::group_utf8_lib;

/// UTF-8 encoding of a character sequence.
pub open spec fn utf8(s: Seq<char>) -> Seq<u8> {
    encode_utf8(s)
}

/// Two character sequences are equal exactly when their encodings are.
pub proof fn lemma_utf8_injective(a: Seq<char>, b: Seq<char>)
    ensures
        (utf8(a) == utf8(b)) <==> (a == b),
{
    if utf8(a) == utf8(b) {
        assert(decode_utf8(encode_utf8(a)) == decode_utf8(encode_utf8(b)));
    }
}

/// `b` occurs in `s` at byte offset `i`.
pub open spec fn occurs_at(s: Seq<u8>, b: Seq<u8>, i: int) -> bool {
    0 <= i && i + b.len() <= s.len() && s.subrange(i, i + b.len()) == b
}

/// `b` occurs somewhere in `s`.
pub open spec fn occurs_in(s: Seq<u8>, b: Seq<u8>) -> bool {
    exists|i: int| occurs_at(s, b, i)
}

/// `p` is a prefix of `s`.
pub open spec fn is_prefix(s: Seq<u8>, p: Seq<u8>) -> bool {
    occurs_at(s, p, 0)
}

/// Index of the last occurrence of byte `b` in `s`.
pub open spec fn last_index_of(s: Seq<u8>, b: u8) -> Option<int>
    decreases s.len(),
{
    if s.len() == 0 {
        None
    } else if s.last() == b {
        Some(s.len() - 1)
    } else {
        last_index_of(s.drop_last(), b)
    }
}

pub proof fn lemma_last_index_of(s: Seq<u8>, b: u8)
    ensures
        match last_index_of(s, b) {
            Some(i) => 0 <= i < s.len() && s[i] == b && forall|j: int| i < j < s.len() ==> s[j] != b,
            None => forall|j: int| 0 <= j < s.len() ==> s[j] != b,
        },
    decreases s.len(),
{
    if s.len() > 0 && s.last() != b {
        lemma_last_index_of(s.drop_last(), b);
        assert forall|j: int| 0 <= j < s.len() - 1 implies s.drop_last()[j] == s[j] by {}
    }
}

/// Byte-wise equality of two slices.
pub fn bytes_eq(x: &[u8], y: &[u8]) -> (r: bool)
    ensures
        r == (x@ == y@),
{
    if x.len() != y.len() {
        return false;
    }
    let mut i: usize = 0;
    while i < x.len()
        invariant
            x.len() == y.len(),
            0 <= i <= x.len(),
            forall|j: int| 0 <= j < i ==> x@[j] == y@[j],
        decreases x.len() - i,
    {
        if x[i] != y[i] {
            return false;
        }
        i = i + 1;
    }
    assert(x@ =~= y@);
    true
}

/// Equality of two strings.
pub fn str_eq(a: &str, b: &str) -> (r: bool)
    ensures
        r == (a@ == b@),
{
    proof {
        lemma_utf8_injective(a@, b@);
    }
    bytes_eq(a.as_bytes(), b.as_bytes())
}

/// Whether `s` starts with `prefix`.
pub fn starts_with(s: &str, prefix: &str) -> (r: bool)
    ensures
        r == is_prefix(utf8(s@), utf8(prefix@)),
{
    let x = s.as_bytes();
    let p = prefix.as_bytes();
    assert(x@ == utf8(s@));
    assert(p@ == utf8(prefix@));
    if p.len() > x.len() {
        return false;
    }
    let mut i: usize = 0;
    while i < p.len()
        invariant
            p.len() <= x.len(),
            x@ == utf8(s@),
            p@ == utf8(prefix@),
            0 <= i <= p.len(),
            forall|j: int| 0 <= j < i ==> x@[j] == p@[j],
        decreases p.len() - i,
    {
        if x[i] != p[i] {
            assert(x@.subrange(0, p@.len() as int)[i as int] != p@[i as int]);
            return false;
        }
        i = i + 1;
    }
    assert(x@.subrange(0, p@.len() as int) =~= p@);
    true
}

/// Whether `needle` occurs in `s`.
pub fn contains_str(s: &str, needle: &str) -> (r: bool)
    ensures
        r == occurs_in(utf8(s@), utf8(needle@)),
{
    let x = s.as_bytes();
    let p = needle.as_bytes();
    assert(x@ == utf8(s@));
    assert(p@ == utf8(needle@));
    if p.len() > x.len() {
        assert forall|i: int| !occurs_at(x@, p@, i) by {}
        return false;
    }
    let last = x.len() - p.len();
    let mut start: usize = 0;
    loop
        invariant
            p.len() <= x.len(),
            x@ == utf8(s@),
            p@ == utf8(needle@),
            last == x.len() - p.len(),
            start <= last,
            forall|i: int| 0 <= i < start ==> !occurs_at(x@, p@, i),
        ensures
            forall|i: int| 0 <= i <= last ==> !occurs_at(x@, p@, i),
        decreases last - start,
    {
        let mut j: usize = 0;
        let mut same = true;
        while j < p.len()
            invariant
                0 <= j <= p.len(),
                start <= last,
                last == x.len() - p.len(),
                same ==> forall|k: int| 0 <= k < j ==> x@[start + k] == p@[k],
                !same ==> !occurs_at(x@, p@, start as int),
            decreases p.len() - j,
        {
            if x[start + j] != p[j] {
                same = false;
                assert(x@.subrange(start as int, start + p@.len())[j as int] != p@[j as int]);
            }
            j = j + 1;
        }
        if same {
            assert(x@.subrange(start as int, start + p@.len()) =~= p@);
            assert(occurs_at(x@, p@, start as int));
            return true;
        }
        if start == last {
            break;
        }
        start = start + 1;
    }
    assert forall|i: int| !occurs_at(x@, p@, i) by {}
    false
}

/// Index of the last `b` byte in `s`.
pub fn rfind_byte(s: &[u8], b: u8) -> (r: Option<usize>)
    ensures
        match r {
            Some(i) => last_index_of(s@, b) == Some(i as int),
            None => last_index_of(s@, b) is None,
        },
{
    let mut i: usize = s.len();
    assert(s@.subrange(0, i as int) =~= s@);
    while i > 0
        invariant
            0 <= i <= s.len(),
            last_index_of(s@, b) == last_index_of(s@.subrange(0, i as int), b),
        decreases i,
    {
        let ghost pre = s@.subrange(0, i as int);
        if s[i - 1] == b {
            return Some(i - 1);
        }
        assert(pre.drop_last() =~= s@.subrange(0, i - 1));
        i = i - 1;
    }
    None
}

/// Lexicographic order on byte strings: a proper prefix comes first, otherwise
/// the first differing byte decides. This is the order of `str` and `String`.
pub open spec fn lex_lt(a: Seq<u8>, b: Seq<u8>) -> bool
    decreases a.len(),
{
    if a.len() == 0 {
        b.len() > 0
    } else if b.len() == 0 {
        false
    } else if a[0] != b[0] {
        a[0] < b[0]
    } else {
        lex_lt(a.drop_first(), b.drop_first())
    }
}

/// No byte string comes before itself.
pub proof fn lemma_lex_irreflexive(a: Seq<u8>)
    ensures
        !lex_lt(a, a),
    decreases a.len(),
{
    if a.len() > 0 {
        lemma_lex_irreflexive(a.drop_first());
    }
}

/// The lexicographic order is transitive.
pub proof fn lemma_lex_transitive(a: Seq<u8>, b: Seq<u8>, c: Seq<u8>)
    requires
        lex_lt(a, b),
        lex_lt(b, c),
    ensures
        lex_lt(a, c),
    decreases a.len(),
{
    if a.len() > 0 && b.len() > 0 && c.len() > 0 && a[0] == b[0] && b[0] == c[0] {
        lemma_lex_transitive(a.drop_first(), b.drop_first(), c.drop_first());
    }
}

/// Two different byte strings are ordered one way or the other.
pub proof fn lemma_lex_total(a: Seq<u8>, b: Seq<u8>)
    requires
        a != b,
    ensures
        lex_lt(a, b) || lex_lt(b, a),
    decreases a.len(),
{
    if a.len() == 0 {
        assert(b.len() > 0) by {
            if b.len() == 0 {
                assert(a =~= b);
            }
        }
    } else if b.len() > 0 && a[0] == b[0] {
        if a.drop_first() == b.drop_first() {
            assert(a =~= seq![a[0]] + a.drop_first());
            assert(b =~= seq![b[0]] + b.drop_first());
        }
        lemma_lex_total(a.drop_first(), b.drop_first());
    }
}

/// Whether `a` comes before `b` in byte order.
pub fn bytes_lt(a: &[u8], b: &[u8]) -> (r: bool)
    ensures
        r == lex_lt(a@, b@),
{
    let mut i: usize = 0;
    assert(a@.subrange(0, a@.len() as int) =~= a@);
    assert(b@.subrange(0, b@.len() as int) =~= b@);
    while i < a.len() && i < b.len() && a[i] == b[i]
        invariant
            0 <= i <= a@.len(),
            i <= b@.len(),
            lex_lt(a@, b@) == lex_lt(a@.subrange(i as int, a@.len() as int), b@.subrange(i as int, b@.len() as int)),
        decreases a@.len() - i,
    {
        let ghost sa = a@.subrange(i as int, a@.len() as int);
        let ghost sb = b@.subrange(i as int, b@.len() as int);
        assert(sa.drop_first() =~= a@.subrange(i + 1, a@.len() as int));
        assert(sb.drop_first() =~= b@.subrange(i + 1, b@.len() as int));
        i = i + 1;
    }
    let ghost sa = a@.subrange(i as int, a@.len() as int);
    let ghost sb = b@.subrange(i as int, b@.len() as int);
    if i == a.len() {
        i < b.len()
    } else if i == b.len() {
        false
    } else {
        assert(sa[0] == a@[i as int] && sb[0] == b@[i as int]);
        a[i] < b[i]
    }
}

/// Whether string `a` comes before string `b` (byte order of their UTF-8 forms).
pub fn str_lt(a: &str, b: &str) -> (r: bool)
    ensures
        r == lex_lt(utf8(a@), utf8(b@)),
{
    let x = a.as_bytes();
    let y = b.as_bytes();
    assert(x@ == utf8(a@));
    assert(y@ == utf8(b@));
    bytes_lt(x, y)
}

} // verus!
