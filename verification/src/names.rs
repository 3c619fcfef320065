//! A set of operator names.
use vstd::prelude::*;

use crate::text::str_eq;

verus! {

/// The character views of a vector of strings.
pub open spec fn views(v: Seq<String>) -> Seq<Seq<char>> {
    v.map_values(|s: String| s@)
}

/// No name occurs twice.
pub open spec fn distinct(v: Seq<Seq<char>>) -> bool {
    forall|i: int, j: int| 0 <= i < v.len() && 0 <= j < v.len() && i != j ==> v[i] != v[j]
}

/// A set of names, kept as a vector without repetitions.
pub struct NameSet {
    names: Vec<String>,
}

impl View for NameSet {
    type V = Set<Seq<char>>;

    closed spec fn view(&self) -> Set<Seq<char>> {
        views(self.names@).to_set()
    }
}

impl NameSet {
    #[verifier::type_invariant]
    closed spec fn inv(self) -> bool {
        distinct(views(self.names@))
    }

    /// The members in insertion order.
    pub closed spec fn members(self) -> Seq<Seq<char>> {
        views(self.names@)
    }

    pub fn new() -> (s: Self)
        ensures
            s@ == Set::<Seq<char>>::empty(),
            s.members() == Seq::<Seq<char>>::empty(),
    {
        let s = NameSet { names: Vec::new() };
        assert(views(s.names@) =~= Seq::<Seq<char>>::empty());
        s
    }

    /// Position of `name` among the members.
    fn position(&self, name: &str) -> (r: Option<usize>)
        ensures
            match r {
                Some(i) => i < self.names@.len() && self.names@[i as int]@ == name@,
                None => !views(self.names@).contains(name@),
            },
    {
        let mut i: usize = 0;
        while i < self.names.len()
            invariant
                0 <= i <= self.names@.len(),
                forall|j: int| 0 <= j < i ==> self.names@[j]@ != name@,
            decreases self.names@.len() - i,
        {
            if str_eq(self.names[i].as_str(), name) {
                return Some(i);
            }
            i = i + 1;
        }
        proof {
            if views(self.names@).contains(name@) {
                let k = choose|k: int| 0 <= k < views(self.names@).len() && views(self.names@)[k] == name@;
                assert(self.names@[k]@ == name@);
            }
        }
        None
    }

    pub fn contains(&self, name: &str) -> (r: bool)
        ensures
            r == self@.contains(name@),
    {
        let r = self.position(name);
        proof {
            if r is Some {
                let i = r->0 as int;
                assert(views(self.names@)[i] == name@);
            }
        }
        r.is_some()
    }

    /// Adds `name`; answers whether it was absent before.
    pub fn insert(&mut self, name: String) -> (r: bool)
        ensures
            final(self)@ == old(self)@.insert(name@),
            r == !old(self)@.contains(name@),
            final(self).members() == (if r { old(self).members().push(name@) } else { old(self).members() }),
    {
        proof {
            use_type_invariant(&*self);
        }
        if self.contains(name.as_str()) {
            assert(self@.insert(name@) =~= self@);
            return false;
        }
        let ghost pre = views(self.names@);
        let mut v: Vec<String> = Vec::new();
        std::mem::swap(&mut v, &mut self.names);
        v.push(name);
        proof {
            assert(views(v@) =~= pre.push(name@));
            assert forall|a: int, b: int| 0 <= a < views(v@).len() && 0 <= b < views(v@).len() && a != b
                implies views(v@)[a] != views(v@)[b] by {
                if b == pre.len() {
                    assert(pre.contains(pre[a]));
                } else if a == pre.len() {
                    assert(pre.contains(pre[b]));
                }
            }
        }
        self.names = v;
        proof {
            assert(views(self.names@) =~= pre.push(name@));
            assert(views(self.names@).to_set() =~= pre.to_set().insert(name@)) by {
                assert forall|k: Seq<char>| views(self.names@).contains(k) <==> pre.to_set().insert(name@).contains(k) by {
                    if views(self.names@).contains(k) {
                        let i = choose|i: int| 0 <= i < views(self.names@).len() && views(self.names@)[i] == k;
                        if i < pre.len() {
                            assert(pre[i] == k);
                        }
                    }
                    if pre.contains(k) {
                        let i = choose|i: int| 0 <= i < pre.len() && pre[i] == k;
                        assert(views(self.names@)[i] == k);
                    }
                    if k == name@ {
                        assert(views(self.names@)[pre.len() as int] == k);
                    }
                }
            }
        }
        true
    }

    /// Removes `name`; answers whether it was present.
    pub fn remove(&mut self, name: &str) -> (r: bool)
        ensures
            final(self)@ == old(self)@.remove(name@),
            r == old(self)@.contains(name@),
    {
        proof {
            use_type_invariant(&*self);
        }
        match self.position(name) {
            None => {
                assert(self@.remove(name@) =~= self@);
                false
            },
            Some(i) => {
                let ghost pre = views(self.names@);
                let mut v: Vec<String> = Vec::new();
                std::mem::swap(&mut v, &mut self.names);
                v.remove(i);
                proof {
                    assert(views(v@) =~= pre.remove(i as int));
                    assert forall|a: int, b: int| 0 <= a < views(v@).len() && 0 <= b < views(v@).len() && a != b
                        implies views(v@)[a] != views(v@)[b] by {
                        let a2 = if a < i { a } else { a + 1 };
                        let b2 = if b < i { b } else { b + 1 };
                        assert(views(v@)[a] == pre[a2]);
                        assert(views(v@)[b] == pre[b2]);
                    }
                }
                self.names = v;
                proof {
                    let post = views(self.names@);
                    assert(post =~= pre.remove(i as int));
                    assert(pre[i as int] == name@);
                    assert forall|k: Seq<char>| post.contains(k) <==> pre.to_set().remove(name@).contains(k) by {
                        if post.contains(k) {
                            let j = choose|j: int| 0 <= j < post.len() && post[j] == k;
                            if j < i {
                                assert(pre[j] == k);
                            } else {
                                assert(pre[j + 1] == k);
                            }
                        }
                        if pre.contains(k) && k != name@ {
                            let j = choose|j: int| 0 <= j < pre.len() && pre[j] == k;
                            if j < i {
                                assert(post[j] == k);
                            } else {
                                assert(post[j - 1] == k);
                            }
                        }
                    }
                    assert(post.to_set() =~= pre.to_set().remove(name@));
                    assert(pre.contains(name@));
                }
                true
            },
        }
    }

    /// The members, in insertion order.
    pub fn names(&self) -> (r: &Vec<String>)
        ensures
            views(r@) == self.members(),
            distinct(self.members()),
            views(r@).to_set() == self@,
    {
        proof {
            use_type_invariant(self);
        }
        &self.names
    }

    pub fn is_empty(&self) -> (r: bool)
        ensures
            r == (self@ == Set::<Seq<char>>::empty()),
    {
        proof {
            if self.names@.len() > 0 {
                assert(views(self.names@)[0] == self.names@[0]@);
                assert(views(self.names@).contains(self.names@[0]@));
                assert(self@.contains(self.names@[0]@));
            }
            if self.names@.len() == 0 {
                assert(self@ =~= Set::<Seq<char>>::empty());
            }
        }
        self.names.len() == 0
    }

    /// An independent set with the same members.
    pub fn duplicate(&self) -> (r: Self)
        ensures
            r@ == self@,
            r.members() == self.members(),
    {
        proof {
            use_type_invariant(self);
        }
        let names = self.names.clone();
        assert(views(names@) =~= views(self.names@));
        NameSet { names }
    }

    /// The set of the given names.
    pub fn from_names(names: &Vec<String>) -> (r: Self)
        ensures
            r@ == views(names@).to_set(),
    {
        let mut s = NameSet::new();
        let mut i: usize = 0;
        while i < names.len()
            invariant
                0 <= i <= names@.len(),
                s@ == views(names@.subrange(0, i as int)).to_set(),
            decreases names@.len() - i,
        {
            let ghost pre = s@;
            s.insert(names[i].clone());
            proof {
                let a = views(names@.subrange(0, i as int));
                let b = views(names@.subrange(0, i + 1));
                assert(b =~= a.push(names@[i as int]@));
                assert forall|k: Seq<char>| b.contains(k) <==> a.to_set().insert(names@[i as int]@).contains(k) by {
                    if b.contains(k) {
                        let j = choose|j: int| 0 <= j < b.len() && b[j] == k;
                        if j < a.len() {
                            assert(a[j] == k);
                        }
                    }
                    if a.contains(k) {
                        let j = choose|j: int| 0 <= j < a.len() && a[j] == k;
                        assert(b[j] == k);
                    }
                    if k == names@[i as int]@ {
                        assert(b[a.len() as int] == k);
                    }
                }
                assert(b.to_set() =~= a.to_set().insert(names@[i as int]@));
            }
            i = i + 1;
        }
        assert(names@.subrange(0, names@.len() as int) =~= names@);
        s
    }
}

} // verus!
