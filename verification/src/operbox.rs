//! The operators a player owns, with their elite levels.
use vstd::prelude::*;

use crate::names::NameSet;
use crate::text::str_eq;

verus! {

/// One owned operator.
pub struct OwnedOperator {
    pub name: String,
    pub elite: u8,
}

/// The player's box of operators.
pub struct OperBox {
    pub operators: Vec<OwnedOperator>,
}

/// Index of the first owned operator named `name`, searching from `from`.
pub open spec fn owned_index(ops: Seq<OwnedOperator>, name: Seq<char>, from: int) -> Option<int>
    decreases ops.len() - from,
{
    if from < 0 || from >= ops.len() {
        None
    } else if ops[from].name@ == name {
        Some(from)
    } else {
        owned_index(ops, name, from + 1)
    }
}

/// Elite level of the owned operator `name`; none when it is not owned.
pub open spec fn owned_elite(ops: Seq<OwnedOperator>, name: Seq<char>) -> Option<u8> {
    match owned_index(ops, name, 0) {
        Some(i) => Some(ops[i].elite),
        None => None,
    }
}

impl OperBox {
    /// Elite level of `name`, if the player owns that operator.
    pub fn elite_of(&self, name: &str) -> (r: Option<u8>)
        ensures
            r == owned_elite(self.operators@, name@),
    {
        let mut i: usize = 0;
        while i < self.operators.len()
            invariant
                0 <= i <= self.operators@.len(),
                owned_index(self.operators@, name@, 0) == owned_index(self.operators@, name@, i as int),
            decreases self.operators@.len() - i,
        {
            if str_eq(self.operators[i].name.as_str(), name) {
                return Some(self.operators[i].elite);
            }
            i = i + 1;
        }
        None
    }
}

impl OperBox {
    /// The box without the operators in `names` (order kept).
    pub fn excluding(&self, names: &NameSet) -> (r: OperBox)
        ensures
            r.operators@.map_values(|o: OwnedOperator| (o.name@, o.elite)) == self.operators@.map_values(
                |o: OwnedOperator| (o.name@, o.elite),
            ).filter(|v: (Seq<char>, u8)| !names@.contains(v.0)),
    {
        let ghost all = self.operators@.map_values(|o: OwnedOperator| (o.name@, o.elite));
        let ghost keep = |v: (Seq<char>, u8)| !names@.contains(v.0);
        let mut out: Vec<OwnedOperator> = Vec::new();
        let mut i: usize = 0;
        assert(out@.map_values(|o: OwnedOperator| (o.name@, o.elite)) =~= all.subrange(0, 0).filter(keep));
        while i < self.operators.len()
            invariant
                0 <= i <= self.operators@.len(),
                all == self.operators@.map_values(|o: OwnedOperator| (o.name@, o.elite)),
                keep == (|v: (Seq<char>, u8)| !names@.contains(v.0)),
                out@.map_values(|o: OwnedOperator| (o.name@, o.elite)) == all.subrange(0, i as int).filter(keep),
            decreases self.operators@.len() - i,
        {
            let ghost pre = out@.map_values(|o: OwnedOperator| (o.name@, o.elite));
            let ghost sub = all.subrange(0, i as int);
            if !names.contains(self.operators[i].name.as_str()) {
                out.push(OwnedOperator { name: self.operators[i].name.clone(), elite: self.operators[i].elite });
            }
            proof {
                let sub2 = all.subrange(0, i + 1);
                assert(sub2.drop_last() =~= sub);
                reveal(Seq::filter);
                if keep(sub2.last()) {
                    assert(out@.map_values(|o: OwnedOperator| (o.name@, o.elite)) =~= pre.push(sub2.last()));
                } else {
                    assert(out@.map_values(|o: OwnedOperator| (o.name@, o.elite)) =~= pre);
                }
            }
            i = i + 1;
        }
        assert(all.subrange(0, all.len() as int) =~= all);
        OperBox { operators: out }
    }
}

} // verus!
