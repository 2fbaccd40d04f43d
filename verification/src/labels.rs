//! Labels and the addresses they stand for: later definitions of a name
//! replace earlier ones.
use vstd::prelude::*;

use crate::text::text_eq;

verus! {

/// What the entries, read from the last back, give for `name`.
pub open spec fn lookup_in(entries: Seq<(Vec<char>, usize)>, name: Seq<char>) -> Option<usize>
    decreases entries.len(),
{
    if entries.len() == 0 {
        None
    } else if entries.last().0@ == name {
        Some(entries.last().1)
    } else {
        lookup_in(entries.drop_last(), name)
    }
}

pub struct LabelTable {
    pub entries: Vec<(Vec<char>, usize)>,
}

impl View for LabelTable {
    type V = Map<Seq<char>, usize>;

    open spec fn view(&self) -> Map<Seq<char>, usize> {
        Map::new(
            |k: Seq<char>| lookup_in(self.entries@, k) is Some,
            |k: Seq<char>| lookup_in(self.entries@, k).unwrap(),
        )
    }
}

impl LabelTable {
    /// No labels.
    pub fn new() -> (r: Self)
        ensures
            r@ == Map::<Seq<char>, usize>::empty(),
    {
        let r = LabelTable { entries: Vec::new() };
        proof {
            assert(r@ =~= Map::<Seq<char>, usize>::empty());
        }
        r
    }

    /// Binds `name` to `value`, replacing an earlier binding.
    pub fn insert(&mut self, name: Vec<char>, value: usize)
        ensures
            final(self)@ == old(self)@.insert(name@, value),
    {
        let ghost key = name@;
        self.entries.push((name, value));
        proof {
            assert forall|k: Seq<char>| #[trigger] lookup_in(final(self).entries@, k) == (if k
                == key {
                Some(value)
            } else {
                lookup_in(old(self).entries@, k)
            }) by {
                assert(final(self).entries@.drop_last() =~= old(self).entries@);
            }
            assert(final(self)@ =~= old(self)@.insert(key, value));
        }
    }

    /// The address bound to `name`.
    pub fn get(&self, name: &[char]) -> (r: Option<usize>)
        ensures
            r == (if self@.contains_key(name@) {
                Some(self@[name@])
            } else {
                None
            }),
    {
        let mut j: usize = self.entries.len();
        proof {
            assert(self.entries@.take(j as int) =~= self.entries@);
        }
        while j > 0
            invariant
                j <= self.entries@.len(),
                lookup_in(self.entries@, name@) == lookup_in(self.entries@.take(j as int), name@),
            decreases j,
        {
            proof {
                assert(self.entries@.take(j as int).drop_last() =~= self.entries@.take(j - 1));
            }
            if text_eq(self.entries[j - 1].0.as_slice(), name) {
                return Some(self.entries[j - 1].1);
            }
            j = j - 1;
        }
        None
    }
}

} // verus!
