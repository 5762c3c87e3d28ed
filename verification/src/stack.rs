//! Stack sizes per item, for the stack-efficiency report.

use crate::strings::str_eq;
use vstd::prelude::*;

verus! {

/// The stored stack size under a name, if any; the first entry wins.
pub open spec fn dict_get(s: Seq<(String, u64)>, k: Seq<char>) -> Option<u64>
    decreases s.len(),
{
    if s.len() == 0 {
        Option::None
    } else if s[0].0@ == k {
        Option::Some(s[0].1)
    } else {
        dict_get(s.drop_first(), k)
    }
}

/// How many of each item one inventory slot holds.
pub struct StackDict {
    entries: Vec<(String, u64)>,
}

impl StackDict {
    /// The stored pairs, in order.
    pub closed spec fn view(&self) -> Seq<(String, u64)> {
        self.entries@
    }

    /// A dictionary from name-size pairs.
    pub fn from_pairs(entries: Vec<(String, u64)>) -> (r: StackDict)
        ensures
            r.view() == entries@,
    {
        StackDict { entries }
    }

    /// The stack size stored for an item, if any.
    pub fn get(&self, name: &str) -> (r: Option<u64>)
        ensures
            r == dict_get(self.view(), name@),
    {
        let n = self.entries.len();
        proof {
            assert(self.view().subrange(0, n as int) =~= self.view());
        }
        let mut i: usize = 0;
        while i < n
            invariant
                i <= n,
                n == self.view().len(),
                dict_get(self.view(), name@) == dict_get(
                    self.view().subrange(i as int, n as int),
                    name@,
                ),
            decreases n - i,
        {
            proof {
                let suffix = self.view().subrange(i as int, n as int);
                assert(suffix[0] == self.view()[i as int]);
                assert(suffix.drop_first() =~= self.view().subrange(i + 1 as int, n as int));
            }
            if str_eq(self.entries[i].0.as_str(), name) {
                return Some(self.entries[i].1);
            }
            i = i + 1;
        }
        proof {
            assert(self.view().subrange(n as int, n as int) =~= Seq::<(String, u64)>::empty());
        }
        None
    }

    /// Every stored item name, in order.
    pub fn names(&self) -> (r: Vec<String>)
        ensures
            r@.len() == self.view().len(),
            forall|i: int| 0 <= i < r@.len() ==> #[trigger] r@[i]@ == self.view()[i].0@,
    {
        let n = self.entries.len();
        let mut out: Vec<String> = Vec::new();
        let mut i: usize = 0;
        while i < n
            invariant
                i <= n,
                n == self.view().len(),
                out@.len() == i,
                forall|j: int| 0 <= j < i ==> #[trigger] out@[j]@ == self.view()[j].0@,
            decreases n - i,
        {
            out.push(self.entries[i].0.clone());
            i = i + 1;
        }
        out
    }
}

} // verus!
