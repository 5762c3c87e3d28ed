//! Named sets of raw-source items, picked by name on the command line.

use crate::near_name::{edit_dist, key_lt, NameSet, MAX_SUGGEST_DIST};
use crate::strings::str_eq;
use vstd::prelude::*;

verus! {

/// A request for a source set that does not exist, with near names.
#[derive(Debug)]
pub struct UnknownSet {
    pub name: String,
    pub candidates: Vec<String>,
}

/// The named raw-source sets.
pub struct SourceSets {
    names: Vec<String>,
    sets: Vec<Vec<String>>,
}

impl SourceSets {
    /// The set names, in order.
    pub closed spec fn spec_names(&self) -> Seq<Seq<char>> {
        self.names@.map_values(|s: String| s@)
    }

    /// The sets, in the same order as their names.
    pub closed spec fn spec_sets(&self) -> Seq<Seq<Seq<char>>> {
        self.sets@.map_values(|v: Vec<String>| v@.map_values(|s: String| s@))
    }

    /// Both lists pair up.
    pub open spec fn wf(&self) -> bool {
        self.spec_names().len() == self.spec_sets().len()
    }

    /// Builds the collection from paired names and sets.
    pub fn from_pairs(names: Vec<String>, sets: Vec<Vec<String>>) -> (r: Option<SourceSets>)
        ensures
            match r {
                Some(ss) => {
                    &&& ss.wf()
                    &&& ss.spec_names() == names@.map_values(|s: String| s@)
                    &&& ss.spec_sets() == sets@.map_values(
                        |v: Vec<String>| v@.map_values(|s: String| s@),
                    )
                },
                None => names@.len() != sets@.len(),
            },
    {
        if names.len() != sets.len() {
            return None;
        }
        Some(SourceSets { names, sets })
    }

    /// The set stored under a name, or the near names of an unknown one.
    pub fn get(&self, name: &str) -> (r: Result<&Vec<String>, UnknownSet>)
        requires
            self.wf(),
        ensures
            match r {
                Ok(v) => exists|i: int|
                    0 <= i < self.spec_names().len() && #[trigger] self.spec_names()[i] == name@
                        && v@.map_values(|s: String| s@) == self.spec_sets()[i],
                Err(e) => {
                    &&& !self.spec_names().contains(name@)
                    &&& e.name@ == name@
                    &&& forall|p: int|
                        0 <= p < e.candidates@.len() ==> self.spec_names().contains(
                            #[trigger] e.candidates@[p]@,
                        ) && edit_dist(name@, e.candidates@[p]@) <= MAX_SUGGEST_DIST
                    &&& forall|p: int, q: int|
                        0 <= p < q < e.candidates@.len() ==> key_lt(
                            edit_dist(name@, #[trigger] e.candidates@[p]@),
                            e.candidates@[p]@,
                            edit_dist(name@, #[trigger] e.candidates@[q]@),
                            e.candidates@[q]@,
                        )
                    &&& forall|m: Seq<char>|
                        #[trigger] self.spec_names().contains(m) && edit_dist(name@, m)
                            <= MAX_SUGGEST_DIST ==> ((exists|p: int|
                            0 <= p < e.candidates@.len() && #[trigger] e.candidates@[p]@ == m) || (
                        e.candidates@.len() == 3 && forall|p: int|
                            0 <= p < e.candidates@.len() ==> key_lt(
                                edit_dist(name@, #[trigger] e.candidates@[p]@),
                                e.candidates@[p]@,
                                edit_dist(name@, m),
                                m,
                            )))
                },
            },
    {
        let n = self.names.len();
        let mut i: usize = 0;
        while i < n
            invariant
                i <= n,
                n == self.spec_names().len(),
                self.wf(),
                forall|j: int| 0 <= j < i ==> #[trigger] self.spec_names()[j] != name@,
            decreases n - i,
        {
            if str_eq(self.names[i].as_str(), name) {
                assert(self.spec_names()[i as int] == name@);
                return Ok(&self.sets[i]);
            }
            i = i + 1;
        }
        proof {
            if self.spec_names().contains(name@) {
                let k = choose|k: int|
                    0 <= k < self.spec_names().len() && self.spec_names()[k] == name@;
            }
        }
        let mut name_set = NameSet::new();
        name_set.add_names(crate::strings::clone_names(&self.names));
        let candidates = name_set.find_nearest_names(name, 3);
        proof {
            assert forall|p: int|
                0 <= p < candidates@.len() implies self.spec_names().contains(
                #[trigger] candidates@[p]@,
            ) && edit_dist(name@, candidates@[p]@) <= MAX_SUGGEST_DIST by {
                assert(name_set.view().contains(candidates@[p]@));
            }
            assert forall|m: Seq<char>|
                #[trigger] self.spec_names().contains(m) && edit_dist(name@, m)
                    <= MAX_SUGGEST_DIST implies ((exists|p: int|
                0 <= p < candidates@.len() && #[trigger] candidates@[p]@ == m) || (
            candidates@.len() == 3 && forall|p: int|
                0 <= p < candidates@.len() ==> key_lt(
                    edit_dist(name@, #[trigger] candidates@[p]@),
                    candidates@[p]@,
                    edit_dist(name@, m),
                    m,
                ))) by {
                assert(name_set.view().contains(m));
            }
        }
        Err(UnknownSet { name: name.to_owned(), candidates })
    }
}

} // verus!
