//! Nearest-name lookup, used to annotate unknown items with suggestions.

use crate::strings::{lex_lt, SortedNames};
use vstd::prelude::*;

verus! {

/// Suggestions farther than this many edits are not worth offering.
pub const MAX_SUGGEST_DIST: usize = 2;

/// What `edit_distance::edit_distance` returns for two strings: their
/// Levenshtein distance, a function of the two character sequences alone.
pub uninterp spec fn edit_dist(a: Seq<char>, b: Seq<char>) -> usize;

/// Relies on `edit_distance::edit_distance`: the Levenshtein distance
/// between the two strings, which depends on their characters alone.
#[verifier::external_body]
fn edit_distance_of(a: &str, b: &str) -> (r: usize)
    ensures
        r == edit_dist(a@, b@),
{
    edit_distance::edit_distance(a, b)
}

/// A known name with its distance from the queried one.
pub struct Candidate {
    pub name: String,
    pub dist: usize,
}

/// Candidate order: smaller distance first, then name order.
pub open spec fn key_lt(d1: usize, n1: Seq<char>, d2: usize, n2: Seq<char>) -> bool {
    d1 < d2 || (d1 == d2 && lex_lt(n1, n2))
}

/// A set of known names with nearest-match lookup.
pub struct NameSet {
    names: SortedNames,
}

impl NameSet {
    /// The known names.
    pub closed spec fn view(&self) -> Seq<Seq<char>> {
        self.names.view()
    }

    /// The set keeps its names sorted and duplicate-free.
    pub closed spec fn wf(&self) -> bool {
        self.names.wf()
    }

    /// An empty set.
    pub fn new() -> (r: NameSet)
        ensures
            r.wf(),
            r.view() =~= Seq::<Seq<char>>::empty(),
    {
        NameSet { names: SortedNames::new() }
    }

    /// Adds names to the set; duplicates collapse.
    pub fn add_names(&mut self, names: Vec<String>)
        requires
            old(self).wf(),
        ensures
            final(self).wf(),
            forall|m: Seq<char>|
                #[trigger] final(self).view().contains(m) == (old(self).view().contains(m)
                    || names@.map_values(|s: String| s@).contains(m)),
    {
        let ghost all = names@.map_values(|s: String| s@);
        let n = names.len();
        let mut i: usize = 0;
        while i < n
            invariant
                i <= n,
                n == names@.len(),
                all == names@.map_values(|s: String| s@),
                self.names.wf(),
                forall|m: Seq<char>|
                    #[trigger] self.names.view().contains(m) == (old(self).view().contains(m)
                        || all.subrange(0, i as int).contains(m)),
            decreases n - i,
        {
            self.names.insert(names[i].clone());
            proof {
                let prefix = all.subrange(0, i as int);
                let prefix2 = all.subrange(0, i + 1 as int);
                assert(prefix2 =~= prefix.push(all[i as int]));
                assert forall|m: Seq<char>| #[trigger]
                    prefix2.contains(m) == (prefix.contains(m) || m == all[i as int]) by {
                    if prefix2.contains(m) {
                        let k = choose|k: int| 0 <= k < prefix2.len() && prefix2[k] == m;
                        if k < i {
                            assert(prefix[k] == m);
                            assert(prefix.contains(m));
                        }
                    }
                    if prefix.contains(m) {
                        let k = choose|k: int| 0 <= k < prefix.len() && prefix[k] == m;
                        assert(prefix2[k] == m);
                        assert(prefix2.contains(m));
                    }
                    if m == all[i as int] {
                        assert(prefix2[i as int] == m);
                        assert(prefix2.contains(m));
                    }
                }
            }
            i = i + 1;
        }
        proof {
            assert(all.subrange(0, n as int) =~= all);
        }
    }

    /// Up to `n` nearest known names, by edit distance then name order,
    /// kept within [`MAX_SUGGEST_DIST`] edits of the query.
    ///
    /// The result lists every close-enough name in candidate order, unless
    /// the bound cuts it off; whatever is cut off sits after everything
    /// returned, so the result is exactly the first `n` of the full ranking.
    #[verifier::rlimit(100)]
    pub fn find_nearest(&self, name: &str, n: usize) -> (r: Vec<Candidate>)
        requires
            self.wf(),
        ensures
            r@.len() <= n,
            forall|p: int|
                0 <= p < r@.len() ==> {
                    &&& self.view().contains((#[trigger] r@[p]).name@)
                    &&& r@[p].dist == edit_dist(name@, r@[p].name@)
                    &&& r@[p].dist <= MAX_SUGGEST_DIST
                },
            forall|p: int, q: int|
                0 <= p < q < r@.len() ==> key_lt(
                    (#[trigger] r@[p]).dist,
                    r@[p].name@,
                    (#[trigger] r@[q]).dist,
                    r@[q].name@,
                ),
            forall|k: int|
                0 <= k < self.view().len() && edit_dist(name@, #[trigger] self.view()[k])
                    <= MAX_SUGGEST_DIST ==> ((exists|p: int|
                    0 <= p < r@.len() && (#[trigger] r@[p]).name@ == self.view()[k]) || (r@.len()
                    == n && forall|p: int|
                    0 <= p < r@.len() ==> key_lt(
                        (#[trigger] r@[p]).dist,
                        r@[p].name@,
                        edit_dist(name@, self.view()[k]),
                        self.view()[k],
                    ))),
    {
        let ghost v = self.view();
        let total = self.names.len();
        let mut out: Vec<Candidate> = Vec::new();
        let mut d: usize = 0;
        while d <= MAX_SUGGEST_DIST
            invariant
                d <= MAX_SUGGEST_DIST + 1,
                total == v.len(),
                v == self.view(),
                self.wf(),
                out@.len() <= n,
                entries_ok(out@, v, name@, d as int, 0),
                sorted_ok(out@),
                forall|k: int|
                    0 <= k < v.len() && edit_dist(name@, #[trigger] v[k]) < d ==> covered(
                        out@,
                        v[k],
                    ),
            decreases MAX_SUGGEST_DIST + 1 - d,
        {
            let mut i: usize = 0;
            while i < total
                invariant
                    i <= total,
                    d <= MAX_SUGGEST_DIST,
                    total == v.len(),
                    v == self.view(),
                    self.wf(),
                    out@.len() <= n,
                    entries_ok(out@, v, name@, d as int, i as int),
                    sorted_ok(out@),
                    forall|k: int|
                        0 <= k < v.len() && edit_dist(name@, #[trigger] v[k]) < d ==> covered(
                            out@,
                            v[k],
                        ),
                    forall|k: int|
                        0 <= k < i && edit_dist(name@, #[trigger] v[k]) == d ==> covered(
                            out@,
                            v[k],
                        ),
                decreases total - i,
            {
                let cand_name = self.names.get(i);
                let dist = edit_distance_of(name, cand_name.as_str());
                if dist == d {
                    if out.len() >= n {
                        proof {
                            lemma_cut_off(v, out@, name@, d as int, i as int);
                        }
                        return out;
                    }
                    let ghost pre = out@;
                    out.push(Candidate { name: cand_name.clone(), dist });
                    proof {
                        lemma_push_keeps(pre, out@, v, name@, d as int, i as int);
                    }
                }
                i = i + 1;
            }
            d = d + 1;
        }
        proof {
            assert forall|k: int|
                0 <= k < v.len() && edit_dist(name@, #[trigger] v[k])
                    <= MAX_SUGGEST_DIST implies covered(out@, v[k]) by {
                assert(edit_dist(name@, v[k]) < MAX_SUGGEST_DIST + 1);
            }
        }
        out
    }

    /// The names of [`Self::find_nearest`], without the distances.
    pub fn find_nearest_names(&self, name: &str, n: usize) -> (r: Vec<String>)
        requires
            self.wf(),
        ensures
            r@.len() <= n,
            forall|p: int|
                0 <= p < r@.len() ==> self.view().contains(#[trigger] r@[p]@) && edit_dist(
                    name@,
                    r@[p]@,
                ) <= MAX_SUGGEST_DIST,
            forall|p: int, q: int|
                0 <= p < q < r@.len() ==> key_lt(
                    edit_dist(name@, #[trigger] r@[p]@),
                    r@[p]@,
                    edit_dist(name@, #[trigger] r@[q]@),
                    r@[q]@,
                ),
            forall|m: Seq<char>|
                #[trigger] self.view().contains(m) && edit_dist(name@, m) <= MAX_SUGGEST_DIST
                    ==> ((exists|p: int| 0 <= p < r@.len() && #[trigger] r@[p]@ == m) || (r@.len()
                    == n && forall|p: int|
                    0 <= p < r@.len() ==> key_lt(
                        edit_dist(name@, #[trigger] r@[p]@),
                        r@[p]@,
                        edit_dist(name@, m),
                        m,
                    ))),
    {
        let cands = self.find_nearest(name, n);
        let m = cands.len();
        let mut out: Vec<String> = Vec::new();
        let mut i: usize = 0;
        while i < m
            invariant
                i <= m,
                m == cands@.len(),
                out@.len() == i,
                forall|p: int|
                    0 <= p < cands@.len() ==> {
                        &&& self.view().contains((#[trigger] cands@[p]).name@)
                        &&& cands@[p].dist == edit_dist(name@, cands@[p].name@)
                        &&& cands@[p].dist <= MAX_SUGGEST_DIST
                    },
                forall|j: int| 0 <= j < i ==> #[trigger] out@[j]@ == cands@[j].name@,
            decreases m - i,
        {
            out.push(cands[i].name.clone());
            i = i + 1;
        }
        proof {
            assert forall|p: int, q: int| 0 <= p < q < out@.len() implies key_lt(
                edit_dist(name@, #[trigger] out@[p]@),
                out@[p]@,
                edit_dist(name@, #[trigger] out@[q]@),
                out@[q]@,
            ) by {
                assert(key_lt(cands@[p].dist, cands@[p].name@, cands@[q].dist, cands@[q].name@));
            }
            assert forall|m2: Seq<char>|
                #[trigger] self.view().contains(m2) && edit_dist(name@, m2)
                    <= MAX_SUGGEST_DIST implies ((exists|p: int|
                0 <= p < out@.len() && #[trigger] out@[p]@ == m2) || (out@.len() == n && forall|
                p: int,
            |
                0 <= p < out@.len() ==> key_lt(
                    edit_dist(name@, #[trigger] out@[p]@),
                    out@[p]@,
                    edit_dist(name@, m2),
                    m2,
                ))) by {
                let k = choose|k: int| 0 <= k < self.view().len() && self.view()[k] == m2;
                assert(edit_dist(name@, self.view()[k]) <= MAX_SUGGEST_DIST);
                if exists|p: int| 0 <= p < cands@.len() && (#[trigger] cands@[p]).name@ == m2 {
                    let p = choose|p: int|
                        0 <= p < cands@.len() && (#[trigger] cands@[p]).name@ == m2;
                    assert(out@[p]@ == m2);
                } else {
                    assert(cands@.len() == n);
                    assert forall|p: int| 0 <= p < out@.len() implies key_lt(
                        edit_dist(name@, #[trigger] out@[p]@),
                        out@[p]@,
                        edit_dist(name@, m2),
                        m2,
                    ) by {
                        assert(key_lt(cands@[p].dist, cands@[p].name@, edit_dist(name@, m2), m2));
                    }
                }
            }
        }
        out
    }
}

/// What a suggestion list for an unknown name must look like: up to three
/// known result names within the edit-distance bound, ranked by distance
/// then name, complete unless the cap of three cut the ranking off.
pub open spec fn suggestions_ok(rs: Seq<crate::recipe::Recipe>, name: Seq<char>, r: Seq<String>) -> bool {
    &&& r.len() <= 3
    &&& forall|p: int|
        0 <= p < r.len() ==> crate::recipe::result_names(rs).contains(#[trigger] r[p]@)
            && edit_dist(name, r[p]@) <= MAX_SUGGEST_DIST
    &&& forall|p: int, q: int|
        0 <= p < q < r.len() ==> key_lt(
            edit_dist(name, #[trigger] r[p]@),
            r[p]@,
            edit_dist(name, #[trigger] r[q]@),
            r[q]@,
        )
    &&& forall|m: Seq<char>|
        #[trigger] crate::recipe::result_names(rs).contains(m) && edit_dist(name, m)
            <= MAX_SUGGEST_DIST ==> ((exists|p: int| 0 <= p < r.len() && #[trigger] r[p]@ == m) || (
        r.len() == 3 && forall|p: int|
            0 <= p < r.len() ==> key_lt(
                edit_dist(name, #[trigger] r[p]@),
                r[p]@,
                edit_dist(name, m),
                m,
            )))
}

impl crate::recipe::RecipeSet {
    /// Up to three result names near the given one, to suggest on a miss.
    pub fn find_did_you_mean(&self, name: &str) -> (r: Vec<String>)
        ensures
            suggestions_ok(self.spec_recipes(), name@, r@),
    {
        let results = self.all_results();
        let ghost result_name_list = results@.map_values(|s: String| s@);
        let mut name_set = NameSet::new();
        name_set.add_names(results);
        proof {
            assert forall|m: Seq<char>|
                #[trigger] name_set.view().contains(m) == crate::recipe::result_names(
                    self.spec_recipes(),
                ).contains(m) by {
                assert(name_set.view().contains(m) == result_name_list.contains(m));
            }
        }
        let r = name_set.find_nearest_names(name, 3);
        proof {
            assert forall|m: Seq<char>|
                #[trigger] crate::recipe::result_names(self.spec_recipes()).contains(m)
                    && edit_dist(name@, m) <= MAX_SUGGEST_DIST implies ((exists|p: int|
                0 <= p < r@.len() && #[trigger] r@[p]@ == m) || (r@.len() == 3 && forall|p: int|
                0 <= p < r@.len() ==> key_lt(
                    edit_dist(name@, #[trigger] r@[p]@),
                    r@[p]@,
                    edit_dist(name@, m),
                    m,
                ))) by {
                assert(name_set.view().contains(m));
            }
        }
        r
    }
}

/// Every listed candidate is a real name at the right distance; candidates
/// at the current distance come from the scanned prefix.
pub open spec fn entries_ok(
    out: Seq<Candidate>,
    v: Seq<Seq<char>>,
    name: Seq<char>,
    d: int,
    i: int,
) -> bool {
    forall|p: int|
        0 <= p < out.len() ==> {
            &&& v.contains((#[trigger] out[p]).name@)
            &&& out[p].dist == edit_dist(name, out[p].name@)
            &&& (out[p].dist < d || (out[p].dist == d && exists|k: int|
                0 <= k < i && v[k] == out[p].name@))
        }
}

/// The candidates sit in strictly increasing key order.
pub open spec fn sorted_ok(out: Seq<Candidate>) -> bool {
    forall|p: int, q: int|
        0 <= p < q < out.len() ==> key_lt(
            (#[trigger] out[p]).dist,
            out[p].name@,
            (#[trigger] out[q]).dist,
            out[q].name@,
        )
}

/// The name is already listed.
pub open spec fn covered(out: Seq<Candidate>, m: Seq<char>) -> bool {
    exists|p: int| 0 <= p < out.len() && (#[trigger] out[p]).name@ == m
}

/// Appending the next name in scan order keeps every running fact.
proof fn lemma_push_keeps(
    pre: Seq<Candidate>,
    post: Seq<Candidate>,
    v: Seq<Seq<char>>,
    name: Seq<char>,
    d: int,
    i: int,
)
    requires
        forall|a: int, b: int|
            0 <= a < b < v.len() ==> lex_lt(#[trigger] v[a], #[trigger] v[b]),
        0 <= i < v.len(),
        0 <= d,
        edit_dist(name, v[i]) == d,
        entries_ok(pre, v, name, d, i),
        sorted_ok(pre),
        post.len() == pre.len() + 1,
        forall|p: int| 0 <= p < pre.len() ==> #[trigger] post[p] == pre[p],
        post.last().name@ == v[i],
        post.last().dist == d,
    ensures
        entries_ok(post, v, name, d, i + 1),
        sorted_ok(post),
        forall|k: int|
            0 <= k < i + 1 && edit_dist(name, #[trigger] v[k]) == d && covered(pre, v[k])
                ==> covered(post, v[k]),
        covered(post, v[i]),
        forall|m: Seq<char>| covered(pre, m) ==> covered(post, m),
{
    let ni = pre.len() as int;
    assert(post[ni].name@ == v[i]);
    assert(covered(post, v[i]));
    assert forall|m: Seq<char>| covered(pre, m) implies covered(post, m) by {
        let p = choose|p: int| 0 <= p < pre.len() && (#[trigger] pre[p]).name@ == m;
        assert(post[p].name@ == m);
    }
    assert forall|p: int| 0 <= p < post.len() implies {
        &&& v.contains((#[trigger] post[p]).name@)
        &&& post[p].dist == edit_dist(name, post[p].name@)
        &&& (post[p].dist < d || (post[p].dist == d && exists|k: int|
            0 <= k < i + 1 && v[k] == post[p].name@))
    } by {
        if p < ni {
            assert(pre[p] == post[p]);
            if pre[p].dist == d {
                let k = choose|k: int| 0 <= k < i && v[k] == pre[p].name@;
                assert(0 <= k < i + 1 && v[k] == post[p].name@);
            }
        } else {
            assert(v[i] == post[p].name@);
            assert(v.contains(post[p].name@));
            assert(0 <= i < i + 1 && v[i] == post[p].name@);
        }
    }
    assert forall|p: int, q: int| 0 <= p < q < post.len() implies key_lt(
        (#[trigger] post[p]).dist,
        post[p].name@,
        (#[trigger] post[q]).dist,
        post[q].name@,
    ) by {
        if q == ni {
            let e = post[p];
            assert(pre[p] == e);
            if e.dist == d {
                let k = choose|k: int| 0 <= k < i && v[k] == e.name@;
                assert(lex_lt(v[k], v[i]));
            }
        }
    }
}

/// When the bound stops the scan, everything close enough but not yet
/// listed ranks after everything listed.
proof fn lemma_cut_off(v: Seq<Seq<char>>, out: Seq<Candidate>, name: Seq<char>, d: int, i: int)
    requires
        forall|a: int, b: int|
            0 <= a < b < v.len() ==> lex_lt(#[trigger] v[a], #[trigger] v[b]),
        0 <= d,
        0 <= i < v.len(),
        edit_dist(name, v[i]) == d,
        entries_ok(out, v, name, d, i),
        forall|k: int|
            0 <= k < v.len() && edit_dist(name, #[trigger] v[k]) < d ==> covered(out, v[k]),
        forall|k: int|
            0 <= k < i && edit_dist(name, #[trigger] v[k]) == d ==> covered(out, v[k]),
    ensures
        forall|k: int|
            0 <= k < v.len() && edit_dist(name, #[trigger] v[k]) <= MAX_SUGGEST_DIST && !covered(
                out,
                v[k],
            ) ==> forall|p: int|
                0 <= p < out.len() ==> key_lt(
                    (#[trigger] out[p]).dist,
                    out[p].name@,
                    edit_dist(name, v[k]),
                    v[k],
                ),
{
    assert forall|k: int|
        0 <= k < v.len() && edit_dist(name, #[trigger] v[k]) <= MAX_SUGGEST_DIST && !covered(
            out,
            v[k],
        ) implies forall|p: int|
        0 <= p < out.len() ==> key_lt(
            (#[trigger] out[p]).dist,
            out[p].name@,
            edit_dist(name, v[k]),
            v[k],
        ) by {
        let dm = edit_dist(name, v[k]);
        assert(dm >= d);
        if dm == d {
            assert(k >= i);
        }
        assert forall|p: int| 0 <= p < out.len() implies key_lt(
            (#[trigger] out[p]).dist,
            out[p].name@,
            dm,
            v[k],
        ) by {
            if out[p].dist == d && dm == d {
                let kk = choose|kk: int| 0 <= kk < i && v[kk] == out[p].name@;
                assert(lex_lt(v[kk], v[k]));
            }
        }
    }
}

} // verus!
