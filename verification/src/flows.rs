//! Demands and the demand queue.
//!
//! A [`Flow`] is one (item, rate) demand.  [`ItemThroughputs`] accumulates
//! pending demands keyed by item name: a name appears at most once, adding
//! merges rates, and the entries stay sorted by name so the queue has one
//! canonical shape for one contents.

use crate::num::{sat64, sat_add};
use crate::strings::{lemma_lex_asym, lemma_lex_total, lemma_lex_trans, lex_lt, str_eq, str_lt};
use vstd::prelude::*;

verus! {

/// One (item, rate) demand; the rate is scaled by [`crate::SCALE`].
#[derive(Debug, PartialEq)]
pub struct Flow {
    pub name: String,
    pub throughput: u64,
}

impl Flow {
    /// An identical copy.
    pub fn duplicate(&self) -> (r: Flow)
        ensures
            r == *self,
    {
        Flow { name: self.name.clone(), throughput: self.throughput }
    }
}

/// The names of a demand list, in order.
pub open spec fn flow_names(s: Seq<Flow>) -> Seq<Seq<char>> {
    s.map_values(|f: Flow| f.name@)
}

/// The rate a demand list holds for an item, zero when absent.
pub open spec fn rate_of(s: Seq<Flow>, n: Seq<char>) -> u64
    decreases s.len(),
{
    if s.len() == 0 {
        0
    } else if s[0].name@ == n {
        s[0].throughput
    } else {
        rate_of(s.drop_first(), n)
    }
}

/// A demand list with strictly increasing names.
pub open spec fn flows_sorted(s: Seq<Flow>) -> bool {
    forall|i: int, j: int|
        0 <= i < j < s.len() ==> lex_lt(#[trigger] s[i].name@, #[trigger] s[j].name@)
}

/// A scan that stops at position `i` finds the stored rate.
proof fn lemma_rate_at(s: Seq<Flow>, n: Seq<char>, i: int)
    requires
        0 <= i < s.len(),
        s[i].name@ == n,
        forall|j: int| 0 <= j < i ==> s[j].name@ != n,
    ensures
        rate_of(s, n) == s[i].throughput,
        flow_names(s).contains(n),
    decreases i,
{
    assert(flow_names(s)[i] == n);
    if i == 0 {
    } else {
        assert(forall|j: int| 0 <= j < i - 1 ==> s.drop_first()[j].name@ != n);
        lemma_rate_at(s.drop_first(), n, i - 1);
    }
}

/// A scan that finds nothing means the item is absent with rate zero.
proof fn lemma_rate_absent(s: Seq<Flow>, n: Seq<char>)
    requires
        forall|j: int| 0 <= j < s.len() ==> s[j].name@ != n,
    ensures
        rate_of(s, n) == 0,
        !flow_names(s).contains(n),
    decreases s.len(),
{
    if s.len() > 0 {
        assert(forall|j: int| 0 <= j < s.len() - 1 ==> s.drop_first()[j].name@ != n);
        lemma_rate_absent(s.drop_first(), n);
    }
    if flow_names(s).contains(n) {
        let k = choose|k: int| 0 <= k < flow_names(s).len() && flow_names(s)[k] == n;
        assert(s[k].name@ == n);
    }
}

/// A mutable multiset of pending demands, keyed and sorted by item name.
pub struct ItemThroughputs {
    pub(crate) entries: Vec<Flow>,
}

impl ItemThroughputs {
    /// The entries, sorted by name.
    pub open(crate) spec fn view(&self) -> Seq<Flow> {
        self.entries@
    }

    /// The queue's shape: names strictly sorted, hence unique.
    pub open spec fn wf(&self) -> bool {
        flows_sorted(self.view())
    }

    /// The rate pending for an item.
    pub open spec fn spec_rate(&self, n: Seq<char>) -> u64 {
        rate_of(self.view(), n)
    }

    /// Whether any demand for the item is pending.
    pub open spec fn spec_has(&self, n: Seq<char>) -> bool {
        flow_names(self.view()).contains(n)
    }

    /// An empty queue.
    pub fn new() -> (r: ItemThroughputs)
        ensures
            r.wf(),
            r.view() =~= Seq::<Flow>::empty(),
    {
        ItemThroughputs { entries: Vec::new() }
    }

    /// How many items have pending demand.
    pub fn len(&self) -> (r: usize)
        ensures
            r == self.view().len(),
    {
        self.entries.len()
    }

    /// The entry at a position.
    pub fn get(&self, i: usize) -> (r: &Flow)
        requires
            i < self.view().len(),
        ensures
            *r == self.view()[i as int],
    {
        &self.entries[i]
    }

    /// The rate pending for an item, by name.
    pub fn rate(&self, name: &str) -> (r: u64)
        ensures
            r == self.spec_rate(name@),
    {
        let n = self.entries.len();
        let mut i: usize = 0;
        while i < n
            invariant
                i <= n,
                n == self.view().len(),
                forall|j: int| 0 <= j < i ==> (#[trigger] self.view()[j].name@) != name@,
            decreases n - i,
        {
            if str_eq(self.entries[i].name.as_str(), name) {
                proof {
                    lemma_rate_at(self.view(), name@, i as int);
                }
                return self.entries[i].throughput;
            }
            i = i + 1;
        }
        proof {
            lemma_rate_absent(self.view(), name@);
        }
        0
    }

    /// The first position whose name is not strictly before `name`.
    fn lower_bound(&self, name: &str) -> (i: usize)
        ensures
            i <= self.view().len(),
            forall|j: int| 0 <= j < i ==> lex_lt(#[trigger] self.view()[j].name@, name@),
            i < self.view().len() ==> !lex_lt(self.view()[i as int].name@, name@),
    {
        let n = self.entries.len();
        let mut i: usize = 0;
        while i < n
            invariant
                i <= n,
                n == self.view().len(),
                forall|j: int| 0 <= j < i ==> lex_lt(#[trigger] self.view()[j].name@, name@),
            decreases n - i,
        {
            if !str_lt(self.entries[i].name.as_str(), name) {
                return i;
            }
            i = i + 1;
        }
        i
    }

    /// An identical copy.
    pub fn duplicate(&self) -> (r: ItemThroughputs)
        ensures
            r.view() =~= self.view(),
            self.wf() ==> r.wf(),
    {
        let n = self.entries.len();
        let mut entries: Vec<Flow> = Vec::new();
        let mut i: usize = 0;
        while i < n
            invariant
                i <= n,
                n == self.entries@.len(),
                entries@.len() == i,
                forall|j: int| 0 <= j < i ==> #[trigger] entries@[j] == self.entries@[j],
            decreases n - i,
        {
            entries.push(self.entries[i].duplicate());
            i = i + 1;
        }
        ItemThroughputs { entries }
    }

    /// Adds a demand: a pending rate for the same item accumulates, with
    /// addition clamped at the `u64` range; other items are untouched.
    pub fn add(&mut self, flow: Flow)
        requires
            old(self).wf(),
        ensures
            final(self).wf(),
            forall|m: Seq<char>|
                final(self).spec_rate(m) == if m == flow.name@ {
                    sat64(old(self).spec_rate(m) + flow.throughput)
                } else {
                    old(self).spec_rate(m)
                },
            forall|m: Seq<char>|
                #[trigger] final(self).spec_has(m) == (old(self).spec_has(m) || m == flow.name@),
    {
        let ghost pre = self.view();
        let i = self.lower_bound(flow.name.as_str());
        if i < self.entries.len() && str_eq(
            self.entries[i].name.as_str(),
            flow.name.as_str(),
        ) {
            let merged = sat_add(self.entries[i].throughput, flow.throughput);
            let name = self.entries[i].name.clone();
            self.entries.set(i, Flow { name, throughput: merged });
            proof {
                let post = self.view();
                let ii = i as int;
                assert(post =~= pre.update(ii, post[ii]));
                assert(post[ii].name@ == pre[ii].name@);
                assert(flow_names(post) =~= flow_names(pre));
                assert forall|p: int, q: int| 0 <= p < q < post.len() implies lex_lt(
                    post[p].name@,
                    post[q].name@,
                ) by {
                    assert(lex_lt(pre[p].name@, pre[q].name@));
                }
                assert forall|j: int| 0 <= j < ii implies pre[j].name@ != flow.name@ by {
                    lemma_lex_asym(pre[j].name@, flow.name@);
                }
                lemma_rate_at(pre, flow.name@, ii);
                lemma_rate_at(post, flow.name@, ii);
                assert forall|m: Seq<char>|
                    final(self).spec_rate(m) == if m == flow.name@ {
                        sat64(old(self).spec_rate(m) + flow.throughput)
                    } else {
                        old(self).spec_rate(m)
                    } by {
                    if m != flow.name@ {
                        lemma_rate_same(pre, post, m);
                    }
                }
                assert forall|m: Seq<char>| #[trigger]
                    final(self).spec_has(m) == (old(self).spec_has(m) || m == flow.name@) by {
                    assert(flow_names(post) =~= flow_names(pre));
                    if m == flow.name@ {
                        assert(flow_names(pre)[ii] == m);
                        assert(flow_names(pre).contains(m));
                    }
                }
            }
        } else {
            proof {
                if i < pre.len() {
                    assert(!lex_lt(pre[i as int].name@, flow.name@));
                    lemma_lex_total(pre[i as int].name@, flow.name@);
                    assert(lex_lt(flow.name@, pre[i as int].name@));
                }
                assert forall|j: int| 0 <= j < i implies pre[j].name@ != flow.name@ by {
                    lemma_lex_asym(pre[j].name@, flow.name@);
                }
            }
            self.entries.insert(i, flow);
            proof {
                let post = self.view();
                let ii = i as int;
                assert(post.len() == pre.len() + 1);
                assert(forall|k: int| 0 <= k < ii ==> post[k] == pre[k]);
                assert(forall|k: int| ii < k < post.len() ==> post[k] == pre[k - 1]);
                assert forall|p: int, q: int| 0 <= p < q < post.len() implies lex_lt(
                    post[p].name@,
                    post[q].name@,
                ) by {
                    if q < ii {
                        assert(lex_lt(pre[p].name@, pre[q].name@));
                    } else if q == ii {
                        assert(lex_lt(pre[p].name@, flow.name@));
                    } else if p < ii {
                        if p == q - 1 {
                            assert(false);
                        }
                        assert(lex_lt(pre[p].name@, pre[q - 1].name@));
                    } else if p == ii {
                        if q - 1 == ii {
                            assert(lex_lt(flow.name@, pre[ii].name@));
                        } else {
                            assert(lex_lt(flow.name@, pre[ii].name@));
                            assert(lex_lt(pre[ii].name@, pre[q - 1].name@));
                            lemma_lex_trans(flow.name@, pre[ii].name@, pre[q - 1].name@);
                        }
                    } else {
                        assert(lex_lt(pre[p - 1].name@, pre[q - 1].name@));
                    }
                }
                lemma_rate_absent(pre, flow.name@);
                lemma_rate_at(post, flow.name@, ii);
                assert forall|m: Seq<char>|
                    final(self).spec_rate(m) == if m == flow.name@ {
                        sat64(old(self).spec_rate(m) + flow.throughput)
                    } else {
                        old(self).spec_rate(m)
                    } by {
                    if m != flow.name@ {
                        lemma_rate_insert_other(pre, post, ii, m);
                    }
                }
                assert forall|m: Seq<char>| #[trigger]
                    final(self).spec_has(m) == (old(self).spec_has(m) || m == flow.name@) by {
                    if flow_names(post).contains(m) {
                        let k = choose|k: int|
                            0 <= k < flow_names(post).len() && flow_names(post)[k] == m;
                        if k < ii {
                            assert(flow_names(pre)[k] == m);
                            assert(flow_names(pre).contains(m));
                        } else if k > ii {
                            assert(flow_names(pre)[k - 1] == m);
                            assert(flow_names(pre).contains(m));
                        }
                    }
                    if flow_names(pre).contains(m) {
                        let k = choose|k: int|
                            0 <= k < flow_names(pre).len() && flow_names(pre)[k] == m;
                        if k < ii {
                            assert(flow_names(post)[k] == m);
                        } else {
                            assert(flow_names(post)[k + 1] == m);
                        }
                        assert(flow_names(post).contains(m));
                    }
                    if m == flow.name@ {
                        assert(flow_names(post)[ii] == m);
                        assert(flow_names(post).contains(m));
                    }
                }
            }
        }
    }

    /// Removes and returns the pending demand for an item; an absent item
    /// comes back with rate zero and leaves the queue unchanged.
    pub fn take(&mut self, name: &str) -> (r: Flow)
        requires
            old(self).wf(),
        ensures
            final(self).wf(),
            r.name@ == name@,
            r.throughput == old(self).spec_rate(name@),
            forall|m: Seq<char>|
                final(self).spec_rate(m) == if m == name@ {
                    0u64
                } else {
                    old(self).spec_rate(m)
                },
            forall|m: Seq<char>|
                #[trigger] final(self).spec_has(m) == (old(self).spec_has(m) && m != name@),
    {
        let ghost pre = self.view();
        let i = self.lower_bound(name);
        proof {
            assert forall|j: int| 0 <= j < i implies pre[j].name@ != name@ by {
                lemma_lex_asym(pre[j].name@, name@);
            }
        }
        if i < self.entries.len() && str_eq(self.entries[i].name.as_str(), name) {
            let f = self.entries.remove(i);
            proof {
                let post = self.view();
                let ii = i as int;
                lemma_rate_at(pre, name@, ii);
                assert(forall|k: int| 0 <= k < ii ==> post[k] == pre[k]);
                assert(forall|k: int| ii <= k < post.len() ==> post[k] == pre[k + 1]);
                assert forall|p: int, q: int| 0 <= p < q < post.len() implies lex_lt(
                    post[p].name@,
                    post[q].name@,
                ) by {
                    let a = if p < ii {
                        p
                    } else {
                        p + 1
                    };
                    let b = if q < ii {
                        q
                    } else {
                        q + 1
                    };
                    assert(lex_lt(pre[a].name@, pre[b].name@));
                }
                assert forall|m: Seq<char>|
                    final(self).spec_rate(m) == if m == name@ {
                        0u64
                    } else {
                        old(self).spec_rate(m)
                    } by {
                    if m == name@ {
                        assert forall|j: int| 0 <= j < post.len() implies post[j].name@ != m by {
                            if j < ii {
                            } else {
                                assert(post[j] == pre[j + 1]);
                                assert(lex_lt(pre[ii].name@, pre[j + 1].name@));
                                lemma_lex_asym(pre[ii].name@, pre[j + 1].name@);
                            }
                        }
                        lemma_rate_absent(post, m);
                    } else {
                        lemma_rate_remove_other(pre, post, ii, m);
                    }
                }
                assert forall|m: Seq<char>| #[trigger]
                    final(self).spec_has(m) == (old(self).spec_has(m) && m != name@) by {
                    if flow_names(post).contains(m) {
                        let k = choose|k: int|
                            0 <= k < flow_names(post).len() && flow_names(post)[k] == m;
                        let a = if k < ii {
                            k
                        } else {
                            k + 1
                        };
                        assert(flow_names(pre)[a] == m);
                        assert(flow_names(pre).contains(m));
                        if m == name@ {
                            assert(pre[a].name@ == pre[ii].name@);
                            if a != ii {
                                if a < ii {
                                    lemma_lex_asym(pre[a].name@, pre[ii].name@);
                                } else {
                                    lemma_lex_asym(pre[ii].name@, pre[a].name@);
                                }
                            }
                            assert(false);
                        }
                    }
                    if flow_names(pre).contains(m) && m != name@ {
                        let k = choose|k: int|
                            0 <= k < flow_names(pre).len() && flow_names(pre)[k] == m;
                        assert(k != ii);
                        if k < ii {
                            assert(flow_names(post)[k] == m);
                        } else {
                            assert(flow_names(post)[k - 1] == m);
                        }
                        assert(flow_names(post).contains(m));
                    }
                }
            }
            Flow { name: name.to_owned(), throughput: f.throughput }
        } else {
            proof {
                if i < pre.len() {
                    lemma_lex_total(pre[i as int].name@, name@);
                }
                assert forall|j: int| 0 <= j < pre.len() implies pre[j].name@ != name@ by {
                    if j < i {
                    } else if j == i {
                    } else {
                        assert(lex_lt(pre[i as int].name@, pre[j].name@));
                        if pre[j].name@ == name@ {
                            lemma_lex_trans(pre[i as int].name@, pre[j].name@, pre[i as int].name@);
                        }
                    }
                }
                lemma_rate_absent(pre, name@);
            }
            Flow { name: name.to_owned(), throughput: 0 }
        }
    }
}

/// Two lists with equal names and rates at matching positions hold the same
/// rate for an item that one position does not shadow.
proof fn lemma_rate_same(a: Seq<Flow>, b: Seq<Flow>, m: Seq<char>)
    requires
        a.len() == b.len(),
        forall|j: int| 0 <= j < a.len() ==> a[j].name@ == (#[trigger] b[j]).name@,
        forall|j: int| 0 <= j < a.len() && a[j].name@ == m ==> a[j].throughput == b[j].throughput,
    ensures
        rate_of(a, m) == rate_of(b, m),
    decreases a.len(),
{
    if a.len() > 0 {
        assert(a[0].name@ == b[0].name@);
        if a[0].name@ != m {
            assert(forall|j: int|
                0 <= j < a.drop_first().len() ==> a.drop_first()[j].name@ == (
                #[trigger] b.drop_first()[j]).name@);
            assert(forall|j: int|
                0 <= j < a.drop_first().len() && a.drop_first()[j].name@ == m
                    ==> a.drop_first()[j].throughput == b.drop_first()[j].throughput);
            lemma_rate_same(a.drop_first(), b.drop_first(), m);
        }
    }
}

/// Inserting an entry with a different name leaves an item's rate alone.
proof fn lemma_rate_insert_other(pre: Seq<Flow>, post: Seq<Flow>, ii: int, m: Seq<char>)
    requires
        0 <= ii <= pre.len(),
        post.len() == pre.len() + 1,
        forall|k: int| 0 <= k < ii ==> #[trigger] post[k] == pre[k],
        forall|k: int| ii < k < post.len() ==> #[trigger] post[k] == pre[k - 1],
        post[ii].name@ != m,
    ensures
        rate_of(post, m) == rate_of(pre, m),
    decreases ii,
{
    if ii == 0 {
        assert(post.drop_first() =~= pre);
    } else {
        assert(post[0] == pre[0]);
        if pre[0].name@ != m {
            assert(forall|k: int|
                0 <= k < ii - 1 ==> #[trigger] post.drop_first()[k] == pre.drop_first()[k]);
            assert(forall|k: int|
                ii - 1 < k < post.drop_first().len() ==> #[trigger] post.drop_first()[k]
                    == pre.drop_first()[k - 1]);
            lemma_rate_insert_other(pre.drop_first(), post.drop_first(), ii - 1, m);
        }
    }
}

/// Removing an entry with a different name leaves an item's rate alone.
proof fn lemma_rate_remove_other(pre: Seq<Flow>, post: Seq<Flow>, ii: int, m: Seq<char>)
    requires
        0 <= ii < pre.len(),
        post.len() == pre.len() - 1,
        forall|k: int| 0 <= k < ii ==> #[trigger] post[k] == pre[k],
        forall|k: int| ii <= k < post.len() ==> #[trigger] post[k] == pre[k + 1],
        pre[ii].name@ != m,
    ensures
        rate_of(post, m) == rate_of(pre, m),
    decreases ii,
{
    if ii == 0 {
        assert(pre.drop_first() =~= post);
    } else {
        assert(post[0] == pre[0]);
        if pre[0].name@ != m {
            assert(forall|k: int|
                0 <= k < ii - 1 ==> #[trigger] post.drop_first()[k] == pre.drop_first()[k]);
            assert(forall|k: int|
                ii - 1 <= k < post.drop_first().len() ==> #[trigger] post.drop_first()[k]
                    == pre.drop_first()[k + 1]);
            lemma_rate_remove_other(pre.drop_first(), post.drop_first(), ii - 1, m);
        }
    }
}

} // verus!
