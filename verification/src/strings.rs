//! Lexicographic order on item names and a sorted, duplicate-free name list.
//!
//! Names are ordered by their Unicode scalar values, which agrees with the
//! byte-wise order Rust gives `str`, so ties between items are broken the
//! same way wherever the crate needs a stable order.

use vstd::prelude::*;

verus! {

/// Strict lexicographic order on character sequences by scalar value.
pub open spec fn lex_lt(a: Seq<char>, b: Seq<char>) -> bool
    decreases a.len(),
{
    if b.len() == 0 {
        false
    } else if a.len() == 0 {
        true
    } else if a[0] < b[0] {
        true
    } else if b[0] < a[0] {
        false
    } else {
        lex_lt(a.drop_first(), b.drop_first())
    }
}

/// Two names are ordered one way or the other unless they are equal.
pub proof fn lemma_lex_total(a: Seq<char>, b: Seq<char>)
    ensures
        lex_lt(a, b) || lex_lt(b, a) || a == b,
    decreases a.len(),
{
    if a.len() == 0 || b.len() == 0 {
        if a.len() == 0 && b.len() == 0 {
            assert(a =~= b);
        }
    } else if !(a[0] < b[0]) && !(b[0] < a[0]) {
        assert(a[0] == b[0]);
        lemma_lex_total(a.drop_first(), b.drop_first());
        if a.drop_first() == b.drop_first() {
            assert(a =~= seq![a[0]] + a.drop_first());
            assert(b =~= seq![b[0]] + b.drop_first());
        }
    }
}

/// The order is asymmetric, hence irreflexive.
pub proof fn lemma_lex_asym(a: Seq<char>, b: Seq<char>)
    ensures
        lex_lt(a, b) ==> !lex_lt(b, a) && a != b,
    decreases a.len(),
{
    if a.len() != 0 && b.len() != 0 && !(a[0] < b[0]) && !(b[0] < a[0]) {
        lemma_lex_asym(a.drop_first(), b.drop_first());
        if lex_lt(a, b) {
            assert(a.drop_first() != b.drop_first());
            assert(a != b) by {
                if a == b {
                    assert(a.drop_first() =~= b.drop_first());
                }
            }
        }
    } else {
        if lex_lt(a, b) && a.len() == 0 {
            assert(b.len() != 0);
            assert(a != b) by {
                if a == b {
                    assert(a.len() == b.len());
                }
            }
        }
    }
}

/// The order is transitive.
pub proof fn lemma_lex_trans(a: Seq<char>, b: Seq<char>, c: Seq<char>)
    requires
        lex_lt(a, b),
        lex_lt(b, c),
    ensures
        lex_lt(a, c),
    decreases a.len(),
{
    if a.len() != 0 && b.len() != 0 && c.len() != 0 {
        if a[0] == b[0] && b[0] == c[0] {
            lemma_lex_trans(a.drop_first(), b.drop_first(), c.drop_first());
        }
    }
}

/// Skipping a shared prefix does not change how two names compare.
proof fn lemma_lex_skip(a: Seq<char>, b: Seq<char>, i: int)
    requires
        0 <= i <= a.len(),
        i <= b.len(),
        forall|j: int| 0 <= j < i ==> a[j] == b[j],
    ensures
        lex_lt(a, b) == lex_lt(a.skip(i), b.skip(i)),
    decreases i,
{
    if i > 0 {
        assert(a.len() > 0 && b.len() > 0);
        assert(a[0] == b[0]);
        assert(forall|j: int| 0 <= j < i - 1 ==> a.drop_first()[j] == b.drop_first()[j]);
        lemma_lex_skip(a.drop_first(), b.drop_first(), i - 1);
        assert(a.drop_first().skip(i - 1) =~= a.skip(i));
        assert(b.drop_first().skip(i - 1) =~= b.skip(i));
    } else {
        assert(a.skip(0) =~= a);
        assert(b.skip(0) =~= b);
    }
}

/// Whether one string is strictly before another in lexicographic order.
pub fn str_lt(a: &str, b: &str) -> (r: bool)
    ensures
        r == lex_lt(a@, b@),
{
    let la = a.unicode_len();
    let lb = b.unicode_len();
    let mut i: usize = 0;
    loop
        invariant
            i <= la,
            i <= lb,
            la == a@.len(),
            lb == b@.len(),
            forall|j: int| 0 <= j < i ==> a@[j] == b@[j],
        decreases la - i,
    {
        proof {
            lemma_lex_skip(a@, b@, i as int);
        }
        if i >= la || i >= lb {
            return la < lb;
        }
        let ca = a.get_char(i);
        let cb = b.get_char(i);
        if ca < cb {
            return true;
        }
        if cb < ca {
            return false;
        }
        assert(a@[i as int] == b@[i as int]);
        i = i + 1;
    }
}

/// Whether two strings hold the same characters.
pub fn str_eq(a: &str, b: &str) -> (r: bool)
    ensures
        r == (a@ == b@),
{
    let oa = a.to_owned();
    let ob = b.to_owned();
    oa == ob
}

/// A copy of a name list, element for element.
pub fn clone_names(v: &Vec<String>) -> (r: Vec<String>)
    ensures
        r@ =~= v@,
{
    let n = v.len();
    let mut out: Vec<String> = Vec::new();
    let mut i: usize = 0;
    while i < n
        invariant
            i <= n,
            n == v@.len(),
            out@.len() == i,
            forall|j: int| 0 <= j < i ==> #[trigger] out@[j] == v@[j],
        decreases n - i,
    {
        out.push(v[i].clone());
        i = i + 1;
    }
    out
}

/// A duplicate-free list of names kept in strictly increasing order.
///
/// The strict order makes the representation canonical: two lists with the
/// same members hold them in the same places.
pub struct SortedNames {
    items: Vec<String>,
}

impl SortedNames {
    /// The names as character sequences, in list order.
    pub closed spec fn view(&self) -> Seq<Seq<char>> {
        self.items@.map_values(|s: String| s@)
    }

    /// The list is strictly sorted (hence duplicate-free).
    pub open spec fn wf(&self) -> bool {
        forall|i: int, j: int|
            0 <= i < j < self.view().len() ==> lex_lt(
                #[trigger] self.view()[i],
                #[trigger] self.view()[j],
            )
    }

    /// Sorted lists never hold a name twice.
    pub proof fn lemma_distinct(&self)
        requires
            self.wf(),
        ensures
            forall|i: int, j: int|
                0 <= i < j < self.view().len() ==> #[trigger] self.view()[i]
                    != #[trigger] self.view()[j],
    {
        assert forall|i: int, j: int|
            0 <= i < j < self.view().len() implies #[trigger] self.view()[i]
            != #[trigger] self.view()[j] by {
            lemma_lex_asym(self.view()[i], self.view()[j]);
        }
    }

    /// An empty name list.
    pub fn new() -> (r: SortedNames)
        ensures
            r.wf(),
            r.view() =~= Seq::<Seq<char>>::empty(),
    {
        SortedNames { items: Vec::new() }
    }

    /// How many names the list holds.
    pub fn len(&self) -> (r: usize)
        ensures
            r == self.view().len(),
    {
        self.items.len()
    }

    /// The name at a position.
    pub fn get(&self, i: usize) -> (r: &String)
        requires
            i < self.view().len(),
        ensures
            r@ == self.view()[i as int],
    {
        &self.items[i]
    }

    /// Whether a name is in the list.
    pub fn contains(&self, name: &str) -> (r: bool)
        ensures
            r == self.view().contains(name@),
    {
        let n = self.items.len();
        let mut i: usize = 0;
        while i < n
            invariant
                i <= n,
                n == self.view().len(),
                forall|j: int| 0 <= j < i ==> self.view()[j] != name@,
            decreases n - i,
        {
            if str_eq(self.items[i].as_str(), name) {
                assert(self.view()[i as int] == name@);
                return true;
            }
            i = i + 1;
        }
        assert(!self.view().contains(name@));
        false
    }

    /// The first position whose name is not strictly before `name`.
    fn lower_bound(&self, name: &str) -> (i: usize)
        ensures
            i <= self.view().len(),
            forall|j: int| 0 <= j < i ==> lex_lt(#[trigger] self.view()[j], name@),
            i < self.view().len() ==> !lex_lt(self.view()[i as int], name@),
    {
        let n = self.items.len();
        let mut i: usize = 0;
        while i < n
            invariant
                i <= n,
                n == self.view().len(),
                forall|j: int| 0 <= j < i ==> lex_lt(#[trigger] self.view()[j], name@),
            decreases n - i,
        {
            if !str_lt(self.items[i].as_str(), name) {
                assert(self.view()[i as int] == self.items@[i as int]@);
                return i;
            }
            assert(self.view()[i as int] == self.items@[i as int]@);
            i = i + 1;
        }
        i
    }

    /// Adds a name, keeping the order; adding a present name changes nothing.
    pub fn insert(&mut self, name: String)
        requires
            old(self).wf(),
        ensures
            final(self).wf(),
            forall|m: Seq<char>|
                #[trigger] final(self).view().contains(m) == (old(self).view().contains(m) || m
                    == name@),
    {
        let ghost pre = self.view();
        let n = self.items.len();
        let i = self.lower_bound(name.as_str());
        if i < n && str_eq(self.items[i].as_str(), name.as_str()) {
            assert(pre[i as int] == name@);
            assert(pre.contains(name@));
            return;
        }
        proof {
            if i < n {
                assert(!lex_lt(pre[i as int], name@));
                assert(pre[i as int] != name@);
                lemma_lex_total(pre[i as int], name@);
                assert(lex_lt(name@, pre[i as int]));
            }
        }
        self.items.insert(i, name);
        proof {
            let post = self.view();
            let ii = i as int;
            assert(post.len() == pre.len() + 1);
            assert(forall|k: int| 0 <= k < ii ==> post[k] == pre[k]);
            assert(post[ii] == name@);
            assert(forall|k: int| ii < k < post.len() ==> post[k] == pre[k - 1]);
            assert forall|p: int, q: int| 0 <= p < q < post.len() implies lex_lt(
                post[p],
                post[q],
            ) by {
                if q < ii {
                    assert(lex_lt(pre[p], pre[q]));
                } else if q == ii {
                    assert(lex_lt(pre[p], name@));
                } else if p < ii {
                    assert(p <= q - 1 && q - 1 < pre.len());
                    if p == q - 1 {
                        assert(ii <= p);
                        assert(false);
                    }
                    assert(lex_lt(pre[p], pre[q - 1]));
                } else if p == ii {
                    assert(ii <= q - 1 < pre.len());
                    if q - 1 == ii {
                        assert(lex_lt(name@, pre[ii]));
                    } else {
                        assert(lex_lt(name@, pre[ii]));
                        assert(lex_lt(pre[ii], pre[q - 1]));
                        lemma_lex_trans(name@, pre[ii], pre[q - 1]);
                    }
                } else {
                    assert(lex_lt(pre[p - 1], pre[q - 1]));
                }
            }
            assert forall|m: Seq<char>| #[trigger]
                post.contains(m) == (pre.contains(m) || m == name@) by {
                if post.contains(m) {
                    let k = choose|k: int| 0 <= k < post.len() && post[k] == m;
                    if k < ii {
                        assert(pre[k] == m);
                        assert(pre.contains(m));
                    } else if k > ii {
                        assert(pre[k - 1] == m);
                        assert(pre.contains(m));
                    }
                }
                if pre.contains(m) {
                    let k = choose|k: int| 0 <= k < pre.len() && pre[k] == m;
                    if k < ii {
                        assert(post[k] == m);
                        assert(post.contains(m));
                    } else {
                        assert(post[k + 1] == m);
                        assert(post.contains(m));
                    }
                }
                if m == name@ {
                    assert(post[ii] == m);
                    assert(post.contains(m));
                }
            }
        }
    }

    /// A copy of the list with the same names in the same order.
    pub fn duplicate(&self) -> (r: SortedNames)
        ensures
            r.view() =~= self.view(),
            self.wf() ==> r.wf(),
    {
        let n = self.items.len();
        let mut items: Vec<String> = Vec::new();
        let mut i: usize = 0;
        while i < n
            invariant
                i <= n,
                n == self.items@.len(),
                items@.len() == i,
                forall|j: int| 0 <= j < i ==> items@[j]@ == self.items@[j]@,
            decreases n - i,
        {
            items.push(self.items[i].clone());
            i = i + 1;
        }
        let r = SortedNames { items };
        proof {
            assert forall|k: int| 0 <= k < r.view().len() implies r.view()[k]
                == self.view()[k] by {}
        }
        r
    }

    /// The names as a vector, in list order.
    pub fn into_vec(self) -> (r: Vec<String>)
        ensures
            r@.map_values(|s: String| s@) =~= self.view(),
    {
        self.items
    }

    /// Builds a sorted list holding exactly the given names.
    pub fn from_names(names: Vec<String>) -> (r: SortedNames)
        ensures
            r.wf(),
            forall|m: Seq<char>|
                #[trigger] r.view().contains(m) == names@.map_values(|s: String| s@).contains(m),
    {
        let ghost all = names@.map_values(|s: String| s@);
        let mut r = SortedNames::new();
        let n = names.len();
        let mut i: usize = 0;
        while i < n
            invariant
                i <= n,
                n == names@.len(),
                all == names@.map_values(|s: String| s@),
                r.wf(),
                forall|m: Seq<char>|
                    #[trigger] r.view().contains(m) == all.subrange(0, i as int).contains(m),
            decreases n - i,
        {
            let name = names[i].clone();
            assert(name@ == all[i as int]);
            r.insert(name);
            proof {
                assert forall|m: Seq<char>| #[trigger]
                    r.view().contains(m) == all.subrange(0, i + 1 as int).contains(m) by {
                    let prefix = all.subrange(0, i as int);
                    let prefix2 = all.subrange(0, i + 1 as int);
                    assert(prefix2 =~= prefix.push(all[i as int]));
                    if prefix2.contains(m) {
                        let k = choose|k: int| 0 <= k < prefix2.len() && prefix2[k] == m;
                        if k < i {
                            assert(prefix[k] == m);
                            assert(prefix.contains(m));
                        }
                    }
                    if prefix.contains(m) {
                        let k = choose|k: int| 0 <= k < prefix.len() && prefix[k] == m;
                        assert(prefix2[k] == m);
                        assert(prefix2.contains(m));
                    }
                    if m == all[i as int] {
                        assert(prefix2[i as int] == m);
                        assert(prefix2.contains(m));
                    }
                }
            }
            i = i + 1;
        }
        proof {
            assert(all.subrange(0, n as int) =~= all);
        }
        r
    }
}

} // verus!
