//! The data shapes of the technology tree that the display layer reads.
//!
//! Loading, tier filling and printing of technologies live outside the
//! verified core; these types and the locale substitution are what the core
//! can carry for them.

use crate::cfg_file::Cfg;
use vstd::prelude::*;

verus! {

/// A name as the game data writes it: either one plain string, or a list
/// whose parts are concatenated (a singleton list is first looked up in the
/// locale).
pub enum LocalisedName {
    List(Vec<LocalisedName>),
    Single(String),
}

/// The resolved form of a localised name: a plain string stands as it is, a
/// singleton list resolves its part and then looks the result up in the
/// locale (falling back to the key itself), and a longer list concatenates
/// its resolved parts in order.
pub open spec fn resolved(locale: Seq<(String, String)>, n: LocalisedName) -> Seq<char>
    decreases n, 0int,
{
    match n {
        LocalisedName::Single(s) => s@,
        LocalisedName::List(xs) => {
            if xs@.len() == 1 {
                let k = resolved(locale, xs@[0]);
                match crate::cfg_file::cfg_value(locale, k) {
                    Option::Some(v) => v,
                    Option::None => k,
                }
            } else {
                resolved_parts(locale, xs@, xs@.len() as int)
            }
        },
    }
}

/// The concatenation of the first `k` resolved parts of a list.
pub open spec fn resolved_parts(
    locale: Seq<(String, String)>,
    xs: Seq<LocalisedName>,
    k: int,
) -> Seq<char>
    decreases xs, k,
        when k <= xs.len()
{
    if k <= 0 {
        Seq::empty()
    } else {
        resolved_parts(locale, xs, k - 1) + resolved(locale, xs[k - 1])
    }
}

impl LocalisedName {
    /// Resolves the name against a locale: a singleton list resolves its
    /// part and then looks the result up, a longer list concatenates its
    /// resolved parts, and a plain string stands as it is.
    pub fn apply_locale(&self, locale: &Cfg) -> (r: String)
        ensures
            r@ == resolved(locale.view(), *self),
        decreases *self, 1int,
    {
        match self {
            LocalisedName::List(ss) => {
                proof {
                    assert(*self == LocalisedName::List(*ss));
                }
                if ss.len() == 1 {
                    let s = ss[0].apply_locale(locale);
                    match locale.get(s.as_str()) {
                        Some(v) => v.to_owned(),
                        None => s,
                    }
                } else {
                    let mut r = String::new();
                    let n = ss.len();
                    proof {
                        assert(r@ =~= resolved_parts(locale.view(), ss@, 0));
                    }
                    let mut i: usize = 0;
                    while i < n
                        invariant
                            i <= n,
                            n == ss@.len(),
                            *self == LocalisedName::List(*ss),
                            r@ == resolved_parts(locale.view(), ss@, i as int),
                        decreases n - i,
                    {
                        proof {
                            assert(decreases_to!(*self => self->List_0));
                            assert(self->List_0 == *ss);
                            assert(decreases_to!(*ss => ss@));
                            assert(decreases_to!(ss@ => ss@[i as int]));
                            assert(decreases_to!(*self => ss@[i as int]));
                        }
                        let part = ss[i].apply_locale_part(locale);
                        r.append(part.as_str());
                        i = i + 1;
                    }
                    proof {
                        assert(n as int != 1);
                        assert(resolved(locale.view(), *self) == resolved_parts(
                            locale.view(),
                            ss@,
                            n as int,
                        ));
                    }
                    r
                }
            },
            LocalisedName::Single(s) => s.clone(),
        }
    }

    /// One list element, resolved; split out so the recursion through the
    /// list provably shrinks.
    fn apply_locale_part(&self, locale: &Cfg) -> (r: String)
        ensures
            r@ == resolved(locale.view(), *self),
        decreases *self, 2int,
    {
        self.apply_locale(locale)
    }
}

/// One research-unit ingredient: a science item and how many per unit.
pub enum ResearchUnitIngredient {
    Item { name: String, amount: u64 },
}

/// A list as the game data writes it: either real elements or an empty
/// placeholder object.
pub enum Array<T> {
    Filled(Vec<T>),
    Empty(Empty),
}

impl<T> Array<T> {
    /// Walks the elements, if any.
    pub fn iter(&self) -> (r: ArrayIter<'_, T>)
        ensures
            r.array == self,
            r.i == 0,
    {
        ArrayIter { array: self, i: 0 }
    }
}

/// The empty placeholder.
pub struct Empty {}

/// A cursor over an [`Array`].
pub struct ArrayIter<'a, T> {
    pub array: &'a Array<T>,
    pub i: usize,
}

impl<'a, T> ArrayIter<'a, T> {
    /// The next element, if any; `None` comes only from an empty array or
    /// past the end, so a walk yields exactly the elements in order.
    pub fn next(&mut self) -> (r: Option<&'a T>)
        ensures
            match r {
                Some(v) => {
                    &&& old(self).array matches Array::Filled(xs)
                    &&& old(self).i < xs@.len()
                    &&& *v == xs@[old(self).i as int]
                    &&& final(self).i == old(self).i + 1
                },
                None => {
                    &&& final(self).i == old(self).i
                    &&& (old(self).array matches Array::Filled(xs) ==> old(self).i >= xs@.len())
                },
            },
            final(self).array == old(self).array,
    {
        match self.array {
            Array::Filled(xs) => {
                if self.i < xs.len() {
                    let item = &xs[self.i];
                    self.i = self.i + 1;
                    Some(item)
                } else {
                    None
                }
            },
            Array::Empty(_) => None,
        }
    }
}

} // verus!
