//! Locale configuration files: `[section]` headers and `key=value` lines,
//! looked up as `section.key`.

use crate::strings::str_eq;
use vstd::prelude::*;

verus! {

/// The value stored under a key, the last write winning.
pub open spec fn cfg_value(s: Seq<(String, String)>, k: Seq<char>) -> Option<Seq<char>>
    decreases s.len(),
{
    if s.len() == 0 {
        Option::None
    } else if s.last().0@ == k {
        Option::Some(s.last().1@)
    } else {
        cfg_value(s.drop_last(), k)
    }
}

/// A loaded configuration: key-value pairs in file order.
pub struct Cfg {
    entries: Vec<(String, String)>,
}

impl Cfg {
    /// The stored pairs, in order.
    pub closed spec fn view(&self) -> Seq<(String, String)> {
        self.entries@
    }

    /// An empty configuration.
    pub fn new() -> (r: Cfg)
        ensures
            r.view() =~= Seq::<(String, String)>::empty(),
    {
        Cfg { entries: Vec::new() }
    }

    /// Stores one pair; a later pair under the same key shadows it.
    pub fn insert(&mut self, key: String, value: String)
        ensures
            final(self).view() =~= old(self).view().push((key, value)),
    {
        self.entries.push((key, value));
    }

    /// The value stored under the key, if any.
    pub fn get(&self, key: &str) -> (r: Option<&str>)
        ensures
            match r {
                Some(v) => cfg_value(self.view(), key@) == Option::Some(v@),
                None => cfg_value(self.view(), key@) is None,
            },
    {
        let n = self.entries.len();
        proof {
            assert(self.view().subrange(0, n as int) =~= self.view());
        }
        let mut i: usize = n;
        while i > 0
            invariant
                i <= n,
                n == self.view().len(),
                cfg_value(self.view(), key@) == cfg_value(self.view().subrange(0, i as int), key@),
            decreases i,
        {
            proof {
                lemma_cfg_prefix(self.view(), key@, i as int);
            }
            i = i - 1;
            if str_eq(self.entries[i].0.as_str(), key) {
                proof {
                    assert(self.view().subrange(0, i + 1 as int).last() == self.view()[i as int]);
                }
                return Some(self.entries[i].1.as_str());
            }
            proof {
                assert(self.view().subrange(0, i + 1 as int).last() == self.view()[i as int]);
                assert(self.view().subrange(0, i + 1 as int).drop_last() =~= self.view().subrange(
                    0,
                    i as int,
                ));
            }
        }
        proof {
            assert(self.view().subrange(0, 0) =~= Seq::<(String, String)>::empty());
        }
        None
    }

    /// Parses configuration lines: `[section]` headers set the prefix, and
    /// `key=value` lines store `section.key`; anything else is skipped.
    pub fn parse_lines(lines: &Vec<String>) -> (r: Cfg) {
        proof {
            reveal_strlit(".");
        }
        let mut cfg = Cfg::new();
        let mut prefix = String::new();
        let n = lines.len();
        let mut i: usize = 0;
        while i < n
            invariant
                i <= n,
                n == lines@.len(),
            decreases n - i,
        {
            let line = trim_spaces(lines[i].as_str());
            let len = line.as_str().unicode_len();
            if len >= 2 && line.as_str().get_char(0) == '[' && line.as_str().get_char(len - 1)
                == ']' {
                prefix = line.as_str().substring_char(1, len - 1).to_owned();
            } else {
                match find_char(line.as_str(), '=') {
                    Some(eq) => {
                        let key_part = line.as_str().substring_char(0, eq);
                        let value = line.as_str().substring_char(eq + 1, len).to_owned();
                        let mut key = String::new();
                        if prefix.as_str().unicode_len() > 0 {
                            key.append(prefix.as_str());
                            key.append(".");
                        }
                        key.append(key_part);
                        cfg.insert(key, value);
                    },
                    None => {},
                }
            }
            i = i + 1;
        }
        cfg
    }
}

/// The value under a key is decided inside the prefix that still holds it.
proof fn lemma_cfg_prefix(s: Seq<(String, String)>, k: Seq<char>, i: int)
    requires
        0 < i <= s.len(),
    ensures
        cfg_value(s.subrange(0, i), k) == if s[i - 1].0@ == k {
            Option::Some(s[i - 1].1@)
        } else {
            cfg_value(s.subrange(0, i - 1), k)
        },
{
    let p = s.subrange(0, i);
    assert(p.last() == s[i - 1]);
    assert(p.drop_last() =~= s.subrange(0, i - 1));
}

/// The first position of a character, if it occurs.
fn find_char(s: &str, c: char) -> (r: Option<usize>)
    ensures
        match r {
            Some(i) => i < s@.len() && s@[i as int] == c,
            None => forall|j: int| 0 <= j < s@.len() ==> s@[j] != c,
        },
{
    let n = s.unicode_len();
    let mut i: usize = 0;
    while i < n
        invariant
            i <= n,
            n == s@.len(),
            forall|j: int| 0 <= j < i ==> s@[j] != c,
        decreases n - i,
    {
        if s.get_char(i) == c {
            return Some(i);
        }
        i = i + 1;
    }
    None
}

/// The string without leading and trailing spaces, tabs and line breaks.
fn trim_spaces(s: &str) -> (r: String) {
    let n = s.unicode_len();
    let mut start: usize = 0;
    while start < n && is_space(s.get_char(start))
        invariant
            start <= n,
            n == s@.len(),
        decreases n - start,
    {
        start = start + 1;
    }
    let mut end: usize = n;
    while end > start && is_space(s.get_char(end - 1))
        invariant
            start <= end <= n,
            n == s@.len(),
        decreases end,
    {
        end = end - 1;
    }
    s.substring_char(start, end).to_owned()
}

/// Whether the character is trimmed from line ends.
fn is_space(c: char) -> bool {
    c == ' ' || c == '\t' || c == '\r' || c == '\n'
}

} // verus!
