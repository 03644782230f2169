//! Tables of values by name, kept as a list of entries in the order they
//! were filed; a later entry replaces an earlier one with the same name.

use vstd::prelude::*;

use crate::skeleton::chars_equal;

verus! {

/// The map that a list of (name, value) entries stands for: a later entry
/// replaces an earlier one with the same name.
pub open spec fn entries_map<T>(s: Seq<(String, T)>) -> Map<Seq<char>, T>
    decreases s.len(),
{
    if s.len() == 0 {
        Map::empty()
    } else {
        entries_map(s.drop_last()).insert(s.last().0@, s.last().1)
    }
}

/// A table of values by name; a later entry replaces an earlier one with the same name.
pub struct NamedTable<T> {
    entries: Vec<(String, T)>,
}

impl<T> View for NamedTable<T> {
    type V = Map<Seq<char>, T>;

    closed spec fn view(&self) -> Map<Seq<char>, T> {
        entries_map(self.entries@)
    }
}

/// A name without entries is not in the map.
proof fn lemma_entries_map_absent<T>(s: Seq<(String, T)>, k: Seq<char>)
    requires
        forall|j: int| 0 <= j < s.len() ==> s[j].0@ != k,
    ensures
        !entries_map(s).contains_key(k),
    decreases s.len(),
{
    if s.len() > 0 {
        let p = s.drop_last();
        assert forall|j: int| 0 <= j < p.len() implies p[j].0@ != k by {
            assert(p[j] == s[j]);
        }
        lemma_entries_map_absent(p, k);
        assert(s[s.len() - 1].0@ != k);
    }
}

/// The last entry of `s` with name `k` gives the map's value for `k`.
proof fn lemma_entries_map_last<T>(s: Seq<(String, T)>, k: Seq<char>, i: int)
    requires
        0 <= i < s.len(),
        s[i].0@ == k,
        forall|j: int| i < j < s.len() ==> s[j].0@ != k,
    ensures
        entries_map(s).contains_key(k),
        entries_map(s)[k] == s[i].1,
    decreases s.len(),
{
    if i < s.len() - 1 {
        let p = s.drop_last();
        assert(s[s.len() - 1].0@ != k);
        assert(p[i] == s[i]);
        assert forall|j: int| i < j < p.len() implies p[j].0@ != k by {
            assert(p[j] == s[j]);
        }
        lemma_entries_map_last(p, k, i);
    }
}

impl<T> NamedTable<T> {
    /// An empty table.
    pub fn new() -> (r: NamedTable<T>)
        ensures
            r@ == Map::<Seq<char>, T>::empty(),
    {
        NamedTable { entries: Vec::new() }
    }

    /// Files `value` under `name`, replacing an earlier value.
    pub fn insert(&mut self, name: String, value: T)
        ensures
            final(self)@ == old(self)@.insert(name@, value),
    {
        let ghost before = self.entries@;
        self.entries.push((name, value));
        proof {
            assert(self.entries@.drop_last() =~= before);
        }
    }

    /// The value filed under `name`.
    pub fn get(&self, name: &str) -> (r: Option<&T>)
        ensures
            match r {
                Some(v) => self@.contains_key(name@) && self@[name@] == *v,
                None => !self@.contains_key(name@),
            },
    {
        let key = name.to_owned();
        let s = &self.entries;
        let mut i: usize = s.len();
        while i > 0
            invariant
                i <= s@.len(),
                s@ == self.entries@,
                key@ == name@,
                forall|j: int| i <= j < s@.len() ==> s@[j].0@ != name@,
            decreases i,
        {
            i = i - 1;
            if s[i].0 == key {
                proof {
                    lemma_entries_map_last(s@, name@, i as int);
                }
                return Some(&s[i].1);
            }
        }
        proof {
            lemma_entries_map_absent(s@, name@);
        }
        None
    }

    /// The value filed under the name whose characters are `name`.
    pub fn get_by_chars(&self, name: &Vec<char>) -> (r: Option<&T>)
        ensures
            match r {
                Some(v) => self@.contains_key(name@) && self@[name@] == *v,
                None => !self@.contains_key(name@),
            },
    {
        let s = &self.entries;
        let mut i: usize = s.len();
        while i > 0
            invariant
                i <= s@.len(),
                s@ == self.entries@,
                forall|j: int| i <= j < s@.len() ==> s@[j].0@ != name@,
            decreases i,
        {
            i = i - 1;
            if chars_equal(name, s[i].0.as_str()) {
                proof {
                    lemma_entries_map_last(s@, name@, i as int);
                }
                return Some(&s[i].1);
            }
        }
        proof {
            lemma_entries_map_absent(s@, name@);
        }
        None
    }

    /// The entries of the table in the order they were made; a later entry
    /// replaces an earlier one with the same name.
    pub fn entries(&self) -> (r: &Vec<(String, T)>)
        ensures
            entries_map(r@) == self@,
    {
        &self.entries
    }
}

} // verus!
