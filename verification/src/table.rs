//! Name-keyed tables in which a later entry shadows an earlier one with the
//! same name, as inserting into a map does.
use vstd::prelude::*;

verus! {

/// Index of the last entry named `k`, if any.
pub open spec fn last_index<T>(s: Seq<(String, T)>, k: Seq<char>) -> Option<int>
    decreases s.len(),
{
    if s.len() == 0 {
        None
    } else if s.last().0@ == k {
        Some(s.len() - 1)
    } else {
        last_index(s.drop_last(), k)
    }
}

pub proof fn lemma_last_index<T>(s: Seq<(String, T)>, k: Seq<char>)
    ensures
        last_index(s, k) matches Some(i) ==> 0 <= i < s.len() && s[i].0@ == k && forall|j: int|
            i < j < s.len() ==> (#[trigger] s[j]).0@ != k,
        last_index(s, k) is None ==> forall|j: int| 0 <= j < s.len() ==> (#[trigger] s[j]).0@ != k,
    decreases s.len(),
{
    if s.len() > 0 {
        lemma_last_index(s.drop_last(), k);
        assert forall|j: int| 0 <= j < s.len() - 1 implies s.drop_last()[j] == s[j] by {}
    }
}

pub proof fn lemma_last_index_append<T>(a: Seq<(String, T)>, b: Seq<(String, T)>, k: Seq<char>)
    ensures
        last_index(a + b, k) == (match last_index(b, k) {
            Some(i) => Some(a.len() + i),
            None => last_index(a, k),
        }),
    decreases b.len(),
{
    if b.len() == 0 {
        assert(a + b =~= a);
    } else {
        assert((a + b).drop_last() =~= a + b.drop_last());
        lemma_last_index_append(a, b.drop_last(), k);
    }
}

/// The value of the last entry named `k`, if any.
pub open spec fn lookup_in<T>(s: Seq<(String, T)>, k: Seq<char>) -> Option<T> {
    match last_index(s, k) {
        Some(i) => Some(s[i].1),
        None => None,
    }
}

/// Index of the last entry keyed `k` in a table of plain keys.
pub open spec fn last_key<T>(s: Seq<(Seq<char>, T)>, k: Seq<char>) -> Option<int>
    decreases s.len(),
{
    if s.len() == 0 {
        None
    } else if s.last().0 == k {
        Some(s.len() - 1)
    } else {
        last_key(s.drop_last(), k)
    }
}

/// The value of the last entry keyed `k`, if any.
pub open spec fn lookup_key<T>(s: Seq<(Seq<char>, T)>, k: Seq<char>) -> Option<T> {
    match last_key(s, k) {
        Some(i) => Some(s[i].1),
        None => None,
    }
}

/// A table's entries, each name and value taken by its view.
pub open spec fn view_entries<T: View>(s: Seq<(String, T)>) -> Seq<(Seq<char>, T::V)> {
    s.map_values(|e: (String, T)| (e.0@, e.1@))
}

pub proof fn lemma_view_entries<T: View>(s: Seq<(String, T)>, k: Seq<char>)
    ensures
        last_key(view_entries(s), k) == last_index(s, k),
        view_entries(s).len() == s.len(),
    decreases s.len(),
{
    if s.len() > 0 {
        assert(view_entries(s).drop_last() =~= view_entries(s.drop_last()));
        lemma_view_entries(s.drop_last(), k);
    }
}

/// A list of named entries; looking a name up finds its latest entry.
pub struct NameTable<T> {
    entries: Vec<(String, T)>,
}

impl<T> NameTable<T> {
    pub closed spec fn entries(&self) -> Seq<(String, T)> {
        self.entries@
    }

    /// The value that the latest entry named `k` holds, if any.
    pub open spec fn lookup(&self, k: Seq<char>) -> Option<T> {
        lookup_in(self.entries(), k)
    }

    pub fn new() -> (r: NameTable<T>)
        ensures
            r.entries() == Seq::<(String, T)>::empty(),
    {
        NameTable { entries: Vec::new() }
    }

    pub fn len(&self) -> (r: usize)
        ensures
            r == self.entries().len(),
    {
        self.entries.len()
    }

    /// Adds an entry; it shadows any earlier entry of the same name.
    pub fn insert(&mut self, k: String, v: T)
        ensures
            final(self).entries() == old(self).entries().push((k, v)),
    {
        self.entries.push((k, v));
    }

    /// Adds all entries of `other` after this table's own.
    pub fn extend(&mut self, other: NameTable<T>)
        ensures
            final(self).entries() == old(self).entries() + other.entries(),
    {
        let mut o = other.entries;
        self.entries.append(&mut o);
    }

    /// Position of the latest entry named `k`.
    pub fn find(&self, k: &str) -> (r: Option<usize>)
        ensures
            r matches Some(i) ==> last_index(self.entries(), k@) == Some(i as int) && i < self.entries().len(),
            r is None ==> last_index(self.entries(), k@) is None,
    {
        proof {
            lemma_last_index(self.entries@, k@);
        }
        let key = String::from_str(k);
        let mut i = self.entries.len();
        proof {
            assert(self.entries@.subrange(0, i as int) =~= self.entries@);
        }
        while i > 0
            invariant
                i <= self.entries@.len(),
                key@ == k@,
                last_index(self.entries@, k@) == last_index(self.entries@.subrange(0, i as int), k@),
            decreases i,
        {
            let ghost pre = self.entries@.subrange(0, i as int);
            proof {
                assert(pre.drop_last() =~= self.entries@.subrange(0, i - 1));
                assert(pre.last() == self.entries@[i - 1]);
            }
            if self.entries[i - 1].0 == key {
                return Some(i - 1);
            }
            i = i - 1;
        }
        None
    }

    /// The entry at a position.
    pub fn at(&self, i: usize) -> (r: &T)
        requires
            i < self.entries().len(),
        ensures
            *r == self.entries()[i as int].1,
    {
        &self.entries[i].1
    }

    /// The name of the entry at a position.
    pub fn key_at(&self, i: usize) -> (r: &String)
        requires
            i < self.entries().len(),
        ensures
            *r == self.entries()[i as int].0,
    {
        &self.entries[i].0
    }
}

} // verus!
