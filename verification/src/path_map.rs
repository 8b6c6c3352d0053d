//! A map keyed by path, kept as a list of entries in which no path occurs twice.
//!
//! vstd says what a `HashMap` holds only for key types whose hashing and
//! equality it knows to follow its model, and `String` is not among them. A
//! list of entries needs no more than the equality of two strings, which vstd
//! does specify, so everything that is said of this map is proved.

use vstd::prelude::*;

verus! {

/// The characters of the path of each entry, in the order of the entries.
pub open spec fn entry_paths<V>(entries: Seq<(String, V)>) -> Seq<Seq<char>> {
    Seq::new(entries.len(), |i: int| entries[i].0@)
}

/// The map that a list of entries stands for: each path with the value of
/// the entry that holds it.
pub open spec fn entries_map<V>(entries: Seq<(String, V)>) -> Map<Seq<char>, V> {
    Map::new(
        |path: Seq<char>| entry_paths(entries).contains(path),
        |path: Seq<char>| entries[entry_paths(entries).index_of(path)].1,
    )
}

/// In a list without a repeated path, each entry is what the map holds for
/// its path, and the map holds nothing else.
pub proof fn lemma_entries_map<V>(entries: Seq<(String, V)>)
    requires
        entry_paths(entries).no_duplicates(),
    ensures
        forall|i: int|
            0 <= i < entries.len() ==> entries_map(entries).dom().contains(
                #[trigger] entries[i].0@,
            ) && entries_map(entries)[entries[i].0@] == entries[i].1,
        forall|path: Seq<char>|
            entries_map(entries).dom().contains(path) ==> 0 <= entry_paths(entries).index_of(path)
                < entries.len() && #[trigger] entry_paths(entries)[entry_paths(entries).index_of(
                path,
            )] == path,
        entries_map(entries).dom() == entry_paths(entries).to_set(),
        entries_map(entries).dom().finite(),
        entries_map(entries).dom().len() == entries.len(),
{
    let paths = entry_paths(entries);
    assert forall|i: int| 0 <= i < entries.len() implies entries_map(entries).dom().contains(
        #[trigger] entries[i].0@,
    ) && entries_map(entries)[entries[i].0@] == entries[i].1 by {
        assert(paths[i] == entries[i].0@);
        assert(paths.contains(entries[i].0@));
        let j = paths.index_of(entries[i].0@);
        assert(paths[j] == paths[i]);
    }
    assert(entries_map(entries).dom() =~= paths.to_set());
    paths.unique_seq_to_set();
    vstd::seq_lib::seq_to_set_is_finite(paths);
}

/// A map from paths to values of type `V`.
pub struct PathMap<V> {
    entries: Vec<(String, V)>,
}

impl<V> View for PathMap<V> {
    type V = Map<Seq<char>, V>;

    closed spec fn view(&self) -> Map<Seq<char>, V> {
        entries_map(self.entries@)
    }
}

impl<V> PathMap<V> {
    #[verifier::type_invariant]
    spec fn well_formed(self) -> bool {
        entry_paths(self.entries@).no_duplicates()
    }

    /// A map without entries.
    pub fn new() -> (map: Self)
        ensures
            map@ == Map::<Seq<char>, V>::empty(),
    {
        let map = PathMap { entries: Vec::new() };
        assert(map@ =~= Map::<Seq<char>, V>::empty());
        map
    }

    /// The position of the entry for `path`, if there is one.
    fn position(&self, path: &String) -> (at: Option<usize>)
        ensures
            match at {
                Some(i) => i < self.entries.len() && self.entries[i as int].0@ == path@
                    && entry_paths(self.entries@).contains(path@),
                None => !entry_paths(self.entries@).contains(path@),
            },
    {
        let mut i: usize = 0;
        while i < self.entries.len()
            invariant
                i <= self.entries.len(),
                forall|j: int| 0 <= j < i ==> self.entries[j].0@ != path@,
            decreases self.entries.len() - i,
        {
            if self.entries[i].0 == *path {
                assert(entry_paths(self.entries@)[i as int] == path@);
                return Some(i);
            }
            i += 1;
        }
        None
    }

    /// The number of paths that have a value.
    pub fn len(&self) -> (count: usize)
        ensures
            self@.dom().finite(),
            count == self@.dom().len(),
    {
        proof {
            use_type_invariant(self);
            lemma_entries_map(self.entries@);
        }
        self.entries.len()
    }

    /// Whether `path` has a value.
    pub fn contains_key(&self, path: &String) -> (found: bool)
        ensures
            found == self@.dom().contains(path@),
    {
        self.position(path).is_some()
    }

    /// The value of `path`, if it has one.
    pub fn get(&self, path: &String) -> (value: Option<&V>)
        ensures
            match value {
                Some(held) => self@.dom().contains(path@) && *held == self@[path@],
                None => !self@.dom().contains(path@),
            },
    {
        proof {
            use_type_invariant(self);
            lemma_entries_map(self.entries@);
        }
        match self.position(path) {
            Some(i) => Some(&self.entries[i].1),
            None => None,
        }
    }

    /// Gives `path` the value `value`. A value that `path` had before is
    /// replaced; the other paths keep theirs.
    pub fn insert(&mut self, path: String, value: V)
        ensures
            final(self)@ == old(self)@.insert(path@, value),
    {
        proof {
            use_type_invariant(&*self);
            lemma_entries_map(self.entries@);
        }
        let ghost before = self.entries@;
        let found = self.position(&path);
        let mut entries: Vec<(String, V)> = Vec::new();
        assert(entry_paths(entries@) =~= Seq::<Seq<char>>::empty());
        std::mem::swap(&mut self.entries, &mut entries);
        match found {
            Some(i) => {
                entries.set(i, (path, value));
                proof {
                    let after = entries@;
                    assert(entry_paths(after) =~= entry_paths(before));
                    lemma_entries_map(after);
                    assert(entries_map(after) =~= entries_map(before).insert(path@, value)) by {
                        assert(after[i as int].0@ == path@);
                        assert(entries_map(after)[path@] == after[i as int].1);
                        assert forall|p: Seq<char>| entries_map(before).dom().contains(p) && p
                            != path@ implies entries_map(after)[p] == entries_map(before)[p] by {
                            let j = entry_paths(before).index_of(p);
                            assert(entry_paths(before)[j] == p);
                            assert(after[j] == before[j]);
                        }
                    }
                }
            },
            None => {
                entries.push((path, value));
                proof {
                    let after = entries@;
                    assert(entry_paths(after) =~= entry_paths(before).push(path@));
                    lemma_entries_map(after);
                    assert(entries_map(after) =~= entries_map(before).insert(path@, value)) by {
                        assert(after[before.len() as int].0@ == path@);
                        assert forall|p: Seq<char>| entries_map(before).dom().contains(p)
                            implies entries_map(after).dom().contains(p) && entries_map(after)[p]
                            == entries_map(before)[p] by {
                            let j = entry_paths(before).index_of(p);
                            assert(after[j] == before[j]);
                            assert(after[j].0@ == p);
                        }
                        assert forall|p: Seq<char>| entries_map(after).dom().contains(p) && p
                            != path@ implies entries_map(before).dom().contains(p) by {
                            let j = entry_paths(after).index_of(p);
                            assert(entry_paths(before)[j] == p);
                        }
                    }
                }
            },
        }
        self.entries = entries;
    }
}

} // verus!
