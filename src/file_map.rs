//! A small map from file names to contents, with unique names.
use vstd::prelude::*;

verus! {

/// A map from file names (or paths) to values, one entry per name. The
/// order in which names were added carries no meaning.
pub struct FileMap<V> {
    entries: Vec<(String, V)>,
}

impl<V: View> FileMap<V> {
    /// The names, in storage order.
    pub closed spec fn names(&self) -> Seq<Seq<char>> {
        self.entries@.map(|i: int, e: (String, V)| e.0@)
    }

    /// Well-formed: no name occurs twice.
    pub closed spec fn wf(&self) -> bool {
        self.names().no_duplicates()
    }

    proof fn lemma_view_at(&self, i: int)
        requires
            self.wf(),
            0 <= i < self.entries@.len(),
        ensures
            self@.contains_key(self.entries@[i].0@),
            self@[self.entries@[i].0@] == self.entries@[i].1@,
    {
        let k = self.entries@[i].0@;
        assert(self.names()[i] == k);
        assert(self.names().contains(k));
        let j = self.names().index_of(k);
        assert(self.names()[j] == k);
    }

    /// An empty map.
    pub fn new() -> (r: Self)
        ensures
            r.wf(),
            r@ == Map::<Seq<char>, V::V>::empty(),
    {
        let r = FileMap { entries: Vec::new() };
        assert(r@ =~= Map::<Seq<char>, V::V>::empty());
        r
    }

    /// The number of entries.
    pub fn len(&self) -> (r: usize)
        requires
            self.wf(),
        ensures
            r == self@.len(),
    {
        proof {
            self.names().unique_seq_to_set();
            assert(self@.dom() =~= self.names().to_set());
        }
        self.entries.len()
    }

    /// The index of the entry named `name`, if there is one.
    fn find(&self, name: &str) -> (r: Option<usize>)
        ensures
            match r {
                Some(i) => i < self.entries@.len() && self.entries@[i as int].0@ == name@,
                None => !self@.contains_key(name@),
            },
    {
        let key = name.to_owned();
        let mut i: usize = 0;
        while i < self.entries.len()
            invariant
                i <= self.entries@.len(),
                key@ == name@,
                forall|j: int| 0 <= j < i ==> self.names()[j] != name@,
            decreases self.entries@.len() - i,
        {
            if self.entries[i].0 == key {
                return Some(i);
            }
            i = i + 1;
        }
        proof {
            if self@.contains_key(name@) {
                let j = choose|j: int| 0 <= j < self.names().len() && self.names()[j] == name@;
                assert(self.names()[j] == name@);
            }
        }
        None
    }

    /// Whether an entry is named `name`.
    pub fn contains_key(&self, name: &str) -> (r: bool)
        requires
            self.wf(),
        ensures
            r == self@.contains_key(name@),
    {
        match self.find(name) {
            Some(i) => {
                proof {
                    self.lemma_view_at(i as int);
                }
                true
            },
            None => false,
        }
    }

    /// The value named `name`, if there is one.
    pub fn get(&self, name: &str) -> (r: Option<&V>)
        requires
            self.wf(),
        ensures
            match r {
                Some(v) => self@.contains_key(name@) && v@ == self@[name@],
                None => !self@.contains_key(name@),
            },
    {
        match self.find(name) {
            Some(i) => {
                proof {
                    self.lemma_view_at(i as int);
                }
                Some(&self.entries[i].1)
            },
            None => None,
        }
    }

    /// Sets the value named `name`, replacing any earlier one.
    pub fn insert(&mut self, name: String, value: V)
        requires
            old(self).wf(),
        ensures
            final(self).wf(),
            final(self)@ == old(self)@.insert(name@, value@),
    {
        let ghost before = self.names();
        let ghost key = name@;
        let ghost val = value@;
        let ghost pos: int;
        match self.find(name.as_str()) {
            Some(i) => {
                self.entries.set(i, (name, value));
                assert(self.names() =~= before);
                proof {
                    pos = i as int;
                }
            },
            None => {
                self.entries.push((name, value));
                assert(self.names() =~= before.push(key));
                assert(!before.contains(key));
                assert forall|a: int, b: int|
                    0 <= a < self.names().len() && 0 <= b < self.names().len() && a != b
                    implies self.names()[a] != self.names()[b] by {
                    if a < before.len() && b < before.len() {
                    } else if a < before.len() {
                        assert(before[a] == self.names()[a]);
                    } else {
                        assert(before[b] == self.names()[b]);
                    }
                }
                proof {
                    pos = before.len() as int;
                }
            },
        }
        assert(self.wf());
        assert(0 <= pos < self.entries@.len() && self.names()[pos] == key);
        assert(forall|j: int| 0 <= j < self.entries@.len() && j != pos ==>
            self.entries@[j] == old(self).entries@[j] && j < before.len());
        proof {
            self.lemma_view_at(pos);
        }
        assert forall|k: Seq<char>|
            #[trigger] self@.contains_key(k) == old(self)@.insert(key, val).contains_key(k) by {
            if self.names().contains(k) && k != key {
                let j = choose|j: int| 0 <= j < self.names().len() && self.names()[j] == k;
                assert(j != pos);
                assert(before[j] == k);
                assert(before.contains(k));
            }
            if before.contains(k) {
                let j = choose|j: int| 0 <= j < before.len() && before[j] == k;
                assert(self.names()[j] == k);
                assert(self.names().contains(k));
            }
        }
        assert forall|k: Seq<char>| #[trigger]
            self@.contains_key(k) implies self@[k] == old(self)@.insert(key, val)[k] by {
            if k != key {
                let j = choose|j: int| 0 <= j < self.names().len() && self.names()[j] == k;
                self.lemma_view_at(j);
                assert(j != pos);
                assert(before[j] == k);
                old(self).lemma_view_at(j);
            }
        }
        assert(self@ =~= old(self)@.insert(key, val));
    }
}

impl<V: View> View for FileMap<V> {
    type V = Map<Seq<char>, V::V>;

    closed spec fn view(&self) -> Map<Seq<char>, V::V> {
        Map::new(
            |k: Seq<char>| self.names().contains(k),
            |k: Seq<char>| self.entries@[self.names().index_of(k)].1@,
        )
    }
}

} // verus!
