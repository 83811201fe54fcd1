use vstd::prelude::*;

verus! {

/// One binding of a table: a name and what it stands for.
pub struct Entry<V> {
    name: String,
    value: V,
}

/// A table from names to values in which every name occurs at most once.
/// Its view is the finite map from each name's characters to its value.
pub struct NameMap<V> {
    entries: Vec<Entry<V>>,
}

impl<V> NameMap<V> {
    /// Whether the binding at `index` is the one for `key`.
    pub closed spec fn binds(&self, key: Seq<char>, index: int) -> bool {
        0 <= index < self.entries@.len() && self.entries@[index].name@ == key
    }

    /// No two bindings carry the same name.
    pub closed spec fn wf(&self) -> bool {
        forall|i: int, j: int|
            0 <= i < j < self.entries@.len() ==> self.entries@[i].name@ != self.entries@[j].name@
    }

    /// The value that each name is bound to.
    pub closed spec fn view(&self) -> Map<Seq<char>, V> {
        Map::new(
            |key: Seq<char>| exists|i: int| self.binds(key, i),
            |key: Seq<char>| self.entries@[choose|i: int| self.binds(key, i)].value,
        )
    }

    proof fn lemma_binding(&self, index: int)
        requires
            self.wf(),
            0 <= index < self.entries@.len(),
        ensures
            self@.dom().contains(self.entries@[index].name@),
            self@[self.entries@[index].name@] == self.entries@[index].value,
    {
        let key = self.entries@[index].name@;
        assert(self.binds(key, index));
        let chosen = choose|i: int| self.binds(key, i);
        assert(self.binds(key, chosen));
        assert(chosen == index);
    }

    /// The empty table.
    pub fn new() -> (table: Self)
        ensures
            table.wf(),
            table@ == Map::<Seq<char>, V>::empty(),
    {
        let table = NameMap { entries: Vec::new() };
        assert(table@ =~= Map::<Seq<char>, V>::empty());
        table
    }

    fn find(&self, key: &String) -> (found: Option<usize>)
        ensures
            match found {
                Some(index) => self.binds(key@, index as int),
                None => forall|i: int| !self.binds(key@, i),
            },
    {
        let mut index: usize = 0;
        while index < self.entries.len()
            invariant
                index <= self.entries@.len(),
                forall|i: int| 0 <= i < index ==> !self.binds(key@, i),
            decreases self.entries@.len() - index,
        {
            if self.entries[index].name.eq(key) {
                return Some(index);
            }
            index += 1;
        }
        None
    }

    /// Whether `key` is bound.
    pub fn contains(&self, key: &String) -> (bound: bool)
        requires
            self.wf(),
        ensures
            bound == self@.dom().contains(key@),
    {
        self.find(key).is_some()
    }

    /// The value bound to `key`, if any.
    pub fn get(&self, key: &String) -> (found: Option<&V>)
        requires
            self.wf(),
        ensures
            found is Some <==> self@.dom().contains(key@),
            found matches Some(value) ==> *value == self@[key@],
    {
        match self.find(key) {
            Some(index) => {
                proof {
                    self.lemma_binding(index as int);
                }
                Some(&self.entries[index].value)
            },
            None => None,
        }
    }

    /// Mutable access to the value bound to `key`, if any. Whatever the
    /// caller leaves in it is what the table then binds to `key`; no other
    /// binding changes.
    pub fn get_mut(&mut self, key: &String) -> (found: Option<&mut V>)
        requires
            old(self).wf(),
        ensures
            final(self).wf(),
            found is Some <==> old(self)@.dom().contains(key@),
            found matches Some(value) ==> *value == old(self)@[key@],
            found matches Some(value) ==> final(self)@ =~= old(self)@.insert(key@, *final(value)),
            found is None ==> final(self)@ =~= old(self)@,
    {
        match self.find(key) {
            Some(index) => {
                proof {
                    self.lemma_binding(index as int);
                    let before = *self;
                    assert forall|after: Self|
                        #![trigger after.wf()]
                        #![trigger after@]
                        after.entries@.len() == before.entries@.len() && after.entries@[index as int].name
                            == before.entries@[index as int].name && (forall|i: int|
                            0 <= i < before.entries@.len() && i != index ==> after.entries@[i]
                                == before.entries@[i]) implies after.wf() && after@
                        == before@.insert(key@, after.entries@[index as int].value) by {
                        Self::lemma_replaced(before, after, key@, index as int);
                    }
                }
                Some(&mut self.entries[index].value)
            },
            None => None,
        }
    }

    /// Binds `key` to `value`, replacing what `key` was bound to before.
    pub fn insert(&mut self, key: String, value: V)
        requires
            old(self).wf(),
        ensures
            final(self).wf(),
            final(self)@ == old(self)@.insert(key@, value),
    {
        let ghost before = *self;
        let ghost name = key@;
        match self.find(&key) {
            Some(index) => {
                self.entries.set(index, Entry { name: key, value });
                proof {
                    assert forall|k: Seq<char>, i: int| self.binds(k, i) == before.binds(k, i) by {}
                    Self::lemma_replaced(before, *self, name, index as int);
                }
            },
            None => {
                self.entries.push(Entry { name: key, value });
                proof {
                    Self::lemma_appended(before, *self, name);
                }
            },
        }
    }

    proof fn lemma_replaced(before: Self, after: Self, key: Seq<char>, index: int)
        requires
            before.wf(),
            before.binds(key, index),
            after.entries@.len() == before.entries@.len(),
            after.entries@[index].name@ == key,
            forall|i: int|
                0 <= i < before.entries@.len() && i != index ==> after.entries@[i]
                    == before.entries@[i],
        ensures
            after.wf(),
            after@ == before@.insert(key, after.entries@[index].value),
    {
        assert forall|k: Seq<char>, i: int| after.binds(k, i) == before.binds(k, i) by {}
        assert(after.wf()) by {
            assert forall|i: int, j: int| 0 <= i < j < after.entries@.len() implies after.entries@[i].name@
                != after.entries@[j].name@ by {
                assert(before.entries@[i].name@ != before.entries@[j].name@);
                assert(after.binds(after.entries@[i].name@, i));
                assert(after.binds(after.entries@[j].name@, j));
            }
        }
        let target = before@.insert(key, after.entries@[index].value);
        assert forall|k: Seq<char>| after@.dom().contains(k) == target.dom().contains(k) by {
            if after@.dom().contains(k) {
                let i = choose|i: int| after.binds(k, i);
                assert(before.binds(k, i));
            }
            if before@.dom().contains(k) {
                let i = choose|i: int| before.binds(k, i);
                assert(after.binds(k, i));
            }
            assert(after.binds(key, index));
        }
        assert forall|k: Seq<char>| after@.dom().contains(k) implies after@[k] == target[k] by {
            let i = choose|i: int| after.binds(k, i);
            assert(before.binds(k, i));
            after.lemma_binding(i);
            before.lemma_binding(i);
            if k == key {
                assert(i == index);
            }
        }
        assert(after@ =~= target);
    }

    proof fn lemma_appended(before: Self, after: Self, key: Seq<char>)
        requires
            before.wf(),
            forall|i: int| !before.binds(key, i),
            after.entries@.len() == before.entries@.len() + 1,
            after.entries@.last().name@ == key,
            forall|i: int| 0 <= i < before.entries@.len() ==> after.entries@[i] == before.entries@[i],
        ensures
            after.wf(),
            after@ == before@.insert(key, after.entries@.last().value),
    {
        let last = before.entries@.len() as int;
        assert forall|k: Seq<char>, i: int| 0 <= i < last implies after.binds(k, i)
            == before.binds(k, i) by {}
        assert(after.wf()) by {
            assert forall|i: int, j: int| 0 <= i < j < after.entries@.len() implies after.entries@[i].name@
                != after.entries@[j].name@ by {
                if j == last {
                    assert(!before.binds(key, i));
                } else {
                    assert(before.entries@[i].name@ != before.entries@[j].name@);
                }
            }
        }
        let target = before@.insert(key, after.entries@.last().value);
        assert(after.binds(key, last));
        assert forall|k: Seq<char>| after@.dom().contains(k) == target.dom().contains(k) by {
            if after@.dom().contains(k) {
                let i = choose|i: int| after.binds(k, i);
                if i != last {
                    assert(before.binds(k, i));
                }
            }
            if before@.dom().contains(k) {
                let i = choose|i: int| before.binds(k, i);
                assert(after.binds(k, i));
            }
        }
        assert forall|k: Seq<char>| after@.dom().contains(k) implies after@[k] == target[k] by {
            let i = choose|i: int| after.binds(k, i);
            after.lemma_binding(i);
            if i != last {
                assert(before.binds(k, i));
                before.lemma_binding(i);
            }
        }
        assert(after@ =~= target);
    }
}

} // verus!
