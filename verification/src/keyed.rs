//! Small maps keyed by text, kept as lists so that their contents can be
//! reasoned about.
use vstd::prelude::*;
use crate::text::str_eq;

verus! {

/// A map from text keys to values. Inserting a key that is present replaces
/// its value, as a `HashMap` does.
pub struct StrMap<V> {
    entries: Vec<(String, V)>,
}

impl<V> StrMap<V> {
    /// No key occurs twice.
    pub closed spec fn wf(&self) -> bool {
        forall|i: int, j: int|
            0 <= i < j < self.entries@.len() ==> #[trigger] self.entries@[i].0@
                != #[trigger] self.entries@[j].0@
    }

    /// The keys in the order they were first inserted.
    pub closed spec fn key_seq(&self) -> Seq<Seq<char>> {
        self.entries@.map_values(|e: (String, V)| e.0@)
    }

    /// The value stored under each key.
    pub closed spec fn view(&self) -> Map<Seq<char>, V> {
        Map::new(
            |k: Seq<char>| exists|i: int| 0 <= i < self.entries@.len() && self.entries@[i].0@ == k,
            |k: Seq<char>|
                self.entries@[choose|i: int|
                    0 <= i < self.entries@.len() && self.entries@[i].0@ == k].1,
        )
    }


    /// A key present in the map is among its keys.
    pub proof fn lemma_dom_keys(&self, k: Seq<char>)
        requires
            self.wf(),
            self.view().contains_key(k),
        ensures
            self.key_seq().contains(k),
    {
        let i = choose|i: int| 0 <= i < self.entries@.len() && self.entries@[i].0@ == k;
        assert(self.key_seq()[i] == k);
    }

    /// Every key is present in the map.
    pub proof fn lemma_keys_in_dom(&self)
        requires
            self.wf(),
        ensures
            forall|i: int| 0 <= i < self.key_seq().len() ==> self.view().contains_key(#[trigger] self.key_seq()[i]),
    {
        assert forall|i: int| 0 <= i < self.key_seq().len() implies self.view().contains_key(#[trigger] self.key_seq()[i]) by {
            self.lemma_view_at(i);
        }
    }

    /// An empty map.
    pub fn new() -> (r: Self)
        ensures
            r.wf(),
            r.view() == Map::<Seq<char>, V>::empty(),
            r.key_seq() == Seq::<Seq<char>>::empty(),
    {
        let r = StrMap { entries: Vec::new() };
        assert(r.view() =~= Map::<Seq<char>, V>::empty());
        assert(r.key_seq() =~= Seq::<Seq<char>>::empty());
        r
    }

    /// The number of keys.
    pub fn len(&self) -> (r: usize)
        requires
            self.wf(),
        ensures
            r == self.key_seq().len(),
    {
        self.entries.len()
    }

    /// The position of `key` among the entries.
    fn position(&self, key: &str) -> (r: Option<usize>)
        requires
            self.wf(),
        ensures
            r matches Some(i) ==> i < self.entries@.len() && self.entries@[i as int].0@ == key@,
            r is None ==> forall|i: int|
                0 <= i < self.entries@.len() ==> self.entries@[i].0@ != key@,
    {
        let mut i: usize = 0;
        while i < self.entries.len()
            invariant
                i <= self.entries@.len(),
                forall|j: int| 0 <= j < i ==> self.entries@[j].0@ != key@,
            decreases self.entries.len() - i,
        {
            if str_eq(self.entries[i].0.as_str(), key) {
                return Some(i);
            }
            i = i + 1;
        }
        None
    }

    proof fn lemma_view_at(&self, i: int)
        requires
            self.wf(),
            0 <= i < self.entries@.len(),
        ensures
            self.view().dom().contains(self.entries@[i].0@),
            self.view()[self.entries@[i].0@] == self.entries@[i].1,
    {
        let k = self.entries@[i].0@;
        assert(exists|j: int| 0 <= j < self.entries@.len() && self.entries@[j].0@ == k);
        let j = choose|j: int| 0 <= j < self.entries@.len() && self.entries@[j].0@ == k;
        if j != i {
            if j < i {
                assert(self.entries@[j].0@ != self.entries@[i].0@);
            } else {
                assert(self.entries@[i].0@ != self.entries@[j].0@);
            }
        }
    }

    /// The value stored under `key`, if any.
    pub fn get(&self, key: &str) -> (r: Option<&V>)
        requires
            self.wf(),
        ensures
            r matches Some(v) ==> self.view().dom().contains(key@) && *v == self.view()[key@],
            r is None ==> !self.view().dom().contains(key@),
    {
        match self.position(key) {
            Some(i) => {
                proof {
                    self.lemma_view_at(i as int);
                }
                Some(&self.entries[i].1)
            },
            None => None,
        }
    }

    /// Whether `key` is present.
    pub fn contains_key(&self, key: &str) -> (r: bool)
        requires
            self.wf(),
        ensures
            r == self.view().dom().contains(key@),
    {
        self.get(key).is_some()
    }

    /// Stores `value` under `key`, replacing what was there.
    pub fn insert(&mut self, key: String, value: V)
        requires
            old(self).wf(),
        ensures
            final(self).wf(),
            final(self).view() == old(self).view().insert(key@, value),
            old(self).view().dom().contains(key@) ==> final(self).key_seq() == old(self).key_seq(),
            !old(self).view().dom().contains(key@) ==> final(self).key_seq() == old(
                self,
            ).key_seq().push(key@),
    {
        let ghost k = key@;
        let ghost old_view = self.view();
        match self.position(key.as_str()) {
            Some(i) => {
                let ghost before = self.entries@;
                self.entries.set(i, (key, value));
                proof {
                    assert(self.key_seq() =~= old(self).key_seq());
                    assert forall|a: int, b: int|
                        0 <= a < b < self.entries@.len() implies #[trigger] self.entries@[a].0@
                        != #[trigger] self.entries@[b].0@ by {
                        assert(before[a].0@ != before[b].0@);
                    }
                    assert forall|q: Seq<char>|
                        self.view().dom().contains(q) <==> old_view.insert(
                            k,
                            value,
                        ).dom().contains(q) by {
                        if old_view.dom().contains(q) {
                            let j = choose|j: int|
                                0 <= j < before.len() && before[j].0@ == q;
                            assert(self.entries@[j].0@ == q);
                        }
                        if self.view().dom().contains(q) {
                            let j = choose|j: int|
                                0 <= j < self.entries@.len() && self.entries@[j].0@ == q;
                            assert(before[j].0@ == q);
                        }
                    }
                    assert forall|q: Seq<char>| #[trigger]
                        self.view().dom().contains(q) implies self.view()[q] == old_view.insert(
                            k,
                            value,
                        )[q] by {
                        let j = choose|j: int|
                            0 <= j < self.entries@.len() && self.entries@[j].0@ == q;
                        self.lemma_view_at(j);
                        if q != k {
                            old(self).lemma_view_at(j);
                        }
                    }
                    assert(self.view() =~= old_view.insert(k, value));
                }
            },
            None => {
                let ghost before = self.entries@;
                self.entries.push((key, value));
                proof {
                    assert(self.key_seq() =~= old(self).key_seq().push(k));
                    assert forall|a: int, b: int|
                        0 <= a < b < self.entries@.len() implies #[trigger] self.entries@[a].0@
                        != #[trigger] self.entries@[b].0@ by {
                        if b < before.len() {
                            assert(before[a].0@ != before[b].0@);
                        }
                    }
                    assert forall|q: Seq<char>|
                        self.view().dom().contains(q) <==> old_view.insert(
                            k,
                            value,
                        ).dom().contains(q) by {
                        if old_view.dom().contains(q) {
                            let j = choose|j: int|
                                0 <= j < before.len() && before[j].0@ == q;
                            assert(self.entries@[j].0@ == q);
                        }
                        if self.view().dom().contains(q) && q != k {
                            let j = choose|j: int|
                                0 <= j < self.entries@.len() && self.entries@[j].0@ == q;
                            assert(j < before.len());
                            assert(before[j].0@ == q);
                        }
                        if q == k {
                            assert(self.entries@[before.len() as int].0@ == q);
                        }
                    }
                    assert forall|q: Seq<char>| #[trigger]
                        self.view().dom().contains(q) implies self.view()[q] == old_view.insert(
                            k,
                            value,
                        )[q] by {
                        let j = choose|j: int|
                            0 <= j < self.entries@.len() && self.entries@[j].0@ == q;
                        self.lemma_view_at(j);
                        if q != k {
                            assert(j < before.len());
                            old(self).lemma_view_at(j);
                        }
                    }
                    assert(self.view() =~= old_view.insert(k, value));
                }
            },
        }
    }
}

/// The key of a slot entry.
pub open spec fn slot_key<V>(e: ((String, usize), V)) -> (Seq<char>, usize) {
    (e.0.0@, e.0.1)
}

/// A map from a text and a number, such as a card and which of its copies, to
/// values. Inserting a key that is present replaces its value.
pub struct SlotMap<V> {
    entries: Vec<((String, usize), V)>,
}

impl<V> SlotMap<V> {
    /// No key occurs twice.
    pub closed spec fn wf(&self) -> bool {
        forall|i: int, j: int|
            0 <= i < j < self.entries@.len() ==> #[trigger] slot_key(self.entries@[i])
                != #[trigger] slot_key(self.entries@[j])
    }

    /// The keys in the order they were first inserted.
    pub closed spec fn key_seq(&self) -> Seq<(Seq<char>, usize)> {
        self.entries@.map_values(|e: ((String, usize), V)| slot_key(e))
    }

    /// The value stored under each key.
    pub closed spec fn view(&self) -> Map<(Seq<char>, usize), V> {
        Map::new(
            |k: (Seq<char>, usize)| exists|i: int| 0 <= i < self.entries@.len() && slot_key(self.entries@[i]) == k,
            |k: (Seq<char>, usize)|
                self.entries@[choose|i: int|
                    0 <= i < self.entries@.len() && slot_key(self.entries@[i]) == k].1,
        )
    }

    /// An empty map.
    pub fn new() -> (r: Self)
        ensures
            r.wf(),
            r.view() == Map::<(Seq<char>, usize), V>::empty(),
            r.key_seq() == Seq::<(Seq<char>, usize)>::empty(),
    {
        let r = SlotMap { entries: Vec::new() };
        assert(r.view() =~= Map::<(Seq<char>, usize), V>::empty());
        assert(r.key_seq() =~= Seq::<(Seq<char>, usize)>::empty());
        r
    }

    /// The number of keys.
    pub fn len(&self) -> (r: usize)
        requires
            self.wf(),
        ensures
            r == self.key_seq().len(),
    {
        self.entries.len()
    }

    /// The position of `(name, index)` among the entries.
    fn position(&self, name: &str, index: usize) -> (r: Option<usize>)
        requires
            self.wf(),
        ensures
            r matches Some(i) ==> i < self.entries@.len() && slot_key(self.entries@[i as int]) == (name@, index),
            r is None ==> forall|i: int|
                0 <= i < self.entries@.len() ==> slot_key(self.entries@[i]) != (name@, index),
    {
        let mut i: usize = 0;
        while i < self.entries.len()
            invariant
                i <= self.entries@.len(),
                forall|j: int| 0 <= j < i ==> slot_key(self.entries@[j]) != (name@, index),
            decreases self.entries.len() - i,
        {
            if self.entries[i].0.1 == index && str_eq(self.entries[i].0.0.as_str(), name) {
                return Some(i);
            }
            i = i + 1;
        }
        None
    }

    proof fn lemma_view_at(&self, i: int)
        requires
            self.wf(),
            0 <= i < self.entries@.len(),
        ensures
            self.view().dom().contains(slot_key(self.entries@[i])),
            self.view()[slot_key(self.entries@[i])] == self.entries@[i].1,
    {
        let k = slot_key(self.entries@[i]);
        assert(exists|j: int| 0 <= j < self.entries@.len() && slot_key(self.entries@[j]) == k);
        let j = choose|j: int| 0 <= j < self.entries@.len() && slot_key(self.entries@[j]) == k;
        if j != i {
            if j < i {
                assert(slot_key(self.entries@[j]) != slot_key(self.entries@[i]));
            } else {
                assert(slot_key(self.entries@[i]) != slot_key(self.entries@[j]));
            }
        }
    }

    /// The value stored under `(name, index)`, if any.
    pub fn get(&self, name: &str, index: usize) -> (r: Option<&V>)
        requires
            self.wf(),
        ensures
            r matches Some(v) ==> self.view().dom().contains((name@, index)) && *v == self.view()[(name@, index)],
            r is None ==> !self.view().dom().contains((name@, index)),
    {
        match self.position(name, index) {
            Some(i) => {
                proof {
                    self.lemma_view_at(i as int);
                }
                Some(&self.entries[i].1)
            },
            None => None,
        }
    }

    /// Whether `(name, index)` is present.
    pub fn contains_key(&self, name: &str, index: usize) -> (r: bool)
        requires
            self.wf(),
        ensures
            r == self.view().dom().contains((name@, index)),
    {
        self.get(name, index).is_some()
    }

    /// Stores `value` under `(name, index)`, replacing what was there.
    pub fn insert(&mut self, name: String, index: usize, value: V)
        requires
            old(self).wf(),
        ensures
            final(self).wf(),
            final(self).view() == old(self).view().insert((name@, index), value),
            old(self).view().dom().contains((name@, index)) ==> final(self).key_seq() == old(self).key_seq(),
            !old(self).view().dom().contains((name@, index)) ==> final(self).key_seq() == old(
                self,
            ).key_seq().push((name@, index)),
    {
        let ghost k = (name@, index);
        let ghost old_view = self.view();
        match self.position(name.as_str(), index) {
            Some(i) => {
                let ghost before = self.entries@;
                self.entries.set(i, ((name, index), value));
                proof {
                    assert(self.key_seq() =~= old(self).key_seq());
                    assert forall|a: int, b: int|
                        0 <= a < b < self.entries@.len() implies #[trigger] slot_key(self.entries@[a])
                        != #[trigger] slot_key(self.entries@[b]) by {
                        assert(slot_key(before[a]) != slot_key(before[b]));
                    }
                    assert forall|q: (Seq<char>, usize)|
                        self.view().dom().contains(q) <==> old_view.insert(
                            k,
                            value,
                        ).dom().contains(q) by {
                        if old_view.dom().contains(q) {
                            let j = choose|j: int|
                                0 <= j < before.len() && slot_key(before[j]) == q;
                            assert(slot_key(self.entries@[j]) == q);
                        }
                        if self.view().dom().contains(q) {
                            let j = choose|j: int|
                                0 <= j < self.entries@.len() && slot_key(self.entries@[j]) == q;
                            assert(slot_key(before[j]) == q);
                        }
                    }
                    assert forall|q: (Seq<char>, usize)| #[trigger]
                        self.view().dom().contains(q) implies self.view()[q] == old_view.insert(
                            k,
                            value,
                        )[q] by {
                        let j = choose|j: int|
                            0 <= j < self.entries@.len() && slot_key(self.entries@[j]) == q;
                        self.lemma_view_at(j);
                        if q != k {
                            old(self).lemma_view_at(j);
                        }
                    }
                    assert(self.view() =~= old_view.insert(k, value));
                }
            },
            None => {
                let ghost before = self.entries@;
                self.entries.push(((name, index), value));
                proof {
                    assert(self.key_seq() =~= old(self).key_seq().push(k));
                    assert forall|a: int, b: int|
                        0 <= a < b < self.entries@.len() implies #[trigger] slot_key(self.entries@[a])
                        != #[trigger] slot_key(self.entries@[b]) by {
                        if b < before.len() {
                            assert(slot_key(before[a]) != slot_key(before[b]));
                        }
                    }
                    assert forall|q: (Seq<char>, usize)|
                        self.view().dom().contains(q) <==> old_view.insert(
                            k,
                            value,
                        ).dom().contains(q) by {
                        if old_view.dom().contains(q) {
                            let j = choose|j: int|
                                0 <= j < before.len() && slot_key(before[j]) == q;
                            assert(slot_key(self.entries@[j]) == q);
                        }
                        if self.view().dom().contains(q) && q != k {
                            let j = choose|j: int|
                                0 <= j < self.entries@.len() && slot_key(self.entries@[j]) == q;
                            assert(j < before.len());
                            assert(slot_key(before[j]) == q);
                        }
                        if q == k {
                            assert(slot_key(self.entries@[before.len() as int]) == q);
                        }
                    }
                    assert forall|q: (Seq<char>, usize)| #[trigger]
                        self.view().dom().contains(q) implies self.view()[q] == old_view.insert(
                            k,
                            value,
                        )[q] by {
                        let j = choose|j: int|
                            0 <= j < self.entries@.len() && slot_key(self.entries@[j]) == q;
                        self.lemma_view_at(j);
                        if q != k {
                            assert(j < before.len());
                            old(self).lemma_view_at(j);
                        }
                    }
                    assert(self.view() =~= old_view.insert(k, value));
                }
            },
        }
    }
}

} // verus!
