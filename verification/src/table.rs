//! Tables and sets whose keys are texts.
//!
//! No key occurs twice. In which order the entries stand is left open.
use vstd::prelude::*;

use crate::text::{same, texts};

verus! {

/// A table from texts to values.
pub struct TextMap<V> {
    entries: Vec<(String, V)>,
}

/// The entries as pairs of a text and a value.
pub open spec fn pairs_of<V>(entries: Seq<(String, V)>) -> Seq<(Seq<char>, V)> {
    entries.map_values(|e: (String, V)| (e.0@, e.1))
}

/// Whether no key occurs twice.
pub open spec fn keys_differ<V>(pairs: Seq<(Seq<char>, V)>) -> bool {
    forall|i: int, j: int|
        0 <= i < pairs.len() && 0 <= j < pairs.len() && i != j ==> (#[trigger] pairs[i]).0 != (
        #[trigger] pairs[j]).0
}

/// Whether a key occurs.
pub open spec fn has_key<V>(pairs: Seq<(Seq<char>, V)>, k: Seq<char>) -> bool {
    exists|i: int| 0 <= i < pairs.len() && (#[trigger] pairs[i]).0 == k
}

/// Where a key occurs.
pub open spec fn place_of<V>(pairs: Seq<(Seq<char>, V)>, k: Seq<char>) -> int {
    choose|i: int| 0 <= i < pairs.len() && (#[trigger] pairs[i]).0 == k
}

/// The table that the pairs make up.
pub open spec fn map_of<V>(pairs: Seq<(Seq<char>, V)>) -> Map<Seq<char>, V> {
    Map::new(|k: Seq<char>| has_key(pairs, k), |k: Seq<char>| pairs[place_of(pairs, k)].1)
}

/// The first parts of the pairs.
pub open spec fn firsts<V>(pairs: Seq<(Seq<char>, V)>) -> Seq<Seq<char>> {
    pairs.map_values(|p: (Seq<char>, V)| p.0)
}

proof fn lemma_place<V>(pairs: Seq<(Seq<char>, V)>, i: int)
    requires
        keys_differ(pairs),
        0 <= i < pairs.len(),
    ensures
        has_key(pairs, pairs[i].0),
        place_of(pairs, pairs[i].0) == i,
        map_of(pairs).contains_key(pairs[i].0),
        map_of(pairs)[pairs[i].0] == pairs[i].1,
{
    let k = pairs[i].0;
    assert(has_key(pairs, k));
    let j = place_of(pairs, k);
    assert(pairs[j].0 == k);
}

proof fn lemma_push<V>(pairs: Seq<(Seq<char>, V)>, k: Seq<char>, v: V)
    requires
        keys_differ(pairs),
        !has_key(pairs, k),
    ensures
        keys_differ(pairs.push((k, v))),
        map_of(pairs.push((k, v))) == map_of(pairs).insert(k, v),
{
    let after = pairs.push((k, v));
    assert(after[pairs.len() as int].0 == k);
    lemma_place(after, pairs.len() as int);
    assert forall|x: Seq<char>| map_of(after).contains_key(x) <==> map_of(pairs).insert(
        k,
        v,
    ).contains_key(x) by {
        if has_key(pairs, x) {
            let i = place_of(pairs, x);
            assert(after[i].0 == x);
        }
        if has_key(after, x) && x != k {
            let i = place_of(after, x);
            assert(pairs[i].0 == x);
        }
    }
    assert forall|x: Seq<char>| has_key(after, x) implies #[trigger] map_of(after)[x] == map_of(
        pairs,
    ).insert(k, v)[x] by {
        if x != k {
            let i = place_of(after, x);
            assert(pairs[i].0 == x);
            lemma_place(pairs, i);
            lemma_place(after, i);
        }
    }
    assert(map_of(after) =~= map_of(pairs).insert(k, v));
}

proof fn lemma_update<V>(pairs: Seq<(Seq<char>, V)>, i: int, v: V)
    requires
        keys_differ(pairs),
        0 <= i < pairs.len(),
    ensures
        keys_differ(pairs.update(i, (pairs[i].0, v))),
        map_of(pairs.update(i, (pairs[i].0, v))) == map_of(pairs).insert(pairs[i].0, v),
{
    let k = pairs[i].0;
    let after = pairs.update(i, (k, v));
    assert forall|j: int| 0 <= j < pairs.len() implies (#[trigger] after[j]).0 == pairs[j].0 by {}
    lemma_place(pairs, i);
    assert forall|x: Seq<char>| map_of(after).contains_key(x) <==> map_of(pairs).insert(
        k,
        v,
    ).contains_key(x) by {
        if has_key(pairs, x) {
            let j = place_of(pairs, x);
            assert(after[j].0 == x);
        }
        if has_key(after, x) {
            let j = place_of(after, x);
            assert(pairs[j].0 == x);
        }
    }
    assert forall|x: Seq<char>| has_key(after, x) implies #[trigger] map_of(after)[x] == map_of(
        pairs,
    ).insert(k, v)[x] by {
        let j = place_of(after, x);
        assert(after[j].0 == x);
        lemma_place(pairs, j);
        lemma_place(after, j);
    }
    assert(map_of(after) =~= map_of(pairs).insert(k, v));
}

proof fn lemma_remove<V>(pairs: Seq<(Seq<char>, V)>, i: int)
    requires
        keys_differ(pairs),
        0 <= i < pairs.len(),
    ensures
        keys_differ(pairs.remove(i)),
        map_of(pairs.remove(i)) == map_of(pairs).remove(pairs[i].0),
{
    let k = pairs[i].0;
    let after = pairs.remove(i);
    assert forall|a: int, b: int|
        0 <= a < after.len() && 0 <= b < after.len() && a != b implies (#[trigger] after[a]).0 != (
    #[trigger] after[b]).0 by {
        let a0 = if a < i {
            a
        } else {
            a + 1
        };
        let b0 = if b < i {
            b
        } else {
            b + 1
        };
        assert(pairs[a0].0 != pairs[b0].0);
    }
    assert forall|x: Seq<char>| map_of(after).contains_key(x) <==> map_of(pairs).remove(
        k,
    ).contains_key(x) by {
        if has_key(pairs, x) && x != k {
            let j = place_of(pairs, x);
            let j1 = if j < i {
                j
            } else {
                j - 1
            };
            assert(after[j1].0 == x);
        }
        if has_key(after, x) {
            let j = place_of(after, x);
            let j0 = if j < i {
                j
            } else {
                j + 1
            };
            assert(pairs[j0].0 == x);
            assert(pairs[i].0 != pairs[j0].0);
        }
    }
    assert forall|x: Seq<char>| has_key(after, x) implies #[trigger] map_of(after)[x] == map_of(
        pairs,
    ).remove(k)[x] by {
        let j = place_of(after, x);
        let j0 = if j < i {
            j
        } else {
            j + 1
        };
        assert(after[j].0 == x);
        assert(pairs[j0] == after[j]);
        lemma_place(pairs, j0);
        lemma_place(after, j);
    }
    assert(map_of(after) =~= map_of(pairs).remove(k));
}

impl<V> View for TextMap<V> {
    type V = Map<Seq<char>, V>;

    closed spec fn view(&self) -> Map<Seq<char>, V> {
        map_of(self.pairs())
    }
}

impl<V> TextMap<V> {
    /// The entries in a row.
    pub closed spec fn pairs(&self) -> Seq<(Seq<char>, V)> {
        pairs_of(self.entries@)
    }

    /// No key occurs twice.
    pub open spec fn wf(&self) -> bool {
        keys_differ(self.pairs())
    }

    /// The entries and the table say the same.
    pub proof fn pairs_are_the_table(&self)
        ensures
            self@ == map_of(self.pairs()),
            self.wf() ==> forall|i: int|
                0 <= i < self.pairs().len() ==> self@.contains_key((#[trigger] self.pairs()[i]).0)
                    && self@[self.pairs()[i].0] == self.pairs()[i].1,
            forall|k: Seq<char>|
                self@.contains_key(k) <==> exists|i: int|
                    0 <= i < self.pairs().len() && (#[trigger] self.pairs()[i]).0 == k,
    {
        if self.wf() {
            assert forall|i: int| 0 <= i < self.pairs().len() implies self@.contains_key(
                (#[trigger] self.pairs()[i]).0,
            ) && self@[self.pairs()[i].0] == self.pairs()[i].1 by {
                lemma_place(self.pairs(), i);
            }
        }
    }

    /// A table without entries.
    pub fn new() -> (t: Self)
        ensures
            t.wf(),
            t@ == Map::<Seq<char>, V>::empty(),
            t.pairs() == Seq::<(Seq<char>, V)>::empty(),
    {
        let t = TextMap { entries: Vec::new() };
        assert(t.pairs() =~= Seq::<(Seq<char>, V)>::empty());
        assert(t@ =~= Map::<Seq<char>, V>::empty());
        t
    }

    /// The number of entries.
    pub fn len(&self) -> (n: usize)
        ensures
            n == self.pairs().len(),
    {
        self.entries.len()
    }

    /// The key of the entry with this number.
    pub fn key_at(&self, i: usize) -> (k: &str)
        requires
            i < self.pairs().len(),
        ensures
            k@ == self.pairs()[i as int].0,
    {
        self.entries[i].0.as_str()
    }

    /// The value of the entry with this number.
    pub fn value_at(&self, i: usize) -> (v: &V)
        requires
            i < self.pairs().len(),
        ensures
            *v == self.pairs()[i as int].1,
    {
        &self.entries[i].1
    }

    fn position(&self, k: &str) -> (r: Option<usize>)
        ensures
            match r {
                Some(i) => i < self.pairs().len() && self.pairs()[i as int].0 == k@,
                None => !has_key(self.pairs(), k@),
            },
    {
        let mut i: usize = 0;
        while i < self.entries.len()
            invariant
                i <= self.entries@.len(),
                forall|j: int| 0 <= j < i ==> (#[trigger] self.pairs()[j]).0 != k@,
            decreases self.entries@.len() - i,
        {
            if same(self.entries[i].0.as_str(), k) {
                return Some(i);
            }
            i += 1;
        }
        None
    }

    /// Whether the table has this key.
    pub fn contains_key(&self, k: &str) -> (r: bool)
        ensures
            r == self@.contains_key(k@),
    {
        match self.position(k) {
            Some(i) => {
                assert(self.pairs()[i as int].0 == k@);
                true
            },
            None => false,
        }
    }

    /// The value under this key.
    pub fn get(&self, k: &str) -> (r: Option<&V>)
        requires
            self.wf(),
        ensures
            match r {
                Some(v) => self@.contains_key(k@) && *v == self@[k@],
                None => !self@.contains_key(k@),
            },
    {
        match self.position(k) {
            Some(i) => {
                proof {
                    lemma_place(self.pairs(), i as int);
                }
                Some(&self.entries[i].1)
            },
            None => None,
        }
    }

    /// Puts a value under this key, in place of one that was there.
    pub fn insert(&mut self, k: String, v: V)
        requires
            old(self).wf(),
        ensures
            final(self).wf(),
            final(self)@ == old(self)@.insert(k@, v),
    {
        let ghost before = self.pairs();
        match self.position(k.as_str()) {
            Some(i) => {
                self.entries[i] = (k, v);
                proof {
                    assert(self.pairs() =~= before.update(i as int, (k@, v)));
                    lemma_update(before, i as int, v);
                }
            },
            None => {
                self.entries.push((k, v));
                proof {
                    assert(self.pairs() =~= before.push((k@, v)));
                    lemma_push(before, k@, v);
                }
            },
        }
    }

    /// Takes out what stands under this key.
    pub fn remove(&mut self, k: &str) -> (r: Option<V>)
        requires
            old(self).wf(),
        ensures
            final(self).wf(),
            final(self)@ == old(self)@.remove(k@),
            match r {
                Some(v) => old(self)@.contains_key(k@) && v == old(self)@[k@],
                None => !old(self)@.contains_key(k@),
            },
    {
        let ghost before = self.pairs();
        match self.position(k) {
            Some(i) => {
                let e = self.entries.remove(i);
                proof {
                    assert(self.pairs() =~= before.remove(i as int));
                    lemma_place(before, i as int);
                    lemma_remove(before, i as int);
                }
                Some(e.1)
            },
            None => {
                assert(self@.remove(k@) =~= self@);
                None
            },
        }
    }

    /// Takes out every entry.
    pub fn clear(&mut self)
        ensures
            final(self).wf(),
            final(self)@ == Map::<Seq<char>, V>::empty(),
    {
        self.entries.clear();
        assert(self.pairs() =~= Seq::<(Seq<char>, V)>::empty());
        assert(self@ =~= Map::<Seq<char>, V>::empty());
    }
}

/// A set of texts.
pub struct TextSet {
    table: TextMap<()>,
}

impl View for TextSet {
    type V = Set<Seq<char>>;

    closed spec fn view(&self) -> Set<Seq<char>> {
        self.table@.dom()
    }
}

impl TextSet {
    /// No text occurs twice.
    pub closed spec fn wf(&self) -> bool {
        self.table.wf()
    }

    /// The texts in a row.
    pub closed spec fn items(&self) -> Seq<Seq<char>> {
        firsts(self.table.pairs())
    }

    /// The texts in a row are those of the set, each once.
    pub proof fn items_are_the_set(&self)
        requires
            self.wf(),
        ensures
            self.items().no_duplicates(),
            forall|x: Seq<char>| self@.contains(x) <==> self.items().contains(x),
    {
        self.table.pairs_are_the_table();
        let pairs = self.table.pairs();
        assert forall|i: int, j: int|
            0 <= i < self.items().len() && 0 <= j < self.items().len() && i
                != j implies self.items()[i] != self.items()[j] by {
            assert(pairs[i].0 != pairs[j].0);
        }
        assert forall|x: Seq<char>| self@.contains(x) <==> self.items().contains(x) by {
            if self@.contains(x) {
                let i = choose|i: int| 0 <= i < pairs.len() && (#[trigger] pairs[i]).0 == x;
                assert(self.items()[i] == x);
            }
            if self.items().contains(x) {
                let i = choose|i: int| 0 <= i < self.items().len() && self.items()[i] == x;
                assert(pairs[i].0 == x);
            }
        }
    }

    /// The empty set.
    pub fn new() -> (t: Self)
        ensures
            t.wf(),
            t@ == Set::<Seq<char>>::empty(),
    {
        let t = TextSet { table: TextMap::new() };
        assert(t@ =~= Set::<Seq<char>>::empty());
        t
    }

    /// The number of texts in the set.
    pub fn len(&self) -> (n: usize)
        ensures
            n == self.items().len(),
    {
        self.table.len()
    }

    /// Whether the text is in the set.
    pub fn contains(&self, k: &str) -> (r: bool)
        ensures
            r == self@.contains(k@),
    {
        self.table.contains_key(k)
    }

    /// Puts the text into the set.
    pub fn insert(&mut self, k: String)
        requires
            old(self).wf(),
        ensures
            final(self).wf(),
            final(self)@ == old(self)@.insert(k@),
    {
        self.table.insert(k, ());
        assert(self@ =~= old(self)@.insert(k@));
    }

    /// Takes the text out of the set.
    pub fn remove(&mut self, k: &str)
        requires
            old(self).wf(),
        ensures
            final(self).wf(),
            final(self)@ == old(self)@.remove(k@),
    {
        let _ = self.table.remove(k);
        assert(self@ =~= old(self)@.remove(k@));
    }

    /// Takes every text out of the set.
    pub fn clear(&mut self)
        ensures
            final(self).wf(),
            final(self)@ == Set::<Seq<char>>::empty(),
    {
        self.table.clear();
        assert(self@ =~= Set::<Seq<char>>::empty());
    }

    /// The texts of the set in a row.
    pub fn to_vec(&self) -> (r: Vec<String>)
        ensures
            texts(r@) == self.items(),
    {
        let mut r: Vec<String> = Vec::new();
        let mut i: usize = 0;
        while i < self.table.len()
            invariant
                i <= self.table.pairs().len(),
                texts(r@) == self.items().take(i as int),
            decreases self.table.pairs().len() - i,
        {
            let ghost before = r@;
            r.push(self.table.key_at(i).to_owned());
            proof {
                assert(texts(r@) =~= texts(before).push(self.items()[i as int]));
                assert(self.items().take(i + 1) =~= self.items().take(i as int).push(
                    self.items()[i as int],
                ));
            }
            i += 1;
        }
        assert(self.items().take(i as int) =~= self.items());
        r
    }
}

} // verus!
