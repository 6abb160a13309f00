//! Name-keyed maps and name sets.
//!
//! Both are association vectors with unique keys, viewed as `Map` and `Set`
//! over byte-string names.  The entry order is exposed so that callers can
//! iterate deterministically.

use vstd::prelude::*;
use crate::bytes::bytes_eq;

verus! {

/// A set of names.
pub struct NameSet {
    items: Vec<Vec<u8>>,
}

impl View for NameSet {
    type V = Set<Seq<u8>>;

    closed spec fn view(&self) -> Set<Seq<u8>> {
        Set::new(|k: Seq<u8>| exists|i: int| 0 <= i < self.items@.len() && self.items@[i]@ == k)
    }
}

impl NameSet {
    /// The underlying item order.
    pub closed spec fn items_seq(&self) -> Seq<Seq<u8>> {
        self.items@.map_values(|v: Vec<u8>| v@)
    }

    /// Every listed item is in the set.
    pub proof fn lemma_items(&self)
        ensures
            forall|i: int|
                0 <= i < self.items_seq().len() ==> self@.contains(#[trigger] self.items_seq()[i]),
            forall|k: Seq<u8>|
                self@.contains(k) ==> exists|i: int|
                    0 <= i < self.items_seq().len() && self.items_seq()[i] == k,
    {
        assert forall|i: int| 0 <= i < self.items_seq().len() implies self@.contains(
            #[trigger] self.items_seq()[i],
        ) by {
            assert(self.items@[i]@ == self.items_seq()[i]);
        }
        assert forall|k: Seq<u8>| self@.contains(k) implies exists|i: int|
            0 <= i < self.items_seq().len() && self.items_seq()[i] == k by {
            let i = choose|i: int| 0 <= i < self.items@.len() && self.items@[i]@ == k;
            assert(self.items_seq()[i] == k);
        }
    }

    /// An empty set.
    pub fn new() -> (r: Self)
        ensures
            r@ == Set::<Seq<u8>>::empty(),
            r.items_seq() == Seq::<Seq<u8>>::empty(),
    {
        let r = NameSet { items: Vec::new() };
        proof {
            assert(r@ =~= Set::<Seq<u8>>::empty());
            assert(r.items_seq() =~= Seq::<Seq<u8>>::empty());
        }
        r
    }

    /// Whether the set holds `name`.
    pub fn contains(&self, name: &Vec<u8>) -> (r: bool)
        ensures
            r == self@.contains(name@),
    {
        let mut i: usize = 0;
        while i < self.items.len()
            invariant
                0 <= i <= self.items.len(),
                forall|j: int| 0 <= j < i ==> self.items@[j]@ != name@,
            decreases self.items.len() - i,
        {
            if bytes_eq(&self.items[i], name) {
                return true;
            }
            i = i + 1;
        }
        false
    }

    /// Add `name` to the set.
    pub fn insert(&mut self, name: &Vec<u8>)
        ensures
            final(self)@ == old(self)@.insert(name@),
            old(self)@.contains(name@) ==> final(self).items_seq() == old(self).items_seq(),
            !old(self)@.contains(name@) ==> final(self).items_seq() == old(self).items_seq().push(
                name@,
            ),
    {
        if !self.contains(name) {
            let copy = crate::bytes::copy_bytes(name);
            self.items.push(copy);
            proof {
                assert(self.items_seq() =~= old(self).items_seq().push(name@));
                assert forall|k: Seq<u8>| self@.contains(k) implies old(self)@.insert(
                    name@,
                ).contains(k) by {
                    let i = choose|i: int| 0 <= i < self.items@.len() && self.items@[i]@ == k;
                    if i < old(self).items@.len() {
                        assert(old(self).items@[i]@ == k);
                    }
                }
                assert forall|k: Seq<u8>| old(self)@.insert(name@).contains(k)
                    implies self@.contains(k) by {
                    if k == name@ {
                        assert(self.items@[self.items@.len() - 1]@ == k);
                    } else {
                        let i = choose|i: int|
                            0 <= i < old(self).items@.len() && old(self).items@[i]@ == k;
                        assert(self.items@[i]@ == k);
                    }
                }
                assert(self@ =~= old(self)@.insert(name@));
            }
        } else {
            proof {
                assert(self@ =~= old(self)@.insert(name@));
            }
        }
    }

    /// How many items the set lists.
    pub fn count(&self) -> (n: usize)
        ensures
            n == self.items_seq().len(),
    {
        self.items.len()
    }

    /// The `i`-th item.
    pub fn at(&self, i: usize) -> (r: &Vec<u8>)
        requires
            i < self.items_seq().len(),
        ensures
            r@ == self.items_seq()[i as int],
            self@.contains(r@),
    {
        &self.items[i]
    }

    /// An identical copy.
    pub fn clone_set(&self) -> (r: NameSet)
        ensures
            r@ == self@,
            r.items_seq() == self.items_seq(),
    {
        let mut items: Vec<Vec<u8>> = Vec::new();
        let mut i: usize = 0;
        while i < self.items.len()
            invariant
                0 <= i <= self.items.len(),
                items@.len() == i,
                forall|j: int| 0 <= j < i ==> items@[j]@ == self.items@[j]@,
            decreases self.items.len() - i,
        {
            items.push(crate::bytes::copy_bytes(&self.items[i]));
            i = i + 1;
        }
        let r = NameSet { items };
        proof {
            assert forall|j: int| 0 <= j < r.items_seq().len() implies r.items_seq()[j]
                == self.items_seq()[j] by {
                assert(r.items@[j]@ == self.items@[j]@);
            }
            assert(r.items_seq() =~= self.items_seq());
            assert forall|k: Seq<u8>| r@.contains(k) implies self@.contains(k) by {
                let i = choose|i: int| 0 <= i < r.items@.len() && r.items@[i]@ == k;
                assert(r.items_seq()[i] == k);
                assert(self.items@[i]@ == k);
            }
            assert forall|k: Seq<u8>| self@.contains(k) implies r@.contains(k) by {
                let i = choose|i: int| 0 <= i < self.items@.len() && self.items@[i]@ == k;
                assert(self.items_seq()[i] == k);
                assert(r.items@[i]@ == k);
            }
            assert(r@ =~= self@);
        }
        r
    }

    /// Whether the set is empty.
    pub fn is_empty(&self) -> (r: bool)
        ensures
            r <==> self@ == Set::<Seq<u8>>::empty(),
    {
        let r = self.items.len() == 0;
        proof {
            if self.items@.len() == 0 {
                assert(self@ =~= Set::<Seq<u8>>::empty());
            } else {
                assert(self@.contains(self.items@[0]@));
            }
        }
        r
    }
}

/// A map from names to values, with unique keys.
pub struct NameMap<V: View> {
    entries: Vec<(Vec<u8>, V)>,
}

/// The map induced by an entry sequence; later entries win.
pub open spec fn map_of<T>(s: Seq<(Seq<u8>, T)>) -> Map<Seq<u8>, T>
    decreases s.len(),
{
    if s.len() == 0 {
        Map::empty()
    } else {
        map_of(s.drop_last()).insert(s.last().0, s.last().1)
    }
}

impl<V: View> NameMap<V> {
    /// The underlying entries, in order.
    pub closed spec fn entries_seq(&self) -> Seq<(Seq<u8>, V::V)> {
        self.entries@.map_values(|e: (Vec<u8>, V)| (e.0@, e.1@))
    }

    /// Unique keys.
    pub open spec fn wf(&self) -> bool {
        forall|i: int, j: int|
            0 <= i < j < self.entries_seq().len() ==> self.entries_seq()[i].0
                != self.entries_seq()[j].0
    }
}

impl<V: View> View for NameMap<V> {
    type V = Map<Seq<u8>, V::V>;

    open spec fn view(&self) -> Map<Seq<u8>, V::V> {
        map_of(self.entries_seq())
    }
}

/// With keys to the left of `n` distinct from them, the keys of
/// `map_of(s)` restricted to `s.skip(n)` are exactly those listed there.
proof fn lemma_map_of_contains<T>(s: Seq<(Seq<u8>, T)>, k: Seq<u8>)
    ensures
        map_of(s).contains_key(k) <==> exists|i: int| 0 <= i < s.len() && s[i].0 == k,
    decreases s.len(),
{
    if s.len() > 0 {
        lemma_map_of_contains(s.drop_last(), k);
        if map_of(s).contains_key(k) {
            if s.last().0 == k {
                assert(s[s.len() - 1].0 == k);
            } else {
                let i = choose|i: int| 0 <= i < s.len() - 1 && s.drop_last()[i].0 == k;
                assert(s[i].0 == k);
            }
        }
        if exists|i: int| 0 <= i < s.len() && s[i].0 == k {
            let i = choose|i: int| 0 <= i < s.len() && s[i].0 == k;
            if i < s.len() - 1 {
                assert(s.drop_last()[i].0 == k);
            }
        }
    }
}

/// In a unique-key entry sequence, the map's value at a listed key is the
/// listed value.
proof fn lemma_map_of_at<T>(s: Seq<(Seq<u8>, T)>, i: int)
    requires
        0 <= i < s.len(),
        forall|x: int, y: int| 0 <= x < y < s.len() ==> s[x].0 != s[y].0,
    ensures
        map_of(s).contains_key(s[i].0),
        map_of(s)[s[i].0] == s[i].1,
    decreases s.len(),
{
    lemma_map_of_contains(s, s[i].0);
    if i < s.len() - 1 {
        assert(s.last().0 != s[i].0);
        assert(s.drop_last()[i] == s[i]);
        lemma_map_of_at(s.drop_last(), i);
    }
}

impl<V: View> NameMap<V> {
    /// The map's value at each listed entry is that entry's value.
    pub proof fn lemma_entries(&self)
        requires
            self.wf(),
        ensures
            forall|i: int|
                0 <= i < self.entries_seq().len() ==> self@.contains_key(
                    #[trigger] self.entries_seq()[i].0,
                ) && self@[self.entries_seq()[i].0] == self.entries_seq()[i].1,
            forall|k: Seq<u8>|
                self@.contains_key(k) ==> exists|i: int|
                    0 <= i < self.entries_seq().len() && self.entries_seq()[i].0 == k,
            self.entries_seq().len() == self@.dom().len(),
            self@.dom().finite(),
    {
        assert forall|i: int| 0 <= i < self.entries_seq().len() implies self@.contains_key(
            #[trigger] self.entries_seq()[i].0,
        ) && self@[self.entries_seq()[i].0] == self.entries_seq()[i].1 by {
            lemma_map_of_at(self.entries_seq(), i);
        }
        assert forall|k: Seq<u8>| self@.contains_key(k) implies exists|i: int|
            0 <= i < self.entries_seq().len() && self.entries_seq()[i].0 == k by {
            lemma_map_of_contains(self.entries_seq(), k);
        }

        lemma_map_of_len(self.entries_seq());
    }
}

/// A unique-key entry sequence induces a finite map with one key per entry.
proof fn lemma_map_of_len<T>(s: Seq<(Seq<u8>, T)>)
    requires
        forall|x: int, y: int| 0 <= x < y < s.len() ==> s[x].0 != s[y].0,
    ensures
        map_of(s).dom().finite(),
        map_of(s).dom().len() == s.len(),
    decreases s.len(),
{
    broadcast use vstd::set::axiom_set_insert_len;
    broadcast use vstd::set::axiom_set_insert_finite;
    broadcast use vstd::set::axiom_set_empty_len;

    if s.len() == 0 {
        assert(map_of(s).dom() =~= Set::empty());
    } else {
        lemma_map_of_len(s.drop_last());
        let k = s.last().0;
        lemma_map_of_contains(s.drop_last(), k);
        assert(!map_of(s.drop_last()).contains_key(k));
        assert(map_of(s).dom() =~= map_of(s.drop_last()).dom().insert(k));
    }
}

/// Removing a listed entry removes its key from the induced map.
proof fn lemma_map_of_remove<T>(s: Seq<(Seq<u8>, T)>, i: int)
    requires
        0 <= i < s.len(),
        forall|x: int, y: int| 0 <= x < y < s.len() ==> s[x].0 != s[y].0,
    ensures
        map_of(s.remove(i)) == map_of(s).remove(s[i].0),
    decreases s.len(),
{
    let k = s[i].0;
    if i == s.len() - 1 {
        assert(s.remove(i) =~= s.drop_last());
        lemma_map_of_contains(s.drop_last(), k);
        assert(!map_of(s.drop_last()).contains_key(k));
        assert(map_of(s.drop_last()).insert(k, s[i].1).remove(k) =~= map_of(s.drop_last()));
    } else {
        assert(s.remove(i).drop_last() =~= s.drop_last().remove(i));
        assert(s.remove(i).last() == s.last());
        lemma_map_of_remove(s.drop_last(), i);
        assert(s.last().0 != k);
        assert(map_of(s.remove(i)) == map_of(s.drop_last().remove(i)).insert(
            s.last().0,
            s.last().1,
        ));
        assert(map_of(s.drop_last()).remove(k).insert(s.last().0, s.last().1) =~= map_of(
            s.drop_last(),
        ).insert(s.last().0, s.last().1).remove(k));
    }
}

/// Removing an entry keeps the remaining keys unique.
proof fn lemma_remove_keeps_unique<T>(s: Seq<(Seq<u8>, T)>, i: int)
    requires
        0 <= i < s.len(),
        forall|x: int, y: int| 0 <= x < y < s.len() ==> s[x].0 != s[y].0,
    ensures
        forall|x: int, y: int|
            0 <= x < y < s.remove(i).len() ==> s.remove(i)[x].0 != s.remove(i)[y].0,
{
    assert forall|x: int, y: int| 0 <= x < y < s.remove(i).len() implies s.remove(i)[x].0
        != s.remove(i)[y].0 by {
        let x0: int = if x < i { x } else { x + 1 };
        let y0: int = if y < i { y } else { y + 1 };
        assert(s.remove(i)[x] == s[x0]);
        assert(s.remove(i)[y] == s[y0]);
    }
}

impl<V: View> NameMap<V> {
    /// An empty map.
    pub fn new() -> (r: Self)
        ensures
            r@ == Map::<Seq<u8>, V::V>::empty(),
            r.entries_seq() == Seq::<(Seq<u8>, V::V)>::empty(),
            r.wf(),
    {
        let r = NameMap::<V> { entries: Vec::new() };
        proof {
            assert(r.entries_seq() =~= Seq::<(Seq<u8>, V::V)>::empty());
        }
        r
    }

    /// How many entries the map holds.
    pub fn count(&self) -> (n: usize)
        ensures
            n == self.entries_seq().len(),
    {
        self.entries.len()
    }

    /// The key of the `i`-th entry.
    pub fn key_at(&self, i: usize) -> (r: &Vec<u8>)
        requires
            i < self.entries_seq().len(),
            self.wf(),
        ensures
            r@ == self.entries_seq()[i as int].0,
            self@.contains_key(r@),
            self@[r@] == self.entries_seq()[i as int].1,
    {
        proof {
            self.lemma_entries();
        }
        &self.entries[i].0
    }

    /// The value of the `i`-th entry.
    pub fn val_at(&self, i: usize) -> (r: &V)
        requires
            i < self.entries_seq().len(),
        ensures
            r@ == self.entries_seq()[i as int].1,
    {
        &self.entries[i].1
    }

    /// Look a name up.
    pub fn get(&self, name: &Vec<u8>) -> (r: Option<&V>)
        requires
            self.wf(),
        ensures
            match r {
                Some(v) => self@.contains_key(name@) && v@ == self@[name@],
                None => !self@.contains_key(name@),
            },
    {
        let mut i: usize = 0;
        while i < self.entries.len()
            invariant
                0 <= i <= self.entries.len(),
                self.wf(),
                forall|j: int| 0 <= j < i ==> self.entries@[j].0@ != name@,
            decreases self.entries.len() - i,
        {
            if bytes_eq(&self.entries[i].0, name) {
                proof {
                    self.lemma_entries();
                    assert(self.entries_seq()[i as int].0 == name@);
                    assert(self.entries_seq()[i as int].1 == self.entries@[i as int].1@);
                }
                return Some(&self.entries[i].1);
            }
            i = i + 1;
        }
        proof {
            self.lemma_entries();
            assert forall|j: int| 0 <= j < self.entries_seq().len()
                implies self.entries_seq()[j].0 != name@ by {
                assert(self.entries@[j].0@ != name@);
            }
            lemma_map_of_contains(self.entries_seq(), name@);
        }
        None
    }

    /// Whether the map holds `name`.
    pub fn contains_key(&self, name: &Vec<u8>) -> (r: bool)
        requires
            self.wf(),
        ensures
            r == self@.contains_key(name@),
    {
        self.get(name).is_some()
    }

    /// The index of a key among the entries.
    fn find(&self, name: &Vec<u8>) -> (r: Option<usize>)
        requires
            self.wf(),
        ensures
            match r {
                Some(i) => i < self.entries_seq().len() && self.entries_seq()[i as int].0 == name@,
                None => forall|j: int|
                    0 <= j < self.entries_seq().len() ==> self.entries_seq()[j].0 != name@,
            },
    {
        let mut i: usize = 0;
        while i < self.entries.len()
            invariant
                0 <= i <= self.entries.len(),
                forall|j: int| 0 <= j < i ==> self.entries@[j].0@ != name@,
            decreases self.entries.len() - i,
        {
            if bytes_eq(&self.entries[i].0, name) {
                proof {
                    assert(self.entries_seq()[i as int].0 == self.entries@[i as int].0@);
                }
                return Some(i);
            }
            i = i + 1;
        }
        proof {
            assert forall|j: int| 0 <= j < self.entries_seq().len()
                implies self.entries_seq()[j].0 != name@ by {
                assert(self.entries@[j].0@ != name@);
            }
        }
        None
    }

    /// Insert or overwrite one entry.
    pub fn insert(&mut self, name: &Vec<u8>, value: V)
        requires
            old(self).wf(),
        ensures
            final(self)@ == old(self)@.insert(name@, value@),
            final(self).wf(),
    {
        let ghost s0 = self.entries_seq();
        let found = self.find(name);
        if let Some(i) = found {
            proof {
                lemma_map_of_remove(s0, i as int);
                lemma_remove_keeps_unique(s0, i as int);
            }
            self.entries.remove(i);
            proof {
                assert(self.entries_seq() =~= s0.remove(i as int));
            }
        }
        let ghost s1 = self.entries_seq();
        let key = crate::bytes::copy_bytes(name);
        self.entries.push((key, value));
        proof {
            assert(self.entries_seq() =~= s1.push((name@, value@)));
            assert(self.entries_seq().drop_last() =~= s1);
            assert(map_of(self.entries_seq()) == map_of(s1).insert(name@, value@));
            if found is Some {
                let i = found->0 as int;
                assert(map_of(s1) == map_of(s0).remove(name@));
                assert(map_of(s0).remove(name@).insert(name@, value@) =~= map_of(s0).insert(
                    name@,
                    value@,
                ));
                assert forall|j: int| 0 <= j < s1.len() implies s1[j].0 != name@ by {
                    if j < i {
                        assert(s1[j] == s0[j]);
                    } else {
                        assert(s1[j] == s0[j + 1]);
                    }
                }
            }
            assert(self.wf());
        }
    }

    /// Remove one entry, if present.
    pub fn remove(&mut self, name: &Vec<u8>)
        requires
            old(self).wf(),
        ensures
            final(self)@ == old(self)@.remove(name@),
            final(self).wf(),
    {
        let ghost s0 = self.entries_seq();
        let found = self.find(name);
        if let Some(i) = found {
            proof {
                lemma_map_of_remove(s0, i as int);
                lemma_remove_keeps_unique(s0, i as int);
            }
            self.entries.remove(i);
            proof {
                assert(self.entries_seq() =~= s0.remove(i as int));
            }
        } else {
            proof {
                lemma_map_of_contains(s0, name@);
                assert(map_of(s0).remove(name@) =~= map_of(s0));
            }
        }
    }
}

} // verus!
