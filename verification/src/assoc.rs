use vstd::prelude::*;
use crate::text::str_eq;

verus! {

/// Values that can be copied into a value with the same view.
pub trait Dup: View + Sized {
    fn dup(&self) -> (r: Self)
        ensures
            r@ == self@,
    ;
}

impl Dup for String {
    fn dup(&self) -> (r: String) {
        self.clone()
    }
}

/// A map from string keys to values, kept as a list of entries in which no
/// key occurs twice.
#[derive(Debug)]
pub struct Assoc<V: View> {
    entries: Vec<(String, V)>,
}

impl<V: View> Assoc<V> {
    #[verifier::type_invariant]
    spec fn keys_unique(&self) -> bool {
        forall|i: int, j: int|
            0 <= i < self.entries@.len() && 0 <= j < self.entries@.len() && i != j
                ==> self.entries@[i].0@ != self.entries@[j].0@
    }

    spec fn has_key_at(&self, k: Seq<char>, i: int) -> bool {
        0 <= i < self.entries@.len() && self.entries@[i].0@ == k
    }

    /// The map from each key to the view of its value.
    pub closed spec fn as_map(&self) -> Map<Seq<char>, V::V> {
        Map::new(
            |k: Seq<char>| exists|i: int| self.has_key_at(k, i),
            |k: Seq<char>| self.entries@[choose|i: int| self.has_key_at(k, i)].1@,
        )
    }

    proof fn lemma_at(&self, i: int)
        requires
            self.keys_unique(),
            0 <= i < self.entries@.len(),
        ensures
            self.as_map().dom().contains(self.entries@[i].0@),
            self.as_map()[self.entries@[i].0@] == self.entries@[i].1@,
    {
        let k = self.entries@[i].0@;
        assert(self.has_key_at(k, i));
        let c = choose|c: int| self.has_key_at(k, c);
        assert(c == i);
    }

    proof fn lemma_absent(&self, k: Seq<char>)
        requires
            forall|i: int| 0 <= i < self.entries@.len() ==> self.entries@[i].0@ != k,
        ensures
            !self.as_map().dom().contains(k),
    {
    }

    pub fn new() -> (a: Assoc<V>)
        ensures
            a@ == Map::<Seq<char>, V::V>::empty(),
    {
        let a = Assoc { entries: Vec::new() };
        assert(a.as_map() =~= Map::<Seq<char>, V::V>::empty());
        a
    }

    /// Position of `key` in the entries, if present.
    fn find(&self, key: &str) -> (r: Option<usize>)
        ensures
            match r {
                Some(i) => i < self.entries@.len() && self.entries@[i as int].0@ == key@,
                None => forall|i: int| 0 <= i < self.entries@.len() ==> self.entries@[i].0@ != key@,
            },
    {
        let mut i: usize = 0;
        while i < self.entries.len()
            invariant
                i <= self.entries@.len(),
                forall|j: int| 0 <= j < i ==> self.entries@[j].0@ != key@,
            decreases self.entries@.len() - i,
        {
            if str_eq(self.entries[i].0.as_str(), key) {
                return Some(i);
            }
            i = i + 1;
        }
        None
    }

    pub fn get(&self, key: &str) -> (r: Option<&V>)
        ensures
            match r {
                Some(v) => self@.dom().contains(key@) && v@ == self@[key@],
                None => !self@.dom().contains(key@),
            },
    {
        proof {
            use_type_invariant(self);
        }
        match self.find(key) {
            Some(i) => {
                proof {
                    self.lemma_at(i as int);
                }
                Some(&self.entries[i].1)
            },
            None => None,
        }
    }

    pub fn contains_key(&self, key: &str) -> (r: bool)
        ensures
            r == self@.dom().contains(key@),
    {
        proof {
            use_type_invariant(self);
        }
        match self.find(key) {
            Some(i) => {
                proof {
                    self.lemma_at(i as int);
                }
                true
            },
            None => false,
        }
    }

    /// Binds `key` to `value`, replacing an earlier binding of the key.
    pub fn insert(&mut self, key: String, value: V)
        ensures
            final(self)@ == old(self)@.insert(key@, value@),
    {
        proof {
            use_type_invariant(&*self);
        }
        let ghost old_self = *self;
        let ghost kv = key@;
        let ghost vv = value@;
        let found = self.find(key.as_str());
        let mut entries: Vec<(String, V)> = Vec::new();
        std::mem::swap(&mut entries, &mut self.entries);
        assert(entries@ == old_self.entries@);
        match found {
            Some(i) => {
                let mut rest = entries.split_off(i);
                let _ = rest.remove(0);
                entries.push((key, value));
                entries.append(&mut rest);
            },
            None => {
                entries.push((key, value));
            },
        }
        let ghost ne = entries@;
        proof {
            match found {
                Some(i) => {
                    assert(ne.len() == old_self.entries@.len());
                    assert forall|j: int| 0 <= j < ne.len() implies #[trigger] ne[j] == if j == i {
                        ne[j]
                    } else {
                        old_self.entries@[j]
                    } by {}
                    assert(ne[i as int].0@ == kv && ne[i as int].1@ == vv);
                },
                None => {
                    assert(ne.len() == old_self.entries@.len() + 1);
                    assert(ne.last().0@ == kv && ne.last().1@ == vv);
                },
            }
        }
        self.entries = entries;
        proof {
            let m = old_self.as_map().insert(kv, vv);
            assert forall|k: Seq<char>| #[trigger] self.as_map().dom().contains(k) <==> m.dom().contains(k) by {
                if m.dom().contains(k) {
                    if k == kv {
                        match found {
                            Some(i) => assert(self.has_key_at(k, i as int)),
                            None => assert(self.has_key_at(k, ne.len() - 1)),
                        }
                    } else {
                        let c = choose|c: int| old_self.has_key_at(k, c);
                        assert(self.has_key_at(k, c));
                    }
                }
                if self.as_map().dom().contains(k) {
                    let c = choose|c: int| self.has_key_at(k, c);
                    if k != kv {
                        assert(old_self.has_key_at(k, c));
                    }
                }
            }
            assert forall|k: Seq<char>| #[trigger] m.dom().contains(k) implies self.as_map()[k] == m[k] by {
                assert(self.as_map().dom().contains(k));
                let c = choose|c: int| self.has_key_at(k, c);
                self.lemma_at(c);
                if k != kv {
                    assert(old_self.has_key_at(k, c));
                    old_self.lemma_at(c);
                }
            }
            assert(self.as_map() =~= m);
        }
    }

    /// Drops the binding of `key`, if any.
    pub fn remove(&mut self, key: &str)
        ensures
            final(self)@ == old(self)@.remove(key@),
    {
        proof {
            use_type_invariant(&*self);
        }
        let ghost old_self = *self;
        match self.find(key) {
            Some(i) => {
                let mut entries: Vec<(String, V)> = Vec::new();
                std::mem::swap(&mut entries, &mut self.entries);
                let _ = entries.remove(i);
                let ghost ne = entries@;
                assert(forall|j: int|
                    0 <= j < ne.len() ==> ne[j] == old_self.entries@[if j < i { j } else { j + 1 }]);
                self.entries = entries;
                proof {
                    let m = old_self.as_map().remove(key@);
                    assert forall|k: Seq<char>| #[trigger] self.as_map().dom().contains(k)
                        <==> m.dom().contains(k) by {
                        if m.dom().contains(k) {
                            let c = choose|c: int| old_self.has_key_at(k, c);
                            assert(c != i);
                            if c < i {
                                assert(self.has_key_at(k, c));
                            } else {
                                assert(self.has_key_at(k, c - 1));
                            }
                        }
                        if self.as_map().dom().contains(k) {
                            let c = choose|c: int| self.has_key_at(k, c);
                            let oc = if c < i { c } else { c + 1 };
                            assert(old_self.has_key_at(k, oc));
                        }
                    }
                    assert forall|k: Seq<char>| #[trigger] m.dom().contains(k) implies self.as_map()[k]
                        == m[k] by {
                        assert(self.as_map().dom().contains(k));
                        let c = choose|c: int| self.has_key_at(k, c);
                        self.lemma_at(c);
                        let oc = if c < i { c } else { c + 1 };
                        assert(old_self.has_key_at(k, oc));
                        old_self.lemma_at(oc);
                    }
                    assert(self.as_map() =~= m);
                }
            },
            None => {
                proof {
                    old_self.lemma_absent(key@);
                    assert(self.as_map() =~= old_self.as_map().remove(key@));
                }
            },
        }
    }

    /// The entries, each key once, in insertion order.
    pub fn entries(&self) -> (r: &Vec<(String, V)>)
        ensures
            forall|i: int|
                0 <= i < r@.len() ==> #[trigger] self@.dom().contains(r@[i].0@) && self@[r@[i].0@]
                    == r@[i].1@,
            forall|k: Seq<char>| #[trigger] self@.dom().contains(k) ==> exists|i: int| 0 <= i < r@.len() && r@[i].0@ == k,
            forall|i: int, j: int|
                0 <= i < r@.len() && 0 <= j < r@.len() && i != j ==> r@[i].0@ != r@[j].0@,
    {
        proof {
            use_type_invariant(self);
            assert forall|i: int| 0 <= i < self.entries@.len() implies #[trigger] self.as_map().dom().contains(
                self.entries@[i].0@,
            ) && self.as_map()[self.entries@[i].0@] == self.entries@[i].1@ by {
                self.lemma_at(i);
            }
            assert forall|k: Seq<char>| #[trigger] self.as_map().dom().contains(k) implies exists|i: int|
                0 <= i < self.entries@.len() && self.entries@[i].0@ == k by {
                let c = choose|c: int| self.has_key_at(k, c);
                assert(self.has_key_at(k, c));
            }
        }
        &self.entries
    }
}

impl<V: View + Dup> Assoc<V> {
    /// A copy with the same bindings.
    pub fn dup_all(&self) -> (r: Assoc<V>)
        ensures
            r@ == self@,
    {
        proof {
            use_type_invariant(self);
        }
        let mut out: Vec<(String, V)> = Vec::new();
        let mut i: usize = 0;
        while i < self.entries.len()
            invariant
                i <= self.entries@.len(),
                out@.len() == i,
                forall|j: int|
                    0 <= j < i ==> out@[j].0@ == self.entries@[j].0@ && out@[j].1@
                        == self.entries@[j].1@,
            decreases self.entries@.len() - i,
        {
            let k = self.entries[i].0.clone();
            let v = self.entries[i].1.dup();
            out.push((k, v));
            i = i + 1;
        }
        let r = Assoc { entries: out };
        proof {
            assert forall|k: Seq<char>| #[trigger] r.as_map().dom().contains(k) <==> self.as_map().dom().contains(k) by {
                if r.as_map().dom().contains(k) {
                    let c = choose|c: int| r.has_key_at(k, c);
                    assert(self.has_key_at(k, c));
                }
                if self.as_map().dom().contains(k) {
                    let c = choose|c: int| self.has_key_at(k, c);
                    assert(r.has_key_at(k, c));
                }
            }
            assert forall|k: Seq<char>| #[trigger] self.as_map().dom().contains(k) implies r.as_map()[k] == self.as_map()[k] by {
                let c = choose|c: int| self.has_key_at(k, c);
                self.lemma_at(c);
                assert(r.has_key_at(k, c));
                r.lemma_at(c);
            }
            assert(r.as_map() =~= self.as_map());
        }
        r
    }
}

impl<V: View> View for Assoc<V> {
    type V = Map<Seq<char>, V::V>;

    open spec fn view(&self) -> Map<Seq<char>, V::V> {
        self.as_map()
    }
}

} // verus!
