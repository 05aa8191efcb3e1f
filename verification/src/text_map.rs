//! A map from texts to values that remembers the order in which its keys came.

use vstd::prelude::*;
use vstd::string::*;
use vstd::hash_map::StringHashMap;

use crate::text::same_text;

verus! {

/// A map keyed by text. Its keys are listed in the order of their first insertion.
#[verifier::reject_recursive_types(V)]
pub struct TextMap<V> {
    keys: Vec<String>,
    entries: StringHashMap<V>,
}

impl<V> View for TextMap<V> {
    type V = Map<Seq<char>, V>;

    closed spec fn view(&self) -> Map<Seq<char>, V> {
        self.entries@
    }
}

impl<V> TextMap<V> {
    /// The keys in the order of their first insertion.
    pub closed spec fn order(self) -> Seq<Seq<char>> {
        crate::text::texts(self.keys@)
    }

    /// Each key of the map is listed, once, and nothing else is.
    pub open spec fn wf(self) -> bool {
        &&& self.order().no_duplicates()
        &&& forall|k: Seq<char>| #[trigger] self@.contains_key(k) <==> self.order().contains(k)
    }

    /// A map without entries.
    pub fn new() -> (r: Self)
        ensures
            r.wf(),
            r@ == Map::<Seq<char>, V>::empty(),
            r.order() == Seq::<Seq<char>>::empty(),
    {
        let r = TextMap { keys: Vec::new(), entries: StringHashMap::new() };
        assert(r.order() =~= Seq::<Seq<char>>::empty());
        r
    }

    /// The number of keys.
    pub fn len(&self) -> (r: usize)
        ensures
            r == self.order().len(),
    {
        self.keys.len()
    }

    /// The key at a place in the order of insertion.
    pub fn key(&self, i: usize) -> (r: &str)
        requires
            i < self.order().len(),
        ensures
            r@ == self.order()[i as int],
    {
        self.keys[i].as_str()
    }

    /// Whether a key is in the map.
    pub fn contains(&self, key: &str) -> (r: bool)
        ensures
            r == self@.contains_key(key@),
    {
        self.entries.contains_key(key)
    }

    /// The value at a key, if the key is in the map.
    pub fn get(&self, key: &str) -> (r: Option<&V>)
        ensures
            match r {
                Some(v) => self@.contains_key(key@) && *v == self@[key@],
                None => !self@.contains_key(key@),
            },
    {
        self.entries.get(key)
    }

    /// Sets the value at a key. A new key goes to the end of the order.
    pub fn insert(&mut self, key: &str, value: V)
        requires
            old(self).wf(),
        ensures
            final(self).wf(),
            final(self)@ == old(self)@.insert(key@, value),
            final(self).order() == if old(self)@.contains_key(key@) {
                old(self).order()
            } else {
                old(self).order().push(key@)
            },
    {
        if !self.entries.contains_key(key) {
            self.keys.push(key.to_owned());
            proof {
                let before = old(self).order();
                assert(self.order() =~= before.push(key@));
                assert forall|k: Seq<char>| #[trigger] before.push(key@).contains(k) implies before
                    .contains(k) || k == key@ by {
                    let i = choose|i: int|
                        0 <= i < before.push(key@).len() && before.push(key@)[i] == k;
                    if i < before.len() {
                        assert(before[i] == k);
                    }
                }
                assert forall|k: Seq<char>| #[trigger] before.contains(k) implies before.push(
                    key@,
                ).contains(k) by {
                    let i = choose|i: int| 0 <= i < before.len() && before[i] == k;
                    assert(before.push(key@)[i] == k);
                }
                assert(before.push(key@)[before.len() as int] == key@);
                assert(!old(self)@.contains_key(key@));
                assert(!before.contains(key@));
                assert forall|a: int, b: int|
                    0 <= a < before.len() + 1 && 0 <= b < before.len() + 1 && a
                        != b implies before.push(key@)[a] != before.push(key@)[b] by {
                    if a < before.len() {
                        assert(before.contains(before[a]));
                    }
                    if b < before.len() {
                        assert(before.contains(before[b]));
                    }
                }
            }
        }
        self.entries.insert(key.to_owned(), value);
        proof {
            let now = self.order();
            assert forall|k: Seq<char>| #[trigger] self@.contains_key(k) <==> now.contains(k) by {
                assert(old(self)@.contains_key(k) <==> old(self).order().contains(k));
            }
        }
    }

    /// Drops a key and its value.
    pub fn remove(&mut self, key: &str)
        requires
            old(self).wf(),
        ensures
            final(self).wf(),
            final(self)@ == old(self)@.remove(key@),
            final(self).order() == if old(self)@.contains_key(key@) {
                old(self).order().remove(old(self).order().index_of(key@))
            } else {
                old(self).order()
            },
    {
        let ghost before = self.order();
        let n: usize = self.keys.len();
        let mut i: usize = 0;
        while i < n && !same_text(self.keys[i].as_str(), key)
            invariant
                n == self.keys@.len(),
                i <= n,
                before == self.order(),
                forall|k: int| 0 <= k < i ==> before[k] != key@,
                *self == *old(self),
            decreases n - i,
        {
            i = i + 1;
        }
        if i < n {
            assert(before[i as int] == key@);
            assert(before.contains(key@));
            let ghost at = before.index_of(key@);
            assert(at == i) by {
                assert(before[at] == key@);
            }
            let _ = self.keys.remove(i);
            proof {
                let after = before.remove(i as int);
                assert(self.order() =~= after);
                assert forall|a: int, b: int|
                    0 <= a < after.len() && 0 <= b < after.len() && a != b implies after[a]
                    != after[b] by {
                    let a2 = if a < i {
                        a
                    } else {
                        a + 1
                    };
                    let b2 = if b < i {
                        b
                    } else {
                        b + 1
                    };
                    assert(after[a] == before[a2] && after[b] == before[b2]);
                }
                assert forall|k: Seq<char>| #[trigger] after.contains(k) implies before.contains(k)
                    && k != key@ by {
                    let a = choose|a: int| 0 <= a < after.len() && after[a] == k;
                    let a2 = if a < i {
                        a
                    } else {
                        a + 1
                    };
                    assert(before[a2] == k);
                }
                assert forall|k: Seq<char>| before.contains(k) && k != key@ implies #[trigger] after
                    .contains(k) by {
                    let a = choose|a: int| 0 <= a < before.len() && before[a] == k;
                    let a2 = if a < i {
                        a
                    } else {
                        a - 1
                    };
                    assert(after[a2] == k);
                }
            }
        } else {
            assert(!before.contains(key@));
        }
        self.entries.remove(key);
        proof {
            let now = self.order();
            assert forall|k: Seq<char>| #[trigger] self@.contains_key(k) <==> now.contains(k) by {
                assert(old(self)@.contains_key(k) <==> before.contains(k));
            }
        }
    }
}

} // verus!
