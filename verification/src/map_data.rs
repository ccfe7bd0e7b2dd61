//! The symbol table of a tile atlas: string identifiers bound to tile indices.

use vstd::prelude::*;

verus! {

/// A finite mapping from a string identifier to the zero-based index of a tile
/// in the atlas.
///
/// The bindings are kept in the order in which their identifiers were first
/// inserted; no identifier occurs twice.
#[derive(Debug)]
pub struct MapData {
    entries: Vec<(String, usize)>,
}

impl View for MapData {
    type V = Map<Seq<char>, usize>;

    /// The mapping as a mathematical map from identifier to tile index.
    open spec fn view(&self) -> Map<Seq<char>, usize> {
        Map::new(
            |k: Seq<char>| self.position(k) is Some,
            |k: Seq<char>| self.bindings()[self.position(k).unwrap()].1,
        )
    }
}

impl Clone for MapData {
    /// A mapping with the same bindings, in the same order.
    fn clone(&self) -> (copy: Self)
        ensures
            copy.bindings() == self.bindings(),
            copy@ == self@,
    {
        proof {
            use_type_invariant(self);
        }
        let mut entries: Vec<(String, usize)> = Vec::new();
        let n = self.entries.len();
        let mut i: usize = 0;
        while i < n
            invariant
                n == self.entries@.len(),
                i <= n,
                entries@.len() == i,
                forall|j: int|
                    0 <= j < i ==> (#[trigger] entries@[j]).0@ == self.entries@[j].0@
                        && entries@[j].1 == self.entries@[j].1,
            decreases n - i,
        {
            entries.push((self.entries[i].0.clone(), self.entries[i].1));
            i += 1;
        }
        proof {
            let made = MapData { entries };
            assert(made.bindings() =~= self.bindings());
            assert(made@ =~= self@);
        }
        MapData { entries }
    }
}

impl MapData {
    /// The bindings in insertion order, each as an identifier and its index.
    pub closed spec fn bindings(&self) -> Seq<(Seq<char>, usize)> {
        Self::model(self.entries@)
    }

    /// The stored bindings with each identifier as a sequence of characters.
    spec fn model(entries: Seq<(String, usize)>) -> Seq<(Seq<char>, usize)> {
        entries.map_values(|e: (String, usize)| (e.0@, e.1))
    }

    /// No identifier occurs twice among the bindings.
    spec fn unique(bindings: Seq<(Seq<char>, usize)>) -> bool {
        forall|i: int, j: int| 0 <= i < j < bindings.len() ==> bindings[i].0 != bindings[j].0
    }

    /// Where the identifier `k` stands among the bindings, if it is bound.
    pub open spec fn position(&self, k: Seq<char>) -> Option<int> {
        if exists|i: int| 0 <= i < self.bindings().len() && self.bindings()[i].0 == k {
            Some(choose|i: int| 0 <= i < self.bindings().len() && self.bindings()[i].0 == k)
        } else {
            None
        }
    }

    /// No identifier is bound twice. This holds of every mapping that a
    /// program holds.
    #[verifier::type_invariant]
    pub open spec fn wf(&self) -> bool {
        forall|i: int, j: int|
            0 <= i < j < self.bindings().len() ==> self.bindings()[i].0 != self.bindings()[j].0
    }

    /// Relates the ordered bindings to the map: every binding is a pair of the
    /// map, and every key of the map is the identifier of some binding.
    pub proof fn lemma_bindings_view(&self)
        requires
            self.wf(),
        ensures
            forall|i: int|
                0 <= i < self.bindings().len() ==> self@.contains_key(
                    #[trigger] self.bindings()[i].0,
                ) && self@[self.bindings()[i].0] == self.bindings()[i].1,
            forall|k: Seq<char>| #[trigger]
                self@.contains_key(k) ==> exists|i: int|
                    0 <= i < self.bindings().len() && #[trigger] self.bindings()[i] == (k, self@[k]),
    {
        assert forall|i: int| 0 <= i < self.bindings().len() implies self@.contains_key(
            #[trigger] self.bindings()[i].0,
        ) && self@[self.bindings()[i].0] == self.bindings()[i].1 by {
            let k = self.bindings()[i].0;
            assert(self.position(k) is Some);
            let p = self.position(k).unwrap();
            assert(p == i);
        }
        assert forall|k: Seq<char>| #[trigger] self@.contains_key(k) implies exists|i: int|
            0 <= i < self.bindings().len() && #[trigger] self.bindings()[i] == (k, self@[k]) by {
            let p = self.position(k).unwrap();
            assert(self.bindings()[p] == (k, self@[k]));
        }
    }

    /// An empty mapping.
    pub fn new() -> (m: Self)
        ensures
            m@ == Map::<Seq<char>, usize>::empty(),
            m.bindings() == Seq::<(Seq<char>, usize)>::empty(),
    {
        let entries: Vec<(String, usize)> = Vec::new();
        proof {
            let made = MapData { entries };
            assert(made.bindings() =~= Seq::<(Seq<char>, usize)>::empty());
            assert(made@ =~= Map::<Seq<char>, usize>::empty());
        }
        MapData { entries }
    }

    /// The number of bound identifiers.
    pub fn len(&self) -> (n: usize)
        ensures
            n == self.bindings().len(),
    {
        self.entries.len()
    }

    /// The identifier of the binding at `position`, in insertion order.
    pub fn symbol_at(&self, position: usize) -> (s: &String)
        requires
            position < self.bindings().len(),
        ensures
            s@ == self.bindings()[position as int].0,
    {
        &self.entries[position].0
    }

    /// The tile index of the binding at `position`, in insertion order.
    pub fn index_at(&self, position: usize) -> (v: usize)
        requires
            position < self.bindings().len(),
        ensures
            v == self.bindings()[position as int].1,
    {
        self.entries[position].1
    }

    /// The tile index bound to `key`, or `None` where `key` is not bound.
    pub fn get(&self, key: &str) -> (r: Option<usize>)
        ensures
            r is Some <==> self@.contains_key(key@),
            r matches Some(v) ==> v == self@[key@],
    {
        proof {
            use_type_invariant(self);
        }
        let wanted = key.to_owned();
        let n = self.entries.len();
        let mut i: usize = 0;
        while i < n
            invariant
                self.wf(),
                n == self.entries@.len(),
                n == self.bindings().len(),
                wanted@ == key@,
                i <= n,
                forall|j: int| 0 <= j < i ==> self.bindings()[j].0 != key@,
            decreases n - i,
        {
            if self.entries[i].0 == wanted {
                proof {
                    self.lemma_bindings_view();
                    assert(self.bindings()[i as int].0 == key@);
                }
                return Some(self.entries[i].1);
            }
            i += 1;
        }
        proof {
            if self.position(key@) is Some {
                let p = self.position(key@).unwrap();
                assert(self.bindings()[p].0 == key@);
            }
        }
        None
    }

    /// Binds `key` to `index`. A binding that `key` already had is replaced, in
    /// place, and its former index is returned.
    pub fn insert(&mut self, key: String, index: usize) -> (former: Option<usize>)
        ensures
            final(self)@ == old(self)@.insert(key@, index),
            former is Some <==> old(self)@.contains_key(key@),
            former matches Some(v) ==> v == old(self)@[key@],
            old(self)@.contains_key(key@) ==> final(self).bindings() == old(self).bindings().update(
                old(self).position(key@).unwrap(),
                (key@, index),
            ),
            !old(self)@.contains_key(key@) ==> final(self).bindings() == old(self).bindings().push(
                (key@, index),
            ),
    {
        proof {
            use_type_invariant(&*self);
        }
        let ghost before = *self;
        let n = self.entries.len();
        let mut found: Option<usize> = None;
        let mut i: usize = 0;
        while i < n && found.is_none()
            invariant
                *self == before,
                n == self.entries@.len(),
                n == self.bindings().len(),
                i <= n,
                found is None ==> forall|j: int| 0 <= j < i ==> self.bindings()[j].0 != key@,
                found matches Some(at) ==> at < n && self.bindings()[at as int].0 == key@,
            decreases
                    n - i + (if found is None {
                        1int
                    } else {
                        0int
                    }),
        {
            if self.entries[i].0 == key {
                found = Some(i);
            } else {
                i += 1;
            }
        }
        let mut entries: Vec<(String, usize)> = Vec::new();
        proof {
            assert(Self::unique(Self::model(entries@)));
        }
        core::mem::swap(&mut self.entries, &mut entries);
        assert(Self::model(entries@) == before.bindings());
        let former = match found {
            Some(at) => {
                let former = entries[at].1;
                entries.set(at, (key, index));
                proof {
                    let after = Self::model(entries@);
                    before.lemma_bindings_view();
                    assert(before.position(key@) == Some(at as int));
                    assert(after =~= before.bindings().update(at as int, (key@, index)));
                    assert(Self::unique(after));
                }
                Some(former)
            },
            None => {
                entries.push((key, index));
                proof {
                    let after = Self::model(entries@);
                    assert(after =~= before.bindings().push((key@, index)));
                    assert(Self::unique(after));
                    if before.position(key@) is Some {
                        let p = before.position(key@).unwrap();
                        assert(before.bindings()[p].0 == key@);
                    }
                }
                None
            },
        };
        core::mem::swap(&mut self.entries, &mut entries);
        proof {
            if found is Some {
                assert forall|k: Seq<char>| self.position(k) is Some <==> before.position(
                    k,
                ) is Some by {
                    if before.position(k) is Some {
                        let p = before.position(k).unwrap();
                        assert(self.bindings()[p].0 == k);
                    }
                    if self.position(k) is Some {
                        let p = self.position(k).unwrap();
                        assert(before.bindings()[p].0 == k);
                    }
                }
                assert forall|k: Seq<char>| self.position(k) is Some implies self.position(k)
                    == before.position(k) by {
                    let p = self.position(k).unwrap();
                    let q = before.position(k).unwrap();
                    assert(before.bindings()[p].0 == k);
                    assert(before.bindings()[q].0 == k);
                }
            } else {
                assert(self.bindings()[n as int].0 == key@);
                assert(self.position(key@) is Some);
                assert forall|k: Seq<char>| k != key@ implies (self.position(k) is Some
                    <==> before.position(k) is Some) by {
                    if before.position(k) is Some {
                        let p = before.position(k).unwrap();
                        assert(self.bindings()[p].0 == k);
                    }
                    if self.position(k) is Some {
                        let p = self.position(k).unwrap();
                        assert(before.bindings()[p].0 == k);
                    }
                }
                assert forall|k: Seq<char>| self.position(k) is Some implies self.bindings()[self.position(
                    k,
                ).unwrap()].1 == (if k == key@ {
                    index
                } else {
                    before.bindings()[before.position(k).unwrap()].1
                }) by {
                    let p = self.position(k).unwrap();
                    if k != key@ {
                        let q = before.position(k).unwrap();
                        assert(before.bindings()[p].0 == k);
                        assert(before.bindings()[q].0 == k);
                    }
                }
            }
            assert(self@ =~= before@.insert(key@, index));
        }
        former
    }
}

} // verus!
