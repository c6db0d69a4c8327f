//! The index from overlay keys to handles.
//!
//! A key is an opaque byte string. The index holds each key once, in the
//! order the keys came in.

use vstd::prelude::*;

verus! {

/// One key and the handle it leads to.
struct KeyEntry {
    key: Vec<u8>,
    handle: u64,
}

/// A map from byte strings to handles.
pub struct KeyIndex {
    entries: Vec<KeyEntry>,
}

/// Whether two byte strings hold the same bytes.
pub fn same_bytes(a: &Vec<u8>, b: &Vec<u8>) -> (r: bool)
    ensures
        r == (a@ == b@),
{
    if a.len() != b.len() {
        return false;
    }
    let mut i: usize = 0;
    while i < a.len()
        invariant
            a.len() == b.len(),
            i <= a.len(),
            forall|j: int| 0 <= j < i ==> a@[j] == b@[j],
        decreases a.len() - i,
    {
        if a[i] != b[i] {
            return false;
        }
        i += 1;
    }
    assert(a@ =~= b@);
    true
}

/// A copy of a byte string.
pub fn copy_bytes(a: &Vec<u8>) -> (r: Vec<u8>)
    ensures
        r@ == a@,
{
    let mut r: Vec<u8> = Vec::new();
    let mut i: usize = 0;
    while i < a.len()
        invariant
            i <= a.len(),
            r@ == a@.subrange(0, i as int),
        decreases a.len() - i,
    {
        r.push(a[i]);
        assert(r@ =~= a@.subrange(0, i + 1));
        i += 1;
    }
    assert(a@.subrange(0, a.len() as int) =~= a@);
    r
}

impl KeyIndex {
    /// `key` stands at position `i`.
    spec fn at(&self, i: int, key: Seq<u8>) -> bool {
        0 <= i < self.entries.len() && self.entries[i].key@ == key
    }

    /// The position of `key`, where it stands in the index.
    spec fn position(&self, key: Seq<u8>) -> int {
        choose|i: int| self.at(i, key)
    }

    /// No key stands twice.
    pub closed spec fn wf(&self) -> bool {
        forall|i: int, j: int|
            0 <= i < j < self.entries.len() ==> self.entries[i].key@ != self.entries[j].key@
    }

    /// The handle each key leads to.
    pub closed spec fn view(&self) -> Map<Seq<u8>, u64> {
        Map::new(
            |key: Seq<u8>| exists|i: int| self.at(i, key),
            |key: Seq<u8>| self.entries[self.position(key)].handle,
        )
    }

    /// An index without keys.
    pub fn new() -> (index: Self)
        ensures
            index.wf(),
            index@ == (Map::<Seq<u8>, u64>::empty()),
    {
        let index = KeyIndex { entries: Vec::new() };
        assert(index@ =~= Map::<Seq<u8>, u64>::empty());
        index
    }

    /// A key that stands at a position is in the index and leads to the
    /// handle at that position.
    proof fn lemma_at(&self, i: int, key: Seq<u8>)
        requires
            self.wf(),
            self.at(i, key),
        ensures
            self@.contains_key(key),
            self@[key] == self.entries[i].handle,
    {
        let p = self.position(key);
        assert(self.at(p, key));
        if p < i {
        } else if i < p {
        }
    }

    /// The position of `key`, or the length where the index lacks it.
    fn find(&self, key: &Vec<u8>) -> (i: usize)
        requires
            self.wf(),
        ensures
            i <= self.entries.len(),
            i < self.entries.len() ==> self.at(i as int, key@),
            i == self.entries.len() ==> !self@.contains_key(key@),
    {
        let mut i: usize = 0;
        while i < self.entries.len()
            invariant
                i <= self.entries.len(),
                forall|j: int| 0 <= j < i ==> !self.at(j, key@),
            decreases self.entries.len() - i,
        {
            if same_bytes(&self.entries[i].key, key) {
                return i;
            }
            i += 1;
        }
        i
    }

    /// The handle that `key` leads to.
    pub fn get(&self, key: &Vec<u8>) -> (r: Option<u64>)
        requires
            self.wf(),
        ensures
            r == if self@.contains_key(key@) {
                Some(self@[key@])
            } else {
                None::<u64>
            },
    {
        let i = self.find(key);
        if i < self.entries.len() {
            proof {
                self.lemma_at(i as int, key@);
            }
            Some(self.entries[i].handle)
        } else {
            None
        }
    }

    /// Lets `key` lead to `handle`, whatever it led to before.
    pub fn insert(&mut self, key: Vec<u8>, handle: u64)
        requires
            old(self).wf(),
        ensures
            final(self).wf(),
            final(self)@ == old(self)@.insert(key@, handle),
    {
        let i = self.find(&key);
        let ghost before = *self;
        let ghost k0 = key@;
        if i < self.entries.len() {
            self.entries.set(i, KeyEntry { key, handle });
            assert(self.entries@ == before.entries@.update(i as int, self.entries@[i as int]));
            assert forall|k: Seq<u8>, j: int| self.at(j, k) == before.at(j, k) by {}
        } else {
            self.entries.push(KeyEntry { key, handle });
            assert(self.entries@ == before.entries@.push(self.entries@[i as int]));
            assert forall|k: Seq<u8>, j: int| self.at(j, k) == (before.at(j, k) || (j == i && k == k0)) by {}
            assert forall|j: int| 0 <= j < i implies before.entries[j].key@ != k0 by {
                if before.entries[j].key@ == k0 {
                    assert(before.at(j, k0));
                }
            }
        }
        assert(self.wf()) by {
            assert forall|a: int, b: int| 0 <= a < b < self.entries.len() implies self.entries[a].key@
                != self.entries[b].key@ by {
                if self.entries[a].key@ == self.entries[b].key@ {
                    assert(self.at(a, self.entries[a].key@));
                    assert(self.at(b, self.entries[a].key@));
                }
            }
        }
        assert(self.at(i as int, k0));
        assert(self@ =~= before@.insert(k0, handle)) by {
            self.lemma_at(i as int, k0);
            assert forall|k: Seq<u8>| k != k0 && self@.contains_key(k) implies #[trigger] before@.contains_key(k)
                && self@[k] == before@[k] by {
                let j = self.position(k);
                assert(self.at(j, k));
                assert(before.at(j, k));
                self.lemma_at(j, k);
                before.lemma_at(j, k);
            }
            assert forall|k: Seq<u8>| k != k0 && before@.contains_key(k) implies #[trigger] self@.contains_key(k) by {
                let j = before.position(k);
                assert(before.at(j, k));
                assert(self.at(j, k));
            }
        }
    }

    /// Forgets `key`.
    pub fn remove(&mut self, key: &Vec<u8>)
        requires
            old(self).wf(),
        ensures
            final(self).wf(),
            final(self)@ == old(self)@.remove(key@),
    {
        let i = self.find(key);
        let ghost before = *self;
        if i < self.entries.len() {
            self.entries.remove(i);
            assert(self.entries@ == before.entries@.remove(i as int));
            let ghost up = |j: int| if j < i { j } else { j + 1 };
            assert forall|k: Seq<u8>, j: int| self.at(j, k) implies before.at(up(j), k) by {}
            assert forall|k: Seq<u8>, j: int| before.at(j, k) && j != i implies self.at(
                if j < i {
                    j
                } else {
                    j - 1
                },
                k,
            ) by {}
            assert(self.wf()) by {
                assert forall|a: int, b: int| 0 <= a < b < self.entries.len() implies self.entries[a].key@
                    != self.entries[b].key@ by {
                    assert(self.entries[a] == before.entries[up(a)]);
                    assert(self.entries[b] == before.entries[up(b)]);
                }
            }
            assert(self@ =~= before@.remove(key@)) by {
                assert forall|k: Seq<u8>| self@.contains_key(k) implies k != key@
                    && #[trigger] before@.contains_key(k) && self@[k] == before@[k] by {
                    let j = self.position(k);
                    assert(self.at(j, k));
                    assert(before.at(up(j), k));
                    self.lemma_at(j, k);
                    before.lemma_at(up(j), k);
                    if k == key@ {
                        before.lemma_at(i as int, k);
                        assert(before.at(i as int, k));
                        assert(up(j) != i);
                    }
                }
                assert forall|k: Seq<u8>| #[trigger] before@.contains_key(k) && k != key@ implies self@.contains_key(k) by {
                    let j = before.position(k);
                    assert(before.at(j, k));
                    assert(j != i);
                    assert(self.at(
                        if j < i {
                            j
                        } else {
                            j - 1
                        },
                        k,
                    ));
                }
            }
        } else {
            assert(self@ =~= before@.remove(key@));
        }
    }
}

} // verus!
