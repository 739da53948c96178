//! The server's client registry: a map from a peer's key to that peer's
//! outbound stream handle. Registering inserts or replaces, deregistering
//! removes if present, and the entries can be walked to fan a message out.
//! The handle type is left generic; the process that owns the sockets
//! instantiates it.

use vstd::prelude::*;

verus! {

/// The map described by a sequence of key/handle entries, later entries
/// winning on equal keys.
pub open spec fn map_of<H>(entries: Seq<(u64, H)>) -> Map<u64, H>
    decreases entries.len(),
{
    if entries.len() == 0 {
        Map::empty()
    } else {
        map_of(entries.drop_last()).insert(entries.last().0, entries.last().1)
    }
}

/// No two entries share a key.
pub open spec fn distinct_keys<H>(entries: Seq<(u64, H)>) -> bool {
    forall|i: int, j: int|
        0 <= i < j < entries.len() ==> (#[trigger] entries[i]).0 != (#[trigger] entries[j]).0
}

/// A key is in the map exactly when some entry carries it.
proof fn lemma_map_of_contains_key<H>(entries: Seq<(u64, H)>, key: u64)
    ensures
        map_of(entries).contains_key(key) <==> exists|i: int|
            0 <= i < entries.len() && (#[trigger] entries[i]).0 == key,
    decreases entries.len(),
{
    if entries.len() > 0 {
        lemma_map_of_contains_key(entries.drop_last(), key);
        if entries.last().0 == key {
            assert(entries[entries.len() - 1].0 == key);
        } else if map_of(entries).contains_key(key) {
            let i = choose|i: int|
                0 <= i < entries.drop_last().len() && (#[trigger] entries.drop_last()[i]).0 == key;
            assert(entries[i].0 == key);
        } else {
            assert forall|i: int|
                0 <= i < entries.len() && (#[trigger] entries[i]).0 == key implies false by {
                assert(i < entries.len() - 1);
                assert(entries.drop_last()[i].0 == key);
            }
        }
    }
}

/// Under distinct keys, each entry is retrievable from the map.
proof fn lemma_map_of_index<H>(entries: Seq<(u64, H)>, i: int)
    requires
        distinct_keys(entries),
        0 <= i < entries.len(),
    ensures
        map_of(entries).contains_key(entries[i].0),
        map_of(entries)[entries[i].0] == entries[i].1,
    decreases entries.len(),
{
    if i == entries.len() - 1 {
    } else {
        assert(distinct_keys(entries.drop_last()));
        assert(entries.drop_last()[i] == entries[i]);
        lemma_map_of_index(entries.drop_last(), i);
        assert(entries[i].0 != entries.last().0);
    }
}

/// Under distinct keys, removing the entry at one index removes exactly that
/// key from the map.
proof fn lemma_map_of_remove<H>(entries: Seq<(u64, H)>, i: int)
    requires
        distinct_keys(entries),
        0 <= i < entries.len(),
    ensures
        distinct_keys(entries.remove(i)),
        map_of(entries.remove(i)) == map_of(entries).remove(entries[i].0),
    decreases entries.len(),
{
    let key = entries[i].0;
    assert forall|p: int, q: int|
        0 <= p < q < entries.remove(i).len() implies (#[trigger] entries.remove(i)[p]).0 != (
    #[trigger] entries.remove(i)[q]).0 by {
        let p0 = if p < i {
            p
        } else {
            p + 1
        };
        let q0 = if q < i {
            q
        } else {
            q + 1
        };
        assert(entries.remove(i)[p] == entries[p0]);
        assert(entries.remove(i)[q] == entries[q0]);
    }
    if i == entries.len() - 1 {
        assert(entries.remove(i) =~= entries.drop_last());
        lemma_map_of_contains_key(entries.drop_last(), key);
        assert forall|j: int|
            0 <= j < entries.drop_last().len() implies (#[trigger] entries.drop_last()[j]).0
            != key by {
            assert(entries[j] == entries.drop_last()[j]);
        }
        assert(!map_of(entries.drop_last()).contains_key(key));
        assert(map_of(entries.drop_last()) =~= map_of(entries).remove(key));
    } else {
        let shorter = entries.drop_last();
        assert(distinct_keys(shorter));
        lemma_map_of_remove(shorter, i);
        assert(entries.remove(i).drop_last() =~= shorter.remove(i));
        assert(entries.remove(i).last() == entries.last());
        assert(entries.last().0 != key);
        assert(map_of(entries.remove(i)) == map_of(shorter.remove(i)).insert(
            entries.last().0,
            entries.last().1,
        ));
        assert(map_of(shorter).remove(key).insert(entries.last().0, entries.last().1) =~= map_of(
            shorter,
        ).insert(entries.last().0, entries.last().1).remove(key));
    }
}

/// Under distinct keys, the entry count is the size of the map's domain: the
/// reported number of connected peers is the number of registered keys.
proof fn lemma_map_of_dom_len<H>(entries: Seq<(u64, H)>)
    requires
        distinct_keys(entries),
    ensures
        map_of(entries).dom().finite(),
        map_of(entries).dom().len() == entries.len(),
    decreases entries.len(),
{
    if entries.len() == 0 {
        assert(map_of(entries).dom() =~= Set::<u64>::empty());
    } else {
        let shorter = entries.drop_last();
        assert(distinct_keys(shorter));
        lemma_map_of_dom_len(shorter);
        lemma_map_of_contains_key(shorter, entries.last().0);
        assert forall|j: int|
            0 <= j < shorter.len() implies (#[trigger] shorter[j]).0 != entries.last().0 by {
            assert(entries[j] == shorter[j]);
        }
        assert(!map_of(shorter).contains_key(entries.last().0));
        assert(map_of(entries).dom() =~= map_of(shorter).dom().insert(entries.last().0));
    }
}

/// The registry itself: the entries, in registration order.
pub struct Registry<H> {
    entries: Vec<(u64, H)>,
}

impl<H> View for Registry<H> {
    type V = Seq<(u64, H)>;

    closed spec fn view(&self) -> Seq<(u64, H)> {
        self.entries@
    }
}

impl<H> Registry<H> {
    /// The registry as a map from peer key to handle.
    pub open spec fn as_map(self) -> Map<u64, H> {
        map_of(self@)
    }

    /// Well-formed: every registered peer appears once.
    pub open spec fn wf(self) -> bool {
        distinct_keys(self@)
    }

    /// An empty registry.
    pub fn new() -> (r: Registry<H>)
        ensures
            r.wf(),
            r@ == Seq::<(u64, H)>::empty(),
            r.as_map() == Map::<u64, H>::empty(),
    {
        Registry { entries: Vec::new() }
    }

    /// How many peers are registered: the count the server reports whenever
    /// it changes.
    pub fn len(&self) -> (n: usize)
        ensures
            n == self@.len(),
            self.wf() ==> n == self.as_map().dom().len(),
    {
        proof {
            if self.wf() {
                lemma_map_of_dom_len(self@);
            }
        }
        self.entries.len()
    }

    /// The key of the peer at one position.
    pub fn key_at(&self, i: usize) -> (k: u64)
        requires
            i < self@.len(),
        ensures
            k == self@[i as int].0,
    {
        self.entries[i].0
    }

    /// The handle of the peer at one position.
    pub fn handle_at(&self, i: usize) -> (h: &H)
        requires
            i < self@.len(),
        ensures
            *h == self@[i as int].1,
    {
        &self.entries[i].1
    }

    /// Removes the peer with the given key, if present; otherwise changes
    /// nothing.
    pub fn deregister(&mut self, key: u64)
        requires
            old(self).wf(),
        ensures
            final(self).wf(),
            final(self).as_map() == old(self).as_map().remove(key),
            forall|j: int|
                0 <= j < final(self)@.len() ==> (#[trigger] final(self)@[j]).0 != key,
    {
        let ghost orig = self.entries@;
        let n = self.entries.len();
        let mut i: usize = 0;
        while i < n
            invariant
                self.entries@ == orig,
                orig == old(self)@,
                distinct_keys(orig),
                n == orig.len(),
                i <= n,
                forall|j: int| 0 <= j < i ==> (#[trigger] orig[j]).0 != key,
            decreases n - i,
        {
            if self.entries[i].0 == key {
                self.entries.remove(i);
                proof {
                    lemma_map_of_remove(orig, i as int);
                    assert forall|j: int|
                        0 <= j < self.entries@.len() implies (#[trigger] self.entries@[j]).0
                        != key by {
                        let j0 = if j < i {
                            j
                        } else {
                            j + 1
                        };
                        assert(self.entries@[j] == orig[j0]);
                    }
                }
                return ;
            }
            i += 1;
        }
        proof {
            lemma_map_of_contains_key(orig, key);
            assert(!map_of(orig).contains_key(key));
            assert(map_of(orig) =~= map_of(orig).remove(key));
        }
    }

    /// Registers a peer: inserts its handle, replacing any handle already
    /// held under the same key.
    pub fn register(&mut self, key: u64, handle: H)
        requires
            old(self).wf(),
        ensures
            final(self).wf(),
            final(self).as_map() == old(self).as_map().insert(key, handle),
    {
        self.deregister(key);
        let ghost cleared = self.entries@;
        self.entries.push((key, handle));
        proof {
            assert(self.entries@.drop_last() =~= cleared);
            assert forall|p: int, q: int|
                0 <= p < q < self.entries@.len() implies (#[trigger] self.entries@[p]).0 != (
            #[trigger] self.entries@[q]).0 by {
                if q == self.entries@.len() - 1 {
                    assert(self.entries@[p] == cleared[p]);
                } else {
                    assert(self.entries@[p] == cleared[p]);
                    assert(self.entries@[q] == cleared[q]);
                }
            }
            assert(map_of(cleared).insert(key, handle) =~= old(self).as_map().insert(key, handle));
        }
    }

    /// Whether a peer with the given key is registered.
    pub fn contains(&self, key: u64) -> (r: bool)
        requires
            self.wf(),
        ensures
            r == self.as_map().contains_key(key),
    {
        let n = self.entries.len();
        let mut i: usize = 0;
        while i < n
            invariant
                n == self@.len(),
                i <= n,
                forall|j: int| 0 <= j < i ==> (#[trigger] self@[j]).0 != key,
            decreases n - i,
        {
            if self.entries[i].0 == key {
                proof {
                    lemma_map_of_contains_key(self@, key);
                }
                return true;
            }
            i += 1;
        }
        proof {
            lemma_map_of_contains_key(self@, key);
        }
        false
    }

    /// The handle registered under the given key, if any.
    pub fn get(&self, key: u64) -> (r: Option<&H>)
        requires
            self.wf(),
        ensures
            match r {
                Some(h) => self.as_map().contains_key(key) && *h == self.as_map()[key],
                None => !self.as_map().contains_key(key),
            },
    {
        let n = self.entries.len();
        let mut i: usize = 0;
        while i < n
            invariant
                self.wf(),
                n == self@.len(),
                i <= n,
                forall|j: int| 0 <= j < i ==> (#[trigger] self@[j]).0 != key,
            decreases n - i,
        {
            if self.entries[i].0 == key {
                proof {
                    lemma_map_of_index(self@, i as int);
                }
                return Some(&self.entries[i].1);
            }
            i += 1;
        }
        proof {
            lemma_map_of_contains_key(self@, key);
        }
        None
    }
}

/// Registering two peers and then deregistering the first leaves the second
/// registered, with its own handle, and the first gone.
pub proof fn lemma_register_deregister_isolation<H>(m: Map<u64, H>, a: u64, b: u64, ha: H, hb: H)
    requires
        a != b,
    ensures
        ({
            let after = m.insert(a, ha).insert(b, hb).remove(a);
            &&& after.contains_key(b)
            &&& after[b] == hb
            &&& !after.contains_key(a)
        }),
{
}

} // verus!
