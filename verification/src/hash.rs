//! The associative hash map: opaque fixed-size keys mapped to fixed-size
//! values, capacity bounded by `max_entries`, with a stable iteration
//! order used for next-key traversal.
//!
//! Entries are held in insertion order; the order is stable while the map
//! is unmodified, which is all the next-key contract promises to callers.

use vstd::prelude::*;
use crate::bytes::copy_bytes;
use crate::map::{InternalMapAttr, BPF_FLAG_ANY, BPF_FLAG_EXIST, BPF_FLAG_NOEXIST};
use crate::retcode::{BpfErrorCode, BpfResult};

verus! {

/// Associative map storage: `(key, value)` entries in iteration order,
/// keys pairwise distinct, at most `max_entries` of them.
pub struct HashMap {
    pub attr: InternalMapAttr,
    pub entries: Vec<(Vec<u8>, Vec<u8>)>,
}

impl HashMap {
    /// The keys in iteration order.
    pub open spec fn key_seq(self) -> Seq<Seq<u8>> {
        self.entries@.map(|i: int, e: (Vec<u8>, Vec<u8>)| e.0@)
    }

    /// Structural invariant: bounded occupancy, exact key and value widths,
    /// pairwise-distinct keys.
    pub open spec fn wf(self) -> bool {
        &&& self.entries@.len() <= self.attr.max_entries
        &&& forall|i: int|
            0 <= i < self.entries@.len() ==> (#[trigger] self.entries@[i]).0@.len()
                == self.attr.key_size
        &&& forall|i: int|
            0 <= i < self.entries@.len() ==> (#[trigger] self.entries@[i]).1@.len()
                == self.attr.value_size
        &&& forall|i: int, j: int|
            0 <= i < j < self.key_seq().len() ==> self.key_seq()[i] != self.key_seq()[j]
    }

    /// The creation parameters this map was built with.
    pub open spec fn spec_attr(self) -> InternalMapAttr {
        self.attr
    }

    /// Whether some entry holds exactly the key bytes `k`.
    pub open spec fn has_key(self, k: Seq<u8>) -> bool {
        self.key_seq().contains(k)
    }

    /// The position of key `k` in iteration order; under `wf` there is at
    /// most one.
    pub open spec fn idx_of(self, k: Seq<u8>) -> int {
        self.key_seq().index_of(k)
    }

    /// The map's contents as a mathematical key/value map.
    pub open spec fn as_map(self) -> Map<Seq<u8>, Seq<u8>> {
        Map::new(|k: Seq<u8>| self.has_key(k), |k: Seq<u8>| self.entries@[self.idx_of(k)].1@)
    }

    /// What `lookup` returns: the value bytes when an entry matches the
    /// key, `NotFound` when none does.
    pub open spec fn spec_lookup(self, k: Seq<u8>) -> Result<Seq<u8>, BpfErrorCode> {
        if k.len() != self.attr.key_size {
            Err(BpfErrorCode::InvalidArgument)
        } else if self.has_key(k) {
            Ok(self.as_map()[k])
        } else {
            Err(BpfErrorCode::NotFound)
        }
    }

    /// What `update` returns: create-or-replace per `flags`, with a
    /// capacity failure exactly when a new distinct key would exceed
    /// `max_entries`.
    pub open spec fn spec_update_result(self, k: Seq<u8>, v: Seq<u8>, flags: u64) -> BpfResult {
        if k.len() != self.attr.key_size || v.len() != self.attr.value_size {
            Err(BpfErrorCode::InvalidArgument)
        } else if !(flags == BPF_FLAG_ANY || flags == BPF_FLAG_NOEXIST || flags
            == BPF_FLAG_EXIST) {
            Err(BpfErrorCode::InvalidArgument)
        } else if self.has_key(k) {
            if flags == BPF_FLAG_NOEXIST {
                Err(BpfErrorCode::InvalidArgument)
            } else {
                Ok(0)
            }
        } else {
            if flags == BPF_FLAG_EXIST {
                Err(BpfErrorCode::NotFound)
            } else if self.entries@.len() >= self.attr.max_entries {
                Err(BpfErrorCode::CapacityExceeded)
            } else {
                Ok(0)
            }
        }
    }

    /// What `next_key` returns: the key following `cur` in iteration
    /// order, the first key for the start sentinel, `EndOfIteration` past
    /// the last key, and `NotFound` for a key with no entry.
    pub open spec fn spec_next_key(self, cur: Option<Seq<u8>>) -> Result<Seq<u8>, BpfErrorCode> {
        match cur {
            Option::None => {
                if self.key_seq().len() == 0 {
                    Err(BpfErrorCode::EndOfIteration)
                } else {
                    Ok(self.key_seq()[0])
                }
            },
            Option::Some(k) => {
                if k.len() != self.attr.key_size {
                    Err(BpfErrorCode::InvalidArgument)
                } else if !self.has_key(k) {
                    Err(BpfErrorCode::NotFound)
                } else if self.idx_of(k) == self.key_seq().len() - 1 {
                    Err(BpfErrorCode::EndOfIteration)
                } else {
                    Ok(self.key_seq()[self.idx_of(k) + 1])
                }
            },
        }
    }

    /// Creates an empty hash map with the given parameters.
    pub fn new(attr: InternalMapAttr) -> (r: HashMap)
        ensures
            r.wf(),
            r.spec_attr() == attr,
            r.key_seq() == Seq::<Seq<u8>>::empty(),
            r.as_map() == Map::<Seq<u8>, Seq<u8>>::empty(),
    {
        let r = HashMap { attr, entries: Vec::new() };
        proof {
            assert(r.key_seq() =~= Seq::<Seq<u8>>::empty());
            assert(r.as_map() =~= Map::<Seq<u8>, Seq<u8>>::empty());
        }
        r
    }

    /// Read-only access to the creation parameters; always succeeds.
    pub fn get_attr(&self) -> (r: InternalMapAttr)
        ensures
            r == self.spec_attr(),
    {
        self.attr
    }

    /// The position of the entry matching `key`, scanning in iteration
    /// order, if any entry does.
    fn find(&self, key: &Vec<u8>) -> (r: Option<usize>)
        requires
            self.wf(),
        ensures
            match r {
                Option::Some(i) => {
                    &&& i < self.entries@.len()
                    &&& self.key_seq()[i as int] == key@
                    &&& self.has_key(key@)
                    &&& self.idx_of(key@) == i
                },
                Option::None => !self.has_key(key@),
            },
    {
        let mut i: usize = 0;
        while i < self.entries.len()
            invariant
                self.wf(),
                i <= self.entries@.len(),
                forall|j: int| 0 <= j < i ==> self.key_seq()[j] != key@,
            decreases self.entries@.len() - i,
        {
            if crate::bytes::bytes_equal(&self.entries[i].0, key) {
                proof {
                    assert(self.key_seq()[i as int] == key@);
                    let c = self.idx_of(key@);
                    assert(self.key_seq().contains(key@));
                    assert(0 <= c < self.key_seq().len() && self.key_seq()[c] == key@);
                    assert(c == i) by {
                        if c < i {
                            assert(self.key_seq()[c] != key@);
                        }
                        if c > i {
                            assert(self.key_seq()[i as int] != self.key_seq()[c]);
                        }
                    }
                }
                return Some(i);
            }
            i = i + 1;
        }
        proof {
            if self.has_key(key@) {
                let c = self.idx_of(key@);
                assert(0 <= c < self.key_seq().len() && self.key_seq()[c] == key@);
            }
        }
        None
    }

    /// Reads the `value_size` bytes associated with the key bytes;
    /// `NotFound` when no entry matches them.
    pub fn lookup(&self, key: &Vec<u8>) -> (r: Result<Vec<u8>, BpfErrorCode>)
        requires
            self.wf(),
        ensures
            match r {
                Ok(v) => self.spec_lookup(key@) == Ok::<Seq<u8>, BpfErrorCode>(v@),
                Err(e) => self.spec_lookup(key@) == Err::<Seq<u8>, BpfErrorCode>(e),
            },
    {
        if key.len() != self.attr.key_size {
            return Err(BpfErrorCode::InvalidArgument);
        }
        match self.find(key) {
            Some(i) => Ok(copy_bytes(&self.entries[i].1)),
            None => Err(BpfErrorCode::NotFound),
        }
    }

    /// Writes `value` under the key bytes, creating the entry if absent
    /// subject to `max_entries`, per the create-or-replace `flags`. On
    /// failure the map is unchanged.
    pub fn update(&mut self, key: &Vec<u8>, value: &Vec<u8>, flags: u64) -> (r: BpfResult)
        requires
            old(self).wf(),
        ensures
            final(self).wf(),
            r == old(self).spec_update_result(key@, value@, flags),
            final(self).spec_attr() == old(self).spec_attr(),
            match r {
                Ok(_) => {
                    &&& final(self).as_map() == old(self).as_map().insert(key@, value@)
                    &&& final(self).key_seq() == (if old(self).has_key(key@) {
                        old(self).key_seq()
                    } else {
                        old(self).key_seq().push(key@)
                    })
                },
                Err(_) => *final(self) == *old(self),
            },
    {
        if key.len() != self.attr.key_size || value.len() != self.attr.value_size {
            return Err(BpfErrorCode::InvalidArgument);
        }
        if !(flags == BPF_FLAG_ANY || flags == BPF_FLAG_NOEXIST || flags == BPF_FLAG_EXIST) {
            return Err(BpfErrorCode::InvalidArgument);
        }
        match self.find(key) {
            Some(i) => {
                if flags == BPF_FLAG_NOEXIST {
                    return Err(BpfErrorCode::InvalidArgument);
                }
                let new_key = copy_bytes(key);
                let new_value = copy_bytes(value);
                self.entries[i] = (new_key, new_value);
                proof {
                    assert(self.key_seq() =~= old(self).key_seq());
                    assert forall|k2: Seq<u8>| self.has_key(k2) implies old(self).has_key(k2) by {}
                    assert(self.as_map() =~= old(self).as_map().insert(key@, value@)) by {
                        assert forall|k2: Seq<u8>| #[trigger] self.has_key(k2) implies
                            self.as_map()[k2] == old(self).as_map().insert(key@, value@)[k2] by {
                            let c = self.idx_of(k2);
                            assert(0 <= c < self.key_seq().len() && self.key_seq()[c] == k2);
                            let c0 = old(self).idx_of(k2);
                            assert(0 <= c0 < old(self).key_seq().len() && old(self).key_seq()[c0]
                                == k2);
                            assert(c == c0);
                            if k2 == key@ {
                                assert(c == i);
                            } else {
                                assert(c != i);
                            }
                        }
                    }
                }
                Ok(0)
            },
            None => {
                if flags == BPF_FLAG_EXIST {
                    return Err(BpfErrorCode::NotFound);
                }
                if self.entries.len() >= self.attr.max_entries {
                    return Err(BpfErrorCode::CapacityExceeded);
                }
                let new_key = copy_bytes(key);
                let new_value = copy_bytes(value);
                self.entries.push((new_key, new_value));
                proof {
                    assert(self.key_seq() =~= old(self).key_seq().push(key@));
                    let n = old(self).key_seq().len();
                    assert(self.key_seq()[n as int] == key@);
                    assert forall|i2: int, j2: int|
                        0 <= i2 < j2 < self.key_seq().len() implies self.key_seq()[i2]
                        != self.key_seq()[j2] by {
                        if j2 == n {
                            assert(!old(self).has_key(key@));
                            assert(old(self).key_seq()[i2] != key@) by {
                                if old(self).key_seq()[i2] == key@ {
                                    assert(old(self).key_seq().contains(key@));
                                }
                            }
                        }
                    }
                    assert(self.as_map() =~= old(self).as_map().insert(key@, value@)) by {
                        assert forall|k2: Seq<u8>| #[trigger] self.has_key(k2) implies
                            self.as_map()[k2] == old(self).as_map().insert(key@, value@)[k2] by {
                            let c = self.idx_of(k2);
                            assert(0 <= c < self.key_seq().len() && self.key_seq()[c] == k2);
                            if k2 == key@ {
                                assert(c == n);
                            } else {
                                assert(c < n);
                                assert(old(self).key_seq()[c] == k2);
                                assert(old(self).has_key(k2));
                                let c0 = old(self).idx_of(k2);
                                assert(0 <= c0 < n && old(self).key_seq()[c0] == k2);
                                assert(c0 == c);
                            }
                        }
                        assert forall|k2: Seq<u8>| #[trigger] old(self).has_key(k2) || k2 == key@
                            implies self.has_key(k2) by {
                            if k2 == key@ {
                                assert(self.key_seq()[n as int] == k2);
                            } else {
                                let c0 = old(self).idx_of(k2);
                                assert(0 <= c0 < n && old(self).key_seq()[c0] == k2);
                                assert(self.key_seq()[c0] == k2);
                            }
                        }
                    }
                }
                Ok(0)
            },
        }
    }

    /// Removes the entry matching the key bytes; `NotFound` when none
    /// does. On failure the map is unchanged.
    pub fn delete(&mut self, key: &Vec<u8>) -> (r: BpfResult)
        requires
            old(self).wf(),
        ensures
            final(self).wf(),
            final(self).spec_attr() == old(self).spec_attr(),
            match r {
                Ok(_) => {
                    &&& r == Ok::<usize, BpfErrorCode>(0)
                    &&& key@.len() == old(self).attr.key_size
                    &&& old(self).has_key(key@)
                    &&& final(self).as_map() == old(self).as_map().remove(key@)
                    &&& final(self).key_seq() == old(self).key_seq().remove(
                        old(self).idx_of(key@),
                    )
                },
                Err(e) => {
                    &&& e == (if key@.len() != old(self).attr.key_size {
                        BpfErrorCode::InvalidArgument
                    } else {
                        BpfErrorCode::NotFound
                    })
                    &&& !(key@.len() == old(self).attr.key_size && old(self).has_key(key@))
                    &&& *final(self) == *old(self)
                },
            },
    {
        if key.len() != self.attr.key_size {
            return Err(BpfErrorCode::InvalidArgument);
        }
        match self.find(key) {
            Some(i) => {
                self.entries.remove(i);
                proof {
                    assert(self.key_seq() =~= old(self).key_seq().remove(i as int));
                    let old_keys = old(self).key_seq();
                    assert forall|i2: int, j2: int|
                        0 <= i2 < j2 < self.key_seq().len() implies self.key_seq()[i2]
                        != self.key_seq()[j2] by {
                        let oi = if i2 < i { i2 } else { i2 + 1 };
                        let oj = if j2 < i { j2 } else { j2 + 1 };
                        assert(self.key_seq()[i2] == old_keys[oi]);
                        assert(self.key_seq()[j2] == old_keys[oj]);
                    }
                    assert(self.as_map() =~= old(self).as_map().remove(key@)) by {
                        assert forall|k2: Seq<u8>| #[trigger] self.has_key(k2) implies
                            old(self).has_key(k2) && k2 != key@ && self.as_map()[k2]
                            == old(self).as_map()[k2] by {
                            let c = self.idx_of(k2);
                            assert(0 <= c < self.key_seq().len() && self.key_seq()[c] == k2);
                            let oc = if c < i { c } else { c + 1 };
                            assert(old_keys[oc] == k2);
                            assert(old(self).has_key(k2));
                            let c0 = old(self).idx_of(k2);
                            assert(0 <= c0 < old_keys.len() && old_keys[c0] == k2);
                            assert(c0 == oc);
                            assert(oc != i);
                            assert(k2 != key@) by {
                                if k2 == key@ {
                                    assert(old_keys[i as int] == key@);
                                }
                            }
                            assert(self.entries@[c] == old(self).entries@[oc]);
                        }
                        assert forall|k2: Seq<u8>|
                            #[trigger] old(self).has_key(k2) && k2 != key@ implies self.has_key(
                            k2,
                        ) by {
                            let c0 = old(self).idx_of(k2);
                            assert(0 <= c0 < old_keys.len() && old_keys[c0] == k2);
                            assert(c0 != i);
                            let c = if c0 < i { c0 } else { c0 - 1 };
                            assert(self.key_seq()[c] == old_keys[c0]);
                            assert(self.key_seq().contains(k2));
                        }
                    }
                }
                Ok(0)
            },
            None => Err(BpfErrorCode::NotFound),
        }
    }

    /// Steps the iteration order: returns the key after `key` (or the
    /// first key for the start sentinel), or `EndOfIteration` past the
    /// last key.
    pub fn next_key(&self, key: Option<&Vec<u8>>) -> (r: Result<Vec<u8>, BpfErrorCode>)
        requires
            self.wf(),
        ensures
            match r {
                Ok(next) => self.spec_next_key(match key {
                    Option::Some(k) => Option::Some(k@),
                    Option::None => Option::None,
                }) == Ok::<Seq<u8>, BpfErrorCode>(next@),
                Err(e) => self.spec_next_key(match key {
                    Option::Some(k) => Option::Some(k@),
                    Option::None => Option::None,
                }) == Err::<Seq<u8>, BpfErrorCode>(e),
            },
    {
        match key {
            None => {
                if self.entries.len() == 0 {
                    Err(BpfErrorCode::EndOfIteration)
                } else {
                    Ok(copy_bytes(&self.entries[0].0))
                }
            },
            Some(k) => {
                if k.len() != self.attr.key_size {
                    return Err(BpfErrorCode::InvalidArgument);
                }
                match self.find(k) {
                    None => Err(BpfErrorCode::NotFound),
                    Some(i) => {
                        if i + 1 >= self.entries.len() {
                            Err(BpfErrorCode::EndOfIteration)
                        } else {
                            Ok(copy_bytes(&self.entries[i + 1].0))
                        }
                    },
                }
            },
        }
    }
}

/// Next-key traversal visits every present key exactly once: starting
/// from the start sentinel, `next_key` yields the keys of the map in
/// iteration order — a duplicate-free sequence containing exactly the
/// keys with entries — and signals `EndOfIteration` after the last.
pub proof fn lemma_next_key_traversal(h: HashMap)
    requires
        h.wf(),
    ensures
        h.key_seq().no_duplicates(),
        forall|k: Seq<u8>| h.as_map().dom().contains(k) <==> h.key_seq().contains(k),
        h.spec_next_key(Option::None) == (if h.key_seq().len() == 0 {
            Err::<Seq<u8>, BpfErrorCode>(BpfErrorCode::EndOfIteration)
        } else {
            Ok::<Seq<u8>, BpfErrorCode>(h.key_seq()[0])
        }),
        forall|i: int|
            0 <= i < h.key_seq().len() - 1 ==> h.spec_next_key(
                Option::Some(#[trigger] h.key_seq()[i]),
            ) == Ok::<Seq<u8>, BpfErrorCode>(h.key_seq()[i + 1]),
        h.key_seq().len() > 0 ==> h.spec_next_key(
            Option::Some(h.key_seq()[h.key_seq().len() - 1]),
        ) == Err::<Seq<u8>, BpfErrorCode>(BpfErrorCode::EndOfIteration),
{
    assert(h.key_seq().no_duplicates()) by {
        reveal(Seq::no_duplicates);
        assert forall|i: int, j: int|
            0 <= i < h.key_seq().len() && 0 <= j < h.key_seq().len() && i != j implies
            h.key_seq()[i] != h.key_seq()[j] by {
            if i < j {
                assert(h.key_seq()[i] != h.key_seq()[j]);
            } else {
                assert(h.key_seq()[j] != h.key_seq()[i]);
            }
        }
    }
    assert forall|i: int| 0 <= i < h.key_seq().len() implies h.spec_next_key(
        Option::Some(#[trigger] h.key_seq()[i]),
    ) == (if i < h.key_seq().len() - 1 {
        Ok::<Seq<u8>, BpfErrorCode>(h.key_seq()[i + 1])
    } else {
        Err::<Seq<u8>, BpfErrorCode>(BpfErrorCode::EndOfIteration)
    }) by {
        let k = h.key_seq()[i];
        assert(h.key_seq().contains(k));
        assert(h.key_seq()[i].len() == h.attr.key_size) by {
            assert(h.entries@[i].0@.len() == h.attr.key_size);
        }
        let c = h.idx_of(k);
        assert(0 <= c < h.key_seq().len() && h.key_seq()[c] == k);
        assert(c == i) by {
            if c < i {
                assert(h.key_seq()[c] != h.key_seq()[i]);
            }
            if c > i {
                assert(h.key_seq()[i] != h.key_seq()[c]);
            }
        }
    }
}

/// Capacity enforcement: creating a distinct new key in a hash map
/// already holding `max_entries` entries fails `CapacityExceeded` — and
/// `update`'s contract adds that a failed update leaves the map, and so
/// its observable key set, unchanged.
pub proof fn lemma_capacity_enforced(h: HashMap, k: Seq<u8>, v: Seq<u8>, flags: u64)
    requires
        h.wf(),
        k.len() == h.attr.key_size,
        v.len() == h.attr.value_size,
        !h.has_key(k),
        h.entries@.len() >= h.attr.max_entries,
        flags == BPF_FLAG_ANY || flags == BPF_FLAG_NOEXIST,
    ensures
        h.spec_update_result(k, v, flags) == Err::<usize, BpfErrorCode>(
            BpfErrorCode::CapacityExceeded,
        ),
{
}

/// Round trip: an update that stores `v` under `k` is observed by the
/// next lookup of `k`, which returns exactly `v`, until `k` is
/// overwritten or deleted.
pub proof fn lemma_hash_round_trip(h1: HashMap, h2: HashMap, k: Seq<u8>, v: Seq<u8>)
    requires
        h1.wf(),
        h2.wf(),
        h2.spec_attr() == h1.spec_attr(),
        k.len() == h1.attr.key_size,
        h2.as_map() == h1.as_map().insert(k, v),
    ensures
        h2.spec_lookup(k) == Ok::<Seq<u8>, BpfErrorCode>(v),
{
    assert(h2.as_map().dom().contains(k));
    assert(h2.has_key(k)) by {
        if !h2.has_key(k) {
            assert(!h2.as_map().dom().contains(k));
        }
    }
    assert(h2.as_map()[k] == v);
}

} // verus!
