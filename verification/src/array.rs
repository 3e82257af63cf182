//! The fixed-size array map: `max_entries` value slots addressed by a
//! 4-byte little-endian numeric key, every slot zero-initialized at
//! creation and always present.

use vstd::prelude::*;
use crate::bytes::{all_zero, copy_bytes, le32_encode, le32_index, read_le32, write_le32, zeroed};
use crate::map::{InternalMapAttr, BPF_FLAG_ANY, BPF_FLAG_EXIST};
use crate::retcode::{BpfErrorCode, BpfResult};

verus! {

/// Total lookup: on any array map, whatever was written before, lookup
/// succeeds for exactly the numeric keys below `max_entries` — every
/// such slot always has a value — and fails `NotFound` at or beyond.
pub proof fn lemma_array_total_lookup(a: ArrayMap, k: Seq<u8>)
    requires
        a.wf(),
        k.len() == 4,
    ensures
        le32_index(k) < a.spec_attr().max_entries ==> a.spec_lookup(k) == Ok::<
            Seq<u8>,
            BpfErrorCode,
        >(a.slots()[le32_index(k)]),
        le32_index(k) >= a.spec_attr().max_entries ==> a.spec_lookup(k) == Err::<
            Seq<u8>,
            BpfErrorCode,
        >(BpfErrorCode::NotFound),
{
}

/// Next-key traversal of an array map visits every index exactly once:
/// from the start sentinel it steps through the keys encoding 0, 1, ..,
/// `max_entries - 1` in order and then signals `EndOfIteration`.
pub proof fn lemma_array_next_key_traversal(a: ArrayMap)
    requires
        a.wf(),
    ensures
        a.spec_next_index(Option::None) == (if a.spec_attr().max_entries > 0 {
            Ok::<int, BpfErrorCode>(0int)
        } else {
            Err::<int, BpfErrorCode>(BpfErrorCode::EndOfIteration)
        }),
        forall|i: int|
            0 <= i < a.spec_attr().max_entries - 1 ==> a.spec_next_index(
                Option::Some(#[trigger] crate::bytes::le32_encode(i)),
            ) == Ok::<int, BpfErrorCode>(i + 1),
        a.spec_attr().max_entries > 0 ==> a.spec_next_index(
            Option::Some(crate::bytes::le32_encode(a.spec_attr().max_entries - 1)),
        ) == Err::<int, BpfErrorCode>(BpfErrorCode::EndOfIteration),
{
    assert forall|i: int| 0 <= i < a.spec_attr().max_entries implies a.spec_next_index(
        Option::Some(#[trigger] crate::bytes::le32_encode(i)),
    ) == (if i + 1 < a.spec_attr().max_entries {
        Ok::<int, BpfErrorCode>(i + 1)
    } else {
        Err::<int, BpfErrorCode>(BpfErrorCode::EndOfIteration)
    }) by {
        crate::bytes::lemma_le32_roundtrip(i);
    }
}

/// Fixed-size array map storage: one value slot per index below
/// `max_entries`, each holding exactly `value_size` bytes.
pub struct ArrayMap {
    pub attr: InternalMapAttr,
    pub storage: Vec<Vec<u8>>,
}

impl ArrayMap {
    /// Structural invariant: 4-byte keys, one slot per index, every slot
    /// exactly `value_size` bytes wide.
    pub open spec fn wf(self) -> bool {
        &&& self.attr.key_size == 4
        &&& self.attr.max_entries <= u32::MAX
        &&& self.storage@.len() == self.attr.max_entries
        &&& forall|i: int|
            0 <= i < self.storage@.len() ==> (#[trigger] self.storage@[i])@.len()
                == self.attr.value_size
    }

    /// The creation parameters this map was built with.
    pub open spec fn spec_attr(self) -> InternalMapAttr {
        self.attr
    }

    /// The slot contents, index by index.
    pub open spec fn slots(self) -> Seq<Seq<u8>> {
        self.storage@.map(|i: int, v: Vec<u8>| v@)
    }

    /// What `lookup` returns: the slot bytes for an in-range index, and
    /// `NotFound` exactly when the numeric key is at or past `max_entries`.
    pub open spec fn spec_lookup(self, k: Seq<u8>) -> Result<Seq<u8>, BpfErrorCode> {
        if k.len() != 4 {
            Err(BpfErrorCode::InvalidArgument)
        } else if le32_index(k) < self.attr.max_entries {
            Ok(self.slots()[le32_index(k)])
        } else {
            Err(BpfErrorCode::NotFound)
        }
    }

    /// What `update` returns. Every in-range slot always exists, so the
    /// create-only flag is rejected; out-of-range indices and unknown flags
    /// are invalid arguments.
    pub open spec fn spec_update_result(self, k: Seq<u8>, v: Seq<u8>, flags: u64) -> BpfResult {
        if k.len() != 4 || v.len() != self.attr.value_size {
            Err(BpfErrorCode::InvalidArgument)
        } else if !(flags == BPF_FLAG_ANY || flags == BPF_FLAG_EXIST) {
            Err(BpfErrorCode::InvalidArgument)
        } else if le32_index(k) < self.attr.max_entries {
            Ok(0)
        } else {
            Err(BpfErrorCode::InvalidArgument)
        }
    }

    /// The index `next_key` steps to from `cur`: the start sentinel leads
    /// to index 0, every other in-range index to its successor, the last
    /// index to `EndOfIteration`, and an out-of-range index to `NotFound`.
    pub open spec fn spec_next_index(self, cur: Option<Seq<u8>>) -> Result<int, BpfErrorCode> {
        match cur {
            Option::None => {
                if self.attr.max_entries > 0 {
                    Ok(0int)
                } else {
                    Err(BpfErrorCode::EndOfIteration)
                }
            },
            Option::Some(k) => {
                if k.len() != 4 {
                    Err(BpfErrorCode::InvalidArgument)
                } else if le32_index(k) >= self.attr.max_entries {
                    Err(BpfErrorCode::NotFound)
                } else if le32_index(k) + 1 < self.attr.max_entries {
                    Ok(le32_index(k) + 1)
                } else {
                    Err(BpfErrorCode::EndOfIteration)
                }
            },
        }
    }

    /// Creates an array map: one zero-filled slot of `value_size` bytes for
    /// every index below `max_entries`.
    pub fn new(attr: InternalMapAttr) -> (r: ArrayMap)
        requires
            attr.key_size == 4,
            attr.max_entries <= u32::MAX,
        ensures
            r.wf(),
            r.spec_attr() == attr,
            forall|i: int| 0 <= i < attr.max_entries ==> all_zero(#[trigger] r.slots()[i]),
    {
        let mut storage: Vec<Vec<u8>> = Vec::new();
        let mut i: usize = 0;
        while i < attr.max_entries
            invariant
                i <= attr.max_entries,
                storage@.len() == i,
                forall|j: int|
                    0 <= j < i ==> (#[trigger] storage@[j])@.len() == attr.value_size,
                forall|j: int| 0 <= j < i ==> all_zero((#[trigger] storage@[j])@),
            decreases attr.max_entries - i,
        {
            storage.push(zeroed(attr.value_size));
            i = i + 1;
        }
        ArrayMap { attr, storage }
    }

    /// Read-only access to the creation parameters; always succeeds.
    pub fn get_attr(&self) -> (r: InternalMapAttr)
        ensures
            r == self.spec_attr(),
    {
        self.attr
    }

    /// Reads the `value_size` bytes stored at the numeric key. `NotFound`
    /// occurs only for an index at or past `max_entries`; every other index
    /// always has a value.
    pub fn lookup(&self, key: &Vec<u8>) -> (r: Result<Vec<u8>, BpfErrorCode>)
        requires
            self.wf(),
        ensures
            match r {
                Ok(v) => self.spec_lookup(key@) == Ok::<Seq<u8>, BpfErrorCode>(v@),
                Err(e) => self.spec_lookup(key@) == Err::<Seq<u8>, BpfErrorCode>(e),
            },
    {
        if key.len() != 4 {
            return Err(BpfErrorCode::InvalidArgument);
        }
        let idx = read_le32(key);
        if (idx as usize) < self.attr.max_entries {
            Ok(copy_bytes(&self.storage[idx as usize]))
        } else {
            Err(BpfErrorCode::NotFound)
        }
    }

    /// Writes `value` at the numeric key; replace-only, since every
    /// in-range slot exists. On failure the map is unchanged.
    pub fn update(&mut self, key: &Vec<u8>, value: &Vec<u8>, flags: u64) -> (r: BpfResult)
        requires
            old(self).wf(),
        ensures
            final(self).wf(),
            r == old(self).spec_update_result(key@, value@, flags),
            final(self).spec_attr() == old(self).spec_attr(),
            match r {
                Ok(_) => final(self).slots() == old(self).slots().update(
                    le32_index(key@),
                    value@,
                ),
                Err(_) => *final(self) == *old(self),
            },
    {
        if key.len() != 4 || value.len() != self.attr.value_size {
            return Err(BpfErrorCode::InvalidArgument);
        }
        if !(flags == BPF_FLAG_ANY || flags == BPF_FLAG_EXIST) {
            return Err(BpfErrorCode::InvalidArgument);
        }
        let idx = read_le32(key);
        if (idx as usize) < self.attr.max_entries {
            self.storage[idx as usize] = copy_bytes(value);
            proof {
                assert(self.slots() =~= old(self).slots().update(le32_index(key@), value@));
            }
            Ok(0)
        } else {
            Err(BpfErrorCode::InvalidArgument)
        }
    }

    /// Deletion is rejected outright: fixed-size storage has no absence
    /// state. The map is unchanged.
    pub fn delete(&mut self, key: &Vec<u8>) -> (r: BpfResult)
        requires
            old(self).wf(),
        ensures
            *final(self) == *old(self),
            r == Err::<usize, BpfErrorCode>(BpfErrorCode::InvalidArgument),
    {
        let _ = key;
        Err(BpfErrorCode::InvalidArgument)
    }

    /// Steps the iteration order 0, 1, .., `max_entries - 1`: returns the
    /// key after `key` (or the first key for the start sentinel), or
    /// `EndOfIteration` past the last index.
    pub fn next_key(&self, key: Option<&Vec<u8>>) -> (r: Result<Vec<u8>, BpfErrorCode>)
        requires
            self.wf(),
        ensures
            match r {
                Ok(next) => {
                    &&& next@.len() == 4
                    &&& self.spec_next_index(match key {
                        Option::Some(k) => Option::Some(k@),
                        Option::None => Option::None,
                    }) == Ok::<int, BpfErrorCode>(le32_index(next@))
                    &&& next@ == le32_encode(le32_index(next@))
                },
                Err(e) => self.spec_next_index(match key {
                    Option::Some(k) => Option::Some(k@),
                    Option::None => Option::None,
                }) == Err::<int, BpfErrorCode>(e),
            },
    {
        match key {
            None => {
                if self.attr.max_entries > 0 {
                    Ok(write_le32(0))
                } else {
                    Err(BpfErrorCode::EndOfIteration)
                }
            },
            Some(k) => {
                if k.len() != 4 {
                    return Err(BpfErrorCode::InvalidArgument);
                }
                let idx = read_le32(k);
                if (idx as usize) >= self.attr.max_entries {
                    Err(BpfErrorCode::NotFound)
                } else if (idx as usize) + 1 < self.attr.max_entries {
                    Ok(write_le32(idx + 1))
                } else {
                    Err(BpfErrorCode::EndOfIteration)
                }
            },
        }
    }
}

} // verus!
