//! Map creation parameters and the operations routed to a map through its fd.

use vstd::prelude::*;
use crate::array::ArrayMap;
use crate::bytes::all_zero;
use crate::hash::HashMap;
use crate::object::{same_except_map_at, BpfMap, BpfObject, BpfState};
use crate::retcode::{BpfErrorCode, BpfResult};

verus! {

/// Map type tag accepted at creation: associative hash map.
pub const BPF_MAP_TYPE_HASH: u32 = 1;

/// Map type tag accepted at creation: fixed-size array map.
pub const BPF_MAP_TYPE_ARRAY: u32 = 2;

/// Creation parameters of a map as they cross the syscall boundary.
/// All four are supplied once at creation and immutable thereafter.
#[derive(Clone, Copy, Debug, PartialEq, Eq, Structural)]
pub struct MapAttr {
    pub map_type: u32,
    pub key_size: u32,
    pub value_size: u32,
    pub max_entries: u32,
}

/// Record addressing one element operation as it crosses the syscall
/// boundary: the target map's fd, user addresses of the key and of the
/// value (or next-key) buffer, and the update flags.
#[derive(Clone, Copy, Debug, PartialEq, Eq, Structural)]
pub struct MapOpAttr {
    pub map_fd: u32,
    pub key: u64,
    pub value_or_nextkey: u64,
    pub flags: u64,
}

/// The element operations a map supports through its fd.
#[derive(Clone, Copy, Debug, PartialEq, Eq, Structural)]
pub enum BpfMapOp {
    LookUp,
    Update,
    Delete,
    GetNextKey,
}

/// Creation parameters in the widths the storage engine computes with.
#[derive(Clone, Copy, Debug, PartialEq, Eq, Structural)]
pub struct InternalMapAttr {
    pub key_size: usize,
    pub value_size: usize,
    pub max_entries: usize,
}

impl From<MapAttr> for InternalMapAttr {
    fn from(attr: MapAttr) -> (r: InternalMapAttr) {
        InternalMapAttr {
            key_size: attr.key_size as usize,
            value_size: attr.value_size as usize,
            max_entries: attr.max_entries as usize,
        }
    }
}

impl vstd::std_specs::convert::FromSpecImpl<MapAttr> for InternalMapAttr {
    open spec fn obeys_from_spec() -> bool {
        true
    }

    open spec fn from_spec(attr: MapAttr) -> InternalMapAttr {
        InternalMapAttr {
            key_size: attr.key_size as usize,
            value_size: attr.value_size as usize,
            max_entries: attr.max_entries as usize,
        }
    }
}

/// The widened form of creation parameters crossing the boundary.
pub open spec fn spec_internal_attr(attr: MapAttr) -> InternalMapAttr {
    InternalMapAttr {
        key_size: attr.key_size as usize,
        value_size: attr.value_size as usize,
        max_entries: attr.max_entries as usize,
    }
}

/// What creating a map returns: the fresh fd, or an invalid argument for
/// an unknown map type or an array map whose key size is not 4.
pub open spec fn spec_map_create_result(attr: MapAttr, next_fd: u32) -> BpfResult {
    if attr.map_type == BPF_MAP_TYPE_ARRAY {
        if attr.key_size != 4 {
            Err(BpfErrorCode::InvalidArgument)
        } else {
            Ok(next_fd as usize)
        }
    } else if attr.map_type == BPF_MAP_TYPE_HASH {
        Ok(next_fd as usize)
    } else {
        Err(BpfErrorCode::InvalidArgument)
    }
}

/// Creates a map of the kind `attr.map_type` selects, inserts it into
/// the object table under a fresh fd, and returns that fd. Unknown map
/// types are rejected at creation, not at use; an array map must have
/// 4-byte keys.
pub fn bpf_map_create(s: &mut BpfState, attr: MapAttr) -> (r: BpfResult)
    requires
        old(s).wf(),
        old(s).next_fd < u32::MAX,
    ensures
        final(s).wf(),
        r == spec_map_create_result(attr, old(s).next_fd),
        r matches Err(_) ==> *final(s) == *old(s),
        r matches Ok(_) ==> ({
            let fd0 = old(s).next_fd;
            &&& final(s).next_fd == old(s).next_fd + 1
            &&& final(s).next_prog_id == old(s).next_prog_id
            &&& !old(s).has_fd(fd0)
            &&& final(s).is_map_fd(fd0)
            &&& final(s).map_at(fd0).wf()
            &&& final(s).map_at(fd0).spec_attr() == spec_internal_attr(attr)
            &&& match final(s).map_at(fd0) {
                BpfMap::Array(a) => attr.map_type == BPF_MAP_TYPE_ARRAY && forall|i: int|
                    0 <= i < a.slots().len() ==> all_zero(#[trigger] a.slots()[i]),
                BpfMap::Hash(h) => attr.map_type == BPF_MAP_TYPE_HASH && h.as_map() == Map::<
                    Seq<u8>,
                    Seq<u8>,
                >::empty() && h.key_seq() == Seq::<Seq<u8>>::empty(),
            }
            &&& forall|fd2: u32|
                fd2 != fd0 ==> (final(s).has_fd(fd2) == old(s).has_fd(fd2) && (old(s).has_fd(fd2)
                    ==> final(s).obj_of(fd2) == old(s).obj_of(fd2)))
            &&& final(s).attached == old(s).attached
            &&& final(s).registered == old(s).registered
        }),
{
    if attr.map_type == BPF_MAP_TYPE_ARRAY {
        if attr.key_size != 4 {
            return Err(BpfErrorCode::InvalidArgument);
        }
        let internal_attr = InternalMapAttr::from(attr);
        let map = ArrayMap::new(internal_attr);
        let fd = s.insert_object(BpfObject::MapObj(BpfMap::Array(map)));
        Ok(fd as usize)
    } else if attr.map_type == BPF_MAP_TYPE_HASH {
        let internal_attr = InternalMapAttr::from(attr);
        let map = HashMap::new(internal_attr);
        let fd = s.insert_object(BpfObject::MapObj(BpfMap::Hash(map)));
        Ok(fd as usize)
    } else {
        Err(BpfErrorCode::InvalidArgument)
    }
}

/// Closes an fd: the object table entry is removed, so every later
/// operation on this fd fails `NotFound`. The object itself lives on
/// while attachment lists still reference it.
pub fn bpf_map_close(s: &mut BpfState, fd: u32) -> (r: BpfResult)
    requires
        old(s).wf(),
    ensures
        final(s).wf(),
        r == (if old(s).has_fd(fd) {
            Ok::<usize, BpfErrorCode>(0)
        } else {
            Err::<usize, BpfErrorCode>(BpfErrorCode::NotFound)
        }),
        !final(s).has_fd(fd),
        forall|fd2: u32|
            fd2 != fd ==> (final(s).has_fd(fd2) == old(s).has_fd(fd2) && (old(s).has_fd(fd2) ==> final(s).obj_of(
                fd2,
            ) == old(s).obj_of(fd2))),
        final(s).next_fd == old(s).next_fd,
        final(s).next_prog_id == old(s).next_prog_id,
        final(s).attached == old(s).attached,
        final(s).registered == old(s).registered,
{
    match s.bpf_object_remove(fd) {
        Some(_) => Ok(0),
        None => Err(BpfErrorCode::NotFound),
    }
}

/// Reads the creation parameters of the map behind `fd`; `None` when the
/// fd is not live or does not refer to a map.
pub fn bpf_map_get_attr(s: &BpfState, fd: u32) -> (r: Option<InternalMapAttr>)
    requires
        s.wf(),
    ensures
        r == (if s.is_map_fd(fd) {
            Some(s.map_at(fd).spec_attr())
        } else {
            Option::<InternalMapAttr>::None
        }),
{
    match s.find_fd(fd) {
        None => None,
        Some(i) => match &s.objects[i].1 {
            BpfObject::MapObj(m) => Some(m.get_attr()),
            BpfObject::Program(_) => None,
        },
    }
}

/// Routes one element operation to the map behind `fd` and performs it
/// as one atomic step against the state. The key is `None` only for the
/// start sentinel of `GetNextKey`; `value` carries the value in for
/// `Update` and the result out for `LookUp` and `GetNextKey`.
pub fn bpf_map_ops(
    s: &mut BpfState,
    fd: u32,
    op: BpfMapOp,
    key: Option<&Vec<u8>>,
    value: &mut Vec<u8>,
    flags: u64,
) -> (r: BpfResult)
    requires
        old(s).wf(),
    ensures
        final(s).wf(),
        same_except_map_at(*old(s), *final(s), fd),
        !old(s).is_map_fd(fd) ==> (r == Err::<usize, BpfErrorCode>(BpfErrorCode::NotFound) && *final(s)
            == *old(s) && *final(value) == *old(value)),
        old(s).is_map_fd(fd) ==> ({
            let m0 = old(s).map_at(fd);
            &&& final(s).is_map_fd(fd)
            &&& final(s).map_at(fd).wf()
            &&& final(s).map_at(fd).spec_attr() == m0.spec_attr()
            &&& match op {
                BpfMapOp::LookUp => {
                    &&& final(s).map_at(fd) == m0
                    &&& match key {
                        Option::None => r == Err::<usize, BpfErrorCode>(
                            BpfErrorCode::InvalidArgument,
                        ) && *final(value) == *old(value),
                        Option::Some(k) => match m0.spec_lookup(k@) {
                            Ok(v) => r == Ok::<usize, BpfErrorCode>(0) && final(value)@ == v,
                            Err(e) => r == Err::<usize, BpfErrorCode>(e) && *final(value) == *old(
                                value,
                            ),
                        },
                    }
                },
                BpfMapOp::Update => {
                    &&& *final(value) == *old(value)
                    &&& match key {
                        Option::None => r == Err::<usize, BpfErrorCode>(
                            BpfErrorCode::InvalidArgument,
                        ) && final(s).map_at(fd) == m0,
                        Option::Some(k) => {
                            &&& r == m0.spec_update_result(k@, old(value)@, flags)
                            &&& match r {
                                Ok(_) => m0.updated(final(s).map_at(fd), k@, old(value)@),
                                Err(_) => final(s).map_at(fd) == m0,
                            }
                        },
                    }
                },
                BpfMapOp::Delete => {
                    &&& *final(value) == *old(value)
                    &&& match key {
                        Option::None => r == Err::<usize, BpfErrorCode>(
                            BpfErrorCode::InvalidArgument,
                        ) && final(s).map_at(fd) == m0,
                        Option::Some(k) => {
                            &&& r == m0.spec_delete_result(k@)
                            &&& match r {
                                Ok(_) => m0.deleted(final(s).map_at(fd), k@),
                                Err(_) => final(s).map_at(fd) == m0,
                            }
                        },
                    }
                },
                BpfMapOp::GetNextKey => {
                    &&& final(s).map_at(fd) == m0
                    &&& match m0.spec_next_key(match key {
                        Option::Some(k) => Option::Some(k@),
                        Option::None => Option::None,
                    }) {
                        Ok(nk) => r == Ok::<usize, BpfErrorCode>(0) && final(value)@ == nk,
                        Err(e) => r == Err::<usize, BpfErrorCode>(e) && *final(value) == *old(
                            value,
                        ),
                    }
                },
            }
        }),
{
    let i = match s.find_fd(fd) {
        Some(i) => i,
        None => {
            return Err(BpfErrorCode::NotFound);
        },
    };
    let is_map = match &s.objects[i].1 {
        BpfObject::MapObj(_) => true,
        BpfObject::Program(_) => false,
    };
    if !is_map {
        return Err(BpfErrorCode::NotFound);
    }
    let entry = s.objects.remove(i);
    let fd0 = entry.0;
    let mut m = match entry.1 {
        BpfObject::MapObj(m) => m,
        BpfObject::Program(p) => {
            proof {
                assert(false);
            }
            s.objects.insert(i, (fd0, BpfObject::Program(p)));
            return Err(BpfErrorCode::NotFound);
        },
    };
    let res: BpfResult = match op {
        BpfMapOp::LookUp => match key {
            None => Err(BpfErrorCode::InvalidArgument),
            Some(k) => match m.lookup(k) {
                Ok(v) => {
                    *value = v;
                    Ok(0)
                },
                Err(e) => Err(e),
            },
        },
        BpfMapOp::Update => match key {
            None => Err(BpfErrorCode::InvalidArgument),
            Some(k) => m.update(k, value, flags),
        },
        BpfMapOp::Delete => match key {
            None => Err(BpfErrorCode::InvalidArgument),
            Some(k) => m.delete(k),
        },
        BpfMapOp::GetNextKey => match m.next_key(key) {
            Ok(nk) => {
                *value = nk;
                Ok(0)
            },
            Err(e) => Err(e),
        },
    };
    s.objects.insert(i, (fd0, BpfObject::MapObj(m)));
    proof {
        crate::object::lemma_same_attach_tables(*old(s), *s);
        let old_objs = old(s).objects@;
        assert(s.objects@ =~= old_objs.update(
            i as int,
            (fd0, BpfObject::MapObj(m)),
        ));
        assert(s.fd_seq() =~= old(s).fd_seq());
        assert forall|i2: int| 0 <= i2 < s.objects@.len() implies (match (
        #[trigger] s.objects@[i2]).1 {
            BpfObject::MapObj(m2) => m2.wf(),
            BpfObject::Program(p2) => p2.prog_id < s.next_prog_id,
        }) by {
            if i2 != i {
                assert(s.objects@[i2] == old_objs[i2]);
            }
        }
        assert forall|fd2: u32|
            fd2 != fd && old(s).has_fd(fd2) implies #[trigger] s.obj_of(fd2) == old(s).obj_of(
            fd2,
        ) by {
            let c = s.fd_idx(fd2);
            assert(0 <= c < s.fd_seq().len() && s.fd_seq()[c] == fd2);
            assert(c != i) by {
                assert(s.fd_seq()[i as int] == fd);
            }
            assert(s.objects@[c] == old_objs[c]);
        }
        assert(s.fd_idx(fd) == i) by {
            let c = s.fd_idx(fd);
            assert(0 <= c < s.fd_seq().len() && s.fd_seq()[c] == fd);
            if c < i {
                assert(old(s).fd_seq()[c] != old(s).fd_seq()[i as int]);
            }
            if c > i {
                assert(old(s).fd_seq()[i as int] != old(s).fd_seq()[c]);
            }
        }
        assert(s.obj_of(fd) == BpfObject::MapObj(m));
    }
    res
}

/// Looks up the element under `key` in the map behind `fd`; on success
/// the value bytes are written to `value`.
pub fn bpf_map_lookup_elem(
    s: &mut BpfState,
    fd: u32,
    key: &Vec<u8>,
    value: &mut Vec<u8>,
    flags: u64,
) -> (r: BpfResult)
    requires
        old(s).wf(),
    ensures
        final(s).wf(),
        same_except_map_at(*old(s), *final(s), fd),
        !old(s).is_map_fd(fd) ==> (r == Err::<usize, BpfErrorCode>(BpfErrorCode::NotFound) && *final(s)
            == *old(s) && *final(value) == *old(value)),
        old(s).is_map_fd(fd) ==> final(s).is_map_fd(fd) && final(s).map_at(fd) == old(s).map_at(fd),
        old(s).is_map_fd(fd) ==> match old(s).map_at(fd).spec_lookup(key@) {
            Ok(v) => r == Ok::<usize, BpfErrorCode>(0) && final(value)@ == v,
            Err(e) => r == Err::<usize, BpfErrorCode>(e) && *final(value) == *old(value),
        },
{
    bpf_map_ops(s, fd, BpfMapOp::LookUp, Some(key), value, flags)
}

/// Writes the element under `key` in the map behind `fd`, per the
/// create-or-replace `flags`.
pub fn bpf_map_update_elem(
    s: &mut BpfState,
    fd: u32,
    key: &Vec<u8>,
    value: &mut Vec<u8>,
    flags: u64,
) -> (r: BpfResult)
    requires
        old(s).wf(),
    ensures
        final(s).wf(),
        same_except_map_at(*old(s), *final(s), fd),
        *final(value) == *old(value),
        !old(s).is_map_fd(fd) ==> (r == Err::<usize, BpfErrorCode>(BpfErrorCode::NotFound) && *final(s)
            == *old(s)),
        old(s).is_map_fd(fd) ==> ({
            let m0 = old(s).map_at(fd);
            &&& final(s).is_map_fd(fd)
            &&& r == m0.spec_update_result(key@, old(value)@, flags)
            &&& match r {
                Ok(_) => m0.updated(final(s).map_at(fd), key@, old(value)@),
                Err(_) => final(s).map_at(fd) == m0,
            }
        }),
{
    bpf_map_ops(s, fd, BpfMapOp::Update, Some(key), value, flags)
}

/// Deletes the element under `key` in the map behind `fd`; rejected
/// outright on array maps.
pub fn bpf_map_delete_elem(
    s: &mut BpfState,
    fd: u32,
    key: &Vec<u8>,
    value: &mut Vec<u8>,
    flags: u64,
) -> (r: BpfResult)
    requires
        old(s).wf(),
    ensures
        final(s).wf(),
        same_except_map_at(*old(s), *final(s), fd),
        *final(value) == *old(value),
        !old(s).is_map_fd(fd) ==> (r == Err::<usize, BpfErrorCode>(BpfErrorCode::NotFound) && *final(s)
            == *old(s)),
        old(s).is_map_fd(fd) ==> ({
            let m0 = old(s).map_at(fd);
            &&& final(s).is_map_fd(fd)
            &&& r == m0.spec_delete_result(key@)
            &&& match r {
                Ok(_) => m0.deleted(final(s).map_at(fd), key@),
                Err(_) => final(s).map_at(fd) == m0,
            }
        }),
{
    let _ = flags;
    bpf_map_ops(s, fd, BpfMapOp::Delete, Some(key), value, flags)
}

/// Returns, in `value`, the key following `key` in the iteration order
/// of the map behind `fd`; `key` is `None` for the start sentinel.
pub fn bpf_map_get_next_key(
    s: &mut BpfState,
    fd: u32,
    key: Option<&Vec<u8>>,
    value: &mut Vec<u8>,
    flags: u64,
) -> (r: BpfResult)
    requires
        old(s).wf(),
    ensures
        final(s).wf(),
        same_except_map_at(*old(s), *final(s), fd),
        !old(s).is_map_fd(fd) ==> (r == Err::<usize, BpfErrorCode>(BpfErrorCode::NotFound) && *final(s)
            == *old(s) && *final(value) == *old(value)),
        old(s).is_map_fd(fd) ==> final(s).is_map_fd(fd) && final(s).map_at(fd) == old(s).map_at(fd),
        old(s).is_map_fd(fd) ==> match old(s).map_at(fd).spec_next_key(match key {
            Option::Some(k) => Option::Some(k@),
            Option::None => Option::None,
        }) {
            Ok(nk) => r == Ok::<usize, BpfErrorCode>(0) && final(value)@ == nk,
            Err(e) => r == Err::<usize, BpfErrorCode>(e) && *final(value) == *old(value),
        },
{
    bpf_map_ops(s, fd, BpfMapOp::GetNextKey, key, value, flags)
}

/// Update flag: insert the entry or replace it unconditionally.
pub const BPF_FLAG_ANY: u64 = 0;

/// Update flag: create only; fail if the key already has an entry.
pub const BPF_FLAG_NOEXIST: u64 = 1;

/// Update flag: replace only; fail if the key has no entry.
pub const BPF_FLAG_EXIST: u64 = 2;

} // verus!
