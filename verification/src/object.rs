//! The fd-indexed object table and the whole subsystem state.
//!
//! A kernel keeps this state behind process-wide locks; here it is one
//! explicit value, so every operation is a function over it, and what
//! the locks serialize becomes ordinary sequential execution.

use vstd::prelude::*;
use crate::hash::HashMap;
use crate::array::ArrayMap;
use crate::map::InternalMapAttr;
use crate::tracepoints::{tp_lt, Tracepoint, TracepointType};

verus! {

/// One closed set of map variants behind the common capability contract
/// {lookup, update, delete, next_key, get_attr}, dispatched by the tag
/// chosen at creation.
pub enum BpfMap {
    Array(ArrayMap),
    Hash(HashMap),
}

impl BpfMap {
    /// Structural invariant of the underlying variant.
    pub open spec fn wf(self) -> bool {
        match self {
            BpfMap::Array(a) => a.wf(),
            BpfMap::Hash(h) => h.wf(),
        }
    }

    /// The creation parameters of the underlying variant.
    pub open spec fn spec_attr(self) -> InternalMapAttr {
        match self {
            BpfMap::Array(a) => a.spec_attr(),
            BpfMap::Hash(h) => h.spec_attr(),
        }
    }

    /// Whether this is the fixed-size array variant.
    pub open spec fn is_array(self) -> bool {
        self matches BpfMap::Array(_)
    }

    /// What `lookup` returns for this variant.
    pub open spec fn spec_lookup(self, k: Seq<u8>) -> Result<Seq<u8>, crate::retcode::BpfErrorCode> {
        match self {
            BpfMap::Array(a) => a.spec_lookup(k),
            BpfMap::Hash(h) => h.spec_lookup(k),
        }
    }

    /// What `update` returns for this variant.
    pub open spec fn spec_update_result(self, k: Seq<u8>, v: Seq<u8>, flags: u64) -> crate::retcode::BpfResult {
        match self {
            BpfMap::Array(a) => a.spec_update_result(k, v, flags),
            BpfMap::Hash(h) => h.spec_update_result(k, v, flags),
        }
    }

    /// What `delete` returns for this variant: rejected outright on the
    /// array variant, absence-checked removal on the hash variant.
    pub open spec fn spec_delete_result(self, k: Seq<u8>) -> crate::retcode::BpfResult {
        match self {
            BpfMap::Array(_) => Err(crate::retcode::BpfErrorCode::InvalidArgument),
            BpfMap::Hash(h) => {
                if k.len() != h.attr.key_size {
                    Err(crate::retcode::BpfErrorCode::InvalidArgument)
                } else if h.has_key(k) {
                    Ok(0)
                } else {
                    Err(crate::retcode::BpfErrorCode::NotFound)
                }
            },
        }
    }

    /// What `next_key` returns for this variant, as key bytes.
    pub open spec fn spec_next_key(self, cur: Option<Seq<u8>>) -> Result<
        Seq<u8>,
        crate::retcode::BpfErrorCode,
    > {
        match self {
            BpfMap::Array(a) => match a.spec_next_index(cur) {
                Ok(i) => Ok(crate::bytes::le32_encode(i)),
                Err(e) => Err(e),
            },
            BpfMap::Hash(h) => h.spec_next_key(cur),
        }
    }

    /// How a successful `update` changes the variant: the array slot at
    /// the numeric key is overwritten; the hash contents gain or replace
    /// the binding, appending a fresh key to the iteration order.
    pub open spec fn updated(self, new: BpfMap, k: Seq<u8>, v: Seq<u8>) -> bool {
        match (self, new) {
            (BpfMap::Array(a), BpfMap::Array(a2)) => {
                &&& a2.attr == a.attr
                &&& a2.slots() == a.slots().update(crate::bytes::le32_index(k), v)
            },
            (BpfMap::Hash(h), BpfMap::Hash(h2)) => {
                &&& h2.attr == h.attr
                &&& h2.as_map() == h.as_map().insert(k, v)
                &&& h2.key_seq() == (if h.has_key(k) {
                    h.key_seq()
                } else {
                    h.key_seq().push(k)
                })
            },
            _ => false,
        }
    }

    /// How a successful `delete` changes the variant: only the hash
    /// variant ever deletes, dropping the binding and its key.
    pub open spec fn deleted(self, new: BpfMap, k: Seq<u8>) -> bool {
        match (self, new) {
            (BpfMap::Hash(h), BpfMap::Hash(h2)) => {
                &&& h2.attr == h.attr
                &&& h2.as_map() == h.as_map().remove(k)
                &&& h2.key_seq() == h.key_seq().remove(h.idx_of(k))
            },
            _ => false,
        }
    }

    /// Read-only access to the creation parameters; always succeeds.
    pub fn get_attr(&self) -> (r: InternalMapAttr)
        ensures
            r == self.spec_attr(),
    {
        match self {
            BpfMap::Array(a) => a.get_attr(),
            BpfMap::Hash(h) => h.get_attr(),
        }
    }

    /// Reads the value stored under the key, whatever the variant.
    pub fn lookup(&self, key: &Vec<u8>) -> (r: Result<Vec<u8>, crate::retcode::BpfErrorCode>)
        requires
            self.wf(),
        ensures
            match r {
                Ok(v) => self.spec_lookup(key@) == Ok::<Seq<u8>, crate::retcode::BpfErrorCode>(
                    v@,
                ),
                Err(e) => self.spec_lookup(key@) == Err::<Seq<u8>, crate::retcode::BpfErrorCode>(
                    e,
                ),
            },
    {
        match self {
            BpfMap::Array(a) => a.lookup(key),
            BpfMap::Hash(h) => h.lookup(key),
        }
    }

    /// Writes the value under the key per the create-or-replace flags,
    /// whatever the variant. On failure the map is unchanged.
    pub fn update(&mut self, key: &Vec<u8>, value: &Vec<u8>, flags: u64) -> (r:
        crate::retcode::BpfResult)
        requires
            old(self).wf(),
        ensures
            final(self).wf(),
            final(self).spec_attr() == old(self).spec_attr(),
            r == old(self).spec_update_result(key@, value@, flags),
            match r {
                Ok(_) => old(self).updated(*final(self), key@, value@),
                Err(_) => *final(self) == *old(self),
            },
    {
        match self {
            BpfMap::Array(a) => a.update(key, value, flags),
            BpfMap::Hash(h) => h.update(key, value, flags),
        }
    }

    /// Removes the entry under the key where the variant supports it. On
    /// failure the map is unchanged.
    pub fn delete(&mut self, key: &Vec<u8>) -> (r: crate::retcode::BpfResult)
        requires
            old(self).wf(),
        ensures
            final(self).wf(),
            final(self).spec_attr() == old(self).spec_attr(),
            r == old(self).spec_delete_result(key@),
            match r {
                Ok(_) => old(self).deleted(*final(self), key@),
                Err(_) => *final(self) == *old(self),
            },
    {
        match self {
            BpfMap::Array(a) => a.delete(key),
            BpfMap::Hash(h) => h.delete(key),
        }
    }

    /// Steps the variant's iteration order from `key` (or from the start
    /// sentinel).
    pub fn next_key(&self, key: Option<&Vec<u8>>) -> (r: Result<
        Vec<u8>,
        crate::retcode::BpfErrorCode,
    >)
        requires
            self.wf(),
        ensures
            match r {
                Ok(next) => self.spec_next_key(match key {
                    Option::Some(k) => Option::Some(k@),
                    Option::None => Option::None,
                }) == Ok::<Seq<u8>, crate::retcode::BpfErrorCode>(next@),
                Err(e) => self.spec_next_key(match key {
                    Option::Some(k) => Option::Some(k@),
                    Option::None => Option::None,
                }) == Err::<Seq<u8>, crate::retcode::BpfErrorCode>(e),
            },
    {
        match self {
            BpfMap::Array(a) => a.next_key(key),
            BpfMap::Hash(h) => h.next_key(key),
        }
    }
}

/// A loaded program as the object table sees it: an opaque unit of logic
/// with an identity. Attachment lists reference programs by this
/// identity, which is what duplicate-attach rejection compares.
#[derive(Clone, Copy, Debug, PartialEq, Eq, Structural)]
pub struct BpfProgram {
    pub prog_id: u64,
}

/// A live kernel object addressable by fd: a map or a loaded program.
pub enum BpfObject {
    MapObj(BpfMap),
    Program(BpfProgram),
}

/// The two underlying probe registrations the external probe subsystem
/// performs: a plain kprobe, or a kretprobe covering entry and exit of
/// one address together.
#[derive(Clone, Copy, Debug, PartialEq, Eq, Structural)]
pub enum ProbeKind {
    KProbe,
    KRetProbe,
}

/// The whole subsystem state: the fd-indexed object table, the
/// attachment table from tracepoint to the programs to run there, and
/// the log of underlying probe registrations performed so far.
pub struct BpfState {
    pub next_fd: u32,
    pub next_prog_id: u64,
    pub objects: Vec<(u32, BpfObject)>,
    pub attached: Vec<(Tracepoint, Vec<u64>)>,
    pub registered: Vec<(ProbeKind, usize)>,
}

/// Fd uniqueness and lifecycle: in a well-formed state every live fd
/// stands at exactly one table position — it refers to exactly one
/// object — and every fd at or beyond the allocation cursor is dead.
/// Since creation always allocates at the cursor and moves it up, a
/// closed fd is never handed out again while the state lives, and every
/// operation on it keeps failing `NotFound`.
pub proof fn lemma_fd_uniqueness(s: BpfState)
    requires
        s.wf(),
    ensures
        forall|i: int, j: int|
            0 <= i < s.fd_seq().len() && 0 <= j < s.fd_seq().len() && s.fd_seq()[i] == s.fd_seq()[j]
                ==> i == j,
        forall|fd: u32| fd >= s.next_fd ==> !s.has_fd(fd),
{
    assert forall|i: int, j: int|
        0 <= i < s.fd_seq().len() && 0 <= j < s.fd_seq().len() && s.fd_seq()[i] == s.fd_seq()[j]
        implies i == j by {
        if i < j {
            assert(s.fd_seq()[i] != s.fd_seq()[j]);
        }
        if j < i {
            assert(s.fd_seq()[j] != s.fd_seq()[i]);
        }
    }
    assert forall|fd: u32| fd >= s.next_fd implies !s.has_fd(fd) by {
        if s.has_fd(fd) {
            let c = s.fd_idx(fd);
            assert(0 <= c < s.fd_seq().len() && s.fd_seq()[c] == fd);
            assert(s.fd_seq()[c] < s.next_fd);
        }
    }
}

/// Frame predicate of one map operation routed through `fd`: everything
/// in the state is untouched except, possibly, the map object that `fd`
/// refers to.
pub open spec fn same_except_map_at(old_s: BpfState, new_s: BpfState, fd: u32) -> bool {
    &&& new_s.next_fd == old_s.next_fd
    &&& new_s.next_prog_id == old_s.next_prog_id
    &&& new_s.attached == old_s.attached
    &&& new_s.registered == old_s.registered
    &&& forall|fd2: u32| #[trigger] new_s.has_fd(fd2) == old_s.has_fd(fd2)
    &&& forall|fd2: u32|
        fd2 != fd && old_s.has_fd(fd2) ==> #[trigger] new_s.obj_of(fd2) == old_s.obj_of(fd2)
}

/// Two states with the same attachment table and registration log agree
/// on every attachment-side observation.
pub proof fn lemma_same_attach_tables(a: BpfState, b: BpfState)
    requires
        b.attached == a.attached,
        b.registered == a.registered,
    ensures
        b.tp_seq() == a.tp_seq(),
        forall|tp: Tracepoint| #[trigger] b.tp_present(tp) == a.tp_present(tp),
        forall|tp: Tracepoint| #[trigger] b.tp_idx(tp) == a.tp_idx(tp),
        forall|tp: Tracepoint| a.tp_present(tp) ==> #[trigger] b.tp_progs(tp) == a.tp_progs(tp),
        forall|k: ProbeKind, t: usize| #[trigger] b.probe_logged(k, t) == a.probe_logged(k, t),
{
    assert(b.tp_seq() =~= a.tp_seq());
}

/// Two states with the same object table agree on every fd observation.
pub proof fn lemma_same_objects(a: BpfState, b: BpfState)
    requires
        b.objects == a.objects,
    ensures
        b.fd_seq() == a.fd_seq(),
        forall|fd: u32| #[trigger] b.has_fd(fd) == a.has_fd(fd),
        forall|fd: u32| #[trigger] b.fd_idx(fd) == a.fd_idx(fd),
        forall|fd: u32| #[trigger] b.obj_of(fd) == a.obj_of(fd),
{
    assert(b.fd_seq() =~= a.fd_seq());
}

/// Two states with the same attachment table agree on every tracepoint
/// observation, whatever their registration logs.
pub proof fn lemma_same_attached(a: BpfState, b: BpfState)
    requires
        b.attached == a.attached,
    ensures
        b.tp_seq() == a.tp_seq(),
        forall|tp: Tracepoint| #[trigger] b.tp_present(tp) == a.tp_present(tp),
        forall|tp: Tracepoint| #[trigger] b.tp_idx(tp) == a.tp_idx(tp),
        forall|tp: Tracepoint| #[trigger] b.tp_progs(tp) == a.tp_progs(tp),
{
    assert(b.tp_seq() =~= a.tp_seq());
}

/// Two states with the same tracepoint sequence and registration log
/// agree on tracepoint presence, positions, and the probe log.
pub proof fn lemma_same_tp_seq(a: BpfState, b: BpfState)
    requires
        b.tp_seq() == a.tp_seq(),
        b.registered == a.registered,
    ensures
        forall|tp: Tracepoint| #[trigger] b.tp_present(tp) == a.tp_present(tp),
        forall|tp: Tracepoint| #[trigger] b.tp_idx(tp) == a.tp_idx(tp),
        forall|k: ProbeKind, t: usize| #[trigger] b.probe_logged(k, t) == a.probe_logged(k, t),
{
}

/// Two states that agree on tracepoint presence have the pairing
/// invariant together.
pub proof fn lemma_pairing_from_same_presence(a: BpfState, b: BpfState)
    requires
        a.pairing_ok(),
        forall|tp: Tracepoint| #[trigger] b.tp_present(tp) == a.tp_present(tp),
    ensures
        b.pairing_ok(),
{
}

/// Two states that agree on tracepoint presence and the probe log have
/// matching registrations together, as long as the log is duplicate-free
/// in the first.
pub proof fn lemma_registration_from_same(a: BpfState, b: BpfState)
    requires
        a.registration_ok(),
        b.registered == a.registered,
        forall|tp: Tracepoint| #[trigger] b.tp_present(tp) == a.tp_present(tp),
    ensures
        b.registration_ok(),
{
    assert forall|tok: usize|
        b.probe_logged(ProbeKind::KProbe, tok) <==> b.tp_present(
            (Tracepoint { tp_type: TracepointType::KProbe, token: tok }),
        ) by {
        assert(a.probe_logged(ProbeKind::KProbe, tok) <==> a.tp_present(
            (Tracepoint { tp_type: TracepointType::KProbe, token: tok }),
        ));
        assert(b.tp_present((Tracepoint { tp_type: TracepointType::KProbe, token: tok }))
            == a.tp_present((Tracepoint { tp_type: TracepointType::KProbe, token: tok })));
    }
    assert forall|tok: usize|
        b.probe_logged(ProbeKind::KRetProbe, tok) <==> b.tp_present(
            (Tracepoint { tp_type: TracepointType::KRetProbeEntry, token: tok }),
        ) by {
        assert(a.probe_logged(ProbeKind::KRetProbe, tok) <==> a.tp_present(
            (Tracepoint { tp_type: TracepointType::KRetProbeEntry, token: tok }),
        ));
        assert(b.tp_present((Tracepoint { tp_type: TracepointType::KRetProbeEntry, token: tok }))
            == a.tp_present(
            (Tracepoint { tp_type: TracepointType::KRetProbeEntry, token: tok }),
        ));
    }
}

impl BpfState {
    /// The live fds, in table order.
    pub open spec fn fd_seq(self) -> Seq<u32> {
        self.objects@.map(|i: int, e: (u32, BpfObject)| e.0)
    }

    /// Whether `fd` is live.
    pub open spec fn has_fd(self, fd: u32) -> bool {
        self.fd_seq().contains(fd)
    }

    /// The table position of `fd`; under `wf` there is at most one.
    pub open spec fn fd_idx(self, fd: u32) -> int {
        self.fd_seq().index_of(fd)
    }

    /// The object a live fd refers to.
    pub open spec fn obj_of(self, fd: u32) -> BpfObject
        recommends
            self.has_fd(fd),
    {
        self.objects@[self.fd_idx(fd)].1
    }

    /// Whether `fd` is live and refers to a map.
    pub open spec fn is_map_fd(self, fd: u32) -> bool {
        self.has_fd(fd) && self.obj_of(fd) matches BpfObject::MapObj(_)
    }

    /// The map a live map fd refers to.
    pub open spec fn map_at(self, fd: u32) -> BpfMap
        recommends
            self.is_map_fd(fd),
    {
        match self.obj_of(fd) {
            BpfObject::MapObj(m) => m,
            BpfObject::Program(_) => arbitrary(),
        }
    }

    /// Whether `fd` is live and refers to a program.
    pub open spec fn is_prog_fd(self, fd: u32) -> bool {
        self.has_fd(fd) && self.obj_of(fd) matches BpfObject::Program(_)
    }

    /// The identity of the program a live program fd refers to.
    pub open spec fn prog_id_of(self, fd: u32) -> u64
        recommends
            self.is_prog_fd(fd),
    {
        match self.obj_of(fd) {
            BpfObject::Program(p) => p.prog_id,
            BpfObject::MapObj(_) => 0,
        }
    }

    /// The registered tracepoints, in sorted table order.
    pub open spec fn tp_seq(self) -> Seq<Tracepoint> {
        self.attached@.map(|i: int, e: (Tracepoint, Vec<u64>)| e.0)
    }

    /// Whether the attachment table has an entry for `tp`.
    pub open spec fn tp_present(self, tp: Tracepoint) -> bool {
        self.tp_seq().contains(tp)
    }

    /// The table position of `tp`; under `wf` there is at most one.
    pub open spec fn tp_idx(self, tp: Tracepoint) -> int {
        self.tp_seq().index_of(tp)
    }

    /// The programs attached at `tp`, by identity, in insertion order —
    /// which is the order dispatch runs them in.
    pub open spec fn tp_progs(self, tp: Tracepoint) -> Seq<u64>
        recommends
            self.tp_present(tp),
    {
        self.attached@[self.tp_idx(tp)].1@
    }

    /// Whether an underlying probe registration was performed.
    pub open spec fn probe_logged(self, kind: ProbeKind, token: usize) -> bool {
        self.registered@.contains((kind, token))
    }

    /// Every live fd is below the allocation cursor and unique.
    pub open spec fn fds_ok(self) -> bool {
        &&& forall|i: int| 0 <= i < self.fd_seq().len() ==> (#[trigger] self.fd_seq()[i]) < self.next_fd
        &&& forall|i: int, j: int|
            0 <= i < j < self.fd_seq().len() ==> self.fd_seq()[i] != self.fd_seq()[j]
    }

    /// Every object is well-formed; program identities are below their
    /// allocation cursor.
    pub open spec fn objects_ok(self) -> bool {
        forall|i: int|
            0 <= i < self.objects@.len() ==> (match (#[trigger] self.objects@[i]).1 {
                BpfObject::MapObj(m) => m.wf(),
                BpfObject::Program(p) => p.prog_id < self.next_prog_id,
            })
    }

    /// The attachment table is strictly sorted by tracepoint.
    pub open spec fn tps_sorted(self) -> bool {
        forall|i: int, j: int|
            0 <= i < j < self.tp_seq().len() ==> tp_lt(self.tp_seq()[i], self.tp_seq()[j])
    }

    /// A program identity appears at most once in any single
    /// tracepoint's sequence.
    pub open spec fn lists_unique(self) -> bool {
        forall|i: int, a: int, b: int|
            0 <= i < self.attached@.len() && 0 <= a < b < self.attached@[i].1@.len()
                ==> #[trigger] self.attached@[i].1@[a] != #[trigger] self.attached@[i].1@[b]
    }

    /// A kretprobe entry tracepoint and its paired exit tracepoint (same
    /// token) exist or are absent together: they share one underlying
    /// probe registration.
    pub open spec fn pairing_ok(self) -> bool {
        forall|tok: usize|
            self.tp_present(
                (Tracepoint { tp_type: TracepointType::KRetProbeEntry, token: tok }),
            ) <==> self.tp_present(
                (Tracepoint { tp_type: TracepointType::KRetProbeExit, token: tok }),
            )
    }

    /// Each underlying probe was registered at most once, and exactly
    /// for the tracepoints present.
    pub open spec fn registration_ok(self) -> bool {
        &&& forall|i: int, j: int|
            0 <= i < j < self.registered@.len() ==> self.registered@[i] != self.registered@[j]
        &&& forall|tok: usize|
            self.probe_logged(ProbeKind::KProbe, tok) <==> self.tp_present(
                (Tracepoint { tp_type: TracepointType::KProbe, token: tok }),
            )
        &&& forall|tok: usize|
            self.probe_logged(ProbeKind::KRetProbe, tok) <==> self.tp_present(
                (Tracepoint { tp_type: TracepointType::KRetProbeEntry, token: tok }),
            )
    }

    /// Subsystem-wide invariant.
    pub open spec fn wf(self) -> bool {
        &&& self.fds_ok()
        &&& self.objects_ok()
        &&& self.tps_sorted()
        &&& self.lists_unique()
        &&& self.pairing_ok()
        &&& self.registration_ok()
    }

    /// A fresh subsystem state: no objects, no attachments, no probe
    /// registrations.
    pub fn new() -> (r: BpfState)
        ensures
            r.wf(),
            r.next_fd == 0,
            r.next_prog_id == 0,
            r.fd_seq() == Seq::<u32>::empty(),
            r.tp_seq() == Seq::<Tracepoint>::empty(),
            r.registered@ == Seq::<(ProbeKind, usize)>::empty(),
    {
        let r = BpfState {
            next_fd: 0,
            next_prog_id: 0,
            objects: Vec::new(),
            attached: Vec::new(),
            registered: Vec::new(),
        };
        proof {
            assert(r.fd_seq() =~= Seq::<u32>::empty());
            assert(r.tp_seq() =~= Seq::<Tracepoint>::empty());
            assert forall|tok: usize| !r.tp_present(
                (Tracepoint { tp_type: TracepointType::KRetProbeEntry, token: tok }),
            ) by {}
        }
        r
    }

    /// The table position of a live fd.
    pub(crate) fn find_fd(&self, fd: u32) -> (r: Option<usize>)
        requires
            self.wf(),
        ensures
            match r {
                Option::Some(i) => {
                    &&& i < self.objects@.len()
                    &&& self.fd_seq()[i as int] == fd
                    &&& self.has_fd(fd)
                    &&& self.fd_idx(fd) == i
                },
                Option::None => !self.has_fd(fd),
            },
    {
        let mut i: usize = 0;
        while i < self.objects.len()
            invariant
                self.wf(),
                i <= self.objects@.len(),
                forall|j: int| 0 <= j < i ==> self.fd_seq()[j] != fd,
            decreases self.objects@.len() - i,
        {
            if self.objects[i].0 == fd {
                proof {
                    assert(self.fd_seq()[i as int] == fd);
                    let c = self.fd_idx(fd);
                    assert(self.fd_seq().contains(fd));
                    assert(0 <= c < self.fd_seq().len() && self.fd_seq()[c] == fd);
                    if c < i {
                        assert(self.fd_seq()[c] != fd);
                    }
                    if c > i {
                        assert(self.fd_seq()[i as int] != self.fd_seq()[c]);
                    }
                }
                return Some(i);
            }
            i = i + 1;
        }
        proof {
            if self.has_fd(fd) {
                let c = self.fd_idx(fd);
                assert(0 <= c < self.fd_seq().len() && self.fd_seq()[c] == fd);
            }
        }
        None
    }

    /// Allocates the next fd — strictly increasing, never reused while
    /// live — and inserts the object under it.
    pub(crate) fn insert_object(&mut self, obj: BpfObject) -> (fd: u32)
        requires
            old(self).wf(),
            old(self).next_fd < u32::MAX,
            match obj {
                BpfObject::MapObj(m) => m.wf(),
                BpfObject::Program(p) => p.prog_id < old(self).next_prog_id,
            },
        ensures
            final(self).wf(),
            fd == old(self).next_fd,
            !old(self).has_fd(fd),
            final(self).next_fd == old(self).next_fd + 1,
            final(self).next_prog_id == old(self).next_prog_id,
            final(self).has_fd(fd),
            final(self).obj_of(fd) == obj,
            forall|fd2: u32|
                fd2 != fd ==> (final(self).has_fd(fd2) == old(self).has_fd(fd2) && (old(
                    self,
                ).has_fd(fd2) ==> final(self).obj_of(fd2) == old(self).obj_of(fd2))),
            final(self).attached == old(self).attached,
            final(self).registered == old(self).registered,
    {
        let fd = self.next_fd;
        proof {
            if old(self).has_fd(fd) {
                let c = old(self).fd_idx(fd);
                assert(0 <= c < old(self).fd_seq().len() && old(self).fd_seq()[c] == fd);
            }
        }
        self.objects.push((fd, obj));
        self.next_fd = self.next_fd + 1;
        proof {
            let n = old(self).fd_seq().len();
            assert(self.fd_seq() =~= old(self).fd_seq().push(fd));
            assert forall|i2: int| 0 <= i2 < self.fd_seq().len() implies (
            #[trigger] self.fd_seq()[i2]) < self.next_fd by {
                if i2 < n {
                    assert(old(self).fd_seq()[i2] < old(self).next_fd);
                }
            }
            assert forall|i2: int| 0 <= i2 < self.objects@.len() implies (match (
            #[trigger] self.objects@[i2]).1 {
                BpfObject::MapObj(m) => m.wf(),
                BpfObject::Program(p) => p.prog_id < self.next_prog_id,
            }) by {
                if i2 < n {
                    assert(self.objects@[i2] == old(self).objects@[i2]);
                } else {
                    assert(self.objects@[i2].1 == obj);
                }
            }
            assert forall|i2: int, j2: int|
                0 <= i2 < j2 < self.fd_seq().len() implies self.fd_seq()[i2]
                != self.fd_seq()[j2] by {
                if j2 == n {
                    assert(old(self).fd_seq()[i2] < fd);
                }
            }
            assert(self.has_fd(fd)) by {
                assert(self.fd_seq()[n as int] == fd);
            }
            assert(self.fd_idx(fd) == n) by {
                let c = self.fd_idx(fd);
                assert(0 <= c < self.fd_seq().len() && self.fd_seq()[c] == fd);
                if c < n {
                    assert(old(self).fd_seq()[c] < fd);
                }
            }
            lemma_same_attach_tables(*old(self), *self);
            assert forall|fd2: u32| fd2 != fd implies (self.has_fd(fd2) == old(self).has_fd(fd2)
                && (old(self).has_fd(fd2) ==> self.obj_of(fd2) == old(self).obj_of(fd2))) by {
                if old(self).has_fd(fd2) {
                    let c0 = old(self).fd_idx(fd2);
                    assert(0 <= c0 < n && old(self).fd_seq()[c0] == fd2);
                    assert(self.fd_seq()[c0] == fd2);
                    assert(self.has_fd(fd2));
                    let c = self.fd_idx(fd2);
                    assert(0 <= c < self.fd_seq().len() && self.fd_seq()[c] == fd2);
                    assert(c != n);
                    assert(c == c0);
                } else {
                    if self.has_fd(fd2) {
                        let c = self.fd_idx(fd2);
                        assert(0 <= c < self.fd_seq().len() && self.fd_seq()[c] == fd2);
                        assert(c != n);
                        assert(old(self).fd_seq().contains(fd2));
                    }
                }
            }
        }
        fd
    }

    /// Accepts a loaded program and registers it in the object table
    /// under a fresh fd, with a fresh identity.
    ///
    /// The program bytes and the name-to-fd map references are consumed
    /// by the external loader/verifier, which is outside this core; here
    /// they do not affect the table beyond the new entry.
    pub fn bpf_program_load_ex(
        &mut self,
        prog: &Vec<u8>,
        map_info: &Vec<(Vec<u8>, u32)>,
    ) -> (r: crate::retcode::BpfResult)
        requires
            old(self).wf(),
            old(self).next_fd < u32::MAX,
            old(self).next_prog_id < u64::MAX,
        ensures
            final(self).wf(),
            r == Ok::<usize, crate::retcode::BpfErrorCode>(old(self).next_fd as usize),
            final(self).next_fd == old(self).next_fd + 1,
            final(self).next_prog_id == old(self).next_prog_id + 1,
            !old(self).has_fd(old(self).next_fd),
            final(self).is_prog_fd(old(self).next_fd),
            final(self).prog_id_of(old(self).next_fd) == old(self).next_prog_id,
            forall|fd2: u32|
                fd2 != old(self).next_fd ==> (final(self).has_fd(fd2) == old(self).has_fd(fd2) && (
                old(self).has_fd(fd2) ==> final(self).obj_of(fd2) == old(self).obj_of(fd2))),
            final(self).attached == old(self).attached,
            final(self).registered == old(self).registered,
    {
        let _ = prog;
        let _ = map_info;
        let pid = self.next_prog_id;
        self.next_prog_id = self.next_prog_id + 1;
        proof {
            lemma_same_attach_tables(*old(self), *self);
        }
        let fd = self.insert_object(BpfObject::Program(BpfProgram { prog_id: pid }));
        Ok(fd as usize)
    }

    /// Detaches `fd` from the table and hands its object back; all other
    /// fds are untouched. The object may still be referenced by
    /// attachment lists — removal here only ends the fd's life.
    pub fn bpf_object_remove(&mut self, fd: u32) -> (r: Option<BpfObject>)
        requires
            old(self).wf(),
        ensures
            final(self).wf(),
            r matches Option::Some(_) <==> old(self).has_fd(fd),
            match r {
                Option::Some(obj) => obj == old(self).obj_of(fd),
                Option::None => *final(self) == *old(self),
            },
            !final(self).has_fd(fd),
            forall|fd2: u32|
                fd2 != fd ==> (final(self).has_fd(fd2) == old(self).has_fd(fd2) && (old(
                    self,
                ).has_fd(fd2) ==> final(self).obj_of(fd2) == old(self).obj_of(fd2))),
            final(self).next_fd == old(self).next_fd,
            final(self).next_prog_id == old(self).next_prog_id,
            final(self).attached == old(self).attached,
            final(self).registered == old(self).registered,
    {
        match self.find_fd(fd) {
            None => None,
            Some(i) => {
                let entry = self.objects.remove(i);
                proof {
                    lemma_same_attach_tables(*old(self), *self);
                    let old_fds = old(self).fd_seq();
                    assert(self.fd_seq() =~= old_fds.remove(i as int));
                    assert forall|i2: int| 0 <= i2 < self.objects@.len() implies {
                        let oi = if i2 < i { i2 } else { i2 + 1 };
                        #[trigger] self.objects@[i2] == old(self).objects@[oi]
                    } by {}
                    assert forall|i2: int| 0 <= i2 < self.fd_seq().len() implies (
                    #[trigger] self.fd_seq()[i2]) < self.next_fd by {
                        let oi = if i2 < i { i2 } else { i2 + 1 };
                        assert(self.fd_seq()[i2] == old_fds[oi]);
                    }
                    assert forall|i2: int| 0 <= i2 < self.objects@.len() implies (match (
                    #[trigger] self.objects@[i2]).1 {
                        BpfObject::MapObj(m) => m.wf(),
                        BpfObject::Program(p) => p.prog_id < self.next_prog_id,
                    }) by {
                        let oi = if i2 < i { i2 } else { i2 + 1 };
                        assert(self.objects@[i2] == old(self).objects@[oi]);
                    }
                    assert forall|i2: int, j2: int|
                        0 <= i2 < j2 < self.fd_seq().len() implies self.fd_seq()[i2]
                        != self.fd_seq()[j2] by {
                        let oi = if i2 < i { i2 } else { i2 + 1 };
                        let oj = if j2 < i { j2 } else { j2 + 1 };
                        assert(self.fd_seq()[i2] == old_fds[oi]);
                        assert(self.fd_seq()[j2] == old_fds[oj]);
                    }
                    assert(!self.has_fd(fd)) by {
                        if self.has_fd(fd) {
                            let c = self.fd_idx(fd);
                            assert(0 <= c < self.fd_seq().len() && self.fd_seq()[c] == fd);
                            let oc = if c < i { c } else { c + 1 };
                            assert(old_fds[oc] == fd);
                            assert(oc != i);
                            assert(old_fds[i as int] == fd);
                        }
                    }
                    assert forall|fd2: u32| fd2 != fd implies (self.has_fd(fd2) == old(
                        self,
                    ).has_fd(fd2) && (old(self).has_fd(fd2) ==> self.obj_of(fd2) == old(
                        self,
                    ).obj_of(fd2))) by {
                        if self.has_fd(fd2) {
                            let c = self.fd_idx(fd2);
                            assert(0 <= c < self.fd_seq().len() && self.fd_seq()[c] == fd2);
                            let oc = if c < i { c } else { c + 1 };
                            assert(old_fds[oc] == fd2);
                            assert(old(self).has_fd(fd2));
                        }
                        if old(self).has_fd(fd2) {
                            let c0 = old(self).fd_idx(fd2);
                            assert(0 <= c0 < old_fds.len() && old_fds[c0] == fd2);
                            assert(c0 != i) by {
                                assert(old_fds[i as int] == fd);
                            }
                            let c = if c0 < i { c0 } else { c0 - 1 };
                            assert(self.fd_seq()[c] == old_fds[c0]);
                            assert(self.has_fd(fd2));
                            let cc = self.fd_idx(fd2);
                            assert(0 <= cc < self.fd_seq().len() && self.fd_seq()[cc] == fd2);
                            assert(cc == c) by {
                                if cc < c {
                                    let occ = if cc < i { cc } else { cc + 1 };
                                    assert(old_fds[occ] == fd2);
                                    assert(occ != c0);
                                    assert(old_fds[occ] != old_fds[c0]) by {
                                        if occ < c0 {
                                            assert(old_fds[occ] != old_fds[c0]);
                                        } else {
                                            assert(old_fds[c0] != old_fds[occ]);
                                        }
                                    }
                                }
                                if cc > c {
                                    let occ = if cc < i { cc } else { cc + 1 };
                                    assert(old_fds[occ] == fd2);
                                    assert(occ != c0);
                                    assert(old_fds[occ] != old_fds[c0]) by {
                                        if occ < c0 {
                                            assert(old_fds[occ] != old_fds[c0]);
                                        } else {
                                            assert(old_fds[c0] != old_fds[occ]);
                                        }
                                    }
                                }
                            }
                            assert(self.objects@[c] == old(self).objects@[c0]);
                        }
                    }
                    assert(entry.1 == old(self).obj_of(fd)) by {
                        let c0 = old(self).fd_idx(fd);
                        assert(0 <= c0 < old_fds.len() && old_fds[c0] == fd);
                        assert(c0 == i) by {
                            if c0 < i {
                                assert(old_fds[c0] != old_fds[i as int]);
                            }
                            if c0 > i {
                                assert(old_fds[i as int] != old_fds[c0]);
                            }
                        }
                    }
                }
                Some(entry.1)
            },
        }
    }
}

} // verus!
