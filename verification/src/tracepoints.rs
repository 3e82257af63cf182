//! Tracepoint identities, target-spec parsing, symbol resolution, and the
//! attach/detach/dispatch protocol of the attachment engine.

use vstd::prelude::*;
use crate::bytes::copy_bytes;
use crate::object::{
    lemma_pairing_from_same_presence, lemma_registration_from_same, lemma_same_attach_tables,
    lemma_same_attached, lemma_same_objects, lemma_same_tp_seq, BpfObject, BpfState, ProbeKind,
};
use crate::retcode::{BpfErrorCode, BpfResult};

verus! {

/// Record addressing one attach request as it crosses the syscall
/// boundary: the user address and length of the target-spec string, and
/// the program's fd.
#[derive(Clone, Copy, Debug, PartialEq, Eq, Structural)]
pub struct KprobeAttachAttr {
    pub target: u64,
    pub str_len: u32,
    pub prog_fd: u32,
}

/// The three instrumentation-point kinds: a kprobe fires at an address,
/// and a kretprobe is split into its paired entry and exit points.
#[derive(Clone, Copy, Debug, PartialEq, Eq, Structural)]
pub enum TracepointType {
    KProbe,
    KRetProbeEntry,
    KRetProbeExit,
}

/// The logical identity of one attachment point: kind plus the resolved
/// kernel address of the instrumented symbol.
#[derive(Clone, Copy, Debug, PartialEq, Eq, Structural)]
pub struct Tracepoint {
    pub tp_type: TracepointType,
    pub token: usize,
}

/// Total order on tracepoints: by kind first, then by token. Used to keep
/// the attachment table sorted, which fixes the scan order of detach.
pub open spec fn tp_rank(t: TracepointType) -> int {
    match t {
        TracepointType::KProbe => 0,
        TracepointType::KRetProbeEntry => 1,
        TracepointType::KRetProbeExit => 2,
    }
}

/// Strict order on tracepoints: kind rank, then token.
pub open spec fn tp_lt(a: Tracepoint, b: Tracepoint) -> bool {
    ||| tp_rank(a.tp_type) < tp_rank(b.tp_type)
    ||| (tp_rank(a.tp_type) == tp_rank(b.tp_type) && a.token < b.token)
}

/// The order is total: two distinct tracepoints compare strictly one way.
pub proof fn lemma_tp_lt_total(a: Tracepoint, b: Tracepoint)
    ensures
        a == b || tp_lt(a, b) || tp_lt(b, a),
        !(tp_lt(a, b) && tp_lt(b, a)),
        tp_lt(a, b) ==> a != b,
{
}

/// The order is transitive.
pub proof fn lemma_tp_lt_trans(a: Tracepoint, b: Tracepoint, c: Tracepoint)
    requires
        tp_lt(a, b),
        tp_lt(b, c),
    ensures
        tp_lt(a, c),
{
}

impl Tracepoint {
    /// Builds the identity tuple of one attachment point.
    pub fn new(tp_type: TracepointType, token: usize) -> (r: Tracepoint)
        ensures
            r == (Tracepoint { tp_type, token }),
    {
        Tracepoint { tp_type, token }
    }
}

/// Whether `a` orders strictly before `b`.
pub fn tp_less(a: &Tracepoint, b: &Tracepoint) -> (r: bool)
    ensures
        r == tp_lt(*a, *b),
{
    let ra: u8 = match a.tp_type {
        TracepointType::KProbe => 0,
        TracepointType::KRetProbeEntry => 1,
        TracepointType::KRetProbeExit => 2,
    };
    let rb: u8 = match b.tp_type {
        TracepointType::KProbe => 0,
        TracepointType::KRetProbeEntry => 1,
        TracepointType::KRetProbeExit => 2,
    };
    ra < rb || (ra == rb && a.token < b.token)
}

/// The context handed to every program run on a probe hit: the kind of
/// hit, the probed address, and the saved trap-frame bytes of the
/// interrupted thread.
pub struct KProbeBPFContext {
    pub ptype: usize,
    pub paddr: usize,
    pub tf: Vec<u8>,
}

impl KProbeBPFContext {
    /// Assembles a probe-hit context from the saved trap frame.
    pub fn new(tf: &Vec<u8>, probed_addr: usize, t: usize) -> (r: KProbeBPFContext)
        ensures
            r.ptype == t,
            r.paddr == probed_addr,
            r.tf@ == tf@,
    {
        KProbeBPFContext { ptype: t, paddr: probed_addr, tf: copy_bytes(tf) }
    }
}

/// The kernel symbol table this subsystem resolves attach targets
/// against. The surrounding kernel supplies it; symbol names are unique.
pub struct SymbolTable {
    pub entries: Vec<(Vec<u8>, usize)>,
}

impl SymbolTable {
    /// The symbol names, in insertion order.
    pub open spec fn name_seq(self) -> Seq<Seq<u8>> {
        self.entries@.map(|i: int, e: (Vec<u8>, usize)| e.0@)
    }

    /// Structural invariant: names are pairwise distinct.
    pub open spec fn wf(self) -> bool {
        forall|i: int, j: int|
            0 <= i < j < self.name_seq().len() ==> self.name_seq()[i] != self.name_seq()[j]
    }

    /// Whether the table knows `name`.
    pub open spec fn has_name(self, name: Seq<u8>) -> bool {
        self.name_seq().contains(name)
    }

    /// The position of `name`; under `wf` there is at most one.
    pub open spec fn idx_of(self, name: Seq<u8>) -> int {
        self.name_seq().index_of(name)
    }

    /// The address `name` resolves to, if the table knows it.
    pub open spec fn spec_resolve(self, name: Seq<u8>) -> Option<usize> {
        if self.has_name(name) {
            Some(self.entries@[self.idx_of(name)].1)
        } else {
            None
        }
    }

    /// An empty symbol table.
    pub fn new() -> (r: SymbolTable)
        ensures
            r.wf(),
            r.name_seq() == Seq::<Seq<u8>>::empty(),
    {
        let r = SymbolTable { entries: Vec::new() };
        proof {
            assert(r.name_seq() =~= Seq::<Seq<u8>>::empty());
        }
        r
    }

    /// Records that `name` resolves to `addr`; a name already present
    /// keeps its first address.
    pub fn add(&mut self, name: &Vec<u8>, addr: usize)
        requires
            old(self).wf(),
        ensures
            final(self).wf(),
            final(self).spec_resolve(name@) == (if old(self).has_name(name@) {
                old(self).spec_resolve(name@)
            } else {
                Some(addr)
            }),
            forall|n: Seq<u8>|
                n != name@ ==> final(self).spec_resolve(n) == old(self).spec_resolve(n),
    {
        match self.find(name) {
            Some(_) => {},
            None => {
                let owned = copy_bytes(name);
                self.entries.push((owned, addr));
                proof {
                    let n = old(self).name_seq().len();
                    assert(self.name_seq() =~= old(self).name_seq().push(name@));
                    assert forall|i2: int, j2: int|
                        0 <= i2 < j2 < self.name_seq().len() implies self.name_seq()[i2]
                        != self.name_seq()[j2] by {
                        if j2 == n {
                            if old(self).name_seq()[i2] == name@ {
                                assert(old(self).name_seq().contains(name@));
                            }
                        }
                    }
                    assert(self.has_name(name@)) by {
                        assert(self.name_seq()[n as int] == name@);
                    }
                    assert(self.idx_of(name@) == n) by {
                        let c = self.idx_of(name@);
                        assert(0 <= c < self.name_seq().len() && self.name_seq()[c] == name@);
                        if c < n {
                            assert(old(self).name_seq()[c] == name@);
                            assert(old(self).name_seq().contains(name@));
                        }
                    }
                    assert forall|n2: Seq<u8>| n2 != name@ implies final(self).spec_resolve(n2)
                        == old(self).spec_resolve(n2) by {
                        if old(self).has_name(n2) {
                            let c0 = old(self).idx_of(n2);
                            assert(0 <= c0 < n && old(self).name_seq()[c0] == n2);
                            assert(self.name_seq()[c0] == n2);
                            assert(self.has_name(n2));
                            let c = self.idx_of(n2);
                            assert(0 <= c < self.name_seq().len() && self.name_seq()[c] == n2);
                            assert(c != n);
                            assert(c == c0);
                        } else {
                            if self.has_name(n2) {
                                let c = self.idx_of(n2);
                                assert(0 <= c < self.name_seq().len() && self.name_seq()[c] == n2);
                                assert(c != n);
                                assert(old(self).name_seq()[c] == n2);
                                assert(old(self).name_seq().contains(n2));
                            }
                        }
                    }
                }
            },
        }
    }

    /// The position of the entry for `name`, if the table knows it.
    fn find(&self, name: &Vec<u8>) -> (r: Option<usize>)
        requires
            self.wf(),
        ensures
            match r {
                Option::Some(i) => {
                    &&& i < self.entries@.len()
                    &&& self.name_seq()[i as int] == name@
                    &&& self.has_name(name@)
                    &&& self.idx_of(name@) == i
                },
                Option::None => !self.has_name(name@),
            },
    {
        let mut i: usize = 0;
        while i < self.entries.len()
            invariant
                self.wf(),
                i <= self.entries@.len(),
                forall|j: int| 0 <= j < i ==> self.name_seq()[j] != name@,
            decreases self.entries@.len() - i,
        {
            if crate::bytes::bytes_equal(&self.entries[i].0, name) {
                proof {
                    assert(self.name_seq()[i as int] == name@);
                    let c = self.idx_of(name@);
                    assert(self.name_seq().contains(name@));
                    assert(0 <= c < self.name_seq().len() && self.name_seq()[c] == name@);
                    if c < i {
                        assert(self.name_seq()[c] != name@);
                    }
                    if c > i {
                        assert(self.name_seq()[i as int] != self.name_seq()[c]);
                    }
                }
                return Some(i);
            }
            i = i + 1;
        }
        proof {
            if self.has_name(name@) {
                let c = self.idx_of(name@);
                assert(0 <= c < self.name_seq().len() && self.name_seq()[c] == name@);
            }
        }
        None
    }
}

/// ASCII lower-casing of one byte.
pub open spec fn spec_lower(b: u8) -> u8 {
    if 65 <= b <= 90 {
        (b + 32) as u8
    } else {
        b
    }
}

/// ASCII lower-casing of a byte string.
pub open spec fn lower_seq(s: Seq<u8>) -> Seq<u8> {
    s.map(|i: int, b: u8| spec_lower(b))
}

/// Whether the target spec holds a `$` separator.
pub open spec fn has_dollar(s: Seq<u8>) -> bool {
    exists|i: int| 0 <= i < s.len() && s[i] == 36
}

/// The position of the first `$` separator.
pub open spec fn first_dollar(s: Seq<u8>) -> int {
    choose|i: int|
        0 <= i < s.len() && s[i] == 36 && (forall|q: int| 0 <= q < i ==> s[q] != 36)
}

/// The byte string `kprobe`.
pub open spec fn spec_kprobe_name() -> Seq<u8> {
    seq![107u8, 112u8, 114u8, 111u8, 98u8, 101u8]
}

/// The byte string `kretprobe@entry`.
pub open spec fn spec_kretprobe_entry_name() -> Seq<u8> {
    seq![
        107u8,
        114u8,
        101u8,
        116u8,
        112u8,
        114u8,
        111u8,
        98u8,
        101u8,
        64u8,
        101u8,
        110u8,
        116u8,
        114u8,
        121u8,
    ]
}

/// The byte string `kretprobe@exit`.
pub open spec fn spec_kretprobe_exit_name() -> Seq<u8> {
    seq![
        107u8,
        114u8,
        101u8,
        116u8,
        112u8,
        114u8,
        111u8,
        98u8,
        101u8,
        64u8,
        101u8,
        120u8,
        105u8,
        116u8,
    ]
}

/// The tracepoint kind a lower-cased kind string denotes, if any.
pub open spec fn kind_of(lowered: Seq<u8>) -> Option<TracepointType> {
    if lowered == spec_kprobe_name() {
        Some(TracepointType::KProbe)
    } else if lowered == spec_kretprobe_entry_name() {
        Some(TracepointType::KRetProbeEntry)
    } else if lowered == spec_kretprobe_exit_name() {
        Some(TracepointType::KRetProbeExit)
    } else {
        None
    }
}

/// What parsing a target spec yields: the spec is `<kind>$<symbol>` with
/// `<kind>` one of `kprobe`, `kretprobe@entry`, `kretprobe@exit`,
/// case-insensitively; a missing separator or an unrecognized kind is an
/// invalid argument.
pub open spec fn spec_parse(target: Seq<u8>) -> Result<(TracepointType, Seq<u8>), BpfErrorCode> {
    if !has_dollar(target) {
        Err(BpfErrorCode::InvalidArgument)
    } else {
        let p = first_dollar(target);
        match kind_of(lower_seq(target.subrange(0, p))) {
            Some(t) => Ok((t, target.subrange(p + 1, target.len() as int))),
            None => Err(BpfErrorCode::InvalidArgument),
        }
    }
}

/// ASCII lower-casing of one byte.
fn lower(b: u8) -> (r: u8)
    ensures
        r == spec_lower(b),
{
    if b >= 65 && b <= 90 {
        b + 32
    } else {
        b
    }
}

/// The byte string `kprobe`.
fn kprobe_name() -> (r: Vec<u8>)
    ensures
        r@ == spec_kprobe_name(),
{
    let mut v: Vec<u8> = Vec::new();
    v.push(107);
    v.push(112);
    v.push(114);
    v.push(111);
    v.push(98);
    v.push(101);
    proof {
        assert(v@ =~= spec_kprobe_name());
    }
    v
}

/// The byte string `kretprobe@entry`.
fn kretprobe_entry_name() -> (r: Vec<u8>)
    ensures
        r@ == spec_kretprobe_entry_name(),
{
    let mut v: Vec<u8> = Vec::new();
    v.push(107);
    v.push(114);
    v.push(101);
    v.push(116);
    v.push(112);
    v.push(114);
    v.push(111);
    v.push(98);
    v.push(101);
    v.push(64);
    v.push(101);
    v.push(110);
    v.push(116);
    v.push(114);
    v.push(121);
    proof {
        assert(v@ =~= spec_kretprobe_entry_name());
    }
    v
}

/// The byte string `kretprobe@exit`.
fn kretprobe_exit_name() -> (r: Vec<u8>)
    ensures
        r@ == spec_kretprobe_exit_name(),
{
    let mut v: Vec<u8> = Vec::new();
    v.push(107);
    v.push(114);
    v.push(101);
    v.push(116);
    v.push(112);
    v.push(114);
    v.push(111);
    v.push(98);
    v.push(101);
    v.push(64);
    v.push(101);
    v.push(120);
    v.push(105);
    v.push(116);
    proof {
        assert(v@ =~= spec_kretprobe_exit_name());
    }
    v
}

/// Splits a target spec at its first `$` and decides the tracepoint kind
/// from the case-folded kind string; the symbol name is everything after
/// the separator.
pub fn parse_tracepoint(target: &Vec<u8>) -> (r: Result<
    (TracepointType, Vec<u8>),
    BpfErrorCode,
>)
    ensures
        match r {
            Ok(pair) => spec_parse(target@) == Ok::<(TracepointType, Seq<u8>), BpfErrorCode>(
                (pair.0, pair.1@),
            ),
            Err(e) => spec_parse(target@) == Err::<(TracepointType, Seq<u8>), BpfErrorCode>(e),
        },
{
    let mut pos: usize = 0;
    while pos < target.len() && target[pos] != 36
        invariant
            pos <= target@.len(),
            forall|q: int| 0 <= q < pos ==> target@[q] != 36,
        decreases target@.len() - pos,
    {
        pos = pos + 1;
    }
    if pos >= target.len() {
        proof {
            if has_dollar(target@) {
                let w = choose|i: int| 0 <= i < target@.len() && target@[i] == 36;
                assert(target@[w] != 36);
            }
        }
        return Err(BpfErrorCode::InvalidArgument);
    }
    proof {
        assert(target@[pos as int] == 36);
        assert(has_dollar(target@)) by {
            assert(0 <= pos < target@.len() && target@[pos as int] == 36 && (forall|q: int|
                0 <= q < pos ==> target@[q] != 36));
        }
        let c = first_dollar(target@);
        assert(0 <= c < target@.len() && target@[c] == 36 && (forall|q: int|
            0 <= q < c ==> target@[q] != 36));
        assert(c == pos) by {
            if c < pos {
                assert(target@[c] != 36);
            }
            if c > pos {
                assert(target@[pos as int] != 36);
            }
        }
    }
    let mut lowered: Vec<u8> = Vec::new();
    let mut i: usize = 0;
    while i < pos
        invariant
            i <= pos,
            pos < target@.len(),
            lowered@.len() == i,
            forall|j: int| 0 <= j < i ==> lowered@[j] == spec_lower(target@[j]),
        decreases pos - i,
    {
        lowered.push(lower(target[i]));
        i = i + 1;
    }
    proof {
        assert(lowered@ =~= lower_seq(target@.subrange(0, pos as int)));
    }
    let tp_type: TracepointType;
    if crate::bytes::bytes_equal(&lowered, &kprobe_name()) {
        tp_type = TracepointType::KProbe;
    } else if crate::bytes::bytes_equal(&lowered, &kretprobe_entry_name()) {
        tp_type = TracepointType::KRetProbeEntry;
    } else if crate::bytes::bytes_equal(&lowered, &kretprobe_exit_name()) {
        tp_type = TracepointType::KRetProbeExit;
    } else {
        return Err(BpfErrorCode::InvalidArgument);
    }
    let mut name: Vec<u8> = Vec::new();
    let mut j: usize = pos + 1;
    while j < target.len()
        invariant
            pos < target@.len(),
            pos + 1 <= j <= target@.len(),
            name@.len() == j - pos - 1,
            forall|q: int| 0 <= q < name@.len() ==> name@[q] == target@[pos + 1 + q],
        decreases target@.len() - j,
    {
        name.push(target[j]);
        j = j + 1;
    }
    proof {
        assert(name@ =~= target@.subrange(pos + 1, target@.len() as int));
    }
    Ok((tp_type, name))
}

/// Resolves a symbol name to its kernel address through the supplied
/// symbol table; `None` when the name is unknown.
pub fn resolve_symbol(symbols: &SymbolTable, name: &Vec<u8>) -> (r: Option<usize>)
    requires
        symbols.wf(),
    ensures
        r == symbols.spec_resolve(name@),
{
    match symbols.find(name) {
        Some(i) => Some(symbols.entries[i].1),
        None => None,
    }
}

/// The external probe subsystem as the attach path consults it: the
/// set of kernel addresses it can place a probe on. Registering a
/// fresh probe succeeds exactly on these; elsewhere the subsystem
/// refuses, which attach reports as `InvalidArgument`.
pub struct ProbeTable {
    pub addrs: Vec<usize>,
}

impl ProbeTable {
    /// Whether the probe subsystem can instrument `addr`.
    pub open spec fn spec_can_register(self, addr: usize) -> bool {
        self.addrs@.contains(addr)
    }

    /// An empty capability set.
    pub fn new() -> (r: ProbeTable)
        ensures
            r.addrs@ == Seq::<usize>::empty(),
    {
        let r = ProbeTable { addrs: Vec::new() };
        proof {
            assert(r.addrs@ =~= Seq::<usize>::empty());
        }
        r
    }

    /// Records that `addr` can be instrumented.
    pub fn add(&mut self, addr: usize)
        ensures
            final(self).addrs@ == old(self).addrs@.push(addr),
            final(self).spec_can_register(addr),
            forall|a: usize|
                old(self).spec_can_register(a) ==> final(self).spec_can_register(a),
    {
        self.addrs.push(addr);
        proof {
            assert(self.addrs@[old(self).addrs@.len() as int] == addr);
            assert forall|a: usize| old(self).spec_can_register(a) implies self.spec_can_register(
                a,
            ) by {
                let c = choose|i: int| 0 <= i < old(self).addrs@.len() && old(self).addrs@[i] == a;
                assert(self.addrs@[c] == a);
            }
        }
    }

    /// Whether the probe subsystem can instrument `addr`.
    pub fn can_register(&self, addr: usize) -> (r: bool)
        ensures
            r == self.spec_can_register(addr),
    {
        let mut i: usize = 0;
        while i < self.addrs.len()
            invariant
                i <= self.addrs@.len(),
                forall|j: int| 0 <= j < i ==> self.addrs@[j] != addr,
            decreases self.addrs@.len() - i,
        {
            if self.addrs[i] == addr {
                return true;
            }
            i = i + 1;
        }
        proof {
            if self.spec_can_register(addr) {
                let c = choose|j: int| 0 <= j < self.addrs@.len() && self.addrs@[j] == addr;
                assert(self.addrs@[c] != addr);
            }
        }
        false
    }
}

/// The paired tracepoint of a kretprobe tracepoint: same token, opposite
/// kretprobe kind. A plain kprobe has no pair and is its own image.
pub open spec fn dual_of(tp: Tracepoint) -> Tracepoint {
    match tp.tp_type {
        TracepointType::KProbe => tp,
        TracepointType::KRetProbeEntry => Tracepoint {
            tp_type: TracepointType::KRetProbeExit,
            token: tp.token,
        },
        TracepointType::KRetProbeExit => Tracepoint {
            tp_type: TracepointType::KRetProbeEntry,
            token: tp.token,
        },
    }
}

/// The tracepoint a target spec denotes under a symbol table, if the
/// spec parses and the symbol resolves.
pub open spec fn spec_target_tp(symbols: SymbolTable, target: Seq<u8>) -> Option<Tracepoint> {
    match spec_parse(target) {
        Err(_) => None,
        Ok(pair) => match symbols.spec_resolve(pair.1) {
            None => None,
            Some(addr) => Some(Tracepoint { tp_type: pair.0, token: addr }),
        },
    }
}

/// What attaching returns, check by check: an unknown or non-program fd
/// is `NotFound`; a malformed target spec is `InvalidArgument`; an
/// unresolved symbol is `NotFound`; a program already attached to the
/// same tracepoint — by identity — is `AlreadyAttached`; a fresh
/// tracepoint whose address the probe subsystem refuses to instrument
/// is `InvalidArgument`; otherwise the attach succeeds.
pub open spec fn spec_attach_result(
    s: BpfState,
    symbols: SymbolTable,
    probes: ProbeTable,
    target: Seq<u8>,
    prog_fd: u32,
) -> BpfResult {
    if !s.is_prog_fd(prog_fd) {
        Err(BpfErrorCode::NotFound)
    } else {
        match spec_parse(target) {
            Err(_) => Err(BpfErrorCode::InvalidArgument),
            Ok(pair) => match symbols.spec_resolve(pair.1) {
                None => Err(BpfErrorCode::NotFound),
                Some(addr) => {
                    let tp = Tracepoint { tp_type: pair.0, token: addr };
                    if s.tp_present(tp) {
                        if s.tp_progs(tp).contains(s.prog_id_of(prog_fd)) {
                            Err(BpfErrorCode::AlreadyAttached)
                        } else {
                            Ok(0)
                        }
                    } else if !probes.spec_can_register(addr) {
                        Err(BpfErrorCode::InvalidArgument)
                    } else {
                        Ok(0)
                    }
                },
            },
        }
    }
}

/// How a successful attach changes the state. An existing tracepoint
/// gains the program at the end of its sequence. A fresh kprobe
/// tracepoint is created with the program as sole member and the
/// underlying kprobe registration is logged. A fresh kretprobe
/// tracepoint additionally creates its paired tracepoint with an empty
/// sequence, under one shared kretprobe registration.
pub open spec fn spec_attach_effect(
    old_s: BpfState,
    new_s: BpfState,
    tp: Tracepoint,
    pid: u64,
) -> bool {
    &&& new_s.objects == old_s.objects
    &&& new_s.next_fd == old_s.next_fd
    &&& new_s.next_prog_id == old_s.next_prog_id
    &&& if old_s.tp_present(tp) {
        &&& forall|tp2: Tracepoint| #[trigger] new_s.tp_present(tp2) == old_s.tp_present(tp2)
        &&& new_s.tp_progs(tp) == old_s.tp_progs(tp).push(pid)
        &&& forall|tp2: Tracepoint|
            tp2 != tp && old_s.tp_present(tp2) ==> #[trigger] new_s.tp_progs(tp2) == old_s.tp_progs(
                tp2,
            )
        &&& new_s.registered == old_s.registered
    } else if tp.tp_type == TracepointType::KProbe {
        &&& forall|tp2: Tracepoint|
            #[trigger] new_s.tp_present(tp2) == (old_s.tp_present(tp2) || tp2 == tp)
        &&& new_s.tp_progs(tp) == seq![pid]
        &&& forall|tp2: Tracepoint|
            tp2 != tp && old_s.tp_present(tp2) ==> #[trigger] new_s.tp_progs(tp2) == old_s.tp_progs(
                tp2,
            )
        &&& new_s.registered@ == old_s.registered@.push((ProbeKind::KProbe, tp.token))
    } else {
        &&& forall|tp2: Tracepoint|
            #[trigger] new_s.tp_present(tp2) == (old_s.tp_present(tp2) || tp2 == tp || tp2
                == dual_of(tp))
        &&& new_s.tp_progs(tp) == seq![pid]
        &&& new_s.tp_progs(dual_of(tp)) == Seq::<u64>::empty()
        &&& forall|tp2: Tracepoint|
            tp2 != tp && tp2 != dual_of(tp) && old_s.tp_present(tp2)
                ==> #[trigger] new_s.tp_progs(tp2) == old_s.tp_progs(tp2)
        &&& new_s.registered@ == old_s.registered@.push((ProbeKind::KRetProbe, tp.token))
    }
}

/// The table position of a present tracepoint.
fn find_tp(s: &BpfState, tp: &Tracepoint) -> (r: Option<usize>)
    requires
        s.tps_sorted(),
    ensures
        match r {
            Option::Some(i) => {
                &&& i < s.attached@.len()
                &&& s.tp_seq()[i as int] == *tp
                &&& s.tp_present(*tp)
                &&& s.tp_idx(*tp) == i
            },
            Option::None => !s.tp_present(*tp),
        },
{
    let mut i: usize = 0;
    while i < s.attached.len()
        invariant
            s.tps_sorted(),
            i <= s.attached@.len(),
            forall|j: int| 0 <= j < i ==> s.tp_seq()[j] != *tp,
        decreases s.attached@.len() - i,
    {
        let cur = s.attached[i].0;
        if cur.token == tp.token && !tp_less(&cur, tp) && !tp_less(tp, &cur) {
            proof {
                lemma_tp_lt_total(cur, *tp);
                assert(s.tp_seq()[i as int] == *tp);
                let c = s.tp_idx(*tp);
                assert(s.tp_seq().contains(*tp));
                assert(0 <= c < s.tp_seq().len() && s.tp_seq()[c] == *tp);
                if c < i {
                    assert(s.tp_seq()[c] != *tp);
                }
                if c > i {
                    assert(tp_lt(s.tp_seq()[i as int], s.tp_seq()[c]));
                    lemma_tp_lt_total(s.tp_seq()[i as int], s.tp_seq()[c]);
                }
            }
            return Some(i);
        }
        proof {
            lemma_tp_lt_total(cur, *tp);
        }
        i = i + 1;
    }
    proof {
        if s.tp_present(*tp) {
            let c = s.tp_idx(*tp);
            assert(0 <= c < s.tp_seq().len() && s.tp_seq()[c] == *tp);
        }
    }
    None
}

/// The position of `pid` in an attachment sequence, scanning from the
/// front.
fn find_pid(v: &Vec<u64>, pid: u64) -> (r: Option<usize>)
    ensures
        match r {
            Option::Some(p) => p < v@.len() && v@[p as int] == pid && v@.contains(pid),
            Option::None => !v@.contains(pid),
        },
{
    let mut i: usize = 0;
    while i < v.len()
        invariant
            i <= v@.len(),
            forall|j: int| 0 <= j < i ==> v@[j] != pid,
        decreases v@.len() - i,
    {
        if v[i] == pid {
            return Some(i);
        }
        i = i + 1;
    }
    proof {
        if v@.contains(pid) {
            let c = choose|j: int| 0 <= j < v@.len() && v@[j] == pid;
            assert(v@[c] != pid);
        }
    }
    None
}

/// Inserts a fresh tracepoint entry at its sorted position.
fn insert_tp(s: &mut BpfState, tp: Tracepoint, progs: Vec<u64>)
    requires
        old(s).tps_sorted(),
        old(s).lists_unique(),
        !old(s).tp_present(tp),
        forall|a: int, b: int| 0 <= a < b < progs@.len() ==> progs@[a] != progs@[b],
    ensures
        final(s).objects == old(s).objects,
        final(s).next_fd == old(s).next_fd,
        final(s).next_prog_id == old(s).next_prog_id,
        final(s).registered == old(s).registered,
        final(s).tps_sorted(),
        final(s).lists_unique(),
        final(s).tp_present(tp),
        final(s).tp_progs(tp) == progs@,
        forall|tp2: Tracepoint|
            tp2 != tp ==> #[trigger] final(s).tp_present(tp2) == old(s).tp_present(tp2),
        forall|tp2: Tracepoint|
            tp2 != tp && old(s).tp_present(tp2) ==> #[trigger] final(s).tp_progs(tp2) == old(
                s,
            ).tp_progs(tp2),
{
    let mut pos: usize = 0;
    while pos < s.attached.len() && tp_less(&s.attached[pos].0, &tp)
        invariant
            *s == *old(s),
            pos <= s.attached@.len(),
            forall|j: int| 0 <= j < pos ==> tp_lt(s.tp_seq()[j], tp),
        decreases s.attached@.len() - pos,
    {
        proof {
            assert(s.tp_seq()[pos as int] == s.attached@[pos as int].0);
        }
        pos = pos + 1;
    }
    proof {
        assert forall|j: int| pos <= j < s.tp_seq().len() implies tp_lt(
            tp,
            #[trigger] s.tp_seq()[j],
        ) by {
            assert(s.tp_seq()[j] != tp) by {
                if s.tp_seq()[j] == tp {
                    assert(s.tp_present(tp));
                }
            }
            lemma_tp_lt_total(tp, s.tp_seq()[j]);
            if j == pos {
                assert(!tp_lt(s.tp_seq()[pos as int], tp));
            } else {
                assert(tp_lt(s.tp_seq()[pos as int], s.tp_seq()[j]));
                assert(!tp_lt(s.tp_seq()[pos as int], tp));
                lemma_tp_lt_total(s.tp_seq()[pos as int], tp);
                if tp_lt(s.tp_seq()[j], tp) {
                    lemma_tp_lt_trans(s.tp_seq()[pos as int], s.tp_seq()[j], tp);
                }
                if s.tp_seq()[pos as int] == tp {
                    assert(s.tp_present(tp));
                }
            }
        }
    }
    s.attached.insert(pos, (tp, progs));
    proof {
        let old_tps = old(s).tp_seq();
        let n = old_tps.len();
        assert(s.tp_seq() =~= old_tps.insert(pos as int, tp));
        assert forall|i2: int| 0 <= i2 < s.tp_seq().len() implies #[trigger] s.tp_seq()[i2] == (
        if i2 < pos {
            old_tps[i2]
        } else if i2 == pos {
            tp
        } else {
            old_tps[i2 - 1]
        }) by {}
        assert forall|i2: int, j2: int| 0 <= i2 < j2 < s.tp_seq().len() implies tp_lt(
            #[trigger] s.tp_seq()[i2],
            #[trigger] s.tp_seq()[j2],
        ) by {
            if i2 < pos && j2 == pos {
            } else if i2 == pos && j2 > pos {
            } else if i2 < pos && j2 > pos {
                assert(tp_lt(old_tps[i2], old_tps[j2 - 1]));
            }
        }
        assert forall|i2: int, a: int, b: int|
            0 <= i2 < s.attached@.len() && 0 <= a < b < s.attached@[i2].1@.len() implies
            #[trigger] s.attached@[i2].1@[a] != #[trigger] s.attached@[i2].1@[b] by {
            if i2 < pos {
                assert(s.attached@[i2] == old(s).attached@[i2]);
            } else if i2 > pos {
                assert(s.attached@[i2] == old(s).attached@[i2 - 1]);
            }
        }
        assert(s.tp_present(tp)) by {
            assert(s.tp_seq()[pos as int] == tp);
        }
        assert(s.tp_idx(tp) == pos) by {
            let c = s.tp_idx(tp);
            assert(0 <= c < s.tp_seq().len() && s.tp_seq()[c] == tp);
            if c < pos {
                assert(tp_lt(old_tps[c], tp));
                lemma_tp_lt_total(old_tps[c], tp);
            }
            if c > pos {
                assert(tp_lt(tp, old_tps[c - 1]));
                lemma_tp_lt_total(tp, old_tps[c - 1]);
            }
        }
        assert(s.tp_progs(tp) == progs@);
        assert forall|tp2: Tracepoint| tp2 != tp implies #[trigger] s.tp_present(tp2) == old(
            s,
        ).tp_present(tp2) by {
            if old(s).tp_present(tp2) {
                let c0 = old(s).tp_idx(tp2);
                assert(0 <= c0 < n && old_tps[c0] == tp2);
                let c = if c0 < pos {
                    c0
                } else {
                    c0 + 1
                };
                assert(s.tp_seq()[c] == tp2);
                assert(s.tp_present(tp2));
            } else {
                if s.tp_present(tp2) {
                    let c = s.tp_idx(tp2);
                    assert(0 <= c < s.tp_seq().len() && s.tp_seq()[c] == tp2);
                    assert(c != pos);
                    let oc = if c < pos {
                        c
                    } else {
                        c - 1
                    };
                    assert(old_tps[oc] == tp2);
                    assert(old(s).tp_present(tp2));
                }
            }
        }
        assert forall|tp2: Tracepoint| tp2 != tp && old(s).tp_present(tp2) implies
            #[trigger] s.tp_progs(tp2) == old(s).tp_progs(tp2) by {
            let c0 = old(s).tp_idx(tp2);
            assert(0 <= c0 < n && old_tps[c0] == tp2);
            let c = if c0 < pos {
                c0
            } else {
                c0 + 1
            };
            assert(s.tp_seq()[c] == tp2);
            let cc = s.tp_idx(tp2);
            assert(0 <= cc < s.tp_seq().len() && s.tp_seq()[cc] == tp2);
            assert(cc == c) by {
                if cc != c {
                    if cc < c {
                        assert(tp_lt(s.tp_seq()[cc], s.tp_seq()[c]));
                    } else {
                        assert(tp_lt(s.tp_seq()[c], s.tp_seq()[cc]));
                    }
                    lemma_tp_lt_total(tp2, tp2);
                }
            }
            assert(s.attached@[c] == (if c < pos {
                old(s).attached@[c]
            } else {
                old(s).attached@[c - 1]
            }));
            assert(old(s).tp_seq()[c0] == tp2);
        }
    }
}

/// Attaches the program behind `prog_fd` to the tracepoint the target
/// spec denotes.
///
/// The fd is resolved first (`NotFound` if absent or not a program),
/// the spec parsed (`InvalidArgument` if malformed), the symbol
/// resolved (`NotFound` if unknown). Attaching the same program twice
/// to one tracepoint is rejected with `AlreadyAttached` and leaves the
/// state unchanged; two different programs on one tracepoint are both
/// kept, in insertion order. The first attach to a fresh tracepoint
/// registers the underlying probe; for the kretprobe kinds that one
/// registration covers entry and exit together, so the paired
/// tracepoint is created with an empty sequence and later attaches to
/// it do not register again.
pub fn bpf_program_attach(
    s: &mut BpfState,
    symbols: &SymbolTable,
    probes: &ProbeTable,
    target: &Vec<u8>,
    prog_fd: u32,
) -> (r: BpfResult)
    requires
        old(s).wf(),
        symbols.wf(),
    ensures
        final(s).wf(),
        r == spec_attach_result(*old(s), *symbols, *probes, target@, prog_fd),
        r matches Err(_) ==> *final(s) == *old(s),
        r matches Ok(_) ==> (spec_target_tp(*symbols, target@) matches Some(tp)
            && spec_attach_effect(*old(s), *final(s), tp, old(s).prog_id_of(prog_fd))),
{
    let i = match s.find_fd(prog_fd) {
        Some(i) => i,
        None => {
            return Err(BpfErrorCode::NotFound);
        },
    };
    let pid = match &s.objects[i].1 {
        BpfObject::Program(p) => p.prog_id,
        BpfObject::MapObj(_) => {
            return Err(BpfErrorCode::NotFound);
        },
    };
    let parsed = match parse_tracepoint(target) {
        Ok(p) => p,
        Err(e) => {
            return Err(e);
        },
    };
    let tp_type = parsed.0;
    let fn_name = parsed.1;
    let addr = match resolve_symbol(symbols, &fn_name) {
        Some(a) => a,
        None => {
            return Err(BpfErrorCode::NotFound);
        },
    };
    let tracepoint = Tracepoint::new(tp_type, addr);
    proof {
        assert(spec_target_tp(*symbols, target@) == Some(tracepoint));
        assert(old(s).prog_id_of(prog_fd) == pid);
    }
    match find_tp(s, &tracepoint) {
        Some(ti) => {
            match find_pid(&s.attached[ti].1, pid) {
                Some(_) => {
                    proof {
                        assert(old(s).tp_progs(tracepoint).contains(pid));
                    }
                    return Err(BpfErrorCode::AlreadyAttached);
                },
                None => {},
            }
            let mut entry = s.attached.remove(ti);
            entry.1.push(pid);
            s.attached.insert(ti, entry);
            proof {
                let old_list = old(s).attached@[ti as int].1@;
                assert(s.attached@ =~= old(s).attached@.update(
                    ti as int,
                    (tracepoint, s.attached@[ti as int].1),
                ));
                assert(s.attached@[ti as int].1@ == old_list.push(pid));
                assert(s.tp_seq() =~= old(s).tp_seq());
                lemma_same_tp_seq(*old(s), *s);
                assert(s.tps_sorted()) by {
                    assert forall|i2: int, j2: int|
                        0 <= i2 < j2 < s.tp_seq().len() implies tp_lt(
                        #[trigger] s.tp_seq()[i2],
                        #[trigger] s.tp_seq()[j2],
                    ) by {
                        assert(tp_lt(old(s).tp_seq()[i2], old(s).tp_seq()[j2]));
                    }
                }
                assert(s.lists_unique()) by {
                    assert forall|i2: int, a: int, b: int|
                        0 <= i2 < s.attached@.len() && 0 <= a < b < s.attached@[i2].1@.len()
                        implies #[trigger] s.attached@[i2].1@[a] != #[trigger] s.attached@[i2].1@[b]
                    by {
                        if i2 != ti {
                            assert(s.attached@[i2] == old(s).attached@[i2]);
                        } else {
                            assert(!old_list.contains(pid));
                            if b == old_list.len() {
                                assert(s.attached@[i2].1@[b] == pid);
                                assert(old_list[a] != pid) by {
                                    if old_list[a] == pid {
                                        assert(old_list.contains(pid));
                                    }
                                }
                            }
                        }
                    }
                }
                lemma_pairing_from_same_presence(*old(s), *s);
                lemma_registration_from_same(*old(s), *s);
                assert(s.tp_progs(tracepoint) == old(s).tp_progs(tracepoint).push(pid)) by {
                    assert(s.tp_idx(tracepoint) == ti);
                }
                assert forall|tp2: Tracepoint| tp2 != tracepoint && old(s).tp_present(tp2) implies
                    #[trigger] s.tp_progs(tp2) == old(s).tp_progs(tp2) by {
                    let c = old(s).tp_idx(tp2);
                    assert(0 <= c < old(s).tp_seq().len() && old(s).tp_seq()[c] == tp2);
                    assert(c != ti);
                    assert(s.tp_idx(tp2) == c);
                    assert(s.attached@[c] == old(s).attached@[c]);
                }
            }
            Ok(0)
        },
        None => {
            if !probes.can_register(addr) {
                return Err(BpfErrorCode::InvalidArgument);
            }
            match tp_type {
                TracepointType::KProbe => {
                    s.registered.push((ProbeKind::KProbe, addr));
                    proof {
                        lemma_same_attached(*old(s), *s);
                    }
                    let mut progs: Vec<u64> = Vec::new();
                    progs.push(pid);
                    let ghost mid = *s;
                    insert_tp(s, tracepoint, progs);
                    proof {
                        lemma_attach_fresh_kprobe(*old(s), mid, *s, tracepoint, pid);
                    }
                    Ok(0)
                },
                TracepointType::KRetProbeEntry | TracepointType::KRetProbeExit => {
                    s.registered.push((ProbeKind::KRetProbe, addr));
                    proof {
                        lemma_same_attached(*old(s), *s);
                    }
                    let dual: Tracepoint;
                    if tp_type == TracepointType::KRetProbeEntry {
                        dual = Tracepoint::new(TracepointType::KRetProbeExit, addr);
                    } else {
                        dual = Tracepoint::new(TracepointType::KRetProbeEntry, addr);
                    }
                    proof {
                        assert(dual == dual_of(tracepoint));
                        assert(!old(s).tp_present(dual));
                    }
                    let mut progs: Vec<u64> = Vec::new();
                    progs.push(pid);
                    let ghost mid = *s;
                    insert_tp(s, tracepoint, progs);
                    let ghost mid2 = *s;
                    insert_tp(s, dual, Vec::new());
                    proof {
                        lemma_attach_fresh_kretprobe(*old(s), mid, mid2, *s, tracepoint, pid);
                    }
                    Ok(0)
                },
            }
        },
    }
}

/// Duplicate attach rejected: attaching a program — by identity — to a
/// tracepoint whose sequence already holds it returns
/// `AlreadyAttached`; and `bpf_program_attach`'s contract adds that on
/// any failure the state, and so the sequence's length, is unchanged.
pub proof fn lemma_duplicate_attach_rejected(
    s: BpfState,
    symbols: SymbolTable,
    probes: ProbeTable,
    target: Seq<u8>,
    prog_fd: u32,
    tp: Tracepoint,
)
    requires
        s.wf(),
        s.is_prog_fd(prog_fd),
        spec_target_tp(symbols, target) == Some(tp),
        s.tp_present(tp),
        s.tp_progs(tp).contains(s.prog_id_of(prog_fd)),
    ensures
        spec_attach_result(s, symbols, probes, target, prog_fd) == Err::<usize, BpfErrorCode>(
            BpfErrorCode::AlreadyAttached,
        ),
{
}

/// Kretprobe pairing: in every well-formed state, a kretprobe entry
/// tracepoint and the exit tracepoint of the same token are present or
/// absent together, because one underlying probe registration covers
/// both. Together with `bpf_program_attach`'s contract this gives the
/// pairing scenario: the first kretprobe attach creates both — the
/// paired one with an empty sequence — and a later attach to the pair
/// finds it present and appends without registering again.
pub proof fn lemma_kretprobe_pairing(s: BpfState)
    requires
        s.wf(),
    ensures
        forall|tok: usize|
            s.tp_present((Tracepoint { tp_type: TracepointType::KRetProbeEntry, token: tok }))
                <==> s.tp_present(
                (Tracepoint { tp_type: TracepointType::KRetProbeExit, token: tok }),
            ),
{
}

/// Whether some tracepoint's sequence holds the program identity `pid`.
pub open spec fn some_tp_has(s: BpfState, pid: u64) -> bool {
    exists|i: int| 0 <= i < s.attached@.len() && (#[trigger] s.attached@[i]).1@.contains(pid)
}

/// The first table position — lowest in the sorted tracepoint order —
/// whose sequence holds `pid`.
pub open spec fn first_tp_with(s: BpfState, pid: u64) -> int {
    choose|i: int|
        0 <= i < s.attached@.len() && (#[trigger] s.attached@[i]).1@.contains(pid) && (forall|
            j: int,
        | 0 <= j < i ==> !s.attached@[j].1@.contains(pid))
}

/// What detaching returns: `NotFound` for an unknown or non-program fd,
/// and for a program attached nowhere; otherwise success.
pub open spec fn spec_detach_result(s: BpfState, prog_fd: u32) -> BpfResult {
    if !s.is_prog_fd(prog_fd) {
        Err(BpfErrorCode::NotFound)
    } else if !some_tp_has(s, s.prog_id_of(prog_fd)) {
        Err(BpfErrorCode::NotFound)
    } else {
        Ok(0)
    }
}

/// How a successful detach changes the state: the fd leaves the object
/// table, and the program's first occurrence — scanning tracepoints in
/// sorted order — leaves that one sequence. Other occurrences stay, and
/// the underlying probe registration is never undone.
pub open spec fn spec_detach_effect(old_s: BpfState, new_s: BpfState, prog_fd: u32) -> bool {
    let pid = old_s.prog_id_of(prog_fd);
    let i = first_tp_with(old_s, pid);
    &&& !new_s.has_fd(prog_fd)
    &&& forall|fd2: u32|
        fd2 != prog_fd ==> (new_s.has_fd(fd2) == old_s.has_fd(fd2) && (old_s.has_fd(fd2)
            ==> new_s.obj_of(fd2) == old_s.obj_of(fd2)))
    &&& new_s.next_fd == old_s.next_fd
    &&& new_s.next_prog_id == old_s.next_prog_id
    &&& new_s.tp_seq() == old_s.tp_seq()
    &&& new_s.attached@[i].1@ == old_s.attached@[i].1@.remove(
        old_s.attached@[i].1@.index_of(pid),
    )
    &&& forall|j: int|
        0 <= j < old_s.attached@.len() && j != i ==> new_s.attached@[j] == old_s.attached@[j]
    &&& new_s.registered == old_s.registered
}

/// Detaches the program behind `prog_fd`: removes its fd from the
/// object table and removes the program, by identity, from the first
/// tracepoint sequence holding it (first match only — a program
/// attached at several tracepoints keeps its other attachments). The
/// underlying probe stays registered even if the sequence becomes
/// empty. `NotFound` — with no side effects — for an unknown or
/// non-program fd, or for a program attached nowhere.
pub fn bpf_program_detach(s: &mut BpfState, prog_fd: u32) -> (r: BpfResult)
    requires
        old(s).wf(),
    ensures
        final(s).wf(),
        r == spec_detach_result(*old(s), prog_fd),
        r matches Err(_) ==> *final(s) == *old(s),
        r matches Ok(_) ==> spec_detach_effect(*old(s), *final(s), prog_fd),
{
    let fdi = match s.find_fd(prog_fd) {
        Some(i) => i,
        None => {
            return Err(BpfErrorCode::NotFound);
        },
    };
    let pid = match &s.objects[fdi].1 {
        BpfObject::Program(p) => p.prog_id,
        BpfObject::MapObj(_) => {
            return Err(BpfErrorCode::NotFound);
        },
    };
    proof {
        assert(old(s).prog_id_of(prog_fd) == pid);
    }
    let mut ti: usize = 0;
    while ti < s.attached.len()
        invariant
            *s == *old(s),
            old(s).wf(),
            old(s).is_prog_fd(prog_fd),
            old(s).prog_id_of(prog_fd) == pid,
            ti <= s.attached@.len(),
            forall|j: int| 0 <= j < ti ==> !s.attached@[j].1@.contains(pid),
        decreases s.attached@.len() - ti,
    {
        match find_pid(&s.attached[ti].1, pid) {
            Some(p) => {
                proof {
                    assert(some_tp_has(*old(s), pid)) by {
                        assert(old(s).attached@[ti as int].1@.contains(pid));
                    }
                    assert(first_tp_with(*old(s), pid) == ti) by {
                        let c = first_tp_with(*old(s), pid);
                        assert(0 <= c < old(s).attached@.len() && old(s).attached@[c].1@.contains(
                            pid,
                        ) && (forall|j: int|
                            0 <= j < c ==> !old(s).attached@[j].1@.contains(pid)));
                        if c < ti {
                            assert(!old(s).attached@[c].1@.contains(pid));
                        }
                        if c > ti {
                            assert(!old(s).attached@[ti as int].1@.contains(pid));
                        }
                    }
                    assert(old(s).attached@[ti as int].1@.index_of(pid) == p) by {
                        let c2 = old(s).attached@[ti as int].1@.index_of(pid);
                        assert(old(s).attached@[ti as int].1@.contains(pid));
                        assert(0 <= c2 < old(s).attached@[ti as int].1@.len() && old(
                            s,
                        ).attached@[ti as int].1@[c2] == pid);
                        if c2 != p {
                            if c2 < p {
                                assert(old(s).attached@[ti as int].1@[c2] != old(
                                    s,
                                ).attached@[ti as int].1@[p as int]);
                            } else {
                                assert(old(s).attached@[ti as int].1@[p as int] != old(
                                    s,
                                ).attached@[ti as int].1@[c2]);
                            }
                        }
                    }
                }
                let removed = s.bpf_object_remove(prog_fd);
                let ghost mid = *s;
                let mut entry = s.attached.remove(ti);
                entry.1.remove(p);
                s.attached.insert(ti, entry);
                proof {
                    let _ = removed;
                    let old_list = old(s).attached@[ti as int].1@;
                    assert(s.attached@ =~= old(s).attached@.update(
                        ti as int,
                        (old(s).attached@[ti as int].0, s.attached@[ti as int].1),
                    ));
                    assert(s.attached@[ti as int].1@ == old_list.remove(p as int));
                    assert(s.tp_seq() =~= old(s).tp_seq());
                    lemma_same_objects(mid, *s);
                    lemma_same_tp_seq(*old(s), *s);
                    assert(s.fds_ok()) by {
                        assert forall|i2: int|
                            0 <= i2 < s.fd_seq().len() implies (#[trigger] s.fd_seq()[i2])
                            < s.next_fd by {
                            assert(mid.fd_seq()[i2] < mid.next_fd);
                        }
                        assert forall|i2: int, j2: int|
                            0 <= i2 < j2 < s.fd_seq().len() implies s.fd_seq()[i2]
                            != s.fd_seq()[j2] by {
                            assert(mid.fd_seq()[i2] != mid.fd_seq()[j2]);
                        }
                    }
                    assert(s.objects_ok()) by {
                        assert forall|i2: int|
                            0 <= i2 < s.objects@.len() implies (match (
                        #[trigger] s.objects@[i2]).1 {
                            BpfObject::MapObj(m) => m.wf(),
                            BpfObject::Program(p2) => p2.prog_id < s.next_prog_id,
                        }) by {
                            assert(s.objects@[i2] == mid.objects@[i2]);
                            assert(match mid.objects@[i2].1 {
                                BpfObject::MapObj(m) => m.wf(),
                                BpfObject::Program(p2) => p2.prog_id < mid.next_prog_id,
                            });
                        }
                    }
                    assert(s.tps_sorted()) by {
                        assert forall|i2: int, j2: int|
                            0 <= i2 < j2 < s.tp_seq().len() implies tp_lt(
                            #[trigger] s.tp_seq()[i2],
                            #[trigger] s.tp_seq()[j2],
                        ) by {
                            assert(tp_lt(old(s).tp_seq()[i2], old(s).tp_seq()[j2]));
                        }
                    }
                    assert(s.lists_unique()) by {
                        assert forall|i2: int, a: int, b: int|
                            0 <= i2 < s.attached@.len() && 0 <= a < b < s.attached@[i2].1@.len()
                            implies #[trigger] s.attached@[i2].1@[a]
                            != #[trigger] s.attached@[i2].1@[b] by {
                            if i2 != ti {
                                assert(s.attached@[i2] == old(s).attached@[i2]);
                            } else {
                                let oa = if a < p { a } else { a + 1 };
                                let ob = if b < p { b } else { b + 1 };
                                assert(s.attached@[i2].1@[a] == old_list[oa]);
                                assert(s.attached@[i2].1@[b] == old_list[ob]);
                            }
                        }
                    }
                    lemma_pairing_from_same_presence(*old(s), *s);
                    lemma_registration_from_same(*old(s), *s);
                }
                return Ok(0);
            },
            None => {},
        }
        ti = ti + 1;
    }
    proof {
        if some_tp_has(*old(s), pid) {
            let c = choose|i: int|
                0 <= i < old(s).attached@.len() && (#[trigger] old(s).attached@[i]).1@.contains(
                    pid,
                );
            assert(!old(s).attached@[c].1@.contains(pid));
        }
    }
    Err(BpfErrorCode::NotFound)
}

/// An owned copy of an attachment sequence.
fn copy_ids(v: &Vec<u64>) -> (r: Vec<u64>)
    ensures
        r@ == v@,
{
    let mut out: Vec<u64> = Vec::new();
    let mut i: usize = 0;
    while i < v.len()
        invariant
            i <= v@.len(),
            out@ == v@.subrange(0, i as int),
        decreases v@.len() - i,
    {
        out.push(v[i]);
        assert(out@ == v@.subrange(0, i + 1 as int));
        i = i + 1;
    }
    assert(v@.subrange(0, v@.len() as int) == v@);
    out
}

/// The dispatch plan for a probe hit at `tracepoint`: the identities of
/// the programs to run, in insertion order. `None` when the tracepoint
/// has no entry — for a registered probe that would be an invariant
/// violation, not a user-facing error. Running each program against the
/// shared context, and ignoring the individual results, is the
/// surrounding kernel's part.
pub fn run_attached_programs(s: &BpfState, tracepoint: &Tracepoint) -> (r: Option<Vec<u64>>)
    requires
        s.wf(),
    ensures
        match r {
            Option::Some(ids) => s.tp_present(*tracepoint) && ids@ == s.tp_progs(*tracepoint),
            Option::None => !s.tp_present(*tracepoint),
        },
{
    match find_tp(s, tracepoint) {
        Some(i) => Some(copy_ids(&s.attached[i].1)),
        None => None,
    }
}

/// Handles a kprobe hit: builds the context for the probed address and
/// returns it with the dispatch plan of the kprobe tracepoint there.
pub fn kprobe_handler(s: &BpfState, tf: &Vec<u8>, probed_addr: usize) -> (r: (
    KProbeBPFContext,
    Option<Vec<u64>>,
))
    requires
        s.wf(),
    ensures
        r.0.ptype == 0,
        r.0.paddr == probed_addr,
        r.0.tf@ == tf@,
        ({
            let tp = Tracepoint { tp_type: TracepointType::KProbe, token: probed_addr };
            match r.1 {
                Option::Some(ids) => s.tp_present(tp) && ids@ == s.tp_progs(tp),
                Option::None => !s.tp_present(tp),
            }
        }),
{
    let tracepoint = Tracepoint::new(TracepointType::KProbe, probed_addr);
    let ctx = KProbeBPFContext::new(tf, probed_addr, 0);
    let plan = run_attached_programs(s, &tracepoint);
    (ctx, plan)
}

/// Handles the entry hit of a kretprobe, as `kprobe_handler` does for
/// the entry tracepoint.
pub fn kretprobe_entry_handler(s: &BpfState, tf: &Vec<u8>, probed_addr: usize) -> (r: (
    KProbeBPFContext,
    Option<Vec<u64>>,
))
    requires
        s.wf(),
    ensures
        r.0.ptype == 1,
        r.0.paddr == probed_addr,
        r.0.tf@ == tf@,
        ({
            let tp = Tracepoint { tp_type: TracepointType::KRetProbeEntry, token: probed_addr };
            match r.1 {
                Option::Some(ids) => s.tp_present(tp) && ids@ == s.tp_progs(tp),
                Option::None => !s.tp_present(tp),
            }
        }),
{
    let tracepoint = Tracepoint::new(TracepointType::KRetProbeEntry, probed_addr);
    let ctx = KProbeBPFContext::new(tf, probed_addr, 1);
    let plan = run_attached_programs(s, &tracepoint);
    (ctx, plan)
}

/// Handles the exit hit of a kretprobe, as `kprobe_handler` does for
/// the exit tracepoint.
pub fn kretprobe_exit_handler(s: &BpfState, tf: &Vec<u8>, probed_addr: usize) -> (r: (
    KProbeBPFContext,
    Option<Vec<u64>>,
))
    requires
        s.wf(),
    ensures
        r.0.ptype == 2,
        r.0.paddr == probed_addr,
        r.0.tf@ == tf@,
        ({
            let tp = Tracepoint { tp_type: TracepointType::KRetProbeExit, token: probed_addr };
            match r.1 {
                Option::Some(ids) => s.tp_present(tp) && ids@ == s.tp_progs(tp),
                Option::None => !s.tp_present(tp),
            }
        }),
{
    let tracepoint = Tracepoint::new(TracepointType::KRetProbeExit, probed_addr);
    let ctx = KProbeBPFContext::new(tf, probed_addr, 2);
    let plan = run_attached_programs(s, &tracepoint);
    (ctx, plan)
}

/// After registering a fresh kprobe and inserting its tracepoint with
/// one program, the state is well-formed again and shows exactly the
/// attach effect.
proof fn lemma_attach_fresh_kprobe(
    old_s: BpfState,
    mid: BpfState,
    new_s: BpfState,
    tp: Tracepoint,
    pid: u64,
)
    requires
        old_s.wf(),
        tp.tp_type == TracepointType::KProbe,
        !old_s.tp_present(tp),
        mid.objects == old_s.objects,
        mid.next_fd == old_s.next_fd,
        mid.next_prog_id == old_s.next_prog_id,
        mid.attached == old_s.attached,
        mid.registered@ == old_s.registered@.push((ProbeKind::KProbe, tp.token)),
        new_s.objects == mid.objects,
        new_s.next_fd == mid.next_fd,
        new_s.next_prog_id == mid.next_prog_id,
        new_s.registered == mid.registered,
        new_s.tps_sorted(),
        new_s.lists_unique(),
        new_s.tp_present(tp),
        new_s.tp_progs(tp) == seq![pid],
        forall|tp2: Tracepoint|
            tp2 != tp ==> #[trigger] new_s.tp_present(tp2) == mid.tp_present(tp2),
        forall|tp2: Tracepoint|
            tp2 != tp && mid.tp_present(tp2) ==> #[trigger] new_s.tp_progs(tp2) == mid.tp_progs(
                tp2,
            ),
    ensures
        new_s.wf(),
        spec_attach_effect(old_s, new_s, tp, pid),
{
    assert(new_s.fd_seq() == old_s.fd_seq());
    assert(new_s.fds_ok()) by {
        assert forall|i: int| 0 <= i < new_s.fd_seq().len() implies (#[trigger] new_s.fd_seq()[i])
            < new_s.next_fd by {
            assert(old_s.fd_seq()[i] < old_s.next_fd);
        }
        assert forall|i: int, j: int| 0 <= i < j < new_s.fd_seq().len() implies new_s.fd_seq()[i]
            != new_s.fd_seq()[j] by {
            assert(old_s.fd_seq()[i] != old_s.fd_seq()[j]);
        }
    }
    assert(new_s.objects_ok()) by {
        assert forall|i: int| 0 <= i < new_s.objects@.len() implies (match (
        #[trigger] new_s.objects@[i]).1 {
            BpfObject::MapObj(m) => m.wf(),
            BpfObject::Program(p) => p.prog_id < new_s.next_prog_id,
        }) by {
            assert(new_s.objects@[i] == old_s.objects@[i]);
            assert(match old_s.objects@[i].1 {
                BpfObject::MapObj(m) => m.wf(),
                BpfObject::Program(p) => p.prog_id < old_s.next_prog_id,
            });
        }
    }
    lemma_same_attached(old_s, mid);
    assert forall|tp2: Tracepoint| #[trigger] new_s.tp_present(tp2) == (old_s.tp_present(tp2)
        || tp2 == tp) by {}
    assert(new_s.pairing_ok()) by {
        assert forall|tok: usize|
            new_s.tp_present(
                (Tracepoint { tp_type: TracepointType::KRetProbeEntry, token: tok }),
            ) <==> new_s.tp_present(
                (Tracepoint { tp_type: TracepointType::KRetProbeExit, token: tok }),
            ) by {
            let e = Tracepoint { tp_type: TracepointType::KRetProbeEntry, token: tok };
            let x = Tracepoint { tp_type: TracepointType::KRetProbeExit, token: tok };
            assert(old_s.tp_present(e) <==> old_s.tp_present(x));
            assert(e != tp && x != tp);
        }
    }
    assert(new_s.registration_ok()) by {
        assert(!old_s.probe_logged(ProbeKind::KProbe, tp.token)) by {
            assert(old_s.probe_logged(ProbeKind::KProbe, tp.token) <==> old_s.tp_present(
                (Tracepoint { tp_type: TracepointType::KProbe, token: tp.token }),
            ));
            assert((Tracepoint { tp_type: TracepointType::KProbe, token: tp.token }) == tp);
        }
        assert forall|i: int, j: int| 0 <= i < j < new_s.registered@.len() implies new_s
            .registered@[i] != new_s.registered@[j] by {
            if j == old_s.registered@.len() {
                assert(new_s.registered@[j] == (ProbeKind::KProbe, tp.token));
                assert(old_s.registered@[i] != (ProbeKind::KProbe, tp.token)) by {
                    if old_s.registered@[i] == (ProbeKind::KProbe, tp.token) {
                        assert(old_s.registered@.contains((ProbeKind::KProbe, tp.token)));
                    }
                }
            }
        }
        assert forall|tok: usize|
            new_s.probe_logged(ProbeKind::KProbe, tok) <==> new_s.tp_present(
                (Tracepoint { tp_type: TracepointType::KProbe, token: tok }),
            ) by {
            let t2 = Tracepoint { tp_type: TracepointType::KProbe, token: tok };
            assert(old_s.probe_logged(ProbeKind::KProbe, tok) <==> old_s.tp_present(t2));
            assert(new_s.tp_present(t2) == (old_s.tp_present(t2) || t2 == tp));
            assert(new_s.probe_logged(ProbeKind::KProbe, tok) == (old_s.probe_logged(
                ProbeKind::KProbe,
                tok,
            ) || tok == tp.token)) by {
                let item = (ProbeKind::KProbe, tok);
                if old_s.registered@.contains(item) {
                    let c = choose|c: int|
                        0 <= c < old_s.registered@.len() && old_s.registered@[c] == item;
                    assert(new_s.registered@[c] == item);
                    assert(new_s.registered@.contains(item));
                }
                if tok == tp.token {
                    assert(new_s.registered@[old_s.registered@.len() as int] == item);
                    assert(new_s.registered@.contains(item));
                }
                if new_s.registered@.contains(item) {
                    let c = choose|c: int|
                        0 <= c < new_s.registered@.len() && new_s.registered@[c] == item;
                    if c < old_s.registered@.len() {
                        assert(old_s.registered@.contains(item));
                    } else {
                        assert(item == (ProbeKind::KProbe, tp.token));
                    }
                }
            }
        }
        assert forall|tok: usize|
            new_s.probe_logged(ProbeKind::KRetProbe, tok) <==> new_s.tp_present(
                (Tracepoint { tp_type: TracepointType::KRetProbeEntry, token: tok }),
            ) by {
            let t2 = Tracepoint { tp_type: TracepointType::KRetProbeEntry, token: tok };
            assert(old_s.probe_logged(ProbeKind::KRetProbe, tok) <==> old_s.tp_present(t2));
            assert(new_s.tp_present(t2) == old_s.tp_present(t2)) by {
                assert(t2 != tp);
            }
            assert(new_s.probe_logged(ProbeKind::KRetProbe, tok) == old_s.probe_logged(
                ProbeKind::KRetProbe,
                tok,
            )) by {
                let item = (ProbeKind::KRetProbe, tok);
                if old_s.registered@.contains(item) {
                    let c = choose|c: int|
                        0 <= c < old_s.registered@.len() && old_s.registered@[c] == item;
                    assert(new_s.registered@[c] == item);
                    assert(new_s.registered@.contains(item));
                }
                if new_s.registered@.contains(item) {
                    let c = choose|c: int|
                        0 <= c < new_s.registered@.len() && new_s.registered@[c] == item;
                    if c < old_s.registered@.len() {
                        assert(old_s.registered@.contains(item));
                    }
                }
            }
        }
    }
}

/// After registering a fresh kretprobe — one registration covering
/// entry and exit — and inserting the attached tracepoint with one
/// program plus its pair with none, the state is well-formed again and
/// shows exactly the attach effect.
proof fn lemma_attach_fresh_kretprobe(
    old_s: BpfState,
    mid: BpfState,
    mid2: BpfState,
    new_s: BpfState,
    tp: Tracepoint,
    pid: u64,
)
    requires
        old_s.wf(),
        tp.tp_type == TracepointType::KRetProbeEntry || tp.tp_type
            == TracepointType::KRetProbeExit,
        !old_s.tp_present(tp),
        mid.objects == old_s.objects,
        mid.next_fd == old_s.next_fd,
        mid.next_prog_id == old_s.next_prog_id,
        mid.attached == old_s.attached,
        mid.registered@ == old_s.registered@.push((ProbeKind::KRetProbe, tp.token)),
        mid2.objects == mid.objects,
        mid2.next_fd == mid.next_fd,
        mid2.next_prog_id == mid.next_prog_id,
        mid2.registered == mid.registered,
        mid2.tps_sorted(),
        mid2.lists_unique(),
        mid2.tp_present(tp),
        mid2.tp_progs(tp) == seq![pid],
        forall|tp2: Tracepoint|
            tp2 != tp ==> #[trigger] mid2.tp_present(tp2) == mid.tp_present(tp2),
        forall|tp2: Tracepoint|
            tp2 != tp && mid.tp_present(tp2) ==> #[trigger] mid2.tp_progs(tp2) == mid.tp_progs(
                tp2,
            ),
        new_s.objects == mid2.objects,
        new_s.next_fd == mid2.next_fd,
        new_s.next_prog_id == mid2.next_prog_id,
        new_s.registered == mid2.registered,
        new_s.tps_sorted(),
        new_s.lists_unique(),
        new_s.tp_present(dual_of(tp)),
        new_s.tp_progs(dual_of(tp)) == Seq::<u64>::empty(),
        forall|tp2: Tracepoint|
            tp2 != dual_of(tp) ==> #[trigger] new_s.tp_present(tp2) == mid2.tp_present(tp2),
        forall|tp2: Tracepoint|
            tp2 != dual_of(tp) && mid2.tp_present(tp2) ==> #[trigger] new_s.tp_progs(tp2)
                == mid2.tp_progs(tp2),
    ensures
        new_s.wf(),
        spec_attach_effect(old_s, new_s, tp, pid),
{
    let dual = dual_of(tp);
    assert(dual != tp);
    assert(dual.token == tp.token);
    assert(new_s.fd_seq() == old_s.fd_seq());
    assert(new_s.fds_ok()) by {
        assert forall|i: int| 0 <= i < new_s.fd_seq().len() implies (#[trigger] new_s.fd_seq()[i])
            < new_s.next_fd by {
            assert(old_s.fd_seq()[i] < old_s.next_fd);
        }
        assert forall|i: int, j: int| 0 <= i < j < new_s.fd_seq().len() implies new_s.fd_seq()[i]
            != new_s.fd_seq()[j] by {
            assert(old_s.fd_seq()[i] != old_s.fd_seq()[j]);
        }
    }
    assert(new_s.objects_ok()) by {
        assert forall|i: int| 0 <= i < new_s.objects@.len() implies (match (
        #[trigger] new_s.objects@[i]).1 {
            BpfObject::MapObj(m) => m.wf(),
            BpfObject::Program(p) => p.prog_id < new_s.next_prog_id,
        }) by {
            assert(new_s.objects@[i] == old_s.objects@[i]);
            assert(match old_s.objects@[i].1 {
                BpfObject::MapObj(m) => m.wf(),
                BpfObject::Program(p) => p.prog_id < old_s.next_prog_id,
            });
        }
    }
    lemma_same_attached(old_s, mid);
    assert(!old_s.tp_present(dual)) by {
        let e = Tracepoint { tp_type: TracepointType::KRetProbeEntry, token: tp.token };
        let x = Tracepoint { tp_type: TracepointType::KRetProbeExit, token: tp.token };
        assert(old_s.tp_present(e) <==> old_s.tp_present(x));
    }
    assert forall|tp2: Tracepoint| #[trigger] new_s.tp_present(tp2) == (old_s.tp_present(tp2)
        || tp2 == tp || tp2 == dual) by {
        if tp2 != dual {
            assert(new_s.tp_present(tp2) == mid2.tp_present(tp2));
        }
    }
    assert(new_s.tp_progs(tp) == seq![pid]) by {
        assert(new_s.tp_progs(tp) == mid2.tp_progs(tp));
    }
    assert forall|tp2: Tracepoint|
        tp2 != tp && tp2 != dual && old_s.tp_present(tp2) implies #[trigger] new_s.tp_progs(tp2)
        == old_s.tp_progs(tp2) by {
        assert(mid.tp_present(tp2));
        assert(mid2.tp_progs(tp2) == mid.tp_progs(tp2));
        assert(mid2.tp_present(tp2));
        assert(new_s.tp_progs(tp2) == mid2.tp_progs(tp2));
    }
    assert(new_s.pairing_ok()) by {
        assert forall|tok: usize|
            new_s.tp_present(
                (Tracepoint { tp_type: TracepointType::KRetProbeEntry, token: tok }),
            ) <==> new_s.tp_present(
                (Tracepoint { tp_type: TracepointType::KRetProbeExit, token: tok }),
            ) by {
            let e = Tracepoint { tp_type: TracepointType::KRetProbeEntry, token: tok };
            let x = Tracepoint { tp_type: TracepointType::KRetProbeExit, token: tok };
            assert(old_s.tp_present(e) <==> old_s.tp_present(x));
            if tok == tp.token {
                assert(e == tp || e == dual);
                assert(x == tp || x == dual);
                assert(new_s.tp_present(e) && new_s.tp_present(x));
            } else {
                assert(e != tp && e != dual && x != tp && x != dual);
            }
        }
    }
    assert(new_s.registration_ok()) by {
        assert(!old_s.probe_logged(ProbeKind::KRetProbe, tp.token)) by {
            let e = Tracepoint { tp_type: TracepointType::KRetProbeEntry, token: tp.token };
            assert(old_s.probe_logged(ProbeKind::KRetProbe, tp.token) <==> old_s.tp_present(e));
            assert(e == tp || e == dual);
        }
        assert forall|i: int, j: int| 0 <= i < j < new_s.registered@.len() implies new_s
            .registered@[i] != new_s.registered@[j] by {
            if j == old_s.registered@.len() {
                assert(new_s.registered@[j] == (ProbeKind::KRetProbe, tp.token));
                assert(old_s.registered@[i] != (ProbeKind::KRetProbe, tp.token)) by {
                    if old_s.registered@[i] == (ProbeKind::KRetProbe, tp.token) {
                        assert(old_s.registered@.contains((ProbeKind::KRetProbe, tp.token)));
                    }
                }
            }
        }
        assert forall|tok: usize|
            new_s.probe_logged(ProbeKind::KProbe, tok) <==> new_s.tp_present(
                (Tracepoint { tp_type: TracepointType::KProbe, token: tok }),
            ) by {
            let t2 = Tracepoint { tp_type: TracepointType::KProbe, token: tok };
            assert(old_s.probe_logged(ProbeKind::KProbe, tok) <==> old_s.tp_present(t2));
            assert(new_s.tp_present(t2) == old_s.tp_present(t2)) by {
                assert(t2 != tp && t2 != dual);
            }
            assert(new_s.probe_logged(ProbeKind::KProbe, tok) == old_s.probe_logged(
                ProbeKind::KProbe,
                tok,
            )) by {
                let item = (ProbeKind::KProbe, tok);
                if old_s.registered@.contains(item) {
                    let c = choose|c: int|
                        0 <= c < old_s.registered@.len() && old_s.registered@[c] == item;
                    assert(new_s.registered@[c] == item);
                    assert(new_s.registered@.contains(item));
                }
                if new_s.registered@.contains(item) {
                    let c = choose|c: int|
                        0 <= c < new_s.registered@.len() && new_s.registered@[c] == item;
                    if c < old_s.registered@.len() {
                        assert(old_s.registered@.contains(item));
                    }
                }
            }
        }
        assert forall|tok: usize|
            new_s.probe_logged(ProbeKind::KRetProbe, tok) <==> new_s.tp_present(
                (Tracepoint { tp_type: TracepointType::KRetProbeEntry, token: tok }),
            ) by {
            let t2 = Tracepoint { tp_type: TracepointType::KRetProbeEntry, token: tok };
            assert(old_s.probe_logged(ProbeKind::KRetProbe, tok) <==> old_s.tp_present(t2));
            if tok == tp.token {
                assert(t2 == tp || t2 == dual);
                assert(new_s.tp_present(t2));
                assert(new_s.probe_logged(ProbeKind::KRetProbe, tok)) by {
                    assert(new_s.registered@[old_s.registered@.len() as int] == (
                        ProbeKind::KRetProbe,
                        tok,
                    ));
                    assert(new_s.registered@.contains((ProbeKind::KRetProbe, tok)));
                }
            } else {
                assert(t2 != tp && t2 != dual);
                assert(new_s.tp_present(t2) == old_s.tp_present(t2));
                assert(new_s.probe_logged(ProbeKind::KRetProbe, tok) == old_s.probe_logged(
                    ProbeKind::KRetProbe,
                    tok,
                )) by {
                    let item = (ProbeKind::KRetProbe, tok);
                    if old_s.registered@.contains(item) {
                        let c = choose|c: int|
                            0 <= c < old_s.registered@.len() && old_s.registered@[c] == item;
                        assert(new_s.registered@[c] == item);
                        assert(new_s.registered@.contains(item));
                    }
                    if new_s.registered@.contains(item) {
                        let c = choose|c: int|
                            0 <= c < new_s.registered@.len() && new_s.registered@[c] == item;
                        if c < old_s.registered@.len() {
                            assert(old_s.registered@.contains(item));
                        } else {
                            assert(item == (ProbeKind::KRetProbe, tp.token));
                        }
                    }
                }
            }
        }
    }
}

} // verus!
