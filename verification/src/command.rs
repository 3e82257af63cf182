//! The syscall command layer: the multiplexed command set, the
//! fixed-layout attribute records, and the typed operations they route
//! to.
//!
//! The surrounding kernel copies each record (and the key and value
//! buffers the record points at) across the user/kernel boundary; the
//! functions here take the copied bytes, decode them against the wire
//! layout — little-endian fields at fixed offsets — and run the
//! operation, collapsing the typed result to the boundary's single
//! success/failure signal.

use vstd::prelude::*;
use crate::map::{
    bpf_map_create, bpf_map_delete_elem, bpf_map_get_next_key, bpf_map_lookup_elem,
    bpf_map_update_elem, MapAttr, MapOpAttr,
};
use crate::object::BpfState;
use crate::retcode::{convert_result, spec_boundary_code};
use crate::tracepoints::KprobeAttachAttr;

verus! {

/// The multiplexed command set of the single syscall entry point. The
/// discriminant values on the wire are the stable enumeration that
/// `bpf_command_from` decodes.
#[derive(Clone, Copy, Debug, PartialEq, Eq, Structural)]
pub enum BpfCommand {
    MapCreate,
    MapLookupElem,
    MapUpdateElem,
    MapDeleteElem,
    MapGetNextKey,
    ProgLoad,
    ProgAttach,
    ProgDetach,
    ProgLoadEx,
}

/// The command a wire discriminant denotes, if any: 0 through 4 are the
/// map commands in order, 5 is program load, 8 and 9 attach and detach,
/// and 1000 the extended load.
pub open spec fn spec_bpf_command(cmd: i32) -> Option<BpfCommand> {
    if cmd == 0 {
        Some(BpfCommand::MapCreate)
    } else if cmd == 1 {
        Some(BpfCommand::MapLookupElem)
    } else if cmd == 2 {
        Some(BpfCommand::MapUpdateElem)
    } else if cmd == 3 {
        Some(BpfCommand::MapDeleteElem)
    } else if cmd == 4 {
        Some(BpfCommand::MapGetNextKey)
    } else if cmd == 5 {
        Some(BpfCommand::ProgLoad)
    } else if cmd == 8 {
        Some(BpfCommand::ProgAttach)
    } else if cmd == 9 {
        Some(BpfCommand::ProgDetach)
    } else if cmd == 1000 {
        Some(BpfCommand::ProgLoadEx)
    } else {
        None
    }
}

/// Decodes a wire discriminant; an unknown one is rejected here, before
/// any record is read.
pub fn bpf_command_from(cmd: i32) -> (r: Option<BpfCommand>)
    ensures
        r == spec_bpf_command(cmd),
{
    if cmd == 0 {
        Some(BpfCommand::MapCreate)
    } else if cmd == 1 {
        Some(BpfCommand::MapLookupElem)
    } else if cmd == 2 {
        Some(BpfCommand::MapUpdateElem)
    } else if cmd == 3 {
        Some(BpfCommand::MapDeleteElem)
    } else if cmd == 4 {
        Some(BpfCommand::MapGetNextKey)
    } else if cmd == 5 {
        Some(BpfCommand::ProgLoad)
    } else if cmd == 8 {
        Some(BpfCommand::ProgAttach)
    } else if cmd == 9 {
        Some(BpfCommand::ProgDetach)
    } else if cmd == 1000 {
        Some(BpfCommand::ProgLoadEx)
    } else {
        None
    }
}

/// The 32-bit little-endian integer at byte offset `off` of `s`.
pub open spec fn spec_u32_at(s: Seq<u8>, off: int) -> u32
    recommends
        0 <= off,
        off + 4 <= s.len(),
{
    (s[off] + s[off + 1] * 0x100 + s[off + 2] * 0x10000 + s[off + 3] * 0x1000000) as u32
}

/// The 64-bit little-endian integer at byte offset `off` of `s`.
pub open spec fn spec_u64_at(s: Seq<u8>, off: int) -> u64
    recommends
        0 <= off,
        off + 8 <= s.len(),
{
    (spec_u32_at(s, off) + spec_u32_at(s, off + 4) * 0x1_0000_0000) as u64
}

/// Reads the 32-bit little-endian field at `off`.
fn read_u32_at(b: &Vec<u8>, off: usize) -> (r: u32)
    requires
        off + 4 <= b.len(),
    ensures
        r == spec_u32_at(b@, off as int),
{
    let b0 = b[off] as u32;
    let b1 = b[off + 1] as u32;
    let b2 = b[off + 2] as u32;
    let b3 = b[off + 3] as u32;
    b0 + b1 * 0x100 + b2 * 0x10000 + b3 * 0x1000000
}

/// Reads the 64-bit little-endian field at `off`.
fn read_u64_at(b: &Vec<u8>, off: usize) -> (r: u64)
    requires
        off + 8 <= b.len(),
    ensures
        r == spec_u64_at(b@, off as int),
{
    let lo = read_u32_at(b, off) as u64;
    let hi = read_u32_at(b, off + 4) as u64;
    lo + hi * 0x1_0000_0000
}

/// The map-creation record a copied attribute buffer holds: four 32-bit
/// fields in declaration order. `None` when the buffer is too short.
pub open spec fn spec_decode_map_attr(b: Seq<u8>) -> Option<MapAttr> {
    if b.len() < 16 {
        None
    } else {
        Some(
            MapAttr {
                map_type: spec_u32_at(b, 0),
                key_size: spec_u32_at(b, 4),
                value_size: spec_u32_at(b, 8),
                max_entries: spec_u32_at(b, 12),
            },
        )
    }
}

/// Decodes a copied map-creation record.
pub fn decode_map_attr(b: &Vec<u8>) -> (r: Option<MapAttr>)
    ensures
        r == spec_decode_map_attr(b@),
{
    if b.len() < 16 {
        return None;
    }
    Some(
        MapAttr {
            map_type: read_u32_at(b, 0),
            key_size: read_u32_at(b, 4),
            value_size: read_u32_at(b, 8),
            max_entries: read_u32_at(b, 12),
        },
    )
}

/// The element-operation record a copied attribute buffer holds: the
/// map fd at offset 0, then — after the alignment padding of the wire
/// layout — the key pointer at 8, the value-or-next-key pointer at 16,
/// and the flags at 24. `None` when the buffer is too short.
pub open spec fn spec_decode_map_op_attr(b: Seq<u8>) -> Option<MapOpAttr> {
    if b.len() < 32 {
        None
    } else {
        Some(
            MapOpAttr {
                map_fd: spec_u32_at(b, 0),
                key: spec_u64_at(b, 8),
                value_or_nextkey: spec_u64_at(b, 16),
                flags: spec_u64_at(b, 24),
            },
        )
    }
}

/// Decodes a copied element-operation record.
pub fn decode_map_op_attr(b: &Vec<u8>) -> (r: Option<MapOpAttr>)
    ensures
        r == spec_decode_map_op_attr(b@),
{
    if b.len() < 32 {
        return None;
    }
    Some(
        MapOpAttr {
            map_fd: read_u32_at(b, 0),
            key: read_u64_at(b, 8),
            value_or_nextkey: read_u64_at(b, 16),
            flags: read_u64_at(b, 24),
        },
    )
}

/// The attach record a copied attribute buffer holds: the target-spec
/// pointer at offset 0, its length at 8, the program fd at 12. `None`
/// when the buffer is too short.
pub open spec fn spec_decode_attach_attr(b: Seq<u8>) -> Option<KprobeAttachAttr> {
    if b.len() < 16 {
        None
    } else {
        Some(
            KprobeAttachAttr {
                target: spec_u64_at(b, 0),
                str_len: spec_u32_at(b, 8),
                prog_fd: spec_u32_at(b, 12),
            },
        )
    }
}

/// Decodes a copied attach record.
pub fn decode_attach_attr(b: &Vec<u8>) -> (r: Option<KprobeAttachAttr>)
    ensures
        r == spec_decode_attach_attr(b@),
{
    if b.len() < 16 {
        return None;
    }
    Some(
        KprobeAttachAttr {
            target: read_u64_at(b, 0),
            str_len: read_u32_at(b, 8),
            prog_fd: read_u32_at(b, 12),
        },
    )
}

/// Creates a map from a copied creation record: decode, create, and
/// collapse the result for the boundary. A short record is the generic
/// failure code.
pub fn sys_bpf_map_create(s: &mut BpfState, attr: &Vec<u8>) -> (r: i32)
    requires
        old(s).wf(),
        old(s).next_fd < u32::MAX,
    ensures
        final(s).wf(),
        match spec_decode_map_attr(attr@) {
            Option::None => r == -1 && *final(s) == *old(s),
            Option::Some(a) => r == spec_boundary_code(
                crate::map::spec_map_create_result(a, old(s).next_fd),
            ),
        },
{
    match decode_map_attr(attr) {
        None => -1,
        Some(map_attr) => convert_result(bpf_map_create(s, map_attr)),
    }
}

/// Looks up an element from a copied operation record and key buffer:
/// on success the value bytes are left in `value` for the kernel to
/// copy out.
pub fn sys_bpf_map_lookup_elem(
    s: &mut BpfState,
    attr: &Vec<u8>,
    key: &Vec<u8>,
    value: &mut Vec<u8>,
) -> (r: i32)
    requires
        old(s).wf(),
    ensures
        final(s).wf(),
        match spec_decode_map_op_attr(attr@) {
            Option::None => r == -1 && *final(s) == *old(s) && *final(value) == *old(value),
            Option::Some(a) => {
                &&& !old(s).is_map_fd(a.map_fd) ==> r == -1 && *final(value) == *old(value)
                &&& old(s).is_map_fd(a.map_fd) ==> match old(s).map_at(a.map_fd).spec_lookup(
                    key@,
                ) {
                    Ok(v) => r == 0 && final(value)@ == v,
                    Err(_) => r == -1 && *final(value) == *old(value),
                }
            },
        },
{
    match decode_map_op_attr(attr) {
        None => -1,
        Some(op) => convert_result(bpf_map_lookup_elem(s, op.map_fd, key, value, op.flags)),
    }
}

/// Updates an element from a copied operation record and key and value
/// buffers.
pub fn sys_bpf_map_update_elem(
    s: &mut BpfState,
    attr: &Vec<u8>,
    key: &Vec<u8>,
    value: &mut Vec<u8>,
) -> (r: i32)
    requires
        old(s).wf(),
    ensures
        final(s).wf(),
        *final(value) == *old(value),
        match spec_decode_map_op_attr(attr@) {
            Option::None => r == -1 && *final(s) == *old(s),
            Option::Some(a) => {
                &&& !old(s).is_map_fd(a.map_fd) ==> r == -1 && *final(s) == *old(s)
                &&& old(s).is_map_fd(a.map_fd) ==> ({
                    let m0 = old(s).map_at(a.map_fd);
                    &&& r == spec_boundary_code(
                        m0.spec_update_result(key@, old(value)@, a.flags),
                    )
                    &&& (m0.spec_update_result(key@, old(value)@, a.flags) matches Ok(_)
                        ==> m0.updated(final(s).map_at(a.map_fd), key@, old(value)@))
                    &&& (m0.spec_update_result(key@, old(value)@, a.flags) matches Err(_)
                        ==> final(s).map_at(a.map_fd) == m0)
                })
            },
        },
{
    match decode_map_op_attr(attr) {
        None => -1,
        Some(op) => convert_result(bpf_map_update_elem(s, op.map_fd, key, value, op.flags)),
    }
}

/// Deletes an element from a copied operation record and key buffer.
pub fn sys_bpf_map_delete_elem(
    s: &mut BpfState,
    attr: &Vec<u8>,
    key: &Vec<u8>,
    value: &mut Vec<u8>,
) -> (r: i32)
    requires
        old(s).wf(),
    ensures
        final(s).wf(),
        *final(value) == *old(value),
        match spec_decode_map_op_attr(attr@) {
            Option::None => r == -1 && *final(s) == *old(s),
            Option::Some(a) => {
                &&& !old(s).is_map_fd(a.map_fd) ==> r == -1 && *final(s) == *old(s)
                &&& old(s).is_map_fd(a.map_fd) ==> ({
                    let m0 = old(s).map_at(a.map_fd);
                    &&& r == spec_boundary_code(m0.spec_delete_result(key@))
                    &&& (m0.spec_delete_result(key@) matches Ok(_) ==> m0.deleted(
                        final(s).map_at(a.map_fd),
                        key@,
                    ))
                    &&& (m0.spec_delete_result(key@) matches Err(_) ==> final(s).map_at(a.map_fd)
                        == m0)
                })
            },
        },
{
    match decode_map_op_attr(attr) {
        None => -1,
        Some(op) => convert_result(bpf_map_delete_elem(s, op.map_fd, key, value, op.flags)),
    }
}

/// Steps the iteration order of a map from a copied operation record
/// and key buffer; the key following `key` (`None` is the start
/// sentinel) is left in `value` for the kernel to copy out.
pub fn sys_bpf_map_get_next_key(
    s: &mut BpfState,
    attr: &Vec<u8>,
    key: Option<&Vec<u8>>,
    value: &mut Vec<u8>,
) -> (r: i32)
    requires
        old(s).wf(),
    ensures
        final(s).wf(),
        match spec_decode_map_op_attr(attr@) {
            Option::None => r == -1 && *final(s) == *old(s) && *final(value) == *old(value),
            Option::Some(a) => {
                &&& !old(s).is_map_fd(a.map_fd) ==> r == -1 && *final(value) == *old(value)
                &&& old(s).is_map_fd(a.map_fd) ==> match old(s).map_at(a.map_fd).spec_next_key(
                    match key {
                        Option::Some(k) => Option::Some(k@),
                        Option::None => Option::None,
                    },
                ) {
                    Ok(nk) => r == 0 && final(value)@ == nk,
                    Err(_) => r == -1 && *final(value) == *old(value),
                }
            },
        },
{
    match decode_map_op_attr(attr) {
        None => -1,
        Some(op) => convert_result(bpf_map_get_next_key(s, op.map_fd, key, value, op.flags)),
    }
}

/// Attaches a program from a copied target-spec string and program fd,
/// collapsing the typed result for the boundary.
pub fn sys_bpf_program_attach(
    s: &mut BpfState,
    symbols: &crate::tracepoints::SymbolTable,
    probes: &crate::tracepoints::ProbeTable,
    target: &Vec<u8>,
    prog_fd: u32,
) -> (r: i32)
    requires
        old(s).wf(),
        symbols.wf(),
    ensures
        final(s).wf(),
        r == spec_boundary_code(
            crate::tracepoints::spec_attach_result(*old(s), *symbols, *probes, target@, prog_fd),
        ),
        r != 0 ==> *final(s) == *old(s),
{
    convert_result(crate::tracepoints::bpf_program_attach(s, symbols, probes, target, prog_fd))
}

/// Accepts a loaded program — the loader and verifier are external
/// collaborators — and returns the fresh program fd, collapsed for the
/// boundary.
pub fn sys_bpf_program_load_ex(
    s: &mut BpfState,
    prog: &Vec<u8>,
    map_info: &Vec<(Vec<u8>, u32)>,
) -> (r: i32)
    requires
        old(s).wf(),
        old(s).next_fd < u32::MAX,
        old(s).next_prog_id < u64::MAX,
    ensures
        final(s).wf(),
        r == old(s).next_fd as i32,
        final(s).is_prog_fd(old(s).next_fd),
        final(s).prog_id_of(old(s).next_fd) == old(s).next_prog_id,
        final(s).next_fd == old(s).next_fd + 1,
        final(s).next_prog_id == old(s).next_prog_id + 1,
        forall|fd2: u32|
            fd2 != old(s).next_fd ==> (final(s).has_fd(fd2) == old(s).has_fd(fd2) && (old(
                s,
            ).has_fd(fd2) ==> final(s).obj_of(fd2) == old(s).obj_of(fd2))),
        final(s).attached == old(s).attached,
        final(s).registered == old(s).registered,
{
    convert_result(s.bpf_program_load_ex(prog, map_info))
}

} // verus!
