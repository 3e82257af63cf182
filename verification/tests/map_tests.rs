use ebpf_core::bytes::{read_le32, write_le32};
use ebpf_core::command::{
    bpf_command_from, decode_map_attr, decode_map_op_attr, sys_bpf_map_create,
    sys_bpf_map_delete_elem, sys_bpf_map_get_next_key, sys_bpf_map_lookup_elem,
    sys_bpf_map_update_elem, BpfCommand,
};
use ebpf_core::map::{
    bpf_map_close, bpf_map_create, bpf_map_delete_elem, bpf_map_get_attr, bpf_map_get_next_key,
    bpf_map_lookup_elem, bpf_map_update_elem, MapAttr, BPF_MAP_TYPE_ARRAY, BPF_MAP_TYPE_HASH,
};
use ebpf_core::object::BpfState;
use ebpf_core::retcode::convert_result;
use ebpf_core::BpfErrorCode;

fn array_attr(max_entries: u32, value_size: u32) -> MapAttr {
    MapAttr { map_type: BPF_MAP_TYPE_ARRAY, key_size: 4, value_size, max_entries }
}

fn hash_attr(key_size: u32, value_size: u32, max_entries: u32) -> MapAttr {
    MapAttr { map_type: BPF_MAP_TYPE_HASH, key_size, value_size, max_entries }
}

fn key4(i: u32) -> Vec<u8> {
    i.to_le_bytes().to_vec()
}

#[test]
fn le32_round_trip() {
    let k = write_le32(0xABCD);
    assert_eq!(k, vec![0xCD, 0xAB, 0, 0]);
    assert_eq!(read_le32(&k), 0xABCD);
    assert_eq!(read_le32(&write_le32(u32::MAX)), u32::MAX);
    assert_eq!(write_le32(0), vec![0, 0, 0, 0]);
}

#[test]
fn array_create_rejects_bad_key_size() {
    let mut s = BpfState::new();
    let mut attr = array_attr(4, 8);
    attr.key_size = 8;
    assert_eq!(bpf_map_create(&mut s, attr), Err(BpfErrorCode::InvalidArgument));
}

#[test]
fn create_rejects_unknown_map_type() {
    let mut s = BpfState::new();
    let attr = MapAttr { map_type: 7, key_size: 4, value_size: 8, max_entries: 4 };
    assert_eq!(bpf_map_create(&mut s, attr), Err(BpfErrorCode::InvalidArgument));
}

#[test]
fn array_lookup_is_total_below_max_entries() {
    let mut s = BpfState::new();
    let fd = bpf_map_create(&mut s, array_attr(4, 8)).unwrap() as u32;
    let mut out: Vec<u8> = Vec::new();
    for i in 0..4u32 {
        let r = bpf_map_lookup_elem(&mut s, fd, &key4(i), &mut out, 0);
        assert_eq!(r, Ok(0));
        assert_eq!(out, vec![0u8; 8]);
    }
    for i in [4u32, 9, 1000] {
        let r = bpf_map_lookup_elem(&mut s, fd, &key4(i), &mut out, 0);
        assert_eq!(r, Err(BpfErrorCode::NotFound));
    }
}

#[test]
fn array_scenario_update_lookup_close() {
    let mut s = BpfState::new();
    let fd = bpf_map_create(&mut s, array_attr(4, 8)).unwrap() as u32;
    let mut value = vec![0u8; 8];
    value[0] = 1;
    let mut buf = value.clone();
    assert_eq!(bpf_map_update_elem(&mut s, fd, &key4(2), &mut buf, 0), Ok(0));
    let mut out: Vec<u8> = Vec::new();
    assert_eq!(bpf_map_lookup_elem(&mut s, fd, &key4(2), &mut out, 0), Ok(0));
    assert_eq!(out, value);
    assert_eq!(
        bpf_map_lookup_elem(&mut s, fd, &key4(9), &mut out, 0),
        Err(BpfErrorCode::NotFound)
    );
    assert_eq!(bpf_map_close(&mut s, fd), Ok(0));
    assert_eq!(
        bpf_map_lookup_elem(&mut s, fd, &key4(2), &mut out, 0),
        Err(BpfErrorCode::NotFound)
    );
}

#[test]
fn array_update_out_of_range_is_invalid() {
    let mut s = BpfState::new();
    let fd = bpf_map_create(&mut s, array_attr(4, 8)).unwrap() as u32;
    let mut buf = vec![7u8; 8];
    assert_eq!(
        bpf_map_update_elem(&mut s, fd, &key4(4), &mut buf, 0),
        Err(BpfErrorCode::InvalidArgument)
    );
}

#[test]
fn array_delete_is_rejected() {
    let mut s = BpfState::new();
    let fd = bpf_map_create(&mut s, array_attr(4, 8)).unwrap() as u32;
    let mut buf: Vec<u8> = Vec::new();
    assert_eq!(
        bpf_map_delete_elem(&mut s, fd, &key4(0), &mut buf, 0),
        Err(BpfErrorCode::InvalidArgument)
    );
}

#[test]
fn array_next_key_walks_all_indices() {
    let mut s = BpfState::new();
    let fd = bpf_map_create(&mut s, array_attr(3, 8)).unwrap() as u32;
    let mut out: Vec<u8> = Vec::new();
    assert_eq!(bpf_map_get_next_key(&mut s, fd, None, &mut out, 0), Ok(0));
    assert_eq!(out, key4(0));
    let k0 = out.clone();
    assert_eq!(bpf_map_get_next_key(&mut s, fd, Some(&k0), &mut out, 0), Ok(0));
    assert_eq!(out, key4(1));
    let k1 = out.clone();
    assert_eq!(bpf_map_get_next_key(&mut s, fd, Some(&k1), &mut out, 0), Ok(0));
    assert_eq!(out, key4(2));
    let k2 = out.clone();
    assert_eq!(
        bpf_map_get_next_key(&mut s, fd, Some(&k2), &mut out, 0),
        Err(BpfErrorCode::EndOfIteration)
    );
}

#[test]
fn hash_round_trip() {
    let mut s = BpfState::new();
    let fd = bpf_map_create(&mut s, hash_attr(8, 16, 8)).unwrap() as u32;
    let key = vec![9u8; 8];
    let value = vec![0x5Au8; 16];
    let mut buf = value.clone();
    assert_eq!(bpf_map_update_elem(&mut s, fd, &key, &mut buf, 0), Ok(0));
    let mut out: Vec<u8> = Vec::new();
    assert_eq!(bpf_map_lookup_elem(&mut s, fd, &key, &mut out, 0), Ok(0));
    assert_eq!(out, value);
}

#[test]
fn hash_overwrite_and_delete() {
    let mut s = BpfState::new();
    let fd = bpf_map_create(&mut s, hash_attr(4, 4, 8)).unwrap() as u32;
    let key = vec![1u8, 2, 3, 4];
    let mut v1 = vec![10u8; 4];
    let mut v2 = vec![20u8; 4];
    assert_eq!(bpf_map_update_elem(&mut s, fd, &key, &mut v1, 0), Ok(0));
    assert_eq!(bpf_map_update_elem(&mut s, fd, &key, &mut v2, 0), Ok(0));
    let mut out: Vec<u8> = Vec::new();
    assert_eq!(bpf_map_lookup_elem(&mut s, fd, &key, &mut out, 0), Ok(0));
    assert_eq!(out, vec![20u8; 4]);
    assert_eq!(bpf_map_delete_elem(&mut s, fd, &key, &mut out, 0), Ok(0));
    assert_eq!(
        bpf_map_lookup_elem(&mut s, fd, &key, &mut out, 0),
        Err(BpfErrorCode::NotFound)
    );
    assert_eq!(
        bpf_map_delete_elem(&mut s, fd, &key, &mut out, 0),
        Err(BpfErrorCode::NotFound)
    );
}

#[test]
fn hash_update_flags() {
    let mut s = BpfState::new();
    let fd = bpf_map_create(&mut s, hash_attr(4, 4, 8)).unwrap() as u32;
    let key = vec![1u8, 1, 1, 1];
    let mut buf = vec![5u8; 4];
    // replace-only on an absent key
    assert_eq!(
        bpf_map_update_elem(&mut s, fd, &key, &mut buf, 2),
        Err(BpfErrorCode::NotFound)
    );
    // create-only succeeds
    assert_eq!(bpf_map_update_elem(&mut s, fd, &key, &mut buf, 1), Ok(0));
    // create-only on a present key
    assert_eq!(
        bpf_map_update_elem(&mut s, fd, &key, &mut buf, 1),
        Err(BpfErrorCode::InvalidArgument)
    );
    // replace-only now succeeds
    assert_eq!(bpf_map_update_elem(&mut s, fd, &key, &mut buf, 2), Ok(0));
    // unknown flag
    assert_eq!(
        bpf_map_update_elem(&mut s, fd, &key, &mut buf, 3),
        Err(BpfErrorCode::InvalidArgument)
    );
}

#[test]
fn hash_capacity_enforced() {
    let mut s = BpfState::new();
    let fd = bpf_map_create(&mut s, hash_attr(4, 4, 2)).unwrap() as u32;
    let k1 = vec![1u8, 0, 0, 0];
    let k2 = vec![2u8, 0, 0, 0];
    let k3 = vec![3u8, 0, 0, 0];
    let mut buf = vec![9u8; 4];
    assert_eq!(bpf_map_update_elem(&mut s, fd, &k1, &mut buf, 0), Ok(0));
    assert_eq!(bpf_map_update_elem(&mut s, fd, &k2, &mut buf, 0), Ok(0));
    assert_eq!(
        bpf_map_update_elem(&mut s, fd, &k3, &mut buf, 0),
        Err(BpfErrorCode::CapacityExceeded)
    );
    // the observable key set is unchanged
    let mut out: Vec<u8> = Vec::new();
    assert_eq!(bpf_map_lookup_elem(&mut s, fd, &k1, &mut out, 0), Ok(0));
    assert_eq!(bpf_map_lookup_elem(&mut s, fd, &k2, &mut out, 0), Ok(0));
    assert_eq!(
        bpf_map_lookup_elem(&mut s, fd, &k3, &mut out, 0),
        Err(BpfErrorCode::NotFound)
    );
    // replacing an existing key still works at capacity
    assert_eq!(bpf_map_update_elem(&mut s, fd, &k1, &mut buf, 0), Ok(0));
}

#[test]
fn hash_next_key_visits_every_key_once() {
    let mut s = BpfState::new();
    let fd = bpf_map_create(&mut s, hash_attr(4, 4, 8)).unwrap() as u32;
    let keys = [vec![1u8, 0, 0, 0], vec![2u8, 0, 0, 0], vec![3u8, 0, 0, 0]];
    let mut buf = vec![0u8; 4];
    for k in &keys {
        assert_eq!(bpf_map_update_elem(&mut s, fd, k, &mut buf, 0), Ok(0));
    }
    let mut visited: Vec<Vec<u8>> = Vec::new();
    let mut cursor: Option<Vec<u8>> = None;
    loop {
        let mut out: Vec<u8> = Vec::new();
        let r = bpf_map_get_next_key(&mut s, fd, cursor.as_ref(), &mut out, 0);
        match r {
            Ok(0) => {
                visited.push(out.clone());
                cursor = Some(out);
            },
            Err(BpfErrorCode::EndOfIteration) => break,
            other => panic!("unexpected next_key result: {:?}", other),
        }
        assert!(visited.len() <= keys.len(), "traversal did not terminate");
    }
    assert_eq!(visited.len(), keys.len());
    for k in &keys {
        assert_eq!(visited.iter().filter(|v| *v == k).count(), 1);
    }
}

#[test]
fn hash_next_key_empty_map_ends_immediately() {
    let mut s = BpfState::new();
    let fd = bpf_map_create(&mut s, hash_attr(4, 4, 8)).unwrap() as u32;
    let mut out: Vec<u8> = Vec::new();
    assert_eq!(
        bpf_map_get_next_key(&mut s, fd, None, &mut out, 0),
        Err(BpfErrorCode::EndOfIteration)
    );
}

#[test]
fn fds_are_unique_and_close_is_permanent() {
    let mut s = BpfState::new();
    let fd1 = bpf_map_create(&mut s, array_attr(2, 4)).unwrap() as u32;
    let fd2 = bpf_map_create(&mut s, hash_attr(4, 4, 2)).unwrap() as u32;
    let fd3 = bpf_map_create(&mut s, array_attr(2, 4)).unwrap() as u32;
    assert!(fd1 != fd2 && fd2 != fd3 && fd1 != fd3);
    assert_eq!(bpf_map_close(&mut s, fd2), Ok(0));
    assert_eq!(bpf_map_close(&mut s, fd2), Err(BpfErrorCode::NotFound));
    let fd4 = bpf_map_create(&mut s, hash_attr(4, 4, 2)).unwrap() as u32;
    assert!(fd4 != fd1 && fd4 != fd2 && fd4 != fd3);
    let mut out: Vec<u8> = Vec::new();
    assert_eq!(
        bpf_map_lookup_elem(&mut s, fd2, &vec![0u8; 4], &mut out, 0),
        Err(BpfErrorCode::NotFound)
    );
    assert_eq!(bpf_map_close(&mut s, 999), Err(BpfErrorCode::NotFound));
}

#[test]
fn get_attr_reports_creation_parameters() {
    let mut s = BpfState::new();
    let fd = bpf_map_create(&mut s, hash_attr(8, 16, 32)).unwrap() as u32;
    let attr = bpf_map_get_attr(&s, fd).unwrap();
    assert_eq!(attr.key_size, 8);
    assert_eq!(attr.value_size, 16);
    assert_eq!(attr.max_entries, 32);
    assert!(bpf_map_get_attr(&s, fd + 1).is_none());
}

#[test]
fn decode_map_attr_reads_wire_layout() {
    let mut b: Vec<u8> = Vec::new();
    for field in [2u32, 4, 8, 16] {
        b.extend_from_slice(&field.to_le_bytes());
    }
    let attr = decode_map_attr(&b).unwrap();
    assert_eq!(attr.map_type, 2);
    assert_eq!(attr.key_size, 4);
    assert_eq!(attr.value_size, 8);
    assert_eq!(attr.max_entries, 16);
    assert!(decode_map_attr(&vec![0u8; 15]).is_none());
}

#[test]
fn decode_map_op_attr_reads_wire_layout() {
    let mut b = vec![0u8; 32];
    b[0..4].copy_from_slice(&3u32.to_le_bytes());
    b[8..16].copy_from_slice(&0x1122334455667788u64.to_le_bytes());
    b[16..24].copy_from_slice(&0xAABBCCDDu64.to_le_bytes());
    b[24..32].copy_from_slice(&1u64.to_le_bytes());
    let op = decode_map_op_attr(&b).unwrap();
    assert_eq!(op.map_fd, 3);
    assert_eq!(op.key, 0x1122334455667788);
    assert_eq!(op.value_or_nextkey, 0xAABBCCDD);
    assert_eq!(op.flags, 1);
    assert!(decode_map_op_attr(&vec![0u8; 31]).is_none());
}

#[test]
fn sys_map_create_from_record_bytes() {
    let mut s = BpfState::new();
    let mut b: Vec<u8> = Vec::new();
    for field in [2u32, 4, 8, 4] {
        b.extend_from_slice(&field.to_le_bytes());
    }
    assert_eq!(sys_bpf_map_create(&mut s, &b), 0);
    // second map gets the next fd
    assert_eq!(sys_bpf_map_create(&mut s, &b), 1);
    // short record fails at the boundary
    assert_eq!(sys_bpf_map_create(&mut s, &vec![0u8; 8]), -1);
    // bad key size collapses to the generic failure code
    let mut bad: Vec<u8> = Vec::new();
    for field in [2u32, 8, 8, 4] {
        bad.extend_from_slice(&field.to_le_bytes());
    }
    assert_eq!(sys_bpf_map_create(&mut s, &bad), -1);
}

#[test]
fn command_discriminants_decode() {
    assert_eq!(bpf_command_from(0), Some(BpfCommand::MapCreate));
    assert_eq!(bpf_command_from(1), Some(BpfCommand::MapLookupElem));
    assert_eq!(bpf_command_from(2), Some(BpfCommand::MapUpdateElem));
    assert_eq!(bpf_command_from(3), Some(BpfCommand::MapDeleteElem));
    assert_eq!(bpf_command_from(4), Some(BpfCommand::MapGetNextKey));
    assert_eq!(bpf_command_from(5), Some(BpfCommand::ProgLoad));
    assert_eq!(bpf_command_from(8), Some(BpfCommand::ProgAttach));
    assert_eq!(bpf_command_from(9), Some(BpfCommand::ProgDetach));
    assert_eq!(bpf_command_from(1000), Some(BpfCommand::ProgLoadEx));
    assert_eq!(bpf_command_from(6), None);
    assert_eq!(bpf_command_from(-1), None);
}

#[test]
fn convert_result_collapses_failures() {
    assert_eq!(convert_result(Ok(5)), 5);
    assert_eq!(convert_result(Err(BpfErrorCode::NotFound)), -1);
    assert_eq!(convert_result(Err(BpfErrorCode::CapacityExceeded)), -1);
}

fn op_record(map_fd: u32, key_addr: u64, value_addr: u64, flags: u64) -> Vec<u8> {
    let mut b = vec![0u8; 32];
    b[0..4].copy_from_slice(&map_fd.to_le_bytes());
    b[8..16].copy_from_slice(&key_addr.to_le_bytes());
    b[16..24].copy_from_slice(&value_addr.to_le_bytes());
    b[24..32].copy_from_slice(&flags.to_le_bytes());
    b
}

#[test]
fn sys_map_element_ops_from_record_bytes() {
    let mut s = BpfState::new();
    let fd = bpf_map_create(&mut s, hash_attr(4, 4, 8)).unwrap() as u32;
    let record = op_record(fd, 0x100, 0x200, 0);
    let key = vec![7u8, 0, 0, 0];
    let mut value = vec![42u8; 4];
    assert_eq!(sys_bpf_map_update_elem(&mut s, &record, &key, &mut value), 0);
    let mut out: Vec<u8> = Vec::new();
    assert_eq!(sys_bpf_map_lookup_elem(&mut s, &record, &key, &mut out), 0);
    assert_eq!(out, vec![42u8; 4]);
    let mut next: Vec<u8> = Vec::new();
    assert_eq!(sys_bpf_map_get_next_key(&mut s, &record, None, &mut next), 0);
    assert_eq!(next, key);
    assert_eq!(sys_bpf_map_get_next_key(&mut s, &record, Some(&key), &mut next), -1);
    assert_eq!(sys_bpf_map_delete_elem(&mut s, &record, &key, &mut out), 0);
    assert_eq!(sys_bpf_map_lookup_elem(&mut s, &record, &key, &mut out), -1);
    // a short record collapses to the generic failure code
    assert_eq!(sys_bpf_map_lookup_elem(&mut s, &vec![0u8; 8], &key, &mut out), -1);
    // an unknown fd does too
    let bad = op_record(fd + 50, 0x100, 0x200, 0);
    assert_eq!(sys_bpf_map_lookup_elem(&mut s, &bad, &key, &mut out), -1);
}
