use ebpf_core::command::{decode_attach_attr, sys_bpf_program_attach, sys_bpf_program_load_ex};
use ebpf_core::map::{bpf_map_create, MapAttr, BPF_MAP_TYPE_ARRAY};
use ebpf_core::object::BpfState;
use ebpf_core::tracepoints::{
    bpf_program_attach, bpf_program_detach, kprobe_handler, kretprobe_entry_handler,
    kretprobe_exit_handler, parse_tracepoint, resolve_symbol, run_attached_programs,
    KProbeBPFContext, ProbeTable, SymbolTable, Tracepoint, TracepointType,
};
use ebpf_core::BpfErrorCode;

fn load_program(s: &mut BpfState) -> u32 {
    let prog = vec![0u8; 16];
    let map_info: Vec<(Vec<u8>, u32)> = Vec::new();
    let fd = sys_bpf_program_load_ex(s, &prog, &map_info);
    assert!(fd >= 0);
    fd as u32
}

fn env_with(name: &str, addr: usize) -> (SymbolTable, ProbeTable) {
    let mut t = SymbolTable::new();
    t.add(&name.as_bytes().to_vec(), addr);
    let mut p = ProbeTable::new();
    p.add(addr);
    (t, p)
}

#[test]
fn parse_kprobe_target() {
    let r = parse_tracepoint(&b"kprobe$my_func".to_vec()).unwrap();
    assert_eq!(r.0, TracepointType::KProbe);
    assert_eq!(r.1, b"my_func".to_vec());
}

#[test]
fn parse_is_case_insensitive() {
    let r = parse_tracepoint(&b"KProbe$f".to_vec()).unwrap();
    assert_eq!(r.0, TracepointType::KProbe);
    let r = parse_tracepoint(&b"KRETPROBE@ENTRY$f".to_vec()).unwrap();
    assert_eq!(r.0, TracepointType::KRetProbeEntry);
}

#[test]
fn parse_kretprobe_targets() {
    let r = parse_tracepoint(&b"kretprobe@entry$sys_open".to_vec()).unwrap();
    assert_eq!(r.0, TracepointType::KRetProbeEntry);
    assert_eq!(r.1, b"sys_open".to_vec());
    let r = parse_tracepoint(&b"kretprobe@exit$sys_open".to_vec()).unwrap();
    assert_eq!(r.0, TracepointType::KRetProbeExit);
}

#[test]
fn parse_rejects_bad_specs() {
    assert_eq!(
        parse_tracepoint(&b"kprobe-no-separator".to_vec()),
        Err(BpfErrorCode::InvalidArgument)
    );
    assert_eq!(
        parse_tracepoint(&b"uprobe$f".to_vec()),
        Err(BpfErrorCode::InvalidArgument)
    );
    assert_eq!(parse_tracepoint(&Vec::new()), Err(BpfErrorCode::InvalidArgument));
    // the split is at the first separator
    let r = parse_tracepoint(&b"kprobe$a$b".to_vec()).unwrap();
    assert_eq!(r.1, b"a$b".to_vec());
}

#[test]
fn symbol_table_resolves() {
    let mut t = SymbolTable::new();
    assert_eq!(resolve_symbol(&t, &b"f".to_vec()), None);
    t.add(&b"f".to_vec(), 0x1000);
    t.add(&b"g".to_vec(), 0x2000);
    // a duplicate keeps the first address
    t.add(&b"f".to_vec(), 0x3000);
    assert_eq!(resolve_symbol(&t, &b"f".to_vec()), Some(0x1000));
    assert_eq!(resolve_symbol(&t, &b"g".to_vec()), Some(0x2000));
    assert_eq!(resolve_symbol(&t, &b"h".to_vec()), None);
}

#[test]
fn attach_scenario_with_reuse() {
    // attach a program via "kprobe$my_func" where my_func resolves to 0xABCD
    let mut s = BpfState::new();
    let (symbols, probes) = env_with("my_func", 0xABCD);
    // burn fds so the program gets fd 3, as in the scenario
    let attr = MapAttr { map_type: BPF_MAP_TYPE_ARRAY, key_size: 4, value_size: 4, max_entries: 1 };
    for _ in 0..3 {
        bpf_map_create(&mut s, attr).unwrap();
    }
    let prog_fd = load_program(&mut s);
    assert_eq!(prog_fd, 3);
    let target = b"kprobe$my_func".to_vec();
    assert_eq!(bpf_program_attach(&mut s, &symbols, &probes, &target, prog_fd), Ok(0));
    assert_eq!(s.registered.len(), 1);
    // attaching the same program again fails and changes nothing
    assert_eq!(
        bpf_program_attach(&mut s, &symbols, &probes, &target, prog_fd),
        Err(BpfErrorCode::AlreadyAttached)
    );
    assert_eq!(s.registered.len(), 1);
    // detach, then attach a different program to the same string:
    // the existing tracepoint is reused, no second probe registration
    assert_eq!(bpf_program_detach(&mut s, prog_fd), Ok(0));
    let prog_fd2 = load_program(&mut s);
    assert_eq!(bpf_program_attach(&mut s, &symbols, &probes, &target, prog_fd2), Ok(0));
    assert_eq!(s.registered.len(), 1);
    let tp = Tracepoint::new(TracepointType::KProbe, 0xABCD);
    let plan = run_attached_programs(&s, &tp).unwrap();
    assert_eq!(plan.len(), 1);
}

#[test]
fn duplicate_attach_leaves_sequence_unchanged() {
    let mut s = BpfState::new();
    let (symbols, probes) = env_with("f", 0x1000);
    let prog_fd = load_program(&mut s);
    let target = b"kprobe$f".to_vec();
    assert_eq!(bpf_program_attach(&mut s, &symbols, &probes, &target, prog_fd), Ok(0));
    let tp = Tracepoint::new(TracepointType::KProbe, 0x1000);
    let before = run_attached_programs(&s, &tp).unwrap();
    assert_eq!(
        bpf_program_attach(&mut s, &symbols, &probes, &target, prog_fd),
        Err(BpfErrorCode::AlreadyAttached)
    );
    let after = run_attached_programs(&s, &tp).unwrap();
    assert_eq!(before, after);
    assert_eq!(after.len(), 1);
}

#[test]
fn two_programs_attach_in_order() {
    let mut s = BpfState::new();
    let (symbols, probes) = env_with("f", 0x1000);
    let fd_a = load_program(&mut s);
    let fd_b = load_program(&mut s);
    let target = b"kprobe$f".to_vec();
    assert_eq!(bpf_program_attach(&mut s, &symbols, &probes, &target, fd_a), Ok(0));
    assert_eq!(bpf_program_attach(&mut s, &symbols, &probes, &target, fd_b), Ok(0));
    let tp = Tracepoint::new(TracepointType::KProbe, 0x1000);
    let plan = run_attached_programs(&s, &tp).unwrap();
    // insertion order is execution order; identities are allocated in order
    assert_eq!(plan, vec![0u64, 1u64]);
}

#[test]
fn kretprobe_pairing() {
    let mut s = BpfState::new();
    let (symbols, probes) = env_with("sym", 0x4000);
    let prog_fd = load_program(&mut s);
    assert_eq!(
        bpf_program_attach(&mut s, &symbols, &probes, &b"kretprobe@entry$sym".to_vec(), prog_fd),
        Ok(0)
    );
    // one registration covers entry and exit
    assert_eq!(s.registered.len(), 1);
    let entry_tp = Tracepoint::new(TracepointType::KRetProbeEntry, 0x4000);
    let exit_tp = Tracepoint::new(TracepointType::KRetProbeExit, 0x4000);
    assert_eq!(run_attached_programs(&s, &entry_tp).unwrap().len(), 1);
    // the paired exit tracepoint exists, with an empty sequence
    assert_eq!(run_attached_programs(&s, &exit_tp).unwrap().len(), 0);
    // a later attach to the pair appends without re-registering
    let prog_fd2 = load_program(&mut s);
    assert_eq!(
        bpf_program_attach(&mut s, &symbols, &probes, &b"kretprobe@exit$sym".to_vec(), prog_fd2),
        Ok(0)
    );
    assert_eq!(s.registered.len(), 1);
    assert_eq!(run_attached_programs(&s, &exit_tp).unwrap().len(), 1);
    assert_eq!(run_attached_programs(&s, &entry_tp).unwrap().len(), 1);
}

#[test]
fn attach_error_cases() {
    let mut s = BpfState::new();
    let (symbols, probes) = env_with("f", 0x1000);
    // unknown fd
    assert_eq!(
        bpf_program_attach(&mut s, &symbols, &probes, &b"kprobe$f".to_vec(), 42),
        Err(BpfErrorCode::NotFound)
    );
    // a map fd is not a program
    let attr = MapAttr { map_type: BPF_MAP_TYPE_ARRAY, key_size: 4, value_size: 4, max_entries: 1 };
    let map_fd = bpf_map_create(&mut s, attr).unwrap() as u32;
    assert_eq!(
        bpf_program_attach(&mut s, &symbols, &probes, &b"kprobe$f".to_vec(), map_fd),
        Err(BpfErrorCode::NotFound)
    );
    let prog_fd = load_program(&mut s);
    // malformed target spec
    assert_eq!(
        bpf_program_attach(&mut s, &symbols, &probes, &b"kprobe_f".to_vec(), prog_fd),
        Err(BpfErrorCode::InvalidArgument)
    );
    // unresolved symbol
    assert_eq!(
        bpf_program_attach(&mut s, &symbols, &probes, &b"kprobe$missing".to_vec(), prog_fd),
        Err(BpfErrorCode::NotFound)
    );
}

#[test]
fn detach_error_cases() {
    let mut s = BpfState::new();
    // unknown fd
    assert_eq!(bpf_program_detach(&mut s, 7), Err(BpfErrorCode::NotFound));
    // a map fd is not a program
    let attr = MapAttr { map_type: BPF_MAP_TYPE_ARRAY, key_size: 4, value_size: 4, max_entries: 1 };
    let map_fd = bpf_map_create(&mut s, attr).unwrap() as u32;
    assert_eq!(bpf_program_detach(&mut s, map_fd), Err(BpfErrorCode::NotFound));
    // a program attached nowhere
    let prog_fd = load_program(&mut s);
    assert_eq!(bpf_program_detach(&mut s, prog_fd), Err(BpfErrorCode::NotFound));
}

#[test]
fn detach_removes_first_occurrence_only() {
    let mut s = BpfState::new();
    let (mut symbols, mut probes) = env_with("f", 0x1000);
    symbols.add(&b"g".to_vec(), 0x2000);
    probes.add(0x2000);
    let prog_fd = load_program(&mut s);
    assert_eq!(bpf_program_attach(&mut s, &symbols, &probes, &b"kprobe$f".to_vec(), prog_fd), Ok(0));
    assert_eq!(bpf_program_attach(&mut s, &symbols, &probes, &b"kprobe$g".to_vec(), prog_fd), Ok(0));
    assert_eq!(bpf_program_detach(&mut s, prog_fd), Ok(0));
    // the first tracepoint in sorted order lost the program; the other kept it
    let tp_f = Tracepoint::new(TracepointType::KProbe, 0x1000);
    let tp_g = Tracepoint::new(TracepointType::KProbe, 0x2000);
    assert_eq!(run_attached_programs(&s, &tp_f).unwrap().len(), 0);
    assert_eq!(run_attached_programs(&s, &tp_g).unwrap().len(), 1);
    // the fd is gone from the object table
    assert_eq!(bpf_program_detach(&mut s, prog_fd), Err(BpfErrorCode::NotFound));
}

#[test]
fn handlers_build_context_and_plan() {
    let mut s = BpfState::new();
    let (symbols, probes) = env_with("f", 0x1000);
    let prog_fd = load_program(&mut s);
    assert_eq!(bpf_program_attach(&mut s, &symbols, &probes, &b"kprobe$f".to_vec(), prog_fd), Ok(0));
    let tf = vec![0xEEu8; 32];
    let (ctx, plan) = kprobe_handler(&s, &tf, 0x1000);
    assert_eq!(ctx.ptype, 0);
    assert_eq!(ctx.paddr, 0x1000);
    assert_eq!(ctx.tf, tf);
    assert_eq!(plan.unwrap(), vec![0u64]);
    // a hit at an address with no tracepoint has no plan
    let (_, plan) = kprobe_handler(&s, &tf, 0x9999);
    assert!(plan.is_none());
    let (ctx, plan) = kretprobe_entry_handler(&s, &tf, 0x1000);
    assert_eq!(ctx.ptype, 1);
    assert!(plan.is_none());
    let (ctx, plan) = kretprobe_exit_handler(&s, &tf, 0x1000);
    assert_eq!(ctx.ptype, 2);
    assert!(plan.is_none());
}

#[test]
fn context_new_copies_fields() {
    let tf = vec![1u8, 2, 3];
    let ctx = KProbeBPFContext::new(&tf, 0x77, 2);
    assert_eq!(ctx.ptype, 2);
    assert_eq!(ctx.paddr, 0x77);
    assert_eq!(ctx.tf, tf);
}

#[test]
fn decode_attach_attr_reads_wire_layout() {
    let mut b = vec![0u8; 16];
    b[0..8].copy_from_slice(&0xDEAD_BEEFu64.to_le_bytes());
    b[8..12].copy_from_slice(&14u32.to_le_bytes());
    b[12..16].copy_from_slice(&3u32.to_le_bytes());
    let attr = decode_attach_attr(&b).unwrap();
    assert_eq!(attr.target, 0xDEAD_BEEF);
    assert_eq!(attr.str_len, 14);
    assert_eq!(attr.prog_fd, 3);
    assert!(decode_attach_attr(&vec![0u8; 15]).is_none());
}

#[test]
fn sys_attach_collapses_result() {
    let mut s = BpfState::new();
    let (symbols, probes) = env_with("f", 0x1000);
    let prog_fd = load_program(&mut s);
    assert_eq!(
        sys_bpf_program_attach(&mut s, &symbols, &probes, &b"kprobe$f".to_vec(), prog_fd),
        0
    );
    assert_eq!(
        sys_bpf_program_attach(&mut s, &symbols, &probes, &b"kprobe$f".to_vec(), prog_fd),
        -1
    );
}

#[test]
fn attach_fails_when_probe_cannot_be_registered() {
    let mut s = BpfState::new();
    let mut symbols = SymbolTable::new();
    symbols.add(&b"f".to_vec(), 0x1000);
    let probes = ProbeTable::new();
    let prog_fd = load_program(&mut s);
    assert_eq!(
        bpf_program_attach(&mut s, &symbols, &probes, &b"kprobe$f".to_vec(), prog_fd),
        Err(BpfErrorCode::InvalidArgument)
    );
    assert_eq!(s.registered.len(), 0);
}
