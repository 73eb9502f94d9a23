use pyroclast::perfdata::records::{
    parse_record, parse_record_header, NamespaceLink, ParsedRecord, PerfRecord, PerfRecordHeader,
};
use pyroclast::perfdata::samples::{
    parse_sample_record, SampleLayout, PERF_SAMPLE_CALLCHAIN, PERF_SAMPLE_IP, PERF_SAMPLE_PERIOD,
    PERF_SAMPLE_TID,
};

fn put_u16(bytes: &mut Vec<u8>, value: u16) {
    bytes.extend(value.to_le_bytes());
}

fn put_u32(bytes: &mut Vec<u8>, value: u32) {
    bytes.extend(value.to_le_bytes());
}

fn put_u64(bytes: &mut Vec<u8>, value: u64) {
    bytes.extend(value.to_le_bytes());
}

fn numbers(values: &[u64]) -> Vec<u8> {
    let mut bytes = Vec::new();
    for value in values {
        put_u64(&mut bytes, *value);
    }
    bytes
}

fn parsed(record_type: u32, misc: u16, payload: &[u8]) -> Result<ParsedRecord, String> {
    let header = PerfRecordHeader { record_type, misc, size: (payload.len() + 8) as u16 };
    parse_record(PerfRecord { offset: 0, header, payload })
}

fn range(pid: u32, start: u64, len: u64, pgoff: u64) -> Vec<u8> {
    let mut payload = Vec::new();
    put_u32(&mut payload, pid);
    put_u32(&mut payload, pid + 1);
    payload.extend(numbers(&[start, len, pgoff]));
    payload
}

// Asserts that a record is refused when it is shorter than it must be, and tells so.
fn refuses(record_type: u32, misc: u16, least: usize, name: &str) {
    let error = parsed(record_type, misc, &vec![0; least - 1]).unwrap_err();
    assert_eq!(error, format!("{name} payload is shorter than {least} bytes"));
    assert!(parsed(record_type, misc, &vec![0; least]).is_ok());
}

#[test]
fn short_records_are_refused() {
    refuses(1, 0, 32, "PERF_RECORD_MMAP");
    refuses(2, 0, 16, "PERF_RECORD_LOST");
    refuses(3, 0, 8, "PERF_RECORD_COMM");
    refuses(4, 0, 24, "PERF_RECORD_EXIT");
    refuses(5, 0, 24, "PERF_RECORD_THROTTLE");
    refuses(6, 0, 24, "PERF_RECORD_UNTHROTTLE");
    refuses(7, 0, 24, "PERF_RECORD_FORK");
    refuses(8, 0, 8, "PERF_RECORD_READ");
    refuses(10, 0, 64, "PERF_RECORD_MMAP2");
    refuses(10, 0x4000, 64, "PERF_RECORD_MMAP2 build-id");
    refuses(11, 0, 24, "PERF_RECORD_AUX");
    refuses(12, 0, 8, "PERF_RECORD_ITRACE_START");
    refuses(13, 0, 8, "PERF_RECORD_LOST_SAMPLES");
    refuses(15, 0, 8, "PERF_RECORD_SWITCH_CPU_WIDE");
    refuses(16, 0, 16, "PERF_RECORD_NAMESPACES");
    refuses(17, 0, 16, "PERF_RECORD_KSYMBOL");
    refuses(18, 0, 16, "PERF_RECORD_BPF_EVENT");
    refuses(19, 0, 8, "PERF_RECORD_CGROUP");
    refuses(20, 0, 12, "PERF_RECORD_TEXT_POKE");
    refuses(21, 0, 8, "PERF_RECORD_AUX_OUTPUT_HW_ID");
    refuses(22, 0, 16, "PERF_RECORD_CALLCHAIN_DEFERRED");
}

#[test]
fn headers_are_read() {
    let header = parse_record_header(&[9, 0, 0, 0, 2, 0x40, 16, 1]).expect("header");
    assert_eq!(header, PerfRecordHeader { record_type: 9, misc: 0x4002, size: 272 });
    assert_eq!(
        parse_record_header(&[0; 7]),
        Err("perf record header is shorter than 8 bytes".to_string())
    );
}

#[test]
fn names_are_read_up_to_their_end() {
    let payload = b"\x0b\0\0\0\x0c\0\0\0de\xffmo\0rest";
    let Ok(ParsedRecord::Comm(comm)) = parsed(3, 0x2000, payload) else {
        panic!("no name");
    };
    assert_eq!((comm.pid, comm.tid), (11, 12));
    assert_eq!(comm.comm, "de\u{fffd}mo");
    assert!(comm.is_exec);
    let Ok(ParsedRecord::Comm(comm)) = parsed(3, 0, payload) else {
        panic!("no name");
    };
    assert!(!comm.is_exec);
}

#[test]
fn mappings_are_read() {
    let mut plain = range(7, 0x1000, 0x2000, 0x3000);
    plain.extend(b"/bin/a\0");
    let Ok(ParsedRecord::Mmap(mapping)) = parsed(1, 0, &plain) else {
        panic!("no mapping");
    };
    assert_eq!((mapping.pid, mapping.tid), (7, 8));
    assert_eq!((mapping.start, mapping.len, mapping.pgoff), (0x1000, 0x2000, 0x3000));
    assert_eq!(mapping.path, "/bin/a");

    let mut with_inode = range(7, 1, 2, 3);
    put_u32(&mut with_inode, 8);
    put_u32(&mut with_inode, 9);
    with_inode.extend(numbers(&[10, 11]));
    put_u32(&mut with_inode, 5);
    put_u32(&mut with_inode, 6);
    with_inode.extend(b"/bin/b\0");
    let Ok(ParsedRecord::Mmap2(mapping)) = parsed(10, 0, &with_inode) else {
        panic!("no mapping");
    };
    assert_eq!((mapping.major, mapping.minor), (8, 9));
    assert_eq!((mapping.inode, mapping.inode_generation), (10, 11));
    assert_eq!((mapping.prot, mapping.flags), (5, 6));
    assert_eq!(mapping.path, "/bin/b");

    let mut with_build_id = range(7, 1, 2, 3);
    with_build_id.extend([4, 0, 0, 0]);
    with_build_id.extend(1..=20);
    put_u32(&mut with_build_id, 5);
    put_u32(&mut with_build_id, 6);
    with_build_id.extend(b"/bin/c\0");
    let Ok(ParsedRecord::Mmap2BuildId(mapping)) = parsed(10, 0x4000, &with_build_id) else {
        panic!("no mapping");
    };
    assert_eq!(mapping.build_id, [1, 2, 3, 4]);
    assert_eq!((mapping.prot, mapping.flags), (5, 6));
    assert_eq!(mapping.path, "/bin/c");
    with_build_id[32] = 21;
    assert_eq!(
        parsed(10, 0x4000, &with_build_id).unwrap_err(),
        "PERF_RECORD_MMAP2 build-id size 21 exceeds 20 bytes"
    );
}

#[test]
fn processes_begin_and_end() {
    let mut payload = Vec::new();
    for value in [2, 1, 4, 3] {
        put_u32(&mut payload, value);
    }
    put_u64(&mut payload, 99);
    let Ok(ParsedRecord::Fork(fork)) = parsed(7, 0, &payload) else {
        panic!("no fork");
    };
    assert_eq!((fork.pid, fork.ppid, fork.tid, fork.ptid, fork.time), (2, 1, 4, 3, 99));
    assert!(fork.clone_maps);
    let Ok(ParsedRecord::Fork(fork)) = parsed(7, 0x2000, &payload) else {
        panic!("no fork");
    };
    assert!(!fork.clone_maps);
    let Ok(ParsedRecord::Exit(exit)) = parsed(4, 0, &payload) else {
        panic!("no exit");
    };
    assert_eq!((exit.pid, exit.ppid, exit.tid, exit.ptid, exit.time), (2, 1, 4, 3, 99));
}

#[test]
fn losses_and_throttles_are_read() {
    let Ok(ParsedRecord::Lost(lost)) = parsed(2, 0, &numbers(&[5, 6])) else {
        panic!("no loss");
    };
    assert_eq!((lost.id, lost.lost), (5, 6));
    let Ok(ParsedRecord::LostSamples(lost)) = parsed(13, 0, &numbers(&[7])) else {
        panic!("no loss");
    };
    assert_eq!(lost.lost, 7);
    let Ok(ParsedRecord::Throttle(throttle)) = parsed(5, 0, &numbers(&[1, 2, 3])) else {
        panic!("no throttle");
    };
    assert_eq!((throttle.time, throttle.id, throttle.stream_id), (1, 2, 3));
    let Ok(ParsedRecord::Unthrottle(throttle)) = parsed(6, 0, &numbers(&[1, 2, 3])) else {
        panic!("no throttle");
    };
    assert_eq!((throttle.time, throttle.id, throttle.stream_id), (1, 2, 3));
}

#[test]
fn what_follows_the_fixed_fields_is_kept() {
    let mut ids = Vec::new();
    put_u32(&mut ids, 1);
    put_u32(&mut ids, 2);
    ids.extend([7, 8, 9]);
    let Ok(ParsedRecord::Read(read)) = parsed(8, 0, &ids) else {
        panic!("no read");
    };
    assert_eq!((read.pid, read.tid), (1, 2));
    assert_eq!(read.values, [7, 8, 9]);
    let Ok(ParsedRecord::ItraceStart(start)) = parsed(12, 0, &ids) else {
        panic!("no trace");
    };
    assert_eq!((start.pid, start.tid), (1, 2));
    assert_eq!(start.sample_id, [7, 8, 9]);
    let Ok(ParsedRecord::SwitchCpuWide(switch)) = parsed(15, 0, &ids) else {
        panic!("no switch");
    };
    assert_eq!((switch.next_prev_pid, switch.next_prev_tid), (1, 2));
    assert_eq!(switch.sample_id, [7, 8, 9]);
    let Ok(ParsedRecord::Switch(switch)) = parsed(14, 0, &ids) else {
        panic!("no switch");
    };
    assert_eq!(switch.sample_id, ids);
    let Ok(ParsedRecord::Sample(sample)) = parsed(9, 2, &ids) else {
        panic!("no sample");
    };
    assert_eq!((sample.misc, sample.payload), (2, ids));

    let mut aux = numbers(&[1, 2, 3]);
    aux.push(4);
    let Ok(ParsedRecord::Aux(aux)) = parsed(11, 0, &aux) else {
        panic!("no trace");
    };
    assert_eq!((aux.aux_offset, aux.aux_size, aux.flags), (1, 2, 3));
    assert_eq!(aux.sample_id, [4]);
    let mut output = numbers(&[5]);
    output.push(6);
    let Ok(ParsedRecord::AuxOutputHwId(output)) = parsed(21, 0, &output) else {
        panic!("no id");
    };
    assert_eq!((output.hw_id, output.sample_id), (5, vec![6]));
}

#[test]
fn kernel_records_are_read() {
    let mut ksymbol = numbers(&[0xffff_8000]);
    put_u32(&mut ksymbol, 64);
    put_u16(&mut ksymbol, 1);
    put_u16(&mut ksymbol, 2);
    ksymbol.extend(b"bpf_prog\0\x05");
    let Ok(ParsedRecord::Ksymbol(ksymbol)) = parsed(17, 0, &ksymbol) else {
        panic!("no symbol");
    };
    assert_eq!((ksymbol.addr, ksymbol.len), (0xffff_8000, 64));
    assert_eq!((ksymbol.ksym_type, ksymbol.flags), (1, 2));
    assert_eq!(ksymbol.name, "bpf_prog");
    assert_eq!(ksymbol.sample_id, [5]);

    let mut bpf = Vec::new();
    put_u16(&mut bpf, 1);
    put_u16(&mut bpf, 2);
    put_u32(&mut bpf, 3);
    bpf.extend(1..=8);
    bpf.push(9);
    let Ok(ParsedRecord::BpfEvent(bpf)) = parsed(18, 0, &bpf) else {
        panic!("no event");
    };
    assert_eq!((bpf.event_type, bpf.flags, bpf.id), (1, 2, 3));
    assert_eq!(bpf.tag, [1, 2, 3, 4, 5, 6, 7, 8]);
    assert_eq!(bpf.sample_id, [9]);

    let mut cgroup = numbers(&[4]);
    cgroup.extend(b"/slice");
    let Ok(ParsedRecord::Cgroup(cgroup)) = parsed(19, 0, &cgroup) else {
        panic!("no group");
    };
    assert_eq!((cgroup.id, cgroup.path.as_str()), (4, "/slice"));
    assert!(cgroup.sample_id.is_empty());

    let mut poke = numbers(&[6]);
    put_u16(&mut poke, 2);
    put_u16(&mut poke, 1);
    poke.extend([1, 2, 3, 4]);
    let Ok(ParsedRecord::TextPoke(found)) = parsed(20, 0, &poke) else {
        panic!("no text");
    };
    assert_eq!((found.addr, found.old_len, found.new_len), (6, 2, 1));
    assert_eq!((found.bytes, found.sample_id), (vec![1, 2, 3], vec![4]));
    assert_eq!(
        parsed(20, 0, &poke[..14]).unwrap_err(),
        "PERF_RECORD_TEXT_POKE payload is shorter than declared bytes"
    );
}

#[test]
fn declared_counts_are_held_to_the_payload() {
    let mut namespaces = Vec::new();
    put_u32(&mut namespaces, 1);
    put_u32(&mut namespaces, 2);
    namespaces.extend(numbers(&[1, 10, 11]));
    namespaces.push(3);
    let Ok(ParsedRecord::Namespaces(found)) = parsed(16, 0, &namespaces) else {
        panic!("no namespaces");
    };
    assert_eq!(found.namespaces, [NamespaceLink { dev: 10, inode: 11 }]);
    assert_eq!(found.sample_id, [3]);
    assert_eq!(
        parsed(16, 0, &namespaces[..24]).unwrap_err(),
        "PERF_RECORD_NAMESPACES payload is shorter than declared 1 namespaces"
    );
    namespaces[8..16].copy_from_slice(&u64::MAX.to_le_bytes());
    assert_eq!(
        parsed(16, 0, &namespaces).unwrap_err(),
        "PERF_RECORD_NAMESPACES entries length overflows usize"
    );

    let Ok(ParsedRecord::CallchainDeferred(found)) = parsed(22, 0, &numbers(&[7, 2, 30, 40, 5]))
    else {
        panic!("no callchain");
    };
    assert_eq!(found.cookie, 7);
    assert_eq!(found.ips, [30, 40]);
    assert_eq!(found.sample_id, numbers(&[5]));
    assert_eq!(
        parsed(22, 0, &numbers(&[7, 2, 30])).unwrap_err(),
        "PERF_RECORD_CALLCHAIN_DEFERRED payload is shorter than declared ips"
    );
    assert_eq!(
        parsed(22, 0, &numbers(&[7, u64::MAX])).unwrap_err(),
        "PERF_RECORD_CALLCHAIN_DEFERRED instruction pointer length overflows usize"
    );
}

#[test]
fn other_records_are_passed_over() {
    assert_eq!(
        parsed(200, 0, &[1, 2, 3]),
        Ok(ParsedRecord::Unsupported { record_type: 200 })
    );
}

#[test]
fn samples_are_read_by_their_layout() {
    let layout = SampleLayout {
        sample_type: PERF_SAMPLE_IP | PERF_SAMPLE_TID | PERF_SAMPLE_PERIOD | PERF_SAMPLE_CALLCHAIN,
        read_format: 0,
        branch_sample_type: 0,
        sample_regs_user: 0,
        sample_regs_intr: 0,
        sample_id_all: false,
    };
    let mut payload = numbers(&[0x1010]);
    put_u32(&mut payload, 11);
    put_u32(&mut payload, 12);
    payload.extend(numbers(&[9, 2, 0x1010, 0x1020]));
    let sample = parse_sample_record(&payload, layout).expect("sample");
    assert_eq!(sample.ip, Some(0x1010));
    assert_eq!((sample.pid, sample.tid), (Some(11), Some(12)));
    assert_eq!(sample.period, Some(9));
    assert_eq!(sample.callchain, [0x1010, 0x1020]);
    for end in 0..payload.len() {
        assert!(parse_sample_record(&payload[..end], layout).is_err());
    }
    let mut longer = payload.clone();
    longer.push(0);
    assert_eq!(
        parse_sample_record(&longer, layout).unwrap_err(),
        "perf sample payload has trailing bytes"
    );
    let unknown = SampleLayout { sample_type: 1 << 40, ..layout };
    assert!(parse_sample_record(&payload, unknown).is_err());
}
