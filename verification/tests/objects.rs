use pyroclast::perfdata::accumulate::{FoldAccumulator, FoldOptions};
use pyroclast::perfdata::layouts::SampleLayouts;
use pyroclast::perfdata::mappings::{FileIdentity, MmapTable};
use pyroclast::perfdata::objects::{normalize_ranges, object_unwind_ranges, AddressRange};
use pyroclast::perfdata::records::{ForkRecord, Mmap2Record, MmapRecord, ParsedRecord};
use pyroclast::perfdata::unwind::{FramehopUnwinder, PerfArch, PerfUserRegs, PerfX86_64Regs};
use pyroclast::perfdata::unwinding::{should_load_unwind_object, ObjectStore, PidUnwindState};
use pyroclast::tables::NamedBytes;

const LOAD_SIZE: u64 = 0x40_0000;
const TEXT: u64 = 0x1000;
const TEXT_SIZE: u64 = 0x100;

fn put_u16(bytes: &mut Vec<u8>, value: u16) {
    bytes.extend(value.to_le_bytes());
}

fn put_u32(bytes: &mut Vec<u8>, value: u32) {
    bytes.extend(value.to_le_bytes());
}

fn put_u64(bytes: &mut Vec<u8>, value: u64) {
    bytes.extend(value.to_le_bytes());
}

// One frame description for all of the text: the return address stands at the stack pointer.
fn eh_frame(at: u64) -> Vec<u8> {
    let mut bytes = Vec::new();
    put_u32(&mut bytes, 20);
    put_u32(&mut bytes, 0);
    bytes.extend([1, b'z', b'R', 0, 1, 0x78, 16, 1, 0x1b]);
    bytes.extend([0x0c, 7, 8, 0x90, 1, 0, 0]);
    put_u32(&mut bytes, 20);
    put_u32(&mut bytes, 28);
    put_u32(&mut bytes, (TEXT as i64 - (at as i64 + 32)) as u32);
    put_u32(&mut bytes, TEXT_SIZE as u32);
    bytes.extend([0, 0, 0, 0, 0, 0, 0, 0]);
    put_u32(&mut bytes, 0);
    bytes
}

fn section(
    bytes: &mut Vec<u8>,
    name: u32,
    kind: u32,
    flags: u64,
    address: u64,
    offset: u64,
    size: u64,
) {
    put_u32(bytes, name);
    put_u32(bytes, kind);
    put_u64(bytes, flags);
    put_u64(bytes, address);
    put_u64(bytes, offset);
    put_u64(bytes, size);
    put_u32(bytes, 0);
    put_u32(bytes, 0);
    put_u64(bytes, 1);
    put_u64(bytes, 0);
}

// A shared object: one loaded segment, some text with a frame description, and the names of the
// sections.
fn image() -> Vec<u8> {
    let names = b"\0.text\0.eh_frame\0.shstrtab\0";
    let frame_at: u64 = TEXT + TEXT_SIZE;
    let frame = eh_frame(frame_at);
    let names_at: u64 = frame_at + frame.len() as u64;
    let sections_at: u64 = names_at + names.len() as u64;
    let mut bytes = vec![0x7f, b'E', b'L', b'F', 2, 1, 1, 0, 0, 0, 0, 0, 0, 0, 0, 0];
    put_u16(&mut bytes, 3);
    put_u16(&mut bytes, 62);
    put_u32(&mut bytes, 1);
    put_u64(&mut bytes, TEXT);
    put_u64(&mut bytes, 64);
    put_u64(&mut bytes, sections_at);
    put_u32(&mut bytes, 0);
    for value in [64, 56, 1, 64, 4, 3] {
        put_u16(&mut bytes, value);
    }
    put_u32(&mut bytes, 1);
    put_u32(&mut bytes, 5);
    put_u64(&mut bytes, 0);
    put_u64(&mut bytes, 0);
    put_u64(&mut bytes, 0);
    put_u64(&mut bytes, sections_at);
    put_u64(&mut bytes, LOAD_SIZE);
    put_u64(&mut bytes, 0x1000);
    bytes.resize(TEXT as usize, 0);
    bytes.resize(frame_at as usize, 0x90);
    bytes.extend(&frame);
    bytes.extend(names);
    section(&mut bytes, 0, 0, 0, 0, 0, 0);
    section(&mut bytes, 1, 1, 6, TEXT, TEXT, TEXT_SIZE);
    section(&mut bytes, 7, 1, 2, frame_at, frame_at, frame.len() as u64);
    section(&mut bytes, 17, 3, 0, 0, names_at, names.len() as u64);
    bytes
}

fn store(path: &str) -> ObjectStore {
    let mut objects = ObjectStore::new();
    objects.images.insert(path, image());
    objects
}

fn accumulator() -> FoldAccumulator {
    FoldAccumulator::new(NamedBytes::new(), PerfArch::X86_64)
}

fn mmap(start: u64, len: u64, pgoff: u64, path: &str) -> ParsedRecord {
    ParsedRecord::Mmap(MmapRecord { pid: 11, tid: 11, start, len, pgoff, path: path.to_string() })
}

fn apply(accumulator: &mut FoldAccumulator, record: ParsedRecord, objects: &ObjectStore) {
    accumulator
        .apply_record(record, &SampleLayouts::default(), FoldOptions::default(), objects)
        .expect("record");
}

#[test]
fn loads_unwind_object_when_recorded_file_identity_mismatches_path_like_perf_libdw() {
    assert!(should_load_unwind_object(
        "/tmp/app",
        Some(FileIdentity { major: 0, minor: 0, inode: u64::MAX, inode_generation: 0 }),
    ));
    assert!(!should_load_unwind_object("[vdso]", None));
}

#[test]
fn chooses_perf_build_id_cache_for_build_id_unwind_mappings() {
    let cached = "/root/.debug/.build-id/aa/bbcc/elf";
    let mut objects = store(cached);
    objects.debug_dir = Some("/root/.debug".to_string());

    let resolved = objects.unwind_object_path("/tmp/stale-app", Some(&[0xaa, 0xbb, 0xcc]));

    assert_eq!(resolved, cached);
    assert_eq!(
        objects.unwind_object_path("/tmp/stale-app", Some(&[0xaa, 0xbb, 0xcd])),
        "/tmp/stale-app"
    );
}

#[test]
fn fork_clone_copies_maps_without_preloading_unwind_modules_like_perf() {
    let path = "/bin/current";
    let objects = store(path);
    let mut accumulator = accumulator();
    apply(&mut accumulator, mmap(0, 0x1000_0000, 0, path), &objects);
    apply(
        &mut accumulator,
        ParsedRecord::Fork(ForkRecord {
            pid: 22,
            ppid: 11,
            tid: 22,
            ptid: 11,
            time: 99,
            clone_maps: true,
        }),
        &objects,
    );

    assert!(accumulator.mmap_table().user_mapping_for_pid_ip(22, 0).is_some());
    assert!(accumulator.unwind_state(22).is_none());
}

#[test]
fn sample_unwind_loads_sampled_ip_module_like_perf_report_module() {
    let path = "/bin/current";
    let objects = store(path);
    let mut accumulator = accumulator();
    apply(&mut accumulator, mmap(0x1000, 0x1000_0000, 0, path), &objects);

    accumulator.ensure_unwind_mapping_for_ip(Some(11), 0x2000, &objects);

    assert!(accumulator.has_loaded_unwind_mapping_for_ip(Some(11), 0x2000, &objects));
}

#[test]
fn fork_exec_removes_existing_child_unwinder_like_perf_thread_replacement() {
    let path = "/bin/current";
    let objects = store(path);
    let mut accumulator = accumulator();
    apply(&mut accumulator, mmap(0x1000, 0x1000_0000, 0, path), &objects);
    accumulator.ensure_unwind_mapping_for_ip(Some(11), 0x2000, &objects);
    assert!(accumulator.unwind_state(11).is_some());

    apply(
        &mut accumulator,
        ParsedRecord::Fork(ForkRecord {
            pid: 11,
            tid: 11,
            ppid: 10,
            ptid: 10,
            time: 0,
            clone_maps: false,
        }),
        &objects,
    );

    assert!(accumulator.unwind_state(11).is_none());
}

#[test]
fn overlapping_mmap_insert_invalidates_stale_unwind_modules_like_perf_dwfl() {
    let path = "/bin/current";
    let objects = store(path);
    let mut accumulator = accumulator();
    apply(&mut accumulator, mmap(0x5555_5555_4000, 0x002b_e000, 0, path), &objects);
    accumulator.ensure_unwind_mapping_for_ip(Some(11), 0x5555_5555_5000, &objects);
    assert!(accumulator.unwind_state(11).is_some());

    apply(
        &mut accumulator,
        ParsedRecord::Mmap2(Mmap2Record {
            pid: 11,
            tid: 11,
            start: 0x5555_555d_6000,
            len: 0x0022_b000,
            pgoff: 0x0008_1000,
            major: 0,
            minor: 0,
            inode: 0,
            inode_generation: 0,
            prot: 4,
            flags: 2,
            path: path.to_string(),
        }),
        &objects,
    );

    assert!(
        accumulator.unwind_state(11).is_none(),
        "a mapping that takes the room of another takes its unwinder away"
    );
    accumulator.ensure_unwind_mapping_for_ip(Some(11), 0x5555_5567_66de, &objects);
    let state = accumulator.unwind_state(11).expect("reloaded state");
    assert!(state.has_reported_module_for_ip(0x5555_5567_66de));
}

#[test]
fn object_unwind_reports_callback_frame_modules_like_perf_libdw() {
    let path = "/bin/current";
    let objects = store(path);
    let mut table = MmapTable::default();
    for start in [0x1000, 0x2000_0000] {
        table.insert_mmap(MmapRecord {
            pid: 11,
            tid: 11,
            start,
            len: 0x1000_0000,
            pgoff: 0,
            path: path.to_string(),
        });
    }

    let mut state = PidUnwindState::with_arch(PerfArch::X86_64);
    let loaded = state.report_modules_for_frames(&table, 11, &[0x1000, 0x2000_1000], &objects);

    assert!(loaded);
    assert!(state.has_reported_module_for_ip(0x2000_1000));
}

#[test]
fn callback_module_reporting_does_not_probe_next_ip_like_perf_libdw_entry() {
    let path = "/bin/current";
    let objects = store(path);
    let mut table = MmapTable::default();
    table.insert_mmap(MmapRecord {
        pid: 11,
        tid: 11,
        start: 0x1000,
        len: 0x1000_0000,
        pgoff: 0,
        path: path.to_string(),
    });

    let mut state = PidUnwindState::with_arch(PerfArch::X86_64);
    let loaded = state.report_modules_for_frames(&table, 11, &[0x0fff], &objects);

    assert!(!loaded);
    assert!(!state.has_reported_module_for_ip(0x1000));
}

#[test]
fn object_mapping_range_matches_dwfl_report_elf_load_span() {
    let image = image();
    let start = 0x5555_5555_5000 + TEXT;
    let mut unwinder = FramehopUnwinder::new();

    assert!(unwinder
        .add_object_mapping("/bin/current", &image, start, TEXT_SIZE, TEXT)
        .expect("add object mapping"));

    assert_eq!(
        unwinder.module_ranges(),
        vec![AddressRange { start: 0x5555_5555_5000, end: 0x5555_5555_5000 + LOAD_SIZE }]
    );
    assert!(unwinder.has_reported_module_for_ip(0x5555_5555_5000));
    assert!(!unwinder.has_reported_module_for_ip(0x5555_5555_5000 + LOAD_SIZE));
    assert_eq!(unwinder.module_count(), 1);
}

#[test]
fn jitted_object_mapping_uses_map_start_as_dwfl_base_like_perf_libdw() {
    let image = image();
    let start = 0x7000_0000_0000;
    let mut unwinder = FramehopUnwinder::new();

    assert!(unwinder
        .add_object_mapping("/tmp/jitted-pyroclast-test-1.so", &image, start, 0x1000_0000, 0x2000)
        .expect("add jitted object mapping"));

    assert_eq!(
        unwinder.module_ranges(),
        vec![AddressRange { start, end: start + LOAD_SIZE }]
    );
}

#[test]
fn frame_descriptions_cover_the_text() {
    let ranges = object_unwind_ranges(&image(), 0x10_0000);
    assert_eq!(
        ranges,
        vec![AddressRange { start: 0x10_0000 + TEXT, end: 0x10_0000 + TEXT + TEXT_SIZE }]
    );
    assert!(object_unwind_ranges(b"no object", 0).is_empty());
}

#[test]
fn a_stack_is_unwound_by_the_frame_descriptions_of_its_object() {
    let base = 0x5555_5555_5000_u64;
    let mut unwinder = FramehopUnwinder::new();
    unwinder
        .add_object_mapping("/bin/current", &image(), base + TEXT, TEXT_SIZE, TEXT)
        .expect("add object mapping");
    assert!(unwinder.has_unwind_info_for_ip(base + TEXT));
    assert!(!unwinder.has_unwind_info_for_ip(base + TEXT + TEXT_SIZE));
    // The mapped bytes of the object can be read, too.
    assert_eq!(
        unwinder.read_process_u64(base),
        Some(u64::from_le_bytes([0x7f, b'E', b'L', b'F', 2, 1, 1, 0]))
    );

    let mut stack = vec![0_u8; 0x40];
    stack[0..8].copy_from_slice(&(base + TEXT + 0x21).to_le_bytes());
    stack[8..16].copy_from_slice(&(base + TEXT + 0x41).to_le_bytes());
    let mut registers = [0; 16];
    registers[7] = 0x7fff_0000;
    let regs = PerfX86_64Regs { ip: base + TEXT + 4, sp: 0x7fff_0000, bp: 0, registers };
    let frames = unwinder.unwind_stack(PerfUserRegs::X86_64(regs), &stack, 3);

    assert_eq!(
        frames,
        vec![base + TEXT + 4, base + TEXT + 0x20, base + TEXT + 0x40]
    );
}

#[test]
fn an_object_is_not_loaded_twice_and_not_over_another() {
    let image = image();
    let mut unwinder = FramehopUnwinder::new();
    assert!(unwinder.add_object_mapping("/a", &image, 0x10_0000, 0x1000, 0).expect("first"));
    assert!(!unwinder.add_object_mapping("/b", &image, 0x20_0000, 0x1000, 0).expect("second"));
    assert_eq!(unwinder.module_count(), 1);
    assert!(unwinder.has_rejected_mapping_for_ip(0x20_0000));
    assert!(unwinder.add_object_mapping("/c", b"no object", 0x9000_0000, 0x1000, 0).is_err());
}

#[test]
fn ranges_that_touch_are_joined() {
    let range = |start: u64, end: u64| AddressRange { start, end };
    assert_eq!(
        normalize_ranges(vec![range(8, 9), range(1, 3), range(3, 5), range(2, 4)]),
        vec![range(1, 5), range(8, 9)]
    );
}
