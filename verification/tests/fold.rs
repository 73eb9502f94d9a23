use framehop::x86_64::Reg;
use pyroclast::perfdata::accumulate::{sample_fold_count, FoldAccumulator, FoldOptions};
use pyroclast::perfdata::fold::prefetch_symbols;
use pyroclast::perfdata::fold_counts::{fold_count_hash, write_fold_counts, FoldCounts};
use pyroclast::perfdata::layouts::{
    event_desc_name_for_attr, parse_event_desc_entries, EventDescEntry, SampleLayouts,
};
use pyroclast::perfdata::mappings::MmapTable;
use pyroclast::perfdata::raw_stack::RawStackAccumulator;
use pyroclast::perfdata::records::{MmapRecord, ParsedRecord};
use pyroclast::perfdata::render::{
    append_cached_inferno_perf_folded_label_to_buffers,
    append_cached_inferno_perf_raw_function_to_buffers, extend_symbol_mappings_for_stack,
    FoldFrameResolver, FoldedRenderBuffers, SymbolPrefetchBatches,
};
use pyroclast::perfdata::script::write_script_frames_for_stack;
use pyroclast::perfdata::unwind::{
    PerfAarch64Regs, PerfArch, PerfUserRegs, PerfX86_64Regs, UserStackUnwindResult,
    UserStackUnwinder,
};
use pyroclast::perfdata::unwinding::{
    choose_user_unwind_source, libdw_arch_fallback_after_empty_object_unwind,
    perf_accepted_object_unwind_frames,
    should_use_libdw_arch_fallback_after_empty_object_unwind,
    truncate_syscall_return_unwind_after_first_executable_frame,
    truncate_user_unwind_at_first_unmapped_frame, unwind_user_stack_with_diagnostics, FoldFrame,
    InitialIpMappingState, ObjectStore, ObjectUnwindInitialFramePolicy, SampleCallchainPresence,
    SampleCallchainState, UserUnwindContext, UserUnwindSource,
};
use pyroclast::symbols::{ResolvedSymbolFrames, SymbolTable};
use pyroclast::tables::NamedBytes;

// The count of events and the size of their attributes, then for each event the attribute, the
// count of its numbers, its name padded to a multiple of 64 bytes, and its numbers.
fn event_desc_payload(events: &[(&str, &[u64])], attr_sz: usize) -> Vec<u8> {
    let mut payload = Vec::new();
    payload.extend((events.len() as u32).to_le_bytes());
    payload.extend((attr_sz as u32).to_le_bytes());
    for (name, ids) in events {
        payload.extend(std::iter::repeat(0_u8).take(attr_sz));
        payload.extend((ids.len() as u32).to_le_bytes());
        let aligned = (name.len() + 1).div_ceil(64) * 64;
        payload.extend((aligned as u32).to_le_bytes());
        let mut name_bytes = name.as_bytes().to_vec();
        name_bytes.resize(aligned, 0);
        payload.extend(name_bytes);
        for id in *ids {
            payload.extend(id.to_le_bytes());
        }
    }
    payload
}

#[derive(Default)]
struct FakeUserStackUnwinder {
    calls: usize,
    result: UserStackUnwindResult,
}

impl UserStackUnwinder for FakeUserStackUnwinder {
    fn unwind_user_stack(
        &mut self,
        _regs: PerfUserRegs,
        _stack: &[u8],
        _max_frames: usize,
    ) -> UserStackUnwindResult {
        self.calls += 1;
        self.result.clone()
    }
}

fn static_symbols(
    mmap_table: &MmapTable,
    pid: u32,
    ip: u64,
    frames: Vec<String>,
    has_base_symbol: bool,
) -> SymbolTable {
    let mapping = mmap_table.resolve_ref(pid, ip).expect("mapping");
    let mut symbols = SymbolTable::new();
    for base in [false, true] {
        symbols.insert(
            mapping.symbol_source_id,
            mapping.relative_address,
            base,
            ResolvedSymbolFrames { frames: frames.clone(), has_base_symbol },
        );
    }
    symbols
}

fn insert_test_mapping(mmap_table: &mut MmapTable, pid: u32, start: u64, len: u64, path: &str) {
    mmap_table.insert_mmap(MmapRecord {
        pid,
        tid: pid,
        start,
        len,
        pgoff: 0,
        path: path.to_string(),
    });
}

fn test_x86_regs(ip: u64) -> PerfX86_64Regs {
    PerfX86_64Regs {
        ip,
        sp: 0x2000,
        bp: 0x3000,
        registers: [0; 16],
    }
}

fn test_regs(ip: u64) -> PerfUserRegs {
    PerfUserRegs::X86_64(test_x86_regs(ip))
}

#[test]
fn parses_event_desc_names_verbatim_like_perf_read_event_desc() {
    let payload = event_desc_payload(&[("task-clock:ppp", &[230, 231, 242])], 136);
    let entries = parse_event_desc_entries(&payload);
    assert_eq!(
        entries,
        vec![EventDescEntry {
            name: "task-clock:ppp".to_string(),
            ids: vec![230, 231, 242],
        }]
    );
}

#[test]
fn event_desc_name_matches_attr_by_shared_id() {
    let entries = vec![
        EventDescEntry {
            name: "cycles:ppp".to_string(),
            ids: vec![10, 11],
        },
        EventDescEntry {
            name: "task-clock:ppp".to_string(),
            ids: vec![20, 21],
        },
    ];
    assert_eq!(
        event_desc_name_for_attr(0, Some(&vec![21]), &entries),
        Some("task-clock:ppp".to_string())
    );
}

#[test]
fn event_desc_name_falls_back_to_event_index_without_ids() {
    let entries = vec![EventDescEntry {
        name: "task-clock:ppp".to_string(),
        ids: Vec::new(),
    }];
    assert_eq!(
        event_desc_name_for_attr(0, None, &entries),
        Some("task-clock:ppp".to_string())
    );
}

#[test]
fn object_unwind_diagnostics_use_pluggable_user_stack_unwinder() {
    let mut unwinder = FakeUserStackUnwinder {
        result: UserStackUnwindResult {
            accepted_frames: vec![0x1111, 0x2222],
            framehop_frame_count: 2,
        },
        ..FakeUserStackUnwinder::default()
    };

    let result = unwind_user_stack_with_diagnostics(
        &mut unwinder,
        test_regs(0x1111),
        &[0; 16],
        8,
    );

    assert_eq!(unwinder.calls, 1);
    assert_eq!(result.accepted_frames, vec![0x1111, 0x2222]);
}

#[test]
fn object_unwind_keeps_single_current_ip_callback_like_perf_libdw() {
    assert_eq!(
        perf_accepted_object_unwind_frames(
            &test_regs(0x1000),
            SampleCallchainState::Other {
                has_callchain: true,
                has_frames: false,
            },
            ObjectUnwindInitialFramePolicy::DropSyntheticCurrentIp,
            vec![0x1000],
        ),
        vec![0x1000]
    );
}

#[test]
fn object_unwind_keeps_short_fallback_stack_without_callchain_like_perf_libdw() {
    assert_eq!(
        perf_accepted_object_unwind_frames(
            &test_regs(0x1000),
            SampleCallchainState::Other {
                has_callchain: false,
                has_frames: false,
            },
            ObjectUnwindInitialFramePolicy::DropSyntheticCurrentIp,
            vec![0x1000, 0x1100],
        ),
        vec![0x1000, 0x1100]
    );
}

#[test]
fn object_unwind_acceptance_does_not_invent_sample_ip_for_empty_libdw_callbacks() {
    let mut regs = test_x86_regs(0x5555_556f_bbbb);
    regs.sp = 0x7fff_ffff_7790;
    regs.bp = 0x76c8;
    assert_eq!(
        perf_accepted_object_unwind_frames(
            &PerfUserRegs::X86_64(regs),
            SampleCallchainState::Other {
                has_callchain: true,
                has_frames: false,
            },
            ObjectUnwindInitialFramePolicy::DropSyntheticCurrentIp,
            Vec::new(),
        ),
        Vec::<u64>::new()
    );
}

#[test]
fn fold_counts_coalesce_duplicate_rendered_lines() {
    let mut counts = FoldCounts::new();

    counts.add_rendered("alpha;beta", 2);
    counts.add_rendered("alpha;beta", 3);
    counts.add_rendered("alpha;gamma", 5);

    assert_eq!(counts.entries.len(), 2);

    let alpha_beta = counts
        .find_entry_id(fold_count_hash(b"alpha;beta"), b"alpha;beta")
        .expect("alpha beta entry");
    let alpha_gamma = counts
        .find_entry_id(fold_count_hash(b"alpha;gamma"), b"alpha;gamma")
        .expect("alpha gamma entry");

    assert_eq!(counts.entries[alpha_beta].count, 5);
    assert_eq!(counts.entries[alpha_gamma].count, 5);
}

#[test]
fn write_fold_counts_matches_string_sort_order() {
    let mut counts = FoldCounts::new();
    let mut expected = vec![
        ("zeta;leaf".to_string(), 4_u64),
        ("alpha;leaf".to_string(), 2_u64),
        ("éclair;leaf".to_string(), 3_u64),
        ("beta;leaf".to_string(), 1_u64),
    ];

    for (callchain, count) in &expected {
        counts.add_rendered(callchain, *count);
    }

    let mut written = Vec::new();
    write_fold_counts(counts, &mut written).expect("write fold counts");

    expected.sort_unstable_by(|left, right| left.0.cmp(&right.0));
    let expected =
        expected
            .into_iter()
            .fold(String::new(), |mut rendered, (callchain, count)| {
                rendered.push_str(&callchain);
                rendered.push(' ');
                rendered.push_str(&count.to_string());
                rendered.push('\n');
                rendered
            });

    assert_eq!(String::from_utf8(written).expect("utf-8"), expected);
}

#[test]
fn fold_counts_round_trip_many_large_entries_after_growth() {
    let mut counts = FoldCounts::new();
    let mut expected = Vec::new();

    for index in 0..192_u64 {
        let callchain = format!("root;frame-{index:03};{}", "x".repeat(2048));
        counts.add_rendered(&callchain, index + 1);
        expected.push((callchain, index + 1));
    }

    counts.add_rendered(&expected[17].0, 5);
    expected[17].1 += 5;

    let mut written = Vec::new();
    write_fold_counts(counts, &mut written).expect("write fold counts");

    expected.sort_unstable_by(|left, right| left.0.cmp(&right.0));
    let expected =
        expected
            .into_iter()
            .fold(String::new(), |mut rendered, (callchain, count)| {
                rendered.push_str(&callchain);
                rendered.push(' ');
                rendered.push_str(&count.to_string());
                rendered.push('\n');
                rendered
            });

    assert_eq!(String::from_utf8(written).expect("utf-8"), expected);
}

#[test]
fn inferno_perf_render_cache_keeps_raw_functions_separate_from_folded_labels() {
    let mut buffers = FoldedRenderBuffers::new();

    append_cached_inferno_perf_folded_label_to_buffers(&mut buffers, "handler+0x2a");
    assert_eq!(buffers.rendered, "handler+0x2a");

    buffers.rendered.clear();
    append_cached_inferno_perf_raw_function_to_buffers(&mut buffers, "handler+0x2a");

    assert_eq!(buffers.rendered, "handler");
}

#[test]
fn user_unwind_source_attempts_recorded_ip_without_loaded_unwind_module_like_perf_libdw() {
    assert_eq!(
        choose_user_unwind_source(UserUnwindContext {
            sample_callchain: SampleCallchainPresence::Present,
            callchain: SampleCallchainState::Other {
                has_callchain: true,
                has_frames: true,
            },
            initial_ip_mapping: InitialIpMappingState::RecordedMappingMissing,
            initial_ip_is_dso: false,
            module_count: 1,
            frame_pointer_at_or_above_stack_pointer: false,
            syscall_return_state: false,
        }),
        UserUnwindSource::Object
    );
}

#[test]
fn user_unwind_source_uses_libdw_for_captured_stack_without_modules_like_perf() {
    assert_eq!(
        choose_user_unwind_source(UserUnwindContext {
            sample_callchain: SampleCallchainPresence::Present,
            callchain: SampleCallchainState::Other {
                has_callchain: true,
                has_frames: true,
            },
            initial_ip_mapping: InitialIpMappingState::NoRecordedMapping,
            initial_ip_is_dso: false,
            module_count: 0,
            frame_pointer_at_or_above_stack_pointer: false,
            syscall_return_state: false,
        }),
        UserUnwindSource::Object
    );
    assert_eq!(
        choose_user_unwind_source(UserUnwindContext {
            sample_callchain: SampleCallchainPresence::Present,
            callchain: SampleCallchainState::Other {
                has_callchain: true,
                has_frames: false,
            },
            initial_ip_mapping: InitialIpMappingState::NoRecordedMapping,
            initial_ip_is_dso: false,
            module_count: 0,
            frame_pointer_at_or_above_stack_pointer: false,
            syscall_return_state: false,
        }),
        UserUnwindSource::Object
    );
    assert_eq!(
        choose_user_unwind_source(UserUnwindContext {
            sample_callchain: SampleCallchainPresence::Present,
            callchain: SampleCallchainState::Other {
                has_callchain: true,
                has_frames: true,
            },
            initial_ip_mapping: InitialIpMappingState::RecordedMappingLoaded,
            initial_ip_is_dso: false,
            module_count: 0,
            frame_pointer_at_or_above_stack_pointer: false,
            syscall_return_state: false,
        }),
        UserUnwindSource::Object
    );
}

#[test]
fn user_unwind_source_uses_object_unwinder_with_callchain_field_like_perf_script() {
    assert_eq!(
        choose_user_unwind_source(UserUnwindContext {
            sample_callchain: SampleCallchainPresence::Present,
            callchain: SampleCallchainState::Other {
                has_callchain: true,
                has_frames: false,
            },
            initial_ip_mapping: InitialIpMappingState::NoRecordedMapping,
            initial_ip_is_dso: false,
            module_count: 1,
            frame_pointer_at_or_above_stack_pointer: false,
            syscall_return_state: false,
        }),
        UserUnwindSource::Object
    );
}

#[test]
fn user_unwind_source_uses_object_unwinder_for_nonempty_callchain_after_modules_are_loaded() {
    assert_eq!(
        choose_user_unwind_source(UserUnwindContext {
            sample_callchain: SampleCallchainPresence::Present,
            callchain: SampleCallchainState::Other {
                has_callchain: true,
                has_frames: true,
            },
            initial_ip_mapping: InitialIpMappingState::NoRecordedMapping,
            initial_ip_is_dso: false,
            module_count: 1,
            frame_pointer_at_or_above_stack_pointer: false,
            syscall_return_state: false,
        }),
        UserUnwindSource::Object
    );
}

#[test]
fn user_unwind_source_skips_object_unwinder_without_sample_callchain_like_perf_script() {
    assert_eq!(
        choose_user_unwind_source(UserUnwindContext {
            sample_callchain: SampleCallchainPresence::Absent,
            callchain: SampleCallchainState::Other {
                has_callchain: false,
                has_frames: false,
            },
            initial_ip_mapping: InitialIpMappingState::RecordedMappingLoaded,
            initial_ip_is_dso: true,
            module_count: 1,
            frame_pointer_at_or_above_stack_pointer: false,
            syscall_return_state: false,
        }),
        UserUnwindSource::Skip
    );
}

#[test]
fn user_unwind_source_uses_object_unwind_for_kernel_callchain_like_perf_libdw() {
    assert_eq!(
        choose_user_unwind_source(UserUnwindContext {
            sample_callchain: SampleCallchainPresence::Present,
            callchain: SampleCallchainState::KernelWithCallchain,
            initial_ip_mapping: InitialIpMappingState::NoRecordedMapping,
            initial_ip_is_dso: false,
            module_count: 1,
            frame_pointer_at_or_above_stack_pointer: false,
            syscall_return_state: false,
        }),
        UserUnwindSource::Object
    );
}

#[test]
fn user_unwind_source_uses_object_unwind_for_syscall_return_like_perf_libdw() {
    assert_eq!(
        choose_user_unwind_source(UserUnwindContext {
            sample_callchain: SampleCallchainPresence::Present,
            callchain: SampleCallchainState::KernelWithCallchain,
            initial_ip_mapping: InitialIpMappingState::NoRecordedMapping,
            initial_ip_is_dso: false,
            module_count: 1,
            frame_pointer_at_or_above_stack_pointer: false,
            syscall_return_state: true,
        }),
        UserUnwindSource::Object
    );
}

#[test]
fn user_unwind_source_uses_object_unwind_for_valid_kernel_bp_like_perf_script() {
    assert_eq!(
        choose_user_unwind_source(UserUnwindContext {
            sample_callchain: SampleCallchainPresence::Present,
            callchain: SampleCallchainState::KernelWithCallchain,
            initial_ip_mapping: InitialIpMappingState::NoRecordedMapping,
            initial_ip_is_dso: false,
            module_count: 1,
            frame_pointer_at_or_above_stack_pointer: true,
            syscall_return_state: false,
        }),
        UserUnwindSource::Object
    );
}

#[test]
fn user_unwind_source_uses_object_unwind_for_kernel_sample_without_callchain_like_perf_libdw() {
    assert_eq!(
        choose_user_unwind_source(UserUnwindContext {
            sample_callchain: SampleCallchainPresence::Present,
            callchain: SampleCallchainState::KernelWithoutCallchain,
            initial_ip_mapping: InitialIpMappingState::RecordedMappingLoaded,
            initial_ip_is_dso: true,
            module_count: 1,
            frame_pointer_at_or_above_stack_pointer: false,
            syscall_return_state: false,
        }),
        UserUnwindSource::Object
    );
}

#[test]
fn user_unwind_source_attempts_kernel_sample_without_callchain_from_executable_like_perf_libdw() {
    assert_eq!(
        choose_user_unwind_source(UserUnwindContext {
            sample_callchain: SampleCallchainPresence::Present,
            callchain: SampleCallchainState::KernelWithoutCallchain,
            initial_ip_mapping: InitialIpMappingState::RecordedMappingLoaded,
            initial_ip_is_dso: false,
            module_count: 1,
            frame_pointer_at_or_above_stack_pointer: false,
            syscall_return_state: false,
        }),
        UserUnwindSource::Object
    );
}

#[test]
fn user_unwind_source_uses_object_unwind_for_kernel_samples_with_user_frame_like_perf_script() {
    assert_eq!(
        choose_user_unwind_source(UserUnwindContext {
            sample_callchain: SampleCallchainPresence::Present,
            callchain: SampleCallchainState::KernelWithUserFrame,
            initial_ip_mapping: InitialIpMappingState::RecordedMappingLoaded,
            initial_ip_is_dso: false,
            module_count: 1,
            frame_pointer_at_or_above_stack_pointer: false,
            syscall_return_state: false,
        }),
        UserUnwindSource::Object
    );
}

#[test]
fn object_unwind_keeps_syscall_return_callers_like_perf_libdw() {
    let regs = PerfX86_64Regs {
        ip: 0x7fff_f7ea_3f4b,
        sp: 0x7fff_ffff_9928,
        bp: 3,
        registers: {
            let mut registers = [0; 16];
            registers[Reg::RCX as usize] = 0x7fff_f7ea_3f4b;
            registers[Reg::R11 as usize] = 0x206;
            registers
        },
    };

    assert_eq!(
        perf_accepted_object_unwind_frames(
            &PerfUserRegs::X86_64(regs),
            SampleCallchainState::KernelWithCallchain,
            ObjectUnwindInitialFramePolicy::DropSyntheticCurrentIp,
            vec![0x7fff_f7ea_3f4b, 0x5555_5578_8ba4, 0x5555_5578_8ba5],
        ),
        vec![0x7fff_f7ea_3f4b, 0x5555_5578_8ba4, 0x5555_5578_8ba5]
    );
}

#[test]
fn syscall_return_kernel_unwind_keeps_all_accepted_frames_like_perf_libdw() {
    let mut mmap_table = MmapTable::default();
    insert_test_mapping(
        &mut mmap_table,
        11,
        0x7fff_f7d8_2000,
        0x0020_b000,
        "/nix/store/glibc/lib/libc.so.6",
    );
    insert_test_mapping(
        &mut mmap_table,
        11,
        0x5555_5555_4000,
        0x0040_0000,
        "/home/mjc/projects/pyroclast/target/profiling/pyroclast",
    );

    let frames = truncate_syscall_return_unwind_after_first_executable_frame(
        vec![
            0x7fff_f7e1_c03e,
            0x7fff_f7e1_c083,
            0x7fff_f7e9_9d7d,
            0x5555_557d_c17e,
            0x5555_557f_587a,
            0x5555_5577_6369,
        ],
        Some(11),
        &mmap_table,
        UserUnwindContext {
            sample_callchain: SampleCallchainPresence::Present,
            callchain: SampleCallchainState::KernelWithCallchain,
            initial_ip_mapping: InitialIpMappingState::RecordedMappingLoaded,
            initial_ip_is_dso: true,
            module_count: 2,
            frame_pointer_at_or_above_stack_pointer: true,
            syscall_return_state: true,
        },
    );

    assert_eq!(
        frames,
        vec![
            0x7fff_f7e1_c03e,
            0x7fff_f7e1_c083,
            0x7fff_f7e9_9d7d,
            0x5555_557d_c17e,
            0x5555_557f_587a,
            0x5555_5577_6369,
        ]
    );
}

#[test]
fn non_syscall_kernel_unwind_keeps_executable_tail() {
    let mut mmap_table = MmapTable::default();
    insert_test_mapping(
        &mut mmap_table,
        11,
        0x7fff_f7d8_2000,
        0x0020_b000,
        "/nix/store/glibc/lib/libc.so.6",
    );
    insert_test_mapping(
        &mut mmap_table,
        11,
        0x5555_5555_4000,
        0x0040_0000,
        "/home/mjc/projects/pyroclast/target/profiling/pyroclast",
    );
    let frames = vec![0x7fff_f7e1_c03e, 0x5555_557d_c17e, 0x5555_557f_587a];

    let actual = truncate_syscall_return_unwind_after_first_executable_frame(
        frames.clone(),
        Some(11),
        &mmap_table,
        UserUnwindContext {
            sample_callchain: SampleCallchainPresence::Present,
            callchain: SampleCallchainState::KernelWithCallchain,
            initial_ip_mapping: InitialIpMappingState::RecordedMappingLoaded,
            initial_ip_is_dso: true,
            module_count: 2,
            frame_pointer_at_or_above_stack_pointer: true,
            syscall_return_state: false,
        },
    );

    assert_eq!(actual, frames);
}

#[test]
fn user_unwind_source_attempts_libdw_for_kernel_callchain_without_modules_like_perf_script() {
    assert_eq!(
        choose_user_unwind_source(UserUnwindContext {
            sample_callchain: SampleCallchainPresence::Present,
            callchain: SampleCallchainState::KernelWithCallchain,
            initial_ip_mapping: InitialIpMappingState::NoRecordedMapping,
            initial_ip_is_dso: false,
            module_count: 0,
            frame_pointer_at_or_above_stack_pointer: false,
            syscall_return_state: false,
        }),
        UserUnwindSource::Object
    );
}

#[test]
fn user_unwind_source_attempts_libdw_for_syscall_return_without_modules_like_perf_script() {
    assert_eq!(
        choose_user_unwind_source(UserUnwindContext {
            sample_callchain: SampleCallchainPresence::Present,
            callchain: SampleCallchainState::KernelWithCallchain,
            initial_ip_mapping: InitialIpMappingState::NoRecordedMapping,
            initial_ip_is_dso: false,
            module_count: 0,
            frame_pointer_at_or_above_stack_pointer: false,
            syscall_return_state: true,
        }),
        UserUnwindSource::Object
    );
}

#[test]
fn user_unwind_source_uses_libdw_ebl_fallback_for_valid_kernel_bp_like_perf_script() {
    assert_eq!(
        choose_user_unwind_source(UserUnwindContext {
            sample_callchain: SampleCallchainPresence::Present,
            callchain: SampleCallchainState::KernelWithCallchain,
            initial_ip_mapping: InitialIpMappingState::NoRecordedMapping,
            initial_ip_is_dso: false,
            module_count: 0,
            frame_pointer_at_or_above_stack_pointer: true,
            syscall_return_state: false,
        }),
        UserUnwindSource::Object
    );
}

#[test]
fn object_unwind_acceptance_keeps_user_mode_executable_frames_like_libdw_entry() {
    let regs = PerfX86_64Regs {
        ip: 0x5555_5578_c601,
        sp: 0x7fff_ffff_8cf8,
        bp: 0x4002,
        registers: [0; 16],
    };

    assert_eq!(
        perf_accepted_object_unwind_frames(
            &PerfUserRegs::X86_64(regs),
            SampleCallchainState::Other {
                has_callchain: true,
                has_frames: false,
            },
            ObjectUnwindInitialFramePolicy::DropSyntheticCurrentIp,
            vec![0x5555_5578_c601, 0x5555_5579_6e23],
        ),
        vec![0x5555_5578_c601, 0x5555_5579_6e23]
    );
}

#[test]
fn object_unwind_keeps_single_dso_leaf_with_empty_callchain_like_perf_libdw() {
    let regs = PerfX86_64Regs {
        ip: 0x7fff_f7e2_ecb7,
        sp: 0x7fff_ffff_8cf8,
        bp: 0x4002,
        registers: [0; 16],
    };

    assert_eq!(
        perf_accepted_object_unwind_frames(
            &PerfUserRegs::X86_64(regs),
            SampleCallchainState::Other {
                has_callchain: true,
                has_frames: false,
            },
            ObjectUnwindInitialFramePolicy::KeepDsoLeaf,
            vec![0x7fff_f7e2_ecb7],
        ),
        vec![0x7fff_f7e2_ecb7]
    );
}

#[test]
fn object_unwind_acceptance_keeps_short_dso_tail_like_libdw_entry() {
    let regs = PerfX86_64Regs {
        ip: 0x7fff_f7f0_277b,
        sp: 0x7fff_ffff_8cf8,
        bp: 0x4002,
        registers: [0; 16],
    };

    assert_eq!(
        perf_accepted_object_unwind_frames(
            &PerfUserRegs::X86_64(regs),
            SampleCallchainState::Other {
                has_callchain: true,
                has_frames: false,
            },
            ObjectUnwindInitialFramePolicy::KeepDsoLeaf,
            vec![0x7fff_f7f0_277b, 0x5555_5579_6e23, 0x5555_5579_6e23],
        ),
        vec![0x7fff_f7f0_277b, 0x5555_5579_6e23, 0x5555_5579_6e23]
    );
}

#[test]
fn object_unwind_keeps_user_mode_libdw_tail_for_empty_recorded_callchain() {
    let regs = PerfX86_64Regs {
        ip: 0x7fff_f7e5_7982,
        sp: 0x7fff_ffff_a1e0,
        bp: 0x7fff_ffff_a220,
        registers: [0; 16],
    };

    assert_eq!(
        perf_accepted_object_unwind_frames(
            &PerfUserRegs::X86_64(regs),
            SampleCallchainState::Other {
                has_callchain: true,
                has_frames: false,
            },
            ObjectUnwindInitialFramePolicy::KeepDsoLeaf,
            vec![
                0x7fff_f7e5_7982,
                0x5555_555a_019e,
                0x5555_5559_21a3,
                0x5555_5559_6488,
            ],
        ),
        vec![
            0x7fff_f7e5_7982,
            0x5555_555a_019e,
            0x5555_5559_21a3,
            0x5555_5559_6488,
        ]
    );
}

#[test]
fn object_unwind_acceptance_keeps_two_frame_dso_tail_like_libdw_entry() {
    let regs = PerfX86_64Regs {
        ip: 0x7fff_f7f0_277b,
        sp: 0x7fff_ffff_8938,
        bp: 0x7fff_ffff_9650,
        registers: [0; 16],
    };

    assert_eq!(
        perf_accepted_object_unwind_frames(
            &PerfUserRegs::X86_64(regs),
            SampleCallchainState::Other {
                has_callchain: true,
                has_frames: false,
            },
            ObjectUnwindInitialFramePolicy::KeepDsoLeaf,
            vec![0x7fff_f7f0_277b, 0x5555_556b_ab79],
        ),
        vec![0x7fff_f7f0_277b, 0x5555_556b_ab79]
    );
}

#[test]
fn empty_object_unwind_uses_arch_fallback_like_libdw_ebl_unwind() {
    let regs = PerfX86_64Regs {
        ip: 0x7fff_f7e1_c03e,
        sp: 0x7fff_ffff_9250,
        bp: 0x7fff_ffff_9260,
        registers: {
            let mut registers = [0; 16];
            registers[Reg::RSP as usize] = 0x7fff_ffff_9250;
            registers[Reg::RBP as usize] = 0x7fff_ffff_9260;
            registers
        },
    };
    let mut stack = vec![0; 0x40];
    stack[0x10..0x18].copy_from_slice(&0x7fff_ffff_9270_u64.to_le_bytes());
    stack[0x18..0x20].copy_from_slice(&0x7fff_f7e1_c084_u64.to_le_bytes());
    stack[0x20..0x28].copy_from_slice(&0_u64.to_le_bytes());
    stack[0x28..0x30].copy_from_slice(&0x7fff_f7e9_9d7e_u64.to_le_bytes());

    assert_eq!(
        libdw_arch_fallback_after_empty_object_unwind(
            Vec::new(),
            &PerfUserRegs::X86_64(regs),
            &stack,
            true,
        ),
        vec![0x7fff_f7e1_c03e, 0x7fff_f7e1_c083, 0x7fff_f7e9_9d7d]
    );
}

#[test]
fn empty_object_unwind_arch_fallback_does_not_require_reported_mapping_like_elfutils() {
    let regs = PerfX86_64Regs {
        ip: 0x4000,
        sp: 0x8000,
        bp: 0x8000,
        registers: [0; 16],
    };
    let stack = 0x5000_u64.to_le_bytes();

    assert_eq!(
        libdw_arch_fallback_after_empty_object_unwind(
            Vec::new(),
            &PerfUserRegs::X86_64(regs),
            &stack,
            false,
        ),
        Vec::<u64>::new()
    );

    let matching_context = UserUnwindContext {
        sample_callchain: SampleCallchainPresence::Present,
        callchain: SampleCallchainState::KernelWithCallchain,
        initial_ip_mapping: InitialIpMappingState::RecordedMappingLoaded,
        initial_ip_is_dso: true,
        module_count: 1,
        frame_pointer_at_or_above_stack_pointer: true,
        syscall_return_state: true,
    };
    assert!(
        should_use_libdw_arch_fallback_after_empty_object_unwind(matching_context, true)
    );

    assert!(
        should_use_libdw_arch_fallback_after_empty_object_unwind(
            UserUnwindContext {
                initial_ip_mapping: InitialIpMappingState::NoRecordedMapping,
                ..matching_context
            },
            false
        )
    );
    assert!(
        should_use_libdw_arch_fallback_after_empty_object_unwind(
            UserUnwindContext {
                initial_ip_is_dso: false,
                ..matching_context
            },
            false
        )
    );
    assert!(
        should_use_libdw_arch_fallback_after_empty_object_unwind(
            UserUnwindContext {
                syscall_return_state: false,
                ..matching_context
            },
            false
        )
    );
    assert!(
        should_use_libdw_arch_fallback_after_empty_object_unwind(
            matching_context,
            false
        )
    );
}

#[test]
fn aarch64_arch_fallback_fires_on_seed_only_object_unwind_like_libdw_ebl() {
    let regs = PerfUserRegs::Aarch64(PerfAarch64Regs {
        pc: 0x4000,
        sp: 0x1000,
        fp: 0x1010,
        lr: 0x5000,
    });
    let stack = vec![0_u8; 0x40];

    assert_eq!(
        libdw_arch_fallback_after_empty_object_unwind(vec![0x4000], &regs, &stack, true,),
        vec![0x4000, 0x4fff]
    );
}

#[test]
fn aarch64_arch_fallback_keeps_multi_frame_object_unwind() {
    let regs = PerfUserRegs::Aarch64(PerfAarch64Regs {
        pc: 0x4000,
        sp: 0x1000,
        fp: 0x1010,
        lr: 0x5000,
    });

    assert_eq!(
        libdw_arch_fallback_after_empty_object_unwind(
            vec![0x4000, 0x9000],
            &regs,
            &[0_u8; 0x40],
            true,
        ),
        vec![0x4000, 0x9000]
    );
}

#[test]
fn object_unwind_keeps_kernel_without_callchain_dso_tail_like_perf_libdw() {
    let regs = PerfX86_64Regs {
        ip: 0x7fff_f7f2_d344,
        sp: 0x7fff_ffff_a1d8,
        bp: 0x7fff_ffff_a220,
        registers: [0; 16],
    };

    assert_eq!(
        perf_accepted_object_unwind_frames(
            &PerfUserRegs::X86_64(regs),
            SampleCallchainState::KernelWithoutCallchain,
            ObjectUnwindInitialFramePolicy::KeepDsoLeaf,
            vec![
                0x7fff_f7f2_d344,
                0x5555_5559_a556,
                0x5555_555a_019e,
                0x5555_5559_21a3,
                0x5555_5559_6488,
            ],
        ),
        vec![
            0x7fff_f7f2_d344,
            0x5555_5559_a556,
            0x5555_555a_019e,
            0x5555_5559_21a3,
            0x5555_5559_6488,
        ]
    );
}

#[test]
fn sample_fold_count_uses_period_only_when_requested() {
    assert_eq!(
        sample_fold_count(
            Some(37),
            FoldOptions {
                count_periods: true,
                ..FoldOptions::default()
            }
        ),
        37
    );
    assert_eq!(
        sample_fold_count(
            Some(37),
            FoldOptions {
                count_periods: false,
                ..FoldOptions::default()
            }
        ),
        1
    );
}

#[test]
fn sample_fold_count_defaults_missing_period_to_one() {
    assert_eq!(
        sample_fold_count(
            None,
            FoldOptions {
                count_periods: true,
                ..FoldOptions::default()
            }
        ),
        1
    );
}

#[test]
fn fold_counts_handle_hash_collisions_without_losing_entries() {
    let mut counts = FoldCounts::new();

    counts.add_rendered_with_hash(b"alpha;leaf", 2, 7);
    counts.add_rendered_with_hash(b"beta;leaf", 3, 7);
    counts.add_rendered_with_hash(b"alpha;leaf", 5, 7);

    let mut written = Vec::new();
    write_fold_counts(counts, &mut written).expect("write fold counts");

    assert_eq!(
        String::from_utf8(written).expect("utf-8"),
        "alpha;leaf 7\nbeta;leaf 3\n"
    );
}

#[test]
fn inline_current_ip_without_base_symbol_renders_module_fallback_like_perf_unwind_entry() {
    let mut mmap_table = MmapTable::default();
    mmap_table.insert_mmap(MmapRecord {
        pid: 11,
        tid: 11,
        start: 0x5555_5567_0000,
        len: 0x10_0000,
        pgoff: 0,
        path: "/bin/pyroclast".to_string(),
    });
    let symbols = static_symbols(&mmap_table, 11, 0x5555_5567_6876, vec!["core::num::flt2dec::strategy::dragon::mul_pow10".to_string()], false);
    let mut buffers = FoldedRenderBuffers::new();

    FoldFrameResolver::new(&mmap_table, false)
        .render_folded_stack_for_stack(
            Some(11),
            Some("pyroclast"),
            &[FoldFrame::InlineCurrentIp(0x5555_5567_6876)],
            Some(&symbols),
            &mut buffers,
        );

    assert_eq!(buffers.rendered, "pyroclast;[pyroclast]");
}

#[test]
fn inline_current_ip_with_base_symbol_renders_single_frame_like_perf_unwind_entry() {
    let mut mmap_table = MmapTable::default();
    mmap_table.insert_mmap(MmapRecord {
        pid: 11,
        tid: 11,
        start: 0x5555_5567_0000,
        len: 0x10_0000,
        pgoff: 0,
        path: "/bin/pyroclast".to_string(),
    });
    let symbols = static_symbols(&mmap_table, 11, 0x5555_5567_a0be, vec!["core::num::flt2dec::strategy::dragon::format_shortest".to_string()], true);
    let mut buffers = FoldedRenderBuffers::new();

    FoldFrameResolver::new(&mmap_table, false)
        .render_folded_stack_for_stack(
            Some(11),
            Some("pyroclast"),
            &[FoldFrame::InlineCurrentIp(0x5555_5567_a0be)],
            Some(&symbols),
            &mut buffers,
        );

    assert_eq!(
        buffers.rendered,
        "pyroclast;core::num::flt2dec::strategy::dragon::format_shortest"
    );
}

#[test]
fn inline_current_ip_without_base_symbol_skips_inline_chain_but_keeps_module_fallback_like_perf() {
    let mut mmap_table = MmapTable::default();
    mmap_table.insert_mmap(MmapRecord {
        pid: 11,
        tid: 11,
        start: 0x5555_5570_0000,
        len: 0x10_0000,
        pgoff: 0,
        path: "/bin/pyroclast".to_string(),
    });
    let symbols = static_symbols(&mmap_table, 11, 0x5555_557a_e068, vec![
            "index_mut<u8>".to_string(),
            "default_read_exact<std::fs::File>".to_string(),
            "read_file_range".to_string(),
        ], false);
    let mut buffers = FoldedRenderBuffers::new();

    FoldFrameResolver::new(&mmap_table, false)
        .render_folded_stack_for_stack(
            Some(11),
            Some("pyroclast"),
            &[FoldFrame::InlineCurrentIp(0x5555_557a_e068)],
            Some(&symbols),
            &mut buffers,
        );

    assert_eq!(buffers.rendered, "pyroclast;[pyroclast]");
}

#[test]
fn inline_current_ip_with_inline_chain_renders_folded_stack_like_perf_libdw() {
    let mut mmap_table = MmapTable::default();
    mmap_table.insert_mmap(MmapRecord {
        pid: 11,
        tid: 11,
        start: 0x5555_5560_0000,
        len: 0x20_0000,
        pgoff: 0,
        path: "/bin/pyroclast".to_string(),
    });
    let symbols = static_symbols(&mmap_table, 11, 0x5555_556f_bbbb, vec![
            "add<&str>".to_string(),
            "sort8_stable<&str>".to_string(),
            "quicksort<&str>".to_string(),
        ], true);
    let mut buffers = FoldedRenderBuffers::new();

    FoldFrameResolver::new(&mmap_table, false)
        .render_folded_stack_for_stack(
            Some(11),
            Some("pyroclast"),
            &[FoldFrame::InlineCurrentIp(0x5555_556f_bbbb)],
            Some(&symbols),
            &mut buffers,
        );

    assert_eq!(
        buffers.rendered,
        "pyroclast;add<&str>;sort8_stable<&str>;quicksort<&str>"
    );
}

#[test]
fn symbolized_user_unwind_script_frame_keeps_mapped_dso_like_perf_script() {
    let mut mmap_table = MmapTable::default();
    mmap_table.insert_mmap(MmapRecord {
        pid: 11,
        tid: 11,
        start: 0x1000,
        len: 0x1000,
        pgoff: 0,
        path: "/nix/store/glibc/lib/libc.so.6".to_string(),
    });
    let symbols = static_symbols(&mmap_table, 11, 0x1048, vec!["_Fork+0x48".to_string()], true);
    let mut written = String::new();

    write_script_frames_for_stack(
        &mmap_table,
        Some(11),
        &[FoldFrame::UserUnwind(0x1048)],
        Some(&symbols),
        false,
        &mut written,
    );

    assert_eq!(
        written,
        "\t            1048 _Fork+0x48 (/nix/store/glibc/lib/libc.so.6)\n"
    );
}

#[test]
fn extend_symbol_mappings_deduplicates_prefetch_keys_across_stacks() {
    let mut mmap_table = MmapTable::default();
    mmap_table.insert_mmap(MmapRecord {
        pid: 11,
        tid: 11,
        start: 0x1000,
        len: 0x1000,
        pgoff: 0,
        path: "/bin/demo".to_string(),
    });
    let mut batches = SymbolPrefetchBatches::new();
    let callchain = [
        FoldFrame::Callchain(0x1010),
        FoldFrame::Callchain(0x1020),
    ];

    extend_symbol_mappings_for_stack(
        Some(11),
        &callchain,
        &mmap_table,
        &mut batches,
        true,
    );
    extend_symbol_mappings_for_stack(
        Some(11),
        &callchain,
        &mmap_table,
        &mut batches,
        true,
    );

    assert_eq!(batches.full_mappings.len(), 2);
    assert_eq!(batches.full_mappings[0].relative_address, 0x10);
    assert_eq!(batches.full_mappings[1].relative_address, 0x20);
    assert!(batches.base_mappings.is_empty());
}

#[test]
fn prefetch_symbols_batches_inline_current_ip_through_full_dwarf_with_inline() {
    let mut mmap_table = MmapTable::default();
    mmap_table.insert_mmap(MmapRecord {
        pid: 11,
        tid: 11,
        start: 0x1000,
        len: 0x1000,
        pgoff: 0,
        path: "/bin/demo".to_string(),
    });
    let mut raw_stacks = RawStackAccumulator::new();
    raw_stacks.add_vec_with_comm(
        Some(11),
        Some("demo".to_string()),
        vec![
            FoldFrame::UserUnwind(0x1010),
            FoldFrame::InlineCurrentIp(0x1020),
        ],
        1,
    );
    let entries = raw_stacks.sorted_entries();

    let batches = prefetch_symbols(&entries, &mmap_table, true);

    let full_requests = batches
        .full_mappings
        .iter()
        .map(|mapping| mapping.relative_address)
        .collect::<Vec<_>>();
    assert_eq!(full_requests, vec![0x10, 0x20]);
    assert!(batches.base_mappings.is_empty());
}

#[test]
fn keeps_unmapped_middle_user_unwind_frame_like_perf_libdw_entry() {
    let mut mmap_table = MmapTable::default();
    mmap_table.insert_mmap(MmapRecord {
        pid: 11,
        tid: 11,
        start: 0x1000,
        len: 0x100,
        pgoff: 0,
        path: "/bin/demo".to_string(),
    });
    let mut frames = vec![
        FoldFrame::UserUnwind(0x1010),
        FoldFrame::UserUnwind(0x6),
        FoldFrame::UserUnwind(0x1020),
    ];

    truncate_user_unwind_at_first_unmapped_frame(
        Some(11),
        &mut frames,
        &mmap_table,
    );

    assert_eq!(
        frames,
        vec![
            FoldFrame::UserUnwind(0x1010),
            FoldFrame::UserUnwind(0x6),
            FoldFrame::UserUnwind(0x1020),
        ]
    );
}

#[test]
fn keeps_terminal_unmapped_user_unwind_frame_like_perf_libdw_entry() {
    let mut mmap_table = MmapTable::default();
    mmap_table.insert_mmap(MmapRecord {
        pid: 11,
        tid: 11,
        start: 0x1000,
        len: 0x100,
        pgoff: 0,
        path: "/bin/demo".to_string(),
    });
    let mut frames = vec![
        FoldFrame::UserUnwind(0x1010),
        FoldFrame::UserUnwind(0x6),
    ];

    truncate_user_unwind_at_first_unmapped_frame(
        Some(11),
        &mut frames,
        &mmap_table,
    );

    assert_eq!(
        frames,
        vec![
            FoldFrame::UserUnwind(0x1010),
            FoldFrame::UserUnwind(0x6),
        ]
    );
}

#[test]
fn loaded_unwind_module_applies_across_dso_segments_like_perf_dwfl() {
    let path = "/nix/store/glibc/lib/libc.so.6";
    let objects = ObjectStore::new();
    let mut accumulator = FoldAccumulator::new(NamedBytes::new(), PerfArch::X86_64);
    for (start, len, pgoff) in [
        (0x7fff_f7d8_2000, 0x0020_b000, 0),
        (0x7fff_f7da_a000, 0x0018_1000, 0x28000),
    ] {
        accumulator
            .apply_record(
                ParsedRecord::Mmap(MmapRecord {
                    pid: 11,
                    tid: 11,
                    start,
                    len,
                    pgoff,
                    path: path.to_string(),
                }),
                &SampleLayouts::default(),
                FoldOptions::default(),
                &objects,
            )
            .expect("mmap");
    }
    accumulator.note_loaded_module(11, path, 0x7fff_f7d8_2000);

    assert!(accumulator.has_loaded_unwind_mapping_for_ip(11.into(), 0x7fff_f7e3_2455, &objects));
}

#[test]
fn fold_counts_reserve_for_drain_extends_capacity_after_first_drain() {
    let mut counts = FoldCounts::new();

    counts.reserve_first_drain(1);
    counts.add_rendered("alpha;leaf", 1);

    let previous_entry_capacity = counts.entries.capacity();

    counts.reserve_first_drain(128);

    assert_eq!(counts.entries.capacity(), previous_entry_capacity);
}
