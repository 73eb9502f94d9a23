use framehop::x86_64::Reg;
use pyroclast::perfdata::unwind::{
    truncate_at_first_uncovered_unwind_frame, unwind_aarch64_frame_pointer_stack_like_elfutils,
    unwind_x86_64_frame_pointer_stack_like_elfutils, unwind_x86_64_stack, FramehopUnwinder,
    PerfAarch64Regs, PerfArch, PerfStackReader, PerfUserRegs, PerfX86_64Regs,
};

#[test]
fn detects_syscall_return_state_with_normal_frame_pointer_like_perf_libdw() {
    let ip = 0x7fff_f7e9_a23e;
    let mut registers = [0; 16];
    registers[Reg::RCX as usize] = ip;
    registers[Reg::R11 as usize] = 0x206;
    let regs = PerfX86_64Regs {
        ip,
        sp: 0x7fff_ffff_88b8,
        bp: 0x7fff_ffff_89e0,
        registers,
    };

    assert!(regs.is_syscall_return_state());
}

#[test]
fn keeps_ebl_fallback_tail_after_cfi_runs_out_like_elfutils_libdwfl() {
    let mut frames = vec![0x1000, 0x2000, 0x3000, 0x4000];

    truncate_at_first_uncovered_unwind_frame(&mut frames, |address| address < 0x3000);

    assert_eq!(frames, vec![0x1000, 0x2000, 0x3000, 0x4000]);
}

#[test]
fn keeps_terminal_object_unwind_frame_without_cfi_like_perf_libdw() {
    let mut frames = vec![0x1000, 0x2000, 0x3000];

    truncate_at_first_uncovered_unwind_frame(&mut frames, |address| address < 0x3000);

    assert_eq!(frames, vec![0x1000, 0x2000, 0x3000]);
}

#[test]
fn frame_pointer_arch_fallback_matches_elfutils_x86_64_unwind() {
    // The frame pointer is a conventional one: the word at rbp is the previous rbp, the word
    // behind it the return address, and the stack pointer moves on by 16.
    let mut registers = [0; 16];
    registers[Reg::RSP as usize] = 0x7fff_ffff_9250;
    registers[Reg::RBP as usize] = 0x7fff_ffff_9260;
    let regs = PerfX86_64Regs {
        ip: 0x7fff_f7e1_c03e,
        sp: 0x7fff_ffff_9250,
        bp: 0x7fff_ffff_9260,
        registers,
    };
    let mut stack = vec![0; 0x40];
    stack[0x10..0x18].copy_from_slice(&0x7fff_ffff_9270_u64.to_le_bytes());
    stack[0x18..0x20].copy_from_slice(&0x7fff_f7e1_c084_u64.to_le_bytes());
    stack[0x20..0x28].copy_from_slice(&0_u64.to_le_bytes());
    stack[0x28..0x30].copy_from_slice(&0x7fff_f7e9_9d7e_u64.to_le_bytes());

    assert_eq!(
        unwind_x86_64_frame_pointer_stack_like_elfutils(regs, &stack, 256),
        vec![0x7fff_f7e1_c03e, 0x7fff_f7e1_c083, 0x7fff_f7e9_9d7d]
    );
}

#[test]
fn frame_pointer_arch_fallback_rejects_non_advancing_stack_like_elfutils() {
    let mut registers = [0; 16];
    registers[Reg::RSP as usize] = 0x8000;
    registers[Reg::RBP as usize] = 0x7ff0;
    let regs = PerfX86_64Regs {
        ip: 0x4000,
        sp: 0x8000,
        bp: 0x7ff0,
        registers,
    };
    let mut stack = vec![0; 0x20];
    stack[0..8].copy_from_slice(&0_u64.to_le_bytes());
    stack[8..16].copy_from_slice(&0x5000_u64.to_le_bytes());

    assert_eq!(
        unwind_x86_64_frame_pointer_stack_like_elfutils(regs, &stack, 256),
        vec![0x4000]
    );
}

#[test]
fn keeps_initial_object_unwind_frame_without_cfi_like_perf_libdw() {
    let mut frames = vec![0x3000, 0x1000];

    truncate_at_first_uncovered_unwind_frame(&mut frames, |address| address < 0x3000);

    assert_eq!(frames, vec![0x3000, 0x1000]);
}

#[test]
fn keeps_object_unwind_when_all_frames_have_cfi_like_perf_libdw() {
    let mut frames = vec![0x1000, 0x2000];

    truncate_at_first_uncovered_unwind_frame(&mut frames, |_| true);

    assert_eq!(frames, vec![0x1000, 0x2000]);
}

#[test]
fn decodes_aarch64_registers_from_perf_mask() {
    // Recordings on arm64 capture x0 to x30, sp and pc.
    let mask = (1_u64 << 33) - 1;
    let mut values = (0_u64..33).collect::<Vec<_>>();
    values[29] = 0x2900; // fp
    values[30] = 0x3000; // lr
    values[31] = 0x3100; // sp
    values[32] = 0x3200; // pc

    let regs = PerfAarch64Regs::from_perf_masked_values(mask, &values).expect("regs");

    assert_eq!(
        regs,
        PerfAarch64Regs {
            pc: 0x3200,
            sp: 0x3100,
            fp: 0x2900,
            lr: 0x3000,
        }
    );
}

#[test]
fn decodes_aarch64_registers_from_sparse_perf_mask() {
    let mask = (1 << 29) | (1 << 30) | (1 << 31) | (1 << 32);
    let values = [0x2900, 0x3000, 0x3100, 0x3200];

    let regs = PerfAarch64Regs::from_perf_masked_values(mask, &values).expect("regs");

    assert_eq!(regs.fp, 0x2900);
    assert_eq!(regs.lr, 0x3000);
    assert_eq!(regs.sp, 0x3100);
    assert_eq!(regs.pc, 0x3200);
}

#[test]
fn rejects_aarch64_registers_missing_pc() {
    let mask = (1 << 29) | (1 << 30) | (1 << 31);
    let values = [0x2900, 0x3000, 0x3100];

    let error = PerfAarch64Regs::from_perf_masked_values(mask, &values).expect_err("missing pc");

    assert!(error.contains("PC"));
}

#[test]
fn aarch64_frame_pointer_unwind_walks_fp_chain_like_elfutils() {
    // The records of the chain stand at fp, the return addresses behind them.
    let regs = PerfAarch64Regs {
        pc: 0x4000,
        sp: 0x1000,
        fp: 0x1010,
        lr: 0x5000,
    };
    let mut stack = vec![0_u8; 0x40];
    // frame at fp=0x1010: next fp = 0x1030, next lr = 0x6000
    stack[0x10..0x18].copy_from_slice(&0x1030_u64.to_le_bytes());
    stack[0x18..0x20].copy_from_slice(&0x6000_u64.to_le_bytes());
    // frame at fp=0x1030: next fp = 0, next lr = 0 (end of chain)
    stack[0x30..0x38].copy_from_slice(&0_u64.to_le_bytes());
    stack[0x38..0x40].copy_from_slice(&0_u64.to_le_bytes());

    let frames = unwind_aarch64_frame_pointer_stack_like_elfutils(regs, &stack, 256);

    // Return addresses behind the leaf are shown one lower.
    assert_eq!(frames, vec![0x4000, 0x4fff, 0x5fff]);
}

#[test]
fn aarch64_frame_pointer_unwind_accepts_one_lr_caller_when_fp_is_zero() {
    let regs = PerfAarch64Regs {
        pc: 0x4000,
        sp: 0x1000,
        fp: 0,
        lr: 0x5000,
    };

    let frames = unwind_aarch64_frame_pointer_stack_like_elfutils(regs, &[0_u8; 0x20], 256);

    assert_eq!(frames, vec![0x4000, 0x4fff]);
}

#[test]
fn aarch64_frame_pointer_unwind_rejects_backwards_stack_growth() {
    let regs = PerfAarch64Regs {
        pc: 0x4000,
        sp: 0x1020,
        fp: 0x1000,
        lr: 0x5000,
    };

    let frames = unwind_aarch64_frame_pointer_stack_like_elfutils(regs, &[0_u8; 0x40], 256);

    assert_eq!(frames, vec![0x4000]);
}

#[test]
fn aarch64_frame_pointer_unwind_stops_on_zero_lr_without_callers() {
    let regs = PerfAarch64Regs {
        pc: 0x4000,
        sp: 0x1000,
        fp: 0x1010,
        lr: 0,
    };

    let frames = unwind_aarch64_frame_pointer_stack_like_elfutils(regs, &[0_u8; 0x40], 256);

    assert_eq!(frames, vec![0x4000]);
}

#[test]
fn architectures_are_known_by_two_names_each() {
    assert_eq!(PerfArch::from_header_arch("x86_64"), Some(PerfArch::X86_64));
    assert_eq!(PerfArch::from_header_arch("amd64"), Some(PerfArch::X86_64));
    assert_eq!(PerfArch::from_header_arch("aarch64"), Some(PerfArch::Aarch64));
    assert_eq!(PerfArch::from_header_arch("arm64"), Some(PerfArch::Aarch64));
    assert_eq!(PerfArch::from_header_arch("riscv64"), None);
    assert_eq!(PerfArch::default(), PerfArch::X86_64);
}

#[test]
fn captured_words_are_read_where_the_stack_lies() {
    let mut stack = [0_u8; 24];
    stack[8..16].copy_from_slice(&0x1122_3344_5566_7788_u64.to_le_bytes());
    let reader = PerfStackReader::new(0x1000, &stack);

    assert_eq!(reader.read_u64(0x1008), Some(0x1122_3344_5566_7788));
    assert_eq!(reader.read_u64(0x1010), Some(0));
    assert_eq!(reader.read_u64(0x1011), None);
    assert_eq!(reader.read_u64(0xfff), None);
    assert_eq!(reader.read_u64(u64::MAX), None);
}

#[test]
fn x86_64_registers_need_a_value_for_each_bit() {
    let error = PerfX86_64Regs::from_perf_masked_values(0b11, &[1]).expect_err("too few values");
    assert!(!error.is_empty());
    let user = PerfUserRegs::from_perf_masked_values(
        PerfArch::Aarch64,
        (1 << 29) | (1 << 30) | (1 << 31) | (1 << 32),
        &[1, 2, 3, 4],
    )
    .expect("regs");
    assert_eq!(user.ip(), 4);
    assert_eq!(user.sp(), 3);
    assert_eq!(user.arch(), PerfArch::Aarch64);
    assert!(!user.is_syscall_return_state());
    assert!(!user.frame_pointer_at_or_above_stack_pointer());
}

#[test]
fn a_stack_without_modules_is_walked_by_frame_pointers() {
    // Without modules the outside unwinder falls back on the frame pointer: one caller.
    let mut registers = [0; 16];
    registers[Reg::RSP as usize] = 0x1000;
    registers[Reg::RBP as usize] = 0x1010;
    let regs = PerfX86_64Regs { ip: 0x4000, sp: 0x1000, bp: 0x1010, registers };
    let mut stack = vec![0_u8; 0x40];
    stack[0x10..0x18].copy_from_slice(&0x1030_u64.to_le_bytes());
    stack[0x18..0x20].copy_from_slice(&0x5000_u64.to_le_bytes());

    let frames = unwind_x86_64_stack(regs, &stack, 8);
    assert_eq!(frames[0], 0x4000);
    assert!(frames.len() <= 8);
    assert_eq!(unwind_x86_64_stack(regs, &stack, 1), vec![0x4000]);

    let mut unwinder = FramehopUnwinder::with_arch(PerfArch::Aarch64);
    let regs = PerfAarch64Regs { pc: 0x4000, sp: 0x1000, fp: 0x1010, lr: 0x5000 };
    let frames = unwinder.unwind_stack(PerfUserRegs::Aarch64(regs), &stack, 1);
    assert_eq!(frames, vec![0x4000]);
    assert_eq!(unwinder.module_count(), 0);
}

#[test]
fn stacks_in_the_upper_half_of_the_address_space_are_walked() {
    let walk = |sp: u64, max_frames: usize| {
        let mut registers = [0; 16];
        registers[Reg::RSP as usize] = sp;
        registers[Reg::RBP as usize] = sp.wrapping_add(0x10);
        let regs = PerfX86_64Regs { ip: 0x4000, sp, bp: sp.wrapping_add(0x10), registers };
        let mut stack = vec![0_u8; 0x40];
        stack[0x10..0x18].copy_from_slice(&sp.wrapping_add(0x30).to_le_bytes());
        stack[0x18..0x20].copy_from_slice(&0x5000_u64.to_le_bytes());
        unwind_x86_64_stack(regs, &stack, max_frames)
    };
    assert_eq!(walk(0xffff_8000_0000_1000, 8), vec![0x4000, 0x4fff]);
    assert_eq!(walk(0x1000, 8), vec![0x4000, 0x4fff]);
    assert_eq!(walk(u64::MAX - 0x5f, 8), vec![0x4000, 0x4fff]);
    assert_eq!(walk(u64::MAX - 3, 8), vec![0x4000]);
    assert_eq!(walk(u64::MAX - 3, 0), Vec::<u64>::new());
}
