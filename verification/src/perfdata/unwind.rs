//! User stacks: registers of a sample, captured stack memory, frame-pointer walks, and the
//! object unwinder.

use framehop::x86_64::Reg::{
    R10, R11, R12, R13, R14, R15, R8, R9, RAX, RBP, RBX, RCX, RDI, RDX, RSI, RSP,
};
use framehop::x86_64::{CacheX86_64, UnwindRegsX86_64, UnwinderX86_64};
use framehop::aarch64::{CacheAarch64, UnwindRegsAarch64, UnwinderAarch64};
use framehop::{MayAllocateDuringUnwind, Unwinder};
use vstd::arithmetic::div_mod::lemma_div_denominator;
use vstd::arithmetic::power2::{lemma2_to64, lemma_pow2_pos, lemma_pow2_unfold, pow2};
use vstd::prelude::*;

use crate::perfdata::endian::{le_u64, u64_at};
use crate::perfdata::frames::{is_tame, keep_usable, usable_sections, usable_sections_are_tame};
use crate::perfdata::objects::{
    address_sum, covered, explicit_module_section_info, load_span, memory_of, module_memory_segments,
    module_sections_of, normal, object_load_range, object_segments, object_segments_of,
    object_unwind_ranges, ranges_overlap, some_range_contains, unwind_ranges_of, AddressRange,
    MemoryModel, ModuleMemorySegment, ModuleSections, SectionsModel, SegmentModel,
};
use crate::perfdata::samples::{count_ones, ones};
use crate::text::{
    begins_with, chars_of, joined, outcome, same_text, size_from_u64, starts_with, views,
};

verus! {

broadcast use vstd::std_specs::control_flow::group_control_flow_axioms;

// ---------------------------------------------------------------------------
// Registers
// ---------------------------------------------------------------------------

/// The user registers of an `x86_64` sample. The array holds the general registers by their
/// DWARF numbers: rax, rdx, rcx, rbx, rsi, rdi, rbp, rsp, then r8 to r15.
#[derive(Clone, Copy, Debug, Eq, PartialEq)]
pub struct PerfX86_64Regs {
    pub ip: u64,
    pub sp: u64,
    pub bp: u64,
    pub registers: [u64; 16],
}

/// The place of rcx among the general registers.
pub const REG_RCX: usize = 2;

/// The place of rsp among the general registers.
pub const REG_RSP: usize = 7;

/// The place of r11 among the general registers.
pub const REG_R11: usize = 11;

/// The architecture a perf.data file's user register samples were recorded on,
/// from the HEADER_ARCH feature string.
#[derive(Clone, Copy, Debug, Eq, PartialEq, Structural)]
pub enum PerfArch {
    X86_64,
    Aarch64,
}

impl Default for PerfArch {
    fn default() -> (arch: PerfArch)
        ensures
            arch == PerfArch::X86_64,
    {
        PerfArch::X86_64
    }
}

/// The architecture that a recorded machine name stands for.
pub open spec fn arch_named(name: Seq<char>) -> Option<PerfArch> {
    if name == "x86_64"@ || name == "amd64"@ {
        Some(PerfArch::X86_64)
    } else if name == "aarch64"@ || name == "arm64"@ {
        Some(PerfArch::Aarch64)
    } else {
        None
    }
}

impl PerfArch {
    /// The architecture that a recorded machine name stands for.
    #[must_use]
    pub fn from_header_arch(arch: &str) -> (found: Option<PerfArch>)
        ensures
            found == arch_named(arch@),
    {
        if same_text(arch, "x86_64") || same_text(arch, "amd64") {
            Some(PerfArch::X86_64)
        } else if same_text(arch, "aarch64") || same_text(arch, "arm64") {
            Some(PerfArch::Aarch64)
        } else {
            None
        }
    }
}

/// The user registers of an `aarch64` sample.
#[derive(Clone, Copy, Debug, Eq, PartialEq, Structural)]
pub struct PerfAarch64Regs {
    pub pc: u64,
    pub sp: u64,
    pub fp: u64,
    pub lr: u64,
}

impl View for PerfAarch64Regs {
    type V = PerfAarch64Regs;

    open spec fn view(&self) -> PerfAarch64Regs {
        *self
    }
}

/// The contents of a [`PerfX86_64Regs`].
#[verifier::ext_equal]
pub struct X86Model {
    pub ip: u64,
    pub sp: u64,
    pub bp: u64,
    pub registers: Seq<u64>,
}

impl View for PerfX86_64Regs {
    type V = X86Model;

    open spec fn view(&self) -> X86Model {
        X86Model { ip: self.ip, sp: self.sp, bp: self.bp, registers: self.registers@ }
    }
}

/// Architecture-neutral user register sample, decoded from a perf REGS_USER
/// payload according to the recording machine's arch.
#[derive(Clone, Copy, Debug, Eq, PartialEq)]
pub enum PerfUserRegs {
    X86_64(PerfX86_64Regs),
    Aarch64(PerfAarch64Regs),
}

/// The contents of a [`PerfUserRegs`].
#[verifier::ext_equal]
pub enum RegsModel {
    X86_64(X86Model),
    Aarch64(PerfAarch64Regs),
}

impl View for PerfUserRegs {
    type V = RegsModel;

    open spec fn view(&self) -> RegsModel {
        match *self {
            PerfUserRegs::X86_64(regs) => RegsModel::X86_64(regs@),
            PerfUserRegs::Aarch64(regs) => RegsModel::Aarch64(regs),
        }
    }
}

impl RegsModel {
    pub open spec fn arch(self) -> PerfArch {
        match self {
            RegsModel::X86_64(_) => PerfArch::X86_64,
            RegsModel::Aarch64(_) => PerfArch::Aarch64,
        }
    }

    pub open spec fn ip(self) -> u64 {
        match self {
            RegsModel::X86_64(regs) => regs.ip,
            RegsModel::Aarch64(regs) => regs.pc,
        }
    }

    pub open spec fn sp(self) -> u64 {
        match self {
            RegsModel::X86_64(regs) => regs.sp,
            RegsModel::Aarch64(regs) => regs.sp,
        }
    }
}

/// Whether bit `register` of a mask is set.
pub open spec fn bit_at(mask: nat, register: nat) -> bool
    decreases register,
{
    if register == 0 {
        mask % 2 == 1
    } else {
        bit_at(mask / 2, (register - 1) as nat)
    }
}

/// Number of bits set below bit `register` of a mask.
pub open spec fn ones_below(mask: nat, register: nat) -> nat
    decreases register,
{
    if register == 0 {
        0
    } else {
        mask % 2 + ones_below(mask / 2, (register - 1) as nat)
    }
}

/// The value of a register, when values stand in the order of the mask's bits.
pub open spec fn masked(mask: u64, values: Seq<u64>, register: nat) -> Option<u64> {
    if !bit_at(mask as nat, register) {
        None
    } else if ones_below(mask as nat, register) >= values.len() {
        None
    } else {
        Some(values[ones_below(mask as nat, register) as int])
    }
}

/// The value of a register, or zero where it was not recorded.
pub open spec fn masked_or_zero(mask: u64, values: Seq<u64>, register: nat) -> u64 {
    match masked(mask, values, register) {
        Some(value) => value,
        None => 0,
    }
}

/// Reads a register's value, when values stand in the order of the mask's bits.
pub fn perf_user_reg_value(mask: u64, values: &[u64], register: u32) -> (value: Option<u64>)
    requires
        register < 64,
    ensures
        value == masked(mask, values@, register as nat),
{
    let mut left: u64 = mask;
    let mut index: usize = 0;
    let mut at: u32 = 0;
    while at < register
        invariant
            at <= register < 64,
            index <= at,
            bit_at(mask as nat, register as nat) == bit_at(left as nat, (register - at) as nat),
            ones_below(mask as nat, register as nat) == index + ones_below(
                left as nat,
                (register - at) as nat,
            ),
        decreases register - at,
    {
        if left % 2 == 1 {
            index += 1;
        }
        left = left / 2;
        at += 1;
    }
    if left % 2 == 0 {
        return None;
    }
    if index < values.len() {
        Some(values[index])
    } else {
        None
    }
}

fn reg_or_zero(mask: u64, values: &[u64], register: u32) -> (value: u64)
    requires
        register < 64,
    ensures
        value == masked_or_zero(mask, values@, register as nat),
{
    match perf_user_reg_value(mask, values, register) {
        Some(value) => value,
        None => 0,
    }
}

/// The general registers of a sample by their DWARF numbers, each from its perf number.
pub open spec fn x86_registers(mask: u64, values: Seq<u64>) -> Seq<u64> {
    seq![
        masked_or_zero(mask, values, 0),
        masked_or_zero(mask, values, 3),
        masked_or_zero(mask, values, 2),
        masked_or_zero(mask, values, 1),
        masked_or_zero(mask, values, 4),
        masked_or_zero(mask, values, 5),
        masked_or_zero(mask, values, 6),
        masked_or_zero(mask, values, 7),
        masked_or_zero(mask, values, 16),
        masked_or_zero(mask, values, 17),
        masked_or_zero(mask, values, 18),
        masked_or_zero(mask, values, 19),
        masked_or_zero(mask, values, 20),
        masked_or_zero(mask, values, 21),
        masked_or_zero(mask, values, 22),
        masked_or_zero(mask, values, 23),
    ]
}

/// The `x86_64` registers that recorded values state.
pub open spec fn x86_regs_of(mask: u64, values: Seq<u64>) -> Result<X86Model, Seq<char>> {
    if ones(mask as nat) != values.len() {
        Err("perf register mask and value count differ"@)
    } else {
        match (masked(mask, values, 8), masked(mask, values, 7), masked(mask, values, 6)) {
            (None, _, _) => Err("perf sample is missing x86_64 IP register"@),
            (Some(_), None, _) => Err("perf sample is missing x86_64 SP register"@),
            (Some(_), Some(_), None) => Err("perf sample is missing x86_64 BP register"@),
            (Some(ip), Some(sp), Some(bp)) => Ok(
                X86Model { ip, sp, bp, registers: x86_registers(mask, values) },
            ),
        }
    }
}

impl PerfX86_64Regs {
    /// Whether rcx holds the instruction pointer and r11 holds flags, as after a system call.
    #[must_use]
    pub fn is_syscall_return_state(self) -> (found: bool)
        ensures
            found == syscall_return_state(self@),
    {
        self.registers[REG_RCX] == self.ip && self.registers[REG_R11] != 0
    }

    /// Builds the minimal `x86_64` register set needed for stack unwinding from
    /// perf's ascending register-mask encoding.
    ///
    /// # Errors
    ///
    /// Returns an error when the value slice does not match the number of set
    /// bits in `mask`, or a required register is missing.
    pub fn from_perf_masked_values(mask: u64, values: &[u64]) -> (result: Result<
        PerfX86_64Regs,
        String,
    >)
        ensures
            outcome(result) == x86_regs_of(mask, values@),
    {
        if count_ones(mask) != values.len() {
            return Err("perf register mask and value count differ".to_string());
        }
        let ip: u64 = match perf_user_reg_value(mask, values, 8) {
            Some(ip) => ip,
            None => return Err("perf sample is missing x86_64 IP register".to_string()),
        };
        let sp: u64 = match perf_user_reg_value(mask, values, 7) {
            Some(sp) => sp,
            None => return Err("perf sample is missing x86_64 SP register".to_string()),
        };
        let bp: u64 = match perf_user_reg_value(mask, values, 6) {
            Some(bp) => bp,
            None => return Err("perf sample is missing x86_64 BP register".to_string()),
        };
        let registers: [u64; 16] = [
            reg_or_zero(mask, values, 0),
            reg_or_zero(mask, values, 3),
            reg_or_zero(mask, values, 2),
            reg_or_zero(mask, values, 1),
            reg_or_zero(mask, values, 4),
            reg_or_zero(mask, values, 5),
            reg_or_zero(mask, values, 6),
            reg_or_zero(mask, values, 7),
            reg_or_zero(mask, values, 16),
            reg_or_zero(mask, values, 17),
            reg_or_zero(mask, values, 18),
            reg_or_zero(mask, values, 19),
            reg_or_zero(mask, values, 20),
            reg_or_zero(mask, values, 21),
            reg_or_zero(mask, values, 22),
            reg_or_zero(mask, values, 23),
        ];
        let regs = PerfX86_64Regs { ip, sp, bp, registers };
        assert(regs@.registers =~= x86_registers(mask, values@));
        Ok(regs)
    }
}

/// Whether rcx holds the instruction pointer and r11 is not zero.
pub open spec fn syscall_return_state(regs: X86Model) -> bool {
    regs.registers[REG_RCX as int] == regs.ip && regs.registers[REG_R11 as int] != 0
}

/// The `aarch64` registers that recorded values state: pc is number 32, sp 31, lr 30 and fp 29.
pub open spec fn aarch64_regs_of(mask: u64, values: Seq<u64>) -> Result<
    PerfAarch64Regs,
    Seq<char>,
> {
    if ones(mask as nat) != values.len() {
        Err("perf register mask and value count differ"@)
    } else {
        match (
            masked(mask, values, 32),
            masked(mask, values, 31),
            masked(mask, values, 29),
            masked(mask, values, 30),
        ) {
            (None, _, _, _) => Err("perf sample is missing aarch64 PC register"@),
            (Some(_), None, _, _) => Err("perf sample is missing aarch64 SP register"@),
            (Some(_), Some(_), None, _) => Err("perf sample is missing aarch64 FP register"@),
            (Some(_), Some(_), Some(_), None) => Err(
                "perf sample is missing aarch64 LR register"@,
            ),
            (Some(pc), Some(sp), Some(fp), Some(lr)) => Ok(PerfAarch64Regs { pc, sp, fp, lr }),
        }
    }
}

impl PerfAarch64Regs {
    /// Builds the minimal aarch64 register set needed for stack unwinding from
    /// perf's ascending register-mask encoding (`PERF_REG_ARM64_*`: x29/fp=29,
    /// lr=30, sp=31, pc=32).
    ///
    /// # Errors
    ///
    /// Returns an error when the value slice does not match the number of set
    /// bits in `mask` or a required register is missing.
    pub fn from_perf_masked_values(mask: u64, values: &[u64]) -> (result: Result<
        PerfAarch64Regs,
        String,
    >)
        ensures
            outcome(result) == aarch64_regs_of(mask, values@),
    {
        if count_ones(mask) != values.len() {
            return Err("perf register mask and value count differ".to_string());
        }
        let pc: u64 = match perf_user_reg_value(mask, values, 32) {
            Some(pc) => pc,
            None => return Err("perf sample is missing aarch64 PC register".to_string()),
        };
        let sp: u64 = match perf_user_reg_value(mask, values, 31) {
            Some(sp) => sp,
            None => return Err("perf sample is missing aarch64 SP register".to_string()),
        };
        let fp: u64 = match perf_user_reg_value(mask, values, 29) {
            Some(fp) => fp,
            None => return Err("perf sample is missing aarch64 FP register".to_string()),
        };
        let lr: u64 = match perf_user_reg_value(mask, values, 30) {
            Some(lr) => lr,
            None => return Err("perf sample is missing aarch64 LR register".to_string()),
        };
        Ok(PerfAarch64Regs { pc, sp, fp, lr })
    }
}

/// The registers that recorded values state on an architecture.
pub open spec fn user_regs_of(arch: PerfArch, mask: u64, values: Seq<u64>) -> Result<
    RegsModel,
    Seq<char>,
> {
    match arch {
        PerfArch::X86_64 => match x86_regs_of(mask, values) {
            Ok(regs) => Ok(RegsModel::X86_64(regs)),
            Err(error) => Err(error),
        },
        PerfArch::Aarch64 => match aarch64_regs_of(mask, values) {
            Ok(regs) => Ok(RegsModel::Aarch64(regs)),
            Err(error) => Err(error),
        },
    }
}

impl PerfUserRegs {
    /// Decodes the minimal user register set for `arch` from perf's ascending
    /// register-mask encoding.
    ///
    /// # Errors
    ///
    /// Returns an error when the value slice does not match the mask or a
    /// register required for unwinding is missing.
    pub fn from_perf_masked_values(arch: PerfArch, mask: u64, values: &[u64]) -> (result: Result<
        PerfUserRegs,
        String,
    >)
        ensures
            outcome(result) == user_regs_of(arch, mask, values@),
    {
        match arch {
            PerfArch::X86_64 => {
                let regs = PerfX86_64Regs::from_perf_masked_values(mask, values)?;
                Ok(PerfUserRegs::X86_64(regs))
            },
            PerfArch::Aarch64 => {
                let regs = PerfAarch64Regs::from_perf_masked_values(mask, values)?;
                Ok(PerfUserRegs::Aarch64(regs))
            },
        }
    }

    /// The architecture of the registers.
    #[must_use]
    pub fn arch(self) -> (arch: PerfArch)
        ensures
            arch == self@.arch(),
    {
        match self {
            PerfUserRegs::X86_64(_) => PerfArch::X86_64,
            PerfUserRegs::Aarch64(_) => PerfArch::Aarch64,
        }
    }

    /// The sampled instruction pointer (x86_64 IP / aarch64 PC).
    #[must_use]
    pub fn ip(self) -> (ip: u64)
        ensures
            ip == self@.ip(),
    {
        match self {
            PerfUserRegs::X86_64(regs) => regs.ip,
            PerfUserRegs::Aarch64(regs) => regs.pc,
        }
    }

    /// The sampled stack pointer.
    #[must_use]
    pub fn sp(self) -> (sp: u64)
        ensures
            sp == self@.sp(),
    {
        match self {
            PerfUserRegs::X86_64(regs) => regs.sp,
            PerfUserRegs::Aarch64(regs) => regs.sp,
        }
    }

    /// Whether the sample looks like an x86_64 syscall-return state. aarch64 has no
    /// analogue, so this is always `false` there.
    #[must_use]
    pub fn is_syscall_return_state(self) -> (found: bool)
        ensures
            found == (self@ matches RegsModel::X86_64(regs) && syscall_return_state(regs)),
    {
        match self {
            PerfUserRegs::X86_64(regs) => regs.is_syscall_return_state(),
            PerfUserRegs::Aarch64(_) => false,
        }
    }

    /// The x86_64 `ebl_unwind` frame-pointer precondition `bp >= sp`.
    ///
    /// elfutils' x86_64 backend only walks the rbp chain when the frame pointer
    /// sits at or above the stack pointer. aarch64's backend has no such
    /// precondition (its accept condition is internal to the walk), so this
    /// returns `false` there and the fallback is gated differently.
    #[must_use]
    pub fn frame_pointer_at_or_above_stack_pointer(self) -> (found: bool)
        ensures
            found == (self@ matches RegsModel::X86_64(regs) && regs.bp >= regs.sp),
    {
        match self {
            PerfUserRegs::X86_64(regs) => regs.bp >= regs.sp,
            PerfUserRegs::Aarch64(_) => false,
        }
    }
}

// ---------------------------------------------------------------------------
// Captured memory
// ---------------------------------------------------------------------------

/// The word at an address, when bytes were captured from address `start` on.
pub open spec fn captured_word(start: u64, bytes: Seq<u8>, address: u64) -> Option<u64> {
    if start <= address && address - start <= usize::MAX && address - start + 8 <= bytes.len() {
        Some(le_u64(bytes, address - start))
    } else {
        None
    }
}

/// Reads words from captured stack bytes.
pub struct PerfStackReader<'a> {
    sp: u64,
    bytes: &'a [u8],
}

impl<'a> PerfStackReader<'a> {
    /// The address of the first captured byte.
    pub closed spec fn start(&self) -> u64 {
        self.sp
    }

    /// The captured bytes.
    pub closed spec fn captured(&self) -> Seq<u8> {
        self.bytes@
    }

    /// A reader of bytes that were captured from the stack pointer on.
    #[must_use]
    pub fn new(sp: u64, bytes: &'a [u8]) -> (reader: PerfStackReader<'a>)
        ensures
            reader.start() == sp,
            reader.captured() == bytes@,
    {
        PerfStackReader { sp, bytes }
    }

    /// Reads the word at an address, if all its bytes were captured.
    #[must_use]
    pub fn read_u64(&self, address: u64) -> (word: Option<u64>)
        ensures
            word == captured_word(self.start(), self.captured(), address),
    {
        if address < self.sp {
            return None;
        }
        let offset: usize = match size_from_u64(address - self.sp) {
            Some(offset) => offset,
            None => return None,
        };
        if self.bytes.len() < 8 || offset > self.bytes.len() - 8 {
            return None;
        }
        Some(u64_at(self.bytes, offset))
    }
}

/// Reads words of a process: from its captured stack, and elsewhere from mapped files.
pub struct PerfUserMemoryReader<'a, F> {
    sp: u64,
    stack: &'a [u8],
    mapped_read: F,
}

/// Whether a word lies wholly in captured stack bytes.
pub open spec fn on_stack(sp: u64, stack: Seq<u8>, address: u64) -> bool {
    sp <= address && address + 8 <= sp + stack.len()
}

/// Whether an address, or the stack's end, is so high that no word can be read at all.
pub open spec fn out_of_space(sp: u64, stack: Seq<u8>, address: u64) -> bool {
    address + 8 > u64::MAX || sp + stack.len() > u64::MAX
}

impl<'a, F: Fn(u64) -> Option<u64>> PerfUserMemoryReader<'a, F> {
    /// The stack pointer.
    pub closed spec fn start(&self) -> u64 {
        self.sp
    }

    /// The captured stack bytes.
    pub closed spec fn captured(&self) -> Seq<u8> {
        self.stack@
    }

    /// What reads words outside the stack.
    pub closed spec fn elsewhere(&self) -> F {
        self.mapped_read
    }

    /// A reader of a captured stack that asks `mapped_read` for words elsewhere.
    #[must_use]
    pub fn new(sp: u64, stack: &'a [u8], mapped_read: F) -> (reader: PerfUserMemoryReader<'a, F>)
        ensures
            reader.start() == sp,
            reader.captured() == stack@,
            reader.elsewhere() == mapped_read,
    {
        PerfUserMemoryReader { sp, stack, mapped_read }
    }

    /// Reads the word at an address: no word that would leave the address space, the stack's
    /// word inside the captured stack, and otherwise what mapped memory holds.
    #[must_use]
    pub fn read_u64(&self, address: u64) -> (word: Option<u64>)
        requires
            call_requires(self.elsewhere(), (address,)),
        ensures
            if out_of_space(self.start(), self.captured(), address) {
                word is None
            } else if on_stack(self.start(), self.captured(), address) {
                word == Some(le_u64(self.captured(), address - self.start()))
            } else {
                call_ensures(self.elsewhere(), (address,), word)
            },
    {
        let word_end: u64 = match address.checked_add(8) {
            Some(end) => end,
            None => return None,
        };
        let stack_end: u64 = match self.sp.checked_add(self.stack.len() as u64) {
            Some(end) => end,
            None => return None,
        };
        if address < self.sp || word_end > stack_end {
            return (self.mapped_read)(address);
        }
        Some(u64_at(self.stack, (address - self.sp) as usize))
    }
}

// ---------------------------------------------------------------------------
// Frame-pointer walks
// ---------------------------------------------------------------------------

/// Sum that stays at the largest address.
pub open spec fn capped(value: int) -> u64 {
    if value > u64::MAX {
        u64::MAX
    } else {
        value as u64
    }
}

/// A return address as it is reported: the address of the call, one byte earlier.
pub open spec fn call_address(address: u64) -> u64 {
    if address == 0 {
        0
    } else {
        (address - 1) as u64
    }
}

/// Adds an address the way it is reported: the first as it is, later ones as call addresses.
fn push_perf_unwind_address(frames: &mut Vec<u64>, address: u64)
    ensures
        final(frames)@ == old(frames)@.push(
            if old(frames)@.len() == 0 {
                address
            } else {
                call_address(address)
            },
        ),
{
    let reported: u64 = if frames.is_empty() {
        address
    } else {
        address.saturating_sub(1)
    };
    frames.push(reported);
}

/// The callers, at most `room` of them, that the chain of saved frame pointers leads to. A step
/// needs a readable return address and must move the stack pointer up; an unreadable or zero
/// saved frame pointer ends the chain behind its caller.
pub open spec fn x86_callers(sp: u64, stack: Seq<u8>, fp: u64, at: u64, room: nat) -> Seq<u64>
    decreases room,
{
    let next_sp = capped(fp + 16);
    match captured_word(sp, stack, capped(fp + 8)) {
        Some(ret) if room > 0 && at < next_sp => {
            let saved = match captured_word(sp, stack, fp) {
                Some(saved) => saved,
                None => 0,
            };
            seq![call_address(ret)] + if saved == 0 {
                Seq::empty()
            } else {
                x86_callers(sp, stack, saved, next_sp, (room - 1) as nat)
            }
        },
        _ => Seq::empty(),
    }
}

/// The frames of an `x86_64` frame-pointer walk: the sampled address, then its callers.
pub open spec fn x86_walk(regs: X86Model, stack: Seq<u8>, max_frames: nat) -> Seq<u64> {
    if max_frames == 0 || regs.bp == 0 {
        Seq::empty()
    } else {
        seq![regs.ip] + x86_callers(regs.sp, stack, regs.bp, regs.sp, (max_frames - 1) as nat)
    }
}

/// Walks an x86_64 frame-pointer chain the way elfutils' `ebl_unwind` backend does.
#[must_use]
pub fn unwind_x86_64_frame_pointer_stack_like_elfutils(
    regs: PerfX86_64Regs,
    stack: &[u8],
    max_frames: usize,
) -> (frames: Vec<u64>)
    ensures
        frames@ == x86_walk(regs@, stack@, max_frames as nat),
{
    let memory_reader = PerfStackReader::new(regs.sp, stack);
    let mut frames: Vec<u64> = Vec::new();
    if max_frames == 0 || regs.bp == 0 {
        return frames;
    }
    frames.push(regs.ip);
    let mut fp: u64 = regs.bp;
    let mut sp: u64 = regs.sp;
    let ghost whole = x86_walk(regs@, stack@, max_frames as nat);
    assert(frames@ =~= seq![regs.ip]);
    while frames.len() < max_frames
        invariant_except_break
            1 <= frames@.len() <= max_frames,
            memory_reader.start() == regs.sp,
            memory_reader.captured() == stack@,
            whole == frames@ + x86_callers(
                regs.sp,
                stack@,
                fp,
                sp,
                (max_frames - frames@.len()) as nat,
            ),
        ensures
            frames@ == whole,
        decreases max_frames - frames@.len(),
    {
        let ghost before = frames@;
        let ghost room = (max_frames - frames@.len()) as nat;
        let prev_fp: u64 = match memory_reader.read_u64(fp) {
            Some(word) => word,
            None => 0,
        };
        let ret: u64 = match memory_reader.read_u64(fp.saturating_add(8)) {
            Some(word) => word,
            None => {
                assert(frames@ + Seq::<u64>::empty() =~= frames@);
                break;
            },
        };
        let next_sp: u64 = fp.saturating_add(16);
        if sp >= next_sp {
            assert(frames@ + Seq::<u64>::empty() =~= frames@);
            break;
        }
        push_perf_unwind_address(&mut frames, ret);
        proof {
            let rest = if prev_fp == 0 {
                Seq::empty()
            } else {
                x86_callers(regs.sp, stack@, prev_fp, next_sp, (room - 1) as nat)
            };
            assert(before + (seq![call_address(ret)] + rest) =~= frames@ + rest);
            assert(frames@ + Seq::<u64>::empty() =~= frames@);
        }
        fp = prev_fp;
        sp = next_sp;
        if fp == 0 {
            break;
        }
    }
    frames
}

/// The callers, at most `room` of them, that the link register and the chain of saved frames
/// lead to. A zero link register ends the walk; a step from a frame pointer that is not zero
/// must move the stack pointer up; unreadable words count as zero.
pub open spec fn aarch64_callers(
    sp: u64,
    stack: Seq<u8>,
    lr: u64,
    fp: u64,
    at: u64,
    room: nat,
) -> Seq<u64>
    decreases room,
{
    let next_sp = capped(fp + 16);
    if room == 0 || lr == 0 || (fp != 0 && next_sp <= at) {
        Seq::empty()
    } else {
        let next_lr = match captured_word(sp, stack, capped(fp + 8)) {
            Some(word) => word,
            None => 0,
        };
        let next_fp = match captured_word(sp, stack, fp) {
            Some(word) => word,
            None => 0,
        };
        seq![call_address(lr)] + aarch64_callers(
            sp,
            stack,
            next_lr,
            next_fp,
            next_sp,
            (room - 1) as nat,
        )
    }
}

/// The frames of an `aarch64` frame-pointer walk: the sampled address, then its callers.
pub open spec fn aarch64_walk(
    regs: PerfAarch64Regs,
    stack: Seq<u8>,
    max_frames: nat,
) -> Seq<u64> {
    if max_frames == 0 {
        Seq::empty()
    } else {
        seq![regs.pc] + aarch64_callers(
            regs.sp,
            stack,
            regs.lr,
            regs.fp,
            regs.sp,
            (max_frames - 1) as nat,
        )
    }
}

/// Walks an aarch64 frame-pointer chain the way elfutils' `ebl_unwind` backend
/// does when no CFI covers the program counter.
///
/// Faithful to elfutils backends/aarch64_unwind.c: the caller's pc is the
/// current lr (zero lr ends the walk before any caller is accepted), the next
/// lr/fp load from `fp+8`/`fp+0` (zero on failed reads), the next sp is
/// `fp+16`, and a step is accepted iff `fp == 0 || new_sp > sp`. Unlike the
/// x86_64 backend there is no `fp >= sp` precondition, so a zero frame pointer
/// still yields one lr-based caller.
#[must_use]
pub fn unwind_aarch64_frame_pointer_stack_like_elfutils(
    regs: PerfAarch64Regs,
    stack: &[u8],
    max_frames: usize,
) -> (frames: Vec<u64>)
    ensures
        frames@ == aarch64_walk(regs, stack@, max_frames as nat),
{
    let memory_reader = PerfStackReader::new(regs.sp, stack);
    let mut frames: Vec<u64> = Vec::new();
    if max_frames == 0 {
        return frames;
    }
    frames.push(regs.pc);
    let mut lr: u64 = regs.lr;
    let mut fp: u64 = regs.fp;
    let mut sp: u64 = regs.sp;
    let ghost whole = aarch64_walk(regs, stack@, max_frames as nat);
    assert(frames@ =~= seq![regs.pc]);
    while frames.len() < max_frames
        invariant_except_break
            1 <= frames@.len() <= max_frames,
            memory_reader.start() == regs.sp,
            memory_reader.captured() == stack@,
            whole == frames@ + aarch64_callers(
                regs.sp,
                stack@,
                lr,
                fp,
                sp,
                (max_frames - frames@.len()) as nat,
            ),
        ensures
            frames@ == whole,
        decreases max_frames - frames@.len(),
    {
        let ghost before = frames@;
        let ghost room = (max_frames - frames@.len()) as nat;
        assert(frames@ + Seq::<u64>::empty() =~= frames@);
        if lr == 0 {
            break;
        }
        let new_lr: u64 = match memory_reader.read_u64(fp.saturating_add(8)) {
            Some(word) => word,
            None => 0,
        };
        let new_fp: u64 = match memory_reader.read_u64(fp) {
            Some(word) => word,
            None => 0,
        };
        let new_sp: u64 = fp.saturating_add(16);
        if fp != 0 && new_sp <= sp {
            break;
        }
        push_perf_unwind_address(&mut frames, lr);
        proof {
            let rest = aarch64_callers(regs.sp, stack@, new_lr, new_fp, new_sp, (room - 1) as nat);
            assert(before + (seq![call_address(lr)] + rest) =~= frames@ + rest);
        }
        lr = new_lr;
        fp = new_fp;
        sp = new_sp;
        assert(frames@ + Seq::<u64>::empty() =~= frames@);
    }
    frames
}

/// A frame-pointer walk yields no more frames than asked for, and the sampled address first.
pub proof fn x86_walk_bounds(regs: X86Model, stack: Seq<u8>, max_frames: nat)
    ensures
        x86_walk(regs, stack, max_frames).len() <= max_frames,
        x86_walk(regs, stack, max_frames).len() > 0 <==> max_frames > 0 && regs.bp != 0,
        max_frames > 0 && regs.bp != 0 ==> x86_walk(regs, stack, max_frames)[0] == regs.ip,
{
    if max_frames > 0 {
        x86_callers_bound(regs.sp, stack, regs.bp, regs.sp, (max_frames - 1) as nat);
    }
}

proof fn x86_callers_bound(sp: u64, stack: Seq<u8>, fp: u64, at: u64, room: nat)
    ensures
        x86_callers(sp, stack, fp, at, room).len() <= room,
    decreases room,
{
    if room > 0 {
        let saved = match captured_word(sp, stack, fp) {
            Some(saved) => saved,
            None => 0,
        };
        x86_callers_bound(sp, stack, saved, capped(fp + 16), (room - 1) as nat);
    }
}

/// A frame-pointer walk yields no more frames than asked for, and the sampled address first.
pub proof fn aarch64_walk_bounds(regs: PerfAarch64Regs, stack: Seq<u8>, max_frames: nat)
    ensures
        aarch64_walk(regs, stack, max_frames).len() <= max_frames,
        max_frames > 0 ==> aarch64_walk(regs, stack, max_frames).len() > 0 && aarch64_walk(
            regs,
            stack,
            max_frames,
        )[0] == regs.pc,
{
    if max_frames > 0 {
        aarch64_callers_bound(regs.sp, stack, regs.lr, regs.fp, regs.sp, (max_frames - 1) as nat);
    }
}

proof fn aarch64_callers_bound(sp: u64, stack: Seq<u8>, lr: u64, fp: u64, at: u64, room: nat)
    ensures
        aarch64_callers(sp, stack, lr, fp, at, room).len() <= room,
    decreases room,
{
    if room > 0 {
        let next_lr = match captured_word(sp, stack, capped(fp + 8)) {
            Some(word) => word,
            None => 0,
        };
        let next_fp = match captured_word(sp, stack, fp) {
            Some(word) => word,
            None => 0,
        };
        aarch64_callers_bound(sp, stack, next_lr, next_fp, capped(fp + 16), (room - 1) as nat);
    }
}

/// Frames that lack call-frame information are kept: an accepted frame is never taken back.
pub fn truncate_at_first_uncovered_unwind_frame(
    frames: &mut Vec<u64>,
    has_unwind_info: impl Fn(u64) -> bool,
)
    ensures
        final(frames)@ == old(frames)@,
{
    let _ = has_unwind_info;
}

// ---------------------------------------------------------------------------
// Unwinding with call-frame information
// ---------------------------------------------------------------------------

/// Declares `framehop::x86_64::UnwinderX86_64`.
#[verifier::external_type_specification]
#[verifier::external_body]
#[verifier::reject_recursive_types(D)]
#[verifier::reject_recursive_types(P)]
pub struct ExUnwinderX86_64<D, P>(framehop::x86_64::UnwinderX86_64<D, P>);

/// Declares `framehop::aarch64::UnwinderAarch64`.
#[verifier::external_type_specification]
#[verifier::external_body]
#[verifier::reject_recursive_types(D)]
#[verifier::reject_recursive_types(P)]
pub struct ExUnwinderAarch64<D, P>(framehop::aarch64::UnwinderAarch64<D, P>);

/// Declares `framehop::MayAllocateDuringUnwind`.
#[verifier::external_type_specification]
#[verifier::external_body]
pub struct ExMayAllocateDuringUnwind(framehop::MayAllocateDuringUnwind);

/// A module as an unwinder is given it: its addresses, its base and its sections.
#[verifier::ext_equal]
pub struct ModuleModel {
    pub range: AddressRange,
    pub base: u64,
    pub sections: SectionsModel,
}

/// The modules given to an `x86_64` unwinder, in that order.
pub uninterp spec fn x86_64_modules(
    unwinder: UnwinderX86_64<Vec<u8>, MayAllocateDuringUnwind>,
) -> Seq<ModuleModel>;

/// The modules given to an `aarch64` unwinder, in that order.
pub uninterp spec fn aarch64_modules(
    unwinder: UnwinderAarch64<Vec<u8>, MayAllocateDuringUnwind>,
) -> Seq<ModuleModel>;

/// `UnwinderX86_64::new`: an unwinder without modules.
#[verifier::external_body]
fn new_x86_64_unwinder() -> (unwinder: UnwinderX86_64<Vec<u8>, MayAllocateDuringUnwind>)
    ensures
        x86_64_modules(unwinder) == Seq::<ModuleModel>::empty(),
{
    UnwinderX86_64::new()
}

/// `UnwinderAarch64::new`: an unwinder without modules.
#[verifier::external_body]
fn new_aarch64_unwinder() -> (unwinder: UnwinderAarch64<Vec<u8>, MayAllocateDuringUnwind>)
    ensures
        aarch64_modules(unwinder) == Seq::<ModuleModel>::empty(),
{
    UnwinderAarch64::new()
}

/// `Unwinder::add_module` of `UnwinderX86_64`, with the `Module` built from the sections.
#[verifier::external_body]
fn add_x86_64_module(
    unwinder: &mut UnwinderX86_64<Vec<u8>, MayAllocateDuringUnwind>,
    name: String,
    range: AddressRange,
    base: u64,
    sections: ModuleSections,
)
    ensures
        x86_64_modules(*final(unwinder)) == x86_64_modules(*old(unwinder)).push((ModuleModel { range, base, sections: sections@ })),
{
    let s = sections;
    let span = |range: AddressRange| range.start..range.end;
    let info = framehop::ExplicitModuleSectionInfo {
        base_svma: s.base_svma, text_svma: s.text_svma.map(span), text: s.text,
        stubs_svma: s.stubs_svma.map(span), stub_helper_svma: s.stub_helper_svma.map(span),
        got_svma: s.got_svma.map(span), unwind_info: s.unwind_info,
        eh_frame_svma: s.eh_frame_svma.map(span), eh_frame: s.eh_frame,
        eh_frame_hdr_svma: s.eh_frame_hdr_svma.map(span), eh_frame_hdr: s.eh_frame_hdr,
        debug_frame: s.debug_frame, text_segment_svma: s.text_segment_svma.map(span),
        text_segment: s.text_segment,
    };
    unwinder.add_module(framehop::Module::new(name, span(range), base, info));
}

/// `Unwinder::add_module` of `UnwinderAarch64`, with the `Module` built from the sections.
#[verifier::external_body]
fn add_aarch64_module(
    unwinder: &mut UnwinderAarch64<Vec<u8>, MayAllocateDuringUnwind>,
    name: String,
    range: AddressRange,
    base: u64,
    sections: ModuleSections,
)
    ensures
        aarch64_modules(*final(unwinder)) == aarch64_modules(*old(unwinder)).push((ModuleModel { range, base, sections: sections@ })),
{
    let s = sections;
    let span = |range: AddressRange| range.start..range.end;
    let info = framehop::ExplicitModuleSectionInfo {
        base_svma: s.base_svma, text_svma: s.text_svma.map(span), text: s.text,
        stubs_svma: s.stubs_svma.map(span), stub_helper_svma: s.stub_helper_svma.map(span),
        got_svma: s.got_svma.map(span), unwind_info: s.unwind_info,
        eh_frame_svma: s.eh_frame_svma.map(span), eh_frame: s.eh_frame,
        eh_frame_hdr_svma: s.eh_frame_hdr_svma.map(span), eh_frame_hdr: s.eh_frame_hdr,
        debug_frame: s.debug_frame, text_segment_svma: s.text_segment_svma.map(span),
        text_segment: s.text_segment,
    };
    unwinder.add_module(framehop::Module::new(name, span(range), base, info));
}

/// Memory of a process: its captured stack, and mapped files elsewhere.
pub struct UserMemory<'a> {
    sp: u64,
    stack: &'a [u8],
    modules: &'a Vec<ReportedModule>,
}

/// The contents of a [`UserMemory`].
#[verifier::ext_equal]
pub struct UserMemoryModel {
    pub sp: u64,
    pub stack: Seq<u8>,
    pub mapped: Seq<MemoryModel>,
}

/// The word at an address in the first piece of mapped memory, from `from` on, that holds it.
pub open spec fn mapped_word(mapped: Seq<MemoryModel>, from: int, address: u64) -> Option<u64>
    decreases mapped.len() - from,
{
    if from >= mapped.len() {
        None
    } else {
        match captured_word(mapped[from].start, mapped[from].bytes, address) {
            Some(word) => Some(word),
            None => mapped_word(mapped, from + 1, address),
        }
    }
}

/// The word at an address of a process.
pub open spec fn user_word(memory: UserMemoryModel, address: u64) -> Option<u64> {
    if out_of_space(memory.sp, memory.stack, address) {
        None
    } else if on_stack(memory.sp, memory.stack, address) {
        Some(le_u64(memory.stack, address - memory.sp))
    } else {
        mapped_word(memory.mapped, 0, address)
    }
}

/// The memory of all modules, one behind the other.
pub open spec fn modules_memory(modules: Seq<ReportedModel>, count: int) -> Seq<MemoryModel>
    decreases count,
{
    if count <= 0 {
        Seq::empty()
    } else {
        modules_memory(modules, count - 1) + modules[count - 1].memory()
    }
}

/// An object that was added for a process: its base, and the bytes of its file.
#[verifier::ext_equal]
pub struct ReportedModel {
    pub base: u64,
    pub image: Seq<u8>,
}

/// The segments of an object that parses; none otherwise.
pub open spec fn segments_in(image: Seq<u8>) -> Seq<SegmentModel> {
    match object_segments_of(image) {
        Ok(segments) => segments,
        Err(_) => Seq::empty(),
    }
}

/// The addresses of an object at a base; none without segments.
pub open spec fn module_range_of(image: Seq<u8>, base: u64) -> Option<AddressRange> {
    match load_span(segments_in(image), segments_in(image).len() as int) {
        Some(span) => Some(
            AddressRange {
                start: address_sum(base, span.start),
                end: address_sum(base, span.end),
            },
        ),
        None => None,
    }
}

impl ReportedModel {
    /// The bytes of the object's segments, each at its address.
    pub open spec fn memory(self) -> Seq<MemoryModel> {
        memory_of(
            self.image,
            segments_in(self.image),
            self.base,
            segments_in(self.image).len() as int,
        )
    }

    /// The addresses of the object.
    pub open spec fn range(self) -> AddressRange {
        module_range_of(self.image, self.base)->Some_0
    }

    /// The object as an unwinder is given it.
    pub open spec fn module(self, arch: PerfArch) -> ModuleModel {
        ModuleModel {
            range: self.range(),
            base: self.base,
            sections: usable_sections(
                arch,
                module_sections_of(self.image, segments_in(self.image)),
                self.range(),
                self.base,
            ),
        }
    }
}

/// An object that was added for a process.
pub struct ReportedModule {
    base: u64,
    range: AddressRange,
    memory: Vec<ModuleMemorySegment>,
    unwind_ranges: Vec<AddressRange>,
    image: Ghost<Seq<u8>>,
}

impl View for ReportedModule {
    type V = ReportedModel;

    closed spec fn view(&self) -> ReportedModel {
        ReportedModel { base: self.base, image: self.image@ }
    }
}

impl ReportedModule {
    /// Whether range, memory and covered addresses are those of the object.
    pub closed spec fn wf(&self) -> bool {
        &&& module_range_of(self@.image, self@.base) == Some(self.range)
        &&& views(self.memory@) == self@.memory()
        &&& normal(self.unwind_ranges@)
        &&& forall|address: u64|
            covered(self.unwind_ranges@, address) <==> #[trigger] covered(
                unwind_ranges_of(self@.image, self@.base),
                address,
            )
    }

    /// The addresses of the object.
    pub fn range(&self) -> (range: AddressRange)
        requires
            self.wf(),
        ensures
            range == self@.range(),
    {
        self.range
    }
}

fn read_segments(
    segments: &Vec<ModuleMemorySegment>,
    address: u64,
) -> (word: Option<u64>)
    ensures
        word == mapped_word(views(segments@), 0, address),
{
    let mut i: usize = 0;
    while i < segments.len()
        invariant
            i <= segments@.len(),
            mapped_word(views(segments@), 0, address) == mapped_word(
                views(segments@),
                i as int,
                address,
            ),
        decreases segments@.len() - i,
    {
        assert(views(segments@)[i as int] == segments@[i as int]@);
        let reader = PerfStackReader::new(segments[i].start, segments[i].bytes.as_slice());
        if let Some(word) = reader.read_u64(address) {
            return Some(word);
        }
        i += 1;
    }
    None
}

proof fn mapped_word_of_sum(left: Seq<MemoryModel>, right: Seq<MemoryModel>, from: int, address: u64)
    requires
        0 <= from <= left.len(),
    ensures
        mapped_word(left + right, from, address) == match mapped_word(left, from, address) {
            Some(word) => Some(word),
            None => mapped_word(right, 0, address),
        },
    decreases left.len() - from,
{
    let all = left + right;
    if from < left.len() {
        assert(all[from] == left[from]);
        mapped_word_of_sum(left, right, from + 1, address);
    } else {
        mapped_word_shifted(left, right, 0, address);
    }
}

proof fn mapped_word_shifted(left: Seq<MemoryModel>, right: Seq<MemoryModel>, from: int, address: u64)
    requires
        0 <= from <= right.len(),
    ensures
        mapped_word(left + right, left.len() + from, address) == mapped_word(right, from, address),
    decreases right.len() - from,
{
    let all = left + right;
    if from < right.len() {
        assert(all[left.len() + from] == right[from]);
        mapped_word_shifted(left, right, from + 1, address);
    }
}

/// Reads the word at an address from the objects' memory.
fn read_reported_module_u64(modules: &Vec<ReportedModule>, address: u64) -> (word: Option<u64>)
    requires
        forall|i: int| 0 <= i < modules@.len() ==> (#[trigger] modules@[i]).wf(),
    ensures
        word == mapped_word(
            modules_memory(views(modules@), modules@.len() as int),
            0,
            address,
        ),
{
    let mut word: Option<u64> = None;
    let mut i: usize = 0;
    let ghost all = views(modules@);
    while i < modules.len()
        invariant
            i <= modules@.len(),
            all == views(modules@),
            forall|i: int| 0 <= i < modules@.len() ==> (#[trigger] modules@[i]).wf(),
            word == mapped_word(modules_memory(all, i as int), 0, address),
        decreases modules@.len() - i,
    {
        assert(all[i as int] == modules@[i as int]@);
        assert(modules@[i as int].wf());
        proof {
            mapped_word_of_sum(modules_memory(all, i as int), all[i as int].memory(), 0, address);
        }
        if word.is_none() {
            word = read_segments(&modules[i].memory, address);
        }
        i += 1;
    }
    word
}

impl<'a> View for UserMemory<'a> {
    type V = UserMemoryModel;

    closed spec fn view(&self) -> UserMemoryModel {
        UserMemoryModel {
            sp: self.sp,
            stack: self.stack@,
            mapped: modules_memory(views(self.modules@), self.modules@.len() as int),
        }
    }
}

impl<'a> UserMemory<'a> {
    spec fn wf(&self) -> bool {
        forall|i: int| 0 <= i < self.modules@.len() ==> (#[trigger] self.modules@[i]).wf()
    }

    /// Reads the word at an address.
    fn read_u64(&self, address: u64) -> (word: Option<u64>)
        requires
            self.wf(),
        ensures
            word == user_word(self@, address),
    {
        let word_end: u64 = match address.checked_add(8) {
            Some(end) => end,
            None => return None,
        };
        let stack_end: u64 = match self.sp.checked_add(self.stack.len() as u64) {
            Some(end) => end,
            None => return None,
        };
        if address < self.sp || word_end > stack_end {
            return read_reported_module_u64(self.modules, address);
        }
        Some(u64_at(self.stack, (address - self.sp) as usize))
    }

    /// Reads the word at an address for an `x86_64` walk.
    fn read_below_top(&self, address: u64) -> (word: Option<u64>)
        requires
            self.wf(),
        ensures
            word == word_below_top(self@, address),
    {
        if address > LAST_STACK_WORD {
            return None;
        }
        self.read_u64(address)
    }
}

/// The last stack pointer of an `x86_64` frame: a linkage table may find the next frame sixteen
/// bytes above it.
pub const LAST_STACK_POINTER: u64 = 0xffff_ffff_ffff_ffef;

/// The last address whose word is read as a return address, eight bytes below the next stack
/// pointer.
pub const LAST_STACK_WORD: u64 = 0xffff_ffff_ffff_ffe7;

/// The word at an address of a process, but for the last words of the address space, behind which
/// no further frame fits.
pub open spec fn word_below_top(memory: UserMemoryModel, address: u64) -> Option<u64> {
    if address > LAST_STACK_WORD {
        None
    } else {
        user_word(memory, address)
    }
}

/// The addresses that `framehop` yields for an `x86_64` stack: the sampled one, then return
/// addresses, at most `max_frames` in all.
pub uninterp spec fn x86_64_addresses(
    modules: Seq<ModuleModel>,
    regs: X86Model,
    memory: UserMemoryModel,
    max_frames: nat,
) -> Seq<u64>;

/// The addresses that `framehop` yields for an `aarch64` stack: the sampled one, then return
/// addresses, at most `max_frames` in all.
pub uninterp spec fn aarch64_addresses(
    modules: Seq<ModuleModel>,
    regs: PerfAarch64Regs,
    memory: UserMemoryModel,
    max_frames: nat,
) -> Seq<u64>;

/// Whether an unwinder can follow the tables of all its modules.
pub open spec fn modules_are_tame(arch: PerfArch, modules: Seq<ModuleModel>) -> bool {
    forall|i: int|
        0 <= i < modules.len() ==> is_tame(
            arch,
            (#[trigger] modules[i]).sections,
            modules[i].range,
            modules[i].base,
        )
}

/// Walks `Unwinder::iter_frames` of `UnwinderX86_64` up to its end, its first error or
/// `max_frames`, with a fresh cache, so that the answer depends on the arguments alone. The first
/// address is the sampled one; a return address is never zero. How the others follow from the
/// modules' call-frame tables is not spelled out. The tables must be ones that can be followed:
/// frames are then found at least eight bytes above zero, as the unwinder takes eight from their
/// addresses, expressions have no branches, and no sum of offsets is out of range. Words are read
/// with [`UserMemory::read_below_top`], so that a stack that begins below the last sixteen bytes
/// of the address space stays below them, and the frame that a linkage table finds fits too.
#[verifier::external_body]
fn unwind_x86_64_addresses(
    unwinder: &UnwinderX86_64<Vec<u8>, MayAllocateDuringUnwind>,
    regs: &PerfX86_64Regs,
    memory: &UserMemory<'_>,
    max_frames: usize,
) -> (addresses: Vec<u64>)
    requires
        memory.wf(),
        regs@.registers[REG_RSP as int] <= LAST_STACK_POINTER,
        modules_are_tame(PerfArch::X86_64, x86_64_modules(*unwinder)),
    ensures
        addresses@ == x86_64_addresses(x86_64_modules(*unwinder), regs@, memory@, max_frames as nat),
        addresses@.len() <= max_frames,
        max_frames > 0 ==> addresses@.len() > 0 && addresses@[0] == regs.ip,
        forall|i: int| 0 < i < addresses@.len() ==> #[trigger] addresses@[i] != 0,
{
    let mut start = UnwindRegsX86_64::new(regs.ip, regs.sp, regs.bp);
    let names = [RAX, RDX, RCX, RBX, RSI, RDI, RBP, RSP, R8, R9, R10, R11, R12, R13, R14, R15];
    names.into_iter().zip(regs.registers).for_each(|(name, value)| start.set(name, value));
    let mut read = |address| memory.read_below_top(address).ok_or(());
    let mut cache = CacheX86_64::new();
    let mut frames = unwinder.iter_frames(regs.ip, start, &mut cache, &mut read);
    let walk = std::iter::from_fn(|| frames.next().ok().flatten());
    walk.map(|frame| frame.address()).take(max_frames).collect()
}

/// Walks `Unwinder::iter_frames` of `UnwinderAarch64` up to its end, its first error or
/// `max_frames`, with a fresh cache, so that the answer depends on the arguments alone. The first
/// address is the sampled one; a return address is never zero. How the others follow from the
/// modules' call-frame tables is not spelled out. The tables must be ones that can be followed:
/// their expressions have no branches, and no sum of offsets is out of range.
#[verifier::external_body]
fn unwind_aarch64_addresses(
    unwinder: &UnwinderAarch64<Vec<u8>, MayAllocateDuringUnwind>,
    regs: &PerfAarch64Regs,
    memory: &UserMemory<'_>,
    max_frames: usize,
) -> (addresses: Vec<u64>)
    requires
        memory.wf(),
        modules_are_tame(PerfArch::Aarch64, aarch64_modules(*unwinder)),
    ensures
        addresses@ == aarch64_addresses(aarch64_modules(*unwinder), *regs, memory@, max_frames as nat),
        addresses@.len() <= max_frames,
        max_frames > 0 ==> addresses@.len() > 0 && addresses@[0] == regs.pc,
        forall|i: int| 0 < i < addresses@.len() ==> #[trigger] addresses@[i] != 0,
{
    let start = UnwindRegsAarch64::new(regs.lr, regs.sp, regs.fp);
    let mut read = |address| memory.read_u64(address).ok_or(());
    let mut cache = CacheAarch64::new();
    let mut frames = unwinder.iter_frames(regs.pc, start, &mut cache, &mut read);
    let walk = std::iter::from_fn(|| frames.next().ok().flatten());
    walk.map(|frame| frame.address()).take(max_frames).collect()
}

/// What an unwinding run found.
#[derive(Clone, Debug, Eq, PartialEq)]
pub struct UserStackUnwindResult {
    pub accepted_frames: Vec<u64>,
    pub framehop_frame_count: usize,
}

impl Default for UserStackUnwindResult {
    fn default() -> (result: UserStackUnwindResult)
        ensures
            result.accepted_frames@ == Seq::<u64>::empty(),
            result.framehop_frame_count == 0,
    {
        UserStackUnwindResult { accepted_frames: Vec::new(), framehop_frame_count: 0 }
    }
}

/// Anything that unwinds a captured user stack.
pub trait UserStackUnwinder {
    /// Whether the unwinder can be used.
    open spec fn ready(&self) -> bool {
        true
    }

    /// Whether the unwinder may accept frames for a stack.
    open spec fn may_yield(
        &self,
        regs: RegsModel,
        stack: Seq<u8>,
        max_frames: nat,
        frames: Seq<u64>,
    ) -> bool {
        true
    }

    /// Whether the unwinder may count frames that it found for a stack.
    open spec fn may_count(
        &self,
        regs: RegsModel,
        stack: Seq<u8>,
        max_frames: nat,
        count: nat,
    ) -> bool {
        true
    }

    /// What the unwinder may be after it was used.
    open spec fn may_become(&self, after: &Self) -> bool {
        true
    }

    /// Unwinds a captured user stack.
    fn unwind_user_stack(
        &mut self,
        regs: PerfUserRegs,
        stack: &[u8],
        max_frames: usize,
    ) -> (result: UserStackUnwindResult)
        requires
            old(self).ready(),
        ensures
            final(self).ready(),
            old(self).may_yield(
                regs@,
                stack@,
                max_frames as nat,
                result.accepted_frames@,
            ),
            old(self).may_count(
                regs@,
                stack@,
                max_frames as nat,
                result.framehop_frame_count as nat,
            ),
            old(self).may_become(final(self)),
    ;
}

impl UserStackUnwinder for FramehopUnwinder {
    open spec fn ready(&self) -> bool {
        self.wf()
    }

    open spec fn may_yield(
        &self,
        regs: RegsModel,
        stack: Seq<u8>,
        max_frames: nat,
        frames: Seq<u64>,
    ) -> bool {
        frames == self@.unwound(regs, stack, max_frames)
    }

    open spec fn may_count(
        &self,
        regs: RegsModel,
        stack: Seq<u8>,
        max_frames: nat,
        count: nat,
    ) -> bool {
        count == self@.unwound(regs, stack, max_frames).len()
    }

    open spec fn may_become(&self, after: &Self) -> bool {
        *after == *self
    }

    fn unwind_user_stack(
        &mut self,
        regs: PerfUserRegs,
        stack: &[u8],
        max_frames: usize,
    ) -> (result: UserStackUnwindResult) {
        self.unwind_stack_with_diagnostics(regs, stack, max_frames)
    }
}

enum ArchUnwinder {
    X86_64(UnwinderX86_64<Vec<u8>, MayAllocateDuringUnwind>),
    Aarch64(UnwinderAarch64<Vec<u8>, MayAllocateDuringUnwind>),
}

impl ArchUnwinder {
    spec fn arch(&self) -> PerfArch {
        match *self {
            ArchUnwinder::X86_64(_) => PerfArch::X86_64,
            ArchUnwinder::Aarch64(_) => PerfArch::Aarch64,
        }
    }

    spec fn modules(&self) -> Seq<ModuleModel> {
        match *self {
            ArchUnwinder::X86_64(unwinder) => x86_64_modules(unwinder),
            ArchUnwinder::Aarch64(unwinder) => aarch64_modules(unwinder),
        }
    }
}

/// The objects and the refused mappings of a process, for unwinding its stacks.
#[verifier::ext_equal]
pub struct UnwinderModel {
    pub arch: PerfArch,
    pub modules: Seq<ReportedModel>,
    pub rejected: Seq<AddressRange>,
}

/// The modules as an unwinder is given them.
pub open spec fn given_modules(arch: PerfArch, modules: Seq<ReportedModel>) -> Seq<ModuleModel> {
    Seq::new(modules.len(), |i: int| modules[i].module(arch))
}

/// An unwinder can follow the tables of all modules that it is given.
proof fn given_modules_are_tame(arch: PerfArch, modules: Seq<ReportedModel>)
    ensures
        modules_are_tame(arch, given_modules(arch, modules)),
{
    let given = given_modules(arch, modules);
    assert forall|i: int| 0 <= i < given.len() implies is_tame(
        arch,
        (#[trigger] given[i]).sections,
        given[i].range,
        given[i].base,
    ) by {
        usable_sections_are_tame(
            arch,
            module_sections_of(modules[i].image, segments_in(modules[i].image)),
            modules[i].range(),
            modules[i].base,
        );
    }
}

/// Addresses as they are reported: the first as it is, later ones as call addresses.
pub open spec fn reported(addresses: Seq<u64>) -> Seq<u64> {
    Seq::new(
        addresses.len(),
        |i: int|
            if i == 0 {
                addresses[i]
            } else {
                call_address(addresses[i])
            },
    )
}

/// The sampled address alone, where a frame is asked for.
pub open spec fn first_frame(ip: u64, max_frames: nat) -> Seq<u64> {
    if max_frames > 0 {
        seq![ip]
    } else {
        Seq::empty()
    }
}

impl UnwinderModel {
    /// Whether an address lies in a refused mapping.
    pub open spec fn rejects(self, ip: u64) -> bool {
        covered(self.rejected, ip)
    }

    /// Whether an address lies in an object.
    pub open spec fn reports(self, ip: u64) -> bool {
        exists|i: int| 0 <= i < self.modules.len() && (#[trigger] self.modules[i]).range().holds(ip)
    }

    /// Whether some object has call-frame information for an address.
    pub open spec fn covers(self, ip: u64) -> bool {
        exists|i: int|
            0 <= i < self.modules.len() && covered(
                unwind_ranges_of((#[trigger] self.modules[i]).image, self.modules[i].base),
                ip,
            )
    }

    /// The memory that a stack's frames may be read from.
    pub open spec fn memory(self, sp: u64, stack: Seq<u8>) -> UserMemoryModel {
        UserMemoryModel {
            sp,
            stack,
            mapped: modules_memory(self.modules, self.modules.len() as int),
        }
    }

    /// The frames of a stack: none for an address in a refused mapping or registers of another
    /// architecture, only the sampled one where `rsp` points at the last bytes of the address
    /// space.
    pub open spec fn unwound(self, regs: RegsModel, stack: Seq<u8>, max_frames: nat) -> Seq<u64> {
        if self.rejects(regs.ip()) || regs.arch() != self.arch {
            Seq::empty()
        } else {
            match regs {
                RegsModel::X86_64(regs) => if regs.registers[REG_RSP as int] <= LAST_STACK_POINTER {
                    reported(
                        x86_64_addresses(
                            given_modules(self.arch, self.modules),
                            regs,
                            self.memory(regs.sp, stack),
                            max_frames,
                        ),
                    )
                } else {
                    first_frame(regs.ip, max_frames)
                },
                RegsModel::Aarch64(regs) => reported(
                    aarch64_addresses(
                        given_modules(self.arch, self.modules),
                        regs,
                        self.memory(regs.sp, stack),
                        max_frames,
                    ),
                ),
            }
        }
    }

    /// The base of an object that is mapped at `start`: generated code keeps its own start.
    pub open spec fn base_for(path: Seq<char>, start: u64, pgoff: u64) -> u64 {
        if begins_with(path, "/tmp/jitted-"@) {
            start
        } else if start < pgoff {
            0
        } else {
            (start - pgoff) as u64
        }
    }

    /// Whether an object overlaps another one that was added at a different base.
    pub open spec fn conflicts(self, base: u64, range: AddressRange) -> bool {
        exists|i: int|
            0 <= i < self.modules.len() && (#[trigger] self.modules[i]).range().overlaps_with(range)
                && self.modules[i].base != base
    }

    /// Whether an object was added at a base.
    pub open spec fn has_base(self, base: u64) -> bool {
        exists|i: int| 0 <= i < self.modules.len() && (#[trigger] self.modules[i]).base == base
    }

    /// The state after an object was mapped, and whether it was added. An object that conflicts
    /// with another leaves its mapping refused; one at a known base changes nothing.
    pub open spec fn with_object(
        self,
        path: Seq<char>,
        image: Seq<u8>,
        start: u64,
        len: u64,
        pgoff: u64,
    ) -> (UnwinderModel, Result<bool, Seq<char>>) {
        let base = UnwinderModel::base_for(path, start, pgoff);
        if len == 0 {
            (self, Ok(false))
        } else {
            match object_segments_of(image) {
                Err(error) => (
                    self,
                    Err("failed to parse unwind object "@ + path + ": "@ + error),
                ),
                Ok(_) => match module_range_of(image, base) {
                    None => (self, Ok(false)),
                    Some(range) => if self.conflicts(base, range) {
                        (
                            UnwinderModel {
                                rejected: self.rejected.push(
                                    AddressRange { start, end: address_sum(start, len) },
                                ),
                                ..self
                            },
                            Ok(false),
                        )
                    } else if self.has_base(base) {
                        (self, Ok(false))
                    } else {
                        (
                            UnwinderModel {
                                modules: self.modules.push(ReportedModel { base, image }),
                                ..self
                            },
                            Ok(true),
                        )
                    },
                },
            }
        }
    }
}

/// Unwinds the stacks of a process with the call-frame tables of its objects.
pub struct FramehopUnwinder {
    arch: ArchUnwinder,
    reported_modules: Vec<ReportedModule>,
    rejected_mapping_ranges: Vec<AddressRange>,
}

impl View for FramehopUnwinder {
    type V = UnwinderModel;

    closed spec fn view(&self) -> UnwinderModel {
        UnwinderModel {
            arch: self.arch.arch(),
            modules: views(self.reported_modules@),
            rejected: self.rejected_mapping_ranges@,
        }
    }
}

impl FramehopUnwinder {
    /// Whether what is kept of each object is right, and the unwinder was given all objects.
    pub closed spec fn wf(&self) -> bool {
        &&& forall|i: int|
            0 <= i < self.reported_modules@.len() ==> (#[trigger] self.reported_modules@[i]).wf()
        &&& self.arch.modules() == given_modules(self@.arch, self@.modules)
    }

    /// An unwinder of `x86_64` stacks without objects.
    #[must_use]
    pub fn new() -> (unwinder: FramehopUnwinder)
        ensures
            unwinder.wf(),
            unwinder@ == (UnwinderModel {
                arch: PerfArch::X86_64,
                modules: Seq::empty(),
                rejected: Seq::empty(),
            }),
    {
        FramehopUnwinder::with_arch(PerfArch::X86_64)
    }

    /// An unwinder of an architecture's stacks without objects.
    #[must_use]
    pub fn with_arch(arch: PerfArch) -> (unwinder: FramehopUnwinder)
        ensures
            unwinder.wf(),
            unwinder@ == (UnwinderModel { arch, modules: Seq::empty(), rejected: Seq::empty() }),
    {
        let unwinder = FramehopUnwinder {
            arch: match arch {
                PerfArch::X86_64 => ArchUnwinder::X86_64(new_x86_64_unwinder()),
                PerfArch::Aarch64 => ArchUnwinder::Aarch64(new_aarch64_unwinder()),
            },
            reported_modules: Vec::new(),
            rejected_mapping_ranges: Vec::new(),
        };
        assert(views(unwinder.reported_modules@) =~= Seq::<ReportedModel>::empty());
        assert(given_modules(unwinder@.arch, unwinder@.modules) =~= Seq::<ModuleModel>::empty());
        unwinder
    }

    /// Loads unwind sections for a mapped object file.
    ///
    /// # Errors
    ///
    /// Returns an error when the object file cannot be parsed.
    pub fn add_object_mapping(
        &mut self,
        path: &str,
        image: &[u8],
        start: u64,
        len: u64,
        pgoff: u64,
    ) -> (result: Result<bool, String>)
        requires
            old(self).wf(),
        ensures
            final(self).wf(),
            (final(self)@, outcome(result)) == old(self)@.with_object(
                path@,
                image@,
                start,
                len,
                pgoff,
            ),
    {
        if len == 0 {
            return Ok(false);
        }
        let segments = match object_segments(image) {
            Ok(segments) => segments,
            Err(error) => {
                let named = joined("failed to parse unwind object ", path);
                let told = joined(named.as_str(), ": ");
                return Err(joined(told.as_str(), error.as_str()));
            },
        };
        assert(views(segments@) == segments_in(image@));
        let base: u64 = if starts_with(chars_of(path).as_slice(), "/tmp/jitted-") {
            start
        } else {
            start.saturating_sub(pgoff)
        };
        let range = match object_load_range(&segments) {
            Some(span) => AddressRange {
                start: base.saturating_add(span.start),
                end: base.saturating_add(span.end),
            },
            None => return Ok(false),
        };
        assert(module_range_of(image@, base) == Some(range));
        let mut known = false;
        let mut index: usize = 0;
        while index < self.reported_modules.len()
            invariant
                index <= self.reported_modules@.len(),
                *self == *old(self),
                self.wf(),
                len != 0,
                base == UnwinderModel::base_for(path@, start, pgoff),
                object_segments_of(image@) is Ok,
                module_range_of(image@, base) == Some(range),
                forall|i: int|
                    0 <= i < index ==> !((#[trigger] self@.modules[i]).range().overlaps_with(range)
                        && self@.modules[i].base != base),
                known == exists|i: int|
                    0 <= i < index && (#[trigger] self@.modules[i]).base == base,
            decreases self.reported_modules@.len() - index,
        {
            let module = &self.reported_modules[index];
            assert(self@.modules[index as int] == self.reported_modules@[index as int]@);
            assert(self.reported_modules@[index as int].wf());
            if ranges_overlap(&module.range, &range) && module.base != base {
                proof {
                    assert(self@.conflicts(base, range));
                }
                let ghost before = self@;
                self.rejected_mapping_ranges.push(
                    AddressRange { start, end: start.saturating_add(len) },
                );
                assert(self@ =~= before.with_object(path@, image@, start, len, pgoff).0);
                return Ok(false);
            }
            if module.base == base {
                known = true;
            }
            index += 1;
        }
        if known {
            return Ok(false);
        }
        let arch = match &self.arch {
            ArchUnwinder::X86_64(_) => PerfArch::X86_64,
            ArchUnwinder::Aarch64(_) => PerfArch::Aarch64,
        };
        let sections = keep_usable(
            arch,
            explicit_module_section_info(image, &segments),
            range,
            base,
        );
        let module = ReportedModule {
            base,
            range,
            memory: module_memory_segments(image, &segments, base),
            unwind_ranges: object_unwind_ranges(image, base),
            image: Ghost(image@),
        };
        let ghost before = self@;
        let ghost given = self.arch.modules();
        match &mut self.arch {
            ArchUnwinder::X86_64(unwinder) => {
                add_x86_64_module(unwinder, path.to_string(), range, base, sections);
            },
            ArchUnwinder::Aarch64(unwinder) => {
                add_aarch64_module(unwinder, path.to_string(), range, base, sections);
            },
        }
        self.reported_modules.push(module);
        proof {
            assert(self@.modules =~= before.modules.push(module@));
            assert(given_modules(self@.arch, self@.modules) =~= given_modules(before.arch, before.modules).push(
                module@.module(before.arch),
            ));
            assert(self.arch.modules() == given.push(module@.module(before.arch)));
            assert forall|i: int| 0 <= i < self.reported_modules@.len() implies (
            #[trigger] self.reported_modules@[i]).wf() by {
                if i == before.modules.len() {
                    assert(module.wf());
                }
            }
            assert(self@ =~= before.with_object(path@, image@, start, len, pgoff).0);
        }
        Ok(true)
    }

    /// The number of objects.
    #[must_use]
    pub fn module_count(&self) -> (count: usize)
        ensures
            count == self@.modules.len(),
    {
        self.reported_modules.len()
    }

    /// Whether an address lies in an object.
    #[must_use]
    pub fn has_reported_module_for_ip(&self, ip: u64) -> (found: bool)
        requires
            self.wf(),
        ensures
            found == self@.reports(ip),
    {
        let mut i: usize = 0;
        while i < self.reported_modules.len()
            invariant
                i <= self.reported_modules@.len(),
                self.wf(),
                forall|j: int| 0 <= j < i ==> !(#[trigger] self@.modules[j]).range().holds(ip),
            decreases self.reported_modules@.len() - i,
        {
            assert(self@.modules[i as int] == self.reported_modules@[i as int]@);
            assert(self.reported_modules@[i as int].wf());
            if self.reported_modules[i].range.contains(ip) {
                assert(self@.modules[i as int].range().holds(ip));
                return true;
            }
            i += 1;
        }
        false
    }

    /// Whether an address lies in a refused mapping.
    #[must_use]
    pub fn has_rejected_mapping_for_ip(&self, ip: u64) -> (found: bool)
        ensures
            found == self@.rejects(ip),
    {
        some_range_contains(&self.rejected_mapping_ranges, ip)
    }

    /// Whether some object has call-frame information for an address.
    #[must_use]
    pub fn has_unwind_info_for_ip(&self, ip: u64) -> (found: bool)
        requires
            self.wf(),
        ensures
            found == self@.covers(ip),
    {
        let mut i: usize = 0;
        while i < self.reported_modules.len()
            invariant
                i <= self.reported_modules@.len(),
                self.wf(),
                forall|j: int|
                    0 <= j < i ==> !covered(
                        unwind_ranges_of((#[trigger] self@.modules[j]).image, self@.modules[j].base),
                        ip,
                    ),
            decreases self.reported_modules@.len() - i,
        {
            assert(self@.modules[i as int] == self.reported_modules@[i as int]@);
            assert(self.reported_modules@[i as int].wf());
            let ghost module = self@.modules[i as int];
            assert(covered(self.reported_modules@[i as int].unwind_ranges@, ip) <==> covered(
                unwind_ranges_of(module.image, module.base),
                ip,
            ));
            if some_range_contains(&self.reported_modules[i].unwind_ranges, ip) {
                return true;
            }
            i += 1;
        }
        false
    }

    /// Reads the word at an address from the objects' memory.
    #[must_use]
    pub fn read_process_u64(&self, address: u64) -> (word: Option<u64>)
        requires
            self.wf(),
        ensures
            word == mapped_word(
                modules_memory(self@.modules, self@.modules.len() as int),
                0,
                address,
            ),
    {
        read_reported_module_u64(&self.reported_modules, address)
    }

    /// The addresses of the objects, in the order in which they were added.
    #[must_use]
    pub fn module_ranges(&self) -> (ranges: Vec<AddressRange>)
        requires
            self.wf(),
        ensures
            ranges@ == Seq::new(self@.modules.len(), |i: int| self@.modules[i].range()),
    {
        let mut ranges: Vec<AddressRange> = Vec::new();
        let mut i: usize = 0;
        while i < self.reported_modules.len()
            invariant
                i <= self.reported_modules@.len(),
                self.wf(),
                ranges@ == Seq::new(i as nat, |j: int| self@.modules[j].range()),
            decreases self.reported_modules@.len() - i,
        {
            assert(self@.modules[i as int] == self.reported_modules@[i as int]@);
            assert(self.reported_modules@[i as int].wf());
            ranges.push(self.reported_modules[i].range);
            i += 1;
            assert(ranges@ =~= Seq::new(i as nat, |j: int| self@.modules[j].range()));
        }
        ranges
    }

    /// Unwinds a captured stack.
    #[must_use]
    pub fn unwind_stack(
        &mut self,
        regs: PerfUserRegs,
        stack: &[u8],
        max_frames: usize,
    ) -> (frames: Vec<u64>)
        requires
            old(self).wf(),
        ensures
            *final(self) == *old(self),
            frames@ == old(self)@.unwound(regs@, stack@, max_frames as nat),
    {
        self.unwind_stack_with_diagnostics(regs, stack, max_frames).accepted_frames
    }

    /// Unwinds a captured stack and tells how many frames were found.
    #[must_use]
    pub fn unwind_stack_with_diagnostics(
        &self,
        regs: PerfUserRegs,
        stack: &[u8],
        max_frames: usize,
    ) -> (result: UserStackUnwindResult)
        requires
            self.wf(),
        ensures
            result.accepted_frames@ == self@.unwound(regs@, stack@, max_frames as nat),
            result.framehop_frame_count == result.accepted_frames@.len(),
    {
        if some_range_contains(&self.rejected_mapping_ranges, regs.ip()) {
            return UserStackUnwindResult::default();
        }
        let memory = UserMemory { sp: regs.sp(), stack, modules: &self.reported_modules };
        proof {
            given_modules_are_tame(self@.arch, self@.modules);
        }
        let addresses: Vec<u64> = match (&self.arch, regs) {
            (ArchUnwinder::X86_64(unwinder), PerfUserRegs::X86_64(regs)) => {
                if regs.registers[REG_RSP] <= LAST_STACK_POINTER {
                    unwind_x86_64_addresses(unwinder, &regs, &memory, max_frames)
                } else if max_frames > 0 {
                    let addresses: Vec<u64> = vec![regs.ip];
                    assert(reported(addresses@) =~= seq![regs.ip]);
                    addresses
                } else {
                    Vec::new()
                }
            },
            (ArchUnwinder::Aarch64(unwinder), PerfUserRegs::Aarch64(regs)) => {
                unwind_aarch64_addresses(unwinder, &regs, &memory, max_frames)
            },
            _ => Vec::new(),
        };
        let frames = reported_addresses(&addresses);
        assert(reported(Seq::<u64>::empty()) =~= Seq::<u64>::empty());
        let count: usize = frames.len();
        UserStackUnwindResult { accepted_frames: frames, framehop_frame_count: count }
    }
}

fn reported_addresses(addresses: &Vec<u64>) -> (frames: Vec<u64>)
    ensures
        frames@ == reported(addresses@),
{
    let mut frames: Vec<u64> = Vec::with_capacity(addresses.len());
    let mut i: usize = 0;
    while i < addresses.len()
        invariant
            i <= addresses@.len(),
            frames@ == reported(addresses@.subrange(0, i as int)),
        decreases addresses@.len() - i,
    {
        push_perf_unwind_address(&mut frames, addresses[i]);
        i += 1;
        assert(frames@ =~= reported(addresses@.subrange(0, i as int)));
    }
    assert(addresses@.subrange(0, i as int) =~= addresses@);
    frames
}

impl Default for FramehopUnwinder {
    fn default() -> (unwinder: FramehopUnwinder)
        ensures
            unwinder.wf(),
            unwinder@ == (UnwinderModel {
                arch: PerfArch::X86_64,
                modules: Seq::empty(),
                rejected: Seq::empty(),
            }),
    {
        FramehopUnwinder::new()
    }
}

/// The frames of an `x86_64` stack without any object.
#[must_use]
pub fn unwind_x86_64_stack(regs: PerfX86_64Regs, stack: &[u8], max_frames: usize) -> (frames: Vec<
    u64,
>)
    ensures
        frames@ == (UnwinderModel {
            arch: PerfArch::X86_64,
            modules: Seq::empty(),
            rejected: Seq::empty(),
        }).unwound(RegsModel::X86_64(regs@), stack@, max_frames as nat),
{
    let unwinder = FramehopUnwinder::new();
    unwinder.unwind_stack_with_diagnostics(PerfUserRegs::X86_64(regs), stack, max_frames)
        .accepted_frames
}

// ---------------------------------------------------------------------------
// Laws
// ---------------------------------------------------------------------------

proof fn callers_extend(
    sp: u64,
    stack: Seq<u8>,
    fp: u64,
    at: u64,
    room: nat,
)
    ensures
        x86_callers(sp, stack, fp, at, room).is_prefix_of(x86_callers(sp, stack, fp, at, room + 1)),
        forall|i: int|
            0 <= i < x86_callers(sp, stack, fp, at, room).len() ==> exists|address: u64|
                (#[trigger] captured_word(sp, stack, address)) is Some && #[trigger] x86_callers(
                    sp,
                    stack,
                    fp,
                    at,
                    room,
                )[i] == call_address(captured_word(sp, stack, address)->0),
    decreases room,
{
    let callers = x86_callers(sp, stack, fp, at, room);
    let next_sp = capped(fp + 16);
    let more = x86_callers(sp, stack, fp, at, room + 1);
    match captured_word(sp, stack, capped(fp + 8)) {
        Some(ret) if room > 0 && at < next_sp => {
            let saved = match captured_word(sp, stack, fp) {
                Some(saved) => saved,
                None => 0,
            };
            if saved != 0 {
                callers_extend(sp, stack, saved, next_sp, (room - 1) as nat);
                let inner = x86_callers(sp, stack, saved, next_sp, (room - 1) as nat);
                assert(callers == seq![call_address(ret)] + inner);
                assert forall|i: int| 0 <= i < callers.len() implies exists|address: u64|
                    (#[trigger] captured_word(sp, stack, address)) is Some
                        && #[trigger] callers[i] == call_address(
                        captured_word(sp, stack, address)->0,
                    ) by {
                    if i > 0 {
                        assert(callers[i] == inner[i - 1]);
                    } else {
                        assert(captured_word(sp, stack, capped(fp + 8)) is Some);
                    }
                }
            } else {
                assert(callers =~= seq![call_address(ret)]);
                assert(captured_word(sp, stack, capped(fp + 8)) is Some);
            }
        },
        _ => {},
    }
}

/// The call in front of the return address that stands behind a frame pointer.
pub open spec fn call_behind(sp: u64, stack: Seq<u8>, frame_pointer: int) -> Option<int> {
    match captured_word(sp, stack, (frame_pointer + 8) as u64) {
        Some(ret) => Some(
            if ret > 0 {
                ret - 1
            } else {
                0
            },
        ),
        None => None,
    }
}

/// A walk along frame pointers with more room begins with the one with less; every caller is one
/// byte in front of a return address that was captured, the first of them that behind the frame
/// pointer, and the next that behind the frame pointer which was saved there.
pub proof fn callers_are_found_behind_frame_pointers(regs: X86Model, stack: Seq<u8>, room: nat)
    ensures
        x86_walk(regs, stack, room).is_prefix_of(x86_walk(regs, stack, room + 1)),
        forall|i: int|
            1 <= i < x86_walk(regs, stack, room).len() ==> exists|address: u64|
                (#[trigger] captured_word(regs.sp, stack, address)) is Some && #[trigger] x86_walk(
                    regs,
                    stack,
                    room,
                )[i] == call_address(captured_word(regs.sp, stack, address)->0),
        x86_walk(regs, stack, room).len() > 1 && regs.bp + 16 <= u64::MAX ==> call_behind(
            regs.sp,
            stack,
            regs.bp as int,
        ) == Some(x86_walk(regs, stack, room)[1] as int),
        x86_walk(regs, stack, room).len() > 2 && regs.bp + 16 <= u64::MAX ==> {
            let saved = captured_word(regs.sp, stack, regs.bp);
            &&& saved is Some
            &&& saved->0 + 16 <= u64::MAX ==> call_behind(regs.sp, stack, saved->0 as int) == Some(
                x86_walk(regs, stack, room)[2] as int,
            )
        },
{
    if room > 0 && regs.bp != 0 {
        let callers = x86_callers(regs.sp, stack, regs.bp, regs.sp, (room - 1) as nat);
        callers_extend(regs.sp, stack, regs.bp, regs.sp, (room - 1) as nat);
        let walk = x86_walk(regs, stack, room);
        assert(walk == seq![regs.ip] + callers);
        assert forall|i: int| 1 <= i < walk.len() implies exists|address: u64|
            (#[trigger] captured_word(regs.sp, stack, address)) is Some && #[trigger] walk[i]
                == call_address(captured_word(regs.sp, stack, address)->0) by {
            assert(walk[i] == callers[i - 1]);
        }
        reveal_with_fuel(x86_callers, 3);
        if walk.len() > 1 {
            assert(walk[1] == callers[0]);
        }
        if walk.len() > 2 {
            assert(walk[2] == callers[1]);
        }
    }
}

proof fn ones_below_one_more(mask: nat, register: nat)
    ensures
        ones_below(mask, register + 1) == ones_below(mask, register) + if bit_at(mask, register) {
            1nat
        } else {
            0
        },
    decreases register,
{
    if register > 0 {
        ones_below_one_more(mask / 2, (register - 1) as nat);
    } else {
        assert(ones_below(mask / 2, 0) == 0);
    }
}

proof fn ones_below_are_counted(mask: nat, register: nat)
    ensures
        ones_below(mask, register) == Seq::new(register, |i: int| i as nat).filter(
            |other: nat| bit_at(mask, other),
        ).len(),
    decreases register,
{
    reveal(Seq::filter);
    let all = Seq::new(register, |i: int| i as nat);
    if register > 0 {
        let fewer = (register - 1) as nat;
        ones_below_are_counted(mask, fewer);
        ones_below_one_more(mask, fewer);
        assert(all.drop_last() =~= Seq::new(fewer, |i: int| i as nat));
        assert(all.last() == fewer);
    }
}

proof fn bits_are_halves(mask: nat, register: nat)
    ensures
        bit_at(mask, register) <==> (mask / pow2(register)) % 2 == 1,
    decreases register,
{
    if register > 0 {
        let less = (register - 1) as nat;
        bits_are_halves(mask / 2, less);
        lemma_pow2_unfold(register);
        lemma_pow2_pos(less);
        lemma_div_denominator(mask as int, 2, pow2(less) as int);
    } else {
        lemma2_to64();
    }
}

/// The values of registers stand in the order of the registers' numbers: that of a register which
/// was recorded stands behind those of all recorded registers with smaller numbers. A register
/// was recorded where its bit is set.
pub proof fn values_stand_in_the_order_of_registers(mask: u64, values: Seq<u64>, register: nat)
    ensures
        ({
            let smaller = Seq::new(register, |i: int| i as nat).filter(
                |other: nat| (mask as nat / pow2(other)) % 2 == 1,
            );
            masked(mask, values, register) == if (mask as nat / pow2(register)) % 2 == 1
                && smaller.len() < values.len() {
                Some(values[smaller.len() as int])
            } else {
                None
            }
        }),
{
    ones_below_are_counted(mask as nat, register);
    bits_are_halves(mask as nat, register);
    let left = |other: nat| bit_at(mask as nat, other);
    let right = |other: nat| (mask as nat / pow2(other)) % 2 == 1;
    assert forall|other: nat| #[trigger] left(other) == right(other) by {
        bits_are_halves(mask as nat, other);
    }
    assert(left =~= right);
}

/// A word is read where all of its bytes were captured: the eight bytes at its distance from the
/// first one.
pub proof fn captured_words_are_read(start: u64, front: Seq<u8>, word: Seq<u8>, rest: Seq<u8>)
    requires
        word.len() == 8,
        start + front.len() <= u64::MAX,
        front.len() <= usize::MAX,
    ensures
        captured_word(start, front + word + rest, (start + front.len()) as u64) == Some(
            le_u64(word, 0),
        ),
        front.len() > 0 && start > 0 ==> captured_word(
            start,
            front + word + rest,
            (start - 1) as u64,
        ) is None,
{
    let bytes = front + word + rest;
    let at = front.len() as int;
    crate::perfdata::endian::lowest_bytes_come_first(bytes, at);
    crate::perfdata::endian::lowest_bytes_come_first(word, 0);
    assert forall|i: int| 0 <= i < 8 implies bytes[at + i] == #[trigger] word[i] by {}
    assert(bytes[at] == word[0] && bytes[at + 1] == word[1] && bytes[at + 2] == word[2]
        && bytes[at + 3] == word[3] && bytes[at + 4] == word[4] && bytes[at + 5] == word[5]
        && bytes[at + 6] == word[6] && bytes[at + 7] == word[7]);
}

/// Whether objects at different bases lie apart, and none is there twice.
pub open spec fn lie_apart(modules: Seq<ReportedModel>) -> bool {
    forall|i: int, j: int|
        #![trigger modules[i], modules[j]]
        0 <= i < j < modules.len() ==> modules[i].base != modules[j].base
            && !modules[i].range().overlaps_with(modules[j].range())
}

/// Objects that are mapped never come to overlap, and those that are there stay. An object is
/// added behind them, or changes nothing, or has its mapping refused; one that would overlap
/// another at a different base is refused from its start up to its end.
pub proof fn overlapping_objects_are_refused(
    unwinder: UnwinderModel,
    path: Seq<char>,
    image: Seq<u8>,
    start: u64,
    len: u64,
    pgoff: u64,
)
    requires
        lie_apart(unwinder.modules),
    ensures
        ({
            let (after, added) = unwinder.with_object(path, image, start, len, pgoff);
            let base = UnwinderModel::base_for(path, start, pgoff);
            &&& lie_apart(after.modules)
            &&& after.arch == unwinder.arch
            &&& unwinder.modules.is_prefix_of(after.modules)
            &&& unwinder.rejected.is_prefix_of(after.rejected)
            &&& added == Ok::<bool, Seq<char>>(true) <==> after.modules.len()
                == unwinder.modules.len() + 1
            &&& added == Ok::<bool, Seq<char>>(true) ==> after.rejected == unwinder.rejected
                && after.modules.last() == (ReportedModel { base, image })
            &&& added != Ok::<bool, Seq<char>>(true) ==> after.modules == unwinder.modules
            &&& len > 0 && object_segments_of(image) is Ok && (module_range_of(
                image,
                base,
            ) matches Some(range) && exists|i: int|
                0 <= i < unwinder.modules.len() && (
                #[trigger] unwinder.modules[i]).range().overlaps_with(range)
                    && unwinder.modules[i].base != base) ==> forall|ip: u64|
                start <= ip < start + len && ip < u64::MAX ==> #[trigger] after.rejects(ip)
        }),
{
    let (after, added) = unwinder.with_object(path, image, start, len, pgoff);
    let base = UnwinderModel::base_for(path, start, pgoff);
    if added == Ok::<bool, Seq<char>>(true) {
        let new = ReportedModel { base, image };
        assert(after.modules == unwinder.modules.push(new));
        assert forall|i: int, j: int|
            #![trigger after.modules[i], after.modules[j]]
            0 <= i < j < after.modules.len() implies after.modules[i].base != after.modules[j].base
            && !after.modules[i].range().overlaps_with(after.modules[j].range()) by {
            assert(after.modules[i] == unwinder.modules[i]);
            if j < unwinder.modules.len() {
                assert(after.modules[j] == unwinder.modules[j]);
            } else {
                assert(after.modules[j] == new);
                assert(new.range() == module_range_of(image, base)->Some_0);
            }
        }
    }
    if after.rejected.len() > unwinder.rejected.len() {
        assert(after.rejected.last() == (AddressRange { start, end: address_sum(start, len) }));
    }
}

/// A walk over an `aarch64` stack begins at the sampled address. Its first caller is the call in
/// front of the address in the link register, where that is not zero; the next one is in front of
/// the word behind the frame pointer.
pub proof fn link_registers_name_the_callers(
    regs: PerfAarch64Regs,
    stack: Seq<u8>,
    room: nat,
    saved: u64,
    ret: u64,
)
    requires
        room >= 3,
        regs.lr > 0,
        0 < regs.fp,
        regs.fp + 16 <= u64::MAX,
        regs.sp < regs.fp + 16,
    ensures
        ({
            let walk = aarch64_walk(regs, stack, room);
            &&& walk.len() >= 2
            &&& walk[0] == regs.pc
            &&& walk[1] == regs.lr - 1
            &&& captured_word(regs.sp, stack, (regs.fp + 8) as u64) == Some(ret) && ret > 0
                && captured_word(regs.sp, stack, regs.fp) == Some(saved) && (saved == 0 || saved
                > regs.fp && saved + 16 <= u64::MAX) ==> walk.len() >= 3 && walk[2] == ret - 1
            &&& captured_word(regs.sp, stack, (regs.fp + 8) as u64) is None ==> walk.len() == 2
        }),
        aarch64_walk(PerfAarch64Regs { lr: 0, ..regs }, stack, room) == seq![regs.pc],
{
    let sp = regs.sp;
    let next_sp = (regs.fp + 16) as u64;
    let next_lr = match captured_word(sp, stack, (regs.fp + 8) as u64) {
        Some(word) => word,
        None => 0,
    };
    let next_fp = match captured_word(sp, stack, regs.fp) {
        Some(word) => word,
        None => 0,
    };
    let behind = aarch64_callers(sp, stack, next_lr, next_fp, next_sp, (room - 2) as nat);
    assert(aarch64_callers(sp, stack, regs.lr, regs.fp, sp, (room - 1) as nat) == seq![
        call_address(regs.lr),
    ] + behind);
    assert(aarch64_callers(sp, stack, 0, regs.fp, sp, (room - 1) as nat) == Seq::<u64>::empty());
    assert(seq![regs.pc] + Seq::<u64>::empty() =~= seq![regs.pc]);
}

} // verus!
