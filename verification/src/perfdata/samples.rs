//! Sample records: the fields that a sample layout selects, in the order the kernel writes them.

use vstd::arithmetic::power2::{lemma2_to64, lemma_pow2_unfold, pow2};
use vstd::prelude::*;
use vstd::slice::slice_subrange;

use crate::perfdata::endian::{
    eight_bytes, four_bytes, le_u32, le_u64, u32_at, u64_at, written_numbers_are_read,
};
use crate::text::{hexadecimal, outcome, push_hexadecimal, size_from_u64};

verus! {

broadcast use vstd::std_specs::control_flow::group_control_flow_axioms;

pub const PERF_SAMPLE_IP: u64 = 0x1;

pub const PERF_SAMPLE_TID: u64 = 0x2;

pub const PERF_SAMPLE_TIME: u64 = 0x4;

pub const PERF_SAMPLE_ADDR: u64 = 0x8;

pub const PERF_SAMPLE_READ: u64 = 0x10;

pub const PERF_SAMPLE_CALLCHAIN: u64 = 0x20;

pub const PERF_SAMPLE_ID: u64 = 0x40;

pub const PERF_SAMPLE_CPU: u64 = 0x80;

pub const PERF_SAMPLE_PERIOD: u64 = 0x100;

pub const PERF_SAMPLE_STREAM_ID: u64 = 0x200;

pub const PERF_SAMPLE_RAW: u64 = 0x400;

pub const PERF_SAMPLE_BRANCH_STACK: u64 = 0x800;

pub const PERF_SAMPLE_REGS_USER: u64 = 0x1000;

pub const PERF_SAMPLE_STACK_USER: u64 = 0x2000;

pub const PERF_SAMPLE_WEIGHT: u64 = 0x4000;

pub const PERF_SAMPLE_DATA_SRC: u64 = 0x8000;

pub const PERF_SAMPLE_IDENTIFIER: u64 = 0x1_0000;

pub const PERF_SAMPLE_TRANSACTION: u64 = 0x2_0000;

pub const PERF_SAMPLE_REGS_INTR: u64 = 0x4_0000;

pub const PERF_SAMPLE_PHYS_ADDR: u64 = 0x8_0000;

pub const PERF_SAMPLE_AUX: u64 = 0x10_0000;

pub const PERF_SAMPLE_CGROUP: u64 = 0x20_0000;

pub const PERF_SAMPLE_DATA_PAGE_SIZE: u64 = 0x40_0000;

pub const PERF_SAMPLE_CODE_PAGE_SIZE: u64 = 0x80_0000;

pub const PERF_SAMPLE_WEIGHT_STRUCT: u64 = 0x100_0000;

pub const PERF_SAMPLE_BRANCH_HW_INDEX: u64 = 0x2_0000;

pub const PERF_SAMPLE_BRANCH_COUNTERS: u64 = 0x8_0000;

pub const PERF_FORMAT_TOTAL_TIME_ENABLED: u64 = 0x1;

pub const PERF_FORMAT_TOTAL_TIME_RUNNING: u64 = 0x2;

pub const PERF_FORMAT_ID: u64 = 0x4;

pub const PERF_FORMAT_GROUP: u64 = 0x8;

pub const PERF_FORMAT_LOST: u64 = 0x10;

/// All bits of a sample type that are understood.
pub const SUPPORTED_PERF_SAMPLE_MASK: u64 = 0x1ff_ffff;

#[derive(Clone, Copy, Debug, Eq, PartialEq, Structural)]
pub struct SampleLayout {
    pub sample_type: u64,
    pub read_format: u64,
    pub branch_sample_type: u64,
    pub sample_regs_user: u64,
    pub sample_regs_intr: u64,
    pub sample_id_all: bool,
}

#[derive(Clone, Debug, Eq, PartialEq)]
pub struct SampleRecord {
    pub ip: Option<u64>,
    pub pid: Option<u32>,
    pub tid: Option<u32>,
    pub period: Option<u64>,
    pub callchain: Vec<u64>,
}

/// The contents of a [`SampleRecord`].
#[verifier::ext_equal]
pub struct SampleModel {
    pub ip: Option<u64>,
    pub pid: Option<u32>,
    pub tid: Option<u32>,
    pub period: Option<u64>,
    pub callchain: Seq<u64>,
}

impl View for SampleRecord {
    type V = SampleModel;

    open spec fn view(&self) -> SampleModel {
        SampleModel {
            ip: self.ip,
            pid: self.pid,
            tid: self.tid,
            period: self.period,
            callchain: self.callchain@,
        }
    }
}

#[derive(Clone, Debug, Eq, PartialEq)]
pub struct SampleCallchain<'a> {
    pub pid: Option<u32>,
    pub tid: Option<u32>,
    pub time: Option<u64>,
    pub cpu: Option<u32>,
    pub period: Option<u64>,
    pub frames: SampleCallchainFrames<'a>,
    pub user_regs: Option<SampleUserRegs>,
    pub user_stack: Option<SampleUserStack<'a>>,
}

/// The contents of a [`SampleCallchain`].
#[verifier::ext_equal]
pub struct CallchainModel {
    pub pid: Option<u32>,
    pub tid: Option<u32>,
    pub time: Option<u64>,
    pub cpu: Option<u32>,
    pub period: Option<u64>,
    pub frames: Seq<u64>,
    pub user_regs: Option<UserRegsModel>,
    pub user_stack: Option<UserStackModel>,
}

#[derive(Clone, Debug, Eq, PartialEq)]
pub struct SampleUserRegs {
    pub abi: u64,
    pub values: Vec<u64>,
}

/// The contents of a [`SampleUserRegs`].
#[verifier::ext_equal]
pub struct UserRegsModel {
    pub abi: u64,
    pub values: Seq<u64>,
}

impl View for SampleUserRegs {
    type V = UserRegsModel;

    open spec fn view(&self) -> UserRegsModel {
        UserRegsModel { abi: self.abi, values: self.values@ }
    }
}

#[derive(Clone, Debug, Eq, PartialEq)]
pub struct SampleUserStack<'a> {
    pub bytes: &'a [u8],
    pub dynamic_size: u64,
}

/// The contents of a [`SampleUserStack`].
#[verifier::ext_equal]
pub struct UserStackModel {
    pub bytes: Seq<u8>,
    pub dynamic_size: u64,
}

impl<'a> View for SampleUserStack<'a> {
    type V = UserStackModel;

    open spec fn view(&self) -> UserStackModel {
        UserStackModel { bytes: self.bytes@, dynamic_size: self.dynamic_size }
    }
}

/// The frames of a callchain that have not been taken yet, as they stand in the sample.
#[derive(Clone, Copy, Debug, Eq, PartialEq)]
pub struct SampleCallchainFrames<'a> {
    payload: &'a [u8],
}

/// The 64-bit integers that fill a byte string.
pub open spec fn words(bytes: Seq<u8>) -> Seq<u64> {
    Seq::new(bytes.len() / 8, |i: int| le_u64(bytes, 8 * i))
}

impl<'a> View for SampleCallchainFrames<'a> {
    type V = Seq<u64>;

    closed spec fn view(&self) -> Seq<u64> {
        words(self.payload@)
    }
}

impl<'a> View for SampleCallchain<'a> {
    type V = CallchainModel;

    open spec fn view(&self) -> CallchainModel {
        CallchainModel {
            pid: self.pid,
            tid: self.tid,
            time: self.time,
            cpu: self.cpu,
            period: self.period,
            frames: self.frames@,
            user_regs: match self.user_regs {
                Some(regs) => Some(regs@),
                None => None,
            },
            user_stack: match self.user_stack {
                Some(stack) => Some(stack@),
                None => None,
            },
        }
    }
}

impl<'a> SampleCallchainFrames<'a> {
    /// Whole frames only: the frames fill their bytes.
    #[verifier::type_invariant]
    spec fn whole_frames(&self) -> bool {
        self.payload@.len() % 8 == 0
    }

    /// The number of frames left.
    #[must_use]
    pub fn len(&self) -> (count: usize)
        ensures
            count == self@.len(),
    {
        self.payload.len() / 8
    }

    /// Whether no frame is left.
    #[must_use]
    pub fn is_empty(&self) -> (empty: bool)
        ensures
            empty == (self@.len() == 0),
    {
        proof {
            use_type_invariant(self);
        }
        self.payload.is_empty()
    }

    /// Takes the next frame.
    pub fn next(&mut self) -> (frame: Option<u64>)
        ensures
            match frame {
                Some(frame) => old(self)@.len() > 0 && frame == old(self)@[0] && final(self)@
                    == old(self)@.drop_first(),
                None => old(self)@.len() == 0 && final(self)@ == old(self)@,
            },
    {
        proof {
            use_type_invariant(&*self);
        }
        if self.payload.len() < 8 {
            return None;
        }
        let frame: u64 = u64_at(self.payload, 0);
        let rest = slice_subrange(self.payload, 8, self.payload.len());
        proof {
            let all = self.payload@;
            assert forall|i: int| 0 <= i < rest@.len() / 8 implies #[trigger] le_u64(rest@, 8 * i)
                == le_u64(all, 8 * (i + 1)) by {
                le_u64_of_subrange(all, 8, all.len() as int, 8 * i);
            }
            assert(words(rest@) =~= words(all).drop_first());
        }
        self.payload = rest;
        Some(frame)
    }

    /// All frames that are left, in order.
    pub fn to_vec(&self) -> (frames: Vec<u64>)
        ensures
            frames@ == self@,
    {
        let count: usize = self.payload.len() / 8;
        let mut frames: Vec<u64> = Vec::with_capacity(count);
        let mut index: usize = 0;
        while index < count
            invariant
                count == self.payload@.len() / 8,
                index <= count,
                self.payload@.len() == self.payload.len(),
                frames@ == self@.subrange(0, index as int),
            decreases count - index,
        {
            frames.push(u64_at(self.payload, 8 * index));
            index += 1;
            assert(frames@ =~= self@.subrange(0, index as int));
        }
        assert(self@.subrange(0, count as int) =~= self@);
        frames
    }
}

/// An integer read inside a part of a byte string is read at the shifted place of the whole.
proof fn le_u64_of_subrange(bytes: Seq<u8>, start: int, end: int, at: int)
    requires
        0 <= start <= end <= bytes.len(),
        0 <= at,
        at + 8 <= end - start,
    ensures
        le_u64(bytes.subrange(start, end), at) == le_u64(bytes, start + at),
{
    reveal(crate::perfdata::endian::le_u16);
    reveal(le_u32);
    reveal(le_u64);
}

// ---------------------------------------------------------------------------
// Positions inside a sample
// ---------------------------------------------------------------------------

/// The message for a sample that ends inside a field.
pub open spec fn truncated() -> Seq<char> {
    "perf sample payload is truncated"@
}

/// Where a field of `size` bytes at a position ends, if it is selected; the first error stays.
#[verifier::opaque]
pub open spec fn past(
    payload: Seq<u8>,
    at: Result<int, Seq<char>>,
    selected: bool,
    size: int,
) -> Result<int, Seq<char>> {
    match at {
        Err(error) => Err(error),
        Ok(at) => if !selected {
            Ok(at)
        } else if at + size > payload.len() {
            Err(truncated())
        } else {
            Ok(at + size)
        },
    }
}

/// A position that could not be reached is not moved by the fields behind it.
broadcast proof fn past_keeps_error(
    payload: Seq<u8>,
    at: Result<int, Seq<char>>,
    selected: bool,
    size: int,
)
    requires
        at is Err,
    ensures
        #[trigger] past(payload, at, selected, size) == at,
{
    reveal(past);
}

/// A position is never in front of the payload.
broadcast proof fn past_stays_inside(
    payload: Seq<u8>,
    at: Result<int, Seq<char>>,
    selected: bool,
    size: int,
)
    requires
        at matches Ok(start) ==> start >= 0,
        size >= 0,
    ensures
        #[trigger] past(payload, at, selected, size) matches Ok(end) ==> end >= 0,
{
    reveal(past);
}

/// Where a run of `size` bytes at `at` ends, with the size stated inside the sample.
pub open spec fn past_run(payload: Seq<u8>, at: int, size: int) -> Result<int, Seq<char>> {
    if at + size > usize::MAX {
        Err("perf sample field offset overflows usize"@)
    } else if at + size > payload.len() {
        Err(truncated())
    } else {
        Ok(at + size)
    }
}

/// Number of bits set in a mask.
pub open spec fn ones(mask: nat) -> nat
    decreases mask,
{
    if mask == 0 {
        0
    } else {
        mask % 2 + ones(mask / 2)
    }
}

impl SampleLayout {
    /// Whether a field is part of the sample.
    pub open spec fn selects(self, flag: u64) -> bool {
        self.sample_type & flag != 0
    }

    pub open spec fn ip_at(self, payload: Seq<u8>) -> Result<int, Seq<char>> {
        past(payload, Ok(0), self.selects(PERF_SAMPLE_IDENTIFIER), 8)
    }

    pub open spec fn tid_at(self, payload: Seq<u8>) -> Result<int, Seq<char>> {
        past(payload, self.ip_at(payload), self.selects(PERF_SAMPLE_IP), 8)
    }

    pub open spec fn time_at(self, payload: Seq<u8>) -> Result<int, Seq<char>> {
        past(payload, self.tid_at(payload), self.selects(PERF_SAMPLE_TID), 8)
    }

    pub open spec fn addr_at(self, payload: Seq<u8>) -> Result<int, Seq<char>> {
        past(payload, self.time_at(payload), self.selects(PERF_SAMPLE_TIME), 8)
    }

    pub open spec fn id_at(self, payload: Seq<u8>) -> Result<int, Seq<char>> {
        past(payload, self.addr_at(payload), self.selects(PERF_SAMPLE_ADDR), 8)
    }

    pub open spec fn stream_id_at(self, payload: Seq<u8>) -> Result<int, Seq<char>> {
        past(payload, self.id_at(payload), self.selects(PERF_SAMPLE_ID), 8)
    }

    pub open spec fn cpu_at(self, payload: Seq<u8>) -> Result<int, Seq<char>> {
        past(payload, self.stream_id_at(payload), self.selects(PERF_SAMPLE_STREAM_ID), 8)
    }

    pub open spec fn period_at(self, payload: Seq<u8>) -> Result<int, Seq<char>> {
        past(payload, self.cpu_at(payload), self.selects(PERF_SAMPLE_CPU), 8)
    }

    pub open spec fn read_at(self, payload: Seq<u8>) -> Result<int, Seq<char>> {
        past(payload, self.period_at(payload), self.selects(PERF_SAMPLE_PERIOD), 8)
    }

    pub open spec fn callchain_at(self, payload: Seq<u8>) -> Result<int, Seq<char>> {
        if self.selects(PERF_SAMPLE_READ) {
            match self.read_at(payload) {
                Err(error) => Err(error),
                Ok(at) => past_read_format(payload, at, self.read_format),
            }
        } else {
            self.read_at(payload)
        }
    }
}

/// Where the counter values at `at` end. A group states its number of members first.
pub open spec fn past_read_format(payload: Seq<u8>, at: int, read_format: u64) -> Result<
    int,
    Seq<char>,
> {
    let enabled = read_format & PERF_FORMAT_TOTAL_TIME_ENABLED != 0;
    let running = read_format & PERF_FORMAT_TOTAL_TIME_RUNNING != 0;
    let id = read_format & PERF_FORMAT_ID != 0;
    let lost = read_format & PERF_FORMAT_LOST != 0;
    let times = past(payload, past(payload, past(payload, Ok(at), true, 8), enabled, 8), running, 8);
    if read_format & PERF_FORMAT_GROUP != 0 {
        if at + 8 > payload.len() {
            Err(truncated())
        } else if le_u64(payload, at) > usize::MAX {
            Err("perf sample read group count does not fit in usize"@)
        } else {
            past(payload, times, true, le_u64(payload, at) * member_size(id, lost))
        }
    } else {
        past(payload, past(payload, times, id, 8), lost, 8)
    }
}

/// The bytes that each member of a counter group takes.
pub open spec fn member_size(id: bool, lost: bool) -> int {
    if id && lost {
        24
    } else if id || lost {
        16
    } else {
        8
    }
}

/// Where a length of 32 bits at `at` and the bytes it states end.
pub open spec fn past_raw(payload: Seq<u8>, at: int) -> Result<int, Seq<char>> {
    if at + 4 > payload.len() {
        Err(truncated())
    } else {
        past_run(payload, at + 4, le_u32(payload, at) as int)
    }
}

/// Where the branch stack at `at` ends.
pub open spec fn past_branch_stack(payload: Seq<u8>, at: int, branch_sample_type: u64) -> Result<
    int,
    Seq<char>,
> {
    if at + 8 > payload.len() {
        Err(truncated())
    } else {
        let count = le_u64(payload, at);
        let indexed = branch_sample_type & PERF_SAMPLE_BRANCH_HW_INDEX != 0;
        if count > usize::MAX {
            Err("perf sample branch count does not fit in usize"@)
        } else {
            match past(payload, Ok(at + 8), indexed, 8) {
                Err(error) => Err(error),
                Ok(at) => if count * 24 > usize::MAX {
                    Err("perf sample branch stack byte length overflows usize"@)
                } else {
                    match past_run(payload, at, count * 24) {
                        Err(error) => Err(error),
                        Ok(at) => if branch_sample_type & PERF_SAMPLE_BRANCH_COUNTERS == 0 {
                            Ok(at)
                        } else {
                            past_run(payload, at, count * 8)
                        },
                    }
                },
            }
        }
    }
}

/// The number of registers that a register block of an ABI holds: none without an ABI.
pub open spec fn register_count(abi: u64, mask: u64) -> int {
    if abi == 0 {
        0
    } else {
        ones(mask as nat) as int
    }
}

/// Where the register block at `at` ends.
pub open spec fn past_regs(payload: Seq<u8>, at: int, mask: u64) -> Result<int, Seq<char>> {
    if at + 8 > payload.len() {
        Err(truncated())
    } else {
        past(payload, Ok(at + 8), true, 8 * register_count(le_u64(payload, at), mask))
    }
}

/// The register block at `at`.
pub open spec fn regs_at(payload: Seq<u8>, at: int, mask: u64) -> UserRegsModel {
    let abi = le_u64(payload, at);
    UserRegsModel {
        abi,
        values: Seq::new(
            register_count(abi, mask) as nat,
            |i: int| le_u64(payload, at + 8 + 8 * i),
        ),
    }
}

/// The bytes that fill a size up to the next multiple of eight.
pub open spec fn padding(size: int) -> int {
    (8 - size % 8) % 8
}

/// Where the user stack at `at` ends. An empty stack has no dynamic size behind it.
pub open spec fn past_user_stack(payload: Seq<u8>, at: int) -> Result<int, Seq<char>> {
    if at + 8 > payload.len() {
        Err(truncated())
    } else {
        let size = le_u64(payload, at);
        if size > usize::MAX {
            Err("perf sample user stack size does not fit in usize"@)
        } else if size == 0 {
            Ok(at + 8)
        } else {
            match past_run(payload, at + 8, size as int) {
                Err(error) => Err(error),
                Ok(at) => match past_run(payload, at, padding(size as int)) {
                    Err(error) => Err(error),
                    Ok(at) => past(payload, Ok(at), true, 8),
                },
            }
        }
    }
}

/// The user stack at `at`.
pub open spec fn user_stack_at(payload: Seq<u8>, at: int) -> UserStackModel {
    let size = le_u64(payload, at) as int;
    if size == 0 {
        UserStackModel { bytes: Seq::empty(), dynamic_size: 0 }
    } else {
        UserStackModel {
            bytes: payload.subrange(at + 8, at + 8 + size),
            dynamic_size: le_u64(payload, at + 8 + size + padding(size)),
        }
    }
}

/// Where a length of 64 bits at `at` and the bytes it states end.
pub open spec fn past_aux(payload: Seq<u8>, at: int) -> Result<int, Seq<char>> {
    if at + 8 > payload.len() {
        Err(truncated())
    } else if le_u64(payload, at) > usize::MAX {
        Err("perf sample aux size does not fit in usize"@)
    } else {
        past_run(payload, at + 8, le_u64(payload, at) as int)
    }
}

// ---------------------------------------------------------------------------
// The cursor
// ---------------------------------------------------------------------------

struct SampleCursor<'a> {
    payload: &'a [u8],
    offset: usize,
}

impl<'a> SampleCursor<'a> {
    spec fn at(&self) -> int {
        self.offset as int
    }

    fn new(payload: &'a [u8]) -> (cursor: Self)
        ensures
            cursor.payload@ == payload@,
            cursor.at() == 0,
    {
        SampleCursor { payload, offset: 0 }
    }

    /// Whether a step led where it should: the payload is the same, and the cursor stands at the
    /// end that was worked out, or the error is the one that was worked out.
    spec fn stepped<T>(
        before: SampleCursor<'a>,
        now: SampleCursor<'a>,
        result: Result<T, String>,
        end: Result<int, Seq<char>>,
    ) -> bool {
        &&& now.payload@ == before.payload@
        &&& match result {
            Ok(_) => end == Ok::<int, Seq<char>>(now.at()),
            Err(error) => end == Err::<int, Seq<char>>(error@),
        }
    }

    fn read_u32(&mut self) -> (result: Result<u32, String>)
        ensures
            Self::stepped(*old(self), *final(self), result, past(old(self).payload@, Ok(old(self).at()), true, 4)),
            match result {
                Ok(value) => value == le_u32(old(self).payload@, old(self).at()) && final(self).at()
                    == old(self).at() + 4 <= old(self).payload@.len(),
                Err(error) => old(self).at() + 4 > old(self).payload@.len() && error@
                    == truncated(),
            },
    {
        proof {
            reveal(past);
        }
        if self.payload.len() < 4 || self.offset > self.payload.len() - 4 {
            return Err("perf sample payload is truncated".to_string());
        }
        let value: u32 = u32_at(self.payload, self.offset);
        self.offset += 4;
        Ok(value)
    }

    fn read_u64(&mut self) -> (result: Result<u64, String>)
        ensures
            Self::stepped(*old(self), *final(self), result, past(old(self).payload@, Ok(old(self).at()), true, 8)),
            match result {
                Ok(value) => value == le_u64(old(self).payload@, old(self).at()) && final(self).at()
                    == old(self).at() + 8 <= old(self).payload@.len(),
                Err(error) => old(self).at() + 8 > old(self).payload@.len() && error@
                    == truncated(),
            },
    {
        proof {
            reveal(past);
        }
        if self.payload.len() < 8 || self.offset > self.payload.len() - 8 {
            return Err("perf sample payload is truncated".to_string());
        }
        let value: u64 = u64_at(self.payload, self.offset);
        self.offset += 8;
        Ok(value)
    }

    /// Passes over a 64-bit field where it is selected.
    fn skip_u64_if(&mut self, selected: bool) -> (result: Result<(), String>)
        ensures
            Self::stepped(*old(self), *final(self), result, past(old(self).payload@, Ok(old(self).at()), selected, 8)),
    {
        proof {
            reveal(past);
        }
        if selected {
            self.read_u64()?;
        }
        Ok(())
    }

    /// Reads a 64-bit field where it is selected.
    fn read_u64_if(&mut self, selected: bool) -> (result: Result<Option<u64>, String>)
        ensures
            Self::stepped(*old(self), *final(self), result, past(old(self).payload@, Ok(old(self).at()), selected, 8)),
            result matches Ok(value) ==> value == selected_u64(old(self).payload@, Ok(old(self).at()), selected),
    {
        proof {
            reveal(past);
        }
        if selected {
            let value: u64 = self.read_u64()?;
            Ok(Some(value))
        } else {
            Ok(None)
        }
    }

    /// Reads two 32-bit fields, one behind the other, where they are selected.
    fn read_u32_pair_if(&mut self, selected: bool) -> (result: Result<
        (Option<u32>, Option<u32>),
        String,
    >)
        ensures
            Self::stepped(*old(self), *final(self), result, past(old(self).payload@, Ok(old(self).at()), selected, 8)),
            result matches Ok(pair) ==> pair.0 == selected_u32(
                old(self).payload@,
                Ok(old(self).at()),
                0,
                selected,
            ) && pair.1 == selected_u32(old(self).payload@, Ok(old(self).at()), 4, selected),
    {
        proof {
            reveal(past);
        }
        if selected {
            let first: u32 = self.read_u32()?;
            let second: u32 = self.read_u32()?;
            Ok((Some(first), Some(second)))
        } else {
            Ok((None, None))
        }
    }

    fn read_bytes(&mut self, len: usize) -> (result: Result<&'a [u8], String>)
        ensures
            Self::stepped(*old(self), *final(self), result, past_run(old(self).payload@, old(self).at(), len as int)),
            result matches Ok(bytes) ==> bytes@ == old(self).payload@.subrange(old(self).at(), old(self).at() + len),
    {
        let end: usize = match self.offset.checked_add(len) {
            Some(end) => end,
            None => return Err("perf sample field offset overflows usize".to_string()),
        };
        if end > self.payload.len() {
            return Err("perf sample payload is truncated".to_string());
        }
        let bytes = slice_subrange(self.payload, self.offset, end);
        self.offset = end;
        Ok(bytes)
    }

    fn finish(&self) -> (result: Result<(), String>)
        ensures
            match result {
                Ok(_) => self.at() == self.payload@.len(),
                Err(error) => self.at() != self.payload@.len() && error@
                    == "perf sample payload has trailing bytes"@,
            },
    {
        if self.offset == self.payload.len() {
            Ok(())
        } else {
            Err("perf sample payload has trailing bytes".to_string())
        }
    }

    fn skip_sized_u32_payload(&mut self) -> (result: Result<(), String>)
        ensures
            Self::stepped(*old(self), *final(self), result, past_raw(old(self).payload@, old(self).at())),
    {
        proof {
            reveal(past);
        }
        let size: u32 = self.read_u32()?;
        self.read_bytes(size as usize)?;
        Ok(())
    }

    fn skip_sized_u64_payload(&mut self) -> (result: Result<(), String>)
        ensures
            Self::stepped(*old(self), *final(self), result, past_aux(old(self).payload@, old(self).at())),
    {
        proof {
            reveal(past);
        }
        let size: u64 = self.read_u64()?;
        match size_from_u64(size) {
            Some(size) => {
                self.read_bytes(size)?;
                Ok(())
            },
            None => Err("perf sample aux size does not fit in usize".to_string()),
        }
    }

    fn skip_branch_stack(&mut self, branch_sample_type: u64) -> (result: Result<(), String>)
        ensures
            Self::stepped(
                *old(self),
                *final(self),
                result,
                past_branch_stack(old(self).payload@, old(self).at(), branch_sample_type),
            ),
    {
        proof {
            reveal(past);
        }
        let count: u64 = self.read_u64()?;
        let branches: usize = match size_from_u64(count) {
            Some(branches) => branches,
            None => return Err("perf sample branch count does not fit in usize".to_string()),
        };
        self.skip_u64_if(branch_sample_type & PERF_SAMPLE_BRANCH_HW_INDEX != 0)?;
        let byte_len: usize = match branches.checked_mul(24) {
            Some(byte_len) => byte_len,
            None => return Err("perf sample branch stack byte length overflows usize".to_string()),
        };
        self.read_bytes(byte_len)?;
        if branch_sample_type & PERF_SAMPLE_BRANCH_COUNTERS != 0 {
            self.read_bytes(branches * 8)?;
        }
        Ok(())
    }

    fn read_regs(&mut self, mask: u64) -> (result: Result<SampleUserRegs, String>)
        ensures
            Self::stepped(*old(self), *final(self), result, past_regs(old(self).payload@, old(self).at(), mask)),
            result matches Ok(regs) ==> regs@ == regs_at(old(self).payload@, old(self).at(), mask),
    {
        proof {
            reveal(past);
        }
        let abi: u64 = self.read_u64()?;
        let count: usize = if abi == 0 {
            0
        } else {
            count_ones(mask)
        };
        let start: usize = self.offset;
        let mut values: Vec<u64> = Vec::with_capacity(count);
        let mut index: usize = 0;
        while index < count
            invariant
                index <= count,
                count == register_count(abi, mask),
                self.payload@ == old(self).payload@,
                start == old(self).at() + 8,
                start <= self.payload@.len(),
                abi == le_u64(self.payload@, old(self).at()),
                self.at() == start + 8 * index,
                self.at() <= self.payload@.len(),
                values@ == Seq::new(index as nat, |i: int| le_u64(self.payload@, start + 8 * i)),
            decreases count - index,
        {
            proof {
                reveal(past);
            }
            let value: u64 = self.read_u64()?;
            values.push(value);
            index += 1;
            assert(values@ =~= Seq::new(
                index as nat,
                |i: int| le_u64(self.payload@, start + 8 * i),
            ));
        }
        let regs = SampleUserRegs { abi, values };
        assert(regs@ =~= regs_at(old(self).payload@, old(self).at(), mask));
        Ok(regs)
    }

    fn read_user_stack(&mut self) -> (result: Result<SampleUserStack<'a>, String>)
        ensures
            Self::stepped(*old(self), *final(self), result, past_user_stack(old(self).payload@, old(self).at())),
            result matches Ok(stack) ==> stack@ == user_stack_at(old(self).payload@, old(self).at()),
    {
        proof {
            reveal(past);
        }
        let stated: u64 = self.read_u64()?;
        let size: usize = match size_from_u64(stated) {
            Some(size) => size,
            None => return Err("perf sample user stack size does not fit in usize".to_string()),
        };
        if size == 0 {
            let stack = SampleUserStack {
                bytes: slice_subrange(self.payload, 0, 0),
                dynamic_size: 0,
            };
            assert(stack.bytes@ =~= Seq::empty());
            return Ok(stack);
        }
        let bytes = self.read_bytes(size)?;
        self.read_bytes((8 - size % 8) % 8)?;
        let dynamic_size: u64 = self.read_u64()?;
        Ok(SampleUserStack { bytes, dynamic_size })
    }

    fn skip_read_format(&mut self, read_format: u64) -> (result: Result<(), String>)
        ensures
            Self::stepped(
                *old(self),
                *final(self),
                result,
                past_read_format(old(self).payload@, old(self).at(), read_format),
            ),
    {
        broadcast use past_keeps_error;

        if read_format & PERF_FORMAT_GROUP != 0 {
            return self.skip_group_read_format(read_format);
        }
        self.skip_u64_if(true)?;
        self.skip_u64_if(read_format & PERF_FORMAT_TOTAL_TIME_ENABLED != 0)?;
        self.skip_u64_if(read_format & PERF_FORMAT_TOTAL_TIME_RUNNING != 0)?;
        self.skip_u64_if(read_format & PERF_FORMAT_ID != 0)?;
        self.skip_u64_if(read_format & PERF_FORMAT_LOST != 0)
    }

    fn skip_group_read_format(&mut self, read_format: u64) -> (result: Result<(), String>)
        requires
            read_format & PERF_FORMAT_GROUP != 0,
        ensures
            Self::stepped(
                *old(self),
                *final(self),
                result,
                past_read_format(old(self).payload@, old(self).at(), read_format),
            ),
    {
        proof {
            reveal(past);
        }
        let count: u64 = self.read_u64()?;
        let members: usize = match size_from_u64(count) {
            Some(members) => members,
            None => return Err("perf sample read group count does not fit in usize".to_string()),
        };
        self.skip_u64_if(read_format & PERF_FORMAT_TOTAL_TIME_ENABLED != 0)?;
        self.skip_u64_if(read_format & PERF_FORMAT_TOTAL_TIME_RUNNING != 0)?;
        let id = read_format & PERF_FORMAT_ID != 0;
        let lost = read_format & PERF_FORMAT_LOST != 0;
        let left: usize = self.payload.len() - self.offset;
        if id && lost {
            if members > left / 24 {
                return Err("perf sample payload is truncated".to_string());
            }
            self.offset += members * 24;
        } else if id || lost {
            if members > left / 16 {
                return Err("perf sample payload is truncated".to_string());
            }
            self.offset += members * 16;
        } else {
            if members > left / 8 {
                return Err("perf sample payload is truncated".to_string());
            }
            self.offset += members * 8;
        }
        Ok(())
    }
}

proof fn ones_bound(mask: nat, width: nat)
    requires
        mask < pow2(width),
    ensures
        ones(mask) <= width,
    decreases width,
{
    if width == 0 {
        lemma2_to64();
    } else if mask > 0 {
        lemma_pow2_unfold(width);
        ones_bound(mask / 2, (width - 1) as nat);
    }
}

/// Counts the bits set in a mask.
pub fn count_ones(mask: u64) -> (count: usize)
    ensures
        count == ones(mask as nat),
        count <= 64,
{
    proof {
        lemma2_to64();
        ones_bound(mask as nat, 64);
    }
    let mut count: usize = 0;
    let mut left: u64 = mask;
    while left > 0
        invariant
            ones(mask as nat) == count + ones(left as nat),
            ones(mask as nat) <= 64,
        decreases left,
    {
        if left % 2 == 1 {
            count += 1;
        }
        left = left / 2;
    }
    count
}

// ---------------------------------------------------------------------------
// Samples
// ---------------------------------------------------------------------------

/// The fields in front of the callchain.
#[derive(Clone, Copy, Debug, Eq, PartialEq, Structural)]
pub struct SampleHead {
    pub ip: Option<u64>,
    pub pid: Option<u32>,
    pub tid: Option<u32>,
    pub time: Option<u64>,
    pub cpu: Option<u32>,
    pub period: Option<u64>,
}

/// A 64-bit field at a position, where it is selected.
pub open spec fn selected_u64(payload: Seq<u8>, at: Result<int, Seq<char>>, selected: bool) -> Option<
    u64,
> {
    if selected {
        Some(le_u64(payload, at->Ok_0))
    } else {
        None
    }
}

/// A 32-bit field `skip` bytes behind a position, where it is selected.
pub open spec fn selected_u32(
    payload: Seq<u8>,
    at: Result<int, Seq<char>>,
    skip: int,
    selected: bool,
) -> Option<u32> {
    if selected {
        Some(le_u32(payload, at->Ok_0 + skip))
    } else {
        None
    }
}

impl SampleLayout {
    /// The fields in front of the callchain, each read where it stands.
    pub open spec fn head(self, payload: Seq<u8>) -> SampleHead {
        SampleHead {
            ip: selected_u64(payload, self.ip_at(payload), self.selects(PERF_SAMPLE_IP)),
            pid: selected_u32(payload, self.tid_at(payload), 0, self.selects(PERF_SAMPLE_TID)),
            tid: selected_u32(payload, self.tid_at(payload), 4, self.selects(PERF_SAMPLE_TID)),
            time: selected_u64(payload, self.time_at(payload), self.selects(PERF_SAMPLE_TIME)),
            cpu: selected_u32(payload, self.cpu_at(payload), 0, self.selects(PERF_SAMPLE_CPU)),
            period: selected_u64(
                payload,
                self.period_at(payload),
                self.selects(PERF_SAMPLE_PERIOD),
            ),
        }
    }

    /// The message for sample type bits that are not understood.
    pub open spec fn unsupported_flags(self) -> Option<Seq<char>> {
        let unsupported = self.sample_type & !SUPPORTED_PERF_SAMPLE_MASK;
        if unsupported == 0 {
            None
        } else {
            Some("unsupported perf sample flags: 0x"@ + hexadecimal(unsupported as nat, 1))
        }
    }

    fn has(self, flag: u64) -> (selected: bool)
        ensures
            selected == self.selects(flag),
    {
        self.sample_type & flag != 0
    }

    fn reject_unsupported_flags(self) -> (result: Result<(), String>)
        ensures
            match result {
                Ok(_) => self.unsupported_flags() is None,
                Err(error) => self.unsupported_flags() == Some(error@),
            },
    {
        let unsupported: u64 = self.sample_type & !SUPPORTED_PERF_SAMPLE_MASK;
        if unsupported == 0 {
            Ok(())
        } else {
            let mut error = "unsupported perf sample flags: 0x".to_string();
            push_hexadecimal(&mut error, unsupported, 1);
            Err(error)
        }
    }

    /// Where the raw data begins: behind the callchain, whose frames follow their number.
    pub open spec fn raw_at(self, payload: Seq<u8>) -> Result<int, Seq<char>> {
        match self.callchain_at(payload) {
            Err(error) => Err(error),
            Ok(at) => if !self.selects(PERF_SAMPLE_CALLCHAIN) {
                Ok(at)
            } else if at + 8 > payload.len() {
                Err(truncated())
            } else if le_u64(payload, at) > usize::MAX {
                Err("perf sample callchain length does not fit in usize"@)
            } else {
                past(payload, Ok(at + 8), true, 8 * le_u64(payload, at))
            },
        }
    }

    /// The frames of the callchain.
    pub open spec fn callchain(self, payload: Seq<u8>) -> Seq<u64> {
        if self.selects(PERF_SAMPLE_CALLCHAIN) {
            let at = self.callchain_at(payload)->Ok_0;
            words(payload.subrange(at + 8, at + 8 + 8 * le_u64(payload, at)))
        } else {
            Seq::empty()
        }
    }

    /// Where the branch stack begins, if the raw data begins at `raw`.
    pub open spec fn branch_at(self, payload: Seq<u8>, raw: Result<int, Seq<char>>) -> Result<
        int,
        Seq<char>,
    > {
        match raw {
            Ok(at) if self.selects(PERF_SAMPLE_RAW) => past_raw(payload, at),
            _ => raw,
        }
    }

    /// Where the user registers begin, if the raw data begins at `raw`.
    pub open spec fn user_regs_at(self, payload: Seq<u8>, raw: Result<int, Seq<char>>) -> Result<
        int,
        Seq<char>,
    > {
        match self.branch_at(payload, raw) {
            Ok(at) if self.selects(PERF_SAMPLE_BRANCH_STACK) => past_branch_stack(
                payload,
                at,
                self.branch_sample_type,
            ),
            other => other,
        }
    }

    /// Where the user stack begins, if the raw data begins at `raw`.
    pub open spec fn user_stack_at(self, payload: Seq<u8>, raw: Result<int, Seq<char>>) -> Result<
        int,
        Seq<char>,
    > {
        match self.user_regs_at(payload, raw) {
            Ok(at) if self.selects(PERF_SAMPLE_REGS_USER) => past_regs(
                payload,
                at,
                self.sample_regs_user,
            ),
            other => other,
        }
    }

    /// Where the weight begins, if the raw data begins at `raw`.
    pub open spec fn weight_at(self, payload: Seq<u8>, raw: Result<int, Seq<char>>) -> Result<
        int,
        Seq<char>,
    > {
        match self.user_stack_at(payload, raw) {
            Ok(at) if self.selects(PERF_SAMPLE_STACK_USER) => past_user_stack(payload, at),
            other => other,
        }
    }

    /// Where the sample ends, if its raw data begins at `raw`.
    pub open spec fn end_at(self, payload: Seq<u8>, raw: Result<int, Seq<char>>) -> Result<
        int,
        Seq<char>,
    > {
        let weight = past(
            payload,
            self.weight_at(payload, raw),
            self.selects(PERF_SAMPLE_WEIGHT),
            8,
        );
        let weights = past(payload, weight, self.selects(PERF_SAMPLE_WEIGHT_STRUCT), 8);
        let source = past(payload, weights, self.selects(PERF_SAMPLE_DATA_SRC), 8);
        let transaction = past(payload, source, self.selects(PERF_SAMPLE_TRANSACTION), 8);
        let intr = match transaction {
            Ok(at) if self.selects(PERF_SAMPLE_REGS_INTR) => past_regs(
                payload,
                at,
                self.sample_regs_intr,
            ),
            other => other,
        };
        let physical = past(payload, intr, self.selects(PERF_SAMPLE_PHYS_ADDR), 8);
        let aux = match physical {
            Ok(at) if self.selects(PERF_SAMPLE_AUX) => past_aux(payload, at),
            other => other,
        };
        let cgroup = past(payload, aux, self.selects(PERF_SAMPLE_CGROUP), 8);
        let data_page = past(payload, cgroup, self.selects(PERF_SAMPLE_DATA_PAGE_SIZE), 8);
        past(payload, data_page, self.selects(PERF_SAMPLE_CODE_PAGE_SIZE), 8)
    }
}

/// The flags that are understood, in ascending order.
#[must_use]
pub fn supported_perf_sample_flags() -> (flags: Vec<u64>)
    ensures
        flags@ == seq![
            PERF_SAMPLE_IP,
            PERF_SAMPLE_TID,
            PERF_SAMPLE_TIME,
            PERF_SAMPLE_ADDR,
            PERF_SAMPLE_READ,
            PERF_SAMPLE_CALLCHAIN,
            PERF_SAMPLE_ID,
            PERF_SAMPLE_CPU,
            PERF_SAMPLE_PERIOD,
            PERF_SAMPLE_STREAM_ID,
            PERF_SAMPLE_RAW,
            PERF_SAMPLE_BRANCH_STACK,
            PERF_SAMPLE_REGS_USER,
            PERF_SAMPLE_STACK_USER,
            PERF_SAMPLE_WEIGHT,
            PERF_SAMPLE_DATA_SRC,
            PERF_SAMPLE_IDENTIFIER,
            PERF_SAMPLE_TRANSACTION,
            PERF_SAMPLE_REGS_INTR,
            PERF_SAMPLE_PHYS_ADDR,
            PERF_SAMPLE_AUX,
            PERF_SAMPLE_CGROUP,
            PERF_SAMPLE_DATA_PAGE_SIZE,
            PERF_SAMPLE_CODE_PAGE_SIZE,
            PERF_SAMPLE_WEIGHT_STRUCT,
        ],
{
    let flags: Vec<u64> = vec![
            PERF_SAMPLE_IP,
            PERF_SAMPLE_TID,
            PERF_SAMPLE_TIME,
            PERF_SAMPLE_ADDR,
            PERF_SAMPLE_READ,
            PERF_SAMPLE_CALLCHAIN,
            PERF_SAMPLE_ID,
            PERF_SAMPLE_CPU,
            PERF_SAMPLE_PERIOD,
            PERF_SAMPLE_STREAM_ID,
            PERF_SAMPLE_RAW,
            PERF_SAMPLE_BRANCH_STACK,
            PERF_SAMPLE_REGS_USER,
            PERF_SAMPLE_STACK_USER,
            PERF_SAMPLE_WEIGHT,
            PERF_SAMPLE_DATA_SRC,
            PERF_SAMPLE_IDENTIFIER,
            PERF_SAMPLE_TRANSACTION,
            PERF_SAMPLE_REGS_INTR,
            PERF_SAMPLE_PHYS_ADDR,
            PERF_SAMPLE_AUX,
            PERF_SAMPLE_CGROUP,
            PERF_SAMPLE_DATA_PAGE_SIZE,
            PERF_SAMPLE_CODE_PAGE_SIZE,
            PERF_SAMPLE_WEIGHT_STRUCT,
    ];
    flags
}

impl<'a> SampleCursor<'a> {
    /// Reads the fields in front of the callchain.
    fn read_head(&mut self, layout: SampleLayout) -> (result: Result<SampleHead, String>)
        requires
            old(self).at() == 0,
        ensures
            Self::stepped(*old(self), *final(self), result, layout.callchain_at(old(self).payload@)),
            result matches Ok(head) ==> head == layout.head(old(self).payload@),
    {
        broadcast use past_keeps_error;

        self.skip_u64_if(layout.has(PERF_SAMPLE_IDENTIFIER))?;
        let ip: Option<u64> = self.read_u64_if(layout.has(PERF_SAMPLE_IP))?;
        // The fields stand in the order in which the kernel writes them, which is not that of
        // their flags.
        let (pid, tid) = self.read_u32_pair_if(layout.has(PERF_SAMPLE_TID))?;
        let time: Option<u64> = self.read_u64_if(layout.has(PERF_SAMPLE_TIME))?;
        self.skip_u64_if(layout.has(PERF_SAMPLE_ADDR))?;
        self.skip_u64_if(layout.has(PERF_SAMPLE_ID))?;
        self.skip_u64_if(layout.has(PERF_SAMPLE_STREAM_ID))?;
        let (cpu, _) = self.read_u32_pair_if(layout.has(PERF_SAMPLE_CPU))?;
        let period: Option<u64> = self.read_u64_if(layout.has(PERF_SAMPLE_PERIOD))?;
        if layout.has(PERF_SAMPLE_READ) {
            self.skip_read_format(layout.read_format)?;
        }
        Ok(SampleHead { ip, pid, tid, time, cpu, period })
    }

    /// Passes over the fields behind the user stack.
    fn skip_tail(&mut self, layout: SampleLayout, raw: Ghost<Result<int, Seq<char>>>) -> (result:
        Result<(), String>)
        requires
            layout.weight_at(old(self).payload@, raw@) == Ok::<int, Seq<char>>(old(self).at()),
        ensures
            Self::stepped(*old(self), *final(self), result, layout.end_at(old(self).payload@, raw@)),
    {
        broadcast use past_keeps_error;

        self.skip_u64_if(layout.has(PERF_SAMPLE_WEIGHT))?;
        self.skip_u64_if(layout.has(PERF_SAMPLE_WEIGHT_STRUCT))?;
        self.skip_u64_if(layout.has(PERF_SAMPLE_DATA_SRC))?;
        self.skip_u64_if(layout.has(PERF_SAMPLE_TRANSACTION))?;
        if layout.has(PERF_SAMPLE_REGS_INTR) {
            self.read_regs(layout.sample_regs_intr)?;
        }
        self.skip_u64_if(layout.has(PERF_SAMPLE_PHYS_ADDR))?;
        if layout.has(PERF_SAMPLE_AUX) {
            self.skip_sized_u64_payload()?;
        }
        self.skip_u64_if(layout.has(PERF_SAMPLE_CGROUP))?;
        self.skip_u64_if(layout.has(PERF_SAMPLE_DATA_PAGE_SIZE))?;
        self.skip_u64_if(layout.has(PERF_SAMPLE_CODE_PAGE_SIZE))
    }
}

/// The sample that a payload states under a layout. Every selected field must be present and
/// nothing may follow the last one.
pub open spec fn sample_of(payload: Seq<u8>, layout: SampleLayout) -> Result<
    SampleModel,
    Seq<char>,
> {
    match layout.unsupported_flags() {
        Some(error) => Err(error),
        None => match layout.end_at(payload, layout.raw_at(payload)) {
            Err(error) => Err(error),
            Ok(end) => if end != payload.len() {
                Err("perf sample payload has trailing bytes"@)
            } else {
                let head = layout.head(payload);
                Ok(
                    SampleModel {
                        ip: head.ip,
                        pid: head.pid,
                        tid: head.tid,
                        period: head.period,
                        callchain: layout.callchain(payload),
                    },
                )
            },
        },
    }
}

/// Reads as many frames as are stated from the cursor on.
fn read_frames(cursor: &mut SampleCursor<'_>, count: usize) -> (result: Result<Vec<u64>, String>)
    requires
        old(cursor).at() <= old(cursor).payload@.len(),
    ensures
        SampleCursor::stepped(
            *old(cursor),
            *final(cursor),
            result,
            past(old(cursor).payload@, Ok(old(cursor).at()), true, 8 * count),
        ),
        result matches Ok(frames) ==> frames@ == words(
            old(cursor).payload@.subrange(old(cursor).at(), old(cursor).at() + 8 * count),
        ),
{
    proof {
        reveal(past);
    }
    let start: usize = cursor.offset;
    let mut frames: Vec<u64> = Vec::new();
    let mut index: usize = 0;
    while index < count
        invariant
            index <= count,
            cursor.payload@ == old(cursor).payload@,
            start == old(cursor).at(),
            cursor.at() == start + 8 * index,
            cursor.at() <= cursor.payload@.len(),
            frames@ == Seq::new(index as nat, |i: int| le_u64(cursor.payload@, start + 8 * i)),
        decreases count - index,
    {
        proof {
            reveal(past);
        }
        let frame: u64 = cursor.read_u64()?;
        frames.push(frame);
        index += 1;
        assert(frames@ =~= Seq::new(
            index as nat,
            |i: int| le_u64(cursor.payload@, start + 8 * i),
        ));
    }
    proof {
        let payload = cursor.payload@;
        let end = start + 8 * count;
        if count > 0 {
            let part = payload.subrange(start as int, end);
            assert forall|i: int| 0 <= i < count implies #[trigger] le_u64(part, 8 * i) == le_u64(
                payload,
                start + 8 * i,
            ) by {
                le_u64_of_subrange(payload, start as int, end, 8 * i);
            }
            assert(frames@ =~= words(part));
        } else {
            assert(frames@ =~= words(payload.subrange(start as int, end)));
        }
    }
    Ok(frames)
}

/// Parses a `PERF_RECORD_SAMPLE` payload according to the provided layout.
///
/// # Errors
///
/// Returns an error when a field requested by the sample layout is truncated.
pub fn parse_sample_record(payload: &[u8], layout: SampleLayout) -> (result: Result<
    SampleRecord,
    String,
>)
    ensures
        outcome(result) == sample_of(payload@, layout),
{
    broadcast use past_keeps_error;

    layout.reject_unsupported_flags()?;
    let mut cursor = SampleCursor::new(payload);
    let head = cursor.read_head(layout)?;
    let mut callchain: Vec<u64> = Vec::new();
    if layout.has(PERF_SAMPLE_CALLCHAIN) {
        let stated: u64 = cursor.read_u64()?;
        let count: usize = match size_from_u64(stated) {
            Some(count) => count,
            None => return Err("perf sample callchain length does not fit in usize".to_string()),
        };
        callchain = read_frames(&mut cursor, count)?;
    }
    let ghost raw = layout.raw_at(payload@);
    if layout.has(PERF_SAMPLE_RAW) {
        cursor.skip_sized_u32_payload()?;
    }
    if layout.has(PERF_SAMPLE_BRANCH_STACK) {
        cursor.skip_branch_stack(layout.branch_sample_type)?;
    }
    if layout.has(PERF_SAMPLE_REGS_USER) {
        cursor.read_regs(layout.sample_regs_user)?;
    }
    if layout.has(PERF_SAMPLE_STACK_USER) {
        cursor.read_user_stack()?;
    }
    cursor.skip_tail(layout, Ghost(raw))?;
    cursor.finish()?;
    Ok(
        SampleRecord {
            ip: head.ip,
            pid: head.pid,
            tid: head.tid,
            period: head.period,
            callchain,
        },
    )
}

/// The callchain, user registers and user stack that a payload states under a layout; none where
/// the layout selects no callchain. What follows the user stack is not looked at.
pub open spec fn sample_callchain_of(payload: Seq<u8>, layout: SampleLayout) -> Result<
    Option<CallchainModel>,
    Seq<char>,
> {
    match layout.unsupported_flags() {
        Some(error) => Err(error),
        None => match layout.callchain_at(payload) {
            Err(error) => Err(error),
            Ok(at) => if !layout.selects(PERF_SAMPLE_CALLCHAIN) {
                Ok(None)
            } else {
                let raw = past_frames(payload, at);
                match layout.weight_at(payload, raw) {
                    Err(error) => Err(error),
                    Ok(_) => {
                        let head = layout.head(payload);
                        Ok(
                            Some(
                                CallchainModel {
                                    pid: head.pid,
                                    tid: head.tid,
                                    time: head.time,
                                    cpu: head.cpu,
                                    period: head.period,
                                    frames: layout.callchain(payload),
                                    user_regs: if layout.selects(PERF_SAMPLE_REGS_USER) {
                                        Some(
                                            regs_at(
                                                payload,
                                                layout.user_regs_at(payload, raw)->Ok_0,
                                                layout.sample_regs_user,
                                            ),
                                        )
                                    } else {
                                        None
                                    },
                                    user_stack: if layout.selects(PERF_SAMPLE_STACK_USER) {
                                        Some(
                                            user_stack_at(
                                                payload,
                                                layout.user_stack_at(payload, raw)->Ok_0,
                                            ),
                                        )
                                    } else {
                                        None
                                    },
                                },
                            ),
                        )
                    },
                }
            },
        },
    }
}

/// Where the frames of the callchain at `at` end, taken as one run of bytes.
pub open spec fn past_frames(payload: Seq<u8>, at: int) -> Result<int, Seq<char>> {
    if at + 8 > payload.len() {
        Err(truncated())
    } else if le_u64(payload, at) > usize::MAX {
        Err("perf sample callchain length does not fit in usize"@)
    } else if 8 * le_u64(payload, at) > usize::MAX {
        Err("perf sample callchain byte length overflows usize"@)
    } else {
        past_run(payload, at + 8, 8 * le_u64(payload, at))
    }
}

/// Parses only the sample metadata and callchain frames needed for folding.
///
/// # Errors
///
/// Returns an error when a field requested by the sample layout is truncated.
pub fn parse_sample_record_callchain(payload: &[u8], layout: SampleLayout) -> (result: Result<
    Option<SampleCallchain<'_>>,
    String,
>)
    ensures
        match result {
            Ok(Some(sample)) => sample_callchain_of(payload@, layout) == Ok::<
                Option<CallchainModel>,
                Seq<char>,
            >(Some(sample@)),
            Ok(None) => sample_callchain_of(payload@, layout) == Ok::<
                Option<CallchainModel>,
                Seq<char>,
            >(None),
            Err(error) => sample_callchain_of(payload@, layout) == Err::<
                Option<CallchainModel>,
                Seq<char>,
            >(error@),
        },
{
    broadcast use past_keeps_error;

    layout.reject_unsupported_flags()?;
    let mut cursor = SampleCursor::new(payload);
    let head = cursor.read_head(layout)?;
    if !layout.has(PERF_SAMPLE_CALLCHAIN) {
        return Ok(None);
    }
    let stated: u64 = cursor.read_u64()?;
    let count: usize = match size_from_u64(stated) {
        Some(count) => count,
        None => return Err("perf sample callchain length does not fit in usize".to_string()),
    };
    let byte_len: usize = match count.checked_mul(8) {
        Some(byte_len) => byte_len,
        None => return Err("perf sample callchain byte length overflows usize".to_string()),
    };
    let frames = cursor.read_bytes(byte_len)?;
    let mut user_regs: Option<SampleUserRegs> = None;
    let mut user_stack: Option<SampleUserStack<'_>> = None;
    if layout.has(PERF_SAMPLE_RAW) {
        cursor.skip_sized_u32_payload()?;
    }
    if layout.has(PERF_SAMPLE_BRANCH_STACK) {
        cursor.skip_branch_stack(layout.branch_sample_type)?;
    }
    if layout.has(PERF_SAMPLE_REGS_USER) {
        user_regs = Some(cursor.read_regs(layout.sample_regs_user)?);
    }
    if layout.has(PERF_SAMPLE_STACK_USER) {
        user_stack = Some(cursor.read_user_stack()?);
    }
    Ok(
        Some(
            SampleCallchain {
                pid: head.pid,
                tid: head.tid,
                time: head.time,
                cpu: head.cpu,
                period: head.period,
                frames: SampleCallchainFrames { payload: frames },
                user_regs,
                user_stack,
            },
        ),
    )
}

/// The two readings of a sample agree: where the whole sample is sound, its callchain is read
/// exactly when the layout selects one, and process, thread, period and frames are the same.
pub proof fn sample_readings_agree(payload: Seq<u8>, layout: SampleLayout)
    requires
        payload.len() <= usize::MAX,
        sample_of(payload, layout) is Ok,
    ensures
        match sample_callchain_of(payload, layout) {
            Ok(Some(callchain)) => {
                let sample = sample_of(payload, layout)->Ok_0;
                &&& layout.selects(PERF_SAMPLE_CALLCHAIN)
                &&& callchain.pid == sample.pid
                &&& callchain.tid == sample.tid
                &&& callchain.period == sample.period
                &&& callchain.frames == sample.callchain
            },
            Ok(None) => !layout.selects(PERF_SAMPLE_CALLCHAIN),
            Err(_) => false,
        },
{
    broadcast use past_keeps_error;

    if layout.selects(PERF_SAMPLE_CALLCHAIN) {
        let raw = layout.raw_at(payload);
        assert(raw is Ok);
        callchain_not_in_front(payload, layout);
        let at = layout.callchain_at(payload)->Ok_0;
        one_run_of_frames(payload, at);
    }
}

proof fn callchain_not_in_front(payload: Seq<u8>, layout: SampleLayout)
    ensures
        layout.callchain_at(payload) matches Ok(at) ==> at >= 0,
{
    broadcast use {past_keeps_error, past_stays_inside};

    assert(layout.read_at(payload) matches Ok(at) ==> at >= 0);
    if layout.selects(PERF_SAMPLE_READ) && layout.read_at(payload) is Ok {
        let at = layout.read_at(payload)->Ok_0;
        let id = layout.read_format & PERF_FORMAT_ID != 0;
        let lost = layout.read_format & PERF_FORMAT_LOST != 0;
        assert(le_u64(payload, at) * member_size(id, lost) >= 0) by (nonlinear_arith)
            requires
                member_size(id, lost) >= 0,
        ;
    }
}

/// Where the frames are all present, reading them one by one and as one run ends at one place.
proof fn one_run_of_frames(payload: Seq<u8>, at: int)
    requires
        payload.len() <= usize::MAX,
        0 <= at,
        at + 8 <= payload.len(),
        past(payload, Ok(at + 8), true, 8 * le_u64(payload, at)) is Ok,
    ensures
        past_frames(payload, at) == past(payload, Ok(at + 8), true, 8 * le_u64(payload, at)),
{
    reveal(past);
}

/// Whether a frame is a context marker.
pub open spec fn is_marker(frame: u64) -> bool {
    frame >= 0xffff_ffff_ffff_f000
}

/// Whether a frame marks a change of context instead of naming an address.
#[must_use]
pub fn is_perf_context_marker(frame: u64) -> (marker: bool)
    ensures
        marker == is_marker(frame),
{
    frame >= 0xffff_ffff_ffff_f000
}

/// Whether a frame marks the change to user context.
#[must_use]
pub fn is_perf_user_context_marker(frame: u64) -> (marker: bool)
    ensures
        marker == (frame == 0xffff_ffff_ffff_fe00),
{
    frame == 0xffff_ffff_ffff_fe00
}

/// Whether a frame marks user frames that a later record delivers.
#[must_use]
pub fn is_perf_user_deferred_context_marker(frame: u64) -> (marker: bool)
    ensures
        marker == (frame == 0xffff_ffff_ffff_fd80),
{
    frame == 0xffff_ffff_ffff_fd80
}

/// Whether a frame is an address in the kernel's half of the address space.
#[must_use]
pub fn is_kernel_space_frame(frame: u64) -> (kernel: bool)
    ensures
        kernel == (0xffff_8000_0000_0000 <= frame < 0xffff_ffff_ffff_f000),
{
    frame >= 0xffff_8000_0000_0000 && !is_perf_context_marker(frame)
}

// ---------------------------------------------------------------------------
// Laws
// ---------------------------------------------------------------------------

/// Whether a payload begins with another one.
pub open spec fn extends(longer: Seq<u8>, payload: Seq<u8>) -> bool {
    payload.len() <= longer.len() && longer.subrange(0, payload.len() as int) == payload
}

/// Whether a position that was reached in a payload is reached in one that extends it.
spec fn kept(before: Result<int, Seq<char>>, after: Result<int, Seq<char>>) -> bool {
    before matches Ok(at) ==> at >= 0 && after == before
}

proof fn past_is_kept(
    payload: Seq<u8>,
    longer: Seq<u8>,
    before: Result<int, Seq<char>>,
    after: Result<int, Seq<char>>,
    selected: bool,
    size: int,
)
    requires
        extends(longer, payload),
        kept(before, after),
        size >= 0,
    ensures
        kept(past(payload, before, selected, size), past(longer, after, selected, size)),
{
    reveal(past);
}

proof fn words_are_kept(payload: Seq<u8>, longer: Seq<u8>, at: int)
    requires
        extends(longer, payload),
        0 <= at,
        at + 4 <= payload.len(),
    ensures
        le_u32(longer, at) == le_u32(payload, at),
        at + 8 <= payload.len() ==> le_u64(longer, at) == le_u64(payload, at),
{
    reveal(crate::perfdata::endian::le_u16);
    reveal(le_u32);
    reveal(le_u64);
    let len = payload.len() as int;
    assert forall|i: int| 0 <= i < len implies longer[i] == payload[i] by {
        assert(longer.subrange(0, len)[i] == payload[i]);
    }
}

proof fn read_format_is_kept(payload: Seq<u8>, longer: Seq<u8>, at: int, read_format: u64)
    requires
        extends(longer, payload),
        0 <= at,
    ensures
        kept(
            past_read_format(payload, at, read_format),
            past_read_format(longer, at, read_format),
        ),
{
    let enabled = read_format & PERF_FORMAT_TOTAL_TIME_ENABLED != 0;
    let running = read_format & PERF_FORMAT_TOTAL_TIME_RUNNING != 0;
    let id = read_format & PERF_FORMAT_ID != 0;
    let lost = read_format & PERF_FORMAT_LOST != 0;
    let (first, second) = (past(payload, Ok(at), true, 8), past(longer, Ok(at), true, 8));
    past_is_kept(payload, longer, Ok(at), Ok(at), true, 8);
    past_is_kept(payload, longer, first, second, enabled, 8);
    let (first, second) = (past(payload, first, enabled, 8), past(longer, second, enabled, 8));
    past_is_kept(payload, longer, first, second, running, 8);
    let (first, second) = (past(payload, first, running, 8), past(longer, second, running, 8));
    if read_format & PERF_FORMAT_GROUP != 0 {
        if at + 8 <= payload.len() {
            words_are_kept(payload, longer, at);
            let size = le_u64(payload, at) * member_size(id, lost);
            assert(size >= 0) by (nonlinear_arith)
                requires
                    size == le_u64(payload, at) * member_size(id, lost),
                    member_size(id, lost) >= 0,
            ;
            past_is_kept(payload, longer, first, second, true, size);
        }
    } else {
        past_is_kept(payload, longer, first, second, id, 8);
        let (first, second) = (past(payload, first, id, 8), past(longer, second, id, 8));
        past_is_kept(payload, longer, first, second, lost, 8);
    }
}

proof fn head_is_kept(payload: Seq<u8>, longer: Seq<u8>, layout: SampleLayout)
    requires
        extends(longer, payload),
    ensures
        kept(layout.callchain_at(payload), layout.callchain_at(longer)),
{
    let l = layout;
    past_is_kept(payload, longer, Ok(0), Ok(0), l.selects(PERF_SAMPLE_IDENTIFIER), 8);
    past_is_kept(payload, longer, l.ip_at(payload), l.ip_at(longer), l.selects(PERF_SAMPLE_IP), 8);
    past_is_kept(payload, longer, l.tid_at(payload), l.tid_at(longer), l.selects(PERF_SAMPLE_TID), 8);
    past_is_kept(
        payload,
        longer,
        l.time_at(payload),
        l.time_at(longer),
        l.selects(PERF_SAMPLE_TIME),
        8,
    );
    past_is_kept(
        payload,
        longer,
        l.addr_at(payload),
        l.addr_at(longer),
        l.selects(PERF_SAMPLE_ADDR),
        8,
    );
    past_is_kept(payload, longer, l.id_at(payload), l.id_at(longer), l.selects(PERF_SAMPLE_ID), 8);
    past_is_kept(
        payload,
        longer,
        l.stream_id_at(payload),
        l.stream_id_at(longer),
        l.selects(PERF_SAMPLE_STREAM_ID),
        8,
    );
    past_is_kept(payload, longer, l.cpu_at(payload), l.cpu_at(longer), l.selects(PERF_SAMPLE_CPU), 8);
    past_is_kept(
        payload,
        longer,
        l.period_at(payload),
        l.period_at(longer),
        l.selects(PERF_SAMPLE_PERIOD),
        8,
    );
    if let Ok(at) = l.read_at(payload) {
        read_format_is_kept(payload, longer, at, l.read_format);
    }
}

proof fn raw_is_kept(payload: Seq<u8>, longer: Seq<u8>, layout: SampleLayout)
    requires
        extends(longer, payload),
    ensures
        kept(layout.raw_at(payload), layout.raw_at(longer)),
{
    head_is_kept(payload, longer, layout);
    if let Ok(at) = layout.callchain_at(payload) {
        if at + 8 <= payload.len() {
            words_are_kept(payload, longer, at);
            past_is_kept(
                payload,
                longer,
                Ok(at + 8),
                Ok(at + 8),
                true,
                8 * le_u64(payload, at),
            );
        }
    }
}

proof fn regs_are_kept(payload: Seq<u8>, longer: Seq<u8>, at: int, mask: u64)
    requires
        extends(longer, payload),
        0 <= at,
    ensures
        kept(past_regs(payload, at, mask), past_regs(longer, at, mask)),
{
    if at + 8 <= payload.len() {
        words_are_kept(payload, longer, at);
        past_is_kept(
            payload,
            longer,
            Ok(at + 8),
            Ok(at + 8),
            true,
            8 * register_count(le_u64(payload, at), mask),
        );
    }
}

proof fn branches_are_kept(payload: Seq<u8>, longer: Seq<u8>, at: int, branch_sample_type: u64)
    requires
        extends(longer, payload),
        0 <= at,
    ensures
        kept(
            past_branch_stack(payload, at, branch_sample_type),
            past_branch_stack(longer, at, branch_sample_type),
        ),
{
    if at + 8 <= payload.len() {
        words_are_kept(payload, longer, at);
        past_is_kept(
            payload,
            longer,
            Ok(at + 8),
            Ok(at + 8),
            branch_sample_type & PERF_SAMPLE_BRANCH_HW_INDEX != 0,
            8,
        );
    }
}

proof fn user_stack_is_kept(payload: Seq<u8>, longer: Seq<u8>, at: int)
    requires
        extends(longer, payload),
        0 <= at,
    ensures
        kept(past_user_stack(payload, at), past_user_stack(longer, at)),
{
    if at + 8 <= payload.len() {
        words_are_kept(payload, longer, at);
        let size = le_u64(payload, at) as int;
        if let Ok(end) = past_run(payload, at + 8, size) {
            if let Ok(end) = past_run(payload, end, padding(size)) {
                past_is_kept(payload, longer, Ok(end), Ok(end), true, 8);
            }
        }
    }
}

proof fn end_is_kept(payload: Seq<u8>, longer: Seq<u8>, layout: SampleLayout)
    requires
        extends(longer, payload),
    ensures
        kept(
            layout.end_at(payload, layout.raw_at(payload)),
            layout.end_at(longer, layout.raw_at(longer)),
        ),
{
    broadcast use past_keeps_error;

    let l = layout;
    raw_is_kept(payload, longer, l);
    let (raw, other_raw) = (l.raw_at(payload), l.raw_at(longer));
    if let Ok(at) = raw {
        if at + 4 <= payload.len() {
            words_are_kept(payload, longer, at);
        }
    }
    assert(kept(l.branch_at(payload, raw), l.branch_at(longer, other_raw)));
    if let Ok(at) = l.branch_at(payload, raw) {
        branches_are_kept(payload, longer, at, l.branch_sample_type);
    }
    assert(kept(l.user_regs_at(payload, raw), l.user_regs_at(longer, other_raw)));
    if let Ok(at) = l.user_regs_at(payload, raw) {
        regs_are_kept(payload, longer, at, l.sample_regs_user);
    }
    assert(kept(l.user_stack_at(payload, raw), l.user_stack_at(longer, other_raw)));
    if let Ok(at) = l.user_stack_at(payload, raw) {
        user_stack_is_kept(payload, longer, at);
    }
    let (a, b) = (l.weight_at(payload, raw), l.weight_at(longer, other_raw));
    assert(kept(a, b));
    let chosen = l.selects(PERF_SAMPLE_WEIGHT);
    past_is_kept(payload, longer, a, b, chosen, 8);
    let (a, b) = (past(payload, a, chosen, 8), past(longer, b, chosen, 8));
    let chosen = l.selects(PERF_SAMPLE_WEIGHT_STRUCT);
    past_is_kept(payload, longer, a, b, chosen, 8);
    let (a, b) = (past(payload, a, chosen, 8), past(longer, b, chosen, 8));
    let chosen = l.selects(PERF_SAMPLE_DATA_SRC);
    past_is_kept(payload, longer, a, b, chosen, 8);
    let (a, b) = (past(payload, a, chosen, 8), past(longer, b, chosen, 8));
    let chosen = l.selects(PERF_SAMPLE_TRANSACTION);
    past_is_kept(payload, longer, a, b, chosen, 8);
    let (a, b) = (past(payload, a, chosen, 8), past(longer, b, chosen, 8));
    if let Ok(at) = a {
        regs_are_kept(payload, longer, at, l.sample_regs_intr);
    }
    let a = match a {
        Ok(at) if l.selects(PERF_SAMPLE_REGS_INTR) => past_regs(payload, at, l.sample_regs_intr),
        other => other,
    };
    let b = match b {
        Ok(at) if l.selects(PERF_SAMPLE_REGS_INTR) => past_regs(longer, at, l.sample_regs_intr),
        other => other,
    };
    assert(kept(a, b));
    let chosen = l.selects(PERF_SAMPLE_PHYS_ADDR);
    past_is_kept(payload, longer, a, b, chosen, 8);
    let (a, b) = (past(payload, a, chosen, 8), past(longer, b, chosen, 8));
    if let Ok(at) = a {
        if at + 8 <= payload.len() {
            words_are_kept(payload, longer, at);
        }
    }
    let a = match a {
        Ok(at) if l.selects(PERF_SAMPLE_AUX) => past_aux(payload, at),
        other => other,
    };
    let b = match b {
        Ok(at) if l.selects(PERF_SAMPLE_AUX) => past_aux(longer, at),
        other => other,
    };
    assert(kept(a, b));
    let chosen = l.selects(PERF_SAMPLE_CGROUP);
    past_is_kept(payload, longer, a, b, chosen, 8);
    let (a, b) = (past(payload, a, chosen, 8), past(longer, b, chosen, 8));
    let chosen = l.selects(PERF_SAMPLE_DATA_PAGE_SIZE);
    past_is_kept(payload, longer, a, b, chosen, 8);
    let (a, b) = (past(payload, a, chosen, 8), past(longer, b, chosen, 8));
    past_is_kept(payload, longer, a, b, l.selects(PERF_SAMPLE_CODE_PAGE_SIZE), 8);
}

/// No sample begins with another one: of a payload that is read as a sample, every proper
/// beginning ends too early, and everything that goes on behind it has trailing bytes.
pub proof fn samples_end_where_they_end(
    payload: Seq<u8>,
    other: Seq<u8>,
    layout: SampleLayout,
)
    requires
        sample_of(payload, layout) is Ok,
        other != payload,
        extends(other, payload) || extends(payload, other),
    ensures
        sample_of(other, layout) is Err,
{
    if extends(other, payload) {
        end_is_kept(payload, other, layout);
        if other.len() == payload.len() {
            assert(other.subrange(0, other.len() as int) =~= other);
        }
    } else {
        end_is_kept(other, payload, layout);
        if other.len() == payload.len() {
            assert(payload.subrange(0, payload.len() as int) =~= payload);
        }
    }
}

/// How many bytes the selected ones among some fields of eight bytes take.
pub open spec fn room_of(layout: SampleLayout, flags: Seq<u64>) -> int {
    8 * (flags.filter(|flag: u64| layout.selects(flag)).len() as int)
}

proof fn one_more_field(layout: SampleLayout, flags: Seq<u64>, count: int)
    requires
        0 <= count < flags.len(),
    ensures
        room_of(layout, flags.take(count + 1)) == room_of(layout, flags.take(count))
            + if layout.selects(flags[count]) {
            8int
        } else {
            0
        },
{
    reveal(Seq::filter);
    assert(flags.take(count + 1).drop_last() =~= flags.take(count));
    assert(flags.take(count + 1).last() == flags[count]);
}

/// The fields of a sample stand one behind the other, each where it is selected: the identifier,
/// the address, process and thread, the time, the data address, the id, the stream, the CPU and
/// the period.
pub proof fn fields_stand_in_order(layout: SampleLayout, payload: Seq<u8>)
    requires
        payload.len() >= room_of(
            layout,
            seq![
                PERF_SAMPLE_IDENTIFIER,
                PERF_SAMPLE_IP,
                PERF_SAMPLE_TID,
                PERF_SAMPLE_TIME,
                PERF_SAMPLE_ADDR,
                PERF_SAMPLE_ID,
                PERF_SAMPLE_STREAM_ID,
                PERF_SAMPLE_CPU,
                PERF_SAMPLE_PERIOD,
            ],
        ),
    ensures
        ({
            let flags = seq![
                PERF_SAMPLE_IDENTIFIER,
                PERF_SAMPLE_IP,
                PERF_SAMPLE_TID,
                PERF_SAMPLE_TIME,
                PERF_SAMPLE_ADDR,
                PERF_SAMPLE_ID,
                PERF_SAMPLE_STREAM_ID,
                PERF_SAMPLE_CPU,
                PERF_SAMPLE_PERIOD,
            ];
            let head = layout.head(payload);
            &&& layout.selects(PERF_SAMPLE_IP) ==> head.ip == Some(
                le_u64(payload, room_of(layout, flags.take(1))),
            )
            &&& layout.selects(PERF_SAMPLE_TID) ==> head.pid == Some(
                le_u32(payload, room_of(layout, flags.take(2))),
            ) && head.tid == Some(le_u32(payload, room_of(layout, flags.take(2)) + 4))
            &&& layout.selects(PERF_SAMPLE_TIME) ==> head.time == Some(
                le_u64(payload, room_of(layout, flags.take(3))),
            )
            &&& layout.selects(PERF_SAMPLE_CPU) ==> head.cpu == Some(
                le_u32(payload, room_of(layout, flags.take(7))),
            )
            &&& layout.selects(PERF_SAMPLE_PERIOD) ==> head.period == Some(
                le_u64(payload, room_of(layout, flags.take(8))),
            )
            &&& layout.read_at(payload) == Ok::<int, Seq<char>>(room_of(layout, flags))
            &&& !layout.selects(PERF_SAMPLE_IP) ==> head.ip is None
            &&& !layout.selects(PERF_SAMPLE_TID) ==> head.pid is None && head.tid is None
            &&& !layout.selects(PERF_SAMPLE_TIME) ==> head.time is None
            &&& !layout.selects(PERF_SAMPLE_CPU) ==> head.cpu is None
            &&& !layout.selects(PERF_SAMPLE_PERIOD) ==> head.period is None
        }),
{
    let flags = seq![
        PERF_SAMPLE_IDENTIFIER,
        PERF_SAMPLE_IP,
        PERF_SAMPLE_TID,
        PERF_SAMPLE_TIME,
        PERF_SAMPLE_ADDR,
        PERF_SAMPLE_ID,
        PERF_SAMPLE_STREAM_ID,
        PERF_SAMPLE_CPU,
        PERF_SAMPLE_PERIOD,
    ];
    reveal(Seq::filter);
    reveal(past);
    assert(flags.take(0) =~= Seq::empty());
    assert(room_of(layout, flags.take(0)) == 0);
    one_more_field(layout, flags, 0);
    one_more_field(layout, flags, 1);
    one_more_field(layout, flags, 2);
    one_more_field(layout, flags, 3);
    one_more_field(layout, flags, 4);
    one_more_field(layout, flags, 5);
    one_more_field(layout, flags, 6);
    one_more_field(layout, flags, 7);
    one_more_field(layout, flags, 8);
    assert(flags.take(9) =~= flags);
    assert(flags[0] == PERF_SAMPLE_IDENTIFIER);
    assert(flags[1] == PERF_SAMPLE_IP);
    assert(flags[2] == PERF_SAMPLE_TID);
    assert(flags[3] == PERF_SAMPLE_TIME);
    assert(flags[4] == PERF_SAMPLE_ADDR);
    assert(flags[5] == PERF_SAMPLE_ID);
    assert(flags[6] == PERF_SAMPLE_STREAM_ID);
    assert(flags[7] == PERF_SAMPLE_CPU);
    assert(flags[8] == PERF_SAMPLE_PERIOD);
    assert(0 <= room_of(layout, flags.take(1)) <= payload.len());
    assert(layout.ip_at(payload) == Ok::<int, Seq<char>>(room_of(layout, flags.take(1))));
    assert(layout.tid_at(payload) == Ok::<int, Seq<char>>(room_of(layout, flags.take(2))));
    assert(layout.time_at(payload) == Ok::<int, Seq<char>>(room_of(layout, flags.take(3))));
    assert(layout.addr_at(payload) == Ok::<int, Seq<char>>(room_of(layout, flags.take(4))));
    assert(layout.id_at(payload) == Ok::<int, Seq<char>>(room_of(layout, flags.take(5))));
    assert(layout.stream_id_at(payload) == Ok::<int, Seq<char>>(room_of(layout, flags.take(6))));
    assert(layout.cpu_at(payload) == Ok::<int, Seq<char>>(room_of(layout, flags.take(7))));
    assert(layout.period_at(payload) == Ok::<int, Seq<char>>(room_of(layout, flags.take(8))));
    assert(layout.read_at(payload) == Ok::<int, Seq<char>>(room_of(layout, flags.take(9))));
}

/// The callchain of a sample is what stands behind its number of frames, in its order.
pub proof fn callchains_are_read_in_order(layout: SampleLayout, payload: Seq<u8>, at: int)
    requires
        layout.selects(PERF_SAMPLE_CALLCHAIN),
        layout.callchain_at(payload) == Ok::<int, Seq<char>>(at),
        0 <= at,
        at + 8 + 8 * le_u64(payload, at) <= payload.len(),
    ensures
        layout.callchain(payload).len() == le_u64(payload, at),
        forall|i: int|
            0 <= i < le_u64(payload, at) ==> #[trigger] layout.callchain(payload)[i] == le_u64(
                payload,
                at + 8 + 8 * i,
            ),
{
    let count = le_u64(payload, at) as int;
    let part = payload.subrange(at + 8, at + 8 + 8 * count);
    assert forall|i: int| 0 <= i < count implies #[trigger] layout.callchain(payload)[i] == le_u64(
        payload,
        at + 8 + 8 * i,
    ) by {
        let from = 8 * i;
        let place = at + 8 + 8 * i;
        crate::perfdata::endian::lowest_bytes_come_first(part, from);
        crate::perfdata::endian::lowest_bytes_come_first(payload, place);
        assert(part[from] == payload[place] && part[from + 1] == payload[place + 1] && part[from
            + 2] == payload[place + 2] && part[from + 3] == payload[place + 3] && part[from + 4]
            == payload[place + 4] && part[from + 5] == payload[place + 5] && part[from + 6]
            == payload[place + 6] && part[from + 7] == payload[place + 7]);
    }
}

/// Raw data ends behind as many bytes as the four bytes in front of it state, and data of an
/// auxiliary trace behind as many as the eight bytes in front of it state.
pub proof fn stated_lengths_are_passed_over(front: Seq<u8>, data: Seq<u8>, behind: Seq<u8>)
    requires
        data.len() <= u32::MAX,
        front.len() + 8 + data.len() + behind.len() <= usize::MAX,
    ensures
        past_raw(front + four_bytes(data.len() as u32) + data + behind, front.len() as int) == Ok::<
            int,
            Seq<char>,
        >(front.len() + 4 + data.len() as int),
        past_aux(front + eight_bytes(data.len() as u64) + data + behind, front.len() as int)
            == Ok::<int, Seq<char>>(front.len() + 8 + data.len() as int),
{
    let at = front.len() as int;
    let raw = front + four_bytes(data.len() as u32) + data + behind;
    assert(raw.subrange(at, at + 4) =~= four_bytes(data.len() as u32));
    written_numbers_are_read(raw, at, data.len() as u32, 0);
    let aux = front + eight_bytes(data.len() as u64) + data + behind;
    assert(aux.subrange(at, at + 8) =~= eight_bytes(data.len() as u64));
    written_numbers_are_read(aux, at, 0, data.len() as u64);
}

/// A copy of the stack is read as it was written: its size, its bytes, fill up to a multiple of
/// eight, and how much of it is in use. An empty copy is its size alone.
pub proof fn written_stacks_are_read(
    payload: Seq<u8>,
    at: int,
    stack: Seq<u8>,
    fill: int,
    used: u64,
)
    requires
        0 <= at,
        0 <= fill < 8,
        (stack.len() + fill) % 8 == 0,
        at + 16 + stack.len() + fill <= payload.len() <= usize::MAX,
        payload.subrange(at, at + 8) == eight_bytes(stack.len() as u64),
        payload.subrange(at + 8, at + 8 + stack.len()) == stack,
        payload.subrange(at + 8 + stack.len() + fill, at + 16 + stack.len() + fill) == eight_bytes(
            used,
        ),
    ensures
        past_user_stack(payload, at) == Ok::<int, Seq<char>>(
            if stack.len() == 0 {
                at + 8
            } else {
                at + 16 + stack.len() + fill
            },
        ),
        user_stack_at(payload, at) == (UserStackModel {
            bytes: stack,
            dynamic_size: if stack.len() == 0 {
                0
            } else {
                used
            },
        }),
{
    reveal(past);
    let size = stack.len() as u64;
    written_numbers_are_read(payload, at, 0, size);
    written_numbers_are_read(payload, at + 8 + size + fill, 0, used);
    assert(stack.len() == 0 ==> stack =~= Seq::empty());
    assert(padding(size as int) == fill);
}

/// Registers are read as they were written: the ABI, then a value for each register of the mask;
/// without an ABI there are none.
pub proof fn written_registers_are_read(
    payload: Seq<u8>,
    at: int,
    abi: u64,
    mask: u64,
    values: Seq<u64>,
)
    requires
        0 <= at,
        values.len() == if abi == 0 {
            0
        } else {
            ones(mask as nat)
        },
        at + 8 + 8 * values.len() <= payload.len(),
        payload.subrange(at, at + 8) == eight_bytes(abi),
        forall|i: int|
            0 <= i < values.len() ==> payload.subrange(at + 8 + 8 * i, at + 16 + 8 * i)
                == eight_bytes(#[trigger] values[i]),
    ensures
        past_regs(payload, at, mask) == Ok::<int, Seq<char>>(at + 8 + 8 * values.len()),
        regs_at(payload, at, mask) == (UserRegsModel { abi, values }),
{
    reveal(past);
    written_numbers_are_read(payload, at, 0, abi);
    let read = regs_at(payload, at, mask).values;
    assert forall|i: int| 0 <= i < values.len() implies #[trigger] read[i] == values[i] by {
        written_numbers_are_read(payload, at + 8 + 8 * i, 0, values[i]);
    }
    assert(read =~= values);
}

/// Branches are passed over: their number, an index where it is asked for, three numbers for each
/// branch, and a counter for each where those are asked for.
pub proof fn branches_are_passed_over(payload: Seq<u8>, at: int, count: u64, kind: u64)
    requires
        0 <= at,
        ({
            let index: int = if kind & 0x2_0000 != 0 {
                8
            } else {
                0
            };
            let each: int = if kind & 0x8_0000 != 0 {
                32
            } else {
                24
            };
            at + 8 + index + each * count <= payload.len() <= usize::MAX
        }),
        at + 8 <= payload.len(),
        payload.subrange(at, at + 8) == eight_bytes(count),
    ensures
        past_branch_stack(payload, at, kind) == Ok::<int, Seq<char>>(
            at + 8 + (if kind & 0x2_0000 != 0 {
                8int
            } else {
                0
            }) + (if kind & 0x8_0000 != 0 {
                32int
            } else {
                24
            }) * count,
        ),
{
    reveal(past);
    written_numbers_are_read(payload, at, 0, count);
}

/// Counter values are passed over: the value or the number of members, the two times where they
/// are asked for, and for a group one to three numbers for each member.
pub proof fn counters_are_passed_over(payload: Seq<u8>, at: int, kind: u64, members: u64)
    requires
        0 <= at,
        members <= usize::MAX,
        at + 8 <= payload.len(),
        payload.subrange(at, at + 8) == eight_bytes(members),
        at + 24 + 24 * members + 16 <= payload.len(),
    ensures
        ({
            let times = (if kind & 1 != 0 {
                8int
            } else {
                0
            }) + (if kind & 2 != 0 {
                8int
            } else {
                0
            });
            let more = (if kind & 4 != 0 {
                8int
            } else {
                0
            }) + (if kind & 16 != 0 {
                8int
            } else {
                0
            });
            past_read_format(payload, at, kind) == Ok::<int, Seq<char>>(
                if kind & 8 != 0 {
                    at + 8 + times + members * (8 + more)
                } else {
                    at + 8 + times + more
                },
            )
        }),
{
    reveal(past);
    written_numbers_are_read(payload, at, 0, members);
    let more = (if kind & 4 != 0 {
        8int
    } else {
        0
    }) + (if kind & 16 != 0 {
        8int
    } else {
        0
    });
    assert(0 <= members * (8 + more) <= members * 24) by (nonlinear_arith)
        requires
            0 <= more <= 16,
            members >= 0,
    ;
}

/// The number of set bits does not depend on which they are: a bit counts one, and the bits above
/// it count as they would without it.
pub proof fn set_bits_are_counted(above: nat)
    ensures
        ones(0) == 0,
        ones(2 * above) == ones(above),
        ones(2 * above + 1) == ones(above) + 1,
{
}

/// The markers are the last 4096 numbers; those of user context are among them.
pub proof fn markers_are_no_addresses(frame: u64)
    ensures
        is_marker(frame) <==> frame > u64::MAX - 4096,
        frame == 0xffff_ffff_ffff_fe00 || frame == 0xffff_ffff_ffff_fd80 ==> is_marker(frame),
{
}

} // verus!
