//! Records of the data section: their headers, their typed payloads, and the walk over them.

use vstd::prelude::*;
use vstd::slice::{slice_subrange, slice_to_vec};

use crate::perfdata::attrs::{does_not_fit, to_usize};
use crate::perfdata::endian::{
    eight_bytes, four_bytes, le_u16, le_u32, le_u64, lowest_bytes_come_first, u16_at, u32_at,
    u64_at, written_numbers_are_read,
};
use crate::perfdata::header::PerfHeader;
use crate::text::{
    after, decimal, find_byte, first_from, number_message, outcome, push_decimal,
    text_from_utf8_lossy, utf8_lossy, views,
};

verus! {

broadcast use vstd::std_specs::control_flow::group_control_flow_axioms;

pub const PERF_RECORD_MMAP: u32 = 1;

pub const PERF_RECORD_LOST: u32 = 2;

pub const PERF_RECORD_COMM: u32 = 3;

pub const PERF_RECORD_EXIT: u32 = 4;

pub const PERF_RECORD_THROTTLE: u32 = 5;

pub const PERF_RECORD_UNTHROTTLE: u32 = 6;

pub const PERF_RECORD_FORK: u32 = 7;

pub const PERF_RECORD_READ: u32 = 8;

pub const PERF_RECORD_SAMPLE: u32 = 9;

pub const PERF_RECORD_MMAP2: u32 = 10;

pub const PERF_RECORD_AUX: u32 = 11;

pub const PERF_RECORD_ITRACE_START: u32 = 12;

pub const PERF_RECORD_LOST_SAMPLES: u32 = 13;

pub const PERF_RECORD_SWITCH: u32 = 14;

pub const PERF_RECORD_SWITCH_CPU_WIDE: u32 = 15;

pub const PERF_RECORD_NAMESPACES: u32 = 16;

pub const PERF_RECORD_KSYMBOL: u32 = 17;

pub const PERF_RECORD_BPF_EVENT: u32 = 18;

pub const PERF_RECORD_CGROUP: u32 = 19;

pub const PERF_RECORD_TEXT_POKE: u32 = 20;

pub const PERF_RECORD_AUX_OUTPUT_HW_ID: u32 = 21;

pub const PERF_RECORD_CALLCHAIN_DEFERRED: u32 = 22;

pub const PERF_RECORD_HEADER_BUILD_ID: u32 = 67;

pub const PERF_RECORD_FINISHED_ROUND: u32 = 68;

/// Bit 14 of the flags of a mapping record: it carries a build id.
pub const PERF_RECORD_MISC_MMAP_BUILD_ID: u16 = 0x4000;

/// Bit 13 of the flags of a command-name record: the name comes from an `exec`.
pub const PERF_RECORD_MISC_COMM_EXEC: u16 = 0x2000;

/// Bit 13 of the flags of a fork record: the child replaces its image and gets no mappings.
pub const PERF_RECORD_MISC_FORK_EXEC: u16 = 0x2000;

/// The bits of a record's flags that hold the processor mode.
pub const PERF_RECORD_MISC_CPUMODE_MASK: u16 = 7;

/// The processor mode of the kernel.
pub const PERF_RECORD_MISC_CPUMODE_KERNEL: u16 = 1;

/// Number of bytes of a BPF program's tag.
pub const BPF_TAG_SIZE: usize = 8;

#[derive(Clone, Copy, Debug, Eq, PartialEq, Structural)]
pub struct PerfRecordHeader {
    pub record_type: u32,
    pub misc: u16,
    pub size: u16,
}

impl View for PerfRecordHeader {
    type V = PerfRecordHeader;

    open spec fn view(&self) -> PerfRecordHeader {
        *self
    }
}

#[derive(Clone, Copy, Debug, Eq, PartialEq)]
pub struct PerfRecord<'a> {
    pub offset: usize,
    pub header: PerfRecordHeader,
    pub payload: &'a [u8],
}

/// Where a record stands, its header, and the bytes behind the header.
#[verifier::ext_equal]
pub struct RecordModel {
    pub offset: int,
    pub header: PerfRecordHeader,
    pub payload: Seq<u8>,
}

impl<'a> View for PerfRecord<'a> {
    type V = RecordModel;

    open spec fn view(&self) -> RecordModel {
        RecordModel { offset: self.offset as int, header: self.header, payload: self.payload@ }
    }
}

#[derive(Clone, Debug, Eq, PartialEq)]
pub struct CommRecord {
    pub pid: u32,
    pub tid: u32,
    pub comm: String,
    pub is_exec: bool,
}

/// The contents of a [`CommRecord`].
#[verifier::ext_equal]
pub struct CommModel {
    pub pid: u32,
    pub tid: u32,
    pub comm: Seq<char>,
    pub is_exec: bool,
}

impl View for CommRecord {
    type V = CommModel;

    open spec fn view(&self) -> CommModel {
        CommModel {
            pid: self.pid,
            tid: self.tid,
            comm: self.comm@,
            is_exec: self.is_exec,
        }
    }
}

#[derive(Clone, Debug, Eq, PartialEq)]
pub struct MmapRecord {
    pub pid: u32,
    pub tid: u32,
    pub start: u64,
    pub len: u64,
    pub pgoff: u64,
    pub path: String,
}

/// The contents of a [`MmapRecord`].
#[verifier::ext_equal]
pub struct MmapModel {
    pub pid: u32,
    pub tid: u32,
    pub start: u64,
    pub len: u64,
    pub pgoff: u64,
    pub path: Seq<char>,
}

impl View for MmapRecord {
    type V = MmapModel;

    open spec fn view(&self) -> MmapModel {
        MmapModel {
            pid: self.pid,
            tid: self.tid,
            start: self.start,
            len: self.len,
            pgoff: self.pgoff,
            path: self.path@,
        }
    }
}

#[derive(Clone, Debug, Eq, PartialEq)]
pub struct Mmap2Record {
    pub pid: u32,
    pub tid: u32,
    pub start: u64,
    pub len: u64,
    pub pgoff: u64,
    pub major: u32,
    pub minor: u32,
    pub inode: u64,
    pub inode_generation: u64,
    pub prot: u32,
    pub flags: u32,
    pub path: String,
}

/// The contents of a [`Mmap2Record`].
#[verifier::ext_equal]
pub struct Mmap2Model {
    pub pid: u32,
    pub tid: u32,
    pub start: u64,
    pub len: u64,
    pub pgoff: u64,
    pub major: u32,
    pub minor: u32,
    pub inode: u64,
    pub inode_generation: u64,
    pub prot: u32,
    pub flags: u32,
    pub path: Seq<char>,
}

impl View for Mmap2Record {
    type V = Mmap2Model;

    open spec fn view(&self) -> Mmap2Model {
        Mmap2Model {
            pid: self.pid,
            tid: self.tid,
            start: self.start,
            len: self.len,
            pgoff: self.pgoff,
            major: self.major,
            minor: self.minor,
            inode: self.inode,
            inode_generation: self.inode_generation,
            prot: self.prot,
            flags: self.flags,
            path: self.path@,
        }
    }
}

#[derive(Clone, Debug, Eq, PartialEq)]
pub struct Mmap2BuildIdRecord {
    pub pid: u32,
    pub tid: u32,
    pub start: u64,
    pub len: u64,
    pub pgoff: u64,
    pub build_id_size: u8,
    pub build_id: Vec<u8>,
    pub prot: u32,
    pub flags: u32,
    pub path: String,
}

/// The contents of a [`Mmap2BuildIdRecord`].
#[verifier::ext_equal]
pub struct Mmap2BuildIdModel {
    pub pid: u32,
    pub tid: u32,
    pub start: u64,
    pub len: u64,
    pub pgoff: u64,
    pub build_id_size: u8,
    pub build_id: Seq<u8>,
    pub prot: u32,
    pub flags: u32,
    pub path: Seq<char>,
}

impl View for Mmap2BuildIdRecord {
    type V = Mmap2BuildIdModel;

    open spec fn view(&self) -> Mmap2BuildIdModel {
        Mmap2BuildIdModel {
            pid: self.pid,
            tid: self.tid,
            start: self.start,
            len: self.len,
            pgoff: self.pgoff,
            build_id_size: self.build_id_size,
            build_id: self.build_id@,
            prot: self.prot,
            flags: self.flags,
            path: self.path@,
        }
    }
}

#[derive(Clone, Copy, Debug, Eq, PartialEq, Structural)]
pub struct ForkRecord {
    pub pid: u32,
    pub ppid: u32,
    pub tid: u32,
    pub ptid: u32,
    pub time: u64,
    pub clone_maps: bool,
}

impl View for ForkRecord {
    type V = ForkRecord;

    open spec fn view(&self) -> ForkRecord {
        *self
    }
}

#[derive(Clone, Copy, Debug, Eq, PartialEq, Structural)]
pub struct ExitRecord {
    pub pid: u32,
    pub ppid: u32,
    pub tid: u32,
    pub ptid: u32,
    pub time: u64,
}

impl View for ExitRecord {
    type V = ExitRecord;

    open spec fn view(&self) -> ExitRecord {
        *self
    }
}

#[derive(Clone, Copy, Debug, Eq, PartialEq, Structural)]
pub struct LostRecord {
    pub id: u64,
    pub lost: u64,
}

impl View for LostRecord {
    type V = LostRecord;

    open spec fn view(&self) -> LostRecord {
        *self
    }
}

#[derive(Clone, Copy, Debug, Eq, PartialEq, Structural)]
pub struct LostSamplesRecord {
    pub lost: u64,
}

impl View for LostSamplesRecord {
    type V = LostSamplesRecord;

    open spec fn view(&self) -> LostSamplesRecord {
        *self
    }
}

#[derive(Clone, Copy, Debug, Eq, PartialEq, Structural)]
pub struct ThrottleRecord {
    pub time: u64,
    pub id: u64,
    pub stream_id: u64,
}

impl View for ThrottleRecord {
    type V = ThrottleRecord;

    open spec fn view(&self) -> ThrottleRecord {
        *self
    }
}

#[derive(Clone, Copy, Debug, Eq, PartialEq, Structural)]
pub struct UnthrottleRecord {
    pub time: u64,
    pub id: u64,
    pub stream_id: u64,
}

impl View for UnthrottleRecord {
    type V = UnthrottleRecord;

    open spec fn view(&self) -> UnthrottleRecord {
        *self
    }
}

#[derive(Clone, Debug, Eq, PartialEq)]
pub struct ReadRecord {
    pub pid: u32,
    pub tid: u32,
    pub values: Vec<u8>,
}

/// The contents of a [`ReadRecord`].
#[verifier::ext_equal]
pub struct ReadModel {
    pub pid: u32,
    pub tid: u32,
    pub values: Seq<u8>,
}

impl View for ReadRecord {
    type V = ReadModel;

    open spec fn view(&self) -> ReadModel {
        ReadModel {
            pid: self.pid,
            tid: self.tid,
            values: self.values@,
        }
    }
}

#[derive(Clone, Debug, Eq, PartialEq)]
pub struct SamplePayloadRecord {
    pub misc: u16,
    pub payload: Vec<u8>,
}

/// The contents of a [`SamplePayloadRecord`].
#[verifier::ext_equal]
pub struct SamplePayloadModel {
    pub misc: u16,
    pub payload: Seq<u8>,
}

impl View for SamplePayloadRecord {
    type V = SamplePayloadModel;

    open spec fn view(&self) -> SamplePayloadModel {
        SamplePayloadModel {
            misc: self.misc,
            payload: self.payload@,
        }
    }
}

#[derive(Clone, Debug, Eq, PartialEq)]
pub struct AuxRecord {
    pub aux_offset: u64,
    pub aux_size: u64,
    pub flags: u64,
    pub sample_id: Vec<u8>,
}

/// The contents of a [`AuxRecord`].
#[verifier::ext_equal]
pub struct AuxModel {
    pub aux_offset: u64,
    pub aux_size: u64,
    pub flags: u64,
    pub sample_id: Seq<u8>,
}

impl View for AuxRecord {
    type V = AuxModel;

    open spec fn view(&self) -> AuxModel {
        AuxModel {
            aux_offset: self.aux_offset,
            aux_size: self.aux_size,
            flags: self.flags,
            sample_id: self.sample_id@,
        }
    }
}

#[derive(Clone, Debug, Eq, PartialEq)]
pub struct ItraceStartRecord {
    pub pid: u32,
    pub tid: u32,
    pub sample_id: Vec<u8>,
}

/// The contents of a [`ItraceStartRecord`].
#[verifier::ext_equal]
pub struct ItraceStartModel {
    pub pid: u32,
    pub tid: u32,
    pub sample_id: Seq<u8>,
}

impl View for ItraceStartRecord {
    type V = ItraceStartModel;

    open spec fn view(&self) -> ItraceStartModel {
        ItraceStartModel {
            pid: self.pid,
            tid: self.tid,
            sample_id: self.sample_id@,
        }
    }
}

#[derive(Clone, Debug, Eq, PartialEq)]
pub struct SwitchRecord {
    pub sample_id: Vec<u8>,
}

/// The contents of a [`SwitchRecord`].
#[verifier::ext_equal]
pub struct SwitchModel {
    pub sample_id: Seq<u8>,
}

impl View for SwitchRecord {
    type V = SwitchModel;

    open spec fn view(&self) -> SwitchModel {
        SwitchModel {
            sample_id: self.sample_id@,
        }
    }
}

#[derive(Clone, Debug, Eq, PartialEq)]
pub struct SwitchCpuWideRecord {
    pub next_prev_pid: u32,
    pub next_prev_tid: u32,
    pub sample_id: Vec<u8>,
}

/// The contents of a [`SwitchCpuWideRecord`].
#[verifier::ext_equal]
pub struct SwitchCpuWideModel {
    pub next_prev_pid: u32,
    pub next_prev_tid: u32,
    pub sample_id: Seq<u8>,
}

impl View for SwitchCpuWideRecord {
    type V = SwitchCpuWideModel;

    open spec fn view(&self) -> SwitchCpuWideModel {
        SwitchCpuWideModel {
            next_prev_pid: self.next_prev_pid,
            next_prev_tid: self.next_prev_tid,
            sample_id: self.sample_id@,
        }
    }
}

#[derive(Clone, Copy, Debug, Eq, PartialEq, Structural)]
pub struct NamespaceLink {
    pub dev: u64,
    pub inode: u64,
}

impl View for NamespaceLink {
    type V = NamespaceLink;

    open spec fn view(&self) -> NamespaceLink {
        *self
    }
}

#[derive(Clone, Debug, Eq, PartialEq)]
pub struct NamespacesRecord {
    pub pid: u32,
    pub tid: u32,
    pub namespaces: Vec<NamespaceLink>,
    pub sample_id: Vec<u8>,
}

/// The contents of a [`NamespacesRecord`].
#[verifier::ext_equal]
pub struct NamespacesModel {
    pub pid: u32,
    pub tid: u32,
    pub namespaces: Seq<NamespaceLink>,
    pub sample_id: Seq<u8>,
}

impl View for NamespacesRecord {
    type V = NamespacesModel;

    open spec fn view(&self) -> NamespacesModel {
        NamespacesModel {
            pid: self.pid,
            tid: self.tid,
            namespaces: self.namespaces@,
            sample_id: self.sample_id@,
        }
    }
}

#[derive(Clone, Debug, Eq, PartialEq)]
pub struct KsymbolRecord {
    pub addr: u64,
    pub len: u32,
    pub ksym_type: u16,
    pub flags: u16,
    pub name: String,
    pub sample_id: Vec<u8>,
}

/// The contents of a [`KsymbolRecord`].
#[verifier::ext_equal]
pub struct KsymbolModel {
    pub addr: u64,
    pub len: u32,
    pub ksym_type: u16,
    pub flags: u16,
    pub name: Seq<char>,
    pub sample_id: Seq<u8>,
}

impl View for KsymbolRecord {
    type V = KsymbolModel;

    open spec fn view(&self) -> KsymbolModel {
        KsymbolModel {
            addr: self.addr,
            len: self.len,
            ksym_type: self.ksym_type,
            flags: self.flags,
            name: self.name@,
            sample_id: self.sample_id@,
        }
    }
}

#[derive(Clone, Debug, Eq, PartialEq)]
pub struct BpfEventRecord {
    pub event_type: u16,
    pub flags: u16,
    pub id: u32,
    pub tag: [u8; BPF_TAG_SIZE],
    pub sample_id: Vec<u8>,
}

/// The contents of a [`BpfEventRecord`].
#[verifier::ext_equal]
pub struct BpfEventModel {
    pub event_type: u16,
    pub flags: u16,
    pub id: u32,
    pub tag: Seq<u8>,
    pub sample_id: Seq<u8>,
}

impl View for BpfEventRecord {
    type V = BpfEventModel;

    open spec fn view(&self) -> BpfEventModel {
        BpfEventModel {
            event_type: self.event_type,
            flags: self.flags,
            id: self.id,
            tag: self.tag@,
            sample_id: self.sample_id@,
        }
    }
}

#[derive(Clone, Debug, Eq, PartialEq)]
pub struct CgroupRecord {
    pub id: u64,
    pub path: String,
    pub sample_id: Vec<u8>,
}

/// The contents of a [`CgroupRecord`].
#[verifier::ext_equal]
pub struct CgroupModel {
    pub id: u64,
    pub path: Seq<char>,
    pub sample_id: Seq<u8>,
}

impl View for CgroupRecord {
    type V = CgroupModel;

    open spec fn view(&self) -> CgroupModel {
        CgroupModel {
            id: self.id,
            path: self.path@,
            sample_id: self.sample_id@,
        }
    }
}

#[derive(Clone, Debug, Eq, PartialEq)]
pub struct TextPokeRecord {
    pub addr: u64,
    pub old_len: u16,
    pub new_len: u16,
    pub bytes: Vec<u8>,
    pub sample_id: Vec<u8>,
}

/// The contents of a [`TextPokeRecord`].
#[verifier::ext_equal]
pub struct TextPokeModel {
    pub addr: u64,
    pub old_len: u16,
    pub new_len: u16,
    pub bytes: Seq<u8>,
    pub sample_id: Seq<u8>,
}

impl View for TextPokeRecord {
    type V = TextPokeModel;

    open spec fn view(&self) -> TextPokeModel {
        TextPokeModel {
            addr: self.addr,
            old_len: self.old_len,
            new_len: self.new_len,
            bytes: self.bytes@,
            sample_id: self.sample_id@,
        }
    }
}

#[derive(Clone, Debug, Eq, PartialEq)]
pub struct AuxOutputHwIdRecord {
    pub hw_id: u64,
    pub sample_id: Vec<u8>,
}

/// The contents of a [`AuxOutputHwIdRecord`].
#[verifier::ext_equal]
pub struct AuxOutputHwIdModel {
    pub hw_id: u64,
    pub sample_id: Seq<u8>,
}

impl View for AuxOutputHwIdRecord {
    type V = AuxOutputHwIdModel;

    open spec fn view(&self) -> AuxOutputHwIdModel {
        AuxOutputHwIdModel {
            hw_id: self.hw_id,
            sample_id: self.sample_id@,
        }
    }
}

#[derive(Clone, Debug, Eq, PartialEq)]
pub struct CallchainDeferredRecord {
    pub cookie: u64,
    pub ips: Vec<u64>,
    pub sample_id: Vec<u8>,
}

/// The contents of a [`CallchainDeferredRecord`].
#[verifier::ext_equal]
pub struct CallchainDeferredModel {
    pub cookie: u64,
    pub ips: Seq<u64>,
    pub sample_id: Seq<u8>,
}

impl View for CallchainDeferredRecord {
    type V = CallchainDeferredModel;

    open spec fn view(&self) -> CallchainDeferredModel {
        CallchainDeferredModel {
            cookie: self.cookie,
            ips: self.ips@,
            sample_id: self.sample_id@,
        }
    }
}

#[derive(Clone, Debug, Eq, PartialEq)]
pub enum ParsedRecord {
    Comm(CommRecord),
    Mmap(MmapRecord),
    Mmap2(Mmap2Record),
    Mmap2BuildId(Mmap2BuildIdRecord),
    Fork(ForkRecord),
    Exit(ExitRecord),
    Lost(LostRecord),
    LostSamples(LostSamplesRecord),
    Throttle(ThrottleRecord),
    Unthrottle(UnthrottleRecord),
    Read(ReadRecord),
    Sample(SamplePayloadRecord),
    Aux(AuxRecord),
    ItraceStart(ItraceStartRecord),
    Switch(SwitchRecord),
    SwitchCpuWide(SwitchCpuWideRecord),
    Namespaces(NamespacesRecord),
    Ksymbol(KsymbolRecord),
    BpfEvent(BpfEventRecord),
    Cgroup(CgroupRecord),
    TextPoke(TextPokeRecord),
    AuxOutputHwId(AuxOutputHwIdRecord),
    CallchainDeferred(CallchainDeferredRecord),
    Unsupported { record_type: u32 },
}

/// The contents of a [`ParsedRecord`].
#[verifier::ext_equal]
pub enum ParsedModel {
    Comm(CommModel),
    Mmap(MmapModel),
    Mmap2(Mmap2Model),
    Mmap2BuildId(Mmap2BuildIdModel),
    Fork(ForkRecord),
    Exit(ExitRecord),
    Lost(LostRecord),
    LostSamples(LostSamplesRecord),
    Throttle(ThrottleRecord),
    Unthrottle(UnthrottleRecord),
    Read(ReadModel),
    Sample(SamplePayloadModel),
    Aux(AuxModel),
    ItraceStart(ItraceStartModel),
    Switch(SwitchModel),
    SwitchCpuWide(SwitchCpuWideModel),
    Namespaces(NamespacesModel),
    Ksymbol(KsymbolModel),
    BpfEvent(BpfEventModel),
    Cgroup(CgroupModel),
    TextPoke(TextPokeModel),
    AuxOutputHwId(AuxOutputHwIdModel),
    CallchainDeferred(CallchainDeferredModel),
    Unsupported { record_type: u32 },
}

impl View for ParsedRecord {
    type V = ParsedModel;

    open spec fn view(&self) -> ParsedModel {
        match *self {
            ParsedRecord::Comm(record) => ParsedModel::Comm(record@),
            ParsedRecord::Mmap(record) => ParsedModel::Mmap(record@),
            ParsedRecord::Mmap2(record) => ParsedModel::Mmap2(record@),
            ParsedRecord::Mmap2BuildId(record) => ParsedModel::Mmap2BuildId(record@),
            ParsedRecord::Fork(record) => ParsedModel::Fork(record@),
            ParsedRecord::Exit(record) => ParsedModel::Exit(record@),
            ParsedRecord::Lost(record) => ParsedModel::Lost(record@),
            ParsedRecord::LostSamples(record) => ParsedModel::LostSamples(record@),
            ParsedRecord::Throttle(record) => ParsedModel::Throttle(record@),
            ParsedRecord::Unthrottle(record) => ParsedModel::Unthrottle(record@),
            ParsedRecord::Read(record) => ParsedModel::Read(record@),
            ParsedRecord::Sample(record) => ParsedModel::Sample(record@),
            ParsedRecord::Aux(record) => ParsedModel::Aux(record@),
            ParsedRecord::ItraceStart(record) => ParsedModel::ItraceStart(record@),
            ParsedRecord::Switch(record) => ParsedModel::Switch(record@),
            ParsedRecord::SwitchCpuWide(record) => ParsedModel::SwitchCpuWide(record@),
            ParsedRecord::Namespaces(record) => ParsedModel::Namespaces(record@),
            ParsedRecord::Ksymbol(record) => ParsedModel::Ksymbol(record@),
            ParsedRecord::BpfEvent(record) => ParsedModel::BpfEvent(record@),
            ParsedRecord::Cgroup(record) => ParsedModel::Cgroup(record@),
            ParsedRecord::TextPoke(record) => ParsedModel::TextPoke(record@),
            ParsedRecord::AuxOutputHwId(record) => ParsedModel::AuxOutputHwId(record@),
            ParsedRecord::CallchainDeferred(record) => ParsedModel::CallchainDeferred(record@),
            ParsedRecord::Unsupported { record_type } => ParsedModel::Unsupported { record_type },
        }
    }
}

/// The bytes from `start` to the end.
pub open spec fn rest(bytes: Seq<u8>, start: int) -> Seq<u8> {
    bytes.subrange(start, bytes.len() as int)
}

/// The text in front of the first zero byte, or the whole text where there is none.
pub open spec fn c_text(bytes: Seq<u8>) -> Seq<char> {
    utf8_lossy(bytes.subrange(0, first_from(bytes, 0u8, 0)))
}

/// The bytes behind the first zero byte; none where there is no zero byte.
pub open spec fn behind_c_text(bytes: Seq<u8>) -> Seq<u8> {
    let end = first_from(bytes, 0u8, 0);
    if end < bytes.len() {
        bytes.subrange(end + 1, bytes.len() as int)
    } else {
        Seq::empty()
    }
}

/// Decodes the text in front of the first zero byte.
pub fn parse_c_string(bytes: &[u8]) -> (text: String)
    ensures
        text@ == c_text(bytes@),
{
    let end: usize = find_byte(bytes, 0, 0);
    text_from_utf8_lossy(slice_subrange(bytes, 0, end))
}

/// Decodes the text in front of the first zero byte and hands out the bytes behind it.
pub fn parse_c_string_with_remainder(bytes: &[u8]) -> (parts: (String, Vec<u8>))
    ensures
        parts.0@ == c_text(bytes@),
        parts.1@ == behind_c_text(bytes@),
{
    let end: usize = find_byte(bytes, 0, 0);
    let text = text_from_utf8_lossy(slice_subrange(bytes, 0, end));
    if end < bytes.len() {
        (text, slice_to_vec(slice_subrange(bytes, end + 1, bytes.len())))
    } else {
        (text, Vec::new())
    }
}

/// The header in the first eight bytes of a record.
pub open spec fn record_header_at(bytes: Seq<u8>, offset: int) -> PerfRecordHeader {
    PerfRecordHeader {
        record_type: le_u32(bytes, offset),
        misc: le_u16(bytes, offset + 4),
        size: le_u16(bytes, offset + 6),
    }
}

/// Reads the record header at an offset whose eight bytes are present.
pub fn header_at(bytes: &[u8], offset: usize) -> (header: PerfRecordHeader)
    requires
        offset + 8 <= bytes.len(),
    ensures
        header == record_header_at(bytes@, offset as int),
{
    PerfRecordHeader {
        record_type: u32_at(bytes, offset),
        misc: u16_at(bytes, offset + 4),
        size: u16_at(bytes, offset + 6),
    }
}

/// Parses a perf record header.
///
/// # Errors
///
/// Returns an error when fewer than eight bytes are available.
pub fn parse_record_header(bytes: &[u8]) -> (result: Result<PerfRecordHeader, String>)
    ensures
        outcome(result) == if bytes@.len() < 8 {
            Err::<PerfRecordHeader, Seq<char>>("perf record header is shorter than 8 bytes"@)
        } else {
            Ok::<PerfRecordHeader, Seq<char>>(record_header_at(bytes@, 0))
        },
{
    if bytes.len() < 8 {
        return Err("perf record header is shorter than 8 bytes".to_string());
    }
    Ok(header_at(bytes, 0))
}

/// The record at `offset`, given its header.
pub open spec fn record_at(bytes: Seq<u8>, offset: int) -> RecordModel {
    let header = record_header_at(bytes, offset);
    RecordModel {
        offset,
        header,
        payload: bytes.subrange(offset + 8, offset + header.size),
    }
}

/// The records from `offset` up to `end`, one behind the other.
pub open spec fn records_from(bytes: Seq<u8>, offset: int, end: int) -> Result<
    Seq<RecordModel>,
    Seq<char>,
>
    decreases end - offset,
{
    if offset >= end {
        Ok(Seq::empty())
    } else if offset + 8 > bytes.len() {
        Err("truncated perf record header at offset "@ + decimal(offset as nat) + ""@)
    } else {
        let size = record_header_at(bytes, offset).size;
        if size < 8 {
            Err(
                "invalid perf record size "@ + decimal(size as nat) + " at offset "@ + decimal(
                    offset as nat,
                ),
            )
        } else if offset + size > usize::MAX {
            Err("perf record size overflows at offset "@ + decimal(offset as nat) + ""@)
        } else if offset + size > end {
            Err("perf record overruns data section at offset "@ + decimal(offset as nat) + ""@)
        } else {
            after(seq![record_at(bytes, offset)], records_from(bytes, offset + size, end))
        }
    }
}

/// All records of a file's data section.
pub open spec fn records_of(bytes: Seq<u8>, header: PerfHeader) -> Result<
    Seq<RecordModel>,
    Seq<char>,
> {
    if header.data_offset > usize::MAX {
        Err(does_not_fit("perf data section offset"@))
    } else if header.data_size > usize::MAX {
        Err(does_not_fit("perf data section size"@))
    } else if header.data_offset + header.data_size > usize::MAX {
        Err("perf data section size overflows usize"@)
    } else if header.data_offset + header.data_size > bytes.len() {
        Err("perf data section extends past end of file"@)
    } else {
        records_from(bytes, header.data_offset as int, header.data_offset + header.data_size)
    }
}

/// Iterates over records in the perf data section.
///
/// # Errors
///
/// Returns an error when the data section offsets are invalid or a contained
/// record is truncated.
pub fn iter_records(bytes: &[u8], header: PerfHeader) -> (result: Result<
    Vec<PerfRecord<'_>>,
    String,
>)
    ensures
        match result {
            Ok(records) => records_of(bytes@, header) == Ok::<Seq<RecordModel>, Seq<char>>(
                views(records@),
            ),
            Err(error) => records_of(bytes@, header) == Err::<Seq<RecordModel>, Seq<char>>(error@),
        },
{
    let mut records: Vec<PerfRecord<'_>> = Vec::new();
    let mut offset: usize = to_usize(header.data_offset, "perf data section offset")?;
    let data_size: usize = to_usize(header.data_size, "perf data section size")?;
    let end: usize = match offset.checked_add(data_size) {
        Some(end) => end,
        None => return Err("perf data section size overflows usize".to_string()),
    };
    if end > bytes.len() {
        return Err("perf data section extends past end of file".to_string());
    }
    proof {
        if let Ok(items) = records_from(bytes@, offset as int, end as int) {
            assert(views(records@) + items =~= items);
        }
    }
    while offset < end
        invariant
            end <= bytes.len(),
            records_of(bytes@, header) == after(
                views(records@),
                records_from(bytes@, offset as int, end as int),
            ),
        decreases end - offset,
    {
        if bytes.len() - offset < 8 {
            return Err(
                number_message("truncated perf record header at offset ", offset as u64, ""),
            );
        }
        let record_header = header_at(bytes, offset);
        let size: usize = record_header.size as usize;
        if size < 8 {
            let mut error = number_message("invalid perf record size ", size as u64, " at offset ");
            push_decimal(&mut error, offset as u128);
            return Err(error);
        }
        let next: usize = match offset.checked_add(size) {
            Some(next) => next,
            None => return Err(
                number_message("perf record size overflows at offset ", offset as u64, ""),
            ),
        };
        if next > end {
            return Err(
                number_message("perf record overruns data section at offset ", offset as u64, ""),
            );
        }
        let record = PerfRecord {
            offset,
            header: record_header,
            payload: slice_subrange(bytes, offset + 8, next),
        };
        let ghost before = views(records@);
        records.push(record);
        proof {
            assert(record@ =~= record_at(bytes@, offset as int));
            assert(views(records@) =~= before.push(record@));
            if let Ok(items) = records_from(bytes@, next as int, end as int) {
                assert(before + (seq![record@] + items) =~= views(records@) + items);
            }
        }
        offset = next;
    }
    assert(views(records@) + Seq::<RecordModel>::empty() =~= views(records@));
    Ok(records)
}

/// The records found from `offset` to `end` tile that range: the first begins where the range
/// begins, each begins where the one before it ends, the last ends where the range ends, and
/// each payload is what its record's size leaves behind the header.
pub proof fn records_tile_the_range(bytes: Seq<u8>, offset: int, end: int)
    requires
        0 <= offset <= end <= bytes.len(),
        records_from(bytes, offset, end) is Ok,
    ensures
        ({
            let records = records_from(bytes, offset, end)->Ok_0;
            &&& offset < end <==> records.len() > 0
            &&& records.len() > 0 ==> records[0].offset == offset
            &&& records.len() > 0 ==> records.last().offset + records.last().header.size == end
            &&& forall|i: int|
                0 <= i < records.len() - 1 ==> #[trigger] records[i].offset
                    + records[i].header.size == records[i + 1].offset
            &&& forall|i: int|
                0 <= i < records.len() ==> (#[trigger] records[i]).payload.len() + 8
                    == records[i].header.size && records[i].payload == bytes.subrange(
                    records[i].offset + 8,
                    records[i].offset + records[i].header.size,
                )
        }),
    decreases end - offset,
{
    if offset < end {
        let size = record_header_at(bytes, offset).size;
        let first = record_at(bytes, offset);
        records_tile_the_range(bytes, offset + size, end);
        let records = records_from(bytes, offset, end)->Ok_0;
        let tail = records_from(bytes, offset + size, end)->Ok_0;
        assert(records =~= seq![first] + tail);
        assert forall|i: int| 0 <= i < records.len() - 1 implies #[trigger] records[i].offset
            + records[i].header.size == records[i + 1].offset by {
            if i > 0 {
                assert(records[i] == tail[i - 1]);
                assert(records[i + 1] == tail[i]);
            }
        }
        assert forall|i: int| 0 <= i < records.len() implies (#[trigger] records[i]).payload.len()
            + 8 == records[i].header.size && records[i].payload == bytes.subrange(
            records[i].offset + 8,
            records[i].offset + records[i].header.size,
        ) by {
            if i > 0 {
                assert(records[i] == tail[i - 1]);
            }
        }
    }
}

/// The `PERF_RECORD_COMM` that a payload states.
pub open spec fn comm_record_of(payload: Seq<u8>) -> Result<CommModel, Seq<char>> {
    if payload.len() < 8 {
        Err("PERF_RECORD_COMM payload is shorter than 8 bytes"@)
    } else {
        Ok(CommModel { pid: le_u32(payload, 0), tid: le_u32(payload, 4), comm: c_text(rest(payload, 8)), is_exec: false })
    }
}

/// Parses a `PERF_RECORD_COMM` payload.
///
/// Whether the name comes from an `exec` is stated by the record's header, not by its payload:
/// [`parse_record`] sets that flag.
///
/// # Errors
///
/// Returns an error when the fixed pid/tid fields are missing.
pub fn parse_comm_record(payload: &[u8]) -> (result: Result<CommRecord, String>)
    ensures
        outcome(result) == comm_record_of(payload@),
{
    if payload.len() < 8 {
        return Err("PERF_RECORD_COMM payload is shorter than 8 bytes".to_string());
    }
    Ok(CommRecord { pid: u32_at(payload, 0), tid: u32_at(payload, 4), comm: parse_c_string(slice_subrange(payload, 8, payload.len())), is_exec: false })
}

/// The `PERF_RECORD_MMAP` that a payload states.
pub open spec fn mmap_record_of(payload: Seq<u8>) -> Result<MmapModel, Seq<char>> {
    if payload.len() < 32 {
        Err("PERF_RECORD_MMAP payload is shorter than 32 bytes"@)
    } else {
        Ok(MmapModel { pid: le_u32(payload, 0), tid: le_u32(payload, 4), start: le_u64(payload, 8), len: le_u64(payload, 16), pgoff: le_u64(payload, 24), path: c_text(rest(payload, 32)) })
    }
}

/// Parses a `PERF_RECORD_MMAP` payload.
///
/// # Errors
///
/// Returns an error when the fixed mapping fields are missing.
pub fn parse_mmap_record(payload: &[u8]) -> (result: Result<MmapRecord, String>)
    ensures
        outcome(result) == mmap_record_of(payload@),
{
    if payload.len() < 32 {
        return Err("PERF_RECORD_MMAP payload is shorter than 32 bytes".to_string());
    }
    Ok(MmapRecord { pid: u32_at(payload, 0), tid: u32_at(payload, 4), start: u64_at(payload, 8), len: u64_at(payload, 16), pgoff: u64_at(payload, 24), path: parse_c_string(slice_subrange(payload, 32, payload.len())) })
}

/// The `PERF_RECORD_MMAP2` that a payload states.
pub open spec fn mmap2_record_of(payload: Seq<u8>) -> Result<Mmap2Model, Seq<char>> {
    if payload.len() < 64 {
        Err("PERF_RECORD_MMAP2 payload is shorter than 64 bytes"@)
    } else {
        Ok(Mmap2Model { pid: le_u32(payload, 0), tid: le_u32(payload, 4), start: le_u64(payload, 8), len: le_u64(payload, 16), pgoff: le_u64(payload, 24), major: le_u32(payload, 32), minor: le_u32(payload, 36), inode: le_u64(payload, 40), inode_generation: le_u64(payload, 48), prot: le_u32(payload, 56), flags: le_u32(payload, 60), path: c_text(rest(payload, 64)) })
    }
}

/// Parses a `PERF_RECORD_MMAP2` payload.
///
/// # Errors
///
/// Returns an error when the fixed mapping and inode fields are missing.
pub fn parse_mmap2_record(payload: &[u8]) -> (result: Result<Mmap2Record, String>)
    ensures
        outcome(result) == mmap2_record_of(payload@),
{
    if payload.len() < 64 {
        return Err("PERF_RECORD_MMAP2 payload is shorter than 64 bytes".to_string());
    }
    Ok(Mmap2Record { pid: u32_at(payload, 0), tid: u32_at(payload, 4), start: u64_at(payload, 8), len: u64_at(payload, 16), pgoff: u64_at(payload, 24), major: u32_at(payload, 32), minor: u32_at(payload, 36), inode: u64_at(payload, 40), inode_generation: u64_at(payload, 48), prot: u32_at(payload, 56), flags: u32_at(payload, 60), path: parse_c_string(slice_subrange(payload, 64, payload.len())) })
}

/// The `PERF_RECORD_MMAP2` with a build id that a payload states.
pub open spec fn mmap2_build_id_record_of(payload: Seq<u8>) -> Result<
    Mmap2BuildIdModel,
    Seq<char>,
> {
    if payload.len() < 64 {
        Err("PERF_RECORD_MMAP2 build-id payload is shorter than 64 bytes"@)
    } else if payload[32] > 20 {
        Err(
            "PERF_RECORD_MMAP2 build-id size "@ + decimal(payload[32] as nat)
                + " exceeds 20 bytes"@,
        )
    } else {
        Ok(
            Mmap2BuildIdModel {
                pid: le_u32(payload, 0),
                tid: le_u32(payload, 4),
                start: le_u64(payload, 8),
                len: le_u64(payload, 16),
                pgoff: le_u64(payload, 24),
                build_id_size: payload[32],
                build_id: payload.subrange(36, 36 + payload[32]),
                prot: le_u32(payload, 56),
                flags: le_u32(payload, 60),
                path: c_text(rest(payload, 64)),
            },
        )
    }
}

/// Parses a `PERF_RECORD_MMAP2` payload carrying build-id data.
///
/// # Errors
///
/// Returns an error when the fixed mapping or build-id fields are missing.
pub fn parse_mmap2_build_id_record(payload: &[u8]) -> (result: Result<Mmap2BuildIdRecord, String>)
    ensures
        outcome(result) == mmap2_build_id_record_of(payload@),
{
    if payload.len() < 64 {
        return Err("PERF_RECORD_MMAP2 build-id payload is shorter than 64 bytes".to_string());
    }
    let build_id_size: u8 = payload[32];
    if build_id_size > 20 {
        return Err(
            number_message(
                "PERF_RECORD_MMAP2 build-id size ",
                build_id_size as u64,
                " exceeds 20 bytes",
            ),
        );
    }
    Ok(
        Mmap2BuildIdRecord {
            pid: u32_at(payload, 0),
            tid: u32_at(payload, 4),
            start: u64_at(payload, 8),
            len: u64_at(payload, 16),
            pgoff: u64_at(payload, 24),
            build_id_size,
            build_id: slice_to_vec(slice_subrange(payload, 36, 36 + build_id_size as usize)),
            prot: u32_at(payload, 56),
            flags: u32_at(payload, 60),
            path: parse_c_string(slice_subrange(payload, 64, payload.len())),
        },
    )
}

/// The `PERF_RECORD_FORK` that a payload states.
pub open spec fn fork_record_of(payload: Seq<u8>) -> Result<ForkRecord, Seq<char>> {
    if payload.len() < 24 {
        Err("PERF_RECORD_FORK payload is shorter than 24 bytes"@)
    } else {
        Ok(ForkRecord { pid: le_u32(payload, 0), ppid: le_u32(payload, 4), tid: le_u32(payload, 8), ptid: le_u32(payload, 12), time: le_u64(payload, 16), clone_maps: true })
    }
}

/// Parses a `PERF_RECORD_FORK` payload.
///
/// Whether the child keeps its parent's mappings is stated by the record's header, not by its
/// payload: [`parse_record`] sets that flag.
///
/// # Errors
///
/// Returns an error when the fixed process/thread fields are missing.
pub fn parse_fork_record(payload: &[u8]) -> (result: Result<ForkRecord, String>)
    ensures
        outcome(result) == fork_record_of(payload@),
{
    if payload.len() < 24 {
        return Err("PERF_RECORD_FORK payload is shorter than 24 bytes".to_string());
    }
    Ok(ForkRecord { pid: u32_at(payload, 0), ppid: u32_at(payload, 4), tid: u32_at(payload, 8), ptid: u32_at(payload, 12), time: u64_at(payload, 16), clone_maps: true })
}

/// The `PERF_RECORD_EXIT` that a payload states.
pub open spec fn exit_record_of(payload: Seq<u8>) -> Result<ExitRecord, Seq<char>> {
    if payload.len() < 24 {
        Err("PERF_RECORD_EXIT payload is shorter than 24 bytes"@)
    } else {
        Ok(ExitRecord { pid: le_u32(payload, 0), ppid: le_u32(payload, 4), tid: le_u32(payload, 8), ptid: le_u32(payload, 12), time: le_u64(payload, 16) })
    }
}

/// Parses a `PERF_RECORD_EXIT` payload.
///
/// # Errors
///
/// Returns an error when the fixed process/thread fields are missing.
pub fn parse_exit_record(payload: &[u8]) -> (result: Result<ExitRecord, String>)
    ensures
        outcome(result) == exit_record_of(payload@),
{
    if payload.len() < 24 {
        return Err("PERF_RECORD_EXIT payload is shorter than 24 bytes".to_string());
    }
    Ok(ExitRecord { pid: u32_at(payload, 0), ppid: u32_at(payload, 4), tid: u32_at(payload, 8), ptid: u32_at(payload, 12), time: u64_at(payload, 16) })
}

/// The `PERF_RECORD_LOST` that a payload states.
pub open spec fn lost_record_of(payload: Seq<u8>) -> Result<LostRecord, Seq<char>> {
    if payload.len() < 16 {
        Err("PERF_RECORD_LOST payload is shorter than 16 bytes"@)
    } else {
        Ok(LostRecord { id: le_u64(payload, 0), lost: le_u64(payload, 8) })
    }
}

/// Parses a `PERF_RECORD_LOST` payload.
///
/// # Errors
///
/// Returns an error when the fixed id/lost fields are missing.
pub fn parse_lost_record(payload: &[u8]) -> (result: Result<LostRecord, String>)
    ensures
        outcome(result) == lost_record_of(payload@),
{
    if payload.len() < 16 {
        return Err("PERF_RECORD_LOST payload is shorter than 16 bytes".to_string());
    }
    Ok(LostRecord { id: u64_at(payload, 0), lost: u64_at(payload, 8) })
}

/// The `PERF_RECORD_LOST_SAMPLES` that a payload states.
pub open spec fn lost_samples_record_of(payload: Seq<u8>) -> Result<LostSamplesRecord, Seq<char>> {
    if payload.len() < 8 {
        Err("PERF_RECORD_LOST_SAMPLES payload is shorter than 8 bytes"@)
    } else {
        Ok(LostSamplesRecord { lost: le_u64(payload, 0) })
    }
}

/// Parses a `PERF_RECORD_LOST_SAMPLES` payload.
///
/// # Errors
///
/// Returns an error when the fixed lost field is missing.
pub fn parse_lost_samples_record(payload: &[u8]) -> (result: Result<LostSamplesRecord, String>)
    ensures
        outcome(result) == lost_samples_record_of(payload@),
{
    if payload.len() < 8 {
        return Err("PERF_RECORD_LOST_SAMPLES payload is shorter than 8 bytes".to_string());
    }
    Ok(LostSamplesRecord { lost: u64_at(payload, 0) })
}

/// The `PERF_RECORD_THROTTLE` that a payload states.
pub open spec fn throttle_record_of(payload: Seq<u8>) -> Result<ThrottleRecord, Seq<char>> {
    if payload.len() < 24 {
        Err("PERF_RECORD_THROTTLE payload is shorter than 24 bytes"@)
    } else {
        Ok(ThrottleRecord { time: le_u64(payload, 0), id: le_u64(payload, 8), stream_id: le_u64(payload, 16) })
    }
}

/// Parses a `PERF_RECORD_THROTTLE` payload.
///
/// # Errors
///
/// Returns an error when the fixed `time`/`id`/`stream_id` fields are missing.
pub fn parse_throttle_record(payload: &[u8]) -> (result: Result<ThrottleRecord, String>)
    ensures
        outcome(result) == throttle_record_of(payload@),
{
    if payload.len() < 24 {
        return Err("PERF_RECORD_THROTTLE payload is shorter than 24 bytes".to_string());
    }
    Ok(ThrottleRecord { time: u64_at(payload, 0), id: u64_at(payload, 8), stream_id: u64_at(payload, 16) })
}

/// The `PERF_RECORD_UNTHROTTLE` that a payload states.
pub open spec fn unthrottle_record_of(payload: Seq<u8>) -> Result<UnthrottleRecord, Seq<char>> {
    if payload.len() < 24 {
        Err("PERF_RECORD_UNTHROTTLE payload is shorter than 24 bytes"@)
    } else {
        Ok(UnthrottleRecord { time: le_u64(payload, 0), id: le_u64(payload, 8), stream_id: le_u64(payload, 16) })
    }
}

/// Parses a `PERF_RECORD_UNTHROTTLE` payload.
///
/// # Errors
///
/// Returns an error when the fixed `time`/`id`/`stream_id` fields are missing.
pub fn parse_unthrottle_record(payload: &[u8]) -> (result: Result<UnthrottleRecord, String>)
    ensures
        outcome(result) == unthrottle_record_of(payload@),
{
    if payload.len() < 24 {
        return Err("PERF_RECORD_UNTHROTTLE payload is shorter than 24 bytes".to_string());
    }
    Ok(UnthrottleRecord { time: u64_at(payload, 0), id: u64_at(payload, 8), stream_id: u64_at(payload, 16) })
}

/// The `PERF_RECORD_READ` that a payload states.
pub open spec fn read_record_of(payload: Seq<u8>) -> Result<ReadModel, Seq<char>> {
    if payload.len() < 8 {
        Err("PERF_RECORD_READ payload is shorter than 8 bytes"@)
    } else {
        Ok(ReadModel { pid: le_u32(payload, 0), tid: le_u32(payload, 4), values: rest(payload, 8) })
    }
}

/// Parses a `PERF_RECORD_READ` payload.
///
/// The nested `read_format` bytes depend on `perf_event_attr.read_format`, so
/// this parser preserves them losslessly for an attr-aware layer to decode.
///
/// # Errors
///
/// Returns an error when the fixed `pid`/`tid` fields are missing.
pub fn parse_read_record(payload: &[u8]) -> (result: Result<ReadRecord, String>)
    ensures
        outcome(result) == read_record_of(payload@),
{
    if payload.len() < 8 {
        return Err("PERF_RECORD_READ payload is shorter than 8 bytes".to_string());
    }
    Ok(ReadRecord { pid: u32_at(payload, 0), tid: u32_at(payload, 4), values: slice_to_vec(slice_subrange(payload, 8, payload.len())) })
}

/// The `PERF_RECORD_SAMPLE` that a payload states.
pub open spec fn sample_payload_record_of(payload: Seq<u8>) -> Result<SamplePayloadModel, Seq<char>> {
    Ok(SamplePayloadModel { misc: 0u16, payload: payload })
}

/// Parses a `PERF_RECORD_SAMPLE` payload losslessly.
///
/// Field interpretation depends on `perf_event_attr.sample_type`; callers that
/// have attr context should use the sample module to decode the payload. The header's flags
/// are filled in by [`parse_record`].
///
/// # Errors
///
/// This parser currently has no fixed fields to reject.
pub fn parse_sample_payload_record(payload: &[u8]) -> (result: Result<SamplePayloadRecord, String>)
    ensures
        outcome(result) == sample_payload_record_of(payload@),
{
    Ok(SamplePayloadRecord { misc: 0, payload: slice_to_vec(payload) })
}

/// The `PERF_RECORD_AUX` that a payload states.
pub open spec fn aux_record_of(payload: Seq<u8>) -> Result<AuxModel, Seq<char>> {
    if payload.len() < 24 {
        Err("PERF_RECORD_AUX payload is shorter than 24 bytes"@)
    } else {
        Ok(AuxModel { aux_offset: le_u64(payload, 0), aux_size: le_u64(payload, 8), flags: le_u64(payload, 16), sample_id: rest(payload, 24) })
    }
}

/// Parses a `PERF_RECORD_AUX` payload.
///
/// # Errors
///
/// Returns an error when the fixed aux fields are missing.
pub fn parse_aux_record(payload: &[u8]) -> (result: Result<AuxRecord, String>)
    ensures
        outcome(result) == aux_record_of(payload@),
{
    if payload.len() < 24 {
        return Err("PERF_RECORD_AUX payload is shorter than 24 bytes".to_string());
    }
    Ok(AuxRecord { aux_offset: u64_at(payload, 0), aux_size: u64_at(payload, 8), flags: u64_at(payload, 16), sample_id: slice_to_vec(slice_subrange(payload, 24, payload.len())) })
}

/// The `PERF_RECORD_ITRACE_START` that a payload states.
pub open spec fn itrace_start_record_of(payload: Seq<u8>) -> Result<ItraceStartModel, Seq<char>> {
    if payload.len() < 8 {
        Err("PERF_RECORD_ITRACE_START payload is shorter than 8 bytes"@)
    } else {
        Ok(ItraceStartModel { pid: le_u32(payload, 0), tid: le_u32(payload, 4), sample_id: rest(payload, 8) })
    }
}

/// Parses a `PERF_RECORD_ITRACE_START` payload.
///
/// # Errors
///
/// Returns an error when the fixed pid/tid fields are missing.
pub fn parse_itrace_start_record(payload: &[u8]) -> (result: Result<ItraceStartRecord, String>)
    ensures
        outcome(result) == itrace_start_record_of(payload@),
{
    if payload.len() < 8 {
        return Err("PERF_RECORD_ITRACE_START payload is shorter than 8 bytes".to_string());
    }
    Ok(ItraceStartRecord { pid: u32_at(payload, 0), tid: u32_at(payload, 4), sample_id: slice_to_vec(slice_subrange(payload, 8, payload.len())) })
}

/// The `PERF_RECORD_SWITCH` that a payload states.
pub open spec fn switch_record_of(payload: Seq<u8>) -> Result<SwitchModel, Seq<char>> {
    Ok(SwitchModel { sample_id: payload })
}

/// Parses a `PERF_RECORD_SWITCH` payload.
///
/// The payload is only the attr-dependent trailing `sample_id` block.
///
/// # Errors
///
/// This parser currently has no malformed fixed fields to reject.
pub fn parse_switch_record(payload: &[u8]) -> (result: Result<SwitchRecord, String>)
    ensures
        outcome(result) == switch_record_of(payload@),
{
    Ok(SwitchRecord { sample_id: slice_to_vec(payload) })
}

/// The `PERF_RECORD_SWITCH_CPU_WIDE` that a payload states.
pub open spec fn switch_cpu_wide_record_of(payload: Seq<u8>) -> Result<SwitchCpuWideModel, Seq<char>> {
    if payload.len() < 8 {
        Err("PERF_RECORD_SWITCH_CPU_WIDE payload is shorter than 8 bytes"@)
    } else {
        Ok(SwitchCpuWideModel { next_prev_pid: le_u32(payload, 0), next_prev_tid: le_u32(payload, 4), sample_id: rest(payload, 8) })
    }
}

/// Parses a `PERF_RECORD_SWITCH_CPU_WIDE` payload.
///
/// # Errors
///
/// Returns an error when the fixed pid/tid fields are missing.
pub fn parse_switch_cpu_wide_record(payload: &[u8]) -> (result: Result<SwitchCpuWideRecord, String>)
    ensures
        outcome(result) == switch_cpu_wide_record_of(payload@),
{
    if payload.len() < 8 {
        return Err("PERF_RECORD_SWITCH_CPU_WIDE payload is shorter than 8 bytes".to_string());
    }
    Ok(SwitchCpuWideRecord { next_prev_pid: u32_at(payload, 0), next_prev_tid: u32_at(payload, 4), sample_id: slice_to_vec(slice_subrange(payload, 8, payload.len())) })
}

/// The `count` namespace links that begin at byte 16.
pub open spec fn namespace_links(payload: Seq<u8>, count: int) -> Seq<NamespaceLink> {
    Seq::new(
        count as nat,
        |i: int|
            NamespaceLink {
                dev: le_u64(payload, 16 + 16 * i),
                inode: le_u64(payload, 16 + 16 * i + 8),
            },
    )
}

/// The `PERF_RECORD_NAMESPACES` that a payload states.
pub open spec fn namespaces_record_of(payload: Seq<u8>) -> Result<NamespacesModel, Seq<char>> {
    if payload.len() < 16 {
        Err("PERF_RECORD_NAMESPACES payload is shorter than 16 bytes"@)
    } else {
        let count = le_u64(payload, 8);
        if count > usize::MAX {
            Err(does_not_fit("PERF_RECORD_NAMESPACES nr"@))
        } else if count * 16 > usize::MAX {
            Err("PERF_RECORD_NAMESPACES entries length overflows usize"@)
        } else if 16 + count * 16 > usize::MAX {
            Err("PERF_RECORD_NAMESPACES payload length overflows usize"@)
        } else if payload.len() < 16 + count * 16 {
            Err(
                "PERF_RECORD_NAMESPACES payload is shorter than declared "@ + decimal(
                    count as nat,
                ) + " namespaces"@,
            )
        } else {
            Ok(
                NamespacesModel {
                    pid: le_u32(payload, 0),
                    tid: le_u32(payload, 4),
                    namespaces: namespace_links(payload, count as int),
                    sample_id: rest(payload, 16 + count * 16),
                },
            )
        }
    }
}

/// Parses a `PERF_RECORD_NAMESPACES` payload.
///
/// # Errors
///
/// Returns an error when the fixed fields or declared namespace entries are missing.
pub fn parse_namespaces_record(payload: &[u8]) -> (result: Result<NamespacesRecord, String>)
    ensures
        outcome(result) == namespaces_record_of(payload@),
{
    if payload.len() < 16 {
        return Err("PERF_RECORD_NAMESPACES payload is shorter than 16 bytes".to_string());
    }
    let count: usize = to_usize(u64_at(payload, 8), "PERF_RECORD_NAMESPACES nr")?;
    let entries_len: usize = match count.checked_mul(16) {
        Some(len) => len,
        None => return Err("PERF_RECORD_NAMESPACES entries length overflows usize".to_string()),
    };
    let sample_offset: usize = match 16usize.checked_add(entries_len) {
        Some(offset) => offset,
        None => return Err("PERF_RECORD_NAMESPACES payload length overflows usize".to_string()),
    };
    if payload.len() < sample_offset {
        return Err(
            number_message(
                "PERF_RECORD_NAMESPACES payload is shorter than declared ",
                count as u64,
                " namespaces",
            ),
        );
    }
    let mut namespaces: Vec<NamespaceLink> = Vec::with_capacity(count);
    let mut index: usize = 0;
    while index < count
        invariant
            index <= count,
            16 + 16 * count <= payload.len(),
            namespaces@ == namespace_links(payload@, index as int),
        decreases count - index,
    {
        let offset: usize = 16 + 16 * index;
        namespaces.push(
            NamespaceLink { dev: u64_at(payload, offset), inode: u64_at(payload, offset + 8) },
        );
        index += 1;
        assert(namespaces@ =~= namespace_links(payload@, index as int));
    }
    Ok(
        NamespacesRecord {
            pid: u32_at(payload, 0),
            tid: u32_at(payload, 4),
            namespaces,
            sample_id: slice_to_vec(slice_subrange(payload, sample_offset, payload.len())),
        },
    )
}

/// The `PERF_RECORD_KSYMBOL` that a payload states.
pub open spec fn ksymbol_record_of(payload: Seq<u8>) -> Result<KsymbolModel, Seq<char>> {
    if payload.len() < 16 {
        Err("PERF_RECORD_KSYMBOL payload is shorter than 16 bytes"@)
    } else {
        Ok(KsymbolModel { addr: le_u64(payload, 0), len: le_u32(payload, 8), ksym_type: le_u16(payload, 12), flags: le_u16(payload, 14), name: c_text(rest(payload, 16)), sample_id: behind_c_text(rest(payload, 16)) })
    }
}

/// Parses a `PERF_RECORD_KSYMBOL` payload.
///
/// # Errors
///
/// Returns an error when the fixed ksymbol fields are missing.
pub fn parse_ksymbol_record(payload: &[u8]) -> (result: Result<KsymbolRecord, String>)
    ensures
        outcome(result) == ksymbol_record_of(payload@),
{
    if payload.len() < 16 {
        return Err("PERF_RECORD_KSYMBOL payload is shorter than 16 bytes".to_string());
    }
    let (name, sample_id) = parse_c_string_with_remainder(
        slice_subrange(payload, 16, payload.len()),
    );
    Ok(KsymbolRecord { addr: u64_at(payload, 0), len: u32_at(payload, 8), ksym_type: u16_at(payload, 12), flags: u16_at(payload, 14), name, sample_id })
}

/// The `PERF_RECORD_BPF_EVENT` that a payload states.
pub open spec fn bpf_event_record_of(payload: Seq<u8>) -> Result<BpfEventModel, Seq<char>> {
    if payload.len() < 16 {
        Err("PERF_RECORD_BPF_EVENT payload is shorter than 16 bytes"@)
    } else {
        Ok(BpfEventModel { event_type: le_u16(payload, 0), flags: le_u16(payload, 2), id: le_u32(payload, 4), tag: payload.subrange(8, 16), sample_id: rest(payload, 16) })
    }
}

/// Parses a `PERF_RECORD_BPF_EVENT` payload.
///
/// # Errors
///
/// Returns an error when the fixed BPF event fields are missing.
pub fn parse_bpf_event_record(payload: &[u8]) -> (result: Result<BpfEventRecord, String>)
    ensures
        outcome(result) == bpf_event_record_of(payload@),
{
    if payload.len() < 16 {
        return Err("PERF_RECORD_BPF_EVENT payload is shorter than 16 bytes".to_string());
    }
    let tag: [u8; BPF_TAG_SIZE] = [
        payload[8],
        payload[9],
        payload[10],
        payload[11],
        payload[12],
        payload[13],
        payload[14],
        payload[15],
    ];
    assert(tag@ =~= payload@.subrange(8, 16));
    Ok(BpfEventRecord { event_type: u16_at(payload, 0), flags: u16_at(payload, 2), id: u32_at(payload, 4), tag, sample_id: slice_to_vec(slice_subrange(payload, 16, payload.len())) })
}

/// The `PERF_RECORD_CGROUP` that a payload states.
pub open spec fn cgroup_record_of(payload: Seq<u8>) -> Result<CgroupModel, Seq<char>> {
    if payload.len() < 8 {
        Err("PERF_RECORD_CGROUP payload is shorter than 8 bytes"@)
    } else {
        Ok(CgroupModel { id: le_u64(payload, 0), path: c_text(rest(payload, 8)), sample_id: behind_c_text(rest(payload, 8)) })
    }
}

/// Parses a `PERF_RECORD_CGROUP` payload.
///
/// # Errors
///
/// Returns an error when the fixed cgroup id field is missing.
pub fn parse_cgroup_record(payload: &[u8]) -> (result: Result<CgroupRecord, String>)
    ensures
        outcome(result) == cgroup_record_of(payload@),
{
    if payload.len() < 8 {
        return Err("PERF_RECORD_CGROUP payload is shorter than 8 bytes".to_string());
    }
    let (path, sample_id) = parse_c_string_with_remainder(
        slice_subrange(payload, 8, payload.len()),
    );
    Ok(CgroupRecord { id: u64_at(payload, 0), path, sample_id })
}

/// The `PERF_RECORD_TEXT_POKE` that a payload states.
pub open spec fn text_poke_record_of(payload: Seq<u8>) -> Result<TextPokeModel, Seq<char>> {
    if payload.len() < 12 {
        Err("PERF_RECORD_TEXT_POKE payload is shorter than 12 bytes"@)
    } else {
        let end = 12 + le_u16(payload, 8) + le_u16(payload, 10);
        if payload.len() < end {
            Err("PERF_RECORD_TEXT_POKE payload is shorter than declared bytes"@)
        } else {
            Ok(
                TextPokeModel {
                    addr: le_u64(payload, 0),
                    old_len: le_u16(payload, 8),
                    new_len: le_u16(payload, 10),
                    bytes: payload.subrange(12, end),
                    sample_id: rest(payload, end),
                },
            )
        }
    }
}

/// Parses a `PERF_RECORD_TEXT_POKE` payload.
///
/// # Errors
///
/// Returns an error when the fixed text poke fields or declared bytes are missing.
pub fn parse_text_poke_record(payload: &[u8]) -> (result: Result<TextPokeRecord, String>)
    ensures
        outcome(result) == text_poke_record_of(payload@),
{
    if payload.len() < 12 {
        return Err("PERF_RECORD_TEXT_POKE payload is shorter than 12 bytes".to_string());
    }
    let old_len: u16 = u16_at(payload, 8);
    let new_len: u16 = u16_at(payload, 10);
    let sample_offset: usize = 12 + old_len as usize + new_len as usize;
    if payload.len() < sample_offset {
        return Err("PERF_RECORD_TEXT_POKE payload is shorter than declared bytes".to_string());
    }
    Ok(
        TextPokeRecord {
            addr: u64_at(payload, 0),
            old_len,
            new_len,
            bytes: slice_to_vec(slice_subrange(payload, 12, sample_offset)),
            sample_id: slice_to_vec(slice_subrange(payload, sample_offset, payload.len())),
        },
    )
}

/// The `PERF_RECORD_AUX_OUTPUT_HW_ID` that a payload states.
pub open spec fn aux_output_hw_id_record_of(payload: Seq<u8>) -> Result<AuxOutputHwIdModel, Seq<char>> {
    if payload.len() < 8 {
        Err("PERF_RECORD_AUX_OUTPUT_HW_ID payload is shorter than 8 bytes"@)
    } else {
        Ok(AuxOutputHwIdModel { hw_id: le_u64(payload, 0), sample_id: rest(payload, 8) })
    }
}

/// Parses a `PERF_RECORD_AUX_OUTPUT_HW_ID` payload.
///
/// # Errors
///
/// Returns an error when the fixed hardware id field is missing.
pub fn parse_aux_output_hw_id_record(payload: &[u8]) -> (result: Result<AuxOutputHwIdRecord, String>)
    ensures
        outcome(result) == aux_output_hw_id_record_of(payload@),
{
    if payload.len() < 8 {
        return Err("PERF_RECORD_AUX_OUTPUT_HW_ID payload is shorter than 8 bytes".to_string());
    }
    Ok(AuxOutputHwIdRecord { hw_id: u64_at(payload, 0), sample_id: slice_to_vec(slice_subrange(payload, 8, payload.len())) })
}

/// The `count` instruction pointers that begin at byte 16.
pub open spec fn deferred_ips(payload: Seq<u8>, count: int) -> Seq<u64> {
    Seq::new(count as nat, |i: int| le_u64(payload, 16 + 8 * i))
}

/// The `PERF_RECORD_CALLCHAIN_DEFERRED` that a payload states.
pub open spec fn callchain_deferred_record_of(payload: Seq<u8>) -> Result<
    CallchainDeferredModel,
    Seq<char>,
> {
    if payload.len() < 16 {
        Err("PERF_RECORD_CALLCHAIN_DEFERRED payload is shorter than 16 bytes"@)
    } else {
        let count = le_u64(payload, 8);
        if count > usize::MAX {
            Err(does_not_fit("PERF_RECORD_CALLCHAIN_DEFERRED nr"@))
        } else if count * 8 > usize::MAX {
            Err("PERF_RECORD_CALLCHAIN_DEFERRED instruction pointer length overflows usize"@)
        } else if 16 + count * 8 > usize::MAX {
            Err("PERF_RECORD_CALLCHAIN_DEFERRED payload length overflows usize"@)
        } else if payload.len() < 16 + count * 8 {
            Err("PERF_RECORD_CALLCHAIN_DEFERRED payload is shorter than declared ips"@)
        } else {
            Ok(
                CallchainDeferredModel {
                    cookie: le_u64(payload, 0),
                    ips: deferred_ips(payload, count as int),
                    sample_id: rest(payload, 16 + count * 8),
                },
            )
        }
    }
}

/// Parses a `PERF_RECORD_CALLCHAIN_DEFERRED` payload.
///
/// # Errors
///
/// Returns an error when the fixed fields or declared instruction pointers are missing.
pub fn parse_callchain_deferred_record(payload: &[u8]) -> (result: Result<
    CallchainDeferredRecord,
    String,
>)
    ensures
        outcome(result) == callchain_deferred_record_of(payload@),
{
    if payload.len() < 16 {
        return Err("PERF_RECORD_CALLCHAIN_DEFERRED payload is shorter than 16 bytes".to_string());
    }
    let count: usize = to_usize(u64_at(payload, 8), "PERF_RECORD_CALLCHAIN_DEFERRED nr")?;
    let ips_len: usize = match count.checked_mul(8) {
        Some(len) => len,
        None => return Err(
            "PERF_RECORD_CALLCHAIN_DEFERRED instruction pointer length overflows usize".to_string(),
        ),
    };
    let sample_offset: usize = match 16usize.checked_add(ips_len) {
        Some(offset) => offset,
        None => return Err(
            "PERF_RECORD_CALLCHAIN_DEFERRED payload length overflows usize".to_string(),
        ),
    };
    if payload.len() < sample_offset {
        return Err(
            "PERF_RECORD_CALLCHAIN_DEFERRED payload is shorter than declared ips".to_string(),
        );
    }
    let mut ips: Vec<u64> = Vec::with_capacity(count);
    let mut index: usize = 0;
    while index < count
        invariant
            index <= count,
            16 + 8 * count <= payload.len(),
            ips@ == deferred_ips(payload@, index as int),
        decreases count - index,
    {
        ips.push(u64_at(payload, 16 + 8 * index));
        index += 1;
        assert(ips@ =~= deferred_ips(payload@, index as int));
    }
    Ok(
        CallchainDeferredRecord {
            cookie: u64_at(payload, 0),
            ips,
            sample_id: slice_to_vec(slice_subrange(payload, sample_offset, payload.len())),
        },
    )
}

/// The typed record that a header and a payload state. The header's flags say whether a mapping
/// carries a build id, whether a name comes from an `exec`, and whether a child keeps mappings.
pub open spec fn parsed_record_of(header: PerfRecordHeader, payload: Seq<u8>) -> Result<
    ParsedModel,
    Seq<char>,
> {
    let kind = header.record_type;
    if kind == PERF_RECORD_MMAP {
        match mmap_record_of(payload) {
            Ok(record) => Ok(ParsedModel::Mmap(record)),
            Err(error) => Err(error),
        }
    } else if kind == PERF_RECORD_LOST {
        match lost_record_of(payload) {
            Ok(record) => Ok(ParsedModel::Lost(record)),
            Err(error) => Err(error),
        }
    } else if kind == PERF_RECORD_COMM {
        match comm_record_of(payload) {
            Ok(record) => Ok(ParsedModel::Comm(CommModel { is_exec: header.misc & PERF_RECORD_MISC_COMM_EXEC != 0, ..record })),
            Err(error) => Err(error),
        }
    } else if kind == PERF_RECORD_THROTTLE {
        match throttle_record_of(payload) {
            Ok(record) => Ok(ParsedModel::Throttle(record)),
            Err(error) => Err(error),
        }
    } else if kind == PERF_RECORD_UNTHROTTLE {
        match unthrottle_record_of(payload) {
            Ok(record) => Ok(ParsedModel::Unthrottle(record)),
            Err(error) => Err(error),
        }
    } else if kind == PERF_RECORD_MMAP2 && header.misc & PERF_RECORD_MISC_MMAP_BUILD_ID != 0 {
        match mmap2_build_id_record_of(payload) {
            Ok(record) => Ok(ParsedModel::Mmap2BuildId(record)),
            Err(error) => Err(error),
        }
    } else if kind == PERF_RECORD_MMAP2 {
        match mmap2_record_of(payload) {
            Ok(record) => Ok(ParsedModel::Mmap2(record)),
            Err(error) => Err(error),
        }
    } else if kind == PERF_RECORD_LOST_SAMPLES {
        match lost_samples_record_of(payload) {
            Ok(record) => Ok(ParsedModel::LostSamples(record)),
            Err(error) => Err(error),
        }
    } else if kind == PERF_RECORD_EXIT {
        match exit_record_of(payload) {
            Ok(record) => Ok(ParsedModel::Exit(record)),
            Err(error) => Err(error),
        }
    } else if kind == PERF_RECORD_FORK {
        match fork_record_of(payload) {
            Ok(record) => Ok(ParsedModel::Fork(ForkRecord { clone_maps: header.misc & PERF_RECORD_MISC_FORK_EXEC == 0, ..record })),
            Err(error) => Err(error),
        }
    } else if kind == PERF_RECORD_READ {
        match read_record_of(payload) {
            Ok(record) => Ok(ParsedModel::Read(record)),
            Err(error) => Err(error),
        }
    } else if kind == PERF_RECORD_SAMPLE {
        match sample_payload_record_of(payload) {
            Ok(record) => Ok(ParsedModel::Sample(SamplePayloadModel { misc: header.misc, ..record })),
            Err(error) => Err(error),
        }
    } else if kind == PERF_RECORD_AUX {
        match aux_record_of(payload) {
            Ok(record) => Ok(ParsedModel::Aux(record)),
            Err(error) => Err(error),
        }
    } else if kind == PERF_RECORD_ITRACE_START {
        match itrace_start_record_of(payload) {
            Ok(record) => Ok(ParsedModel::ItraceStart(record)),
            Err(error) => Err(error),
        }
    } else if kind == PERF_RECORD_SWITCH {
        match switch_record_of(payload) {
            Ok(record) => Ok(ParsedModel::Switch(record)),
            Err(error) => Err(error),
        }
    } else if kind == PERF_RECORD_SWITCH_CPU_WIDE {
        match switch_cpu_wide_record_of(payload) {
            Ok(record) => Ok(ParsedModel::SwitchCpuWide(record)),
            Err(error) => Err(error),
        }
    } else if kind == PERF_RECORD_NAMESPACES {
        match namespaces_record_of(payload) {
            Ok(record) => Ok(ParsedModel::Namespaces(record)),
            Err(error) => Err(error),
        }
    } else if kind == PERF_RECORD_KSYMBOL {
        match ksymbol_record_of(payload) {
            Ok(record) => Ok(ParsedModel::Ksymbol(record)),
            Err(error) => Err(error),
        }
    } else if kind == PERF_RECORD_BPF_EVENT {
        match bpf_event_record_of(payload) {
            Ok(record) => Ok(ParsedModel::BpfEvent(record)),
            Err(error) => Err(error),
        }
    } else if kind == PERF_RECORD_CGROUP {
        match cgroup_record_of(payload) {
            Ok(record) => Ok(ParsedModel::Cgroup(record)),
            Err(error) => Err(error),
        }
    } else if kind == PERF_RECORD_TEXT_POKE {
        match text_poke_record_of(payload) {
            Ok(record) => Ok(ParsedModel::TextPoke(record)),
            Err(error) => Err(error),
        }
    } else if kind == PERF_RECORD_AUX_OUTPUT_HW_ID {
        match aux_output_hw_id_record_of(payload) {
            Ok(record) => Ok(ParsedModel::AuxOutputHwId(record)),
            Err(error) => Err(error),
        }
    } else if kind == PERF_RECORD_CALLCHAIN_DEFERRED {
        match callchain_deferred_record_of(payload) {
            Ok(record) => Ok(ParsedModel::CallchainDeferred(record)),
            Err(error) => Err(error),
        }
    } else {
        Ok(ParsedModel::Unsupported { record_type: kind })
    }
}

fn has_misc_flag(misc: u16, flag: u16) -> (set: bool)
    ensures
        set == (misc & flag != 0),
{
    misc & flag != 0
}

/// Parses a perf record into a typed payload when Pyroclast supports it.
///
/// # Errors
///
/// Returns an error when a supported record payload is malformed.
pub fn parse_record(record: PerfRecord<'_>) -> (result: Result<ParsedRecord, String>)
    ensures
        outcome(result) == parsed_record_of(record.header, record.payload@),
{
    let kind: u32 = record.header.record_type;
    let misc: u16 = record.header.misc;
    let payload = record.payload;
    if kind == PERF_RECORD_MMAP {
        let record = parse_mmap_record(payload)?;
        Ok(ParsedRecord::Mmap(record))
    } else if kind == PERF_RECORD_LOST {
        let record = parse_lost_record(payload)?;
        Ok(ParsedRecord::Lost(record))
    } else if kind == PERF_RECORD_COMM {
        let record = parse_comm_record(payload)?;
        Ok(ParsedRecord::Comm(CommRecord { is_exec: has_misc_flag(misc, PERF_RECORD_MISC_COMM_EXEC), ..record }))
    } else if kind == PERF_RECORD_THROTTLE {
        let record = parse_throttle_record(payload)?;
        Ok(ParsedRecord::Throttle(record))
    } else if kind == PERF_RECORD_UNTHROTTLE {
        let record = parse_unthrottle_record(payload)?;
        Ok(ParsedRecord::Unthrottle(record))
    } else if kind == PERF_RECORD_MMAP2 && has_misc_flag(misc, PERF_RECORD_MISC_MMAP_BUILD_ID) {
        let record = parse_mmap2_build_id_record(payload)?;
        Ok(ParsedRecord::Mmap2BuildId(record))
    } else if kind == PERF_RECORD_MMAP2 {
        let record = parse_mmap2_record(payload)?;
        Ok(ParsedRecord::Mmap2(record))
    } else if kind == PERF_RECORD_LOST_SAMPLES {
        let record = parse_lost_samples_record(payload)?;
        Ok(ParsedRecord::LostSamples(record))
    } else if kind == PERF_RECORD_EXIT {
        let record = parse_exit_record(payload)?;
        Ok(ParsedRecord::Exit(record))
    } else if kind == PERF_RECORD_FORK {
        let record = parse_fork_record(payload)?;
        Ok(ParsedRecord::Fork(ForkRecord { clone_maps: !has_misc_flag(misc, PERF_RECORD_MISC_FORK_EXEC), ..record }))
    } else if kind == PERF_RECORD_READ {
        let record = parse_read_record(payload)?;
        Ok(ParsedRecord::Read(record))
    } else if kind == PERF_RECORD_SAMPLE {
        let record = parse_sample_payload_record(payload)?;
        Ok(ParsedRecord::Sample(SamplePayloadRecord { misc, ..record }))
    } else if kind == PERF_RECORD_AUX {
        let record = parse_aux_record(payload)?;
        Ok(ParsedRecord::Aux(record))
    } else if kind == PERF_RECORD_ITRACE_START {
        let record = parse_itrace_start_record(payload)?;
        Ok(ParsedRecord::ItraceStart(record))
    } else if kind == PERF_RECORD_SWITCH {
        let record = parse_switch_record(payload)?;
        Ok(ParsedRecord::Switch(record))
    } else if kind == PERF_RECORD_SWITCH_CPU_WIDE {
        let record = parse_switch_cpu_wide_record(payload)?;
        Ok(ParsedRecord::SwitchCpuWide(record))
    } else if kind == PERF_RECORD_NAMESPACES {
        let record = parse_namespaces_record(payload)?;
        Ok(ParsedRecord::Namespaces(record))
    } else if kind == PERF_RECORD_KSYMBOL {
        let record = parse_ksymbol_record(payload)?;
        Ok(ParsedRecord::Ksymbol(record))
    } else if kind == PERF_RECORD_BPF_EVENT {
        let record = parse_bpf_event_record(payload)?;
        Ok(ParsedRecord::BpfEvent(record))
    } else if kind == PERF_RECORD_CGROUP {
        let record = parse_cgroup_record(payload)?;
        Ok(ParsedRecord::Cgroup(record))
    } else if kind == PERF_RECORD_TEXT_POKE {
        let record = parse_text_poke_record(payload)?;
        Ok(ParsedRecord::TextPoke(record))
    } else if kind == PERF_RECORD_AUX_OUTPUT_HW_ID {
        let record = parse_aux_output_hw_id_record(payload)?;
        Ok(ParsedRecord::AuxOutputHwId(record))
    } else if kind == PERF_RECORD_CALLCHAIN_DEFERRED {
        let record = parse_callchain_deferred_record(payload)?;
        Ok(ParsedRecord::CallchainDeferred(record))
    } else {
        Ok(ParsedRecord::Unsupported { record_type: kind })
    }
}

// ---------------------------------------------------------------------------
// Laws
// ---------------------------------------------------------------------------

/// A text ends at its first zero byte, and what stands behind that byte does not belong to it.
pub proof fn texts_end_at_zero(name: Seq<u8>, rest_of: Seq<u8>)
    requires
        forall|i: int| 0 <= i < name.len() ==> #[trigger] name[i] != 0,
    ensures
        c_text(name + seq![0u8] + rest_of) == utf8_lossy(name),
        behind_c_text(name + seq![0u8] + rest_of) == rest_of,
        c_text(name) == utf8_lossy(name),
        behind_c_text(name).len() == 0,
{
    let bytes = name + seq![0u8] + rest_of;
    zero_is_found(bytes, 0, name.len() as int);
    zero_is_found(name, 0, name.len() as int);
    assert(bytes.subrange(0, name.len() as int) =~= name);
    assert(name.subrange(0, name.len() as int) =~= name);
    assert(bytes.subrange(name.len() as int + 1, bytes.len() as int) =~= rest_of);
}

proof fn zero_is_found(bytes: Seq<u8>, from: int, at: int)
    requires
        0 <= from <= at <= bytes.len(),
        forall|i: int| from <= i < at ==> #[trigger] bytes[i] != 0,
        at < bytes.len() ==> bytes[at] == 0,
    ensures
        first_from(bytes, 0u8, from) == at,
    decreases at - from,
{
    if from < at {
        zero_is_found(bytes, from + 1, at);
    }
}

/// A record of a name is read as it was written; it is one of an `exec` where its flags say so.
pub proof fn written_names_are_read(
    header: PerfRecordHeader,
    record: CommModel,
    name: Seq<u8>,
    rest_of: Seq<u8>,
)
    requires
        header.record_type == 3,
        record.is_exec == (header.misc & 0x2000 != 0),
        forall|i: int| 0 <= i < name.len() ==> #[trigger] name[i] != 0,
        record.comm == utf8_lossy(name),
    ensures
        parsed_record_of(
            header,
            four_bytes(record.pid) + four_bytes(record.tid) + name + seq![0u8] + rest_of,
        ) == Ok::<ParsedModel, Seq<char>>(ParsedModel::Comm(record)),
{
    let payload = four_bytes(record.pid) + four_bytes(record.tid) + name + seq![0u8] + rest_of;
    assert(payload.subrange(0, 4) =~= four_bytes(record.pid));
    written_numbers_are_read(payload, 0, record.pid, 0);
    assert(payload.subrange(4, 8) =~= four_bytes(record.tid));
    written_numbers_are_read(payload, 4, record.tid, 0);
    assert(rest(payload, 8) =~= name + seq![0u8] + rest_of);
    texts_end_at_zero(name, rest_of);
}

/// A record of a mapping is read as it was written.
pub proof fn written_mappings_are_read(
    header: PerfRecordHeader,
    record: MmapModel,
    name: Seq<u8>,
    rest_of: Seq<u8>,
)
    requires
        header.record_type == 1,
        forall|i: int| 0 <= i < name.len() ==> #[trigger] name[i] != 0,
        record.path == utf8_lossy(name),
    ensures
        parsed_record_of(
            header,
            four_bytes(record.pid) + four_bytes(record.tid) + eight_bytes(record.start)
                + eight_bytes(record.len) + eight_bytes(record.pgoff) + name + seq![0u8] + rest_of,
        ) == Ok::<ParsedModel, Seq<char>>(ParsedModel::Mmap(record)),
{
    let payload = four_bytes(record.pid) + four_bytes(record.tid) + eight_bytes(record.start)
        + eight_bytes(record.len) + eight_bytes(record.pgoff) + name + seq![0u8] + rest_of;
    assert(payload.subrange(0, 4) =~= four_bytes(record.pid));
    written_numbers_are_read(payload, 0, record.pid, 0);
    assert(payload.subrange(4, 8) =~= four_bytes(record.tid));
    written_numbers_are_read(payload, 4, record.tid, 0);
    assert(payload.subrange(8, 16) =~= eight_bytes(record.start));
    written_numbers_are_read(payload, 8, 0, record.start);
    assert(payload.subrange(16, 24) =~= eight_bytes(record.len));
    written_numbers_are_read(payload, 16, 0, record.len);
    assert(payload.subrange(24, 32) =~= eight_bytes(record.pgoff));
    written_numbers_are_read(payload, 24, 0, record.pgoff);
    assert(rest(payload, 32) =~= name + seq![0u8] + rest_of);
    texts_end_at_zero(name, rest_of);
}

/// A record of a mapping of a file by its device and inode is read as it was written.
#[verifier::rlimit(60)]
pub proof fn written_file_mappings_are_read(
    header: PerfRecordHeader,
    record: Mmap2Model,
    name: Seq<u8>,
    rest_of: Seq<u8>,
)
    requires
        header.record_type == 10,
        header.misc & 0x4000 == 0,
        forall|i: int| 0 <= i < name.len() ==> #[trigger] name[i] != 0,
        record.path == utf8_lossy(name),
    ensures
        parsed_record_of(
            header,
            four_bytes(record.pid) + four_bytes(record.tid) + eight_bytes(record.start)
                + eight_bytes(record.len) + eight_bytes(record.pgoff) + four_bytes(record.major)
                + four_bytes(record.minor) + eight_bytes(record.inode)
                + eight_bytes(record.inode_generation) + four_bytes(record.prot)
                + four_bytes(record.flags) + name + seq![0u8] + rest_of,
        ) == Ok::<ParsedModel, Seq<char>>(ParsedModel::Mmap2(record)),
{
    let payload = four_bytes(record.pid) + four_bytes(record.tid) + eight_bytes(record.start)
        + eight_bytes(record.len) + eight_bytes(record.pgoff) + four_bytes(record.major)
        + four_bytes(record.minor) + eight_bytes(record.inode)
        + eight_bytes(record.inode_generation) + four_bytes(record.prot) + four_bytes(record.flags)
        + name + seq![0u8] + rest_of;
    assert(le_u32(payload, 0) == record.pid) by {
        assert(payload.subrange(0, 4) =~= four_bytes(record.pid));
        written_numbers_are_read(payload, 0, record.pid, 0);
    }
    assert(le_u32(payload, 4) == record.tid) by {
        assert(payload.subrange(4, 8) =~= four_bytes(record.tid));
        written_numbers_are_read(payload, 4, record.tid, 0);
    }
    assert(le_u64(payload, 8) == record.start) by {
        assert(payload.subrange(8, 16) =~= eight_bytes(record.start));
        written_numbers_are_read(payload, 8, 0, record.start);
    }
    assert(le_u64(payload, 16) == record.len) by {
        assert(payload.subrange(16, 24) =~= eight_bytes(record.len));
        written_numbers_are_read(payload, 16, 0, record.len);
    }
    assert(le_u64(payload, 24) == record.pgoff) by {
        assert(payload.subrange(24, 32) =~= eight_bytes(record.pgoff));
        written_numbers_are_read(payload, 24, 0, record.pgoff);
    }
    assert(le_u32(payload, 32) == record.major) by {
        assert(payload.subrange(32, 36) =~= four_bytes(record.major));
        written_numbers_are_read(payload, 32, record.major, 0);
    }
    assert(le_u32(payload, 36) == record.minor) by {
        assert(payload.subrange(36, 40) =~= four_bytes(record.minor));
        written_numbers_are_read(payload, 36, record.minor, 0);
    }
    assert(le_u64(payload, 40) == record.inode) by {
        assert(payload.subrange(40, 48) =~= eight_bytes(record.inode));
        written_numbers_are_read(payload, 40, 0, record.inode);
    }
    assert(le_u64(payload, 48) == record.inode_generation) by {
        assert(payload.subrange(48, 56) =~= eight_bytes(record.inode_generation));
        written_numbers_are_read(payload, 48, 0, record.inode_generation);
    }
    assert(le_u32(payload, 56) == record.prot) by {
        assert(payload.subrange(56, 60) =~= four_bytes(record.prot));
        written_numbers_are_read(payload, 56, record.prot, 0);
    }
    assert(le_u32(payload, 60) == record.flags) by {
        assert(payload.subrange(60, 64) =~= four_bytes(record.flags));
        written_numbers_are_read(payload, 60, record.flags, 0);
    }
    assert(rest(payload, 64) == name + seq![0u8] + rest_of) by {
        assert(rest(payload, 64) =~= name + seq![0u8] + rest_of);
    }
    texts_end_at_zero(name, rest_of);
}

/// A record of a fork is read as it was written; mappings are kept unless it comes from an `exec`.
pub proof fn written_forks_are_read(header: PerfRecordHeader, record: ForkRecord, rest_of: Seq<u8>)
    requires
        header.record_type == 7,
        record.clone_maps == (header.misc & 0x2000 == 0),
    ensures
        parsed_record_of(
            header,
            four_bytes(record.pid) + four_bytes(record.ppid) + four_bytes(record.tid)
                + four_bytes(record.ptid) + eight_bytes(record.time) + rest_of,
        ) == Ok::<ParsedModel, Seq<char>>(ParsedModel::Fork(record)),
{
    let payload = four_bytes(record.pid) + four_bytes(record.ppid) + four_bytes(record.tid)
        + four_bytes(record.ptid) + eight_bytes(record.time) + rest_of;
    assert(payload.subrange(0, 4) =~= four_bytes(record.pid));
    written_numbers_are_read(payload, 0, record.pid, 0);
    assert(payload.subrange(4, 8) =~= four_bytes(record.ppid));
    written_numbers_are_read(payload, 4, record.ppid, 0);
    assert(payload.subrange(8, 12) =~= four_bytes(record.tid));
    written_numbers_are_read(payload, 8, record.tid, 0);
    assert(payload.subrange(12, 16) =~= four_bytes(record.ptid));
    written_numbers_are_read(payload, 12, record.ptid, 0);
    assert(payload.subrange(16, 24) =~= eight_bytes(record.time));
    written_numbers_are_read(payload, 16, 0, record.time);
}

/// A record of lost records is read as it was written.
pub proof fn written_losses_are_read(header: PerfRecordHeader, record: LostRecord, rest_of: Seq<u8>)
    requires
        header.record_type == 2,
    ensures
        parsed_record_of(
            header,
            eight_bytes(record.id) + eight_bytes(record.lost) + rest_of,
        ) == Ok::<ParsedModel, Seq<char>>(ParsedModel::Lost(record)),
{
    let payload = eight_bytes(record.id) + eight_bytes(record.lost) + rest_of;
    assert(payload.subrange(0, 8) =~= eight_bytes(record.id));
    written_numbers_are_read(payload, 0, 0, record.id);
    assert(payload.subrange(8, 16) =~= eight_bytes(record.lost));
    written_numbers_are_read(payload, 8, 0, record.lost);
}

/// The payload of a sample is kept as it is, with the flags of its record.
pub proof fn samples_are_kept_whole(header: PerfRecordHeader, payload: Seq<u8>)
    requires
        header.record_type == 9,
    ensures
        parsed_record_of(header, payload) == Ok::<ParsedModel, Seq<char>>(
            ParsedModel::Sample(SamplePayloadModel { misc: header.misc, payload }),
        ),
{
}

/// The addresses of a deferred callchain are read in their order, under the cookie in front of
/// them.
pub proof fn written_deferred_callchains_are_read(
    header: PerfRecordHeader,
    cookie: u64,
    ips: Seq<u64>,
    rest_of: Seq<u8>,
)
    requires
        header.record_type == 22,
        16 + 8 * ips.len() <= usize::MAX,
        ips.len() <= u64::MAX,
    ensures
        parsed_record_of(
            header,
            eight_bytes(cookie) + eight_bytes(ips.len() as u64) + all_bytes(ips) + rest_of,
        ) == Ok::<ParsedModel, Seq<char>>(
            ParsedModel::CallchainDeferred(
                CallchainDeferredModel { cookie, ips, sample_id: rest_of },
            ),
        ),
{
    let payload = eight_bytes(cookie) + eight_bytes(ips.len() as u64) + all_bytes(ips) + rest_of;
    assert(payload.subrange(0, 8) =~= eight_bytes(cookie));
    written_numbers_are_read(payload, 0, 0, cookie);
    assert(payload.subrange(8, 16) =~= eight_bytes(ips.len() as u64));
    written_numbers_are_read(payload, 8, 0, ips.len() as u64);
    bytes_of_all(ips);
    let count = ips.len() as int;
    assert forall|i: int| 0 <= i < count implies deferred_ips(payload, count)[i]
        == #[trigger] ips[i] by {
        let at = 16 + 8 * i;
        assert(payload.subrange(at, at + 8) =~= all_bytes(ips).subrange(8 * i, 8 * i + 8));
        written_numbers_are_read(payload, at, 0, ips[i]);
    }
    assert(deferred_ips(payload, count) =~= ips);
    assert(rest(payload, 16 + count * 8) =~= rest_of);
}

/// The bytes of numbers one behind the other.
pub open spec fn all_bytes(numbers: Seq<u64>) -> Seq<u8>
    decreases numbers.len(),
{
    if numbers.len() == 0 {
        Seq::empty()
    } else {
        all_bytes(numbers.drop_last()) + eight_bytes(numbers.last())
    }
}

proof fn bytes_of_all(numbers: Seq<u64>)
    ensures
        all_bytes(numbers).len() == 8 * numbers.len(),
        forall|i: int|
            0 <= i < numbers.len() ==> all_bytes(numbers).subrange(8 * i, 8 * i + 8)
                == eight_bytes(#[trigger] numbers[i]),
    decreases numbers.len(),
{
    if numbers.len() > 0 {
        let fewer = numbers.drop_last();
        bytes_of_all(fewer);
        assert forall|i: int| 0 <= i < numbers.len() implies all_bytes(numbers).subrange(
            8 * i,
            8 * i + 8,
        ) == eight_bytes(#[trigger] numbers[i]) by {
            if i < fewer.len() {
                assert(fewer[i] == numbers[i]);
                assert(all_bytes(numbers).subrange(8 * i, 8 * i + 8) =~= all_bytes(
                    fewer,
                ).subrange(8 * i, 8 * i + 8));
            } else {
                assert(all_bytes(numbers).subrange(8 * i, 8 * i + 8) =~= eight_bytes(
                    numbers.last(),
                ));
            }
        }
    }
}

/// A record is read as it was written: its kind, its flags and its size, then what it holds. The
/// records behind it are read from where it ends.
pub proof fn records_stand_one_behind_the_other(
    front: Seq<u8>,
    header: PerfRecordHeader,
    misc: Seq<u8>,
    size: Seq<u8>,
    payload: Seq<u8>,
    behind: Seq<u8>,
    end: int,
)
    requires
        misc.len() == 2,
        size.len() == 2,
        misc[0] + 0x100 * misc[1] == header.misc,
        size[0] + 0x100 * size[1] == header.size,
        header.size == 8 + payload.len(),
        front.len() + header.size <= end <= front.len() + header.size + behind.len() <= usize::MAX,
    ensures
        ({
            let bytes = front + four_bytes(header.record_type) + misc + size + payload + behind;
            records_from(bytes, front.len() as int, end) == after(
                seq![RecordModel { offset: front.len() as int, header, payload }],
                records_from(bytes, front.len() + header.size, end),
            )
        }),
{
    let bytes = front + four_bytes(header.record_type) + misc + size + payload + behind;
    let at = front.len() as int;
    assert(bytes.subrange(at, at + 4) =~= four_bytes(header.record_type));
    written_numbers_are_read(bytes, at, header.record_type, 0);
    lowest_bytes_come_first(bytes, at + 4);
    lowest_bytes_come_first(bytes, at + 6);
    assert(bytes[at + 4] == misc[0] && bytes[at + 5] == misc[1]);
    assert(bytes[at + 6] == size[0] && bytes[at + 7] == size[1]);
    assert(bytes.subrange(at + 8, at + header.size) =~= payload);
}

} // verus!
