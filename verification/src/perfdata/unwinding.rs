//! Which frames of a captured user stack are kept, and which objects are loaded to find them.

use vstd::prelude::*;
use vstd::slice::slice_subrange;
use vstd::string::StringExecFns;

use crate::perfdata::build_id::{build_id_hex, hex_text};
use crate::perfdata::mappings::{
    file_name_start, file_names_stand_behind_the_last_separator, find_file_name, resolved,
    FileIdentity, MappingModel, MmapTable, UserMapping, PROT_EXEC,
};
use crate::perfdata::raw_stack::StackFrame;
use crate::perfdata::records::{PERF_RECORD_MISC_CPUMODE_KERNEL, PERF_RECORD_MISC_CPUMODE_MASK};
use crate::perfdata::samples::{
    is_kernel_space_frame, is_marker, is_perf_context_marker,
    is_perf_user_deferred_context_marker, SampleLayout, SampleUserStack, UserStackModel,
    PERF_SAMPLE_CALLCHAIN,
};
use crate::perfdata::unwind::{
    aarch64_walk, unwind_aarch64_frame_pointer_stack_like_elfutils,
    unwind_x86_64_frame_pointer_stack_like_elfutils, x86_walk, FramehopUnwinder, PerfArch,
    PerfUserRegs, RegsModel, UnwinderModel, UserStackUnwindResult, UserStackUnwinder,
};
use crate::tables::NamedBytes;
use crate::text::{
    beginning_is_being_in_front, begins_with, character_is_found_last, chars_of, contains_text,
    holding_is_being_between, holds_text, is_free_of, last_char, rfind_char, same_text, starts_with,
    text_of,
};

verus! {

// ---------------------------------------------------------------------------
// Frames
// ---------------------------------------------------------------------------

/// An address of a stack, by how it was found: recorded in the callchain, unwound from the
/// captured stack, or the sampled address itself.
#[derive(Clone, Copy, Debug, Eq, Hash, Ord, PartialEq, PartialOrd, Structural)]
pub enum FoldFrame {
    Callchain(u64),
    UserUnwind(u64),
    InlineCurrentIp(u64),
}

impl FoldFrame {
    /// The address of the frame.
    pub open spec fn at(self) -> u64 {
        match self {
            FoldFrame::Callchain(address) => address,
            FoldFrame::UserUnwind(address) => address,
            FoldFrame::InlineCurrentIp(address) => address,
        }
    }

    /// The address of the frame.
    #[must_use]
    pub fn address(self) -> (address: u64)
        ensures
            address == self.at(),
    {
        match self {
            FoldFrame::Callchain(address) => address,
            FoldFrame::UserUnwind(address) => address,
            FoldFrame::InlineCurrentIp(address) => address,
        }
    }
}

impl StackFrame for FoldFrame {
    open spec fn code(&self) -> (u64, u64) {
        match *self {
            FoldFrame::Callchain(address) => (0, address),
            FoldFrame::UserUnwind(address) => (1, address),
            FoldFrame::InlineCurrentIp(address) => (2, address),
        }
    }

    fn frame_code(&self) -> (code: (u64, u64)) {
        match *self {
            FoldFrame::Callchain(address) => (0, address),
            FoldFrame::UserUnwind(address) => (1, address),
            FoldFrame::InlineCurrentIp(address) => (2, address),
        }
    }

    proof fn code_tells_apart(left: FoldFrame, right: FoldFrame) {
    }
}

/// Callchain entries as frames.
pub open spec fn callchain_frames(addresses: Seq<u64>) -> Seq<FoldFrame> {
    addresses.map_values(|address: u64| FoldFrame::Callchain(address))
}

/// Appends callchain entries as frames.
pub fn append_callchain_frames(frames: &mut Vec<FoldFrame>, addresses: &[u64])
    ensures
        final(frames)@ == old(frames)@ + callchain_frames(addresses@),
{
    let ghost start = frames@;
    let mut i: usize = 0;
    while i < addresses.len()
        invariant
            i <= addresses.len(),
            frames@.len() == start.len() + i,
            forall|j: int| 0 <= j < start.len() ==> #[trigger] frames@[j] == start[j],
            forall|j: int|
                start.len() <= j < frames@.len() ==> #[trigger] frames@[j] == FoldFrame::Callchain(
                    addresses@[j - start.len()],
                ),
        decreases addresses.len() - i,
    {
        frames.push(FoldFrame::Callchain(addresses[i]));
        i += 1;
    }
    assert(frames@ =~= start + callchain_frames(addresses@));
}

/// The cookie that stands for user frames which a later record delivers: the last entry, when
/// the marker for them stands in front of it.
pub open spec fn deferred_cookie(frames: Seq<FoldFrame>) -> Option<u64> {
    if frames.len() < 2 {
        None
    } else {
        match (frames[frames.len() - 2], frames[frames.len() - 1]) {
            (FoldFrame::Callchain(marker), FoldFrame::Callchain(cookie)) => if marker
                == 0xffff_ffff_ffff_fd80 {
                Some(cookie)
            } else {
                None
            },
            _ => None,
        }
    }
}

/// Takes the cookie for deferred user frames off the end of a callchain.
pub fn take_deferred_cookie(frames: &mut Vec<FoldFrame>) -> (cookie: Option<u64>)
    ensures
        cookie == deferred_cookie(old(frames)@),
        cookie is Some ==> final(frames)@ == old(frames)@.drop_last(),
        cookie is None ==> final(frames)@ == old(frames)@,
{
    let len: usize = frames.len();
    if len < 2 {
        return None;
    }
    match (frames[len - 2], frames[len - 1]) {
        (FoldFrame::Callchain(marker), FoldFrame::Callchain(cookie)) => if is_perf_user_deferred_context_marker(
            marker,
        ) {
            frames.pop();
            Some(cookie)
        } else {
            None
        },
        _ => None,
    }
}

// ---------------------------------------------------------------------------
// Decisions
// ---------------------------------------------------------------------------

/// What user frames are unwound with.
#[derive(Clone, Copy, Debug, Eq, PartialEq, Structural)]
pub enum UserUnwindSource {
    Skip,
    Object,
}

/// What the recorded callchain of a sample holds.
#[derive(Clone, Copy, Debug, Eq, PartialEq, Structural)]
pub enum SampleCallchainState {
    KernelWithoutCallchain,
    KernelWithCallchain,
    KernelWithUserFrame,
    Other { has_callchain: bool, has_frames: bool },
}

/// Whether samples hold callchains.
#[derive(Clone, Copy, Debug, Eq, PartialEq, Structural)]
pub enum SampleCallchainPresence {
    Present,
    Absent,
}

/// Whether the sampled address lies in a shared object.
#[derive(Clone, Copy, Debug, Eq, PartialEq, Structural)]
pub enum ObjectUnwindInitialFramePolicy {
    DropSyntheticCurrentIp,
    KeepDsoLeaf,
}

/// What is known of the mapping that the sampled address lies in.
#[derive(Clone, Copy, Debug, Eq, PartialEq, Structural)]
pub enum InitialIpMappingState {
    NoRecordedMapping,
    RecordedMappingLoaded,
    RecordedMappingMissing,
}

/// How the object of an address was reported.
#[derive(Clone, Copy, Debug, Eq, PartialEq, Structural)]
pub enum ReportModuleResult {
    NoDso,
    Reported,
    Failed,
}

/// What decides how a captured user stack is unwound.
#[derive(Clone, Copy, Debug, Eq, PartialEq, Structural)]
pub struct UserUnwindContext {
    pub sample_callchain: SampleCallchainPresence,
    pub callchain: SampleCallchainState,
    pub initial_ip_mapping: InitialIpMappingState,
    pub initial_ip_is_dso: bool,
    pub module_count: usize,
    pub frame_pointer_at_or_above_stack_pointer: bool,
    pub syscall_return_state: bool,
}

/// Captured user stacks are unwound exactly where samples hold callchains: only then does a
/// reader resolve callchains at all.
pub open spec fn unwind_source(context: UserUnwindContext) -> UserUnwindSource {
    if context.sample_callchain == SampleCallchainPresence::Present {
        UserUnwindSource::Object
    } else {
        UserUnwindSource::Skip
    }
}

/// Chooses what user frames are unwound with.
#[must_use]
pub fn choose_user_unwind_source(context: UserUnwindContext) -> (source: UserUnwindSource)
    ensures
        source == unwind_source(context),
{
    if has_perf_object_unwind(context) {
        UserUnwindSource::Object
    } else {
        UserUnwindSource::Skip
    }
}

fn has_perf_object_unwind(context: UserUnwindContext) -> (found: bool)
    ensures
        found == (context.sample_callchain == SampleCallchainPresence::Present),
{
    match context.sample_callchain {
        SampleCallchainPresence::Present => true,
        SampleCallchainPresence::Absent => false,
    }
}

/// Whether a frame is an address in user code.
pub open spec fn is_user_frame(frame: u64) -> bool {
    !is_marker(frame) && !(0xffff_8000_0000_0000 <= frame < 0xffff_ffff_ffff_f000)
}

/// Whether a frame is an address in kernel code.
pub open spec fn is_kernel_frame(frame: u64) -> bool {
    !is_marker(frame) && 0xffff_8000_0000_0000 <= frame < 0xffff_ffff_ffff_f000
}

fn is_recorded_user_callchain_frame(frame: u64) -> (found: bool)
    ensures
        found == is_user_frame(frame),
{
    !is_perf_context_marker(frame) && !is_kernel_space_frame(frame)
}

fn is_recorded_kernel_callchain_frame(frame: u64) -> (found: bool)
    ensures
        found == is_kernel_frame(frame),
{
    !is_perf_context_marker(frame) && is_kernel_space_frame(frame)
}

/// What the recorded callchain of a sample holds.
pub open spec fn callchain_state(
    misc: u16,
    sample_type: u64,
    frames: Seq<u64>,
    has_sample_frames: bool,
) -> SampleCallchainState {
    let kernel = misc & PERF_RECORD_MISC_CPUMODE_MASK == PERF_RECORD_MISC_CPUMODE_KERNEL;
    if kernel && frames.len() == 0 {
        SampleCallchainState::KernelWithoutCallchain
    } else if (exists|i: int| 0 <= i < frames.len() && is_kernel_frame(#[trigger] frames[i])) && (
    exists|i: int| 0 <= i < frames.len() && is_user_frame(#[trigger] frames[i])) {
        SampleCallchainState::KernelWithUserFrame
    } else if kernel {
        SampleCallchainState::KernelWithCallchain
    } else {
        SampleCallchainState::Other {
            has_callchain: sample_type & PERF_SAMPLE_CALLCHAIN != 0,
            has_frames: has_sample_frames,
        }
    }
}

/// Finds what the recorded callchain of a sample holds.
pub fn sample_callchain_state(
    misc: u16,
    layout: SampleLayout,
    frames: &[u64],
    has_sample_frames: bool,
) -> (state: SampleCallchainState)
    ensures
        state == callchain_state(misc, layout.sample_type, frames@, has_sample_frames),
{
    let is_kernel_sample = misc & PERF_RECORD_MISC_CPUMODE_MASK == PERF_RECORD_MISC_CPUMODE_KERNEL;
    if is_kernel_sample && frames.len() == 0 {
        return SampleCallchainState::KernelWithoutCallchain;
    }
    let mut has_user = false;
    let mut has_kernel = false;
    let mut i: usize = 0;
    while i < frames.len()
        invariant
            i <= frames.len(),
            has_user == exists|j: int| 0 <= j < i && is_user_frame(#[trigger] frames@[j]),
            has_kernel == exists|j: int| 0 <= j < i && is_kernel_frame(#[trigger] frames@[j]),
        decreases frames.len() - i,
    {
        if is_recorded_user_callchain_frame(frames[i]) {
            has_user = true;
        }
        if is_recorded_kernel_callchain_frame(frames[i]) {
            has_kernel = true;
        }
        i += 1;
    }
    if has_kernel && has_user {
        return SampleCallchainState::KernelWithUserFrame;
    }
    if is_kernel_sample {
        SampleCallchainState::KernelWithCallchain
    } else {
        SampleCallchainState::Other {
            has_callchain: layout.sample_type & PERF_SAMPLE_CALLCHAIN != 0,
            has_frames: has_sample_frames,
        }
    }
}

/// Whether a stack was captured at all.
pub open spec fn was_captured(stack: UserStackModel) -> bool {
    stack.bytes.len() > 0 && stack.dynamic_size != 0
}

/// The bytes of a captured stack that were in use, where all of them were captured.
pub open spec fn used_stack(stack: UserStackModel) -> Option<Seq<u8>> {
    if stack.dynamic_size <= stack.bytes.len() {
        Some(stack.bytes.subrange(0, stack.dynamic_size as int))
    } else {
        None
    }
}

/// Whether a stack was captured at all.
pub fn has_perf_captured_user_stack(stack: &SampleUserStack<'_>) -> (found: bool)
    ensures
        found == was_captured(stack@),
{
    stack.bytes.len() != 0 && stack.dynamic_size != 0
}

/// The bytes of a captured stack that were in use.
pub fn perf_effective_user_stack_bytes<'a>(stack: &SampleUserStack<'a>) -> (bytes: Option<&'a [u8]>)
    ensures
        match bytes {
            Some(bytes) => used_stack(stack@) == Some(bytes@),
            None => used_stack(stack@) is None,
        },
{
    let total: usize = stack.bytes.len();
    if stack.dynamic_size > total as u64 {
        return None;
    }
    Some(slice_subrange(stack.bytes, 0, stack.dynamic_size as usize))
}

// ---------------------------------------------------------------------------
// Paths
// ---------------------------------------------------------------------------

/// A letter in lower case, where it is one of the basic alphabet.
pub open spec fn lower_letter(c: char) -> char {
    if 'A' <= c <= 'Z' {
        (c as int + 32) as char
    } else {
        c
    }
}

/// Whether a file name ends in a dot and `dylib`, in whatever case, behind other characters.
pub open spec fn is_dylib(name: Seq<char>) -> bool {
    match last_char(name, '.', name.len() as int) {
        Some(dot) => {
            let extension = name.subrange(dot + 1, name.len() as int);
            dot > 0 && extension.map_values(|c: char| lower_letter(c)) == "dylib"@
        },
        None => false,
    }
}

fn letter_to_lower(c: char) -> (lower: char)
    ensures
        lower == lower_letter(c),
{
    if 'A' <= c && c <= 'Z' {
        ((c as u8) + 32) as char
    } else {
        c
    }
}

fn has_dylib_extension(name: &[char]) -> (found: bool)
    ensures
        found == is_dylib(name@),
{
    let dot: usize = match rfind_char(name, '.') {
        Some(dot) => dot,
        None => return false,
    };
    if dot == 0 {
        return false;
    }
    let mut lower: Vec<char> = Vec::new();
    let mut i: usize = dot + 1;
    while i < name.len()
        invariant
            dot < i <= name.len(),
            lower@.len() == i - dot - 1,
            forall|j: int|
                0 <= j < lower@.len() ==> #[trigger] lower@[j] == lower_letter(name@[dot + 1 + j]),
        decreases name.len() - i,
    {
        lower.push(letter_to_lower(name[i]));
        i += 1;
    }
    assert(lower@ =~= name@.subrange(dot + 1, name@.len() as int).map_values(
        |c: char| lower_letter(c),
    ));
    same_text(text_of(lower.as_slice()).as_str(), "dylib")
}

/// Whether a path names a shared object.
pub open spec fn is_shared_object(path: Seq<char>) -> bool {
    let name = path.subrange(file_name_start(path, path.len() as int), path.len() as int);
    holds_text(name, ".so"@) || is_dylib(name)
}

/// Tells whether a path names a shared object.
pub fn is_shared_object_mapping_path(path: &str) -> (found: bool)
    ensures
        found == is_shared_object(path@),
{
    let chars = chars_of(path);
    let start: usize = find_file_name(chars.as_slice());
    let name = slice_subrange(chars.as_slice(), start, chars.len());
    contains_text(name, ".so") || has_dylib_extension(name)
}

/// Whether the sampled address lies in a shared object.
pub open spec fn initial_frame_policy(
    mappings: Seq<MappingModel>,
    pid: Option<u32>,
    ip: u64,
) -> ObjectUnwindInitialFramePolicy {
    match pid {
        None => ObjectUnwindInitialFramePolicy::DropSyntheticCurrentIp,
        Some(pid) => match resolved(mappings, pid, ip) {
            None => ObjectUnwindInitialFramePolicy::DropSyntheticCurrentIp,
            Some(index) => if is_shared_object(mappings[index].path) {
                ObjectUnwindInitialFramePolicy::KeepDsoLeaf
            } else {
                ObjectUnwindInitialFramePolicy::DropSyntheticCurrentIp
            },
        },
    }
}

/// Tells whether the sampled address lies in a shared object.
pub fn object_unwind_initial_frame_policy(
    pid: Option<u32>,
    ip: u64,
    mmap_table: &MmapTable,
) -> (policy: ObjectUnwindInitialFramePolicy)
    requires
        mmap_table.wf(),
    ensures
        policy == initial_frame_policy(mmap_table@, pid, ip),
{
    if let Some(pid) = pid {
        if let Some(path) = mmap_table.mapping_path(pid, ip) {
            if is_shared_object_mapping_path(path) {
                return ObjectUnwindInitialFramePolicy::KeepDsoLeaf;
            }
        }
    }
    ObjectUnwindInitialFramePolicy::DropSyntheticCurrentIp
}

// ---------------------------------------------------------------------------
// Object files
// ---------------------------------------------------------------------------

/// The object files that stacks may be unwound with, and the directory of build-id files. A file
/// that is missing counts as empty.
#[derive(Debug)]
pub struct ObjectStore {
    pub debug_dir: Option<String>,
    pub images: NamedBytes,
}

/// The contents of an [`ObjectStore`].
#[verifier::ext_equal]
pub struct ObjectsModel {
    pub debug_dir: Option<Seq<char>>,
    pub images: Map<Seq<char>, Seq<u8>>,
}

impl View for ObjectStore {
    type V = ObjectsModel;

    open spec fn view(&self) -> ObjectsModel {
        ObjectsModel {
            debug_dir: match self.debug_dir {
                Some(dir) => Some(dir@),
                None => None,
            },
            images: self.images@,
        }
    }
}

/// Where the build-id directory keeps the object of a build id: the first two digits name a
/// directory, the others one in it.
pub open spec fn build_id_file(debug_dir: Seq<char>, hex: Seq<char>) -> Seq<char> {
    let split = if hex.len() < 2 {
        hex.len() as int
    } else {
        2
    };
    debug_dir + "/.build-id/"@ + hex.subrange(0, split) + "/"@ + hex.subrange(
        split,
        hex.len() as int,
    ) + "/elf"@
}

/// Where the build-id directory keeps the object of a build id.
pub fn perf_build_id_elf_path(debug_dir: &str, hex: &str) -> (path: String)
    ensures
        path@ == build_id_file(debug_dir@, hex@),
{
    let chars = chars_of(hex);
    let split: usize = if chars.len() < 2 {
        chars.len()
    } else {
        2
    };
    let mut path = debug_dir.to_string();
    path.append("/.build-id/");
    path.append(text_of(slice_subrange(chars.as_slice(), 0, split)).as_str());
    path.append("/");
    path.append(text_of(slice_subrange(chars.as_slice(), split, chars.len())).as_str());
    path.append("/elf");
    path
}

impl ObjectsModel {
    /// The bytes of an object file.
    pub open spec fn image(self, path: Seq<char>) -> Seq<u8> {
        if self.images.contains_key(path) {
            self.images[path]
        } else {
            Seq::empty()
        }
    }

    /// The object file of a mapping: that of its build id where there is one, or else the
    /// mapped path.
    pub open spec fn object_path(self, path: Seq<char>, build_id: Option<Seq<u8>>) -> Seq<char> {
        match (self.debug_dir, build_id) {
            (Some(debug_dir), Some(build_id)) => {
                let cached = build_id_file(debug_dir, hex_text(build_id));
                if self.images.contains_key(cached) {
                    cached
                } else {
                    path
                }
            },
            _ => path,
        }
    }
}

impl ObjectStore {
    /// No object files.
    #[must_use]
    pub fn new() -> (store: ObjectStore)
        ensures
            store.images.wf(),
            store@ == (ObjectsModel { debug_dir: None, images: Map::empty() }),
    {
        ObjectStore { debug_dir: None, images: NamedBytes::new() }
    }

    /// The object file of a mapping.
    #[must_use]
    pub fn unwind_object_path(&self, path: &str, build_id: Option<&[u8]>) -> (object: String)
        requires
            self.images.wf(),
        ensures
            object@ == self@.object_path(
                path@,
                match build_id {
                    Some(build_id) => Some(build_id@),
                    None => None,
                },
            ),
    {
        if let (Some(debug_dir), Some(build_id)) = (&self.debug_dir, build_id) {
            let cached = perf_build_id_elf_path(
                debug_dir.as_str(),
                build_id_hex(build_id).as_str(),
            );
            if self.images.get(cached.as_str()).is_some() {
                return cached;
            }
        }
        path.to_string()
    }
}

// ---------------------------------------------------------------------------
// The objects of a process
// ---------------------------------------------------------------------------

/// A mapping that was tried: object file, start, length and file offset.
#[derive(Clone, Debug)]
pub struct UnwindMappingKey {
    pub path: String,
    pub start: u64,
    pub len: u64,
    pub pgoff: u64,
}

/// A mapping that was tried.
pub type MappingKeyModel = (Seq<char>, u64, u64, u64);

impl View for UnwindMappingKey {
    type V = MappingKeyModel;

    open spec fn view(&self) -> MappingKeyModel {
        (self.path@, self.start, self.len, self.pgoff)
    }
}

/// An object that was loaded: object file and base.
#[derive(Clone, Debug)]
pub struct UnwindModuleKey {
    pub path: String,
    pub base: u64,
}

/// An object that was loaded.
pub type ModuleKeyModel = (Seq<char>, u64);

impl View for UnwindModuleKey {
    type V = ModuleKeyModel;

    open spec fn view(&self) -> ModuleKeyModel {
        (self.path@, self.base)
    }
}

/// The base of an object that is mapped at `start`.
pub open spec fn module_base(start: u64, pgoff: u64) -> u64 {
    if start < pgoff {
        0
    } else {
        (start - pgoff) as u64
    }
}

/// Which keys a list holds.
pub open spec fn keys<T: View>(list: Seq<T>) -> Set<T::V> {
    crate::text::views(list).to_set()
}

/// The unwinder of a process, the mappings that were tried, and the objects that were loaded.
#[verifier::ext_equal]
pub struct PidModel {
    pub unwinder: UnwinderModel,
    pub attempted: Set<MappingKeyModel>,
    pub loaded: Set<ModuleKeyModel>,
}

impl PidModel {
    /// A process that nothing was loaded for.
    pub open spec fn fresh(arch: PerfArch) -> PidModel {
        PidModel {
            unwinder: UnwinderModel { arch, modules: Seq::empty(), rejected: Seq::empty() },
            attempted: Set::empty(),
            loaded: Set::empty(),
        }
    }

    /// The state after an object file was tried for a mapping, and whether it was loaded for the
    /// first time. A mapping is tried once.
    pub open spec fn with_file(
        self,
        path: Seq<char>,
        mapping: MappingModel,
        objects: ObjectsModel,
    ) -> (PidModel, bool) {
        let key = (path, mapping.start, mapping.len, mapping.pgoff);
        if self.attempted.contains(key) {
            (self, false)
        } else {
            let (unwinder, outcome) = self.unwinder.with_object(
                path,
                objects.image(path),
                mapping.start,
                mapping.len,
                mapping.pgoff,
            );
            let tried = PidModel { unwinder, attempted: self.attempted.insert(key), ..self };
            let module = (path, module_base(mapping.start, mapping.pgoff));
            match outcome {
                Err(_) => (tried, false),
                Ok(added) => if added || unwinder.reports(mapping.start) {
                    (
                        PidModel { loaded: self.loaded.insert(module), ..tried },
                        !self.loaded.contains(module),
                    )
                } else {
                    (tried, false)
                },
            }
        }
    }

    /// The state after the object of a mapping was asked for, and whether it was loaded. Names
    /// in brackets are no files; without a build id only executable mappings are loaded.
    pub open spec fn with_mapping(self, mapping: MappingModel, objects: ObjectsModel) -> (
        PidModel,
        bool,
    ) {
        let path = objects.object_path(mapping.path, mapping.build_id);
        if begins_with(path, "["@) {
            (self, false)
        } else if mapping.build_id is None && (mapping.prot matches Some(prot) && prot & PROT_EXEC
            == 0) {
            (self, false)
        } else {
            self.with_file(path, mapping, objects)
        }
    }

    /// The state after the object of an address was reported.
    pub open spec fn reporting(
        self,
        mappings: Seq<MappingModel>,
        pid: u32,
        ip: u64,
        objects: ObjectsModel,
    ) -> (PidModel, ReportModuleResult) {
        match resolved(mappings, pid, ip) {
            None => (self, ReportModuleResult::NoDso),
            Some(index) => if self.unwinder.reports(ip) {
                (self, ReportModuleResult::Reported)
            } else {
                let (state, loaded) = self.with_mapping(mappings[index], objects);
                (
                    state,
                    if loaded {
                        ReportModuleResult::Reported
                    } else {
                        ReportModuleResult::Failed
                    },
                )
            },
        }
    }

    /// The state after the objects of the first `count` frames were reported, and whether one of
    /// them was found.
    pub open spec fn reporting_frames(
        self,
        mappings: Seq<MappingModel>,
        pid: u32,
        frames: Seq<u64>,
        count: int,
        objects: ObjectsModel,
    ) -> (PidModel, bool)
        decreases count,
    {
        if count <= 0 {
            (self, false)
        } else {
            let (before, found) = self.reporting_frames(mappings, pid, frames, count - 1, objects);
            let (state, result) = before.reporting(mappings, pid, frames[count - 1], objects);
            (state, found || result == ReportModuleResult::Reported)
        }
    }

    /// The state and the frames after up to `passes` rounds of reporting the objects of the
    /// frames and unwinding again, until the frames stay.
    pub open spec fn settled(
        self,
        mappings: Seq<MappingModel>,
        pid: u32,
        regs: RegsModel,
        stack: Seq<u8>,
        frames: Seq<u64>,
        passes: nat,
        objects: ObjectsModel,
    ) -> (PidModel, Seq<u64>)
        decreases passes,
    {
        if passes == 0 {
            (self, frames)
        } else {
            let (state, found) = self.reporting_frames(
                mappings,
                pid,
                frames,
                frames.len() as int,
                objects,
            );
            let next = state.unwinder.unwound(regs, stack, 256);
            if !found || next == frames {
                (state, frames)
            } else {
                state.settled(mappings, pid, regs, stack, next, (passes - 1) as nat, objects)
            }
        }
    }

    /// The state and the frames after a captured stack was unwound.
    pub open spec fn unwinding(
        self,
        mappings: Seq<MappingModel>,
        pid: u32,
        regs: RegsModel,
        stack: Seq<u8>,
        context: UserUnwindContext,
        objects: ObjectsModel,
    ) -> (PidModel, Seq<u64>) {
        let (state, result) = self.reporting(mappings, pid, regs.ip(), objects);
        if result == ReportModuleResult::Failed {
            (state, Seq::empty())
        } else {
            let first = state.unwinder.unwound(regs, stack, 256);
            let (after, frames) = state.settled(
                mappings,
                pid,
                regs,
                stack,
                first,
                MAX_LIBDW_CALLBACK_REPORT_PASSES as nat,
                objects,
            );
            (
                after,
                accepted_frames(
                    context.callchain,
                    with_arch_fallback(frames, regs, stack, uses_arch_fallback(context)),
                ),
            )
        }
    }
}

/// How often the objects of frames are reported and the stack is unwound again.
pub const MAX_LIBDW_CALLBACK_REPORT_PASSES: usize = 8;

/// The architecture's own walk fills in unless a recorded mapping of the sampled address could
/// not be loaded.
pub open spec fn uses_arch_fallback(context: UserUnwindContext) -> bool {
    context.initial_ip_mapping != InitialIpMappingState::RecordedMappingMissing
}

/// The frames, or those of the architecture's own walk: on `x86_64` where nothing was unwound and
/// the frame pointer is not below the stack pointer, on `aarch64` where nothing beyond the
/// sampled address was.
pub open spec fn with_arch_fallback(
    frames: Seq<u64>,
    regs: RegsModel,
    stack: Seq<u8>,
    enabled: bool,
) -> Seq<u64> {
    match regs {
        RegsModel::X86_64(regs) => if enabled && frames.len() == 0 && regs.bp >= regs.sp {
            x86_walk(regs, stack, 256)
        } else {
            frames
        },
        RegsModel::Aarch64(regs) => if enabled && (frames.len() == 0 || frames == seq![regs.pc]) {
            aarch64_walk(regs, stack, 256)
        } else {
            frames
        },
    }
}

/// A recorded callchain that leads from the kernel to user code keeps no unwound frames.
pub open spec fn accepted_frames(callchain: SampleCallchainState, frames: Seq<u64>) -> Seq<u64> {
    if callchain == SampleCallchainState::KernelWithUserFrame {
        Seq::empty()
    } else {
        frames
    }
}

/// Tells whether the architecture's own walk fills in.
#[must_use]
pub fn should_use_libdw_arch_fallback_after_empty_object_unwind(
    context: UserUnwindContext,
    _initial_ip_mapping_has_reported_module: bool,
) -> (found: bool)
    ensures
        found == uses_arch_fallback(context),
{
    match context.initial_ip_mapping {
        InitialIpMappingState::RecordedMappingMissing => false,
        _ => true,
    }
}

/// Whether nothing beyond the sampled address was unwound.
fn frames_are_seed_only(raw_frames: &Vec<u64>, pc: u64) -> (found: bool)
    ensures
        found == (raw_frames@.len() == 0 || raw_frames@ == seq![pc]),
{
    let found = raw_frames.len() == 0 || (raw_frames.len() == 1 && raw_frames[0] == pc);
    assert(raw_frames@.len() == 1 && raw_frames@[0] == pc ==> raw_frames@ =~= seq![pc]);
    found
}

/// Lets the architecture's own walk fill in.
#[must_use]
pub fn libdw_arch_fallback_after_empty_object_unwind(
    raw_frames: Vec<u64>,
    regs: &PerfUserRegs,
    stack_bytes: &[u8],
    use_libdw_arch_fallback: bool,
) -> (frames: Vec<u64>)
    ensures
        frames@ == with_arch_fallback(raw_frames@, regs@, stack_bytes@, use_libdw_arch_fallback),
{
    if !use_libdw_arch_fallback {
        return raw_frames;
    }
    match *regs {
        PerfUserRegs::X86_64(regs) => if raw_frames.len() == 0 && regs.bp >= regs.sp {
            unwind_x86_64_frame_pointer_stack_like_elfutils(regs, stack_bytes, 256)
        } else {
            raw_frames
        },
        PerfUserRegs::Aarch64(regs) => if frames_are_seed_only(&raw_frames, regs.pc) {
            unwind_aarch64_frame_pointer_stack_like_elfutils(regs, stack_bytes, 256)
        } else {
            raw_frames
        },
    }
}

/// Keeps all frames of a syscall return.
#[must_use]
pub fn truncate_syscall_return_unwind_after_first_executable_frame(
    raw_frames: Vec<u64>,
    _pid: Option<u32>,
    _mmap_table: &MmapTable,
    _context: UserUnwindContext,
) -> (frames: Vec<u64>)
    ensures
        frames@ == raw_frames@,
{
    raw_frames
}

/// Keeps frames in no mapping.
pub fn truncate_user_unwind_at_first_unmapped_frame(
    _pid: Option<u32>,
    frames: &mut Vec<FoldFrame>,
    _mmap_table: &MmapTable,
)
    ensures
        final(frames)@ == old(frames)@,
{
}

/// The frames that are kept.
#[must_use]
pub fn perf_accepted_object_unwind_frames(
    _regs: &PerfUserRegs,
    callchain: SampleCallchainState,
    _initial_frame_policy: ObjectUnwindInitialFramePolicy,
    unwound_frames: Vec<u64>,
) -> (frames: Vec<u64>)
    ensures
        frames@ == accepted_frames(callchain, unwound_frames@),
{
    match callchain {
        SampleCallchainState::KernelWithUserFrame => {
            let frames: Vec<u64> = Vec::new();
            assert(frames@ =~= Seq::empty());
            frames
        },
        _ => unwound_frames,
    }
}

/// Whether an object file may be loaded: names in brackets are no files. A file is loaded
/// whatever its recorded identity is.
#[must_use]
pub fn should_load_unwind_object(path: &str, _file_identity: Option<FileIdentity>) -> (found: bool)
    ensures
        found == !begins_with(path@, "["@),
{
    !starts_with(chars_of(path).as_slice(), "[")
}

/// Unwinds with any unwinder, and hands on what it found and what it counted.
pub fn unwind_user_stack_with_diagnostics<U: UserStackUnwinder>(
    unwinder: &mut U,
    regs: PerfUserRegs,
    stack_bytes: &[u8],
    max_frames: usize,
) -> (result: UserStackUnwindResult)
    requires
        old(unwinder).ready(),
    ensures
        final(unwinder).ready(),
        old(unwinder).may_yield(
            regs@,
            stack_bytes@,
            max_frames as nat,
            result.accepted_frames@,
        ),
        old(unwinder).may_count(
            regs@,
            stack_bytes@,
            max_frames as nat,
            result.framehop_frame_count as nat,
        ),
        old(unwinder).may_become(final(unwinder)),
{
    unwinder.unwind_user_stack(regs, stack_bytes, max_frames)
}

/// The unwinder of a process, the mappings that were tried, and the objects that were loaded.
pub struct PidUnwindState {
    object_unwinder: FramehopUnwinder,
    attempted_unwind_mappings: Vec<UnwindMappingKey>,
    loaded_unwind_modules: Vec<UnwindModuleKey>,
}

impl View for PidUnwindState {
    type V = PidModel;

    closed spec fn view(&self) -> PidModel {
        PidModel {
            unwinder: self.object_unwinder@,
            attempted: keys(self.attempted_unwind_mappings@),
            loaded: keys(self.loaded_unwind_modules@),
        }
    }
}

/// One more entry adds its key.
proof fn keys_of_push<T: View>(list: Seq<T>, item: T)
    ensures
        keys(list.push(item)) == keys(list).insert(item@),
{
    let before = crate::text::views(list);
    let now = crate::text::views(list.push(item));
    assert(now =~= before.push(item@));
    assert forall|key: T::V| now.to_set().contains(key) <==> before.to_set().insert(
        item@,
    ).contains(key) by {
        if before.contains(key) {
            let i = choose|i: int| 0 <= i < before.len() && before[i] == key;
            assert(now[i] == key);
        }
        if key == item@ {
            assert(now[before.len() as int] == key);
        }
        if now.contains(key) {
            let i = choose|i: int| 0 <= i < now.len() && now[i] == key;
            if i < before.len() {
                assert(before[i] == key);
            }
        }
    }
    assert(now.to_set() =~= before.to_set().insert(item@));
}

impl PidUnwindState {
    /// Whether the unwinder is in order.
    pub closed spec fn wf(&self) -> bool {
        self.object_unwinder.wf()
    }

    /// A process that nothing was loaded for.
    #[must_use]
    pub fn with_arch(arch: PerfArch) -> (state: PidUnwindState)
        ensures
            state.wf(),
            state@ == PidModel::fresh(arch),
    {
        let state = PidUnwindState {
            object_unwinder: FramehopUnwinder::with_arch(arch),
            attempted_unwind_mappings: Vec::new(),
            loaded_unwind_modules: Vec::new(),
        };
        assert(keys(state.attempted_unwind_mappings@) =~= Set::empty());
        assert(keys(state.loaded_unwind_modules@) =~= Set::empty());
        state
    }

    /// The number of objects.
    #[must_use]
    pub fn module_count(&self) -> (count: usize)
        ensures
            count == self@.unwinder.modules.len(),
    {
        self.object_unwinder.module_count()
    }

    /// Whether an address lies in an object.
    #[must_use]
    pub fn has_reported_module_for_ip(&self, ip: u64) -> (found: bool)
        requires
            self.wf(),
        ensures
            found == self@.unwinder.reports(ip),
    {
        self.object_unwinder.has_reported_module_for_ip(ip)
    }

    fn has_attempted(&self, path: &str, start: u64, len: u64, pgoff: u64) -> (found: bool)
        ensures
            found == self@.attempted.contains((path@, start, len, pgoff)),
    {
        let ghost all = crate::text::views(self.attempted_unwind_mappings@);
        let mut i: usize = 0;
        while i < self.attempted_unwind_mappings.len()
            invariant
                i <= self.attempted_unwind_mappings@.len(),
                all == crate::text::views(self.attempted_unwind_mappings@),
                forall|j: int| 0 <= j < i ==> #[trigger] all[j] != (path@, start, len, pgoff),
            decreases self.attempted_unwind_mappings@.len() - i,
        {
            let key = &self.attempted_unwind_mappings[i];
            assert(all[i as int] == key@);
            if key.start == start && key.len == len && key.pgoff == pgoff && same_text(
                key.path.as_str(),
                path,
            ) {
                assert(all.contains((path@, start, len, pgoff)));
                return true;
            }
            i += 1;
        }
        false
    }

    /// Whether an object was loaded.
    #[must_use]
    pub fn has_loaded(&self, path: &str, base: u64) -> (found: bool)
        ensures
            found == self@.loaded.contains((path@, base)),
    {
        let ghost all = crate::text::views(self.loaded_unwind_modules@);
        let mut i: usize = 0;
        while i < self.loaded_unwind_modules.len()
            invariant
                i <= self.loaded_unwind_modules@.len(),
                all == crate::text::views(self.loaded_unwind_modules@),
                forall|j: int| 0 <= j < i ==> #[trigger] all[j] != (path@, base),
            decreases self.loaded_unwind_modules@.len() - i,
        {
            let key = &self.loaded_unwind_modules[i];
            assert(all[i as int] == key@);
            if key.base == base && same_text(key.path.as_str(), path) {
                assert(all.contains((path@, base)));
                return true;
            }
            i += 1;
        }
        false
    }

    /// Notes that an object was loaded; tells whether that is new.
    pub fn note_loaded(&mut self, path: &str, base: u64) -> (new: bool)
        requires
            old(self).wf(),
        ensures
            final(self).wf(),
            new == !old(self)@.loaded.contains((path@, base)),
            final(self)@ == (PidModel {
                loaded: old(self)@.loaded.insert((path@, base)),
                ..old(self)@
            }),
    {
        let ghost before = self@;
        if self.has_loaded(path, base) {
            assert(before.loaded.insert((path@, base)) =~= before.loaded);
            return false;
        }
        let key = UnwindModuleKey { path: path.to_string(), base };
        proof {
            keys_of_push(self.loaded_unwind_modules@, key);
        }
        self.loaded_unwind_modules.push(key);
        true
    }

    fn load_file(
        &mut self,
        path: &str,
        start: u64,
        len: u64,
        pgoff: u64,
        objects: &ObjectStore,
        mapping: Ghost<MappingModel>,
    ) -> (loaded: bool)
        requires
            old(self).wf(),
            objects.images.wf(),
            mapping@.start == start,
            mapping@.len == len,
            mapping@.pgoff == pgoff,
        ensures
            final(self).wf(),
            (final(self)@, loaded) == old(self)@.with_file(path@, mapping@, objects@),
    {
        if self.has_attempted(path, start, len, pgoff) {
            return false;
        }
        let key = UnwindMappingKey { path: path.to_string(), start, len, pgoff };
        proof {
            keys_of_push(self.attempted_unwind_mappings@, key);
        }
        self.attempted_unwind_mappings.push(key);
        let nothing: Vec<u8> = Vec::new();
        assert(nothing@ =~= Seq::empty());
        let image: &Vec<u8> = match objects.images.get(path) {
            Some(image) => image,
            None => &nothing,
        };
        match self.object_unwinder.add_object_mapping(path, image.as_slice(), start, len, pgoff) {
            Ok(added) => if added || self.object_unwinder.has_reported_module_for_ip(start) {
                self.note_loaded(path, start.saturating_sub(pgoff))
            } else {
                false
            },
            Err(_) => false,
        }
    }

    /// Loads the object of a mapping, once; tells whether it was loaded for the first time.
    pub fn load_mapping(&mut self, mapping: UserMapping<'_>, objects: &ObjectStore) -> (loaded:
        bool)
        requires
            old(self).wf(),
            objects.images.wf(),
        ensures
            final(self).wf(),
            (final(self)@, loaded) == old(self)@.with_mapping(mapping@, objects@),
    {
        let path = objects.unwind_object_path(mapping.path, mapping.build_id);
        if !should_load_unwind_object(path.as_str(), mapping.file_identity) {
            return false;
        }
        if mapping.build_id.is_none() {
            if let Some(prot) = mapping.prot {
                if prot & PROT_EXEC == 0 {
                    return false;
                }
            }
        }
        self.load_file(
            path.as_str(),
            mapping.start,
            mapping.len,
            mapping.pgoff,
            objects,
            Ghost(mapping@),
        )
    }

    /// Reports the object of an address, loading it where it is not yet there.
    pub fn report_module_for_ip(
        &mut self,
        mmap_table: &MmapTable,
        pid: u32,
        ip: u64,
        objects: &ObjectStore,
    ) -> (result: ReportModuleResult)
        requires
            old(self).wf(),
            mmap_table.wf(),
            objects.images.wf(),
        ensures
            final(self).wf(),
            (final(self)@, result) == old(self)@.reporting(mmap_table@, pid, ip, objects@),
    {
        let mapping = match mmap_table.user_mapping_for_pid_ip(pid, ip) {
            Some(mapping) => mapping,
            None => return ReportModuleResult::NoDso,
        };
        if self.object_unwinder.has_reported_module_for_ip(ip) {
            return ReportModuleResult::Reported;
        }
        if self.load_mapping(mapping, objects) {
            ReportModuleResult::Reported
        } else {
            ReportModuleResult::Failed
        }
    }

    /// Reports the objects of frames; tells whether one of them was found.
    pub fn report_modules_for_frames(
        &mut self,
        mmap_table: &MmapTable,
        pid: u32,
        frame_addresses: &[u64],
        objects: &ObjectStore,
    ) -> (loaded: bool)
        requires
            old(self).wf(),
            mmap_table.wf(),
            objects.images.wf(),
        ensures
            final(self).wf(),
            (final(self)@, loaded) == old(self)@.reporting_frames(
                mmap_table@,
                pid,
                frame_addresses@,
                frame_addresses@.len() as int,
                objects@,
            ),
    {
        let ghost start = self@;
        let mut loaded = false;
        let mut i: usize = 0;
        while i < frame_addresses.len()
            invariant
                i <= frame_addresses.len(),
                self.wf(),
                mmap_table.wf(),
                objects.images.wf(),
                (self@, loaded) == start.reporting_frames(
                    mmap_table@,
                    pid,
                    frame_addresses@,
                    i as int,
                    objects@,
                ),
            decreases frame_addresses.len() - i,
        {
            match self.report_module_for_ip(mmap_table, pid, frame_addresses[i], objects) {
                ReportModuleResult::Reported => {
                    loaded = true;
                },
                _ => {},
            }
            i += 1;
        }
        loaded
    }

    fn unwind(&mut self, regs: PerfUserRegs, stack_bytes: &[u8]) -> (frames: Vec<u64>)
        requires
            old(self).wf(),
        ensures
            *final(self) == *old(self),
            frames@ == old(self)@.unwinder.unwound(regs@, stack_bytes@, 256),
    {
        self.object_unwinder.unwind_stack_with_diagnostics(regs, stack_bytes, 256).accepted_frames
    }

    #[verifier::loop_isolation(false)]
    fn settle(
        &mut self,
        mmap_table: &MmapTable,
        pid: u32,
        regs: PerfUserRegs,
        stack_bytes: &[u8],
        first: Vec<u64>,
        objects: &ObjectStore,
    ) -> (frames: Vec<u64>)
        requires
            old(self).wf(),
            mmap_table.wf(),
            objects.images.wf(),
        ensures
            final(self).wf(),
            (final(self)@, frames@) == old(self)@.settled(
                mmap_table@,
                pid,
                regs@,
                stack_bytes@,
                first@,
                MAX_LIBDW_CALLBACK_REPORT_PASSES as nat,
                objects@,
            ),
    {
        let ghost expected = self@.settled(
            mmap_table@,
            pid,
            regs@,
            stack_bytes@,
            first@,
            MAX_LIBDW_CALLBACK_REPORT_PASSES as nat,
            objects@,
        );
        let mut frames = first;
        let mut left: usize = MAX_LIBDW_CALLBACK_REPORT_PASSES;
        while left > 0
            invariant
                self.wf(),
                mmap_table.wf(),
                objects.images.wf(),
                expected == self@.settled(
                    mmap_table@,
                    pid,
                    regs@,
                    stack_bytes@,
                    frames@,
                    left as nat,
                    objects@,
                ),
            decreases left,
        {
            if !self.report_modules_for_frames(mmap_table, pid, frames.as_slice(), objects) {
                return frames;
            }
            let next = self.unwind(regs, stack_bytes);
            if same_addresses(next.as_slice(), frames.as_slice()) {
                return frames;
            }
            frames = next;
            left -= 1;
        }
        frames
    }

    /// Unwinds a captured stack, loading the objects that its frames lie in.
    pub fn unwind_object_frame_addresses(
        &mut self,
        pid: u32,
        mmap_table: &MmapTable,
        objects: &ObjectStore,
        regs: &PerfUserRegs,
        stack_bytes: &[u8],
        context: UserUnwindContext,
    ) -> (frames: Vec<u64>)
        requires
            old(self).wf(),
            mmap_table.wf(),
            objects.images.wf(),
        ensures
            final(self).wf(),
            (final(self)@, frames@) == old(self)@.unwinding(
                mmap_table@,
                pid,
                regs@,
                stack_bytes@,
                context,
                objects@,
            ),
    {
        let policy = object_unwind_initial_frame_policy(Some(pid), regs.ip(), mmap_table);
        match self.report_module_for_ip(mmap_table, pid, regs.ip(), objects) {
            ReportModuleResult::Failed => {
                let nothing: Vec<u64> = Vec::new();
                assert(nothing@ =~= Seq::empty());
                return nothing;
            },
            _ => {},
        }
        let first = self.unwind(*regs, stack_bytes);
        let raw_frames = self.settle(mmap_table, pid, *regs, stack_bytes, first, objects);
        let reported = mmap_table.has_mapping_for_pid(pid, regs.ip())
            && self.object_unwinder.has_reported_module_for_ip(regs.ip());
        let fallback = should_use_libdw_arch_fallback_after_empty_object_unwind(context, reported);
        let raw_frames = libdw_arch_fallback_after_empty_object_unwind(
            raw_frames,
            regs,
            stack_bytes,
            fallback,
        );
        let raw_frames = truncate_syscall_return_unwind_after_first_executable_frame(
            raw_frames,
            Some(pid),
            mmap_table,
            context,
        );
        perf_accepted_object_unwind_frames(regs, context.callchain, policy, raw_frames)
    }
}

fn same_addresses(left: &[u64], right: &[u64]) -> (same: bool)
    ensures
        same == (left@ == right@),
{
    if left.len() != right.len() {
        return false;
    }
    let mut i: usize = 0;
    while i < left.len()
        invariant
            i <= left.len(),
            left@.len() == right@.len(),
            forall|j: int| 0 <= j < i ==> #[trigger] left@[j] == right@[j],
        decreases left.len() - i,
    {
        if left[i] != right[i] {
            return false;
        }
        i += 1;
    }
    assert(left@ =~= right@);
    true
}

// ---------------------------------------------------------------------------
// Laws
// ---------------------------------------------------------------------------

/// A mapping that was tried once is not tried again.
pub proof fn mappings_are_tried_once(
    state: PidModel,
    path: Seq<char>,
    mapping: MappingModel,
    objects: ObjectsModel,
)
    ensures
        state.with_file(path, mapping, objects).0.with_file(path, mapping, objects) == (
            state.with_file(path, mapping, objects).0,
            false,
        ),
{
}

/// The object of a build id lies in a directory that is named by its first two digits, in one
/// that is named by the others.
pub proof fn build_ids_name_directories(
    debug_dir: Seq<char>,
    first: Seq<char>,
    others: Seq<char>,
)
    requires
        first.len() == 2,
    ensures
        build_id_file(debug_dir, first + others) == debug_dir + "/.build-id/"@ + first + "/"@
            + others + "/elf"@,
{
    let hex = first + others;
    assert(hex.subrange(0, 2) =~= first);
    assert(hex.subrange(2, hex.len() as int) =~= others);
}

/// A mapping is unwound with the object of its build id where that one is kept, and with the
/// mapped file otherwise.
pub proof fn kept_objects_are_preferred(
    objects: ObjectsModel,
    path: Seq<char>,
    debug_dir: Seq<char>,
    build_id: Seq<u8>,
)
    requires
        objects.debug_dir == Some(debug_dir),
    ensures
        objects.images.contains_key(build_id_file(debug_dir, hex_text(build_id)))
            ==> objects.object_path(path, Some(build_id)) == build_id_file(
            debug_dir,
            hex_text(build_id),
        ),
        !objects.images.contains_key(build_id_file(debug_dir, hex_text(build_id)))
            ==> objects.object_path(path, Some(build_id)) == path,
        objects.object_path(path, None) == path,
{
}

/// Nothing is unwound for a callchain that leads from the kernel to user code, nor where the
/// object of the sampled address cannot be loaded.
pub proof fn complete_callchains_are_not_unwound(
    state: PidModel,
    mappings: Seq<MappingModel>,
    pid: u32,
    regs: RegsModel,
    stack: Seq<u8>,
    context: UserUnwindContext,
    objects: ObjectsModel,
)
    ensures
        context.callchain == SampleCallchainState::KernelWithUserFrame ==> state.unwinding(
            mappings,
            pid,
            regs,
            stack,
            context,
            objects,
        ).1.len() == 0,
        state.reporting(mappings, pid, regs.ip(), objects).1 == ReportModuleResult::Failed
            ==> state.unwinding(mappings, pid, regs, stack, context, objects).1.len() == 0,
{
}

/// The part of a captured stack that was in use is its beginning, as long as it is said to be;
/// where less was captured there is none.
pub proof fn used_stacks_are_beginnings(stack: UserStackModel)
    ensures
        stack.dynamic_size > stack.bytes.len() ==> used_stack(stack) is None,
        stack.dynamic_size <= stack.bytes.len() ==> {
            &&& used_stack(stack) is Some
            &&& used_stack(stack)->0.len() == stack.dynamic_size
            &&& forall|i: int|
                0 <= i < stack.dynamic_size ==> #[trigger] used_stack(stack)->0[i]
                    == stack.bytes[i]
        },
{
}

/// The base of an object and the offset of a mapping in it give where the mapping starts.
pub proof fn base_and_offset_give_the_start(base: u64, pgoff: u64)
    requires
        base + pgoff <= u64::MAX,
    ensures
        module_base((base + pgoff) as u64, pgoff) == base,
{
}

/// Every frame of a callchain is a mark between contexts, an address in kernel code or one in user
/// code, and only one of these.
pub proof fn frames_are_of_one_kind(frame: u64)
    ensures
        is_marker(frame) || is_kernel_frame(frame) || is_user_frame(frame),
        !(is_kernel_frame(frame) && is_user_frame(frame)),
        is_marker(frame) ==> !is_kernel_frame(frame) && !is_user_frame(frame),
        frame < 0x8000_0000_0000 ==> is_user_frame(frame),
        0xffff_8000_0000_0000 <= frame < 0xffff_ffff_ffff_f000 ==> is_kernel_frame(frame),
{
}

/// A frame is a marker, an address of the kernel or one of a process, and just one of them.
pub proof fn frames_are_of_three_kinds(frame: u64)
    ensures
        is_user_frame(frame) <==> frame < 0xffff_8000_0000_0000,
        is_kernel_frame(frame) <==> !is_user_frame(frame) && !is_marker(frame),
        is_marker(frame) ==> !is_user_frame(frame) && !is_kernel_frame(frame),
{
}

/// What a callchain holds does not depend on the order of its frames, and markers do not count.
/// One with addresses of the kernel and of a process is told apart whatever the sample was taken in.
pub proof fn callchains_are_told_by_what_they_hold(
    misc: u16,
    sample_type: u64,
    left: Seq<u64>,
    right: Seq<u64>,
    marker: u64,
    kernel: u64,
    user: u64,
    has_sample_frames: bool,
)
    requires
        marker >= 0xffff_ffff_ffff_f000,
        0xffff_8000_0000_0000 <= kernel < 0xffff_ffff_ffff_f000,
        user < 0xffff_8000_0000_0000,
    ensures
        callchain_state(misc, sample_type, left + right, has_sample_frames) == callchain_state(
            misc,
            sample_type,
            right + left,
            has_sample_frames,
        ),
        left.len() + right.len() > 0 ==> callchain_state(
            misc,
            sample_type,
            left.push(marker) + right,
            has_sample_frames,
        ) == callchain_state(misc, sample_type, left + right, has_sample_frames),
        (left + right).contains(kernel) && (left + right).contains(user) ==> callchain_state(
            misc,
            sample_type,
            left + right,
            has_sample_frames,
        ) == SampleCallchainState::KernelWithUserFrame,
        callchain_state(misc, sample_type, Seq::empty(), has_sample_frames)
            == SampleCallchainState::KernelWithoutCallchain <==> misc & 7 == 1,
{
    holds_in_either_order(left, right);
    holds_in_either_order(right, left);
    holds_without_markers(left, marker, right);
}

spec fn has_kernel_frame(frames: Seq<u64>) -> bool {
    exists|i: int| 0 <= i < frames.len() && is_kernel_frame(#[trigger] frames[i])
}

spec fn has_user_frame(frames: Seq<u64>) -> bool {
    exists|i: int| 0 <= i < frames.len() && is_user_frame(#[trigger] frames[i])
}

proof fn holds_in_either_order(left: Seq<u64>, right: Seq<u64>)
    ensures
        has_kernel_frame(left + right) <==> has_kernel_frame(left) || has_kernel_frame(right),
        has_user_frame(left + right) <==> has_user_frame(left) || has_user_frame(right),
{
    let both = left + right;
    assert forall|i: int| 0 <= i < left.len() implies both[i] == #[trigger] left[i] by {}
    assert forall|i: int| 0 <= i < right.len() implies both[left.len() + i]
        == #[trigger] right[i] by {}
    if has_kernel_frame(both) {
        let i = choose|i: int| 0 <= i < both.len() && is_kernel_frame(#[trigger] both[i]);
        if i < left.len() {
            assert(is_kernel_frame(left[i]));
        } else {
            assert(is_kernel_frame(right[i - left.len()]));
        }
    }
    if has_user_frame(both) {
        let i = choose|i: int| 0 <= i < both.len() && is_user_frame(#[trigger] both[i]);
        if i < left.len() {
            assert(is_user_frame(left[i]));
        } else {
            assert(is_user_frame(right[i - left.len()]));
        }
    }
}

proof fn holds_without_markers(left: Seq<u64>, marker: u64, right: Seq<u64>)
    requires
        is_marker(marker),
    ensures
        has_kernel_frame(left.push(marker) + right) <==> has_kernel_frame(left + right),
        has_user_frame(left.push(marker) + right) <==> has_user_frame(left + right),
{
    let single = seq![marker];
    assert(left.push(marker) =~= left + single);
    holds_in_either_order(left + single, right);
    holds_in_either_order(left, single);
    holds_in_either_order(left, right);
}

/// The cookie for deferred frames stands at the end, behind the marker for them.
pub proof fn cookies_stand_behind_their_marker(frames: Seq<FoldFrame>, cookie: u64)
    ensures
        deferred_cookie(
            frames.push(FoldFrame::Callchain(0xffff_ffff_ffff_fd80)).push(
                FoldFrame::Callchain(cookie),
            ),
        ) == Some(cookie),
        deferred_cookie(frames) == Some(cookie) ==> frames == frames.take(frames.len() - 2).push(
            FoldFrame::Callchain(0xffff_ffff_ffff_fd80),
        ).push(FoldFrame::Callchain(cookie)),
{
    if deferred_cookie(frames) == Some(cookie) {
        assert(frames =~= frames.take(frames.len() - 2).push(
            FoldFrame::Callchain(0xffff_ffff_ffff_fd80),
        ).push(FoldFrame::Callchain(cookie)));
    }
}

/// A path is that of a shared object by its file name alone: where the name holds `.so`, or ends in
/// a point and `dylib` in letters of either case, behind something else. Its directories do not
/// count.
pub proof fn shared_objects_are_told_by_their_file_names(
    directory: Seq<char>,
    left: Seq<char>,
    right: Seq<char>,
    extension: Seq<char>,
    name: Seq<char>,
)
    requires
        is_free_of(left, '/'),
        is_free_of(right, '/'),
        is_free_of(name, '/'),
        is_free_of(extension, '/'),
        is_free_of(extension, '.'),
        extension.map_values(|c: char| lower_letter(c)) == "dylib"@,
    ensures
        is_shared_object(directory.push('/') + (left + ".so"@ + right)),
        left.len() > 0 ==> is_shared_object(directory.push('/') + left.push('.') + extension),
        is_shared_object(directory.push('/') + name) <==> is_shared_object(name),
        is_free_of(name, '.') ==> !is_shared_object(directory.push('/') + name),
{
    reveal_strlit(".so");
    let object = left + ".so"@ + right;
    assert forall|i: int| 0 <= i < object.len() implies #[trigger] object[i] != '/' by {
        if i < left.len() {
            assert(object[i] == left[i]);
        } else if i >= left.len() + 3 {
            assert(object[i] == right[i - left.len() - 3]);
        } else {
            assert(object[i] == ".so"@[i - left.len()]);
        }
    }
    file_names_stand_behind_the_last_separator(directory, object);
    holding_is_being_between(object, ".so"@);
    let library = left.push('.') + extension;
    assert forall|i: int| 0 <= i < library.len() implies #[trigger] library[i] != '/' by {
        if i < left.len() {
            assert(library[i] == left[i]);
        } else if i > left.len() {
            assert(library[i] == extension[i - left.len() - 1]);
        }
    }
    file_names_stand_behind_the_last_separator(directory, library);
    assert(directory.push('/') + left.push('.') + extension =~= directory.push('/') + library);
    character_is_found_last(left, '.', extension);
    assert(left + seq!['.'] + extension =~= library);
    assert(library.subrange(left.len() as int + 1, library.len() as int) =~= extension);
    file_names_stand_behind_the_last_separator(directory, name);
    if is_free_of(name, '.') {
        character_is_found_last(Seq::empty(), '.', name);
        holding_is_being_between(name, ".so"@);
        if holds_text(name, ".so"@) {
            let (front, behind) = choose|front: Seq<char>, behind: Seq<char>|
                name == #[trigger] (front + ".so"@ + behind);
            assert((front + ".so"@ + behind)[front.len() as int] == '.');
            assert(name[front.len() as int] == '.');
        }
    }
}

/// An address in an object that is there loads nothing; one without a mapping loads nothing and is
/// in no object; one in a mapping of no file, or of a file without code, loads nothing and fails.
pub proof fn objects_are_loaded_where_they_are_needed(
    state: PidModel,
    mappings: Seq<MappingModel>,
    pid: u32,
    ip: u64,
    objects: ObjectsModel,
)
    requires
        objects.debug_dir is None,
    ensures
        ({
            let (after, result) = state.reporting(mappings, pid, ip, objects);
            match resolved(mappings, pid, ip) {
                None => after == state && result == ReportModuleResult::NoDso,
                Some(at) => {
                    &&& result != ReportModuleResult::NoDso
                    &&& state.unwinder.reports(ip) ==> after == state && result
                        == ReportModuleResult::Reported
                    &&& !state.unwinder.reports(ip) && mappings[at].path.len() > 0
                        && mappings[at].path[0] == '[' ==> after == state && result
                        == ReportModuleResult::Failed
                    &&& !state.unwinder.reports(ip) && mappings[at].build_id is None && (
                    mappings[at].prot matches Some(prot) && prot & 4 == 0) ==> after == state
                        && result == ReportModuleResult::Failed
                },
            }
        }),
{
    if let Some(at) = resolved(mappings, pid, ip) {
        let path = mappings[at].path;
        reveal_strlit("[");
        if path.len() > 0 && path[0] == '[' {
            assert(path =~= "["@ + path.subrange(1, path.len() as int));
        }
        beginning_is_being_in_front(path, "["@);
    }
}

/// The architecture's own walk takes the place of frames only where it is allowed to and nothing
/// beyond the sampled address was unwound; other frames stay.
pub proof fn unwound_frames_are_not_replaced(
    frames: Seq<u64>,
    regs: RegsModel,
    stack: Seq<u8>,
    enabled: bool,
)
    ensures
        !enabled || frames.len() > 1 ==> with_arch_fallback(frames, regs, stack, enabled) == frames,
        frames.len() == 1 && (regs is X86_64 || frames[0] != regs.ip()) ==> with_arch_fallback(
            frames,
            regs,
            stack,
            enabled,
        ) == frames,
        enabled && frames.len() == 0 ==> with_arch_fallback(frames, regs, stack, enabled) == (
        match regs {
            RegsModel::X86_64(regs) => if regs.bp < regs.sp {
                Seq::empty()
            } else {
                x86_walk(regs, stack, 256)
            },
            RegsModel::Aarch64(regs) => aarch64_walk(regs, stack, 256),
        }),
{
    assert(frames.len() == 0 ==> frames =~= Seq::empty());
}

} // verus!
