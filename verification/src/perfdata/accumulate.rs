//! Stacks gathered from records: names, mappings, unwound frames and deferred callchains.

use std::collections::BTreeMap;

use vstd::prelude::*;
use vstd::std_specs::btree::{axiom_increasing_seq_meaning, increasing_seq};
use vstd::std_specs::cmp::OrdSpec;
use vstd::std_specs::iter::IteratorSpec;

use crate::perfdata::layouts::{EventModel, LayoutsModel, SampleEventLayout, SampleLayouts};
use crate::perfdata::mappings::{
    answer, build_id_mapping, child_answers_like_parent, inode_mapping, is_perf_data,
    is_perf_data_path, overlaps_user_file, plain_mapping, resolved, MappingModel, MmapTable,
    TableModel,
};
use crate::perfdata::order::deferred_callchain_tid;
use crate::perfdata::raw_stack::{stack_key, with_count, RawStackAccumulator, StackKey};
use crate::perfdata::records::{CommModel, CommRecord, ForkRecord, ParsedModel, ParsedRecord};
use crate::perfdata::samples::{
    is_marker, is_perf_context_marker, parse_sample_record_callchain, sample_callchain_of,
    CallchainModel, SampleCallchain, SampleLayout, PERF_SAMPLE_CALLCHAIN,
};
use crate::perfdata::unwind::{
    syscall_return_state, user_regs_of, PerfArch, PerfUserRegs, RegsModel,
};
use crate::perfdata::unwinding::{
    append_callchain_frames, callchain_frames, callchain_state, choose_user_unwind_source,
    deferred_cookie, has_perf_captured_user_stack, initial_frame_policy, mappings_are_tried_once,
    module_base,
    object_unwind_initial_frame_policy, perf_effective_user_stack_bytes, sample_callchain_state,
    take_deferred_cookie, truncate_user_unwind_at_first_unmapped_frame, unwind_source,
    used_stack, was_captured, FoldFrame, InitialIpMappingState, ObjectStore,
    ObjectUnwindInitialFramePolicy, ObjectsModel, PidModel, PidUnwindState,
    SampleCallchainPresence, UserUnwindContext, UserUnwindSource,
};
use crate::tables::{IdMap, NamedBytes};
use crate::text::{
    decimal, looked_up, push_decimal, same_text, text_view, texts, texts_of_insert, views,
};

verus! {

broadcast use {
    vstd::std_specs::control_flow::group_control_flow_axioms,
    vstd::std_specs::btree::group_btree_axioms,
};

/// How stacks are folded.
#[derive(Clone, Copy, Debug, Eq, PartialEq)]
pub struct FoldOptions {
    pub count_periods: bool,
    /// When set, expand each callchain entry into its DWARF inline frames,
    /// mirroring `perf script --inline`. Off by default: plain `perf script`
    /// prints exactly one line per callchain entry, named from the ELF symtab.
    pub inline: bool,
}

impl Default for FoldOptions {
    fn default() -> (options: FoldOptions)
        ensures
            options == (FoldOptions { count_periods: false, inline: false }),
    {
        FoldOptions { count_periods: false, inline: false }
    }
}

/// What a sample counts: its period where periods are counted and it has one, or else one.
pub open spec fn fold_count(period: Option<u64>, options: FoldOptions) -> u64 {
    match period {
        Some(period) => if options.count_periods {
            period
        } else {
            1
        },
        None => 1,
    }
}

/// What a sample counts.
#[must_use]
pub fn sample_fold_count(period: Option<u64>, options: FoldOptions) -> (count: u64)
    ensures
        count == fold_count(period, options),
{
    match period {
        Some(period) => if options.count_periods {
            period
        } else {
            1
        },
        None => 1,
    }
}

// ---------------------------------------------------------------------------
// Names
// ---------------------------------------------------------------------------

/// The name of a sample's thread: the recorded one, or else its number behind a colon.
pub open spec fn comm_for(thread_comms: Map<u32, Seq<char>>, tid: Option<u32>) -> Option<
    Seq<char>,
> {
    match tid {
        None => None,
        Some(tid) => match looked_up(thread_comms, tid) {
            Some(comm) => Some(comm),
            None => Some(":"@ + decimal(tid as nat)),
        },
    }
}

/// Finds the name of a sample's thread.
pub fn comm_for_ids(thread_comms: &BTreeMap<u32, String>, tid: Option<u32>) -> (comm: Option<
    String,
>)
    ensures
        text_view(comm) == comm_for(texts(thread_comms@), tid),
{
    match tid {
        None => None,
        Some(tid) => match thread_comms.get(&tid) {
            Some(comm) => Some(comm.clone()),
            None => {
                let mut comm = ":".to_string();
                push_decimal(&mut comm, tid as u128);
                Some(comm)
            },
        },
    }
}

// ---------------------------------------------------------------------------
// Samples
// ---------------------------------------------------------------------------

/// A sample whose frames are known, perhaps but for user frames that a later record delivers
/// under a cookie.
#[derive(Clone, Debug)]
pub struct PreparedFoldSample {
    pub pid: Option<u32>,
    pub tid: Option<u32>,
    pub time: Option<u64>,
    pub cpu: Option<u32>,
    pub comm: Option<String>,
    pub event_name: String,
    pub count: u64,
    pub frames: Vec<FoldFrame>,
    pub deferred_cookie: Option<u64>,
    pub has_callchain: bool,
}

/// The contents of a [`PreparedFoldSample`].
#[verifier::ext_equal]
pub struct PreparedModel {
    pub pid: Option<u32>,
    pub tid: Option<u32>,
    pub time: Option<u64>,
    pub cpu: Option<u32>,
    pub comm: Option<Seq<char>>,
    pub event_name: Seq<char>,
    pub count: u64,
    pub frames: Seq<FoldFrame>,
    pub deferred_cookie: Option<u64>,
    pub has_callchain: bool,
}

impl View for PreparedFoldSample {
    type V = PreparedModel;

    open spec fn view(&self) -> PreparedModel {
        PreparedModel {
            pid: self.pid,
            tid: self.tid,
            time: self.time,
            cpu: self.cpu,
            comm: text_view(self.comm),
            event_name: self.event_name@,
            count: self.count,
            frames: self.frames@,
            deferred_cookie: self.deferred_cookie,
            has_callchain: self.has_callchain,
        }
    }
}

impl PreparedModel {
    /// The sample with its deferred frames.
    pub open spec fn completed(self, ips: Seq<u64>) -> PreparedModel {
        PreparedModel {
            frames: self.frames + callchain_frames(ips),
            deferred_cookie: None,
            ..self
        }
    }
}

/// The samples that wait under each cookie.
pub open spec fn waiting(deferred: Map<u64, Vec<PreparedFoldSample>>) -> Map<
    u64,
    Seq<PreparedModel>,
> {
    Map::new(|cookie: u64| deferred.contains_key(cookie), |cookie: u64| views(deferred[cookie]@))
}

/// Whether cookies are all those that samples wait under, in increasing order.
pub open spec fn orders_cookies(
    cookies: Seq<u64>,
    deferred: Map<u64, Seq<PreparedModel>>,
) -> bool {
    &&& forall|i: int, j: int|
        #![trigger cookies[i], cookies[j]]
        0 <= i < j < cookies.len() ==> cookies[i] < cookies[j]
    &&& forall|cookie: u64| #[trigger] cookies.contains(cookie) <==> deferred.contains_key(cookie)
}

/// The samples that wait under the first `count` cookies.
pub open spec fn flattened(
    cookies: Seq<u64>,
    deferred: Map<u64, Seq<PreparedModel>>,
    count: int,
) -> Seq<PreparedModel>
    decreases count,
{
    if count <= 0 {
        Seq::empty()
    } else {
        flattened(cookies, deferred, count - 1) + deferred[cookies[count - 1]]
    }
}

/// All samples that wait, in the order of their cookies.
pub open spec fn in_cookie_order(deferred: Map<u64, Seq<PreparedModel>>) -> Seq<PreparedModel> {
    let cookies = choose|cookies: Seq<u64>| orders_cookies(cookies, deferred);
    flattened(cookies, deferred, cookies.len() as int)
}

/// Cookies have only one order.
proof fn cookie_order_is_unique(
    left: Seq<u64>,
    right: Seq<u64>,
    deferred: Map<u64, Seq<PreparedModel>>,
    count: int,
)
    requires
        orders_cookies(left, deferred),
        orders_cookies(right, deferred),
        0 <= count <= left.len(),
        count <= right.len(),
        forall|i: int| 0 <= i < count ==> #[trigger] left[i] == right[i],
    ensures
        left == right,
    decreases left.len() - count,
{
    if count < left.len() {
        assert(left.contains(left[count]));
        assert(right.contains(left[count]));
        let j = choose|j: int| 0 <= j < right.len() && right[j] == left[count];
        if j < count {
            assert(left[j] < left[count]);
        }
        assert(right.contains(right[count]));
        assert(left.contains(right[count]));
        let i = choose|i: int| 0 <= i < left.len() && left[i] == right[count];
        if i < count {
            assert(right[i] < right[count]);
        }
        if i > count && j > count {
            assert(left[count] < left[i]);
            assert(right[count] < right[j]);
        }
        cookie_order_is_unique(left, right, deferred, count + 1);
    } else {
        if count < right.len() {
            assert(right.contains(right[count]));
            assert(left.contains(right[count]));
            let i = choose|i: int| 0 <= i < left.len() && left[i] == right[count];
            assert(right[i] < right[count]);
        }
        assert(left =~= right);
    }
}

/// Whether a deferred callchain is meant for a sample: it names no thread, or that of the
/// sample.
pub open spec fn is_meant_for(tid: Option<u32>, sample: PreparedModel) -> bool {
    tid is None || tid == sample.tid
}

// ---------------------------------------------------------------------------
// Stacks
// ---------------------------------------------------------------------------

/// Whether unwound frames in a mapping are left out: a recording, or memory without a file.
pub open spec fn is_dropped_path(path: Seq<char>) -> bool {
    is_perf_data(path) || path == "//anon"@ || path == "[anon]"@ || path == "[stack]"@ || path
        == "[heap]"@
}

/// Tells whether unwound frames in a mapping are left out.
pub fn should_drop_user_unwind_mapping_path(path: &str) -> (found: bool)
    ensures
        found == is_dropped_path(path@),
{
    is_perf_data_path(path) || same_text(path, "//anon") || same_text(path, "[anon]")
        || same_text(path, "[stack]") || same_text(path, "[heap]")
}

/// Whether a frame is left out: an unwound one in such a mapping.
pub open spec fn is_dropped(
    mappings: Seq<MappingModel>,
    pid: Option<u32>,
    frame: FoldFrame,
) -> bool {
    &&& !(frame is Callchain)
    &&& pid matches Some(pid) && resolved(mappings, pid, frame.at()) matches Some(index)
        && is_dropped_path(mappings[index].path)
}

/// Tells whether a frame is left out.
pub fn should_drop_perf_data_user_unwind_frame(
    pid: Option<u32>,
    frame: FoldFrame,
    mmap_table: &MmapTable,
) -> (found: bool)
    requires
        mmap_table.wf(),
    ensures
        found == is_dropped(mmap_table@, pid, frame),
{
    match frame {
        FoldFrame::Callchain(_) => false,
        _ => match pid {
            None => false,
            Some(pid) => match mmap_table.mapping_path(pid, frame.address()) {
                Some(path) => should_drop_user_unwind_mapping_path(path),
                None => false,
            },
        },
    }
}

/// The first `count` frames from the root to the leaf, without context markers and frames that
/// are left out.
pub open spec fn rooted(
    frames: Seq<FoldFrame>,
    mappings: Seq<MappingModel>,
    pid: Option<u32>,
    count: int,
) -> Seq<FoldFrame>
    decreases count,
{
    if count <= 0 {
        Seq::empty()
    } else {
        let frame = frames[count - 1];
        let rest = rooted(frames, mappings, pid, count - 1);
        if is_marker(frame.at()) || is_dropped(mappings, pid, frame) {
            rest
        } else {
            seq![frame] + rest
        }
    }
}

/// Counts with those of a sample's stack, where it has frames.
pub open spec fn with_stack(
    stacks: Map<StackKey<FoldFrame>, u64>,
    mappings: Seq<MappingModel>,
    sample: PreparedModel,
) -> Map<StackKey<FoldFrame>, u64> {
    let callchain = rooted(sample.frames, mappings, sample.pid, sample.frames.len() as int);
    if callchain.len() > 0 {
        with_count(stacks, (sample.pid, sample.comm, callchain), sample.count)
    } else {
        stacks
    }
}

/// Adds a sample's stack to the counts.
pub fn add_fold_stack(
    sample: &PreparedFoldSample,
    mmap_table: &MmapTable,
    raw_stacks: &mut RawStackAccumulator<FoldFrame>,
)
    requires
        mmap_table.wf(),
        old(raw_stacks).wf(),
    ensures
        final(raw_stacks).wf(),
        final(raw_stacks)@ == with_stack(old(raw_stacks)@, mmap_table@, sample@),
{
    let mut callchain: Vec<FoldFrame> = Vec::with_capacity(sample.frames.len());
    let ghost whole = rooted(
        sample.frames@,
        mmap_table@,
        sample.pid,
        sample.frames@.len() as int,
    );
    let mut left: usize = sample.frames.len();
    assert(callchain@ + whole =~= whole);
    while left > 0
        invariant
            left <= sample.frames@.len(),
            mmap_table.wf(),
            whole == callchain@ + rooted(
                sample.frames@,
                mmap_table@,
                sample.pid,
                left as int,
            ),
        decreases left,
    {
        let frame = sample.frames[left - 1];
        left -= 1;
        if is_perf_context_marker(frame.address()) {
            continue ;
        }
        if should_drop_perf_data_user_unwind_frame(sample.pid, frame, mmap_table) {
            continue ;
        }
        let ghost before = callchain@;
        callchain.push(frame);
        proof {
            let rest = rooted(sample.frames@, mmap_table@, sample.pid, left as int);
            assert(before + (seq![frame] + rest) =~= callchain@ + rest);
        }
    }
    assert(callchain@ + Seq::<FoldFrame>::empty() =~= callchain@);
    if callchain.len() > 0 {
        let comm: Option<&str> = match &sample.comm {
            Some(comm) => Some(comm.as_str()),
            None => None,
        };
        assert(stack_key(sample.pid, comm, callchain@) == (
            sample@.pid,
            sample@.comm,
            callchain@,
        ));
        raw_stacks.add_slice_with_borrowed_comm(
            sample.pid,
            comm,
            callchain.as_slice(),
            sample.count,
        );
    }
}

/// Addresses of an unwound stack as frames: the sampled address, where it comes first, as such.
pub open spec fn unwound_as_frames(addresses: Seq<u64>, ip: u64) -> Seq<FoldFrame> {
    Seq::new(
        addresses.len(),
        |i: int|
            if i == 0 && addresses[i] == ip {
                FoldFrame::InlineCurrentIp(addresses[i])
            } else {
                FoldFrame::UserUnwind(addresses[i])
            },
    )
}

fn unwound_frames(addresses: &Vec<u64>, ip: u64) -> (frames: Vec<FoldFrame>)
    ensures
        frames@ == unwound_as_frames(addresses@, ip),
{
    let mut frames: Vec<FoldFrame> = Vec::with_capacity(addresses.len());
    let mut i: usize = 0;
    while i < addresses.len()
        invariant
            i <= addresses@.len(),
            frames@.len() == i,
            forall|j: int|
                0 <= j < i ==> #[trigger] frames@[j] == unwound_as_frames(addresses@, ip)[j],
        decreases addresses@.len() - i,
    {
        if i == 0 && addresses[i] == ip {
            frames.push(FoldFrame::InlineCurrentIp(addresses[i]));
        } else {
            frames.push(FoldFrame::UserUnwind(addresses[i]));
        }
        i += 1;
    }
    assert(frames@ =~= unwound_as_frames(addresses@, ip));
    frames
}

// ---------------------------------------------------------------------------
// Unwinders by process
// ---------------------------------------------------------------------------

/// The unwinders of processes.
pub struct PidStates {
    slots: IdMap,
    states: Vec<Option<PidUnwindState>>,
}

impl View for PidStates {
    type V = Map<u32, PidModel>;

    closed spec fn view(&self) -> Map<u32, PidModel> {
        Map::new(
            |pid: u32|
                self.slots@.contains_key(pid as u64) && self.states@[self.slots@[pid as u64] as int] is Some,
            |pid: u32| self.states@[self.slots@[pid as u64] as int].unwrap()@,
        )
    }
}

impl PidStates {
    /// Whether each process has a place of its own, and all unwinders are in order.
    pub closed spec fn wf(&self) -> bool {
        &&& self.states@.len() == self.states.len()
        &&& forall|key: u64| #[trigger]
            self.slots@.contains_key(key) ==> self.slots@[key] < self.states@.len()
        &&& forall|a: u64, b: u64|
            #![trigger self.slots@[a], self.slots@[b]]
            self.slots@.contains_key(a) && self.slots@.contains_key(b) && self.slots@[a]
                == self.slots@[b] ==> a == b
        &&& forall|i: int|
            0 <= i < self.states@.len() ==> ((#[trigger] self.states@[i]) matches Some(state)
                ==> state.wf())
    }

    /// No unwinders.
    #[must_use]
    pub fn new() -> (states: PidStates)
        ensures
            states.wf(),
            states@ == Map::<u32, PidModel>::empty(),
    {
        let states = PidStates { slots: IdMap::new(), states: Vec::new() };
        assert(states@ =~= Map::empty());
        states
    }

    /// The unwinder of a process.
    #[must_use]
    pub fn get(&self, pid: u32) -> (state: Option<&PidUnwindState>)
        requires
            self.wf(),
        ensures
            match state {
                Some(state) => self@.contains_key(pid) && self@[pid] == state@ && state.wf(),
                None => !self@.contains_key(pid),
            },
    {
        match self.slots.get(pid as u64) {
            Some(slot) => {
                assert(self.slots@.contains_key(pid as u64));
                self.states[slot as usize].as_ref()
            },
            None => None,
        }
    }

    /// Takes the unwinder of a process out.
    pub fn take(&mut self, pid: u32) -> (state: Option<PidUnwindState>)
        requires
            old(self).wf(),
        ensures
            final(self).wf(),
            final(self)@ == old(self)@.remove(pid),
            match state {
                Some(state) => old(self)@.contains_key(pid) && old(self)@[pid] == state@
                    && state.wf(),
                None => !old(self)@.contains_key(pid),
            },
    {
        let ghost before = *self;
        match self.slots.get(pid as u64) {
            Some(slot) => {
                assert(self.slots@.contains_key(pid as u64));
                let mut state: Option<PidUnwindState> = None;
                std::mem::swap(&mut state, &mut self.states[slot as usize]);
                proof {
                    assert forall|other: u32| other != pid implies (#[trigger] self@.contains_key(
                        other,
                    ) <==> before@.contains_key(other)) && (before@.contains_key(other) ==> self@[other]
                        == before@[other]) by {
                        if self.slots@.contains_key(other as u64) {
                            assert(self.slots@[other as u64] != self.slots@[pid as u64]);
                        }
                    }
                    assert(self@ =~= before@.remove(pid));
                }
                state
            },
            None => {
                assert(self@ =~= before@.remove(pid));
                None
            },
        }
    }

    /// Enters the unwinder of a process.
    pub fn put(&mut self, pid: u32, state: PidUnwindState)
        requires
            old(self).wf(),
            state.wf(),
        ensures
            final(self).wf(),
            final(self)@ == old(self)@.insert(pid, state@),
    {
        let ghost before = *self;
        let model: Ghost<PidModel> = Ghost(state@);
        match self.slots.get(pid as u64) {
            Some(slot) => {
                assert(self.slots@.contains_key(pid as u64));
                self.states.set(slot as usize, Some(state));
            },
            None => {
                let slot: usize = self.states.len();
                self.states.push(Some(state));
                self.slots.insert(pid as u64, slot as u64);
                let total: usize = self.states.len();
            },
        }
        proof {
            assert forall|key: u64| #[trigger] self.slots@.contains_key(key) implies self.slots@[key]
                < self.states@.len() by {
                if key != pid {
                    assert(before.slots@.contains_key(key));
                }
            }
            assert forall|a: u64, b: u64|
                #![trigger self.slots@[a], self.slots@[b]]
                self.slots@.contains_key(a) && self.slots@.contains_key(b) && self.slots@[a]
                    == self.slots@[b] implies a == b by {
                if a != pid {
                    assert(before.slots@.contains_key(a));
                    assert(before.slots@[a] == self.slots@[a]);
                }
                if b != pid {
                    assert(before.slots@.contains_key(b));
                    assert(before.slots@[b] == self.slots@[b]);
                }
            }
            assert forall|other: u32| other != pid implies (#[trigger] self@.contains_key(other)
                <==> before@.contains_key(other)) && (before@.contains_key(other) ==> self@[other]
                == before@[other]) by {
                if self.slots@.contains_key(other as u64) {
                    assert(before.slots@.contains_key(other as u64));
                    assert(self.slots@[other as u64] != self.slots@[pid as u64]);
                }
            }
            assert(self@ =~= before@.insert(pid, model@));
        }
    }
}

// ---------------------------------------------------------------------------
// The accumulator
// ---------------------------------------------------------------------------

/// What records have told so far.
#[verifier::ext_equal]
pub struct FoldModel {
    pub process_comms: Map<u32, Seq<char>>,
    pub exec_process_comms: Map<u32, Seq<char>>,
    pub thread_comms: Map<u32, Seq<char>>,
    pub table: TableModel,
    pub states: Map<u32, PidModel>,
    pub build_ids: Map<Seq<char>, Seq<u8>>,
    pub stacks: Map<StackKey<FoldFrame>, u64>,
    pub deferred: Map<u64, Seq<PreparedModel>>,
    pub arch: PerfArch,
}

/// What is needed to unwind a sample's captured stack: its registers and its used bytes.
pub open spec fn captured(arch: PerfArch, layout: SampleLayout, sample: CallchainModel) -> Option<
    RegsModel,
> {
    match (sample.user_regs, sample.user_stack) {
        (Some(regs), Some(stack)) => if was_captured(stack) {
            match user_regs_of(arch, layout.sample_regs_user, regs.values) {
                Ok(regs) => Some(regs),
                Err(_) => None,
            }
        } else {
            None
        },
        _ => None,
    }
}

impl FoldModel {
    /// What no records have told.
    pub open spec fn nothing(build_ids: Map<Seq<char>, Seq<u8>>, arch: PerfArch) -> FoldModel {
        FoldModel {
            process_comms: Map::empty(),
            exec_process_comms: Map::empty(),
            thread_comms: Map::empty(),
            table: TableModel { mappings: Seq::empty(), sources: Map::empty() },
            states: Map::empty(),
            build_ids,
            stacks: Map::empty(),
            deferred: Map::empty(),
            arch,
        }
    }

    /// After a name was recorded.
    pub open spec fn named(self, record: CommModel) -> FoldModel {
        FoldModel {
            exec_process_comms: if record.is_exec {
                self.exec_process_comms.insert(record.pid, record.comm)
            } else {
                self.exec_process_comms
            },
            process_comms: self.process_comms.insert(record.pid, record.comm),
            thread_comms: self.thread_comms.insert(record.tid, record.comm),
            ..self
        }
    }

    /// After a child process took over names: its thread that of the parent's thread, its
    /// process that of the child's thread, and the parent's name from an `exec`.
    pub open spec fn inherited_names(self, record: ForkRecord) -> FoldModel {
        let thread_comms = match looked_up(self.thread_comms, record.ptid) {
            Some(comm) => self.thread_comms.insert(record.tid, comm),
            None => self.thread_comms,
        };
        FoldModel {
            thread_comms,
            process_comms: match looked_up(thread_comms, record.tid) {
                Some(comm) => self.process_comms.insert(record.pid, comm),
                None => self.process_comms,
            },
            exec_process_comms: match looked_up(self.exec_process_comms, record.ppid) {
                Some(comm) => self.exec_process_comms.insert(record.pid, comm),
                None => self.exec_process_comms,
            },
            ..self
        }
    }

    /// After a process was forked: a fresh unwinder, and the parent's mappings where they are
    /// kept.
    pub open spec fn forked(self, record: ForkRecord) -> FoldModel {
        let named = self.inherited_names(record);
        FoldModel {
            states: self.states.remove(record.pid),
            table: if record.clone_maps {
                self.table.inherited(record.ppid, record.pid)
            } else {
                self.table
            },
            ..named
        }
    }

    /// After a mapping was recorded: one that overlaps a mapped file of the process makes its
    /// unwinder stale.
    pub open spec fn mapped(self, mapping: MappingModel) -> FoldModel {
        let stale = overlaps_user_file(
            self.table.mappings,
            mapping.pid,
            mapping.start,
            mapping.len,
        );
        FoldModel {
            states: if stale {
                self.states.remove(mapping.pid)
            } else {
                self.states
            },
            table: self.table.with(mapping),
            ..self
        }
    }

    /// The build id of a file.
    pub open spec fn build_id_of(self, path: Seq<char>) -> Option<Seq<u8>> {
        if self.build_ids.contains_key(path) {
            Some(self.build_ids[path])
        } else {
            None
        }
    }

    /// The unwinder of a process, or a fresh one.
    pub open spec fn state_of(self, pid: u32) -> PidModel {
        if self.states.contains_key(pid) {
            self.states[pid]
        } else {
            PidModel::fresh(self.arch)
        }
    }

    /// After the object of the sampled address was loaded.
    pub open spec fn ensured(self, pid: Option<u32>, ip: u64, objects: ObjectsModel) -> FoldModel {
        match pid {
            None => self,
            Some(pid) => match resolved(self.table.mappings, pid, ip) {
                None => self,
                Some(index) => FoldModel {
                    states: self.states.insert(
                        pid,
                        self.state_of(pid).with_mapping(self.table.mappings[index], objects).0,
                    ),
                    ..self
                },
            },
        }
    }

    /// Whether the object of an address is loaded.
    pub open spec fn has_loaded(self, pid: Option<u32>, ip: u64, objects: ObjectsModel) -> bool {
        &&& pid is Some
        &&& resolved(self.table.mappings, pid->0, ip) matches Some(index) && {
            let mapping = self.table.mappings[index];
            &&& self.states.contains_key(pid->0)
            &&& self.states[pid->0].loaded.contains(
                (
                    objects.object_path(mapping.path, mapping.build_id),
                    module_base(mapping.start, mapping.pgoff),
                ),
            )
        }
    }

    /// What is known of the mapping that an address lies in.
    pub open spec fn mapping_state(
        self,
        pid: Option<u32>,
        ip: u64,
        objects: ObjectsModel,
    ) -> InitialIpMappingState {
        if pid is None || resolved(self.table.mappings, pid->0, ip) is None {
            InitialIpMappingState::NoRecordedMapping
        } else if self.has_loaded(pid, ip, objects) {
            InitialIpMappingState::RecordedMappingLoaded
        } else {
            InitialIpMappingState::RecordedMappingMissing
        }
    }

    /// What decides how a sample's captured stack is unwound.
    pub open spec fn context(
        self,
        misc: u16,
        layout: SampleLayout,
        sample: CallchainModel,
        regs: RegsModel,
        has_frames: bool,
        objects: ObjectsModel,
    ) -> UserUnwindContext {
        UserUnwindContext {
            sample_callchain: if layout.sample_type & PERF_SAMPLE_CALLCHAIN != 0 {
                SampleCallchainPresence::Present
            } else {
                SampleCallchainPresence::Absent
            },
            callchain: callchain_state(misc, layout.sample_type, sample.frames, has_frames),
            initial_ip_mapping: self.mapping_state(sample.pid, regs.ip(), objects),
            initial_ip_is_dso: initial_frame_policy(self.table.mappings, sample.pid, regs.ip())
                == ObjectUnwindInitialFramePolicy::KeepDsoLeaf,
            module_count: match sample.pid {
                Some(pid) => if self.states.contains_key(pid) {
                    self.states[pid].unwinder.modules.len() as usize
                } else {
                    0
                },
                None => 0,
            },
            frame_pointer_at_or_above_stack_pointer: regs matches RegsModel::X86_64(regs)
                && regs.bp >= regs.sp,
            syscall_return_state: regs matches RegsModel::X86_64(regs) && syscall_return_state(
                regs,
            ),
        }
    }

    /// After a sample's captured stack was unwound, and its frames.
    pub open spec fn unwound(
        self,
        misc: u16,
        layout: SampleLayout,
        sample: CallchainModel,
        has_frames: bool,
        objects: ObjectsModel,
    ) -> (FoldModel, Seq<FoldFrame>) {
        match captured(self.arch, layout, sample) {
            None => (self, Seq::empty()),
            Some(regs) => {
                let ready = self.ensured(sample.pid, regs.ip(), objects);
                let context = ready.context(misc, layout, sample, regs, has_frames, objects);
                match (used_stack(sample.user_stack->0), sample.pid) {
                    (Some(stack), Some(pid)) => if unwind_source(context)
                        == UserUnwindSource::Object {
                        let (state, addresses) = ready.state_of(pid).unwinding(
                            ready.table.mappings,
                            pid,
                            regs,
                            stack,
                            context,
                            objects,
                        );
                        (
                            FoldModel { states: ready.states.insert(pid, state), ..ready },
                            unwound_as_frames(addresses, regs.ip()),
                        )
                    } else {
                        (ready, Seq::empty())
                    },
                    _ => (ready, Seq::empty()),
                }
            },
        }
    }

    /// After a sample with a callchain was read, and what was made of it.
    pub open spec fn prepared_from(
        self,
        misc: u16,
        event: EventModel,
        sample: CallchainModel,
        options: FoldOptions,
        objects: ObjectsModel,
    ) -> (FoldModel, PreparedModel) {
        let recorded = callchain_frames(sample.frames);
        let cookie = deferred_cookie(recorded);
        let frames = if cookie is Some {
            recorded.drop_last()
        } else {
            recorded
        };
        let (after, unwound) = self.unwound(
            misc,
            event.layout,
            sample,
            frames.len() > 0,
            objects,
        );
        (
            after,
            PreparedModel {
                pid: sample.pid,
                tid: sample.tid,
                time: sample.time,
                cpu: sample.cpu,
                comm: comm_for(self.thread_comms, sample.tid),
                event_name: event.event_name,
                count: fold_count(sample.period, options),
                frames: frames + unwound,
                deferred_cookie: cookie,
                has_callchain: event.layout.sample_type & PERF_SAMPLE_CALLCHAIN != 0,
            },
        )
    }

    /// After a sample was read, and what was made of it: nothing without an event or without a
    /// callchain.
    pub open spec fn prepared(
        self,
        misc: u16,
        payload: Seq<u8>,
        layouts: LayoutsModel,
        options: FoldOptions,
        objects: ObjectsModel,
    ) -> Result<(FoldModel, Option<PreparedModel>), Seq<char>> {
        match layouts.event_for(payload) {
            Err(error) => Err(error),
            Ok(None) => Ok((self, None)),
            Ok(Some(index)) => match sample_callchain_of(payload, layouts.events[index].layout) {
                Err(error) => Err(error),
                Ok(None) => Ok((self, None)),
                Ok(Some(sample)) => {
                    let (after, prepared) = self.prepared_from(
                        misc,
                        layouts.events[index],
                        sample,
                        options,
                        objects,
                    );
                    Ok((after, Some(prepared)))
                },
            },
        }
    }

    /// After a sample was put off until the record with its cookie.
    pub open spec fn put_off(self, cookie: u64, sample: PreparedModel) -> FoldModel {
        FoldModel {
            deferred: self.deferred.insert(
                cookie,
                (if self.deferred.contains_key(cookie) {
                    self.deferred[cookie]
                } else {
                    Seq::empty()
                }).push(sample),
            ),
            ..self
        }
    }

    /// After a sample's stack was counted.
    pub open spec fn counted(self, sample: PreparedModel) -> FoldModel {
        FoldModel { stacks: with_stack(self.stacks, self.table.mappings, sample), ..self }
    }

    /// The samples among the first `count` that a deferred callchain completes.
    pub open spec fn completed(
        samples: Seq<PreparedModel>,
        tid: Option<u32>,
        ips: Seq<u64>,
        count: int,
    ) -> Seq<PreparedModel>
        decreases count,
    {
        if count <= 0 {
            Seq::empty()
        } else {
            let before = FoldModel::completed(samples, tid, ips, count - 1);
            if is_meant_for(tid, samples[count - 1]) {
                before.push(samples[count - 1].completed(ips))
            } else {
                before
            }
        }
    }

    /// The samples that a deferred callchain completes.
    pub open spec fn released(self, cookie: u64, tid: Option<u32>, ips: Seq<u64>) -> Seq<
        PreparedModel,
    > {
        if self.deferred.contains_key(cookie) {
            FoldModel::completed(
                self.deferred[cookie],
                tid,
                ips,
                self.deferred[cookie].len() as int,
            )
        } else {
            Seq::empty()
        }
    }

    /// After the samples under a cookie were let go.
    pub open spec fn without_cookie(self, cookie: u64) -> FoldModel {
        FoldModel { deferred: self.deferred.remove(cookie), ..self }
    }

    /// After the stacks of the first `count` samples were counted.
    pub open spec fn counted_all(self, samples: Seq<PreparedModel>, count: int) -> FoldModel
        decreases count,
    {
        if count <= 0 {
            self
        } else {
            self.counted_all(samples, count - 1).counted(samples[count - 1])
        }
    }

    /// After a record that is neither a sample nor a deferred callchain.
    pub open spec fn noted(self, record: ParsedModel) -> FoldModel {
        match record {
            ParsedModel::Comm(record) => self.named(record),
            ParsedModel::Mmap(record) => self.mapped(plain_mapping(record)),
            ParsedModel::Mmap2(record) => self.mapped(
                inode_mapping(record, self.build_id_of(record.path)),
            ),
            ParsedModel::Mmap2BuildId(record) => self.mapped(build_id_mapping(record)),
            ParsedModel::Fork(record) => self.forked(record),
            _ => self,
        }
    }

    /// After a record.
    pub open spec fn applied(
        self,
        record: ParsedModel,
        layouts: LayoutsModel,
        options: FoldOptions,
        objects: ObjectsModel,
    ) -> Result<FoldModel, Seq<char>> {
        match record {
            ParsedModel::Sample(record) => match self.prepared(
                record.misc,
                record.payload,
                layouts,
                options,
                objects,
            ) {
                Err(error) => Err(error),
                Ok((after, None)) => Ok(after),
                Ok((after, Some(sample))) => Ok(
                    match sample.deferred_cookie {
                        Some(cookie) => after.put_off(cookie, sample),
                        None => after.counted(sample),
                    },
                ),
            },
            ParsedModel::CallchainDeferred(record) => {
                let tid = layouts.deferred_tid(record.sample_id);
                let samples = self.released(record.cookie, tid, record.ips);
                Ok(self.without_cookie(record.cookie).counted_all(samples, samples.len() as int))
            },
            _ => Ok(self.noted(record)),
        }
    }

    /// After a record, and the samples that are shown then: a sample that was not put off, or
    /// those that a deferred callchain completes.
    pub open spec fn shown(
        self,
        record: ParsedModel,
        layouts: LayoutsModel,
        options: FoldOptions,
        objects: ObjectsModel,
    ) -> Result<(FoldModel, Seq<PreparedModel>), Seq<char>> {
        match record {
            ParsedModel::Sample(record) => match self.prepared(
                record.misc,
                record.payload,
                layouts,
                options,
                objects,
            ) {
                Err(error) => Err(error),
                Ok((after, None)) => Ok((after, Seq::empty())),
                Ok((after, Some(sample))) => Ok(
                    match sample.deferred_cookie {
                        Some(cookie) => (after.put_off(cookie, sample), Seq::empty()),
                        None => (after, seq![sample]),
                    },
                ),
            },
            ParsedModel::CallchainDeferred(record) => {
                let tid = layouts.deferred_tid(record.sample_id);
                Ok(
                    (
                        self.without_cookie(record.cookie),
                        self.released(record.cookie, tid, record.ips),
                    ),
                )
            },
            _ => Ok((self.noted(record), Seq::empty())),
        }
    }

    /// After the records from index `from` on.
    pub open spec fn applied_all(
        self,
        records: Seq<ParsedModel>,
        from: int,
        layouts: LayoutsModel,
        options: FoldOptions,
        objects: ObjectsModel,
    ) -> Result<FoldModel, Seq<char>>
        decreases records.len() - from,
    {
        if from >= records.len() {
            Ok(self)
        } else {
            match self.applied(records[from], layouts, options, objects) {
                Err(error) => Err(error),
                Ok(after) => after.applied_all(records, from + 1, layouts, options, objects),
            }
        }
    }
}

/// Gathers stacks from records.
pub struct FoldAccumulator {
    process_comms: BTreeMap<u32, String>,
    exec_process_comms: BTreeMap<u32, String>,
    thread_comms: BTreeMap<u32, String>,
    mmap_table: MmapTable,
    unwind_states: PidStates,
    header_build_ids: NamedBytes,
    raw_stacks: RawStackAccumulator<FoldFrame>,
    deferred_samples: BTreeMap<u64, Vec<PreparedFoldSample>>,
    arch: PerfArch,
}

impl View for FoldAccumulator {
    type V = FoldModel;

    closed spec fn view(&self) -> FoldModel {
        FoldModel {
            process_comms: texts(self.process_comms@),
            exec_process_comms: texts(self.exec_process_comms@),
            thread_comms: texts(self.thread_comms@),
            table: self.mmap_table.model(),
            states: self.unwind_states@,
            build_ids: self.header_build_ids@,
            stacks: self.raw_stacks@,
            deferred: waiting(self.deferred_samples@),
            arch: self.arch,
        }
    }
}

impl FoldAccumulator {
    /// Whether all parts are in order.
    pub closed spec fn wf(&self) -> bool {
        &&& self.mmap_table.wf()
        &&& self.unwind_states.wf()
        &&& self.header_build_ids.wf()
        &&& self.raw_stacks.wf()
    }

    /// An accumulator that no record was given to, for a machine.
    #[must_use]
    pub fn new(header_build_ids: NamedBytes, arch: PerfArch) -> (accumulator: FoldAccumulator)
        requires
            header_build_ids.wf(),
        ensures
            accumulator.wf(),
            accumulator@ == FoldModel::nothing(header_build_ids@, arch),
    {
        let accumulator = FoldAccumulator {
            process_comms: BTreeMap::new(),
            exec_process_comms: BTreeMap::new(),
            thread_comms: BTreeMap::new(),
            mmap_table: MmapTable::new(),
            unwind_states: PidStates::new(),
            header_build_ids,
            raw_stacks: RawStackAccumulator::new(),
            deferred_samples: BTreeMap::new(),
            arch,
        };
        assert(accumulator@ =~= FoldModel::nothing(header_build_ids@, arch));
        accumulator
    }

    /// The mappings.
    #[must_use]
    pub fn mmap_table(&self) -> (table: &MmapTable)
        requires
            self.wf(),
        ensures
            table.wf(),
            table.model() == self@.table,
    {
        &self.mmap_table
    }

    /// The counted stacks.
    #[must_use]
    pub fn raw_stacks(&self) -> (stacks: &RawStackAccumulator<FoldFrame>)
        requires
            self.wf(),
        ensures
            stacks.wf(),
            stacks@ == self@.stacks,
    {
        &self.raw_stacks
    }

    /// The unwinder of a process.
    #[must_use]
    pub fn unwind_state(&self, pid: u32) -> (state: Option<&PidUnwindState>)
        requires
            self.wf(),
        ensures
            match state {
                Some(state) => self@.states.contains_key(pid) && self@.states[pid] == state@
                    && state.wf(),
                None => !self@.states.contains_key(pid),
            },
    {
        self.unwind_states.get(pid)
    }

    /// Takes the unwinder of a process out, or a fresh one.
    fn take_state(&mut self, pid: u32) -> (state: PidUnwindState)
        requires
            old(self).wf(),
        ensures
            final(self).wf(),
            final(self)@ == (FoldModel { states: old(self)@.states.remove(pid), ..old(self)@ }),
            state.wf(),
            state@ == old(self)@.state_of(pid),
    {
        match self.unwind_states.take(pid) {
            Some(state) => state,
            None => PidUnwindState::with_arch(self.arch),
        }
    }

    /// Notes that an object of a process is loaded.
    pub fn note_loaded_module(&mut self, pid: u32, path: &str, base: u64)
        requires
            old(self).wf(),
        ensures
            final(self).wf(),
            final(self)@ == (FoldModel {
                states: old(self)@.states.insert(
                    pid,
                    (PidModel {
                        loaded: old(self)@.state_of(pid).loaded.insert((path@, base)),
                        ..old(self)@.state_of(pid)
                    }),
                ),
                ..old(self)@
            }),
    {
        let ghost before = self@;
        let mut state = self.take_state(pid);
        state.note_loaded(path, base);
        self.unwind_states.put(pid, state);
        assert(self@.states =~= before.states.insert(pid, state@));
    }

    fn update_comm_tables(&mut self, record: CommRecord)
        requires
            old(self).wf(),
        ensures
            final(self).wf(),
            final(self)@ == old(self)@.named(record@),
    {
        broadcast use texts_of_insert;

        if record.is_exec {
            self.exec_process_comms.insert(record.pid, record.comm.clone());
        }
        self.process_comms.insert(record.pid, record.comm.clone());
        self.thread_comms.insert(record.tid, record.comm);
    }

    fn inherit_fork_comm_tables(&mut self, record: &ForkRecord)
        requires
            old(self).wf(),
        ensures
            final(self).wf(),
            final(self)@ == old(self)@.inherited_names(*record),
    {
        broadcast use texts_of_insert;

        let comm: Option<String> = match self.thread_comms.get(&record.ptid) {
            Some(comm) => Some(comm.clone()),
            None => None,
        };
        if let Some(comm) = comm {
            self.thread_comms.insert(record.tid, comm);
        }
        let comm: Option<String> = match self.thread_comms.get(&record.tid) {
            Some(comm) => Some(comm.clone()),
            None => None,
        };
        if let Some(comm) = comm {
            self.process_comms.insert(record.pid, comm);
        }
        let comm: Option<String> = match self.exec_process_comms.get(&record.ppid) {
            Some(comm) => Some(comm.clone()),
            None => None,
        };
        if let Some(comm) = comm {
            self.exec_process_comms.insert(record.pid, comm);
        }
    }

    fn apply_fork_record(&mut self, record: ForkRecord)
        requires
            old(self).wf(),
        ensures
            final(self).wf(),
            final(self)@ == old(self)@.forked(record),
    {
        self.inherit_fork_comm_tables(&record);
        self.unwind_states.take(record.pid);
        if record.clone_maps {
            self.mmap_table.clone_pid_mappings(record.ppid, record.pid);
        }
    }

    /// Makes the unwinder of a process stale when a new mapping overlaps one of its files.
    fn invalidate_pid_unwinder(&mut self, pid: u32, start: u64, len: u64)
        requires
            old(self).wf(),
        ensures
            final(self).wf(),
            final(self)@ == (FoldModel {
                states: if overlaps_user_file(old(self)@.table.mappings, pid, start, len) {
                    old(self)@.states.remove(pid)
                } else {
                    old(self)@.states
                },
                ..old(self)@
            }),
    {
        if self.mmap_table.has_overlapping_user_mapping_for_pid(pid, start, len) {
            self.unwind_states.take(pid);
        }
    }

    /// Loads the object of an address.
    pub fn ensure_unwind_mapping_for_ip(
        &mut self,
        pid: Option<u32>,
        ip: u64,
        objects: &ObjectStore,
    )
        requires
            old(self).wf(),
            objects.images.wf(),
        ensures
            final(self).wf(),
            final(self)@ == old(self)@.ensured(pid, ip, objects@),
    {
        let pid: u32 = match pid {
            Some(pid) => pid,
            None => return,
        };
        if !self.mmap_table.has_mapping_for_pid(pid, ip) {
            return;
        }
        let ghost before = self@;
        let mut state = self.take_state(pid);
        if let Some(mapping) = self.mmap_table.user_mapping_for_pid_ip(pid, ip) {
            state.load_mapping(mapping, objects);
        }
        self.unwind_states.put(pid, state);
        assert(self@.states =~= before.states.insert(pid, state@));
    }

    /// Whether the object of an address is loaded.
    #[must_use]
    pub fn has_loaded_unwind_mapping_for_ip(
        &self,
        pid: Option<u32>,
        ip: u64,
        objects: &ObjectStore,
    ) -> (found: bool)
        requires
            self.wf(),
            objects.images.wf(),
        ensures
            found == self@.has_loaded(pid, ip, objects@),
    {
        let pid: u32 = match pid {
            Some(pid) => pid,
            None => return false,
        };
        let mapping = match self.mmap_table.user_mapping_for_pid_ip(pid, ip) {
            Some(mapping) => mapping,
            None => return false,
        };
        let state = match self.unwind_states.get(pid) {
            Some(state) => state,
            None => return false,
        };
        let path = objects.unwind_object_path(mapping.path, mapping.build_id);
        state.has_loaded(path.as_str(), mapping.start.saturating_sub(mapping.pgoff))
    }

    fn build_user_unwind_context(
        &self,
        misc: u16,
        layout: SampleLayout,
        sample: &SampleCallchain<'_>,
        regs: &PerfUserRegs,
        has_frames: bool,
        objects: &ObjectStore,
    ) -> (context: UserUnwindContext)
        requires
            self.wf(),
            objects.images.wf(),
        ensures
            context == self@.context(misc, layout, sample@, regs@, has_frames, objects@),
    {
        let initial_ip_mapping = match sample.pid {
            None => InitialIpMappingState::NoRecordedMapping,
            Some(pid) => if !self.mmap_table.has_mapping_for_pid(pid, regs.ip()) {
                InitialIpMappingState::NoRecordedMapping
            } else if self.has_loaded_unwind_mapping_for_ip(sample.pid, regs.ip(), objects) {
                InitialIpMappingState::RecordedMappingLoaded
            } else {
                InitialIpMappingState::RecordedMappingMissing
            },
        };
        let module_count: usize = match sample.pid {
            Some(pid) => match self.unwind_states.get(pid) {
                Some(state) => state.module_count(),
                None => 0,
            },
            None => 0,
        };
        let initial_ip_is_dso = match object_unwind_initial_frame_policy(
            sample.pid,
            regs.ip(),
            &self.mmap_table,
        ) {
            ObjectUnwindInitialFramePolicy::KeepDsoLeaf => true,
            ObjectUnwindInitialFramePolicy::DropSyntheticCurrentIp => false,
        };
        let frames = sample.frames.to_vec();
        UserUnwindContext {
            sample_callchain: if layout.sample_type & PERF_SAMPLE_CALLCHAIN != 0 {
                SampleCallchainPresence::Present
            } else {
                SampleCallchainPresence::Absent
            },
            callchain: sample_callchain_state(misc, layout, frames.as_slice(), has_frames),
            initial_ip_mapping,
            initial_ip_is_dso,
            module_count,
            frame_pointer_at_or_above_stack_pointer: regs.frame_pointer_at_or_above_stack_pointer(),
            syscall_return_state: regs.is_syscall_return_state(),
        }
    }

    /// Unwinds a sample's captured stack.
    fn unwind_user_frames(
        &mut self,
        misc: u16,
        layout: SampleLayout,
        sample: &SampleCallchain<'_>,
        has_frames: bool,
        objects: &ObjectStore,
    ) -> (frames: Vec<FoldFrame>)
        requires
            old(self).wf(),
            objects.images.wf(),
        ensures
            final(self).wf(),
            (final(self)@, frames@) == old(self)@.unwound(
                misc,
                layout,
                sample@,
                has_frames,
                objects@,
            ),
    {
        let nothing: Vec<FoldFrame> = Vec::new();
        assert(nothing@ =~= Seq::empty());
        let (regs, stack) = match (&sample.user_regs, &sample.user_stack) {
            (Some(regs), Some(stack)) => (regs, stack),
            _ => return nothing,
        };
        if !has_perf_captured_user_stack(stack) {
            return nothing;
        }
        let regs = match PerfUserRegs::from_perf_masked_values(
            self.arch,
            layout.sample_regs_user,
            regs.values.as_slice(),
        ) {
            Ok(regs) => regs,
            Err(_) => return nothing,
        };
        assert(captured(self@.arch, layout, sample@) == Some(regs@));
        self.ensure_unwind_mapping_for_ip(sample.pid, regs.ip(), objects);
        let ghost ready = self@;
        let context = self.build_user_unwind_context(
            misc,
            layout,
            sample,
            &regs,
            has_frames,
            objects,
        );
        let stack_bytes = match perf_effective_user_stack_bytes(stack) {
            Some(bytes) => bytes,
            None => return nothing,
        };
        let pid: u32 = match sample.pid {
            Some(pid) => pid,
            None => return nothing,
        };
        match choose_user_unwind_source(context) {
            UserUnwindSource::Skip => return nothing,
            UserUnwindSource::Object => {},
        }
        let mut state = self.take_state(pid);
        let addresses = state.unwind_object_frame_addresses(
            pid,
            &self.mmap_table,
            objects,
            &regs,
            stack_bytes,
            context,
        );
        self.unwind_states.put(pid, state);
        assert(self@.states =~= ready.states.insert(pid, state@));
        let mut frames = unwound_frames(&addresses, regs.ip());
        truncate_user_unwind_at_first_unmapped_frame(sample.pid, &mut frames, &self.mmap_table);
        frames
    }

    fn prepare_callchain(
        &mut self,
        misc: u16,
        event: &SampleEventLayout,
        sample: SampleCallchain<'_>,
        options: FoldOptions,
        objects: &ObjectStore,
    ) -> (prepared: PreparedFoldSample)
        requires
            old(self).wf(),
            objects.images.wf(),
        ensures
            final(self).wf(),
            (final(self)@, prepared@) == old(self)@.prepared_from(
                misc,
                event@,
                sample@,
                options,
                objects@,
            ),
    {
        let addresses = sample.frames.to_vec();
        let mut frames: Vec<FoldFrame> = Vec::with_capacity(addresses.len());
        append_callchain_frames(&mut frames, addresses.as_slice());
        assert(frames@ =~= callchain_frames(sample@.frames));
        let cookie: Option<u64> = take_deferred_cookie(&mut frames);
        let ghost recorded = frames@;
        let has_frames = frames.len() > 0;
        let comm = comm_for_ids(&self.thread_comms, sample.tid);
        let mut unwound = self.unwind_user_frames(
            misc,
            event.layout,
            &sample,
            has_frames,
            objects,
        );
        let ghost more = unwound@;
        frames.append(&mut unwound);
        assert(frames@ =~= recorded + more);
        PreparedFoldSample {
            pid: sample.pid,
            tid: sample.tid,
            time: sample.time,
            cpu: sample.cpu,
            comm,
            event_name: event.event_name.clone(),
            count: sample_fold_count(sample.period, options),
            frames,
            deferred_cookie: cookie,
            has_callchain: event.layout.sample_type & PERF_SAMPLE_CALLCHAIN != 0,
        }
    }

    /// Reads a sample and unwinds its captured stack.
    ///
    /// # Errors
    ///
    /// Returns an error when the sample cannot be read.
    pub fn prepare_sample_for_fold(
        &mut self,
        misc: u16,
        payload: &[u8],
        sample_layouts: &SampleLayouts,
        options: FoldOptions,
        objects: &ObjectStore,
    ) -> (result: Result<Option<PreparedFoldSample>, String>)
        requires
            old(self).wf(),
            sample_layouts@.wf(),
            objects.images.wf(),
        ensures
            final(self).wf(),
            match (
                result,
                old(self)@.prepared(misc, payload@, sample_layouts@, options, objects@),
            ) {
                (Ok(Some(prepared)), Ok((after, Some(sample)))) => final(self)@ == after
                    && prepared@ == sample,
                (Ok(None), Ok((after, None))) => final(self)@ == after,
                (Err(error), Err(told)) => error@ == told && final(self)@ == old(self)@,
                _ => false,
            },
    {
        let index: usize = match sample_layouts.event_index_for_payload(payload)? {
            Some(index) => index,
            None => return Ok(None),
        };
        assert(sample_layouts@.events[index as int] == sample_layouts.events@[index as int]@);
        let event = &sample_layouts.events[index];
        match parse_sample_record_callchain(payload, event.layout)? {
            Some(sample) => Ok(Some(self.prepare_callchain(misc, event, sample, options, objects))),
            None => Ok(None),
        }
    }

    /// Puts a sample off until the record with its cookie.
    pub fn put_off(&mut self, cookie: u64, sample: PreparedFoldSample)
        requires
            old(self).wf(),
        ensures
            final(self).wf(),
            final(self)@ == old(self)@.put_off(cookie, sample@),
    {
        let ghost before = self.deferred_samples@;
        let mut samples: Vec<PreparedFoldSample> = match self.deferred_samples.remove(&cookie) {
            Some(samples) => samples,
            None => Vec::new(),
        };
        let ghost waited = views(samples@);
        samples.push(sample);
        self.deferred_samples.insert(cookie, samples);
        proof {
            assert(views(samples@) =~= waited.push(sample@));
            if !before.contains_key(cookie) {
                assert(waited =~= Seq::empty());
            }
            assert(waiting(self.deferred_samples@) =~= waiting(before).insert(
                cookie,
                views(samples@),
            ));
        }
    }

    /// Counts a sample's stack.
    pub fn count_sample(&mut self, sample: &PreparedFoldSample)
        requires
            old(self).wf(),
        ensures
            final(self).wf(),
            final(self)@ == old(self)@.counted(sample@),
    {
        add_fold_stack(sample, &self.mmap_table, &mut self.raw_stacks);
    }

    /// Lets the samples under a cookie go that a deferred callchain completes.
    pub fn release(&mut self, cookie: u64, tid: Option<u32>, ips: &[u64]) -> (samples: Vec<
        PreparedFoldSample,
    >)
        requires
            old(self).wf(),
        ensures
            final(self).wf(),
            final(self)@ == old(self)@.without_cookie(cookie),
            views(samples@) == old(self)@.released(cookie, tid, ips@),
    {
        let ghost before = self.deferred_samples@;
        let ghost start = self@;
        let taken = self.deferred_samples.remove(&cookie);
        proof {
            assert(waiting(self.deferred_samples@) =~= waiting(before).remove(cookie));
        }
        let mut released: Vec<PreparedFoldSample> = Vec::new();
        assert(views(released@) =~= Seq::empty());
        let samples = match taken {
            Some(samples) => samples,
            None => return released,
        };
        let ghost all = views(samples@);
        let ghost held = samples@;
        assert(start.deferred[cookie] == all);
        for sample in it: samples
            invariant
                it.seq() == held,
                all == views(held),
                views(released@) == FoldModel::completed(all, tid, ips@, it.index() as int),
        {
            let ghost model = sample@;
            assert(all[it.index() as int] == model);
            let meant = match (tid, sample.tid) {
                (None, _) => true,
                (Some(wanted), Some(own)) => wanted == own,
                (Some(_), None) => false,
            };
            if meant {
                let mut sample = sample;
                append_callchain_frames(&mut sample.frames, ips);
                sample.deferred_cookie = None;
                let ghost seen = views(released@);
                released.push(sample);
                proof {
                    assert(sample@ =~= model.completed(ips@));
                    assert(views(released@) =~= seen.push(sample@));
                }
            }
        }
        released
    }

    /// Drops all samples that still wait.
    pub fn flush_deferred_samples(&mut self)
        requires
            old(self).wf(),
        ensures
            final(self).wf(),
            final(self)@ == (FoldModel { deferred: Map::empty(), ..old(self)@ }),
    {
        self.deferred_samples.clear();
        assert(waiting(self.deferred_samples@) =~= Map::empty());
    }

    fn cookies(&self) -> (cookies: Vec<u64>)
        ensures
            orders_cookies(cookies@, self@.deferred),
    {
        let mut cookies: Vec<u64> = Vec::new();
        let iter = self.deferred_samples.iter();
        let ghost pairs = iter.remaining();
        let ghost keys = pairs.map_values(
            |pair: (&u64, &Vec<PreparedFoldSample>)| *pair.0,
        );
        for pair in it: iter
            invariant
                it.seq() == pairs,
                cookies@.len() == it.index(),
                forall|i: int| 0 <= i < it.index() ==> #[trigger] cookies@[i] == *pairs[i].0,
        {
            cookies.push(*pair.0);
        }
        proof {
            let held = self.deferred_samples@;
            assert(cookies@ =~= keys);
            assert(increasing_seq(keys));
            axiom_increasing_seq_meaning(keys);
            assert forall|i: int, j: int|
                #![trigger cookies@[i], cookies@[j]]
                0 <= i < j < cookies@.len() implies cookies@[i] < cookies@[j] by {
                assert(keys[i].cmp_spec(&keys[j]) is Less);
            }
            assert forall|cookie: u64| #[trigger]
                cookies@.contains(cookie) <==> self@.deferred.contains_key(cookie) by {
                if cookies@.contains(cookie) {
                    let i = choose|i: int| 0 <= i < cookies@.len() && cookies@[i] == cookie;
                    assert(held.contains_key(*pairs[i].0));
                }
                if held.contains_key(cookie) {
                    assert(pairs.contains((&cookie, &held[cookie])));
                    let i = choose|i: int|
                        0 <= i < pairs.len() && pairs[i] == (&cookie, &held[cookie]);
                    assert(cookies@[i] == cookie);
                }
            }
        }
        cookies
    }

    /// Takes all samples that still wait, in the order of their cookies.
    pub fn take_deferred_samples(&mut self) -> (samples: Vec<PreparedFoldSample>)
        requires
            old(self).wf(),
        ensures
            final(self).wf(),
            final(self)@ == (FoldModel { deferred: Map::empty(), ..old(self)@ }),
            views(samples@) == in_cookie_order(old(self)@.deferred),
    {
        let cookies = self.cookies();
        let ghost start = self@;
        let ghost held = self.deferred_samples@;
        let ghost order = choose|order: Seq<u64>| orders_cookies(order, start.deferred);
        proof {
            assert(orders_cookies(order, start.deferred));
            cookie_order_is_unique(order, cookies@, start.deferred, 0);
        }
        let mut samples: Vec<PreparedFoldSample> = Vec::new();
        assert(views(samples@) =~= Seq::empty());
        let mut index: usize = 0;
        assert forall|i: int| 0 <= i < cookies@.len() implies held.contains_key(
            #[trigger] cookies@[i],
        ) by {
            assert(cookies@.contains(cookies@[i]));
        }
        while index < cookies.len()
            invariant
                index <= cookies@.len(),
                self.wf(),
                orders_cookies(cookies@, start.deferred),
                start.deferred == waiting(held),
                self@ == (FoldModel { deferred: self@.deferred, ..start }),
                forall|i: int|
                    index <= i < cookies@.len() ==> self.deferred_samples@.contains_key(
                        #[trigger] cookies@[i],
                    ) && self.deferred_samples@[cookies@[i]] == held[cookies@[i]],
                views(samples@) == flattened(cookies@, start.deferred, index as int),
            decreases cookies@.len() - index,
        {
            let cookie: u64 = cookies[index];
            assert(cookies@.contains(cookie));
            let ghost before = views(samples@);
            if let Some(more) = self.deferred_samples.remove(&cookie) {
                let mut more = more;
                let ghost added = views(more@);
                samples.append(&mut more);
                assert(views(samples@) =~= before + added);
            }
            index += 1;
        }
        self.deferred_samples.clear();
        assert(waiting(self.deferred_samples@) =~= Map::empty());
        samples
    }

    /// Takes in a record that is neither a sample nor a deferred callchain.
    pub fn note_record(&mut self, record: ParsedRecord)
        requires
            old(self).wf(),
        ensures
            final(self).wf(),
            final(self)@ == old(self)@.noted(record@),
    {
        match record {
            ParsedRecord::Comm(record) => self.update_comm_tables(record),
            ParsedRecord::Mmap(record) => {
                self.invalidate_pid_unwinder(record.pid, record.start, record.len);
                self.mmap_table.insert_mmap(record);
            },
            ParsedRecord::Mmap2(record) => {
                self.invalidate_pid_unwinder(record.pid, record.start, record.len);
                let build_id: Option<Vec<u8>> = match self.header_build_ids.get(
                    record.path.as_str(),
                ) {
                    Some(build_id) => Some(vstd::slice::slice_to_vec(build_id.as_slice())),
                    None => None,
                };
                self.mmap_table.insert_mmap2_with_build_id(record, build_id);
            },
            ParsedRecord::Mmap2BuildId(record) => {
                self.invalidate_pid_unwinder(record.pid, record.start, record.len);
                self.mmap_table.insert_mmap2_build_id(record);
            },
            ParsedRecord::Fork(record) => self.apply_fork_record(record),
            _ => {},
        }
    }

    /// Takes a record in.
    ///
    /// # Errors
    ///
    /// Returns an error when the record is a sample that cannot be read.
    pub fn apply_record(
        &mut self,
        record: ParsedRecord,
        sample_layouts: &SampleLayouts,
        options: FoldOptions,
        objects: &ObjectStore,
    ) -> (result: Result<(), String>)
        requires
            old(self).wf(),
            sample_layouts@.wf(),
            objects.images.wf(),
        ensures
            final(self).wf(),
            match (
                result,
                old(self)@.applied(record@, sample_layouts@, options, objects@),
            ) {
                (Ok(_), Ok(after)) => final(self)@ == after,
                (Err(error), Err(told)) => error@ == told,
                _ => false,
            },
    {
        match record {
            ParsedRecord::Sample(record) => {
                let prepared = self.prepare_sample_for_fold(
                    record.misc,
                    record.payload.as_slice(),
                    sample_layouts,
                    options,
                    objects,
                )?;
                if let Some(sample) = prepared {
                    match sample.deferred_cookie {
                        Some(cookie) => self.put_off(cookie, sample),
                        None => self.count_sample(&sample),
                    }
                }
            },
            ParsedRecord::CallchainDeferred(record) => {
                let tid: Option<u32> = deferred_callchain_tid(
                    record.sample_id.as_slice(),
                    sample_layouts,
                );
                let samples = self.release(record.cookie, tid, record.ips.as_slice());
                let ghost start = self@;
                let ghost all = views(samples@);
                let mut index: usize = 0;
                while index < samples.len()
                    invariant
                        index <= samples@.len(),
                        all == views(samples@),
                        self.wf(),
                        self@ == start.counted_all(all, index as int),
                    decreases samples@.len() - index,
                {
                    assert(all[index as int] == samples@[index as int]@);
                    self.count_sample(&samples[index]);
                    index += 1;
                }
            },
            record => self.note_record(record),
        }
        Ok(())
    }

    /// Takes a record in, and gives the samples that are shown then.
    ///
    /// # Errors
    ///
    /// Returns an error when the record is a sample that cannot be read.
    pub fn show_record(
        &mut self,
        record: ParsedRecord,
        sample_layouts: &SampleLayouts,
        options: FoldOptions,
        objects: &ObjectStore,
    ) -> (result: Result<Vec<PreparedFoldSample>, String>)
        requires
            old(self).wf(),
            sample_layouts@.wf(),
            objects.images.wf(),
        ensures
            final(self).wf(),
            match (
                result,
                old(self)@.shown(record@, sample_layouts@, options, objects@),
            ) {
                (Ok(samples), Ok((after, shown))) => final(self)@ == after && views(samples@)
                    == shown,
                (Err(error), Err(told)) => error@ == told,
                _ => false,
            },
    {
        let mut samples: Vec<PreparedFoldSample> = Vec::new();
        assert(views(samples@) =~= Seq::empty());
        match record {
            ParsedRecord::Sample(record) => {
                let prepared = self.prepare_sample_for_fold(
                    record.misc,
                    record.payload.as_slice(),
                    sample_layouts,
                    options,
                    objects,
                )?;
                if let Some(sample) = prepared {
                    match sample.deferred_cookie {
                        Some(cookie) => self.put_off(cookie, sample),
                        None => {
                            samples.push(sample);
                            assert(views(samples@) =~= seq![sample@]);
                        },
                    }
                }
            },
            ParsedRecord::CallchainDeferred(record) => {
                let tid: Option<u32> = deferred_callchain_tid(
                    record.sample_id.as_slice(),
                    sample_layouts,
                );
                samples = self.release(record.cookie, tid, record.ips.as_slice());
            },
            record => self.note_record(record),
        }
        Ok(samples)
    }

    /// Takes the counted stacks out.
    pub fn take_stacks(&mut self) -> (stacks: RawStackAccumulator<FoldFrame>)
        requires
            old(self).wf(),
        ensures
            final(self).wf(),
            final(self)@ == (FoldModel { stacks: Map::empty(), ..old(self)@ }),
            stacks.wf(),
            stacks@ == old(self)@.stacks,
    {
        let mut stacks = RawStackAccumulator::new();
        std::mem::swap(&mut stacks, &mut self.raw_stacks);
        stacks
    }
}

// ---------------------------------------------------------------------------
// Laws
// ---------------------------------------------------------------------------

/// A forked process starts with a fresh unwinder. Where it keeps its parent's mappings, it finds
/// at every address what the parent finds; other processes find what they found.
pub proof fn forked_child_starts_afresh(fold: FoldModel, record: ForkRecord, pid: u32, ip: u64)
    requires
        record.ppid != record.pid,
    ensures
        fold.forked(record).state_of(record.pid) == PidModel::fresh(fold.arch),
        record.clone_maps ==> answer(fold.forked(record).table.mappings, record.pid, ip) == (
        match answer(fold.table.mappings, record.ppid, ip) {
            Some(mapping) => Some(MappingModel { pid: record.pid, ..mapping }),
            None => None,
        }),
        pid != record.pid ==> answer(fold.forked(record).table.mappings, pid, ip) == answer(
            fold.table.mappings,
            pid,
            ip,
        ),
        pid != record.pid ==> fold.forked(record).state_of(pid) == fold.state_of(pid),
{
    child_answers_like_parent(fold.table.mappings, record.ppid, record.pid, pid, ip);
}

/// A mapping over a mapped file of its process makes the unwinder of that process stale; the
/// unwinders of other processes stay.
pub proof fn overlapping_mapping_drops_the_unwinder(
    fold: FoldModel,
    mapping: MappingModel,
    pid: u32,
)
    ensures
        overlaps_user_file(fold.table.mappings, mapping.pid, mapping.start, mapping.len)
            ==> fold.mapped(mapping).state_of(mapping.pid) == PidModel::fresh(fold.arch),
        !overlaps_user_file(fold.table.mappings, mapping.pid, mapping.start, mapping.len)
            ==> fold.mapped(mapping).state_of(mapping.pid) == fold.state_of(mapping.pid),
        pid != mapping.pid ==> fold.mapped(mapping).state_of(pid) == fold.state_of(pid),
{
}

/// The object of a sampled address is loaded at most once.
pub proof fn sampled_object_is_loaded_once(
    fold: FoldModel,
    pid: Option<u32>,
    ip: u64,
    objects: ObjectsModel,
)
    ensures
        fold.ensured(pid, ip, objects).ensured(pid, ip, objects) == fold.ensured(pid, ip, objects),
{
    if let Some(pid) = pid {
        if let Some(index) = resolved(fold.table.mappings, pid, ip) {
            let mapping = fold.table.mappings[index];
            let path = objects.object_path(mapping.path, mapping.build_id);
            mappings_are_tried_once(fold.state_of(pid), path, mapping, objects);
            let once = fold.ensured(Some(pid), ip, objects);
            assert(once.states[pid] == fold.state_of(pid).with_mapping(mapping, objects).0);
            assert(once.ensured(Some(pid), ip, objects).states =~= once.states);
        }
    }
}

proof fn completed_of_push(
    samples: Seq<PreparedModel>,
    sample: PreparedModel,
    tid: Option<u32>,
    ips: Seq<u64>,
    count: int,
)
    requires
        0 <= count <= samples.len(),
    ensures
        FoldModel::completed(samples.push(sample), tid, ips, count) == FoldModel::completed(
            samples,
            tid,
            ips,
            count,
        ),
    decreases count,
{
    if count > 0 {
        completed_of_push(samples, sample, tid, ips, count - 1);
        assert(samples.push(sample)[count - 1] == samples[count - 1]);
    }
}

/// A sample that waits under a cookie is completed, once, by the first deferred callchain with
/// that cookie, after those that waited before it, unless that callchain is meant for another
/// thread. After that nothing waits under the cookie.
pub proof fn waiting_sample_is_completed_once(
    fold: FoldModel,
    cookie: u64,
    sample: PreparedModel,
    tid: Option<u32>,
    ips: Seq<u64>,
)
    ensures
        fold.put_off(cookie, sample).released(cookie, tid, ips) == fold.released(cookie, tid, ips)
            + (if is_meant_for(tid, sample) {
            seq![sample.completed(ips)]
        } else {
            Seq::empty()
        }),
        fold.without_cookie(cookie).released(cookie, tid, ips) == Seq::<PreparedModel>::empty(),
{
    let before = if fold.deferred.contains_key(cookie) {
        fold.deferred[cookie]
    } else {
        Seq::empty()
    };
    let count = before.len() as int;
    completed_of_push(before, sample, tid, ips, count);
    assert(fold.released(cookie, tid, ips) == FoldModel::completed(before, tid, ips, count));
    assert(before.push(sample)[count] == sample);
    assert(fold.put_off(cookie, sample).deferred[cookie] == before.push(sample));
    assert(fold.put_off(cookie, sample).released(cookie, tid, ips) =~= fold.released(
        cookie,
        tid,
        ips,
    ) + (if is_meant_for(tid, sample) {
        seq![sample.completed(ips)]
    } else {
        Seq::empty()
    }));
}

/// What waits under a cookie does not depend on samples and callchains with other cookies.
pub proof fn cookies_wait_apart(
    fold: FoldModel,
    cookie: u64,
    sample: PreparedModel,
    other: u64,
    tid: Option<u32>,
    ips: Seq<u64>,
)
    requires
        other != cookie,
    ensures
        fold.put_off(cookie, sample).released(other, tid, ips) == fold.released(other, tid, ips),
        fold.without_cookie(cookie).released(other, tid, ips) == fold.released(other, tid, ips),
{
}

proof fn flattened_agrees(
    cookies: Seq<u64>,
    deferred: Map<u64, Seq<PreparedModel>>,
    longer: Seq<u64>,
    other: Map<u64, Seq<PreparedModel>>,
    count: int,
)
    requires
        0 <= count <= cookies.len(),
        count <= longer.len(),
        forall|i: int|
            0 <= i < count ==> #[trigger] cookies[i] == longer[i] && deferred[cookies[i]]
                == other[cookies[i]],
    ensures
        flattened(cookies, deferred, count) == flattened(longer, other, count),
    decreases count,
{
    if count > 0 {
        flattened_agrees(cookies, deferred, longer, other, count - 1);
        assert(cookies[count - 1] == longer[count - 1]);
    }
}

/// Samples under a new cookie have a place in the order of the cookies.
proof fn cookie_has_a_place(
    cookies: Seq<u64>,
    deferred: Map<u64, Seq<PreparedModel>>,
    cookie: u64,
    samples: Seq<PreparedModel>,
) -> (order: Seq<u64>)
    requires
        orders_cookies(cookies, deferred),
        !deferred.contains_key(cookie),
    ensures
        orders_cookies(order, deferred.insert(cookie, samples)),
        flattened(order, deferred.insert(cookie, samples), order.len() as int).to_multiset()
            == flattened(cookies, deferred, cookies.len() as int).to_multiset().add(
            samples.to_multiset(),
        ),
    decreases cookies.len(),
{
    broadcast use vstd::seq_lib::group_to_multiset_ensures;

    let after = deferred.insert(cookie, samples);
    let count = cookies.len() as int;
    if count == 0 || cookies[count - 1] < cookie {
        let order = cookies.push(cookie);
        assert forall|i: int| 0 <= i < count implies #[trigger] cookies[i] == order[i]
            && deferred[cookies[i]] == after[cookies[i]] by {
            assert(cookies.contains(cookies[i]));
        }
        flattened_agrees(cookies, deferred, order, after, count);
        assert forall|other: u64| #[trigger] order.contains(other) <==> after.contains_key(other) by {
            if cookies.contains(other) {
                let i = choose|i: int| 0 <= i < count && cookies[i] == other;
                assert(order[i] == other);
            }
            assert(order[count] == cookie);
            assert(cookies.contains(other) <==> deferred.contains_key(other));
        }
        let before = flattened(cookies, deferred, count);
        vstd::seq_lib::lemma_multiset_commutative(before, samples);
        assert(order[count] == cookie);
        order
    } else {
        let last = cookies[count - 1];
        let less = deferred.remove(last);
        let first = cookies.drop_last();
        assert(cookies.contains(last));
        assert forall|other: u64| #[trigger] first.contains(other) <==> less.contains_key(other) by {
            assert(cookies.contains(other) <==> deferred.contains_key(other));
            if first.contains(other) {
                let i = choose|i: int| 0 <= i < first.len() && first[i] == other;
                assert(cookies[i] == other);
            }
            if less.contains_key(other) {
                let i = choose|i: int| 0 <= i < count && cookies[i] == other;
                assert(first[i] == other);
            }
        }
        let inner = cookie_has_a_place(first, less, cookie, samples);
        let order = inner.push(last);
        let within = less.insert(cookie, samples);
        assert forall|i: int| 0 <= i < inner.len() implies #[trigger] inner[i] < last && after[inner[i]]
            == within[inner[i]] && order[i] == inner[i] by {
            assert(inner.contains(inner[i]));
            if inner[i] != cookie {
                assert(less.contains_key(inner[i]));
                assert(first.contains(inner[i]));
                let j = choose|j: int| 0 <= j < first.len() && first[j] == inner[i];
                assert(cookies[j] < cookies[count - 1]);
            }
        }
        assert forall|other: u64| #[trigger] order.contains(other) <==> after.contains_key(other) by {
            assert(inner.contains(other) <==> within.contains_key(other));
            assert(order[inner.len() as int] == last);
            if inner.contains(other) {
                let i = choose|i: int| 0 <= i < inner.len() && inner[i] == other;
                assert(order[i] == other);
            }
        }
        flattened_agrees(inner, within, order, after, inner.len() as int);
        assert forall|i: int| 0 <= i < first.len() implies #[trigger] first[i] == cookies[i]
            && less[first[i]] == deferred[first[i]] by {
            assert(cookies[i] < cookies[count - 1]);
        }
        flattened_agrees(first, less, cookies, deferred, count - 1);
        let before = flattened(first, less, count - 1);
        let middle = flattened(inner, within, inner.len() as int);
        vstd::seq_lib::lemma_multiset_commutative(before, deferred[last]);
        vstd::seq_lib::lemma_multiset_commutative(middle, deferred[last]);
        assert(order[inner.len() as int] == last);
        assert(flattened(order, after, order.len() as int).to_multiset() =~= flattened(
            cookies,
            deferred,
            count,
        ).to_multiset().add(samples.to_multiset()));
        order
    }
}

/// Finitely many cookies have an order.
proof fn cookies_have_an_order(deferred: Map<u64, Seq<PreparedModel>>) -> (order: Seq<u64>)
    requires
        deferred.dom().finite(),
    ensures
        orders_cookies(order, deferred),
    decreases deferred.dom().len(),
{
    if deferred.dom().len() == 0 {
        let order = Seq::<u64>::empty();
        assert forall|cookie: u64| #[trigger] order.contains(cookie) <==> deferred.contains_key(
            cookie,
        ) by {
            assert(deferred.dom() =~= Set::empty());
        }
        order
    } else {
        let cookie = deferred.dom().choose();
        let less = deferred.remove(cookie);
        assert(less.dom() =~= deferred.dom().remove(cookie));
        let cookies = cookies_have_an_order(less);
        assert(less.insert(cookie, deferred[cookie]) =~= deferred);
        cookie_has_a_place(cookies, less, cookie, deferred[cookie])
    }
}

/// A sample that still waits at the end is taken then, exactly once, and with it no sample that
/// does not wait.
pub proof fn waiting_samples_are_all_taken(fold: FoldModel, cookie: u64, sample: PreparedModel)
    requires
        fold.deferred.dom().finite(),
    ensures
        in_cookie_order(fold.put_off(cookie, sample).deferred).to_multiset() == in_cookie_order(
            fold.deferred,
        ).to_multiset().insert(sample),
        in_cookie_order(Map::empty()) == Seq::<PreparedModel>::empty(),
{
    broadcast use vstd::seq_lib::group_to_multiset_ensures;

    let less = fold.deferred.remove(cookie);
    let before = if fold.deferred.contains_key(cookie) {
        fold.deferred[cookie]
    } else {
        Seq::empty()
    };
    let after = fold.put_off(cookie, sample).deferred;
    let rest = cookies_have_an_order(less);
    let longer = cookie_has_a_place(rest, less, cookie, before.push(sample));
    assert(less.insert(cookie, before.push(sample)) =~= after);
    let chosen = choose|cookies: Seq<u64>| orders_cookies(cookies, after);
    cookie_order_is_unique(longer, chosen, after, 0);
    let held = if fold.deferred.contains_key(cookie) {
        let held = cookie_has_a_place(rest, less, cookie, before);
        assert(less.insert(cookie, before) =~= fold.deferred);
        held
    } else {
        assert(less =~= fold.deferred);
        assert(before.to_multiset() =~= vstd::multiset::Multiset::empty());
        rest
    };
    let found = choose|cookies: Seq<u64>| orders_cookies(cookies, fold.deferred);
    cookie_order_is_unique(held, found, fold.deferred, 0);
    assert(in_cookie_order(after).to_multiset() =~= in_cookie_order(
        fold.deferred,
    ).to_multiset().insert(sample));
    let none = cookies_have_an_order(Map::empty());
    let empty = choose|cookies: Seq<u64>|
        orders_cookies(cookies, Map::<u64, Seq<PreparedModel>>::empty());
    if empty.len() > 0 {
        assert(empty.contains(empty[0]));
    }
}

// ---------------------------------------------------------------------------
// Laws of prepared samples
// ---------------------------------------------------------------------------

/// Whether a callchain ends in the marker for user frames that come later, and their cookie.
pub open spec fn ends_in_cookie(frames: Seq<u64>) -> bool {
    frames.len() >= 2 && frames[frames.len() - 2] == 0xffff_ffff_ffff_fd80
}

/// How many frames of a callchain are recorded: all of them but a cookie.
pub open spec fn recorded_count(frames: Seq<u64>) -> int {
    if ends_in_cookie(frames) {
        frames.len() - 1
    } else {
        frames.len() as int
    }
}

/// The frames of a prepared sample, innermost first, begin with its recorded callchain, frame for
/// frame and without a cookie. Every frame that was unwound from the captured user stack stands
/// behind all of them, on the outer side.
pub proof fn recorded_frames_come_first(
    fold: FoldModel,
    misc: u16,
    event: EventModel,
    sample: CallchainModel,
    options: FoldOptions,
    objects: ObjectsModel,
)
    ensures
        ({
            let prepared = fold.prepared_from(misc, event, sample, options, objects).1;
            let count = recorded_count(sample.frames);
            &&& prepared.frames.len() >= count
            &&& forall|i: int|
                0 <= i < count ==> #[trigger] prepared.frames[i] == FoldFrame::Callchain(
                    sample.frames[i],
                )
            &&& forall|i: int|
                count <= i < prepared.frames.len() ==> !(#[trigger] prepared.frames[i] is Callchain)
            &&& prepared.deferred_cookie == if ends_in_cookie(sample.frames) {
                Some(sample.frames.last())
            } else {
                None
            }
        }),
{
    let recorded = callchain_frames(sample.frames);
    let cookie = deferred_cookie(recorded);
    if sample.frames.len() >= 2 {
        assert(recorded[recorded.len() - 2] == FoldFrame::Callchain(
            sample.frames[sample.frames.len() - 2],
        ));
        assert(recorded[recorded.len() - 1] == FoldFrame::Callchain(sample.frames.last()));
    }
    assert(cookie is Some <==> ends_in_cookie(sample.frames));
}

/// A prepared sample tells of the sample that it was made of: its process, thread, time and CPU,
/// the event, the name of its thread, and what it counts. Preparing a sample changes unwinders
/// and nothing else.
pub proof fn prepared_samples_tell_of_their_samples(
    fold: FoldModel,
    misc: u16,
    event: EventModel,
    sample: CallchainModel,
    options: FoldOptions,
    objects: ObjectsModel,
)
    ensures
        ({
            let (after, prepared) = fold.prepared_from(misc, event, sample, options, objects);
            &&& prepared.pid == sample.pid
            &&& prepared.tid == sample.tid
            &&& prepared.time == sample.time
            &&& prepared.cpu == sample.cpu
            &&& prepared.event_name == event.event_name
            &&& sample.tid is None ==> prepared.comm is None
            &&& sample.tid matches Some(tid) ==> prepared.comm == Some(
                if fold.thread_comms.contains_key(tid) {
                    fold.thread_comms[tid]
                } else {
                    seq![':'] + decimal(tid as nat)
                },
            )
            &&& options.count_periods && sample.period is Some ==> prepared.count
                == sample.period->0
            &&& !options.count_periods || sample.period is None ==> prepared.count == 1
            &&& after == FoldModel { states: after.states, ..fold }
        }),
{
    reveal_strlit(":");
    assert(":"@ =~= seq![':']);
}

/// Whether a frame of a sample has a place in its stack.
pub open spec fn is_kept(
    mappings: Seq<MappingModel>,
    pid: Option<u32>,
    frame: FoldFrame,
) -> bool {
    !is_marker(frame.at()) && !is_dropped(mappings, pid, frame)
}

proof fn kept_frames_are_turned_round(
    frames: Seq<FoldFrame>,
    mappings: Seq<MappingModel>,
    pid: Option<u32>,
    count: int,
)
    requires
        0 <= count <= frames.len(),
    ensures
        rooted(frames, mappings, pid, count) == frames.take(count).filter(
            |frame: FoldFrame| is_kept(mappings, pid, frame),
        ).reverse(),
    decreases count,
{
    reveal(Seq::filter);
    let kept = |frame: FoldFrame| is_kept(mappings, pid, frame);
    if count > 0 {
        kept_frames_are_turned_round(frames, mappings, pid, count - 1);
        assert(frames.take(count).drop_last() =~= frames.take(count - 1));
        assert(frames.take(count).last() == frames[count - 1]);
        let before = frames.take(count - 1).filter(kept);
        assert(before.push(frames[count - 1]).reverse() =~= seq![frames[count - 1]]
            + before.reverse());
    } else {
        assert(frames.take(0).filter(kept).reverse() =~= Seq::empty());
    }
}

/// A stack is counted from the root to the leaf: the frames of a sample that are kept, the other
/// way round. Frames of the recorded callchain are all kept but for the marks between contexts.
pub proof fn stacks_begin_at_the_root(
    frames: Seq<FoldFrame>,
    mappings: Seq<MappingModel>,
    pid: Option<u32>,
    address: u64,
)
    ensures
        rooted(frames, mappings, pid, frames.len() as int) == frames.filter(
            |frame: FoldFrame| is_kept(mappings, pid, frame),
        ).reverse(),
        is_kept(mappings, pid, FoldFrame::Callchain(address)) <==> address < 0xffff_ffff_ffff_f000,
{
    kept_frames_are_turned_round(frames, mappings, pid, frames.len() as int);
    assert(frames.take(frames.len() as int) =~= frames);
}

proof fn recorded_frames_stay_together(
    frames: Seq<FoldFrame>,
    mappings: Seq<MappingModel>,
    pid: Option<u32>,
    recorded: int,
    count: int,
)
    requires
        0 <= count <= frames.len(),
        forall|i: int|
            0 <= i < frames.len() ==> (#[trigger] frames[i] is Callchain <==> i < recorded),
    ensures
        forall|i: int, j: int|
            #![trigger rooted(frames, mappings, pid, count)[i],
                rooted(frames, mappings, pid, count)[j]]
            0 <= i < j < rooted(frames, mappings, pid, count).len() && rooted(
                frames,
                mappings,
                pid,
                count,
            )[i] is Callchain ==> rooted(frames, mappings, pid, count)[j] is Callchain,
        count <= recorded ==> forall|i: int|
            0 <= i < rooted(frames, mappings, pid, count).len() ==> #[trigger] rooted(
                frames,
                mappings,
                pid,
                count,
            )[i] is Callchain,
    decreases count,
{
    if count > 0 {
        recorded_frames_stay_together(frames, mappings, pid, recorded, count - 1);
        let rest = rooted(frames, mappings, pid, count - 1);
        let whole = rooted(frames, mappings, pid, count);
        assert(frames[count - 1] is Callchain <==> count - 1 < recorded);
        if whole.len() > rest.len() {
            assert(whole[0] == frames[count - 1]);
            assert forall|i: int| 1 <= i < whole.len() implies #[trigger] whole[i] == rest[i
                - 1] by {}
        }
    }
}

/// In the stack of a sample that is counted, all frames that were unwound from the captured user
/// stack stand nearer to the root than all frames of the recorded callchain.
pub proof fn unwound_frames_stand_nearer_to_the_root(
    fold: FoldModel,
    misc: u16,
    event: EventModel,
    sample: CallchainModel,
    options: FoldOptions,
    objects: ObjectsModel,
    mappings: Seq<MappingModel>,
)
    ensures
        ({
            let frames = fold.prepared_from(misc, event, sample, options, objects).1.frames;
            let stack = rooted(frames, mappings, sample.pid, frames.len() as int);
            forall|i: int, j: int|
                #![trigger stack[i], stack[j]]
                0 <= i < stack.len() && 0 <= j < stack.len() && !(stack[i] is Callchain)
                    && stack[j] is Callchain ==> i < j
        }),
{
    let frames = fold.prepared_from(misc, event, sample, options, objects).1.frames;
    recorded_frames_come_first(fold, misc, event, sample, options, objects);
    recorded_frames_stay_together(
        frames,
        mappings,
        sample.pid,
        recorded_count(sample.frames),
        frames.len() as int,
    );
    let stack = rooted(frames, mappings, sample.pid, frames.len() as int);
    assert forall|i: int, j: int|
        #![trigger stack[i], stack[j]]
        0 <= i < stack.len() && 0 <= j < stack.len() && !(stack[i] is Callchain)
            && stack[j] is Callchain implies i < j by {
        if j < i {
            assert(stack[i] is Callchain);
        }
    }
}

/// Unwound frames stand at the unwound addresses, in their order; the first is marked where it is
/// the sampled address itself, and no other one.
pub proof fn unwound_addresses_become_frames(addresses: Seq<u64>, ip: u64)
    ensures
        unwound_as_frames(addresses, ip).map_values(|frame: FoldFrame| frame.at()) == addresses,
        forall|i: int|
            0 <= i < addresses.len() ==> (#[trigger] unwound_as_frames(
                addresses,
                ip,
            )[i] is InlineCurrentIp <==> i == 0 && addresses[0] == ip),
        forall|i: int|
            0 <= i < addresses.len() ==> !(#[trigger] unwound_as_frames(
                addresses,
                ip,
            )[i] is Callchain),
{
    assert(unwound_as_frames(addresses, ip).map_values(|frame: FoldFrame| frame.at())
        =~= addresses);
}

/// A deferred callchain is appended on the outer side of a sample's frames, and changes nothing
/// else but that the sample no longer waits.
pub proof fn deferred_frames_come_last(sample: PreparedModel, ips: Seq<u64>)
    ensures
        sample.completed(ips).frames.len() == sample.frames.len() + ips.len(),
        sample.completed(ips).frames.take(sample.frames.len() as int) == sample.frames,
        forall|i: int|
            0 <= i < ips.len() ==> sample.completed(ips).frames[sample.frames.len() + i]
                == FoldFrame::Callchain(#[trigger] ips[i]),
        sample.completed(ips).deferred_cookie is None,
        sample.completed(ips) == (PreparedModel {
            frames: sample.completed(ips).frames,
            deferred_cookie: None,
            ..sample
        }),
{
    assert(sample.completed(ips).frames.take(sample.frames.len() as int) =~= sample.frames);
}

/// The samples that a deferred callchain completes are those it is meant for, in their order.
pub proof fn meant_samples_are_completed_in_order(
    fold: FoldModel,
    cookie: u64,
    tid: Option<u32>,
    ips: Seq<u64>,
)
    ensures
        fold.deferred.contains_key(cookie) ==> fold.released(cookie, tid, ips)
            == fold.deferred[cookie].filter(
            |sample: PreparedModel| tid is None || tid == sample.tid,
        ).map_values(|sample: PreparedModel| sample.completed(ips)),
        !fold.deferred.contains_key(cookie) ==> fold.released(cookie, tid, ips).len() == 0,
{
    if fold.deferred.contains_key(cookie) {
        let samples = fold.deferred[cookie];
        meant_samples_are_completed_up_to(samples, tid, ips, samples.len() as int);
        assert(samples.take(samples.len() as int) =~= samples);
    }
}

proof fn meant_samples_are_completed_up_to(
    samples: Seq<PreparedModel>,
    tid: Option<u32>,
    ips: Seq<u64>,
    count: int,
)
    requires
        0 <= count <= samples.len(),
    ensures
        FoldModel::completed(samples, tid, ips, count) == samples.take(count).filter(
            |sample: PreparedModel| tid is None || tid == sample.tid,
        ).map_values(|sample: PreparedModel| sample.completed(ips)),
    decreases count,
{
    reveal(Seq::filter);
    let meant = |sample: PreparedModel| tid is None || tid == sample.tid;
    let complete = |sample: PreparedModel| sample.completed(ips);
    if count > 0 {
        meant_samples_are_completed_up_to(samples, tid, ips, count - 1);
        assert(samples.take(count).drop_last() =~= samples.take(count - 1));
        assert(samples.take(count).last() == samples[count - 1]);
        let before = samples.take(count - 1).filter(meant);
        assert(before.push(samples[count - 1]).map_values(complete) =~= before.map_values(
            complete,
        ).push(complete(samples[count - 1])));
    } else {
        assert(samples.take(0).filter(meant).map_values(complete) =~= Seq::empty());
    }
}

/// A sample adds its count to that of its stack under its process and the name of its thread, up
/// to the largest number, and leaves all other stacks alone. A sample of which no frame is kept
/// adds nothing.
pub proof fn samples_are_counted_under_their_stacks(
    fold: FoldModel,
    sample: PreparedModel,
    other: StackKey<FoldFrame>,
)
    ensures
        ({
            let stack = sample.frames.filter(
                |frame: FoldFrame| is_kept(fold.table.mappings, sample.pid, frame),
            ).reverse();
            let key = (sample.pid, sample.comm, stack);
            let after = fold.counted(sample);
            let before = if fold.stacks.contains_key(key) {
                fold.stacks[key] as int
            } else {
                0
            };
            &&& stack.len() == 0 ==> after == fold
            &&& stack.len() > 0 ==> after.stacks.contains_key(key) && after.stacks[key] == (
            if before + sample.count > u64::MAX {
                u64::MAX as int
            } else {
                before + sample.count
            })
            &&& other != key ==> (after.stacks.contains_key(other) <==> fold.stacks.contains_key(
                other,
            )) && after.stacks[other] == fold.stacks[other]
            &&& after == FoldModel { stacks: after.stacks, ..fold }
        }),
{
    stacks_begin_at_the_root(sample.frames, fold.table.mappings, sample.pid, 0);
}

/// To apply a record is to count the samples that are shown after it.
pub proof fn shown_samples_are_what_is_counted(
    fold: FoldModel,
    record: ParsedModel,
    layouts: LayoutsModel,
    options: FoldOptions,
    objects: ObjectsModel,
)
    ensures
        fold.applied(record, layouts, options, objects) == match fold.shown(
            record,
            layouts,
            options,
            objects,
        ) {
            Ok((after, samples)) => Ok::<FoldModel, Seq<char>>(
                after.counted_all(samples, samples.len() as int),
            ),
            Err(error) => Err(error),
        },
{
    if let Ok((after, samples)) = fold.shown(record, layouts, options, objects) {
        reveal_with_fuel(FoldModel::counted_all, 2);
    }
}

/// A thread is called by the name that was recorded for it last; a name that is recorded for one
/// thread does not change those of other threads and other processes.
pub proof fn threads_have_their_last_name(
    fold: FoldModel,
    record: CommModel,
    tid: u32,
    pid: u32,
)
    ensures
        comm_for(fold.named(record).thread_comms, Some(record.tid)) == Some(record.comm),
        tid != record.tid ==> comm_for(fold.named(record).thread_comms, Some(tid)) == comm_for(
            fold.thread_comms,
            Some(tid),
        ),
        looked_up(fold.named(record).process_comms, record.pid) == Some(record.comm),
        pid != record.pid ==> looked_up(fold.named(record).process_comms, pid) == looked_up(
            fold.process_comms,
            pid,
        ),
        looked_up(fold.named(record).exec_process_comms, record.pid) == if record.is_exec {
            Some(record.comm)
        } else {
            looked_up(fold.exec_process_comms, record.pid)
        },
        pid != record.pid ==> looked_up(fold.named(record).exec_process_comms, pid) == looked_up(
            fold.exec_process_comms,
            pid,
        ),
{
}

/// A forked thread is called as the thread that forked it, where that one has a name; the names
/// of other threads stay. The names of the processes follow: the child's is that of its thread,
/// and a name from an `exec` of the parent goes over to the child.
pub proof fn forked_threads_take_over_names(
    fold: FoldModel,
    record: ForkRecord,
    tid: u32,
    pid: u32,
)
    ensures
        fold.thread_comms.contains_key(record.ptid) ==> comm_for(
            fold.forked(record).thread_comms,
            Some(record.tid),
        ) == Some(fold.thread_comms[record.ptid]) && looked_up(
            fold.forked(record).process_comms,
            record.pid,
        ) == Some(fold.thread_comms[record.ptid]),
        !fold.thread_comms.contains_key(record.ptid) ==> fold.forked(record).thread_comms
            == fold.thread_comms,
        !fold.thread_comms.contains_key(record.ptid) && !fold.thread_comms.contains_key(record.tid)
            ==> fold.forked(record).process_comms == fold.process_comms,
        tid != record.tid ==> comm_for(fold.forked(record).thread_comms, Some(tid)) == comm_for(
            fold.thread_comms,
            Some(tid),
        ),
        pid != record.pid ==> looked_up(fold.forked(record).process_comms, pid) == looked_up(
            fold.process_comms,
            pid,
        ),
        fold.exec_process_comms.contains_key(record.ppid) ==> looked_up(
            fold.forked(record).exec_process_comms,
            record.pid,
        ) == Some(fold.exec_process_comms[record.ppid]),
        !fold.exec_process_comms.contains_key(record.ppid) ==> fold.forked(
            record,
        ).exec_process_comms == fold.exec_process_comms,
        pid != record.pid ==> looked_up(fold.forked(record).exec_process_comms, pid) == looked_up(
            fold.exec_process_comms,
            pid,
        ),
{
}

} // verus!
