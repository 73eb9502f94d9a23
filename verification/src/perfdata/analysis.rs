//! A compact report on a recording: its busiest threads, leaf addresses and call edges.

use std::collections::BTreeMap;

use vstd::prelude::*;
use vstd::std_specs::iter::IteratorSpec;

use crate::perfdata::samples::{is_marker, is_perf_context_marker};
use crate::perfdata::summary::{
    saturating_sum, summarize_perfdata, summary_of, SampleStackModel,
};
use crate::sorting::{same_items, sort, sorted, Ranked};
use crate::text::{
    decimal, digit_char, hexadecimal, looked_up, push_decimal, push_hexadecimal, texts, views,
};

verus! {

broadcast use {
    vstd::std_specs::control_flow::group_control_flow_axioms,
    vstd::std_specs::btree::group_btree_axioms,
};

#[derive(Clone, Debug, Eq, PartialEq)]
pub struct PerfdataAnalysis {
    pub total_records: usize,
    pub total_samples: usize,
    pub weighted_samples: u64,
    pub lost_records: u64,
    pub threads: Vec<PerfdataThread>,
    pub top_leaf_ips: Vec<PerfdataIpCount>,
    pub top_edges: Vec<PerfdataEdgeCount>,
}

#[derive(Clone, Debug, Eq, PartialEq)]
pub struct PerfdataThread {
    pub tid: u32,
    pub comm: String,
    pub samples: usize,
    pub weighted_samples: u64,
}

#[derive(Clone, Debug, Eq, PartialEq)]
pub struct PerfdataIpCount {
    pub ip: String,
    pub samples: usize,
    pub weighted_samples: u64,
}

#[derive(Clone, Debug, Eq, PartialEq)]
pub struct PerfdataEdgeCount {
    pub caller: String,
    pub callee: String,
    pub samples: usize,
    pub weighted_samples: u64,
}

/// How often something was seen, and how much it weighs.
#[derive(Clone, Copy, Debug, Eq, PartialEq)]
pub struct Count {
    pub samples: usize,
    pub weighted_samples: u64,
}

/// Something that was counted, by its number.
#[derive(Clone, Copy, Debug, Eq, PartialEq)]
pub struct Counted {
    pub key: u128,
    pub count: Count,
}

impl View for Counted {
    type V = Counted;

    open spec fn view(&self) -> Counted {
        *self
    }
}

// ---------------------------------------------------------------------------
// Counting
// ---------------------------------------------------------------------------

/// The counts with one more sighting; counts stop at the largest number.
pub open spec fn tallied(counts: Map<u128, Count>, key: u128, weight: u64) -> Map<u128, Count> {
    let old_count = if counts.contains_key(key) {
        counts[key]
    } else {
        Count { samples: 0, weighted_samples: 0 }
    };
    counts.insert(
        key,
        Count {
            samples: if old_count.samples == usize::MAX {
                usize::MAX
            } else {
                (old_count.samples + 1) as usize
            },
            weighted_samples: saturating_sum(old_count.weighted_samples, weight),
        },
    )
}

fn add_count(counts: &mut BTreeMap<u128, Count>, key: u128, weight: u64)
    ensures
        final(counts)@ == tallied(old(counts)@, key, weight),
{
    let count = match counts.get(&key) {
        Some(count) => *count,
        None => Count { samples: 0, weighted_samples: 0 },
    };
    counts.insert(
        key,
        Count {
            samples: count.samples.saturating_add(1),
            weighted_samples: count.weighted_samples.saturating_add(weight),
        },
    );
}

impl SampleStackModel {
    /// What a sample weighs: its period, or one.
    pub open spec fn weight(self) -> u64 {
        match self.period {
            Some(period) => period,
            None => 1,
        }
    }

    /// The thread of a sample, or else its process.
    pub open spec fn owner(self) -> Option<u32> {
        match self.tid {
            Some(tid) => Some(tid),
            None => self.pid,
        }
    }
}

/// The addresses among the first `count` frames, without context markers.
pub open spec fn addresses(frames: Seq<u64>, count: int) -> Seq<u64>
    decreases count,
{
    if count <= 0 {
        Seq::empty()
    } else if is_marker(frames[count - 1]) {
        addresses(frames, count - 1)
    } else {
        addresses(frames, count - 1).push(frames[count - 1])
    }
}

/// The number of a call edge.
pub open spec fn edge_key(caller: u64, callee: u64) -> u128 {
    (caller * 0x1_0000_0000_0000_0000 + callee) as u128
}

/// The weight of the first `count` samples together.
pub open spec fn total_weight(samples: Seq<SampleStackModel>, count: int) -> u64
    decreases count,
{
    if count <= 0 {
        0
    } else {
        saturating_sum(total_weight(samples, count - 1), samples[count - 1].weight())
    }
}

/// The samples of each thread among the first `count` samples.
pub open spec fn thread_counts(samples: Seq<SampleStackModel>, count: int) -> Map<u128, Count>
    decreases count,
{
    if count <= 0 {
        Map::empty()
    } else {
        let before = thread_counts(samples, count - 1);
        match samples[count - 1].owner() {
            Some(tid) => tallied(before, tid as u128, samples[count - 1].weight()),
            None => before,
        }
    }
}

/// The samples with each leaf address among the first `count` samples.
pub open spec fn leaf_counts(samples: Seq<SampleStackModel>, count: int) -> Map<u128, Count>
    decreases count,
{
    if count <= 0 {
        Map::empty()
    } else {
        let before = leaf_counts(samples, count - 1);
        let sample = samples[count - 1];
        let frames = addresses(sample.callchain, sample.callchain.len() as int);
        if frames.len() > 0 {
            tallied(before, frames[0] as u128, sample.weight())
        } else {
            before
        }
    }
}

/// The counts with the edges among the first `count` frames.
pub open spec fn with_edges(
    counts: Map<u128, Count>,
    frames: Seq<u64>,
    weight: u64,
    count: int,
) -> Map<u128, Count>
    decreases count,
{
    if count <= 1 {
        counts
    } else {
        tallied(
            with_edges(counts, frames, weight, count - 1),
            edge_key(frames[count - 1], frames[count - 2]),
            weight,
        )
    }
}

/// The call edges of the first `count` samples.
pub open spec fn edge_counts(samples: Seq<SampleStackModel>, count: int) -> Map<u128, Count>
    decreases count,
{
    if count <= 0 {
        Map::empty()
    } else {
        let sample = samples[count - 1];
        let frames = addresses(sample.callchain, sample.callchain.len() as int);
        with_edges(
            edge_counts(samples, count - 1),
            frames,
            sample.weight(),
            frames.len() as int,
        )
    }
}

fn sample_addresses(callchain: &Vec<u64>) -> (frames: Vec<u64>)
    ensures
        frames@ == addresses(callchain@, callchain@.len() as int),
{
    let mut frames: Vec<u64> = Vec::new();
    let mut index: usize = 0;
    while index < callchain.len()
        invariant
            index <= callchain@.len(),
            frames@ == addresses(callchain@, index as int),
        decreases callchain@.len() - index,
    {
        if !is_perf_context_marker(callchain[index]) {
            frames.push(callchain[index]);
        }
        index += 1;
    }
    frames
}

/// The caller and the callee that an edge's number stands for.
pub open spec fn edge_ends(key: u128) -> (u64, u64) {
    ((key / 0x1_0000_0000_0000_0000) as u64, (key % 0x1_0000_0000_0000_0000) as u64)
}

/// An edge's number gives back its caller and callee.
pub proof fn edge_key_is_invertible(caller: u64, callee: u64)
    ensures
        edge_ends(edge_key(caller, callee)) == (caller, callee),
{
    let size: int = 0x1_0000_0000_0000_0000;
    assert(caller * size + callee <= u128::MAX) by (nonlinear_arith)
        requires
            caller <= u64::MAX,
            callee <= u64::MAX,
            size == 0x1_0000_0000_0000_0000,
    ;
    assert((caller * size + callee) / size == caller && (caller * size + callee) % size == callee)
        by (nonlinear_arith)
        requires
            0 <= callee < size,
            size == 0x1_0000_0000_0000_0000,
    ;
}

fn edge_number(caller: u64, callee: u64) -> (key: u128)
    ensures
        key == edge_key(caller, callee),
{
    proof {
        assert(caller * 0x1_0000_0000_0000_0000 + callee <= u128::MAX) by (nonlinear_arith)
            requires
                caller <= u64::MAX,
                callee <= u64::MAX,
        ;
    }
    caller as u128 * 0x1_0000_0000_0000_0000 + callee as u128
}

fn add_edges(counts: &mut BTreeMap<u128, Count>, frames: &Vec<u64>, weight: u64)
    ensures
        final(counts)@ == with_edges(old(counts)@, frames@, weight, frames@.len() as int),
{
    let ghost before = counts@;
    if frames.len() == 0 {
        return;
    }
    let mut index: usize = 1;
    while index < frames.len()
        invariant
            1 <= index <= frames@.len(),
            counts@ == with_edges(before, frames@, weight, index as int),
        decreases frames@.len() - index,
    {
        add_count(counts, edge_number(frames[index], frames[index - 1]), weight);
        index += 1;
    }
}

// ---------------------------------------------------------------------------
// Ranking
// ---------------------------------------------------------------------------

impl Ranked for Counted {
    open spec fn before(&self, other: &Self) -> bool {
        self.count.weighted_samples > other.count.weighted_samples || (
        self.count.weighted_samples == other.count.weighted_samples && self.key <= other.key)
    }

    fn in_order(&self, other: &Self) -> (ordered: bool) {
        self.count.weighted_samples > other.count.weighted_samples || (
        self.count.weighted_samples == other.count.weighted_samples && self.key <= other.key)
    }

    proof fn order_is_total(left: &Self, right: &Self) {
    }

    proof fn order_is_transitive(a: &Self, b: &Self, c: &Self) {
    }
}

/// Whether a list holds each count once, heaviest first and by number where weights are equal.
pub open spec fn ranks(list: Seq<Counted>, counts: Map<u128, Count>) -> bool {
    &&& sorted(list)
    &&& list.no_duplicates()
    &&& forall|entry: Counted| #[trigger]
        list.contains(entry) <==> counts.contains_key(entry.key) && counts[entry.key]
            == entry.count
}

/// The first `limit` items, or all where there are fewer.
pub open spec fn first_of<T>(items: Seq<T>, limit: int) -> Seq<T> {
    if limit < items.len() {
        items.subrange(0, limit)
    } else {
        items
    }
}

/// Whether a list is the start of the ranking of some counts, up to a limit.
pub open spec fn top_of(list: Seq<Counted>, counts: Map<u128, Count>, limit: int) -> bool {
    exists|all: Seq<Counted>| #[trigger] ranks(all, counts) && list == first_of(all, limit)
}

/// There is only one ranking of some counts.
pub proof fn ranking_is_unique(left: Seq<Counted>, right: Seq<Counted>, counts: Map<u128, Count>)
    requires
        ranks(left, counts),
        ranks(right, counts),
    ensures
        left == right,
{
    broadcast use vstd::seq_lib::group_to_multiset_ensures;

    assert forall|entry: Counted| left.to_multiset().count(entry) == right.to_multiset().count(
        entry,
    ) by {
        left.lemma_multiset_has_no_duplicates();
        right.lemma_multiset_has_no_duplicates();
        assert(left.contains(entry) <==> right.contains(entry));
    }
    assert(left.to_multiset() =~= right.to_multiset());
    let leq = |a: Counted, b: Counted|
        a.before(&b) && (a.key == b.key && a.count.weighted_samples == b.count.weighted_samples
            ==> a.count.samples <= b.count.samples);
    assert(vstd::relations::total_ordering(leq));
    assert forall|list: Seq<Counted>, i: int, j: int|
        ranks(list, counts) && 0 <= i < j < list.len() implies leq(
        #[trigger] list[i],
        #[trigger] list[j],
    ) by {
        assert(list.contains(list[i]));
        assert(list.contains(list[j]));
    }
    assert(vstd::relations::sorted_by(left, leq));
    assert(vstd::relations::sorted_by(right, leq));
    vstd::seq_lib::lemma_sorted_unique(left, right, leq);
}

fn rank(counts: &BTreeMap<u128, Count>, limit: usize) -> (list: Vec<Counted>)
    ensures
        top_of(list@, counts@, limit as int),
{
    let mut entries: Vec<Counted> = Vec::new();
    let iter = counts.iter();
    let ghost pairs = iter.remaining();
    for pair in it: iter
        invariant
            it.seq() == pairs,
            entries@.len() == it.index(),
            forall|i: int|
                0 <= i < it.index() ==> (#[trigger] entries@[i]).key == *pairs[i].0
                    && entries@[i].count == *pairs[i].1,
    {
        entries.push(Counted { key: *pair.0, count: *pair.1 });
    }
    let ghost listed = entries@;
    proof {
        assert(listed.no_duplicates()) by {
            assert forall|i: int, j: int|
                0 <= i < listed.len() && 0 <= j < listed.len() && i != j implies listed[i]
                != listed[j] by {
                assert(pairs[i] != pairs[j]);
            }
        }
        assert forall|entry: Counted| #[trigger]
            listed.contains(entry) <==> counts@.contains_key(entry.key) && counts@[entry.key]
                == entry.count by {
            if listed.contains(entry) {
                let i = choose|i: int| 0 <= i < listed.len() && listed[i] == entry;
                assert(counts@.contains_key(*pairs[i].0));
                assert(counts@[*pairs[i].0] == *pairs[i].1);
            }
            if counts@.contains_key(entry.key) && counts@[entry.key] == entry.count {
                assert(pairs.contains((&entry.key, &counts@[entry.key])));
                let i = choose|i: int|
                    0 <= i < pairs.len() && pairs[i] == (&entry.key, &counts@[entry.key]);
                assert(listed[i] == entry);
            }
        }
    }
    let mut list = sort(entries);
    let ghost all = list@;
    proof {
        same_items(all, listed);
        broadcast use vstd::seq_lib::group_to_multiset_ensures;

        listed.lemma_multiset_has_no_duplicates();
        all.lemma_multiset_has_no_duplicates_conv();
        assert(ranks(all, counts@));
        assert(first_of(all, limit as int) == if limit < all.len() {
            all.subrange(0, limit as int)
        } else {
            all
        });
    }
    if limit < list.len() {
        list.truncate(limit);
        assert(list@ =~= all.subrange(0, limit as int));
    }
    assert(list@ == first_of(all, limit as int));
    list
}

// ---------------------------------------------------------------------------
// The report
// ---------------------------------------------------------------------------

/// A thread of the report.
#[verifier::ext_equal]
pub struct ThreadModel {
    pub tid: u32,
    pub comm: Seq<char>,
    pub count: Count,
}

impl View for PerfdataThread {
    type V = ThreadModel;

    open spec fn view(&self) -> ThreadModel {
        ThreadModel {
            tid: self.tid,
            comm: self.comm@,
            count: Count { samples: self.samples, weighted_samples: self.weighted_samples },
        }
    }
}

/// A leaf address of the report.
#[verifier::ext_equal]
pub struct IpModel {
    pub ip: Seq<char>,
    pub count: Count,
}

impl View for PerfdataIpCount {
    type V = IpModel;

    open spec fn view(&self) -> IpModel {
        IpModel {
            ip: self.ip@,
            count: Count { samples: self.samples, weighted_samples: self.weighted_samples },
        }
    }
}

/// A call edge of the report.
#[verifier::ext_equal]
pub struct EdgeModel {
    pub caller: Seq<char>,
    pub callee: Seq<char>,
    pub count: Count,
}

impl View for PerfdataEdgeCount {
    type V = EdgeModel;

    open spec fn view(&self) -> EdgeModel {
        EdgeModel {
            caller: self.caller@,
            callee: self.callee@,
            count: Count { samples: self.samples, weighted_samples: self.weighted_samples },
        }
    }
}

/// An address as sixteen hexadecimal digits.
pub open spec fn ip_text(ip: u64) -> Seq<char> {
    "0x"@ + hexadecimal(ip as nat, 16)
}

fn format_ip(ip: u64) -> (text: String)
    ensures
        text@ == ip_text(ip),
{
    let mut text = "0x".to_string();
    push_hexadecimal(&mut text, ip, 16);
    text
}

/// A thread by its number, with its name where one is known.
pub open spec fn thread_entry(entry: Counted, comms: Map<u32, Seq<char>>) -> ThreadModel {
    let tid = entry.key as u32;
    ThreadModel {
        tid,
        comm: match looked_up(comms, tid) {
            Some(comm) => comm,
            None => "tid "@ + decimal(tid as nat),
        },
        count: entry.count,
    }
}

/// A leaf address by its number.
pub open spec fn ip_entry(entry: Counted) -> IpModel {
    IpModel { ip: ip_text(entry.key as u64), count: entry.count }
}

/// A call edge by its number.
pub open spec fn edge_entry(entry: Counted) -> EdgeModel {
    let (caller, callee) = edge_ends(entry.key);
    EdgeModel { caller: ip_text(caller), callee: ip_text(callee), count: entry.count }
}

/// The threads of a report.
pub open spec fn lists_threads(
    threads: Seq<ThreadModel>,
    counts: Map<u128, Count>,
    comms: Map<u32, Seq<char>>,
    limit: int,
) -> bool {
    exists|list: Seq<Counted>| #[trigger]
        top_of(list, counts, limit) && threads == list.map_values(
            |entry: Counted| thread_entry(entry, comms),
        )
}

/// The leaf addresses of a report.
pub open spec fn lists_ips(ips: Seq<IpModel>, counts: Map<u128, Count>, limit: int) -> bool {
    exists|list: Seq<Counted>| #[trigger]
        top_of(list, counts, limit) && ips == list.map_values(|entry: Counted| ip_entry(entry))
}

/// The call edges of a report.
pub open spec fn lists_edges(edges: Seq<EdgeModel>, counts: Map<u128, Count>, limit: int) -> bool {
    exists|list: Seq<Counted>| #[trigger]
        top_of(list, counts, limit) && edges == list.map_values(
            |entry: Counted| edge_entry(entry),
        )
}

fn ranked_threads(
    threads: &BTreeMap<u128, Count>,
    comms_by_tid: &BTreeMap<u32, String>,
    limit: usize,
) -> (ranked: Vec<PerfdataThread>)
    ensures
        lists_threads(views(ranked@), threads@, texts(comms_by_tid@), limit as int),
{
    let list = rank(threads, limit);
    let mut ranked: Vec<PerfdataThread> = Vec::with_capacity(list.len());
    let ghost comms = texts(comms_by_tid@);
    let mut index: usize = 0;
    while index < list.len()
        invariant
            index <= list@.len(),
            ranked@.len() == index,
            comms == texts(comms_by_tid@),
            forall|i: int|
                0 <= i < index ==> (#[trigger] ranked@[i])@ == thread_entry(list@[i], comms),
        decreases list@.len() - index,
    {
        let tid: u32 = #[verifier::truncate] (list[index].key as u32);
        let comm = match comms_by_tid.get(&tid) {
            Some(comm) => comm.clone(),
            None => {
                let mut comm = "tid ".to_string();
                push_decimal(&mut comm, tid as u128);
                comm
            },
        };
        ranked.push(
            PerfdataThread {
                tid,
                comm,
                samples: list[index].count.samples,
                weighted_samples: list[index].count.weighted_samples,
            },
        );
        index += 1;
    }
    proof {
        assert(views(ranked@) =~= list@.map_values(|entry: Counted| thread_entry(entry, comms)));
        assert(top_of(list@, threads@, limit as int));
    }
    ranked
}

fn ranked_ips(ips: &BTreeMap<u128, Count>, limit: usize) -> (ranked: Vec<PerfdataIpCount>)
    ensures
        lists_ips(views(ranked@), ips@, limit as int),
{
    let list = rank(ips, limit);
    let mut ranked: Vec<PerfdataIpCount> = Vec::with_capacity(list.len());
    let mut index: usize = 0;
    while index < list.len()
        invariant
            index <= list@.len(),
            ranked@.len() == index,
            forall|i: int| 0 <= i < index ==> (#[trigger] ranked@[i])@ == ip_entry(list@[i]),
        decreases list@.len() - index,
    {
        let ip: u64 = #[verifier::truncate] (list[index].key as u64);
        ranked.push(
            PerfdataIpCount {
                ip: format_ip(ip),
                samples: list[index].count.samples,
                weighted_samples: list[index].count.weighted_samples,
            },
        );
        index += 1;
    }
    proof {
        assert(views(ranked@) =~= list@.map_values(|entry: Counted| ip_entry(entry)));
        assert(top_of(list@, ips@, limit as int));
    }
    ranked
}

fn ranked_edges(edges: &BTreeMap<u128, Count>, limit: usize) -> (ranked: Vec<PerfdataEdgeCount>)
    ensures
        lists_edges(views(ranked@), edges@, limit as int),
{
    let list = rank(edges, limit);
    let mut ranked: Vec<PerfdataEdgeCount> = Vec::with_capacity(list.len());
    let mut index: usize = 0;
    while index < list.len()
        invariant
            index <= list@.len(),
            ranked@.len() == index,
            forall|i: int| 0 <= i < index ==> (#[trigger] ranked@[i])@ == edge_entry(list@[i]),
        decreases list@.len() - index,
    {
        let key: u128 = list[index].key;
        let caller: u64 = (key / 0x1_0000_0000_0000_0000) as u64;
        let callee: u64 = (key % 0x1_0000_0000_0000_0000) as u64;
        ranked.push(
            PerfdataEdgeCount {
                caller: format_ip(caller),
                callee: format_ip(callee),
                samples: list[index].count.samples,
                weighted_samples: list[index].count.weighted_samples,
            },
        );
        index += 1;
    }
    proof {
        assert(views(ranked@) =~= list@.map_values(|entry: Counted| edge_entry(entry)));
        assert(top_of(list@, edges@, limit as int));
    }
    ranked
}

/// Builds a compact analysis report from Linux `perf.data` bytes.
///
/// # Errors
///
/// Returns an error when the input cannot be parsed as a supported `perf.data`
/// file.
pub fn analyze_perfdata(bytes: &[u8], limit: usize) -> (result: Result<PerfdataAnalysis, String>)
    ensures
        match (result, summary_of(bytes@)) {
            (Ok(report), Ok(summary)) => {
                let samples = summary.sample_stacks;
                let count = samples.len() as int;
                &&& report.total_records == summary.total_records
                &&& report.total_samples == count
                &&& report.weighted_samples == total_weight(samples, count)
                &&& report.lost_records == summary.lost_records
                &&& lists_threads(
                    views(report.threads@),
                    thread_counts(samples, count),
                    summary.comms_by_tid,
                    limit as int,
                )
                &&& lists_ips(
                    views(report.top_leaf_ips@),
                    leaf_counts(samples, count),
                    limit as int,
                )
                &&& lists_edges(views(report.top_edges@), edge_counts(samples, count), limit as int)
            },
            (Err(error), Err(told)) => error@ == told,
            _ => false,
        },
{
    let summary = summarize_perfdata(bytes)?;
    let mut threads: BTreeMap<u128, Count> = BTreeMap::new();
    let mut leaf_ips: BTreeMap<u128, Count> = BTreeMap::new();
    let mut edges: BTreeMap<u128, Count> = BTreeMap::new();
    let mut weighted_samples: u64 = 0;
    let ghost samples = summary@.sample_stacks;
    let mut index: usize = 0;
    while index < summary.sample_stacks.len()
        invariant
            index <= summary.sample_stacks@.len(),
            samples == views(summary.sample_stacks@),
            weighted_samples == total_weight(samples, index as int),
            threads@ == thread_counts(samples, index as int),
            leaf_ips@ == leaf_counts(samples, index as int),
            edges@ == edge_counts(samples, index as int),
        decreases summary.sample_stacks@.len() - index,
    {
        let sample = &summary.sample_stacks[index];
        assert(samples[index as int] == sample@);
        let weight: u64 = match sample.period {
            Some(period) => period,
            None => 1,
        };
        weighted_samples = weighted_samples.saturating_add(weight);
        let owner: Option<u32> = match sample.tid {
            Some(tid) => Some(tid),
            None => sample.pid,
        };
        if let Some(tid) = owner {
            add_count(&mut threads, tid as u128, weight);
        }
        let frames = sample_addresses(&sample.callchain);
        if frames.len() > 0 {
            add_count(&mut leaf_ips, frames[0] as u128, weight);
        }
        add_edges(&mut edges, &frames, weight);
        index += 1;
    }
    Ok(
        PerfdataAnalysis {
            total_records: summary.total_records,
            total_samples: summary.sample_stacks.len(),
            weighted_samples,
            lost_records: summary.lost_records,
            threads: ranked_threads(&threads, &summary.comms_by_tid, limit),
            top_leaf_ips: ranked_ips(&leaf_ips, limit),
            top_edges: ranked_edges(&edges, limit),
        },
    )
}

// ---------------------------------------------------------------------------
// Laws
// ---------------------------------------------------------------------------

/// Whether a text comes in front of another: they are alike up to a place where it has the lesser
/// character.
pub open spec fn text_before(left: Seq<char>, right: Seq<char>) -> bool {
    exists|i: int|
        0 <= i < left.len() && i < right.len() && left.subrange(0, i) == right.subrange(0, i) && (
        #[trigger] left[i]) < right[i]
}

/// The numbers of so many hexadecimal digits.
spec fn digits_room(width: nat) -> nat
    decreases width,
{
    if width == 0 {
        1
    } else {
        16 * digits_room((width - 1) as nat)
    }
}

proof fn digits_are_as_many_as_asked_for(n: nat, width: nat)
    requires
        width > 0,
        n < digits_room(width),
    ensures
        hexadecimal(n, width).len() == width,
        width > 1 ==> hexadecimal(n, width) == hexadecimal(n / 16, (width - 1) as nat).push(
            digit_char(n % 16),
        ),
    decreases width,
{
    reveal_with_fuel(digits_room, 2);
    if width > 1 {
        digits_are_as_many_as_asked_for(n / 16, (width - 1) as nat);
    }
}

proof fn digits_are_ordered_as_numbers(left: nat, right: nat, width: nat)
    requires
        width > 0,
        left < right < digits_room(width),
    ensures
        text_before(hexadecimal(left, width), hexadecimal(right, width)),
    decreases width,
{
    reveal_with_fuel(digits_room, 2);
    digits_are_as_many_as_asked_for(left, width);
    digits_are_as_many_as_asked_for(right, width);
    let (a, b) = (hexadecimal(left, width), hexadecimal(right, width));
    if width == 1 {
        assert(a.subrange(0, 0) =~= b.subrange(0, 0));
        assert(a[0] < b[0]);
    } else {
        let rest = (width - 1) as nat;
        digits_are_as_many_as_asked_for(left / 16, rest);
        digits_are_as_many_as_asked_for(right / 16, rest);
        let (front, back) = (hexadecimal(left / 16, rest), hexadecimal(right / 16, rest));
        if left / 16 == right / 16 {
            assert(a.subrange(0, rest as int) =~= b.subrange(0, rest as int));
            assert(a[rest as int] < b[rest as int]);
        } else {
            digits_are_ordered_as_numbers(left / 16, right / 16, rest);
            let i = choose|i: int|
                0 <= i < front.len() && i < back.len() && front.subrange(0, i) == back.subrange(
                    0,
                    i,
                ) && (#[trigger] front[i]) < back[i];
            assert(a.subrange(0, i) =~= front.subrange(0, i));
            assert(b.subrange(0, i) =~= back.subrange(0, i));
            assert(a[i] == front[i] && b[i] == back[i]);
        }
    }
}

proof fn sixteen_digits_hold_an_address()
    ensures
        digits_room(16) == 0x1_0000_0000_0000_0000,
{
    reveal_with_fuel(digits_room, 17);
}

/// The texts of addresses are equally long, and are ordered as the addresses are.
pub proof fn ip_texts_are_ordered(left: u64, right: u64)
    ensures
        ip_text(left).len() == 18,
        left < right ==> text_before(ip_text(left), ip_text(right)),
{
    reveal_strlit("0x");
    sixteen_digits_hold_an_address();
    digits_are_as_many_as_asked_for(left as nat, 16);
    digits_are_as_many_as_asked_for(right as nat, 16);
    if left < right {
        digits_are_ordered_as_numbers(left as nat, right as nat, 16);
        let (a, b) = (hexadecimal(left as nat, 16), hexadecimal(right as nat, 16));
        let i = choose|i: int|
            0 <= i < a.len() && i < b.len() && a.subrange(0, i) == b.subrange(0, i) && (
            #[trigger] a[i]) < b[i];
        let (whole, other) = (ip_text(left), ip_text(right));
        assert(whole.subrange(0, i + 2) =~= "0x"@ + a.subrange(0, i));
        assert(other.subrange(0, i + 2) =~= "0x"@ + b.subrange(0, i));
        assert(whole[i + 2] == a[i] && other[i + 2] == b[i]);
    }
}

/// Different addresses have different texts.
pub proof fn ip_texts_are_distinct(left: u64, right: u64)
    requires
        left != right,
    ensures
        ip_text(left) != ip_text(right),
{
    ip_texts_are_ordered(left, right);
    ip_texts_are_ordered(right, left);
}

/// The start of a ranking holds no more entries than asked for and no number twice, heaviest
/// first and by number where weights are equal. What it leaves out comes behind all it holds, and
/// is left out only where it is full.
pub proof fn top_is_ranked(list: Seq<Counted>, counts: Map<u128, Count>, limit: int)
    requires
        0 <= limit,
        top_of(list, counts, limit),
    ensures
        list.len() <= limit,
        forall|i: int, j: int|
            #![trigger list[i], list[j]]
            0 <= i < j < list.len() ==> list[i].before(&list[j]) && list[i].key != list[j].key,
        forall|i: int|
            0 <= i < list.len() ==> counts.contains_key((#[trigger] list[i]).key)
                && counts[list[i].key] == list[i].count,
        forall|key: u128| #[trigger]
            counts.contains_key(key) ==> is_listed(list, key) || (list.len() == limit
                && comes_behind(list, Counted { key, count: counts[key] })),
{
    let all = choose|all: Seq<Counted>| #[trigger]
        ranks(all, counts) && list == first_of(all, limit);
    assert forall|i: int, j: int|
        #![trigger list[i], list[j]]
        0 <= i < j < list.len() implies list[i].before(&list[j]) && list[i].key != list[j].key by {
        assert(list[i] == all[i] && list[j] == all[j]);
        assert(all.contains(all[i]) && all.contains(all[j]));
    }
    assert forall|i: int| 0 <= i < list.len() implies counts.contains_key((#[trigger] list[i]).key)
        && counts[list[i].key] == list[i].count by {
        assert(all.contains(all[i]));
    }
    assert forall|key: u128| #[trigger] counts.contains_key(key) implies is_listed(list, key) || (
    list.len() == limit && comes_behind(list, Counted { key, count: counts[key] })) by {
        let entry = Counted { key, count: counts[key] };
        assert(all.contains(entry));
        let at = choose|at: int| 0 <= at < all.len() && all[at] == entry;
        if at < list.len() {
            assert(list[at].key == key);
        } else {
            assert forall|i: int| 0 <= i < list.len() implies (#[trigger] list[i]).before(
                &entry,
            ) by {
                assert(list[i] == all[i]);
            }
        }
    }
}

/// Whether a list has an entry for a number.
pub open spec fn is_listed(list: Seq<Counted>, key: u128) -> bool {
    exists|i: int| 0 <= i < list.len() && (#[trigger] list[i]).key == key
}

/// Whether an entry comes behind all of a list.
pub open spec fn comes_behind(list: Seq<Counted>, entry: Counted) -> bool {
    forall|i: int| 0 <= i < list.len() ==> (#[trigger] list[i]).before(&entry)
}

/// Whether numbers of counted things stay in a range.
pub open spec fn keys_fit(counts: Map<u128, Count>, max: u128) -> bool {
    forall|key: u128| #[trigger] counts.contains_key(key) ==> key <= max
}

proof fn thread_keys_fit(samples: Seq<SampleStackModel>, count: int)
    ensures
        keys_fit(thread_counts(samples, count), u32::MAX as u128),
    decreases count,
{
    if count > 0 {
        thread_keys_fit(samples, count - 1);
    }
}

proof fn leaf_keys_fit(samples: Seq<SampleStackModel>, count: int)
    ensures
        keys_fit(leaf_counts(samples, count), u64::MAX as u128),
    decreases count,
{
    if count > 0 {
        leaf_keys_fit(samples, count - 1);
    }
}

/// The threads of a report are no more than asked for and no thread is listed twice. They are
/// listed by weight, heaviest first, and by number where weights are equal.
pub proof fn listed_threads_are_ranked(
    threads: Seq<ThreadModel>,
    samples: Seq<SampleStackModel>,
    comms: Map<u32, Seq<char>>,
    limit: int,
)
    requires
        0 <= limit,
        lists_threads(threads, thread_counts(samples, samples.len() as int), comms, limit),
    ensures
        threads.len() <= limit,
        forall|i: int, j: int|
            0 <= i < j < threads.len() ==> (#[trigger] threads[i]).tid != (
            #[trigger] threads[j]).tid && (threads[i].count.weighted_samples
                > threads[j].count.weighted_samples || (threads[i].count.weighted_samples
                == threads[j].count.weighted_samples && threads[i].tid < threads[j].tid)),
{
    let counts = thread_counts(samples, samples.len() as int);
    thread_keys_fit(samples, samples.len() as int);
    let list = choose|list: Seq<Counted>| #[trigger]
        top_of(list, counts, limit) && threads == list.map_values(
            |entry: Counted| thread_entry(entry, comms),
        );
    top_is_ranked(list, counts, limit);
    assert forall|i: int, j: int| 0 <= i < j < threads.len() implies (#[trigger] threads[i]).tid
        != (#[trigger] threads[j]).tid && (threads[i].count.weighted_samples
        > threads[j].count.weighted_samples || (threads[i].count.weighted_samples
        == threads[j].count.weighted_samples && threads[i].tid < threads[j].tid)) by {
        assert(list[i].before(&list[j]));
        assert(counts.contains_key(list[i].key) && counts.contains_key(list[j].key));
    }
}

/// The leaf addresses of a report are no more than asked for, and no text is listed twice. They
/// are listed by weight, heaviest first, and by their text where weights are equal.
pub proof fn listed_ips_are_ranked(
    ips: Seq<IpModel>,
    samples: Seq<SampleStackModel>,
    limit: int,
)
    requires
        0 <= limit,
        lists_ips(ips, leaf_counts(samples, samples.len() as int), limit),
    ensures
        ips.len() <= limit,
        forall|i: int, j: int|
            0 <= i < j < ips.len() ==> (#[trigger] ips[i]).ip != (#[trigger] ips[j]).ip && (
            ips[i].count.weighted_samples > ips[j].count.weighted_samples || (
            ips[i].count.weighted_samples == ips[j].count.weighted_samples && text_before(
                ips[i].ip,
                ips[j].ip,
            ))),
{
    let counts = leaf_counts(samples, samples.len() as int);
    leaf_keys_fit(samples, samples.len() as int);
    let list = choose|list: Seq<Counted>| #[trigger]
        top_of(list, counts, limit) && ips == list.map_values(|entry: Counted| ip_entry(entry));
    top_is_ranked(list, counts, limit);
    assert forall|i: int, j: int| 0 <= i < j < ips.len() implies (#[trigger] ips[i]).ip != (
    #[trigger] ips[j]).ip && (ips[i].count.weighted_samples > ips[j].count.weighted_samples || (
    ips[i].count.weighted_samples == ips[j].count.weighted_samples && text_before(
        ips[i].ip,
        ips[j].ip,
    ))) by {
        assert(list[i].before(&list[j]));
        assert(counts.contains_key(list[i].key) && counts.contains_key(list[j].key));
        let (a, b) = (list[i].key as u64, list[j].key as u64);
        ip_texts_are_distinct(a, b);
        ip_texts_are_ordered(a, b);
    }
}

/// The call edges of a report are no more than asked for, and no pair of texts is listed twice.
/// They are listed by weight, heaviest first, and by caller, then callee, where weights are
/// equal.
pub proof fn listed_edges_are_ranked(edges: Seq<EdgeModel>, counts: Map<u128, Count>, limit: int)
    requires
        0 <= limit,
        lists_edges(edges, counts, limit),
    ensures
        edges.len() <= limit,
        forall|i: int, j: int|
            0 <= i < j < edges.len() ==> ((#[trigger] edges[i]).caller != (
            #[trigger] edges[j]).caller || edges[i].callee != edges[j].callee) && (
            edges[i].count.weighted_samples > edges[j].count.weighted_samples || (
            edges[i].count.weighted_samples == edges[j].count.weighted_samples && (text_before(
                edges[i].caller,
                edges[j].caller,
            ) || (edges[i].caller == edges[j].caller && text_before(
                edges[i].callee,
                edges[j].callee,
            ))))),
{
    let list = choose|list: Seq<Counted>| #[trigger]
        top_of(list, counts, limit) && edges == list.map_values(
            |entry: Counted| edge_entry(entry),
        );
    top_is_ranked(list, counts, limit);
    assert forall|i: int, j: int| 0 <= i < j < edges.len() implies ((#[trigger] edges[i]).caller
        != (#[trigger] edges[j]).caller || edges[i].callee != edges[j].callee) && (
    edges[i].count.weighted_samples > edges[j].count.weighted_samples || (
    edges[i].count.weighted_samples == edges[j].count.weighted_samples && (text_before(
        edges[i].caller,
        edges[j].caller,
    ) || (edges[i].caller == edges[j].caller && text_before(
        edges[i].callee,
        edges[j].callee,
    ))))) by {
        assert(list[i].before(&list[j]));
        let (left, right) = (list[i].key, list[j].key);
        let (a, b) = (edge_ends(left), edge_ends(right));
        assert(a.0 == left / 0x1_0000_0000_0000_0000 && a.1 == left % 0x1_0000_0000_0000_0000);
        assert(b.0 == right / 0x1_0000_0000_0000_0000 && b.1 == right % 0x1_0000_0000_0000_0000);
        if a.0 != b.0 {
            ip_texts_are_distinct(a.0, b.0);
            ip_texts_are_ordered(a.0, b.0);
        } else {
            ip_texts_are_distinct(a.1, b.1);
            ip_texts_are_ordered(a.1, b.1);
        }
    }
}

// ---------------------------------------------------------------------------
// What is counted
// ---------------------------------------------------------------------------

/// How often a number stands among sightings.
pub open spec fn times_seen(sightings: Seq<(u128, u64)>, key: u128) -> nat {
    sightings.filter(|sighting: (u128, u64)| sighting.0 == key).len()
}

/// What the sightings of a number weigh together.
pub open spec fn weight_seen(sightings: Seq<(u128, u64)>, key: u128) -> nat
    decreases sightings.len(),
{
    if sightings.len() == 0 {
        0
    } else if sightings.last().0 == key {
        weight_seen(sightings.drop_last(), key) + sightings.last().1 as nat
    } else {
        weight_seen(sightings.drop_last(), key)
    }
}

/// A number, or a limit where it is larger.
pub open spec fn limited(number: nat, limit: nat) -> nat {
    if number <= limit {
        number
    } else {
        limit
    }
}

/// Whether counts hold just the numbers that were seen, each with how often it was seen and what
/// its sightings weigh.
pub open spec fn counts_sightings(
    counts: Map<u128, Count>,
    sightings: Seq<(u128, u64)>,
) -> bool {
    forall|key: u128|
        {
            &&& #[trigger] counts.contains_key(key) <==> times_seen(sightings, key) > 0
            &&& counts.contains_key(key) ==> counts[key].samples == limited(
                times_seen(sightings, key),
                usize::MAX as nat,
            ) && counts[key].weighted_samples == limited(
                weight_seen(sightings, key),
                u64::MAX as nat,
            )
        }
}

proof fn one_more_is_seen(sightings: Seq<(u128, u64)>, seen: (u128, u64), key: u128)
    ensures
        times_seen(sightings.push(seen), key) == times_seen(sightings, key) + if seen.0 == key {
            1nat
        } else {
            0
        },
        weight_seen(sightings.push(seen), key) == weight_seen(sightings, key) + if seen.0 == key {
            seen.1 as nat
        } else {
            0
        },
{
    reveal(Seq::filter);
    assert(sightings.push(seen).drop_last() =~= sightings);
}

proof fn unseen_weighs_nothing(sightings: Seq<(u128, u64)>, key: u128)
    requires
        times_seen(sightings, key) == 0,
    ensures
        weight_seen(sightings, key) == 0,
    decreases sightings.len(),
{
    if sightings.len() > 0 {
        assert(sightings =~= sightings.drop_last().push(sightings.last()));
        one_more_is_seen(sightings.drop_last(), sightings.last(), key);
        unseen_weighs_nothing(sightings.drop_last(), key);
    }
}

proof fn one_more_is_counted(
    counts: Map<u128, Count>,
    sightings: Seq<(u128, u64)>,
    key: u128,
    weight: u64,
)
    requires
        counts_sightings(counts, sightings),
    ensures
        counts_sightings(tallied(counts, key, weight), sightings.push((key, weight))),
{
    let after = tallied(counts, key, weight);
    let more = sightings.push((key, weight));
    assert forall|other: u128|
        {
            &&& #[trigger] after.contains_key(other) <==> times_seen(more, other) > 0
            &&& after.contains_key(other) ==> after[other].samples == limited(
                times_seen(more, other),
                usize::MAX as nat,
            ) && after[other].weighted_samples == limited(
                weight_seen(more, other),
                u64::MAX as nat,
            )
        } by {
        one_more_is_seen(sightings, (key, weight), other);
        assert(counts.contains_key(other) <==> times_seen(sightings, other) > 0);
        if !counts.contains_key(other) {
            unseen_weighs_nothing(sightings, other);
        }
    }
}

/// What a sample weighs in a report: its period, and one where it has none.
pub open spec fn sample_weight(sample: SampleStackModel) -> u64 {
    if sample.period is Some {
        sample.period->0
    } else {
        1
    }
}

/// The stack of a sample, innermost first, without the marks between its contexts.
pub open spec fn sample_stack(sample: SampleStackModel) -> Seq<u64> {
    sample.callchain.filter(|frame: u64| frame < 0xffff_ffff_ffff_f000)
}

/// The sighting of a sample's thread, or of its process where the thread is not known.
pub open spec fn thread_sighting(sample: SampleStackModel) -> Seq<(u128, u64)> {
    if sample.tid is Some {
        seq![(sample.tid->0 as u128, sample_weight(sample))]
    } else if sample.pid is Some {
        seq![(sample.pid->0 as u128, sample_weight(sample))]
    } else {
        Seq::empty()
    }
}

/// The sighting of a sample's innermost address.
pub open spec fn leaf_sighting(sample: SampleStackModel) -> Seq<(u128, u64)> {
    if sample_stack(sample).len() > 0 {
        seq![(sample_stack(sample)[0] as u128, sample_weight(sample))]
    } else {
        Seq::empty()
    }
}

/// The sightings of a sample's calls: every address but the outermost was called from the next.
pub open spec fn edge_sightings(sample: SampleStackModel) -> Seq<(u128, u64)> {
    let stack = sample_stack(sample);
    Seq::new(
        if stack.len() > 0 {
            (stack.len() - 1) as nat
        } else {
            0
        },
        |i: int| (edge_key(stack[i + 1], stack[i]), sample_weight(sample)),
    )
}

proof fn addresses_are_filtered(frames: Seq<u64>, count: int)
    requires
        0 <= count <= frames.len(),
    ensures
        addresses(frames, count) == frames.take(count).filter(
            |frame: u64| frame < 0xffff_ffff_ffff_f000,
        ),
    decreases count,
{
    reveal(Seq::filter);
    if count > 0 {
        addresses_are_filtered(frames, count - 1);
        assert(frames.take(count).drop_last() =~= frames.take(count - 1));
        assert(frames.take(count).last() == frames[count - 1]);
    } else {
        assert(frames.take(0) =~= Seq::empty());
    }
}

/// The addresses of a sample are its frames without the marks between contexts, in their order.
pub proof fn addresses_are_what_is_no_marker(sample: SampleStackModel)
    ensures
        addresses(sample.callchain, sample.callchain.len() as int) == sample_stack(sample),
{
    addresses_are_filtered(sample.callchain, sample.callchain.len() as int);
    assert(sample.callchain.take(sample.callchain.len() as int) =~= sample.callchain);
}

proof fn edges_are_counted_up_to(
    counts: Map<u128, Count>,
    sightings: Seq<(u128, u64)>,
    sample: SampleStackModel,
    count: int,
)
    requires
        counts_sightings(counts, sightings),
        0 <= count <= sample_stack(sample).len(),
    ensures
        counts_sightings(
            with_edges(counts, sample_stack(sample), sample_weight(sample), count),
            sightings + edge_sightings(sample).take(
                if count > 0 {
                    count - 1
                } else {
                    0
                },
            ),
        ),
    decreases count,
{
    let stack = sample_stack(sample);
    let edges = edge_sightings(sample);
    if count > 1 {
        edges_are_counted_up_to(counts, sightings, sample, count - 1);
        let weight = sample_weight(sample);
        let key = edge_key(stack[count - 1], stack[count - 2]);
        assert(edges[count - 2] == (key, weight));
        assert(sightings + edges.take(count - 1) =~= (sightings + edges.take(count - 2)).push(
            (key, weight),
        ));
        one_more_is_counted(
            with_edges(counts, stack, weight, count - 1),
            sightings + edges.take(count - 2),
            key,
            weight,
        );
    } else {
        assert(sightings + edges.take(0) =~= sightings);
    }
}

proof fn sightings_are_counted_up_to(samples: Seq<SampleStackModel>, count: int)
    requires
        0 <= count <= samples.len(),
    ensures
        counts_sightings(
            thread_counts(samples, count),
            samples.take(count).map_values(
                |sample: SampleStackModel| thread_sighting(sample),
            ).flatten(),
        ),
        counts_sightings(
            leaf_counts(samples, count),
            samples.take(count).map_values(
                |sample: SampleStackModel| leaf_sighting(sample),
            ).flatten(),
        ),
        counts_sightings(
            edge_counts(samples, count),
            samples.take(count).map_values(
                |sample: SampleStackModel| edge_sightings(sample),
            ).flatten(),
        ),
    decreases count,
{
    reveal(Seq::filter);
    let thread = |sample: SampleStackModel| thread_sighting(sample);
    let leaf = |sample: SampleStackModel| leaf_sighting(sample);
    let edge = |sample: SampleStackModel| edge_sightings(sample);
    if count > 0 {
        sightings_are_counted_up_to(samples, count - 1);
        let sample = samples[count - 1];
        let before = samples.take(count - 1);
        let weight = sample_weight(sample);
        assert(weight == sample.weight());
        assert(samples.take(count) =~= before.push(sample));
        assert(samples.take(count).map_values(thread) =~= before.map_values(thread).push(
            thread_sighting(sample),
        ));
        assert(samples.take(count).map_values(leaf) =~= before.map_values(leaf).push(
            leaf_sighting(sample),
        ));
        assert(samples.take(count).map_values(edge) =~= before.map_values(edge).push(
            edge_sightings(sample),
        ));
        let threads = before.map_values(thread).flatten();
        let leaves = before.map_values(leaf).flatten();
        let edges = before.map_values(edge).flatten();
        before.map_values(thread).lemma_flatten_push(thread_sighting(sample));
        before.map_values(leaf).lemma_flatten_push(leaf_sighting(sample));
        before.map_values(edge).lemma_flatten_push(edge_sightings(sample));
        addresses_are_what_is_no_marker(sample);
        match sample.owner() {
            Some(tid) => {
                assert(threads + thread_sighting(sample) =~= threads.push((tid as u128, weight)));
                one_more_is_counted(
                    thread_counts(samples, count - 1),
                    threads,
                    tid as u128,
                    weight,
                );
            },
            None => {
                assert(threads + thread_sighting(sample) =~= threads);
            },
        }
        let stack = sample_stack(sample);
        if stack.len() > 0 {
            assert(leaves + leaf_sighting(sample) =~= leaves.push((stack[0] as u128, weight)));
            one_more_is_counted(
                leaf_counts(samples, count - 1),
                leaves,
                stack[0] as u128,
                weight,
            );
        } else {
            assert(leaves + leaf_sighting(sample) =~= leaves);
        }
        edges_are_counted_up_to(
            edge_counts(samples, count - 1),
            edges,
            sample,
            stack.len() as int,
        );
        let all = edge_sightings(sample);
        assert(all.take(all.len() as int) =~= all);
    } else {
        assert(samples.take(0).map_values(thread) =~= Seq::empty());
        assert(samples.take(0).map_values(leaf) =~= Seq::empty());
        assert(samples.take(0).map_values(edge) =~= Seq::empty());
        assert(Seq::<Seq<(u128, u64)>>::empty().flatten() =~= Seq::empty());
    }
}

proof fn all_sightings_are_counted(samples: Seq<SampleStackModel>)
    ensures
        counts_sightings(
            thread_counts(samples, samples.len() as int),
            samples.map_values(|sample: SampleStackModel| thread_sighting(sample)).flatten(),
        ),
        counts_sightings(
            leaf_counts(samples, samples.len() as int),
            samples.map_values(|sample: SampleStackModel| leaf_sighting(sample)).flatten(),
        ),
        counts_sightings(
            edge_counts(samples, samples.len() as int),
            samples.map_values(|sample: SampleStackModel| edge_sightings(sample)).flatten(),
        ),
{
    sightings_are_counted_up_to(samples, samples.len() as int);
    assert(samples.take(samples.len() as int) =~= samples);
}

/// A call edge is counted once for every place, in any sample, where its callee stands in the
/// stack and its caller stands next to it on the outer side; each counts with the weight of its
/// sample. No other edge is counted.
pub proof fn every_edge_of_every_stack_is_counted(samples: Seq<SampleStackModel>)
    ensures
        counts_sightings(
            edge_counts(samples, samples.len() as int),
            samples.map_values(|sample: SampleStackModel| edge_sightings(sample)).flatten(),
        ),
{
    all_sightings_are_counted(samples);
}

/// An address is counted as a leaf once for every sample whose innermost address it is, with the
/// weight of that sample.
pub proof fn every_leaf_is_counted(samples: Seq<SampleStackModel>)
    ensures
        counts_sightings(
            leaf_counts(samples, samples.len() as int),
            samples.map_values(|sample: SampleStackModel| leaf_sighting(sample)).flatten(),
        ),
{
    all_sightings_are_counted(samples);
}

/// A thread is counted once for every sample that was taken in it, with the weight of that sample.
pub proof fn every_thread_is_counted(samples: Seq<SampleStackModel>)
    ensures
        counts_sightings(
            thread_counts(samples, samples.len() as int),
            samples.map_values(|sample: SampleStackModel| thread_sighting(sample)).flatten(),
        ),
{
    all_sightings_are_counted(samples);
}

/// All edges together are seen once less per sample than it has addresses.
pub proof fn a_stack_has_one_edge_less_than_addresses(samples: Seq<SampleStackModel>)
    ensures
        samples.map_values(
            |sample: SampleStackModel| edge_sightings(sample),
        ).flatten().len() == edges_expected(samples),
    decreases samples.len(),
{
    let edge = |sample: SampleStackModel| edge_sightings(sample);
    if samples.len() > 0 {
        a_stack_has_one_edge_less_than_addresses(samples.drop_last());
        assert(samples.map_values(edge) =~= samples.drop_last().map_values(edge).push(
            edge_sightings(samples.last()),
        ));
        samples.drop_last().map_values(edge).lemma_flatten_push(edge_sightings(samples.last()));
    } else {
        assert(samples.map_values(edge) =~= Seq::empty());
    }
}

/// How many addresses of samples have a caller.
pub open spec fn edges_expected(samples: Seq<SampleStackModel>) -> nat
    decreases samples.len(),
{
    if samples.len() == 0 {
        0
    } else {
        edges_expected(samples.drop_last()) + if sample_stack(samples.last()).len() > 0 {
            (sample_stack(samples.last()).len() - 1) as nat
        } else {
            0
        }
    }
}

/// The numbers of edges are in the order of their callers, and where these are equal in that of
/// their callees.
pub proof fn edges_are_numbered_in_order(
    caller: u64,
    callee: u64,
    other_caller: u64,
    other_callee: u64,
)
    ensures
        edge_key(caller, callee) < edge_key(other_caller, other_callee) <==> caller < other_caller
            || caller == other_caller && callee < other_callee,
{
    let size: int = 0x1_0000_0000_0000_0000;
    assert(caller * size + callee <= u128::MAX && other_caller * size + other_callee <= u128::MAX)
        by (nonlinear_arith)
        requires
            caller <= u64::MAX,
            callee <= u64::MAX,
            other_caller <= u64::MAX,
            other_callee <= u64::MAX,
            size == 0x1_0000_0000_0000_0000,
    ;
}

/// What samples weigh together.
pub open spec fn weights_together(samples: Seq<SampleStackModel>) -> nat
    decreases samples.len(),
{
    if samples.len() == 0 {
        0
    } else {
        weights_together(samples.drop_last()) + sample_weight(samples.last()) as nat
    }
}

proof fn weights_add_up_to(samples: Seq<SampleStackModel>, count: int)
    requires
        0 <= count <= samples.len(),
    ensures
        total_weight(samples, count) == limited(
            weights_together(samples.take(count)),
            u64::MAX as nat,
        ),
    decreases count,
{
    if count > 0 {
        weights_add_up_to(samples, count - 1);
        assert(samples.take(count).drop_last() =~= samples.take(count - 1));
    }
}

/// The weight of a report is the sum of its samples' weights, as far as there are numbers for it.
pub proof fn weights_add_up(samples: Seq<SampleStackModel>)
    ensures
        total_weight(samples, samples.len() as int) == limited(
            weights_together(samples),
            u64::MAX as nat,
        ),
{
    weights_add_up_to(samples, samples.len() as int);
    assert(samples.take(samples.len() as int) =~= samples);
}

/// A ranking holds each count just once, and no count stands behind one that weighs less; where
/// two weigh the same, the smaller number stands in front.
pub proof fn heaviest_counts_come_first(list: Seq<Counted>, counts: Map<u128, Count>)
    requires
        ranks(list, counts),
    ensures
        forall|i: int, j: int|
            #![trigger list[i], list[j]]
            0 <= i < j < list.len() ==> list[i].count.weighted_samples
                > list[j].count.weighted_samples || (list[i].count.weighted_samples
                == list[j].count.weighted_samples && list[i].key < list[j].key),
        forall|key: u128|
            #[trigger] counts.contains_key(key) <==> list.contains(
                Counted { key, count: counts[key] },
            ),
{
    assert forall|i: int, j: int|
        #![trigger list[i], list[j]]
        0 <= i < j < list.len() implies list[i].count.weighted_samples
        > list[j].count.weighted_samples || (list[i].count.weighted_samples
        == list[j].count.weighted_samples && list[i].key < list[j].key) by {
        assert(list[i].before(&list[j]));
        assert(list.contains(list[i]));
        assert(list.contains(list[j]));
        assert(list[i] != list[j]);
    }
    assert forall|key: u128|
        #[trigger] counts.contains_key(key) <==> list.contains(
            Counted { key, count: counts[key] },
        ) by {
        let entry = Counted { key, count: counts[key] };
        assert(list.contains(entry) <==> counts.contains_key(entry.key) && counts[entry.key]
            == entry.count);
    }
}

} // verus!
