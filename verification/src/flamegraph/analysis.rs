//! What a rendered flame graph shows: its entries, searches and categories.

use vstd::prelude::*;
use vstd::slice::slice_subrange;

use crate::ranking::{
    group_by_name, groups_names, has_name, holds_name, is_grouped, largest_first,
    largest_first_is_unique, lists_largest_first, name_before, name_views, NameGroup,
};
use crate::text::{
    beginning_is_being_in_front, begins_with, character_is_found_last, chars_of, contains_text,
    find_text, first_at, first_at_is_first, holding_is_being_between, holds_text, is_blank,
    is_free_of, last_at, last_char, lowercase, only_space_is_trimmed, parse_number, pieces_from,
    rfind_char, rfind_text, same_text, split_text, stands_at, starts_with, stated_number,
    text_is_found_last, text_of, text_stands_between, to_lowercase, trim, trimmed, views,
};

verus! {

/// An entry of a flame graph: a function, its samples, and its share as it is printed.
#[derive(Clone, Debug, Eq, PartialEq)]
pub struct FlamegraphEntry {
    pub name: String,
    pub samples: u64,
    pub percent: String,
}

/// The contents of a [`FlamegraphEntry`].
#[verifier::ext_equal]
pub struct EntryModel {
    pub name: Seq<char>,
    pub samples: u64,
    pub percent: Seq<char>,
}

impl View for FlamegraphEntry {
    type V = EntryModel;

    open spec fn view(&self) -> EntryModel {
        EntryModel { name: self.name@, samples: self.samples, percent: self.percent@ }
    }
}

/// The first `count` characters without commas.
pub open spec fn without_commas(chars: Seq<char>, count: int) -> Seq<char>
    decreases count,
{
    if count <= 0 {
        Seq::empty()
    } else if chars[count - 1] == ',' {
        without_commas(chars, count - 1)
    } else {
        without_commas(chars, count - 1).push(chars[count - 1])
    }
}

fn drop_commas(chars: &[char]) -> (kept: Vec<char>)
    ensures
        kept@ == without_commas(chars@, chars@.len() as int),
{
    let mut kept: Vec<char> = Vec::new();
    let mut i: usize = 0;
    while i < chars.len()
        invariant
            i <= chars.len(),
            kept@ == without_commas(chars@, i as int),
        decreases chars.len() - i,
    {
        if chars[i] != ',' {
            kept.push(chars[i]);
        }
        i += 1;
    }
    kept
}

/// What the bracket at the end of a title says: samples and share.
pub open spec fn title_numbers(meta: Seq<char>) -> Option<(u64, Seq<char>)> {
    let samples_end = first_at(meta, " samples"@, 0);
    if samples_end >= meta.len() {
        None
    } else {
        let digits = meta.subrange(0, samples_end);
        match (
            stated_number(without_commas(digits, digits.len() as int)),
            last_at(meta, ", "@, meta.len() as int),
            last_char(meta, '%', meta.len() as int),
        ) {
            (Some(samples), Some(comma), Some(end)) => if comma + 2 <= end {
                Some((samples, meta.subrange(comma + 2, end)))
            } else {
                None
            },
            _ => None,
        }
    }
}

/// The entry of a title: a name, then samples and share in brackets. The root has no entry.
pub open spec fn title_entry(title: Seq<char>) -> Option<EntryModel> {
    match last_char(title, '(', title.len() as int) {
        None => None,
        Some(open) => {
            let name = trimmed(title.subrange(0, open));
            if name.len() == 0 || name == "all"@ {
                None
            } else {
                match title_numbers(title.subrange(open + 1, title.len() as int)) {
                    None => None,
                    Some((samples, percent)) => Some(EntryModel { name, samples, percent }),
                }
            }
        },
    }
}

fn parse_title_numbers(meta: &[char]) -> (numbers: Option<(u64, String)>)
    ensures
        match numbers {
            Some((samples, percent)) => title_numbers(meta@) == Some((samples, percent@)),
            None => title_numbers(meta@) is None,
        },
{
    proof {
        reveal_strlit(", ");
    }
    let samples_end: usize = find_text(meta, " samples", 0);
    if samples_end >= meta.len() {
        return None;
    }
    let digits = drop_commas(slice_subrange(meta, 0, samples_end));
    match (parse_number(digits.as_slice()), rfind_text(meta, ", "), rfind_char(meta, '%')) {
        (Some(samples), Some(comma), Some(end)) => if comma + 2 <= end {
            Some((samples, text_of(slice_subrange(meta, comma + 2, end))))
        } else {
            None
        },
        _ => None,
    }
}

fn parse_title(title: &[char]) -> (entry: Option<FlamegraphEntry>)
    ensures
        match entry {
            Some(entry) => title_entry(title@) == Some(entry@),
            None => title_entry(title@) is None,
        },
{
    let open: usize = match rfind_char(title, '(') {
        Some(open) => open,
        None => return None,
    };
    let name = text_of(trim(slice_subrange(title, 0, open)));
    if name.as_str().unicode_len() == 0 || same_text(name.as_str(), "all") {
        return None;
    }
    match parse_title_numbers(slice_subrange(title, open + 1, title.len())) {
        Some((samples, percent)) => Some(FlamegraphEntry { name, samples, percent }),
        None => None,
    }
}

/// The entries among the first `count` pieces of a picture.
pub open spec fn entries_of(pieces: Seq<Seq<char>>, count: int) -> Seq<EntryModel>
    decreases count,
{
    if count <= 0 {
        Seq::empty()
    } else {
        let piece = pieces[count - 1];
        let end = first_at(piece, "</title>"@, 0);
        if end >= piece.len() {
            entries_of(pieces, count - 1)
        } else {
            match title_entry(piece.subrange(0, end)) {
                None => entries_of(pieces, count - 1),
                Some(entry) => entries_of(pieces, count - 1).push(entry),
            }
        }
    }
}

/// Reads the entries of a flame graph, in the order of the picture.
#[must_use]
pub fn parse_flamegraph_entries(svg: &str) -> (entries: Vec<FlamegraphEntry>)
    ensures
        views(entries@) == entries_of(
            pieces_from(svg@, "<title>"@, 0),
            pieces_from(svg@, "<title>"@, 0).len() as int,
        ),
{
    proof {
        reveal_strlit("<title>");
    }
    let chars = chars_of(svg);
    let pieces = split_text(chars.as_slice(), "<title>");
    let ghost all = views(pieces@);
    let mut entries: Vec<FlamegraphEntry> = Vec::new();
    let mut index: usize = 0;
    assert(views(entries@) =~= Seq::empty());
    while index < pieces.len()
        invariant
            index <= pieces@.len(),
            all == views(pieces@),
            views(entries@) == entries_of(all, index as int),
        decreases pieces@.len() - index,
    {
        let piece = pieces[index].as_slice();
        assert(all[index as int] == piece@);
        let end: usize = find_text(piece, "</title>", 0);
        if end < piece.len() {
            if let Some(entry) = parse_title(slice_subrange(piece, 0, end)) {
                let ghost before = views(entries@);
                entries.push(entry);
                assert(views(entries@) =~= before.push(entry@));
            }
        }
        index += 1;
    }
    entries
}

fn copy_entry(entry: &FlamegraphEntry, name: String) -> (copy: FlamegraphEntry)
    ensures
        copy@ == (EntryModel { name: name@, ..entry@ }),
{
    FlamegraphEntry { name, samples: entry.samples, percent: entry.percent.clone() }
}

/// The entries among the first `count` whose names in lower case hold a pattern in lower case.
pub open spec fn found_entries(
    entries: Seq<EntryModel>,
    pattern: Seq<char>,
    count: int,
) -> Seq<EntryModel>
    decreases count,
{
    if count <= 0 {
        Seq::empty()
    } else if holds_text(lowercase(entries[count - 1].name), pattern) {
        found_entries(entries, pattern, count - 1).push(entries[count - 1])
    } else {
        found_entries(entries, pattern, count - 1)
    }
}

/// The entries whose names hold a pattern, in whatever case.
#[must_use]
pub fn search_entries(entries: &[FlamegraphEntry], pattern: &str) -> (found: Vec<FlamegraphEntry>)
    ensures
        views(found@) == found_entries(
            views(entries@),
            lowercase(pattern@),
            entries@.len() as int,
        ),
{
    let pattern = to_lowercase(pattern);
    let mut found: Vec<FlamegraphEntry> = Vec::new();
    let ghost all = views(entries@);
    let mut index: usize = 0;
    assert(views(found@) =~= Seq::empty());
    while index < entries.len()
        invariant
            index <= entries.len(),
            all == views(entries@),
            views(found@) == found_entries(all, pattern@, index as int),
        decreases entries.len() - index,
    {
        let entry = &entries[index];
        assert(all[index as int] == entry@);
        let lower = to_lowercase(entry.name.as_str());
        if contains_text(chars_of(lower.as_str()).as_slice(), pattern.as_str()) {
            let ghost before = views(found@);
            let copy = copy_entry(entry, entry.name.clone());
            found.push(copy);
            assert(views(found@) =~= before.push(entry@));
        }
        index += 1;
    }
    found
}

/// The name of a system call behind the prefix of its entry point.
pub open spec fn syscall_of(name: Seq<char>) -> Option<Seq<char>> {
    if begins_with(name, "__x64_sys_"@) || begins_with(name, "__x86_sys_"@) {
        Some(name.subrange(10, name.len() as int))
    } else {
        None
    }
}

/// The system calls among the first `count` entries.
pub open spec fn syscalls_of(entries: Seq<EntryModel>, count: int) -> Seq<EntryModel>
    decreases count,
{
    if count <= 0 {
        Seq::empty()
    } else {
        match syscall_of(entries[count - 1].name) {
            Some(name) => syscalls_of(entries, count - 1).push(
                EntryModel { name, ..entries[count - 1] },
            ),
            None => syscalls_of(entries, count - 1),
        }
    }
}

/// The entries that are entry points of system calls, named by the calls.
#[must_use]
pub fn syscall_breakdown(entries: &[FlamegraphEntry]) -> (calls: Vec<FlamegraphEntry>)
    ensures
        views(calls@) == syscalls_of(views(entries@), entries@.len() as int),
{
    proof {
        reveal_strlit("__x64_sys_");
        reveal_strlit("__x86_sys_");
    }
    let mut calls: Vec<FlamegraphEntry> = Vec::new();
    let ghost all = views(entries@);
    let mut index: usize = 0;
    assert(views(calls@) =~= Seq::empty());
    while index < entries.len()
        invariant
            index <= entries.len(),
            all == views(entries@),
            "__x64_sys_"@.len() == 10,
            "__x86_sys_"@.len() == 10,
            views(calls@) == syscalls_of(all, index as int),
        decreases entries.len() - index,
    {
        let entry = &entries[index];
        assert(all[index as int] == entry@);
        let chars = chars_of(entry.name.as_str());
        if starts_with(chars.as_slice(), "__x64_sys_") || starts_with(
            chars.as_slice(),
            "__x86_sys_",
        ) {
            let ghost before = views(calls@);
            let name = text_of(slice_subrange(chars.as_slice(), 10, chars.len()));
            let copy = copy_entry(entry, name);
            calls.push(copy);
            assert(views(calls@) =~= before.push(copy@));
        }
        index += 1;
    }
    calls
}

// ---------------------------------------------------------------------------
// Categories
// ---------------------------------------------------------------------------

/// Whether one of several texts stands in some characters.
pub open spec fn holds_any(chars: Seq<char>, texts: Seq<Seq<char>>) -> bool {
    exists|i: int| 0 <= i < texts.len() && holds_text(chars, #[trigger] texts[i])
}

fn contains_any(chars: &[char], texts: &[&str]) -> (found: bool)
    ensures
        found == holds_any(chars@, views(texts@)),
{
    let ghost all = views(texts@);
    let mut i: usize = 0;
    while i < texts.len()
        invariant
            i <= texts.len(),
            all == views(texts@),
            forall|j: int| 0 <= j < i ==> !holds_text(chars@, #[trigger] all[j]),
        decreases texts.len() - i,
    {
        assert(all[i as int] == texts@[i as int]@);
        if contains_text(chars, texts[i]) {
            return true;
        }
        i += 1;
    }
    false
}

/// The category of a function by its name and its name in lower case. Earlier categories go
/// first.
pub open spec fn category_of(name: Seq<char>, lower: Seq<char>) -> Seq<char> {
    if holds_any(
        lower,
        seq!["foyer"@, "hybrid_cache"@, "article_cache"@, "cache::"@, "moka"@],
    ) {
        "Cache/Foyer"@
    } else if holds_any(
        lower,
        seq!["nntp"@, "client_session"@, "route_command"@, "message_id"@],
    ) {
        "NNTP Protocol"@
    } else if holds_any(
        lower,
        seq!["tls"@, "ssl"@, "rustls"@, "aes"@, "cipher"@, "ring::"@],
    ) {
        "TLS/Crypto"@
    } else if holds_any(lower, seq!["lz4"@, "compress"@, "decompress"@, "zstd"@]) {
        "Compression"@
    } else if holds_any(lower, seq!["recv"@, "send"@, "tcp"@, "socket"@, "skb"@]) {
        "Network I/O"@
    } else if holds_any(
        lower,
        seq![
            "zfs"@,
            "zpl"@,
            "vfs"@,
            "ext4"@,
            "xfs"@,
            "btrfs"@,
            "io_uring"@,
            "pread"@,
            "pwrite"@,
        ],
    ) {
        "Disk I/O"@
    } else if holds_any(lower, seq!["futex"@, "mutex"@, "rwlock"@, "parking_lot"@]) {
        "Locks/Futex"@
    } else if holds_any(lower, seq!["epoll"@, "poll"@, "mio"@]) {
        "Event Loop"@
    } else if holds_any(lower, seq!["tokio"@, "runtime"@]) {
        "Tokio Runtime"@
    } else if holds_any(lower, seq!["futures"@, "async"@, "waker"@]) {
        "Async/Futures"@
    } else if holds_any(lower, seq!["schedule"@, "switch"@, "context"@]) {
        "Scheduling"@
    } else if holds_any(lower, seq!["alloc"@, "malloc"@, "free"@, "mmap"@, "jemalloc"@]) {
        "Memory"@
    } else if begins_with(name, "__x64_sys_"@) || begins_with(name, "__x86_sys_"@) || begins_with(
        name,
        "syscall"@,
    ) || begins_with(name, "do_syscall"@) || begins_with(name, "entry_SYSCALL"@) {
        "Syscall"@
    } else {
        "Other"@
    }
}

/// The category of a function by its name and its name in lower case.
#[must_use]
pub fn categorize_lowered(name: &str, lower: &str) -> (category: &'static str)
    ensures
        category@ == category_of(name@, lower@),
{
    let chars = chars_of(lower);
    let lower = chars.as_slice();
    let cache = ["foyer", "hybrid_cache", "article_cache", "cache::", "moka"];
    let nntp = ["nntp", "client_session", "route_command", "message_id"];
    let crypto = ["tls", "ssl", "rustls", "aes", "cipher", "ring::"];
    let compression = ["lz4", "compress", "decompress", "zstd"];
    let network = ["recv", "send", "tcp", "socket", "skb"];
    let disk = ["zfs", "zpl", "vfs", "ext4", "xfs", "btrfs", "io_uring", "pread", "pwrite"];
    let locks = ["futex", "mutex", "rwlock", "parking_lot"];
    let events = ["epoll", "poll", "mio"];
    let tokio = ["tokio", "runtime"];
    let futures = ["futures", "async", "waker"];
    let scheduling = ["schedule", "switch", "context"];
    let memory = ["alloc", "malloc", "free", "mmap", "jemalloc"];
    proof {
        assert(views(cache@) =~= seq!["foyer"@, "hybrid_cache"@, "article_cache"@, "cache::"@, "moka"@]);
        assert(views(nntp@) =~= seq!["nntp"@, "client_session"@, "route_command"@, "message_id"@]);
        assert(views(crypto@) =~= seq!["tls"@, "ssl"@, "rustls"@, "aes"@, "cipher"@, "ring::"@]);
        assert(views(compression@) =~= seq!["lz4"@, "compress"@, "decompress"@, "zstd"@]);
        assert(views(network@) =~= seq!["recv"@, "send"@, "tcp"@, "socket"@, "skb"@]);
        assert(views(disk@) =~= seq!["zfs"@, "zpl"@, "vfs"@, "ext4"@, "xfs"@, "btrfs"@, "io_uring"@, "pread"@, "pwrite"@]);
        assert(views(locks@) =~= seq!["futex"@, "mutex"@, "rwlock"@, "parking_lot"@]);
        assert(views(events@) =~= seq!["epoll"@, "poll"@, "mio"@]);
        assert(views(tokio@) =~= seq!["tokio"@, "runtime"@]);
        assert(views(futures@) =~= seq!["futures"@, "async"@, "waker"@]);
        assert(views(scheduling@) =~= seq!["schedule"@, "switch"@, "context"@]);
        assert(views(memory@) =~= seq!["alloc"@, "malloc"@, "free"@, "mmap"@, "jemalloc"@]);
    }
    if contains_any(lower, cache.as_slice()) {
        return "Cache/Foyer";
    }
    if contains_any(lower, nntp.as_slice()) {
        return "NNTP Protocol";
    }
    if contains_any(lower, crypto.as_slice()) {
        return "TLS/Crypto";
    }
    if contains_any(lower, compression.as_slice()) {
        return "Compression";
    }
    if contains_any(lower, network.as_slice()) {
        return "Network I/O";
    }
    if contains_any(lower, disk.as_slice()) {
        return "Disk I/O";
    }
    if contains_any(lower, locks.as_slice()) {
        return "Locks/Futex";
    }
    if contains_any(lower, events.as_slice()) {
        return "Event Loop";
    }
    if contains_any(lower, tokio.as_slice()) {
        return "Tokio Runtime";
    }
    if contains_any(lower, futures.as_slice()) {
        return "Async/Futures";
    }
    if contains_any(lower, scheduling.as_slice()) {
        return "Scheduling";
    }
    if contains_any(lower, memory.as_slice()) {
        return "Memory";
    }
    let names = chars_of(name);
    let name = names.as_slice();
    if starts_with(name, "__x64_sys_") || starts_with(name, "__x86_sys_") || starts_with(
        name,
        "syscall",
    ) || starts_with(name, "do_syscall") || starts_with(name, "entry_SYSCALL") {
        "Syscall"
    } else {
        "Other"
    }
}

/// The category of a function.
#[must_use]
pub fn categorize_flamegraph_frame(name: &str) -> (category: &'static str)
    ensures
        category@ == category_of(name@, lowercase(name@)),
{
    let lower = to_lowercase(name);
    categorize_lowered(name, lower.as_str())
}

// ---------------------------------------------------------------------------
// The largest entries
// ---------------------------------------------------------------------------

/// The entries among the first `count` that have a rank.
pub open spec fn kept_entries(
    entries: Seq<EntryModel>,
    ranks: Seq<Option<i64>>,
    count: int,
) -> Seq<EntryModel>
    decreases count,
{
    if count <= 0 {
        Seq::empty()
    } else if ranks[count - 1] is Some {
        kept_entries(entries, ranks, count - 1).push(entries[count - 1])
    } else {
        kept_entries(entries, ranks, count - 1)
    }
}

/// The ranks among the first `count`.
pub open spec fn kept_ranks(ranks: Seq<Option<i64>>, count: int) -> Seq<i64>
    decreases count,
{
    if count <= 0 {
        Seq::empty()
    } else {
        match ranks[count - 1] {
            Some(rank) => kept_ranks(ranks, count - 1).push(rank),
            None => kept_ranks(ranks, count - 1),
        }
    }
}

/// The names of entries.
pub open spec fn entry_names(entries: Seq<EntryModel>) -> Seq<Seq<char>> {
    Seq::new(entries.len(), |i: int| entries[i].name)
}

/// Entries with the largest rank first, then by name, then as they stand.
pub open spec fn ranked_entries(entries: Seq<EntryModel>, ranks: Seq<i64>) -> Seq<EntryModel> {
    let order = choose|order: Seq<usize>|
        lists_largest_first(order, entry_names(entries), ranks);
    Seq::new(order.len(), |i: int| entries[order[i] as int])
}

/// The entries that have a rank, the largest first, then by name. An entry whose share is no
/// number has none.
#[must_use]
pub fn rank_entries(entries: &[FlamegraphEntry], ranks: &[Option<i64>]) -> (ranked: Vec<
    FlamegraphEntry,
>)
    requires
        entries@.len() == ranks@.len(),
    ensures
        views(ranked@) == ranked_entries(
            kept_entries(views(entries@), ranks@, ranks@.len() as int),
            kept_ranks(ranks@, ranks@.len() as int),
        ),
{
    let ghost all = views(entries@);
    let mut names: Vec<String> = Vec::new();
    let mut kept: Vec<usize> = Vec::new();
    let mut known: Vec<i64> = Vec::new();
    let mut index: usize = 0;
    assert(entry_names(kept_entries(all, ranks@, 0)) =~= views(names@));
    while index < entries.len()
        invariant
            index <= entries@.len(),
            entries@.len() == ranks@.len(),
            all == views(entries@),
            known@ == kept_ranks(ranks@, index as int),
            known@.len() == kept@.len(),
            views(names@) == entry_names(kept_entries(all, ranks@, index as int)),
            kept@.len() == kept_entries(all, ranks@, index as int).len(),
            forall|i: int|
                0 <= i < kept@.len() ==> #[trigger] kept@[i] < entries@.len() && all[kept@[i] as int]
                    == kept_entries(all, ranks@, index as int)[i],
        decreases entries@.len() - index,
    {
        assert(all[index as int] == entries@[index as int]@);
        if let Some(rank) = ranks[index] {
            let ghost before = views(names@);
            names.push(entries[index].name.clone());
            known.push(rank);
            kept.push(index);
            assert(views(names@) =~= before.push(all[index as int].name));
            assert(entry_names(kept_entries(all, ranks@, index + 1)) =~= entry_names(
                kept_entries(all, ranks@, index as int),
            ).push(all[index as int].name));
        }
        index += 1;
    }
    let ghost chosen = kept_entries(all, ranks@, ranks@.len() as int);
    assert(entry_names(chosen).len() == names@.len());
    let order = largest_first(names.as_slice(), known.as_slice());
    proof {
        let right = choose|right: Seq<usize>|
            lists_largest_first(right, entry_names(chosen), known@);
        largest_first_is_unique(order@, right, entry_names(chosen), known@);
    }
    let mut ranked: Vec<FlamegraphEntry> = Vec::with_capacity(order.len());
    let mut at: usize = 0;
    while at < order.len()
        invariant
            at <= order@.len(),
            all == views(entries@),
            kept@.len() == chosen.len(),
            lists_largest_first(order@, entry_names(chosen), known@),
            entry_names(chosen).len() == kept@.len(),
            forall|i: int|
                0 <= i < kept@.len() ==> #[trigger] kept@[i] < entries@.len() && all[kept@[i] as int]
                    == chosen[i],
            ranked@.len() == at,
            forall|i: int|
                0 <= i < at ==> (#[trigger] ranked@[i])@ == chosen[order@[i] as int],
        decreases order@.len() - at,
    {
        assert(order@.contains(order@[at as int]));
        let position: usize = kept[order[at]];
        let entry = &entries[position];
        assert(all[position as int] == entry@);
        ranked.push(copy_entry(entry, entry.name.clone()));
        at += 1;
    }
    assert(views(ranked@) =~= ranked_entries(chosen, known@));
    ranked
}

/// The first `limit` items.
pub open spec fn at_most<T>(items: Seq<T>, limit: int) -> Seq<T> {
    if items.len() <= limit {
        items
    } else {
        items.subrange(0, limit)
    }
}

/// The largest of the entries that have a rank, up to a limit. An entry whose share is below the
/// least that is asked for has none.
#[must_use]
pub fn top_entries(entries: &[FlamegraphEntry], ranks: &[Option<i64>], limit: usize) -> (top: Vec<
    FlamegraphEntry,
>)
    requires
        entries@.len() == ranks@.len(),
    ensures
        views(top@) == at_most(
            ranked_entries(
                kept_entries(views(entries@), ranks@, ranks@.len() as int),
                kept_ranks(ranks@, ranks@.len() as int),
            ),
            limit as int,
        ),
{
    let mut top = rank_entries(entries, ranks);
    let ghost before = views(top@);
    top.truncate(limit);
    assert(views(top@) =~= at_most(before, limit as int));
    top
}

/// The categories of entries.
pub open spec fn entry_categories(entries: Seq<EntryModel>) -> Seq<Option<Seq<char>>> {
    Seq::new(
        entries.len(),
        |i: int| Some(category_of(entries[i].name, lowercase(entries[i].name))),
    )
}

/// The entries of each category, in the order of the categories' names.
#[must_use]
pub fn category_summary(entries: &[FlamegraphEntry]) -> (categories: Vec<NameGroup>)
    ensures
        groups_names(views(categories@), entry_categories(views(entries@))),
{
    let ghost all = views(entries@);
    let mut names: Vec<Option<String>> = Vec::with_capacity(entries.len());
    let mut index: usize = 0;
    while index < entries.len()
        invariant
            index <= entries@.len(),
            all == views(entries@),
            names@.len() == index,
            forall|i: int|
                0 <= i < index ==> crate::text::text_view(#[trigger] names@[i])
                    == entry_categories(all)[i],
        decreases entries@.len() - index,
    {
        assert(all[index as int] == entries@[index as int]@);
        names.push(Some(categorize_flamegraph_frame(entries[index].name.as_str()).to_string()));
        index += 1;
    }
    assert(name_views(names@) =~= entry_categories(all));
    group_by_name(names.as_slice())
}

// ---------------------------------------------------------------------------
// Differences
// ---------------------------------------------------------------------------

/// An entry of two flame graphs: its samples in each, and where it stands in each.
#[derive(Clone, Debug, Eq, PartialEq)]
pub struct FlamegraphDelta {
    pub name: String,
    pub before_samples: u64,
    pub after_samples: u64,
    pub before: Option<usize>,
    pub after: Option<usize>,
}

/// Whether an index is the last of an entry with a name; without an index, whether there is no
/// such entry.
pub open spec fn is_last_named(
    entries: Seq<EntryModel>,
    name: Seq<char>,
    found: Option<usize>,
) -> bool {
    match found {
        Some(at) => {
            &&& at < entries.len()
            &&& entries[at as int].name == name
            &&& forall|i: int|
                at < i < entries.len() ==> (#[trigger] entries[i]).name != name
        },
        None => forall|i: int| 0 <= i < entries.len() ==> (#[trigger] entries[i]).name != name,
    }
}

/// The samples of an entry, none where there is no entry.
pub open spec fn samples_at(entries: Seq<EntryModel>, found: Option<usize>) -> u64 {
    match found {
        Some(at) => entries[at as int].samples,
        None => 0,
    }
}

/// Whether a delta tells of the last entry with its name on each side, and there is one on some
/// side.
pub open spec fn tells_difference(
    delta: FlamegraphDelta,
    before: Seq<EntryModel>,
    after: Seq<EntryModel>,
) -> bool {
    &&& is_last_named(before, delta.name@, delta.before)
    &&& is_last_named(after, delta.name@, delta.after)
    &&& delta.before is Some || delta.after is Some
    &&& delta.before_samples == samples_at(before, delta.before)
    &&& delta.after_samples == samples_at(after, delta.after)
}

/// Whether a delta has a name.
pub open spec fn delta_named(deltas: Seq<FlamegraphDelta>, name: Seq<char>, at: int) -> bool {
    0 <= at < deltas.len() && deltas[at].name@ == name
}

/// Whether one of the deltas has a name.
pub open spec fn is_told(deltas: Seq<FlamegraphDelta>, name: Seq<char>) -> bool {
    exists|at: int| delta_named(deltas, name, at)
}

/// Whether deltas tell of all entries of two flame graphs, each name once, in the order of the
/// names.
pub open spec fn tell_differences(
    deltas: Seq<FlamegraphDelta>,
    before: Seq<EntryModel>,
    after: Seq<EntryModel>,
) -> bool {
    &&& forall|i: int, j: int|
        #![trigger deltas[i], deltas[j]]
        0 <= i < j < deltas.len() ==> name_before(deltas[i].name@, deltas[j].name@)
    &&& forall|i: int|
        0 <= i < deltas.len() ==> tells_difference(#[trigger] deltas[i], before, after)
    &&& forall|i: int|
        0 <= i < before.len() ==> is_told(deltas, (#[trigger] before[i]).name)
    &&& forall|i: int|
        0 <= i < after.len() ==> is_told(deltas, (#[trigger] after[i]).name)
}

/// The names of two sides, one after the other.
pub open spec fn both_names(before: Seq<EntryModel>, after: Seq<EntryModel>) -> Seq<
    Option<Seq<char>>,
> {
    Seq::new(
        before.len() + after.len(),
        |i: int|
            if i < before.len() {
                Some(before[i].name)
            } else {
                Some(after[i - before.len()].name)
            },
    )
}

/// Where the members of a group stand last on each side.
fn last_on_sides(group: &NameGroup, first: usize) -> (found: (Option<usize>, Option<usize>))
    requires
        crate::ranking::increasing(group.members@),
    ensures
        match found.0 {
            Some(at) => at < first && group.members@.contains(at) && forall|k: usize|
                at < k < first ==> !#[trigger] group.members@.contains(k),
            None => forall|k: usize| k < first ==> !#[trigger] group.members@.contains(k),
        },
        match found.1 {
            Some(at) => first + at <= usize::MAX && group.members@.contains(
                (first + at) as usize,
            ) && forall|k: usize| first + at < k ==> !#[trigger] group.members@.contains(k),
            None => forall|k: usize| first <= k ==> !#[trigger] group.members@.contains(k),
        },
{
    let mut before: Option<usize> = None;
    let mut after: Option<usize> = None;
    let mut i: usize = 0;
    let ghost members = group.members@;
    while i < group.members.len()
        invariant
            i <= group.members@.len(),
            members == group.members@,
            crate::ranking::increasing(members),
            match before {
                Some(at) => at < first && members.contains(at) && forall|j: int|
                    0 <= j < i && #[trigger] members[j] < first ==> members[j] <= at,
                None => forall|j: int| 0 <= j < i ==> first <= #[trigger] members[j],
            },
            match after {
                Some(at) => first + at <= usize::MAX && members.contains((first + at) as usize)
                    && forall|j: int| 0 <= j < i ==> #[trigger] members[j] <= first + at,
                None => forall|j: int| 0 <= j < i ==> #[trigger] members[j] < first,
            },
        decreases group.members@.len() - i,
    {
        let member: usize = group.members[i];
        assert(members[i as int] == member);
        assert(members.contains(member));
        assert(forall|j: int| 0 <= j < i ==> #[trigger] members[j] < member);
        if member < first {
            before = Some(member);
        } else {
            after = Some(member - first);
        }
        i += 1;
    }
    (before, after)
}

/// Puts the entries of two flame graphs side by side, in the order of their names. Of several
/// entries with one name the last counts.
#[must_use]
pub fn diff_flamegraphs(before: &[FlamegraphEntry], after: &[FlamegraphEntry]) -> (deltas: Vec<
    FlamegraphDelta,
>)
    ensures
        tell_differences(deltas@, views(before@), views(after@)),
{
    let ghost left = views(before@);
    let ghost right = views(after@);
    let ghost all = both_names(left, right);
    let first: usize = before.len();
    let mut names: Vec<Option<String>> = Vec::new();
    let mut index: usize = 0;
    while index < first
        invariant
            index <= first == before@.len(),
            left == views(before@),
            all == both_names(left, right),
            names@.len() == index,
            forall|i: int|
                0 <= i < index ==> crate::text::text_view(#[trigger] names@[i]) == all[i],
        decreases first - index,
    {
        assert(left[index as int] == before@[index as int]@);
        names.push(Some(before[index].name.clone()));
        index += 1;
    }
    let mut index: usize = 0;
    while index < after.len()
        invariant
            index <= after@.len(),
            left.len() == first,
            right == views(after@),
            all == both_names(left, right),
            names@.len() == first + index,
            forall|i: int|
                0 <= i < first + index ==> crate::text::text_view(#[trigger] names@[i]) == all[i],
        decreases after@.len() - index,
    {
        assert(right[index as int] == after@[index as int]@);
        names.push(Some(after[index].name.clone()));
        index += 1;
    }
    assert(name_views(names@) =~= all);
    assert(names.len() == all.len());
    let groups = group_by_name(names.as_slice());
    let ghost found = views(groups@);
    let mut deltas: Vec<FlamegraphDelta> = Vec::with_capacity(groups.len());
    let mut at: usize = 0;
    while at < groups.len()
        invariant
            at <= groups@.len(),
            first == before@.len(),
            left == views(before@),
            right == views(after@),
            all == both_names(left, right),
            all.len() <= usize::MAX,
            found == views(groups@),
            groups_names(found, all),
            deltas@.len() == at,
            forall|i: int| 0 <= i < at ==> (#[trigger] deltas@[i]).name@ == found[i].0,
            forall|i: int| 0 <= i < at ==> tells_difference(#[trigger] deltas@[i], left, right),
        decreases groups@.len() - at,
    {
        let group = &groups[at];
        assert(found[at as int] == group@);
        assert(holds_name(found[at as int], all));
        let (older, newer) = last_on_sides(group, first);
        proof {
            side_is_last(found[at as int], left, right, older, newer);
        }
        let before_samples: u64 = match older {
            Some(position) => before[position].samples,
            None => 0,
        };
        let after_samples: u64 = match newer {
            Some(position) => after[position].samples,
            None => 0,
        };
        deltas.push(
            FlamegraphDelta {
                name: group.name.clone(),
                before_samples,
                after_samples,
                before: older,
                after: newer,
            },
        );
        at += 1;
    }
    proof {
        assert forall|i: int, j: int|
            #![trigger deltas@[i], deltas@[j]]
            0 <= i < j < deltas@.len() implies name_before(deltas@[i].name@, deltas@[j].name@) by {
            assert(name_before(found[i].0, found[j].0));
        }
        assert forall|i: int| 0 <= i < left.len() implies is_told(
            deltas@,
            (#[trigger] left[i]).name,
        ) by {
            assert(all[i] == Some(left[i].name));
            assert(is_grouped(found, left[i].name));
            let at = choose|at: int| has_name(found, left[i].name, at);
            assert(delta_named(deltas@, left[i].name, at));
        }
        assert forall|i: int| 0 <= i < right.len() implies is_told(
            deltas@,
            (#[trigger] right[i]).name,
        ) by {
            assert(all[left.len() + i] == Some(right[i].name));
            assert(is_grouped(found, right[i].name));
            let at = choose|at: int| has_name(found, right[i].name, at);
            assert(delta_named(deltas@, right[i].name, at));
        }
    }
    deltas
}

/// Where the members of a group stand last is where the last entries of its name stand.
proof fn side_is_last(
    group: (Seq<char>, Seq<usize>),
    before: Seq<EntryModel>,
    after: Seq<EntryModel>,
    older: Option<usize>,
    newer: Option<usize>,
)
    requires
        before.len() + after.len() <= usize::MAX,
        holds_name(group, both_names(before, after)),
        match older {
            Some(at) => at < before.len() && group.1.contains(at) && forall|k: usize|
                at < k < before.len() ==> !#[trigger] group.1.contains(k),
            None => forall|k: usize| k < before.len() ==> !#[trigger] group.1.contains(k),
        },
        match newer {
            Some(at) => before.len() + at <= usize::MAX && group.1.contains(
                (before.len() + at) as usize,
            ) && forall|k: usize| before.len() + at < k ==> !#[trigger] group.1.contains(k),
            None => forall|k: usize| before.len() <= k ==> !#[trigger] group.1.contains(k),
        },
    ensures
        is_last_named(before, group.0, older),
        is_last_named(after, group.0, newer),
        older is Some || newer is Some,
{
    let all = both_names(before, after);
    assert forall|i: int| 0 <= i < before.len() implies ((#[trigger] before[i]).name == group.0
        <==> group.1.contains(i as usize)) by {
        assert(all[i] == Some(before[i].name));
        assert(group.1.contains(i as usize) <==> all[i] == Some(group.0));
    }
    assert forall|i: int| 0 <= i < after.len() implies ((#[trigger] after[i]).name == group.0
        <==> group.1.contains((before.len() + i) as usize)) by {
        assert(all[before.len() + i] == Some(after[i].name));
        assert(group.1.contains((before.len() + i) as usize) <==> all[before.len() + i] == Some(
            group.0,
        ));
    }
    assert(group.1.contains(group.1[0]));
    if let Some(at) = newer {
        assert(all[before.len() + at] == Some(group.0));
    }
}

// ---------------------------------------------------------------------------
// Laws
// ---------------------------------------------------------------------------

/// A flame graph does not differ from itself.
pub proof fn equal_graphs_do_not_differ(deltas: Seq<FlamegraphDelta>, entries: Seq<EntryModel>)
    requires
        tell_differences(deltas, entries, entries),
    ensures
        forall|i: int|
            0 <= i < deltas.len() ==> (#[trigger] deltas[i]).before == deltas[i].after
                && deltas[i].before_samples == deltas[i].after_samples,
{
    assert forall|i: int| 0 <= i < deltas.len() implies (#[trigger] deltas[i]).before
        == deltas[i].after && deltas[i].before_samples == deltas[i].after_samples by {
        let delta = deltas[i];
        assert(tells_difference(delta, entries, entries));
        if let (Some(before), Some(after)) = (delta.before, delta.after) {
            assert(entries[before as int].name == entries[after as int].name);
        } else if let Some(before) = delta.before {
            assert(entries[before as int].name == delta.name@);
        } else if let Some(after) = delta.after {
            assert(entries[after as int].name == delta.name@);
        }
    }
}

/// The differences the other way round are the same with their sides changed.
pub proof fn differences_turn_round(
    deltas: Seq<FlamegraphDelta>,
    before: Seq<EntryModel>,
    after: Seq<EntryModel>,
)
    requires
        tell_differences(deltas, before, after),
    ensures
        tell_differences(
            Seq::new(deltas.len(), |i: int| turned_round(deltas[i])),
            after,
            before,
        ),
{
    let turned = Seq::new(deltas.len(), |i: int| turned_round(deltas[i]));
    assert forall|i: int, j: int|
        #![trigger turned[i], turned[j]]
        0 <= i < j < turned.len() implies name_before(turned[i].name@, turned[j].name@) by {
        assert(name_before(deltas[i].name@, deltas[j].name@));
    }
    assert forall|i: int| 0 <= i < turned.len() implies tells_difference(
        #[trigger] turned[i],
        after,
        before,
    ) by {
        assert(tells_difference(deltas[i], before, after));
    }
    assert forall|name: Seq<char>| #[trigger] is_told(deltas, name) implies is_told(turned, name) by {
        let at = choose|at: int| delta_named(deltas, name, at);
        assert(delta_named(turned, name, at));
    }
    assert forall|i: int| 0 <= i < before.len() implies is_told(
        turned,
        (#[trigger] before[i]).name,
    ) by {
        assert(is_told(deltas, before[i].name));
    }
    assert forall|i: int| 0 <= i < after.len() implies is_told(
        turned,
        (#[trigger] after[i]).name,
    ) by {
        assert(is_told(deltas, after[i].name));
    }
}

/// A delta with its sides changed.
pub open spec fn turned_round(delta: FlamegraphDelta) -> FlamegraphDelta {
    FlamegraphDelta {
        name: delta.name,
        before_samples: delta.after_samples,
        after_samples: delta.before_samples,
        before: delta.after,
        after: delta.before,
    }
}

/// Whether a name in lower case is a text with something in front of it and something behind it.
pub open spec fn is_around(name: Seq<char>, pattern: Seq<char>) -> bool {
    exists|left: Seq<char>, right: Seq<char>|
        lowercase(name) == #[trigger] (left + pattern + right)
}

proof fn entries_around_a_pattern_are_found_up_to(
    entries: Seq<EntryModel>,
    pattern: Seq<char>,
    count: int,
)
    requires
        0 <= count <= entries.len(),
    ensures
        found_entries(entries, pattern, count) == entries.take(count).filter(
            |entry: EntryModel| is_around(entry.name, pattern),
        ),
    decreases count,
{
    reveal(Seq::filter);
    if count > 0 {
        entries_around_a_pattern_are_found_up_to(entries, pattern, count - 1);
        assert(entries.take(count).drop_last() =~= entries.take(count - 1));
        assert(entries.take(count).last() == entries[count - 1]);
        holding_is_being_between(lowercase(entries[count - 1].name), pattern);
    } else {
        assert(entries.take(0) =~= Seq::empty());
    }
}

/// A search lists just the entries whose names in lower case are the pattern in lower case with
/// any text in front of it and any text behind it, in their order.
pub proof fn entries_around_a_pattern_are_found(entries: Seq<EntryModel>, pattern: Seq<char>)
    ensures
        found_entries(entries, lowercase(pattern), entries.len() as int) == entries.filter(
            |entry: EntryModel| is_around(entry.name, lowercase(pattern)),
        ),
        forall|entry: EntryModel, left: Seq<char>, right: Seq<char>|
            #![trigger entries.contains(entry), left + lowercase(pattern) + right]
            entries.contains(entry) && lowercase(entry.name) == left + lowercase(pattern) + right
                ==> found_entries(
                entries,
                lowercase(pattern),
                entries.len() as int,
            ).contains(entry),
        forall|entry: EntryModel|
            #[trigger]
            found_entries(entries, lowercase(pattern), entries.len() as int).contains(entry)
                ==> entries.contains(entry) && exists|left: Seq<char>, right: Seq<char>|
                lowercase(entry.name) == #[trigger] (left + lowercase(pattern) + right),
{
    let lower = lowercase(pattern);
    let pred = |entry: EntryModel| is_around(entry.name, lower);
    entries_around_a_pattern_are_found_up_to(entries, lower, entries.len() as int);
    assert(entries.take(entries.len() as int) =~= entries);
    let found = entries.filter(pred);
    assert forall|entry: EntryModel, left: Seq<char>, right: Seq<char>|
        #![trigger entries.contains(entry), left + lower + right]
        entries.contains(entry) && lowercase(entry.name) == left + lower
            + right implies found.contains(entry) by {
        assert(is_around(entry.name, lower));
        let at = choose|at: int| 0 <= at < entries.len() && entries[at] == entry;
        entries.lemma_filter_contains(pred, at);
    }
    assert forall|entry: EntryModel| #[trigger]
        found.contains(entry) implies entries.contains(entry) && exists|
        left: Seq<char>,
        right: Seq<char>,
    | lowercase(entry.name) == #[trigger] (left + lower + right) by {
        let at = choose|at: int| 0 <= at < found.len() && found[at] == entry;
        entries.lemma_filter_pred(pred, at);
        entries.lemma_filter_contains_rev(pred, entry);
        assert(is_around(entry.name, lower));
    }
}

/// The entry point of a system call is named by the call behind its prefix; nothing else is a
/// system call.
pub proof fn entry_points_are_named_by_their_calls(name: Seq<char>)
    ensures
        syscall_of("__x64_sys_"@ + name) == Some(name),
        syscall_of("__x86_sys_"@ + name) == Some(name),
        match syscall_of(name) {
            Some(call) => name == "__x64_sys_"@ + call || name == "__x86_sys_"@ + call,
            None => forall|call: Seq<char>|
                name != #[trigger] ("__x64_sys_"@ + call) && name != #[trigger] ("__x86_sys_"@
                    + call),
        },
{
    reveal_strlit("__x64_sys_");
    reveal_strlit("__x86_sys_");
    let newer = "__x64_sys_"@ + name;
    let older = "__x86_sys_"@ + name;
    beginning_is_being_in_front(newer, "__x64_sys_"@);
    beginning_is_being_in_front(older, "__x86_sys_"@);
    assert(newer.subrange(10, newer.len() as int) =~= name);
    assert(older.subrange(10, older.len() as int) =~= name);
    beginning_is_being_in_front(name, "__x64_sys_"@);
    beginning_is_being_in_front(name, "__x86_sys_"@);
    if begins_with(name, "__x64_sys_"@) {
        let call = choose|call: Seq<char>| name == #[trigger] ("__x64_sys_"@ + call);
        assert(name.subrange(10, name.len() as int) =~= call);
    } else if begins_with(name, "__x86_sys_"@) {
        let call = choose|call: Seq<char>| name == #[trigger] ("__x86_sys_"@ + call);
        assert(name.subrange(10, name.len() as int) =~= call);
    }
}

proof fn system_calls_are_broken_down_up_to(entries: Seq<EntryModel>, count: int)
    requires
        0 <= count <= entries.len(),
    ensures
        syscalls_of(entries, count) == entries.take(count).filter(
            |entry: EntryModel| syscall_of(entry.name) is Some,
        ).map_values(
            |entry: EntryModel| EntryModel { name: syscall_of(entry.name)->0, ..entry },
        ),
    decreases count,
{
    reveal(Seq::filter);
    let pred = |entry: EntryModel| syscall_of(entry.name) is Some;
    let call = |entry: EntryModel| EntryModel { name: syscall_of(entry.name)->0, ..entry };
    if count > 0 {
        system_calls_are_broken_down_up_to(entries, count - 1);
        assert(entries.take(count).drop_last() =~= entries.take(count - 1));
        assert(entries.take(count).last() == entries[count - 1]);
        let kept = entries.take(count - 1).filter(pred);
        assert(kept.push(entries[count - 1]).map_values(call) =~= kept.map_values(call).push(
            call(entries[count - 1]),
        ));
    } else {
        assert(entries.take(0) =~= Seq::empty());
        assert(entries.take(0).filter(pred).map_values(call) =~= Seq::empty());
    }
}

/// A breakdown by system call holds just the entries that are entry points of system calls, in
/// their order, each with its samples and its share.
pub proof fn system_calls_are_broken_down(entries: Seq<EntryModel>)
    ensures
        syscalls_of(entries, entries.len() as int) == entries.filter(
            |entry: EntryModel| syscall_of(entry.name) is Some,
        ).map_values(
            |entry: EntryModel|
                EntryModel {
                    name: syscall_of(entry.name)->0,
                    samples: entry.samples,
                    percent: entry.percent,
                },
        ),
{
    system_calls_are_broken_down_up_to(entries, entries.len() as int);
    assert(entries.take(entries.len() as int) =~= entries);
    let kept = entries.filter(|entry: EntryModel| syscall_of(entry.name) is Some);
    let left = |entry: EntryModel| EntryModel { name: syscall_of(entry.name)->0, ..entry };
    let right = |entry: EntryModel|
        EntryModel {
            name: syscall_of(entry.name)->0,
            samples: entry.samples,
            percent: entry.percent,
        };
    assert(kept.map_values(left) =~= kept.map_values(right));
}

proof fn commas_are_dropped(chars: Seq<char>, count: int)
    requires
        0 <= count <= chars.len(),
    ensures
        without_commas(chars, count) == chars.take(count).filter(|c: char| c != ','),
    decreases count,
{
    reveal(Seq::filter);
    if count > 0 {
        commas_are_dropped(chars, count - 1);
        assert(chars.take(count).drop_last() =~= chars.take(count - 1));
        assert(chars.take(count).last() == chars[count - 1]);
    } else {
        assert(chars.take(0) =~= Seq::empty());
    }
}

/// A title is read as it is written: a name, then in brackets the samples, perhaps with commas
/// between their digits, and the share in percent.
pub proof fn titles_are_read(
    name: Seq<char>,
    blanks: Seq<char>,
    digits: Seq<char>,
    samples: u64,
    percent: Seq<char>,
)
    requires
        name.len() > 0,
        name != "all"@,
        !crate::text::is_space(name[0]),
        !crate::text::is_space(name.last()),
        is_blank(blanks),
        is_free_of(digits, '('),
        is_free_of(digits, ' '),
        stated_number(digits.filter(|c: char| c != ',')) == Some(samples),
        is_free_of(percent, '('),
        is_free_of(percent, ','),
    ensures
        title_entry(
            name + blanks + seq!['('] + (digits + " samples, "@ + percent + "%)"@),
        ) == Some(EntryModel { name, samples, percent }),
{
    reveal_strlit(" samples");
    reveal_strlit(" samples, ");
    reveal_strlit(", ");
    reveal_strlit("%)");
    let meta = digits + " samples, "@ + percent + "%)"@;
    let title = name + blanks + seq!['('] + meta;
    let front = name + blanks;
    let named = digits.len() as int;
    assert forall|i: int| 0 <= i < meta.len() implies #[trigger] meta[i] != '(' by {
        if i < named {
            assert(meta[i] == digits[i]);
        } else if i < named + 10 {
            assert(meta[i] == " samples, "@[i - named]);
        } else if i < named + 10 + percent.len() {
            assert(meta[i] == percent[i - named - 10]);
        } else {
            assert(meta[i] == "%)"@[i - named - 10 - percent.len()]);
        }
    }
    character_is_found_last(front, '(', meta);
    assert(title.subrange(0, front.len() as int) =~= Seq::<char>::empty() + name + blanks);
    only_space_is_trimmed(Seq::empty(), name, blanks);
    assert(title.subrange(front.len() as int + 1, title.len() as int) =~= meta);
    title_numbers_are_read(digits, samples, percent);
}

proof fn title_numbers_are_read(digits: Seq<char>, samples: u64, percent: Seq<char>)
    requires
        is_free_of(digits, ' '),
        stated_number(digits.filter(|c: char| c != ',')) == Some(samples),
        is_free_of(percent, ','),
    ensures
        title_numbers(digits + " samples, "@ + percent + "%)"@) == Some((samples, percent)),
{
    reveal_strlit(" samples");
    reveal_strlit(" samples, ");
    reveal_strlit(", ");
    reveal_strlit("%)");
    let meta = digits + " samples, "@ + percent + "%)"@;
    let named = digits.len() as int;
    first_at_is_first(meta, " samples"@, 0);
    let found = first_at(meta, " samples"@, 0);
    assert(meta.subrange(named, named + 8) =~= " samples"@);
    assert(stands_at(meta, named, " samples"@));
    if found < named {
        assert(meta.subrange(found, found + 8)[0] == meta[found]);
        assert(meta[found] == digits[found]);
    }
    assert(found == named);
    assert(meta.subrange(0, named) =~= digits);
    commas_are_dropped(digits, named);
    assert(digits.take(named) =~= digits);
    let front = digits + " samples"@;
    let rest = percent + "%)"@;
    assert(meta =~= front + ", "@ + rest);
    assert forall|i: int| 0 <= i < rest.len() implies #[trigger] rest[i] != ',' by {
        if i < percent.len() {
            assert(rest[i] == percent[i]);
        }
    }
    text_is_found_last(front, ", "@, rest);
    let before = digits + " samples, "@ + percent;
    assert(meta =~= before + seq!['%'] + seq![')']);
    character_is_found_last(before, '%', seq![')']);
    assert(meta.subrange(named + 10, named + 10 + percent.len()) =~= percent);
}

/// A piece of a picture adds the entry of the title that it begins with, if there is one, behind
/// those of the pieces in front of it; one without the end of a title adds none.
pub proof fn titles_are_listed_in_order(
    pieces: Seq<Seq<char>>,
    title: Seq<char>,
    rest: Seq<char>,
)
    requires
        forall|i: int|
            0 <= i < title.len() ==> !#[trigger] stands_at(
                title + "</title>"@ + rest,
                i,
                "</title>"@,
            ),
    ensures
        entries_of(
            pieces.push(title + "</title>"@ + rest),
            (pieces.len() + 1) as int,
        ) == match title_entry(title) {
            Some(entry) => entries_of(pieces, pieces.len() as int).push(entry),
            None => entries_of(pieces, pieces.len() as int),
        },
        entries_of(Seq::empty(), 0) == Seq::<EntryModel>::empty(),
        forall|piece: Seq<char>|
            #![trigger pieces.push(piece)]
            !holds_text(piece, "</title>"@) ==> entries_of(
                pieces.push(piece),
                (pieces.len() + 1) as int,
            ) == entries_of(pieces, pieces.len() as int),
{
    reveal_strlit("</title>");
    let piece = title + "</title>"@ + rest;
    first_at_is_first(piece, "</title>"@, 0);
    text_stands_between(title, "</title>"@, rest);
    assert(first_at(piece, "</title>"@, 0) == title.len());
    assert(piece.subrange(0, title.len() as int) =~= title);
    entries_agree(pieces, pieces.push(piece), pieces.len() as int);
    assert forall|piece: Seq<char>|
        #![trigger pieces.push(piece)]
        !holds_text(piece, "</title>"@) implies entries_of(
        pieces.push(piece),
        (pieces.len() + 1) as int,
    ) == entries_of(pieces, pieces.len() as int) by {
        entries_agree(pieces, pieces.push(piece), pieces.len() as int);
        first_at_is_first(piece, "</title>"@, 0);
        let at = first_at(piece, "</title>"@, 0);
        if at < piece.len() {
            assert(stands_at(piece, at, "</title>"@));
        }
    }
}

proof fn entries_agree(pieces: Seq<Seq<char>>, longer: Seq<Seq<char>>, count: int)
    requires
        count <= pieces.len(),
        count <= longer.len(),
        forall|i: int| 0 <= i < count ==> #[trigger] pieces[i] == longer[i],
    ensures
        entries_of(pieces, count) == entries_of(longer, count),
    decreases count,
{
    if count > 0 {
        entries_agree(pieces, longer, count - 1);
        assert(pieces[count - 1] == longer[count - 1]);
    }
}

/// Entries without a rank are left out, and the others keep their order and their ranks.
pub proof fn ranked_entries_are_kept(entries: Seq<EntryModel>, ranks: Seq<Option<i64>>)
    requires
        entries.len() == ranks.len(),
    ensures
        kept_ranks(ranks, ranks.len() as int) == ranks.filter(
            |rank: Option<i64>| rank is Some,
        ).map_values(|rank: Option<i64>| rank->0),
        kept_entries(entries, ranks, ranks.len() as int) == entries.zip_with(ranks).filter(
            |ranked: (EntryModel, Option<i64>)| ranked.1 is Some,
        ).map_values(|ranked: (EntryModel, Option<i64>)| ranked.0),
{
    ranked_entries_are_kept_up_to(entries, ranks, ranks.len() as int);
    assert(ranks.take(ranks.len() as int) =~= ranks);
    let pairs = entries.zip_with(ranks);
    assert(pairs.take(ranks.len() as int) =~= pairs);
}

proof fn ranked_entries_are_kept_up_to(
    entries: Seq<EntryModel>,
    ranks: Seq<Option<i64>>,
    count: int,
)
    requires
        entries.len() == ranks.len(),
        0 <= count <= ranks.len(),
    ensures
        kept_ranks(ranks, count) == ranks.take(count).filter(
            |rank: Option<i64>| rank is Some,
        ).map_values(|rank: Option<i64>| rank->0),
        kept_entries(entries, ranks, count) == entries.zip_with(ranks).take(count).filter(
            |ranked: (EntryModel, Option<i64>)| ranked.1 is Some,
        ).map_values(|ranked: (EntryModel, Option<i64>)| ranked.0),
    decreases count,
{
    reveal(Seq::filter);
    let some = |rank: Option<i64>| rank is Some;
    let rank_of = |rank: Option<i64>| rank->0;
    let has_rank = |ranked: (EntryModel, Option<i64>)| ranked.1 is Some;
    let entry_of = |ranked: (EntryModel, Option<i64>)| ranked.0;
    let pairs = entries.zip_with(ranks);
    if count > 0 {
        ranked_entries_are_kept_up_to(entries, ranks, count - 1);
        assert(ranks.take(count).drop_last() =~= ranks.take(count - 1));
        assert(ranks.take(count).last() == ranks[count - 1]);
        assert(pairs.take(count).drop_last() =~= pairs.take(count - 1));
        assert(pairs.take(count).last() == (entries[count - 1], ranks[count - 1]));
        let known = ranks.take(count - 1).filter(some);
        assert(known.push(ranks[count - 1]).map_values(rank_of) =~= known.map_values(rank_of).push(
            ranks[count - 1]->0,
        ));
        let kept = pairs.take(count - 1).filter(has_rank);
        assert(kept.push(pairs[count - 1]).map_values(entry_of) =~= kept.map_values(entry_of).push(
            entries[count - 1],
        ));
    } else {
        assert(ranks.take(0) =~= Seq::empty());
        assert(pairs.take(0) =~= Seq::empty());
        assert(ranks.take(0).filter(some).map_values(rank_of) =~= Seq::empty());
        assert(pairs.take(0).filter(has_rank).map_values(entry_of) =~= Seq::empty());
    }
}

/// The words that tell the categories, those of earlier categories first.
pub open spec fn telling_words() -> Seq<(Seq<char>, Seq<Seq<char>>)> {
    seq![
        ("Cache/Foyer"@, seq!["foyer"@, "hybrid_cache"@, "article_cache"@, "cache::"@, "moka"@]),
        ("NNTP Protocol"@, seq!["nntp"@, "client_session"@, "route_command"@, "message_id"@]),
        ("TLS/Crypto"@, seq!["tls"@, "ssl"@, "rustls"@, "aes"@, "cipher"@, "ring::"@]),
        ("Compression"@, seq!["lz4"@, "compress"@, "decompress"@, "zstd"@]),
        ("Network I/O"@, seq!["recv"@, "send"@, "tcp"@, "socket"@, "skb"@]),
        (
            "Disk I/O"@,
            seq![
                "zfs"@,
                "zpl"@,
                "vfs"@,
                "ext4"@,
                "xfs"@,
                "btrfs"@,
                "io_uring"@,
                "pread"@,
                "pwrite"@,
            ],
        ),
        ("Locks/Futex"@, seq!["futex"@, "mutex"@, "rwlock"@, "parking_lot"@]),
        ("Event Loop"@, seq!["epoll"@, "poll"@, "mio"@]),
        ("Tokio Runtime"@, seq!["tokio"@, "runtime"@]),
        ("Async/Futures"@, seq!["futures"@, "async"@, "waker"@]),
        ("Scheduling"@, seq!["schedule"@, "switch"@, "context"@]),
        ("Memory"@, seq!["alloc"@, "malloc"@, "free"@, "mmap"@, "jemalloc"@]),
    ]
}

/// Whether a word of a category stands anywhere in a text.
pub open spec fn is_told_by(lower: Seq<char>, words: Seq<Seq<char>>) -> bool {
    exists|i: int, left: Seq<char>, right: Seq<char>|
        0 <= i < words.len() && lower == #[trigger] (left + words[i] + right)
}

proof fn words_tell(lower: Seq<char>, words: Seq<Seq<char>>)
    ensures
        holds_any(lower, words) <==> is_told_by(lower, words),
{
    if holds_any(lower, words) {
        let i = choose|i: int| 0 <= i < words.len() && holds_text(lower, #[trigger] words[i]);
        holding_is_being_between(lower, words[i]);
        let (left, right) = choose|left: Seq<char>, right: Seq<char>|
            lower == #[trigger] (left + words[i] + right);
        assert(lower == left + words[i] + right);
    }
    if is_told_by(lower, words) {
        let (i, left, right) = choose|i: int, left: Seq<char>, right: Seq<char>|
            0 <= i < words.len() && lower == #[trigger] (left + words[i] + right);
        holding_is_being_between(lower, words[i]);
        assert(holds_text(lower, words[i]));
    }
}

/// A function belongs to the first category one of whose words stands anywhere in its name in
/// lower case, whatever stands around the word.
pub proof fn first_told_category_counts(name: Seq<char>, lower: Seq<char>, category: int)
    requires
        0 <= category < telling_words().len(),
        is_told_by(lower, telling_words()[category].1),
        forall|earlier: int|
            0 <= earlier < category ==> !is_told_by(
                lower,
                (#[trigger] telling_words()[earlier]).1,
            ),
    ensures
        category_of(name, lower) == telling_words()[category].0,
{
    let told = telling_words();
    words_tell(lower, told[0].1);
    words_tell(lower, told[1].1);
    words_tell(lower, told[2].1);
    words_tell(lower, told[3].1);
    words_tell(lower, told[4].1);
    words_tell(lower, told[5].1);
    words_tell(lower, told[6].1);
    words_tell(lower, told[7].1);
    words_tell(lower, told[8].1);
    words_tell(lower, told[9].1);
    words_tell(lower, told[10].1);
    words_tell(lower, told[11].1);
}

/// A function that no word tells is an entry of a system call where its name begins with that of
/// such an entry, and belongs to no category otherwise.
pub proof fn entries_of_system_calls_are_told_by_their_beginning(
    name: Seq<char>,
    lower: Seq<char>,
    rest: Seq<char>,
)
    requires
        forall|i: int|
            0 <= i < telling_words().len() ==> !is_told_by(lower, (#[trigger] telling_words()[i]).1),
    ensures
        name == "__x64_sys_"@ + rest || name == "__x86_sys_"@ + rest || name == "syscall"@ + rest
            || name == "do_syscall"@ + rest || name == "entry_SYSCALL"@ + rest ==> category_of(
            name,
            lower,
        ) == "Syscall"@,
        name.len() == 0 ==> category_of(name, lower) == "Other"@,
{
    let told = telling_words();
    words_tell(lower, told[0].1);
    words_tell(lower, told[1].1);
    words_tell(lower, told[2].1);
    words_tell(lower, told[3].1);
    words_tell(lower, told[4].1);
    words_tell(lower, told[5].1);
    words_tell(lower, told[6].1);
    words_tell(lower, told[7].1);
    words_tell(lower, told[8].1);
    words_tell(lower, told[9].1);
    words_tell(lower, told[10].1);
    words_tell(lower, told[11].1);
    reveal_strlit("__x64_sys_");
    beginning_is_being_in_front(name, "__x64_sys_"@);
    reveal_strlit("__x86_sys_");
    beginning_is_being_in_front(name, "__x86_sys_"@);
    reveal_strlit("syscall");
    beginning_is_being_in_front(name, "syscall"@);
    reveal_strlit("do_syscall");
    beginning_is_being_in_front(name, "do_syscall"@);
    reveal_strlit("entry_SYSCALL");
    beginning_is_being_in_front(name, "entry_SYSCALL"@);
}

} // verus!
