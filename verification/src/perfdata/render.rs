//! Stacks as folded lines: which label each frame gets.

use vstd::prelude::*;
use vstd::slice::slice_subrange;
use vstd::string::StringExecFns;

use crate::folded::{
    append_inferno_perf_folded_label, append_inferno_perf_raw_function, escaped, separated,
    with_function,
};
use crate::perfdata::accumulate::{is_dropped, should_drop_perf_data_user_unwind_frame};
use crate::perfdata::mappings::{
    resolution_in, resolved, MmapTable, ResolvedMappingRef, ResolvedModel, TableModel,
};
use crate::perfdata::samples::is_kernel_space_frame;
use crate::perfdata::unwinding::FoldFrame;
use crate::symbols::{named_frames, symbol_frames, SymbolTable, SymbolsModel};
use crate::tables::{NameMap, TripleMap};
use crate::text::{
    begins_with, chars_of, hexadecimal, is_free_of, push_hexadecimal, same_text, starts_with,
    text_of, views,
};

verus! {

// ---------------------------------------------------------------------------
// Mapped addresses
// ---------------------------------------------------------------------------

/// Whether an address lies in the kernel's half of the address space.
pub open spec fn in_kernel_space(address: u64) -> bool {
    0xffff_8000_0000_0000 <= address < 0xffff_ffff_ffff_f000
}

/// Whether a mapping, for an address in it, is one of the kernel.
pub open spec fn is_kernel_mapping(mapping: ResolvedModel) -> bool {
    in_kernel_space(mapping.relative_address) && begins_with(mapping.path, "["@)
}

/// Tells whether a mapping, for an address in it, is one of the kernel.
pub fn is_kernel_mapping_ref(mapping: &ResolvedMappingRef<'_>) -> (found: bool)
    ensures
        found == is_kernel_mapping(mapping@),
{
    is_kernel_space_frame(mapping.relative_address) && starts_with(
        chars_of(mapping.path).as_slice(),
        "[",
    )
}

/// The mapping of an address, and the number of its symbol source.
#[verifier::ext_equal]
pub struct MappedModel {
    pub source: usize,
    pub mapping: ResolvedModel,
}

/// The mapping of an address of a process.
pub open spec fn mapped_at(table: TableModel, pid: Option<u32>, address: u64) -> Option<
    MappedModel,
> {
    match pid {
        None => None,
        Some(pid) => match resolved(table.mappings, pid, address) {
            None => None,
            Some(index) => Some(
                MappedModel {
                    source: table.sources[table.mappings[index].source_key()] as usize,
                    mapping: resolution_in(table.mappings[index], address),
                },
            ),
        },
    }
}

/// The mapping of an address, as a value.
pub open spec fn mapped_view(found: Option<ResolvedMappingRef<'_>>) -> Option<MappedModel> {
    match found {
        Some(found) => Some(MappedModel { source: found.symbol_source_id, mapping: found@ }),
        None => None,
    }
}

/// Finds the mapping of an address of a process.
pub fn find_mapping<'a>(mmap_table: &'a MmapTable, pid: Option<u32>, address: u64) -> (found:
    Option<ResolvedMappingRef<'a>>)
    requires
        mmap_table.wf(),
    ensures
        mapped_view(found) == mapped_at(mmap_table.model(), pid, address),
{
    match pid {
        None => None,
        Some(pid) => mmap_table.resolve_ref(pid, address),
    }
}

/// What is known of a frame's address: its mapping, that it is one of the kernel without a
/// mapping of the kernel, nothing, or that it is shown as a number.
#[verifier::ext_equal]
pub enum DecisionModel {
    Mapped(MappedModel),
    KernelAddress,
    Unknown,
    Address,
}

/// What is known of an address.
pub open spec fn decision(table: TableModel, pid: Option<u32>, address: u64) -> DecisionModel {
    match mapped_at(table, pid, address) {
        None => DecisionModel::Unknown,
        Some(mapped) => if in_kernel_space(address) && !is_kernel_mapping(mapped.mapping) {
            DecisionModel::KernelAddress
        } else {
            DecisionModel::Mapped(mapped)
        },
    }
}

/// What is known of a frame's address.
#[derive(Debug)]
pub enum FrameMappingDecision<'a> {
    Mapped(ResolvedMappingRef<'a>),
    KernelAddress,
    Unknown,
    Address,
}

/// What is known of a frame's address, as a value.
pub open spec fn decision_view(found: FrameMappingDecision<'_>) -> DecisionModel {
    match found {
        FrameMappingDecision::Mapped(found) => DecisionModel::Mapped(
            MappedModel { source: found.symbol_source_id, mapping: found@ },
        ),
        FrameMappingDecision::KernelAddress => DecisionModel::KernelAddress,
        FrameMappingDecision::Unknown => DecisionModel::Unknown,
        FrameMappingDecision::Address => DecisionModel::Address,
    }
}

/// Finds what is known of an address.
pub fn mapping_decision<'a>(mmap_table: &'a MmapTable, pid: Option<u32>, address: u64) -> (found:
    FrameMappingDecision<'a>)
    requires
        mmap_table.wf(),
    ensures
        decision_view(found) == decision(mmap_table.model(), pid, address),
{
    match find_mapping(mmap_table, pid, address) {
        None => FrameMappingDecision::Unknown,
        Some(mapping) => if is_kernel_space_frame(address) && !is_kernel_mapping_ref(&mapping) {
            FrameMappingDecision::KernelAddress
        } else {
            FrameMappingDecision::Mapped(mapping)
        },
    }
}

// ---------------------------------------------------------------------------
// Labels of mappings
// ---------------------------------------------------------------------------

/// The end of a path without slashes and single dots behind it.
pub open spec fn path_end(path: Seq<char>, upto: int) -> int
    decreases upto,
{
    if upto >= 1 && path[upto - 1] == '/' {
        path_end(path, upto - 1)
    } else if upto >= 2 && path[upto - 1] == '.' && path[upto - 2] == '/' {
        path_end(path, upto - 1)
    } else {
        upto
    }
}

/// Where the last component of the first `upto` characters of a path begins.
pub open spec fn component_start(path: Seq<char>, upto: int) -> int
    decreases upto,
{
    if upto <= 0 {
        0
    } else if path[upto - 1] == '/' {
        upto
    } else {
        component_start(path, upto - 1)
    }
}

/// The name of the file that a path ends in, if it ends in one.
pub open spec fn path_file_name(path: Seq<char>) -> Option<Seq<char>> {
    let end = path_end(path, path.len() as int);
    let name = path.subrange(component_start(path, end), end);
    if name.len() == 0 || name == "."@ || name == ".."@ {
        None
    } else {
        Some(name)
    }
}

/// Where the end of a path lies in it.
proof fn path_end_in_range(path: Seq<char>, upto: int)
    requires
        0 <= upto <= path.len(),
    ensures
        0 <= path_end(path, upto) <= upto,
    decreases upto,
{
    if upto >= 1 && path[upto - 1] == '/' {
        path_end_in_range(path, upto - 1);
    } else if upto >= 2 && path[upto - 1] == '.' && path[upto - 2] == '/' {
        path_end_in_range(path, upto - 1);
    }
}

/// Finds the name of the file that a path ends in.
pub fn file_name_of(path: &str) -> (name: Option<String>)
    ensures
        crate::text::text_view(name) == path_file_name(path@),
{
    let chars = chars_of(path);
    let mut end: usize = chars.len();
    while (end >= 1 && chars[end - 1] == '/') || (end >= 2 && chars[end - 1] == '.' && chars[end
        - 2] == '/')
        invariant
            end <= chars@.len(),
            path_end(chars@, chars@.len() as int) == path_end(chars@, end as int),
        decreases end,
    {
        end -= 1;
    }
    let mut start: usize = end;
    while start > 0 && chars[start - 1] != '/'
        invariant
            start <= end <= chars@.len(),
            component_start(chars@, end as int) == component_start(chars@, start as int),
        decreases start,
    {
        start -= 1;
    }
    let name = text_of(slice_subrange(chars.as_slice(), start, end));
    if start == end || same_text(name.as_str(), ".") || same_text(name.as_str(), "..") {
        None
    } else {
        Some(name)
    }
}

/// The label of an address in a mapping that no symbol is known of: the file's name in
/// brackets.
pub open spec fn module_label(path: Seq<char>) -> Seq<char> {
    "["@ + (match path_file_name(path) {
        Some(name) => name,
        None => path,
    }) + "]"@
}

/// The label of an address in a mapping that no symbol is known of.
pub open spec fn fallback_label(mapping: ResolvedModel) -> Seq<char> {
    if is_kernel_mapping(mapping) {
        if begins_with(mapping.path, "[kernel.kallsyms]"@) {
            "[[kernel.kallsyms]]"@
        } else {
            module_label(mapping.path)
        }
    } else if mapping.path == "[unknown]"@ {
        mapping.path
    } else {
        module_label(mapping.path)
    }
}

/// The label of an address in a mapped file that no symbol is known of.
#[must_use]
pub fn module_fallback_frame(path: &str) -> (label: String)
    ensures
        label@ == module_label(path@),
{
    let mut label = "[".to_string();
    match file_name_of(path) {
        Some(name) => label.append(name.as_str()),
        None => label.append(path),
    }
    label.append("]");
    label
}

/// The label of an address in a mapping that no symbol is known of.
#[must_use]
pub fn symbol_fallback_frame_ref(mapping: &ResolvedMappingRef<'_>) -> (label: String)
    ensures
        label@ == fallback_label(mapping@),
{
    if is_kernel_mapping_ref(mapping) {
        if starts_with(chars_of(mapping.path).as_slice(), "[kernel.kallsyms]") {
            "[[kernel.kallsyms]]".to_string()
        } else {
            module_fallback_frame(mapping.path)
        }
    } else if same_text(mapping.path, "[unknown]") {
        mapping.path.to_string()
    } else {
        module_fallback_frame(mapping.path)
    }
}

// ---------------------------------------------------------------------------
// Pieces of a line
// ---------------------------------------------------------------------------

/// A line with one more piece; an empty piece adds nothing.
pub open spec fn with_piece(rendered: Seq<char>, piece: Seq<char>) -> Seq<char> {
    if piece.len() == 0 {
        rendered
    } else {
        separated(rendered) + piece
    }
}

/// The piece of a label or, for a symbol, of its functions.
pub open spec fn piece_of(frame: Seq<char>, symbol: bool) -> Seq<char> {
    if symbol {
        with_function(Seq::empty(), frame)
    } else {
        escaped(frame)
    }
}

/// Appends a piece to a line.
pub fn append_cached_rendered_frame(rendered: &mut String, cached: &str)
    ensures
        final(rendered)@ == with_piece(old(rendered)@, cached@),
{
    if cached.unicode_len() == 0 {
        return;
    }
    if rendered.as_str().unicode_len() > 0 {
        rendered.push(';');
    }
    rendered.append(cached);
}

/// Pieces by the text that they were made of.
#[derive(Debug)]
pub struct FrameRenderCache {
    ids: NameMap,
    pieces: Vec<String>,
}

impl FrameRenderCache {
    /// Whether each remembered piece is that of its text.
    pub closed spec fn wf(&self, symbol: bool) -> bool {
        &&& self.pieces@.len() == self.pieces.len()
        &&& forall|frame: Seq<char>| #[trigger]
            self.ids@.contains_key(frame) ==> self.ids@[frame] < self.pieces@.len()
                && self.pieces@[self.ids@[frame] as int]@ == piece_of(frame, symbol)
    }

    fn new() -> (cache: FrameRenderCache)
        ensures
            forall|symbol: bool| #[trigger] cache.wf(symbol),
    {
        FrameRenderCache { ids: NameMap::new(), pieces: Vec::new() }
    }

    /// Appends the piece of a text to a line, making it only once.
    fn append(&mut self, rendered: &mut String, frame: &str, symbol: bool)
        requires
            old(self).wf(symbol),
        ensures
            final(self).wf(symbol),
            final(rendered)@ == with_piece(old(rendered)@, piece_of(frame@, symbol)),
    {
        if let Some(id) = self.ids.get(frame) {
            assert(self.ids@.contains_key(frame@));
            append_cached_rendered_frame(rendered, self.pieces[id as usize].as_str());
            return;
        }
        let ghost before = *self;
        let mut piece = String::new();
        if symbol {
            append_inferno_perf_raw_function(&mut piece, frame);
        } else {
            append_inferno_perf_folded_label(&mut piece, frame);
            assert(piece@ =~= escaped(frame@));
        }
        append_cached_rendered_frame(rendered, piece.as_str());
        let id: u64 = self.pieces.len() as u64;
        self.pieces.push(piece);
        self.ids.insert(frame.to_string(), id);
        let total: usize = self.pieces.len();
        proof {
            assert forall|other: Seq<char>| #[trigger]
                self.ids@.contains_key(other) implies self.ids@[other] < self.pieces@.len()
                && self.pieces@[self.ids@[other] as int]@ == piece_of(other, symbol) by {
                if other != frame@ {
                    assert(before.ids@.contains_key(other));
                }
            }
        }
    }
}

/// The line that is being rendered, and the pieces rendered before.
#[derive(Debug)]
pub struct FoldedRenderBuffers {
    pub rendered: String,
    pub raw_function_cache: FrameRenderCache,
    pub folded_label_cache: FrameRenderCache,
}

impl FoldedRenderBuffers {
    /// Whether the remembered pieces are right.
    pub closed spec fn wf(&self) -> bool {
        self.raw_function_cache.wf(true) && self.folded_label_cache.wf(false)
    }

    /// An empty line.
    #[must_use]
    pub fn new() -> (buffers: FoldedRenderBuffers)
        ensures
            buffers.wf(),
            buffers.rendered@ == Seq::<char>::empty(),
    {
        FoldedRenderBuffers {
            rendered: String::new(),
            raw_function_cache: FrameRenderCache::new(),
            folded_label_cache: FrameRenderCache::new(),
        }
    }

    /// Begins a new line.
    pub fn clear(&mut self)
        requires
            old(self).wf(),
        ensures
            final(self).wf(),
            final(self).rendered@ == Seq::<char>::empty(),
    {
        self.rendered = String::new();
    }
}

/// Appends a label.
pub fn append_cached_inferno_perf_folded_label_to_buffers(
    buffers: &mut FoldedRenderBuffers,
    frame: &str,
)
    requires
        old(buffers).wf(),
    ensures
        final(buffers).wf(),
        final(buffers).rendered@ == with_piece(old(buffers).rendered@, piece_of(frame@, false)),
{
    buffers.folded_label_cache.append(&mut buffers.rendered, frame, false);
}

/// Appends the functions of a symbol.
pub fn append_cached_inferno_perf_raw_function_to_buffers(
    buffers: &mut FoldedRenderBuffers,
    frame: &str,
)
    requires
        old(buffers).wf(),
    ensures
        final(buffers).wf(),
        final(buffers).rendered@ == with_piece(old(buffers).rendered@, piece_of(frame@, true)),
{
    buffers.raw_function_cache.append(&mut buffers.rendered, frame, true);
}

// ---------------------------------------------------------------------------
// Frames of a line
// ---------------------------------------------------------------------------

/// What symbols are known, if any.
pub open spec fn symbols_view(symbols: Option<&SymbolTable>) -> Option<SymbolsModel> {
    match symbols {
        Some(symbols) => Some(symbols@),
        None => None,
    }
}

/// Whether symbols, if any, are in order.
pub open spec fn symbols_wf(symbols: Option<&SymbolTable>) -> bool {
    symbols matches Some(symbols) ==> symbols.wf()
}

/// Whether a frame was unwound from a captured stack.
pub open spec fn is_unwound(frame: FoldFrame) -> bool {
    !(frame is Callchain)
}

/// The number of an address as a label.
pub open spec fn address_label(address: u64) -> Seq<char> {
    "0x"@ + hexadecimal(address as nat, 1)
}

/// The symbols of the first `count` functions as pieces of a line.
pub open spec fn with_functions(rendered: Seq<char>, frames: Seq<Seq<char>>, count: int) -> Seq<
    char,
>
    decreases count,
{
    if count <= 0 {
        rendered
    } else {
        with_piece(
            with_functions(rendered, frames, count - 1),
            piece_of(frames[count - 1], true),
        )
    }
}

/// A line with a frame.
pub open spec fn with_frame(
    rendered: Seq<char>,
    table: TableModel,
    pid: Option<u32>,
    frame: FoldFrame,
    symbols: Option<SymbolsModel>,
    inline: bool,
) -> Seq<char> {
    let address = frame.at();
    match decision(table, pid, address) {
        DecisionModel::Mapped(mapped) => match symbols {
            None => with_piece(rendered, piece_of(fallback_label(mapped.mapping), false)),
            Some(symbols) => {
                let frames = symbol_frames(
                    symbols,
                    mapped.source,
                    mapped.mapping.relative_address,
                    !inline,
                );
                if frames.len() == 0 {
                    with_piece(rendered, piece_of(fallback_label(mapped.mapping), false))
                } else {
                    with_functions(rendered, frames, frames.len() as int)
                }
            },
        },
        DecisionModel::Unknown => if symbols is None && is_unwound(frame) && in_kernel_space(
            address,
        ) {
            with_piece(rendered, piece_of(address_label(address), false))
        } else {
            with_piece(rendered, piece_of("[unknown]"@, false))
        },
        _ => with_piece(rendered, piece_of(address_label(address), false)),
    }
}

/// A line with the sampled address, when inlined functions are not asked for: the functions that
/// the object's symbol table names, or else a label of its mapping.
pub open spec fn with_current_ip(
    rendered: Seq<char>,
    table: TableModel,
    pid: Option<u32>,
    address: u64,
    symbols: SymbolsModel,
) -> Seq<char> {
    let named = match mapped_at(table, pid, address) {
        None => None,
        Some(mapped) => named_frames(symbols, mapped.source, mapped.mapping.relative_address),
    };
    match named {
        Some(frames) => with_functions(rendered, frames, frames.len() as int),
        None => match decision(table, pid, address) {
            DecisionModel::Mapped(mapped) => with_piece(
                rendered,
                piece_of(fallback_label(mapped.mapping), false),
            ),
            DecisionModel::Unknown => with_piece(rendered, piece_of("[unknown]"@, false)),
            _ => with_piece(rendered, piece_of(address_label(address), false)),
        },
    }
}

/// Whether a frame is skipped: an unwound one at address zero where no symbols are known, or one
/// in a mapping that is left out.
pub open spec fn is_skipped(
    table: TableModel,
    pid: Option<u32>,
    frame: FoldFrame,
    symbols: Option<SymbolsModel>,
) -> bool {
    (symbols is None && is_unwound(frame) && frame.at() == 0) || is_dropped(
        table.mappings,
        pid,
        frame,
    )
}

/// A line with the first `count` frames.
pub open spec fn with_frames(
    rendered: Seq<char>,
    table: TableModel,
    pid: Option<u32>,
    frames: Seq<FoldFrame>,
    count: int,
    symbols: Option<SymbolsModel>,
    inline: bool,
) -> Seq<char>
    decreases count,
{
    if count <= 0 {
        rendered
    } else {
        let before = with_frames(rendered, table, pid, frames, count - 1, symbols, inline);
        let frame = frames[count - 1];
        if is_skipped(table, pid, frame, symbols) {
            before
        } else {
            match (frame, symbols) {
                (FoldFrame::InlineCurrentIp(address), Some(known)) => if inline {
                    with_frame(
                        before,
                        table,
                        pid,
                        FoldFrame::UserUnwind(address),
                        symbols,
                        inline,
                    )
                } else {
                    with_current_ip(before, table, pid, address, known)
                },
                (FoldFrame::InlineCurrentIp(address), None) => with_frame(
                    before,
                    table,
                    pid,
                    FoldFrame::UserUnwind(address),
                    symbols,
                    inline,
                ),
                _ => with_frame(before, table, pid, frame, symbols, inline),
            }
        }
    }
}

/// A name as the first piece of a line: spaces become underscores.
pub open spec fn name_piece(comm: Option<Seq<char>>) -> Seq<char> {
    match comm {
        Some(comm) => escaped(
            comm.map_values(
                |c: char|
                    if c == ' ' {
                        '_'
                    } else {
                        c
                    },
            ),
        ),
        None => escaped("[unknown]"@),
    }
}

/// The line of a stack: its name, then its frames from the root. A stack that no frame is shown
/// of has no line.
pub open spec fn stack_line(
    table: TableModel,
    pid: Option<u32>,
    comm: Option<Seq<char>>,
    frames: Seq<FoldFrame>,
    symbols: Option<SymbolsModel>,
    inline: bool,
) -> Seq<char> {
    let name = with_piece(Seq::empty(), name_piece(comm));
    let line = with_frames(name, table, pid, frames, frames.len() as int, symbols, inline);
    if line.len() == name.len() {
        Seq::empty()
    } else {
        line
    }
}

/// Renders frames in the light of mappings.
#[derive(Clone, Copy, Debug)]
pub struct FoldFrameResolver<'a> {
    pub mmap_table: &'a MmapTable,
    pub inline: bool,
}

fn append_folded_address_label(buffers: &mut FoldedRenderBuffers, address: u64)
    requires
        old(buffers).wf(),
    ensures
        final(buffers).wf(),
        final(buffers).rendered@ == with_piece(
            old(buffers).rendered@,
            piece_of(address_label(address), false),
        ),
{
    let mut label = "0x".to_string();
    push_hexadecimal(&mut label, address, 1);
    append_cached_inferno_perf_folded_label_to_buffers(buffers, label.as_str());
}

fn append_functions(buffers: &mut FoldedRenderBuffers, frames: &Vec<String>)
    requires
        old(buffers).wf(),
    ensures
        final(buffers).wf(),
        final(buffers).rendered@ == with_functions(
            old(buffers).rendered@,
            views(frames@),
            frames@.len() as int,
        ),
{
    let ghost start = buffers.rendered@;
    let mut i: usize = 0;
    while i < frames.len()
        invariant
            i <= frames@.len(),
            buffers.wf(),
            buffers.rendered@ == with_functions(start, views(frames@), i as int),
        decreases frames@.len() - i,
    {
        assert(views(frames@)[i as int] == frames@[i as int]@);
        append_cached_inferno_perf_raw_function_to_buffers(buffers, frames[i].as_str());
        i += 1;
    }
}

impl<'a> FoldFrameResolver<'a> {
    /// Frames in the light of mappings, with or without inlined functions.
    #[must_use]
    pub fn new(mmap_table: &'a MmapTable, inline: bool) -> (resolver: FoldFrameResolver<'a>)
        ensures
            resolver.mmap_table == mmap_table,
            resolver.inline == inline,
    {
        FoldFrameResolver { mmap_table, inline }
    }

    fn append_folded_frame_labels(
        &self,
        pid: Option<u32>,
        frame: FoldFrame,
        symbols: Option<&SymbolTable>,
        buffers: &mut FoldedRenderBuffers,
    )
        requires
            self.mmap_table.wf(),
            symbols_wf(symbols),
            old(buffers).wf(),
        ensures
            final(buffers).wf(),
            final(buffers).rendered@ == with_frame(
                old(buffers).rendered@,
                self.mmap_table.model(),
                pid,
                frame,
                symbols_view(symbols),
                self.inline,
            ),
    {
        let address: u64 = frame.address();
        match mapping_decision(self.mmap_table, pid, address) {
            FrameMappingDecision::Mapped(mapping) => {
                if let Some(symbols) = symbols {
                    if let Some(found) = symbols.get(
                        mapping.symbol_source_id,
                        mapping.relative_address,
                        !self.inline,
                    ) {
                        if found.frames.len() > 0 {
                            append_functions(buffers, &found.frames);
                            return;
                        }
                    }
                }
                let fallback = symbol_fallback_frame_ref(&mapping);
                append_cached_inferno_perf_folded_label_to_buffers(buffers, fallback.as_str());
            },
            FrameMappingDecision::Unknown => {
                let unwound = match frame {
                    FoldFrame::Callchain(_) => false,
                    _ => true,
                };
                if symbols.is_none() && unwound && is_kernel_space_frame(address) {
                    append_folded_address_label(buffers, address);
                } else {
                    append_cached_inferno_perf_folded_label_to_buffers(buffers, "[unknown]");
                }
            },
            _ => append_folded_address_label(buffers, address),
        }
    }

    fn append_inline_current_ip_folded_frame(
        &self,
        pid: Option<u32>,
        address: u64,
        symbols: &SymbolTable,
        buffers: &mut FoldedRenderBuffers,
    )
        requires
            self.mmap_table.wf(),
            symbols.wf(),
            old(buffers).wf(),
        ensures
            final(buffers).wf(),
            final(buffers).rendered@ == with_current_ip(
                old(buffers).rendered@,
                self.mmap_table.model(),
                pid,
                address,
                symbols@,
            ),
    {
        if let Some(mapping) = find_mapping(self.mmap_table, pid, address) {
            if let Some(found) = symbols.get(
                mapping.symbol_source_id,
                mapping.relative_address,
                true,
            ) {
                if found.has_base_symbol {
                    append_functions(buffers, &found.frames);
                    return;
                }
            }
        }
        match mapping_decision(self.mmap_table, pid, address) {
            FrameMappingDecision::Mapped(mapping) => {
                let fallback = symbol_fallback_frame_ref(&mapping);
                append_cached_inferno_perf_folded_label_to_buffers(buffers, fallback.as_str());
            },
            FrameMappingDecision::Unknown => {
                append_cached_inferno_perf_folded_label_to_buffers(buffers, "[unknown]");
            },
            _ => append_folded_address_label(buffers, address),
        }
    }

    fn append_frame(
        &self,
        pid: Option<u32>,
        frame: FoldFrame,
        symbols: Option<&SymbolTable>,
        buffers: &mut FoldedRenderBuffers,
        frames: Ghost<Seq<FoldFrame>>,
        index: Ghost<int>,
        start: Ghost<Seq<char>>,
    )
        requires
            self.mmap_table.wf(),
            symbols_wf(symbols),
            old(buffers).wf(),
            0 <= index@ < frames@.len(),
            frames@[index@] == frame,
            old(buffers).rendered@ == with_frames(
                start@,
                self.mmap_table.model(),
                pid,
                frames@,
                index@,
                symbols_view(symbols),
                self.inline,
            ),
        ensures
            final(buffers).wf(),
            final(buffers).rendered@ == with_frames(
                start@,
                self.mmap_table.model(),
                pid,
                frames@,
                index@ + 1,
                symbols_view(symbols),
                self.inline,
            ),
    {
        let unwound = match frame {
            FoldFrame::Callchain(_) => false,
            _ => true,
        };
        if symbols.is_none() && unwound && frame.address() == 0 {
            return;
        }
        if should_drop_perf_data_user_unwind_frame(pid, frame, self.mmap_table) {
            return;
        }
        match frame {
            FoldFrame::InlineCurrentIp(address) => match symbols {
                Some(known) => if self.inline {
                    self.append_folded_frame_labels(
                        pid,
                        FoldFrame::UserUnwind(address),
                        symbols,
                        buffers,
                    );
                } else {
                    self.append_inline_current_ip_folded_frame(pid, address, known, buffers);
                },
                None => self.append_folded_frame_labels(
                    pid,
                    FoldFrame::UserUnwind(address),
                    symbols,
                    buffers,
                ),
            },
            _ => self.append_folded_frame_labels(pid, frame, symbols, buffers),
        }
    }

    /// Renders the line of a stack into the buffers.
    pub fn render_folded_stack_for_stack(
        &self,
        pid: Option<u32>,
        comm: Option<&str>,
        callchain: &[FoldFrame],
        symbols: Option<&SymbolTable>,
        buffers: &mut FoldedRenderBuffers,
    )
        requires
            self.mmap_table.wf(),
            symbols_wf(symbols),
            old(buffers).wf(),
        ensures
            final(buffers).wf(),
            final(buffers).rendered@ == stack_line(
                self.mmap_table.model(),
                pid,
                match comm {
                    Some(comm) => Some(comm@),
                    None => None,
                },
                callchain@,
                symbols_view(symbols),
                self.inline,
            ),
    {
        buffers.clear();
        match comm {
            Some(comm) => {
                let label = underscored(comm);
                append_cached_inferno_perf_folded_label_to_buffers(buffers, label.as_str());
            },
            None => append_cached_inferno_perf_folded_label_to_buffers(buffers, "[unknown]"),
        }
        let ghost name = buffers.rendered@;
        let name_len: usize = buffers.rendered.as_str().unicode_len();
        let mut i: usize = 0;
        while i < callchain.len()
            invariant
                i <= callchain.len(),
                self.mmap_table.wf(),
                symbols_wf(symbols),
                buffers.wf(),
                buffers.rendered@ == with_frames(
                    name,
                    self.mmap_table.model(),
                    pid,
                    callchain@,
                    i as int,
                    symbols_view(symbols),
                    self.inline,
                ),
            decreases callchain.len() - i,
        {
            self.append_frame(
                pid,
                callchain[i],
                symbols,
                buffers,
                Ghost(callchain@),
                Ghost(i as int),
                Ghost(name),
            );
            i += 1;
        }
        if buffers.rendered.as_str().unicode_len() == name_len {
            buffers.clear();
        }
    }
}

fn underscored(comm: &str) -> (label: String)
    ensures
        label@ == comm@.map_values(
            |c: char|
                if c == ' ' {
                    '_'
                } else {
                    c
                },
        ),
{
    let chars = chars_of(comm);
    let mut label = String::new();
    let mut i: usize = 0;
    while i < chars.len()
        invariant
            i <= chars@.len(),
            label@.len() == i,
            forall|j: int|
                0 <= j < i ==> #[trigger] label@[j] == if chars@[j] == ' ' {
                    '_'
                } else {
                    chars@[j]
                },
        decreases chars@.len() - i,
    {
        if chars[i] == ' ' {
            label.push('_');
        } else {
            label.push(chars[i]);
        }
        i += 1;
    }
    assert(label@ =~= comm@.map_values(
        |c: char|
            if c == ' ' {
                '_'
            } else {
                c
            },
    ));
    label
}

// ---------------------------------------------------------------------------
// Symbols to ask for
// ---------------------------------------------------------------------------

/// The mapping of a frame whose symbol is shown.
pub open spec fn wanted_mapping(table: TableModel, pid: Option<u32>, address: u64) -> Option<
    MappedModel,
> {
    match decision(table, pid, address) {
        DecisionModel::Mapped(mapped) => Some(mapped),
        _ => None,
    }
}

/// Whether a mapping's address is already asked for.
pub open spec fn is_wanted(list: Seq<MappedModel>, mapped: MappedModel) -> bool {
    exists|i: int|
        0 <= i < list.len() && (#[trigger] list[i]).source == mapped.source
            && list[i].mapping.relative_address == mapped.mapping.relative_address
}

/// The mappings with one more to ask for.
pub open spec fn wanting(list: Seq<MappedModel>, mapped: Option<MappedModel>) -> Seq<MappedModel> {
    match mapped {
        None => list,
        Some(mapped) => if is_wanted(list, mapped) {
            list
        } else {
            list.push(mapped)
        },
    }
}

/// The mappings with those of the first `count` frames to ask for.
pub open spec fn wanting_frames(
    list: Seq<MappedModel>,
    table: TableModel,
    pid: Option<u32>,
    frames: Seq<FoldFrame>,
    count: int,
) -> Seq<MappedModel>
    decreases count,
{
    if count <= 0 {
        list
    } else {
        wanting(
            wanting_frames(list, table, pid, frames, count - 1),
            wanted_mapping(table, pid, frames[count - 1].at()),
        )
    }
}

/// The mappings whose addresses are asked for, with and without inlined functions.
#[derive(Debug)]
pub struct SymbolPrefetchBatches<'a> {
    pub full_mappings: Vec<ResolvedMappingRef<'a>>,
    pub base_mappings: Vec<ResolvedMappingRef<'a>>,
    pub seen_full: TripleMap,
    pub seen_base: TripleMap,
}

/// Mappings to ask for, as values.
pub open spec fn mapped_views(list: Seq<ResolvedMappingRef<'_>>) -> Seq<MappedModel> {
    list.map_values(
        |found: ResolvedMappingRef<'_>|
            MappedModel { source: found.symbol_source_id, mapping: found@ },
    )
}

spec fn seen_matches(seen: Map<(u64, u64, u64), u64>, list: Seq<MappedModel>) -> bool {
    forall|mapped: MappedModel| #[trigger]
        is_wanted(list, mapped) <==> seen.contains_key(
            (mapped.source as u64, mapped.mapping.relative_address, 0),
        )
}

fn want<'a>(
    list: &mut Vec<ResolvedMappingRef<'a>>,
    seen: &mut TripleMap,
    mapping: ResolvedMappingRef<'a>,
)
    requires
        seen_matches(old(seen)@, mapped_views(old(list)@)),
    ensures
        seen_matches(final(seen)@, mapped_views(final(list)@)),
        mapped_views(final(list)@) == wanting(
            mapped_views(old(list)@),
            Some(MappedModel { source: mapping.symbol_source_id, mapping: mapping@ }),
        ),
{
    let ghost before = mapped_views(list@);
    let ghost mapped = MappedModel { source: mapping.symbol_source_id, mapping: mapping@ };
    let key = (mapping.symbol_source_id as u64, mapping.relative_address, 0u64);
    if seen.get(key).is_some() {
        assert(is_wanted(before, mapped));
        return;
    }
    assert(!is_wanted(before, mapped));
    seen.insert(key, 0);
    list.push(mapping);
    proof {
        let now = mapped_views(list@);
        assert(now =~= before.push(mapped));
        assert forall|other: MappedModel| #[trigger]
            is_wanted(now, other) <==> seen@.contains_key(
                (other.source as u64, other.mapping.relative_address, 0),
            ) by {
            if is_wanted(before, other) {
                let i = choose|i: int|
                    0 <= i < before.len() && (#[trigger] before[i]).source == other.source
                        && before[i].mapping.relative_address == other.mapping.relative_address;
                assert(now[i] == before[i]);
            }
            if other.source == mapped.source && other.mapping.relative_address
                == mapped.mapping.relative_address {
                assert(now[before.len() as int] == mapped);
            }
            if is_wanted(now, other) {
                let i = choose|i: int|
                    0 <= i < now.len() && (#[trigger] now[i]).source == other.source
                        && now[i].mapping.relative_address == other.mapping.relative_address;
                if i < before.len() {
                    assert(before[i] == now[i]);
                    assert(is_wanted(before, other));
                }
            }
        }
    }
}

impl<'a> SymbolPrefetchBatches<'a> {
    /// Whether each address is asked for once.
    pub closed spec fn wf(&self) -> bool {
        &&& seen_matches(self.seen_full@, mapped_views(self.full_mappings@))
        &&& seen_matches(self.seen_base@, mapped_views(self.base_mappings@))
    }

    /// Nothing to ask for.
    #[must_use]
    pub fn new() -> (batches: SymbolPrefetchBatches<'a>)
        ensures
            batches.wf(),
            batches.full_mappings@.len() == 0,
            batches.base_mappings@.len() == 0,
    {
        SymbolPrefetchBatches {
            full_mappings: Vec::new(),
            base_mappings: Vec::new(),
            seen_full: TripleMap::new(),
            seen_base: TripleMap::new(),
        }
    }
}

/// Asks for the symbols of a stack's frames: their base symbols, or all functions where inlined
/// ones are shown.
pub fn extend_symbol_mappings_for_stack<'a>(
    pid: Option<u32>,
    callchain: &[FoldFrame],
    mmap_table: &'a MmapTable,
    batches: &mut SymbolPrefetchBatches<'a>,
    inline: bool,
)
    requires
        mmap_table.wf(),
        old(batches).wf(),
    ensures
        final(batches).wf(),
        inline ==> mapped_views(final(batches).full_mappings@) == wanting_frames(
            mapped_views(old(batches).full_mappings@),
            mmap_table.model(),
            pid,
            callchain@,
            callchain@.len() as int,
        ) && final(batches).base_mappings@ == old(batches).base_mappings@,
        !inline ==> mapped_views(final(batches).base_mappings@) == wanting_frames(
            mapped_views(old(batches).base_mappings@),
            mmap_table.model(),
            pid,
            callchain@,
            callchain@.len() as int,
        ) && final(batches).full_mappings@ == old(batches).full_mappings@,
{
    let ghost full = batches.full_mappings@;
    let ghost base = batches.base_mappings@;
    let mut i: usize = 0;
    while i < callchain.len()
        invariant
            i <= callchain.len(),
            mmap_table.wf(),
            batches.wf(),
            inline ==> mapped_views(batches.full_mappings@) == wanting_frames(
                mapped_views(full),
                mmap_table.model(),
                pid,
                callchain@,
                i as int,
            ) && batches.base_mappings@ == base,
            !inline ==> mapped_views(batches.base_mappings@) == wanting_frames(
                mapped_views(base),
                mmap_table.model(),
                pid,
                callchain@,
                i as int,
            ) && batches.full_mappings@ == full,
        decreases callchain.len() - i,
    {
        match mapping_decision(mmap_table, pid, callchain[i].address()) {
            FrameMappingDecision::Mapped(mapping) => {
                if inline {
                    want(&mut batches.full_mappings, &mut batches.seen_full, mapping);
                } else {
                    want(&mut batches.base_mappings, &mut batches.seen_base, mapping);
                }
            },
            _ => {},
        }
        i += 1;
    }
}

// ---------------------------------------------------------------------------
// Laws
// ---------------------------------------------------------------------------

/// Whether a line begins with another.
pub open spec fn continues(line: Seq<char>, front: Seq<char>) -> bool {
    exists|rest: Seq<char>| line == #[trigger] (front + rest)
}

proof fn lines_continue(a: Seq<char>, b: Seq<char>, c: Seq<char>)
    ensures
        continues(a, a),
        continues(c, b) && continues(b, a) ==> continues(c, a),
{
    assert(a =~= a + Seq::<char>::empty());
    if continues(c, b) && continues(b, a) {
        let first = choose|rest: Seq<char>| b == #[trigger] (a + rest);
        let second = choose|rest: Seq<char>| c == #[trigger] (b + rest);
        assert(c =~= a + (first + second));
    }
}

proof fn pieces_are_appended(rendered: Seq<char>, piece: Seq<char>)
    ensures
        continues(with_piece(rendered, piece), rendered),
{
    lines_continue(rendered, rendered, rendered);
    if piece.len() > 0 && rendered.len() > 0 {
        assert(with_piece(rendered, piece) =~= rendered + (seq![';'] + piece));
    } else if piece.len() > 0 {
        assert(with_piece(rendered, piece) =~= rendered + piece);
    }
}

/// The functions at an address are appended one behind the other: those of a shorter list stand
/// in front of the others.
pub proof fn functions_are_appended_in_order(
    rendered: Seq<char>,
    frames: Seq<Seq<char>>,
    fewer: int,
    count: int,
)
    requires
        0 <= fewer <= count <= frames.len(),
    ensures
        continues(with_functions(rendered, frames, count), with_functions(rendered, frames, fewer)),
    decreases count - fewer,
{
    let line = with_functions(rendered, frames, count);
    lines_continue(line, line, line);
    if fewer < count {
        functions_are_appended_in_order(rendered, frames, fewer, count - 1);
        let before = with_functions(rendered, frames, count - 1);
        pieces_are_appended(before, piece_of(frames[count - 1], true));
        lines_continue(with_functions(rendered, frames, fewer), before, line);
    }
}

proof fn frame_is_appended(
    rendered: Seq<char>,
    table: TableModel,
    pid: Option<u32>,
    frame: FoldFrame,
    symbols: Option<SymbolsModel>,
    inline: bool,
)
    ensures
        continues(with_frame(rendered, table, pid, frame, symbols, inline), rendered),
        symbols matches Some(known) ==> continues(
            with_current_ip(rendered, table, pid, frame.at(), known),
            rendered,
        ),
{
    let address = frame.at();
    pieces_are_appended(rendered, piece_of(address_label(address), false));
    pieces_are_appended(rendered, piece_of("[unknown]"@, false));
    if let Some(mapped) = mapped_at(table, pid, address) {
        pieces_are_appended(rendered, piece_of(fallback_label(mapped.mapping), false));
        if let Some(known) = symbols {
            let found = symbol_frames(
                known,
                mapped.source,
                mapped.mapping.relative_address,
                !inline,
            );
            functions_are_appended_in_order(rendered, found, 0, found.len() as int);
            if let Some(named) = named_frames(
                known,
                mapped.source,
                mapped.mapping.relative_address,
            ) {
                functions_are_appended_in_order(rendered, named, 0, named.len() as int);
            }
        }
    }
}

/// A line is written from the root to the leaf: with fewer of the inner frames it is a beginning
/// of itself.
pub proof fn lines_grow_towards_the_leaf(
    rendered: Seq<char>,
    table: TableModel,
    pid: Option<u32>,
    frames: Seq<FoldFrame>,
    fewer: int,
    count: int,
    symbols: Option<SymbolsModel>,
    inline: bool,
)
    requires
        0 <= fewer <= count <= frames.len(),
    ensures
        continues(
            with_frames(rendered, table, pid, frames, count, symbols, inline),
            with_frames(rendered, table, pid, frames, fewer, symbols, inline),
        ),
    decreases count - fewer,
{
    let line = with_frames(rendered, table, pid, frames, count, symbols, inline);
    lines_continue(line, line, line);
    if fewer < count {
        lines_grow_towards_the_leaf(
            rendered,
            table,
            pid,
            frames,
            fewer,
            count - 1,
            symbols,
            inline,
        );
        let before = with_frames(rendered, table, pid, frames, count - 1, symbols, inline);
        let frame = frames[count - 1];
        frame_is_appended(before, table, pid, frame, symbols, inline);
        frame_is_appended(
            before,
            table,
            pid,
            FoldFrame::UserUnwind(frame.at()),
            symbols,
            inline,
        );
        lines_continue(before, before, before);
        lines_continue(
            with_frames(rendered, table, pid, frames, fewer, symbols, inline),
            before,
            line,
        );
    }
}

/// The line of a stack begins with the name of its thread, unless there is no line.
pub proof fn lines_begin_with_the_name(
    table: TableModel,
    pid: Option<u32>,
    comm: Option<Seq<char>>,
    frames: Seq<FoldFrame>,
    symbols: Option<SymbolsModel>,
    inline: bool,
)
    ensures
        stack_line(table, pid, comm, frames, symbols, inline).len() > 0 ==> continues(
            stack_line(table, pid, comm, frames, symbols, inline),
            name_piece(comm),
        ),
        comm matches Some(name) ==> name_piece(comm) == escaped(
            Seq::new(
                name.len(),
                |i: int|
                    if name[i] == ' ' {
                        '_'
                    } else {
                        name[i]
                    },
            ),
        ),
{
    let name = with_piece(Seq::empty(), name_piece(comm));
    lines_grow_towards_the_leaf(
        name,
        table,
        pid,
        frames,
        0,
        frames.len() as int,
        symbols,
        inline,
    );
    assert(name =~= name_piece(comm));
    if let Some(comm) = comm {
        assert(comm.map_values(
            |c: char|
                if c == ' ' {
                    '_'
                } else {
                    c
                },
        ) =~= Seq::new(
            comm.len(),
            |i: int|
                if comm[i] == ' ' {
                    '_'
                } else {
                    comm[i]
                },
        ));
    }
}

/// Whether symbols say the same wherever they are asked with or without inlined functions.
pub open spec fn agree_on(left: SymbolsModel, right: SymbolsModel, base: bool) -> bool {
    forall|source: usize, address: u64|
        #![trigger left.contains_key((source, address, base))]
        #![trigger right.contains_key((source, address, base))]
        (left.contains_key((source, address, base)) <==> right.contains_key(
            (source, address, base),
        )) && left[(source, address, base)] == right[(source, address, base)]
}

proof fn asked_symbols_decide_up_to(
    rendered: Seq<char>,
    table: TableModel,
    pid: Option<u32>,
    frames: Seq<FoldFrame>,
    count: int,
    left: SymbolsModel,
    right: SymbolsModel,
    inline: bool,
)
    requires
        agree_on(left, right, !inline),
    ensures
        with_frames(rendered, table, pid, frames, count, Some(left), inline) == with_frames(
            rendered,
            table,
            pid,
            frames,
            count,
            Some(right),
            inline,
        ),
    decreases count,
{
    if count > 0 {
        asked_symbols_decide_up_to(rendered, table, pid, frames, count - 1, left, right, inline);
        let address = frames[count - 1].at();
        if let Some(mapped) = mapped_at(table, pid, address) {
            let at = (mapped.source, mapped.mapping.relative_address, !inline);
            assert(left.contains_key(at) <==> right.contains_key(at));
        }
    }
}

/// A line with inlined functions depends on what is known of inlined functions alone, and one
/// without them on what the symbol tables name alone.
pub proof fn asked_symbols_decide(
    table: TableModel,
    pid: Option<u32>,
    comm: Option<Seq<char>>,
    frames: Seq<FoldFrame>,
    left: SymbolsModel,
    right: SymbolsModel,
    inline: bool,
)
    requires
        agree_on(left, right, !inline),
    ensures
        stack_line(table, pid, comm, frames, Some(left), inline) == stack_line(
            table,
            pid,
            comm,
            frames,
            Some(right),
            inline,
        ),
{
    asked_symbols_decide_up_to(
        with_piece(Seq::empty(), name_piece(comm)),
        table,
        pid,
        frames,
        frames.len() as int,
        left,
        right,
        inline,
    );
}

proof fn component_starts_behind_slash(path: Seq<char>, upto: int, at: int)
    requires
        0 <= at <= upto <= path.len(),
        at > 0 ==> path[at - 1] == '/',
        forall|i: int| at <= i < upto ==> #[trigger] path[i] != '/',
    ensures
        component_start(path, upto) == at,
    decreases upto - at,
{
    if at < upto {
        component_starts_behind_slash(path, upto - 1, at);
    }
}

/// A mapped file that no symbol is known of is shown by its name in square brackets, whatever
/// directory it lies in.
pub proof fn modules_are_labelled_by_their_files(directory: Seq<char>, name: Seq<char>)
    requires
        name.len() > 0,
        is_free_of(name, '/'),
        name != "."@,
        name != ".."@,
    ensures
        path_file_name(directory + seq!['/'] + name) == Some(name),
        path_file_name(name) == Some(name),
        module_label(directory + seq!['/'] + name) == seq!['['] + name + seq![']'],
        module_label(name) == seq!['['] + name + seq![']'],
{
    reveal_strlit(".");
    reveal_strlit("[");
    reveal_strlit("]");
    let path = directory + seq!['/'] + name;
    let end = path.len() as int;
    let at = directory.len() + 1;
    assert(path.last() == name.last());
    if name.len() >= 2 {
        assert(path[end - 2] == name[name.len() - 2]);
    } else if name[0] == '.' {
        assert(name =~= "."@);
    }
    assert(path_end(path, end) == end);
    assert forall|i: int| at <= i < end implies #[trigger] path[i] != '/' by {
        assert(path[i] == name[i - at]);
    }
    component_starts_behind_slash(path, end, at as int);
    assert(path.subrange(at as int, end) =~= name);
    assert(path_end(name, name.len() as int) == name.len());
    component_starts_behind_slash(name, name.len() as int, 0);
    assert(name.subrange(0, name.len() as int) =~= name);
    assert("["@ =~= seq!['[']);
    assert("]"@ =~= seq![']']);
}

/// Whether no symbol is asked for twice: no two mappings have the same source and address.
pub open spec fn asks_once(list: Seq<MappedModel>) -> bool {
    forall|i: int, j: int|
        #![trigger list[i], list[j]]
        0 <= i < j < list.len() ==> list[i].source != list[j].source
            || list[i].mapping.relative_address != list[j].mapping.relative_address
}

/// The symbol of every frame that has a mapping is asked for, and that of no other; what was asked
/// for before stays in front, and nothing is asked for twice.
pub proof fn symbols_of_all_frames_are_asked_for_once(
    list: Seq<MappedModel>,
    table: TableModel,
    pid: Option<u32>,
    frames: Seq<FoldFrame>,
    count: int,
)
    requires
        0 <= count <= frames.len(),
        asks_once(list),
    ensures
        ({
            let after = wanting_frames(list, table, pid, frames, count);
            &&& list.is_prefix_of(after)
            &&& asks_once(after)
            &&& forall|k: int|
                0 <= k < count ==> (decision(
                    table,
                    pid,
                    (#[trigger] frames[k]).at(),
                ) matches DecisionModel::Mapped(mapped) ==> is_wanted(after, mapped))
            &&& forall|i: int|
                list.len() <= i < after.len() ==> exists|k: int|
                    0 <= k < count && decision(table, pid, (#[trigger] frames[k]).at())
                        == DecisionModel::Mapped(#[trigger] after[i])
        }),
    decreases count,
{
    if count > 0 {
        symbols_of_all_frames_are_asked_for_once(list, table, pid, frames, count - 1);
        let before = wanting_frames(list, table, pid, frames, count - 1);
        let after = wanting_frames(list, table, pid, frames, count);
        let last = frames[count - 1];
        assert(before.is_prefix_of(after));
        assert forall|mapped: MappedModel| is_wanted(before, mapped) implies #[trigger] is_wanted(
            after,
            mapped,
        ) by {
            let i = choose|i: int|
                0 <= i < before.len() && (#[trigger] before[i]).source == mapped.source
                    && before[i].mapping.relative_address == mapped.mapping.relative_address;
            assert(after[i] == before[i]);
        }
        assert forall|k: int| 0 <= k < count implies (decision(
            table,
            pid,
            (#[trigger] frames[k]).at(),
        ) matches DecisionModel::Mapped(mapped) ==> is_wanted(after, mapped)) by {
            if let DecisionModel::Mapped(mapped) = decision(table, pid, frames[k].at()) {
                if k < count - 1 {
                    assert(is_wanted(before, mapped));
                } else if !is_wanted(before, mapped) {
                    assert(after.last() == mapped);
                    assert(after[after.len() - 1] == mapped);
                }
            }
        }
        assert forall|i: int| list.len() <= i < after.len() implies exists|k: int|
            0 <= k < count && decision(table, pid, (#[trigger] frames[k]).at())
                == DecisionModel::Mapped(#[trigger] after[i]) by {
            if i < before.len() {
                assert(after[i] == before[i]);
                let k = choose|k: int|
                    0 <= k < count - 1 && decision(table, pid, (#[trigger] frames[k]).at())
                        == DecisionModel::Mapped(before[i]);
                assert(decision(table, pid, frames[k].at()) == DecisionModel::Mapped(after[i]));
            } else {
                assert(decision(table, pid, last.at()) == DecisionModel::Mapped(after[i]));
                assert(frames[count - 1] == last);
            }
        }
        if after.len() > before.len() {
            let mapped = wanted_mapping(table, pid, last.at())->Some_0;
            assert forall|i: int, j: int|
                #![trigger after[i], after[j]]
                0 <= i < j < after.len() implies after[i].source != after[j].source
                || after[i].mapping.relative_address != after[j].mapping.relative_address by {
                assert(after[i] == before[i]);
                if j < before.len() {
                    assert(after[j] == before[j]);
                } else {
                    assert(after[j] == mapped);
                }
            }
        }
    }
}

} // verus!
