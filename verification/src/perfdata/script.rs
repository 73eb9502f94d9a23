//! Samples as text, one event after another: a header line, then a line for each frame.

use vstd::prelude::*;
use vstd::slice::slice_subrange;
use vstd::string::StringExecFns;

use crate::perfdata::accumulate::{
    in_cookie_order, is_dropped, should_drop_perf_data_user_unwind_frame, FoldAccumulator, FoldModel, FoldOptions,
    PreparedFoldSample, PreparedModel,
};
use crate::perfdata::fold::{FilePrelude, SetupModel};
use crate::perfdata::layouts::SampleLayouts;
use crate::perfdata::mappings::{MmapTable, ResolvedMappingRef, TableModel};
use crate::perfdata::opening::{open_file, opening_of};
use crate::perfdata::records::{ParsedModel, ParsedRecord};
use crate::perfdata::render::{
    address_label, decision, fallback_label, find_mapping, is_unwound,
    mapped_at, mapping_decision, symbol_fallback_frame_ref, symbols_view, symbols_wf,
    DecisionModel, FrameMappingDecision, MappedModel,
};
use crate::perfdata::samples::{is_marker, is_perf_context_marker};
use crate::perfdata::stream::{data_section, section_of, RecordStream, StreamModel};
use crate::perfdata::unwinding::{FoldFrame, ObjectStore, ObjectsModel};
use crate::symbols::{named_frames, symbol_frames, SymbolTable, SymbolsModel};
use crate::text::{
    beginning_is_being_in_front, begins_with, chars_of, decimal, ending_is_being_behind, ends_in,
    ends_with, has_hex_tail, hex_tail, hexadecimal, last_at, push_decimal, push_hexadecimal,
    rfind_text, same_text, starts_with, text_of, views,
};

verus! {

broadcast use vstd::std_specs::control_flow::group_control_flow_axioms;

// ---------------------------------------------------------------------------
// Columns
// ---------------------------------------------------------------------------

/// A text with a character in front of it as often as needed for a width.
pub open spec fn padded(text: Seq<char>, fill: char, width: int) -> Seq<char> {
    if text.len() < width {
        Seq::new((width - text.len()) as nat, |i: int| fill) + text
    } else {
        text
    }
}

/// Appends a text to a width.
pub fn push_padded(out: &mut String, text: &str, fill: char, width: usize)
    ensures
        final(out)@ == old(out)@ + padded(text@, fill, width as int),
{
    let ghost start = out@;
    let len: usize = text.unicode_len();
    let mut i: usize = len;
    while i < width
        invariant
            len <= i,
            len < width ==> i <= width,
            i > len ==> i <= width,
            len == text@.len(),
            out@ == start + Seq::new((i - len) as nat, |j: int| fill),
        decreases width - i,
    {
        out.push(fill);
        i += 1;
        assert(out@ =~= start + Seq::new((i - len) as nat, |j: int| fill));
    }
    let ghost fills = out@;
    out.append(text);
    proof {
        assert(fills + text@ =~= start + padded(text@, fill, width as int)) by {
            if len >= width {
                assert(fills =~= start);
            }
        }
    }
}

fn push_padded_number(out: &mut String, n: u64, fill: char, width: usize)
    ensures
        final(out)@ == old(out)@ + padded(decimal(n as nat), fill, width as int),
{
    let mut digits = String::new();
    push_decimal(&mut digits, n as u128);
    assert(digits@ =~= decimal(n as nat));
    push_padded(out, digits.as_str(), fill, width);
}

// ---------------------------------------------------------------------------
// Frames
// ---------------------------------------------------------------------------

/// The column of an address.
pub open spec fn address_column(address: u64) -> Seq<char> {
    padded(hexadecimal(address as nat, 1), ' ', 16)
}

/// An address, what is shown for it, and where it lies, in brackets.
pub open spec fn frame_text(address: u64, label: Seq<char>, place: Seq<char>) -> Seq<char> {
    address_column(address) + " "@ + label + " ("@ + place + ")"@
}

fn push_frame(out: &mut String, address: u64, label: &str, place: &str)
    ensures
        final(out)@ == old(out)@ + frame_text(address, label@, place@),
{
    let ghost start = out@;
    let mut digits = String::new();
    push_hexadecimal(&mut digits, address, 1);
    assert(digits@ =~= hexadecimal(address as nat, 1));
    push_padded(out, digits.as_str(), ' ', 16);
    out.append(" ");
    out.append(label);
    out.append(" (");
    out.append(place);
    out.append(")");
    assert(out@ =~= start + frame_text(address, label@, place@));
}

/// The name in a label that stands for a file: the text between brackets.
pub open spec fn bracketed_module(label: Seq<char>) -> Option<Seq<char>> {
    if label.len() >= 2 && begins_with(label, "["@) && ends_in(label, "]"@) {
        let inner = label.subrange(1, label.len() - 1);
        if inner != "unknown"@ && inner.len() > 0 {
            Some(inner)
        } else {
            None
        }
    } else {
        None
    }
}

fn module_fallback_label_module(label: &str) -> (module: Option<String>)
    ensures
        crate::text::text_view(module) == bracketed_module(label@),
{
    let chars = chars_of(label);
    if chars.len() < 2 || !starts_with(chars.as_slice(), "[") || !ends_with(chars.as_slice(), "]") {
        return None;
    }
    let inner = text_of(slice_subrange(chars.as_slice(), 1, chars.len() - 1));
    if !same_text(inner.as_str(), "unknown") && inner.as_str().unicode_len() > 0 {
        Some(inner)
    } else {
        None
    }
}

/// Whether a label ends in an offset.
pub open spec fn has_offset(label: Seq<char>) -> bool {
    last_at(label, "+0x"@, label.len() as int) matches Some(at) && hex_tail(label, at + 3)
}

fn looks_like_mapped_frame_label(label: &str) -> (found: bool)
    ensures
        found == has_offset(label@),
{
    proof {
        reveal_strlit("+0x");
    }
    let chars = chars_of(label);
    match rfind_text(chars.as_slice(), "+0x") {
        Some(at) => has_hex_tail(chars.as_slice(), at + 3),
        None => false,
    }
}

/// A frame of which only a label is known.
pub open spec fn labelled(address: u64, label: Seq<char>) -> Seq<char> {
    if label == "[unknown]"@ {
        frame_text(address, "[unknown]"@, "[unknown]"@)
    } else if begins_with(label, "0x"@) {
        frame_text(address, label, "[unknown]"@)
    } else {
        match bracketed_module(label) {
            Some(module) => frame_text(address, "[unknown]"@, module),
            None => if has_offset(label) {
                frame_text(address, label + "+0x0"@, "[unknown]"@)
            } else {
                frame_text(address, label, "[unknown]"@)
            },
        }
    }
}

fn push_labelled(out: &mut String, address: u64, label: &str)
    ensures
        final(out)@ == old(out)@ + labelled(address, label@),
{
    if same_text(label, "[unknown]") {
        push_frame(out, address, "[unknown]", "[unknown]");
        return;
    }
    if starts_with(chars_of(label).as_slice(), "0x") {
        push_frame(out, address, label, "[unknown]");
        return;
    }
    if let Some(module) = module_fallback_label_module(label) {
        push_frame(out, address, "[unknown]", module.as_str());
        return;
    }
    if looks_like_mapped_frame_label(label) {
        let text = crate::text::joined(label, "+0x0");
        push_frame(out, address, text.as_str(), "[unknown]");
        return;
    }
    push_frame(out, address, label, "[unknown]");
}

/// A frame with a symbol in a mapped file.
pub open spec fn symbolized(address: u64, label: Seq<char>, path: Seq<char>) -> Seq<char> {
    if label == "[unknown]"@ || begins_with(label, "0x"@) || bracketed_module(label) is Some {
        labelled(address, label)
    } else {
        frame_text(address, label, path)
    }
}

fn push_symbolized(out: &mut String, address: u64, label: &str, path: &str)
    ensures
        final(out)@ == old(out)@ + symbolized(address, label@, path@),
{
    if same_text(label, "[unknown]") || starts_with(chars_of(label).as_slice(), "0x")
        || module_fallback_label_module(label).is_some() {
        push_labelled(out, address, label);
    } else {
        push_frame(out, address, label, path);
    }
}

/// A frame on a line of its own.
pub open spec fn frame_line(frame: Seq<char>) -> Seq<char> {
    "\t"@ + frame + "\n"@
}

/// The lines of the last `count` functions at an address, outermost first.
pub open spec fn function_lines(
    address: u64,
    frames: Seq<Seq<char>>,
    path: Seq<char>,
    count: int,
) -> Seq<char>
    decreases count,
{
    if count <= 0 {
        Seq::empty()
    } else {
        frame_line(symbolized(address, frames[count - 1], path)) + function_lines(
            address,
            frames,
            path,
            count - 1,
        )
    }
}

/// The lines of an address in a mapping.
pub open spec fn mapped_lines(
    address: u64,
    mapped: MappedModel,
    symbols: Option<SymbolsModel>,
    inline: bool,
) -> Seq<char> {
    let path = mapped.mapping.path;
    let unknown = frame_line(frame_text(address, "[unknown]"@, path));
    match symbols {
        None => unknown,
        Some(symbols) => if inline {
            let frames = symbol_frames(
                symbols,
                mapped.source,
                mapped.mapping.relative_address,
                false,
            );
            if frames.len() == 0 {
                unknown
            } else {
                function_lines(address, frames, path, frames.len() as int)
            }
        } else {
            match named_frames(symbols, mapped.source, mapped.mapping.relative_address) {
                Some(frames) => if frames.len() == 0 {
                    unknown
                } else {
                    frame_line(symbolized(address, frames[0], path))
                },
                None => unknown,
            }
        },
    }
}

/// The lines of a frame.
pub open spec fn regular_lines(
    table: TableModel,
    pid: Option<u32>,
    address: u64,
    symbols: Option<SymbolsModel>,
    inline: bool,
) -> Seq<char> {
    match decision(table, pid, address) {
        DecisionModel::Mapped(mapped) => mapped_lines(address, mapped, symbols, inline),
        DecisionModel::Unknown => frame_line(frame_text(address, "[unknown]"@, "[unknown]"@)),
        _ => frame_line(frame_text(address, address_label(address), "[unknown]"@)),
    }
}

/// The lines of the sampled address, when inlined functions are not asked for.
pub open spec fn current_ip_lines(
    table: TableModel,
    pid: Option<u32>,
    address: u64,
    symbols: SymbolsModel,
) -> Seq<char> {
    match mapped_at(table, pid, address) {
        None => regular_lines(table, pid, address, None, false),
        Some(mapped) => match named_frames(
            symbols,
            mapped.source,
            mapped.mapping.relative_address,
        ) {
            Some(frames) => function_lines(
                address,
                frames,
                mapped.mapping.path,
                frames.len() as int,
            ),
            None => regular_lines(table, pid, address, None, false),
        },
    }
}

/// The lines of one frame of a stack; none for context markers and frames that are left out.
pub open spec fn frame_lines(
    table: TableModel,
    pid: Option<u32>,
    frame: FoldFrame,
    symbols: Option<SymbolsModel>,
    inline: bool,
) -> Seq<char> {
    if is_marker(frame.at()) || (symbols is None && is_unwound(frame) && frame.at() == 0)
        || is_dropped(table.mappings, pid, frame) {
        Seq::empty()
    } else {
        match (frame, symbols) {
            (FoldFrame::InlineCurrentIp(address), Some(known)) => if inline {
                regular_lines(table, pid, address, symbols, inline)
            } else {
                current_ip_lines(table, pid, address, known)
            },
            _ => regular_lines(table, pid, frame.at(), symbols, inline),
        }
    }
}

/// The lines of the first `count` frames of a stack.
pub open spec fn stack_lines(
    table: TableModel,
    pid: Option<u32>,
    frames: Seq<FoldFrame>,
    count: int,
    symbols: Option<SymbolsModel>,
    inline: bool,
) -> Seq<char>
    decreases count,
{
    if count <= 0 {
        Seq::empty()
    } else {
        stack_lines(table, pid, frames, count - 1, symbols, inline) + frame_lines(
            table,
            pid,
            frames[count - 1],
            symbols,
            inline,
        )
    }
}

/// What stands behind the header of a sample without a callchain: its first frame.
pub open spec fn inline_frame(
    table: TableModel,
    pid: Option<u32>,
    frames: Seq<FoldFrame>,
    symbols: Option<SymbolsModel>,
) -> Seq<char> {
    if frames.len() == 0 {
        Seq::empty()
    } else {
        let address = frames[0].at();
        match decision(table, pid, address) {
            DecisionModel::Mapped(mapped) => match symbols {
                None => frame_text(address, "[unknown]"@, mapped.mapping.path),
                Some(symbols) => {
                    let known = symbol_frames(
                        symbols,
                        mapped.source,
                        mapped.mapping.relative_address,
                        false,
                    );
                    if known.len() > 0 {
                        symbolized(address, known[0], mapped.mapping.path)
                    } else {
                        labelled(address, fallback_label(mapped.mapping))
                    }
                },
            },
            DecisionModel::Unknown => frame_text(address, "[unknown]"@, "[unknown]"@),
            _ => frame_text(address, address_label(address), "[unknown]"@),
        }
    }
}

fn push_address_frame(out: &mut String, address: u64)
    ensures
        final(out)@ == old(out)@ + frame_text(address, address_label(address), "[unknown]"@),
{
    let mut label = "0x".to_string();
    push_hexadecimal(&mut label, address, 1);
    push_frame(out, address, label.as_str(), "[unknown]");
}

fn push_function_lines(out: &mut String, address: u64, frames: &Vec<String>, path: &str)
    ensures
        final(out)@ == old(out)@ + function_lines(
            address,
            views(frames@),
            path@,
            frames@.len() as int,
        ),
{
    let ghost start = out@;
    let ghost whole = function_lines(address, views(frames@), path@, frames@.len() as int);
    let ghost mut done: Seq<char> = Seq::empty();
    let mut left: usize = frames.len();
    assert(start + done =~= start);
    assert(done + whole =~= whole);
    while left > 0
        invariant
            left <= frames@.len(),
            out@ == start + done,
            whole == done + function_lines(address, views(frames@), path@, left as int),
        decreases left,
    {
        let ghost before = out@;
        assert(views(frames@)[left - 1] == frames@[left - 1]@);
        out.append("\t");
        push_symbolized(out, address, frames[left - 1].as_str(), path);
        out.append("\n");
        proof {
            let line = frame_line(symbolized(address, frames@[left - 1]@, path@));
            let old_done = done;
            done = done + line;
            assert(out@ =~= before + line);
            assert(out@ =~= start + done);
            let rest = function_lines(address, views(frames@), path@, left - 1);
            assert(old_done + (line + rest) =~= done + rest);
        }
        left -= 1;
    }
    assert(done + Seq::<char>::empty() =~= done);
}

fn push_mapped_lines(
    out: &mut String,
    address: u64,
    mapping: &ResolvedMappingRef<'_>,
    symbols: Option<&SymbolTable>,
    inline: bool,
)
    requires
        symbols_wf(symbols),
    ensures
        final(out)@ == old(out)@ + mapped_lines(
            address,
            (MappedModel { source: mapping.symbol_source_id, mapping: mapping@ }),
            symbols_view(symbols),
            inline,
        ),
{
    let ghost start = out@;
    if let Some(symbols) = symbols {
        if let Some(found) = symbols.get(
            mapping.symbol_source_id,
            mapping.relative_address,
            !inline,
        ) {
            if found.frames.len() > 0 {
                if inline {
                    push_function_lines(out, address, &found.frames, mapping.path);
                    return;
                }
                if found.has_base_symbol {
                    assert(views(found.frames@)[0] == found.frames@[0]@);
                    out.append("\t");
                    push_symbolized(out, address, found.frames[0].as_str(), mapping.path);
                    out.append("\n");
                    assert(out@ =~= start + frame_line(
                        symbolized(address, found.frames@[0]@, mapping.path@),
                    ));
                    return;
                }
            }
        }
    }
    out.append("\t");
    push_frame(out, address, "[unknown]", mapping.path);
    out.append("\n");
    assert(out@ =~= start + frame_line(frame_text(address, "[unknown]"@, mapping.path@)));
}

fn push_regular_lines(
    out: &mut String,
    mmap_table: &MmapTable,
    pid: Option<u32>,
    address: u64,
    symbols: Option<&SymbolTable>,
    inline: bool,
)
    requires
        mmap_table.wf(),
        symbols_wf(symbols),
    ensures
        final(out)@ == old(out)@ + regular_lines(
            mmap_table.model(),
            pid,
            address,
            symbols_view(symbols),
            inline,
        ),
{
    let ghost start = out@;
    match mapping_decision(mmap_table, pid, address) {
        FrameMappingDecision::Mapped(mapping) => push_mapped_lines(
            out,
            address,
            &mapping,
            symbols,
            inline,
        ),
        FrameMappingDecision::Unknown => {
            out.append("\t");
            push_frame(out, address, "[unknown]", "[unknown]");
            out.append("\n");
            assert(out@ =~= start + frame_line(frame_text(address, "[unknown]"@, "[unknown]"@)));
        },
        _ => {
            out.append("\t");
            push_address_frame(out, address);
            out.append("\n");
            assert(out@ =~= start + frame_line(
                frame_text(address, address_label(address), "[unknown]"@),
            ));
        },
    }
}

fn push_frame_lines(
    out: &mut String,
    mmap_table: &MmapTable,
    pid: Option<u32>,
    frame: FoldFrame,
    symbols: Option<&SymbolTable>,
    inline: bool,
)
    requires
        mmap_table.wf(),
        symbols_wf(symbols),
    ensures
        final(out)@ == old(out)@ + frame_lines(
            mmap_table.model(),
            pid,
            frame,
            symbols_view(symbols),
            inline,
        ),
{
    let ghost start = out@;
    assert(start + Seq::<char>::empty() =~= start);
    let address: u64 = frame.address();
    let unwound = match frame {
        FoldFrame::Callchain(_) => false,
        _ => true,
    };
    if is_perf_context_marker(address) {
        return;
    }
    if symbols.is_none() && unwound && address == 0 {
        return;
    }
    if should_drop_perf_data_user_unwind_frame(pid, frame, mmap_table) {
        return;
    }
    if let FoldFrame::InlineCurrentIp(_) = frame {
        if let Some(known) = symbols {
            if !inline {
                if let Some(mapping) = find_mapping(mmap_table, pid, address) {
                    if let Some(found) = known.get(
                        mapping.symbol_source_id,
                        mapping.relative_address,
                        true,
                    ) {
                        if found.has_base_symbol {
                            push_function_lines(out, address, &found.frames, mapping.path);
                            return;
                        }
                    }
                }
                push_regular_lines(out, mmap_table, pid, address, None, false);
                return;
            }
        }
    }
    push_regular_lines(out, mmap_table, pid, address, symbols, inline);
}

/// Appends the lines of a stack's frames, from the leaf on.
pub fn write_script_frames_for_stack(
    mmap_table: &MmapTable,
    pid: Option<u32>,
    callchain: &[FoldFrame],
    symbols: Option<&SymbolTable>,
    inline: bool,
    out: &mut String,
)
    requires
        mmap_table.wf(),
        symbols_wf(symbols),
    ensures
        final(out)@ == old(out)@ + stack_lines(
            mmap_table.model(),
            pid,
            callchain@,
            callchain@.len() as int,
            symbols_view(symbols),
            inline,
        ),
{
    let ghost start = out@;
    let mut i: usize = 0;
    assert(start + Seq::<char>::empty() =~= start);
    while i < callchain.len()
        invariant
            i <= callchain.len(),
            mmap_table.wf(),
            symbols_wf(symbols),
            out@ == start + stack_lines(
                mmap_table.model(),
                pid,
                callchain@,
                i as int,
                symbols_view(symbols),
                inline,
            ),
        decreases callchain.len() - i,
    {
        let ghost before = out@;
        push_frame_lines(out, mmap_table, pid, callchain[i], symbols, inline);
        i += 1;
        assert(out@ =~= start + stack_lines(
            mmap_table.model(),
            pid,
            callchain@,
            i as int,
            symbols_view(symbols),
            inline,
        ));
    }
}

/// Appends what stands behind the header of a sample without a callchain.
pub fn write_inline_sample_frame_for_stack(
    mmap_table: &MmapTable,
    pid: Option<u32>,
    callchain: &[FoldFrame],
    symbols: Option<&SymbolTable>,
    out: &mut String,
)
    requires
        mmap_table.wf(),
        symbols_wf(symbols),
    ensures
        final(out)@ == old(out)@ + inline_frame(
            mmap_table.model(),
            pid,
            callchain@,
            symbols_view(symbols),
        ),
{
    let ghost start = out@;
    assert(start + Seq::<char>::empty() =~= start);
    if callchain.len() == 0 {
        return;
    }
    let address: u64 = callchain[0].address();
    match mapping_decision(mmap_table, pid, address) {
        FrameMappingDecision::Mapped(mapping) => match symbols {
            Some(symbols) => {
                if let Some(found) = symbols.get(
                    mapping.symbol_source_id,
                    mapping.relative_address,
                    false,
                ) {
                    if found.frames.len() > 0 {
                        assert(views(found.frames@)[0] == found.frames@[0]@);
                        push_symbolized(out, address, found.frames[0].as_str(), mapping.path);
                        return;
                    }
                }
                let fallback = symbol_fallback_frame_ref(&mapping);
                push_labelled(out, address, fallback.as_str());
            },
            None => push_frame(out, address, "[unknown]", mapping.path),
        },
        FrameMappingDecision::Unknown => push_frame(out, address, "[unknown]", "[unknown]"),
        _ => push_address_frame(out, address),
    }
}

// ---------------------------------------------------------------------------
// Headers
// ---------------------------------------------------------------------------

impl PreparedModel {
    /// The thread of a sample, or else its process.
    pub open spec fn owner(self) -> Option<u32> {
        match self.tid {
            Some(tid) => Some(tid),
            None => self.pid,
        }
    }

    /// The name that a sample is shown under.
    pub open spec fn shown_name(self) -> Seq<char> {
        match self.comm {
            Some(comm) => comm,
            None => if self.owner() is None {
                ":-1"@
            } else {
                "[unknown]"@
            },
        }
    }

    /// The column of a sample's thread.
    pub open spec fn owner_column(self) -> Seq<char> {
        match self.owner() {
            Some(tid) => padded(decimal(tid as nat), ' ', 7) + " "@,
            None => Seq::empty(),
        }
    }

    /// The column of a sample's processor.
    pub open spec fn cpu_column(self) -> Seq<char> {
        match self.cpu {
            Some(cpu) => "["@ + padded(decimal(cpu as nat), '0', 3) + "] "@,
            None => Seq::empty(),
        }
    }

    /// The column of a sample's time: seconds and microseconds.
    pub open spec fn time_column(self) -> Seq<char> {
        match self.time {
            Some(time) => padded(decimal((time / 1_000_000_000) as nat), ' ', 5) + "."@ + padded(
                decimal(((time % 1_000_000_000) / 1_000) as nat),
                '0',
                6,
            ) + ": "@,
            None => Seq::empty(),
        }
    }

    /// The columns of a sample's count and event.
    pub open spec fn event_column(self, event_name_width: int) -> Seq<char> {
        padded(decimal(self.count as nat), ' ', 10) + " "@ + padded(
            self.event_name,
            ' ',
            event_name_width,
        ) + ": "@
    }

    /// The header of a sample behind its name: thread, processor, time, count and event.
    pub open spec fn header_columns(self, event_name_width: int) -> Seq<char> {
        self.owner_column() + self.cpu_column() + self.time_column() + self.event_column(
            event_name_width,
        )
    }

    /// The header line of a sample with a callchain.
    pub open spec fn header_line(self, event_name_width: int) -> Seq<char> {
        self.shown_name() + " "@ + self.header_columns(event_name_width) + "\n"@
    }

    /// The header of a sample without a callchain, which its frame follows.
    pub open spec fn inline_header(self, event_name_width: int) -> Seq<char> {
        padded(self.shown_name(), ' ', 16) + " "@ + self.header_columns(event_name_width)
    }

    /// The event of a sample.
    pub open spec fn event_text(
        self,
        table: TableModel,
        symbols: Option<SymbolsModel>,
        inline: bool,
        event_name_width: int,
    ) -> Seq<char> {
        (if self.has_callchain {
            self.header_line(event_name_width) + stack_lines(
                table,
                self.pid,
                self.frames,
                self.frames.len() as int,
                symbols,
                inline,
            )
        } else {
            self.inline_header(event_name_width) + inline_frame(
                table,
                self.pid,
                self.frames,
                symbols,
            )
        }) + "\n"@
    }
}

fn perf_script_comm(sample: &PreparedFoldSample) -> (name: String)
    ensures
        name@ == sample@.shown_name(),
{
    match &sample.comm {
        Some(comm) => comm.clone(),
        None => if sample.tid.is_none() && sample.pid.is_none() {
            ":-1".to_string()
        } else {
            "[unknown]".to_string()
        },
    }
}

fn push_owner_column(out: &mut String, sample: &PreparedFoldSample)
    ensures
        final(out)@ == old(out)@ + sample@.owner_column(),
{
    let ghost start = out@;
    let owner: Option<u32> = match sample.tid {
        Some(tid) => Some(tid),
        None => sample.pid,
    };
    if let Some(tid) = owner {
        push_padded_number(out, tid as u64, ' ', 7);
        out.append(" ");
    }
    assert(out@ =~= start + sample@.owner_column());
}

fn push_cpu_column(out: &mut String, sample: &PreparedFoldSample)
    ensures
        final(out)@ == old(out)@ + sample@.cpu_column(),
{
    let ghost start = out@;
    if let Some(cpu) = sample.cpu {
        out.append("[");
        push_padded_number(out, cpu as u64, '0', 3);
        out.append("] ");
    }
    assert(out@ =~= start + sample@.cpu_column());
}

fn push_time_column(out: &mut String, sample: &PreparedFoldSample)
    ensures
        final(out)@ == old(out)@ + sample@.time_column(),
{
    let ghost start = out@;
    if let Some(time) = sample.time {
        push_padded_number(out, time / 1_000_000_000, ' ', 5);
        out.append(".");
        push_padded_number(out, (time % 1_000_000_000) / 1_000, '0', 6);
        out.append(": ");
    }
    assert(out@ =~= start + sample@.time_column());
}

fn push_event_column(out: &mut String, sample: &PreparedFoldSample, event_name_width: usize)
    ensures
        final(out)@ == old(out)@ + sample@.event_column(event_name_width as int),
{
    let ghost start = out@;
    push_padded_number(out, sample.count, ' ', 10);
    out.append(" ");
    push_padded(out, sample.event_name.as_str(), ' ', event_name_width);
    out.append(": ");
    assert(out@ =~= start + sample@.event_column(event_name_width as int));
}

fn push_header_columns(out: &mut String, sample: &PreparedFoldSample, event_name_width: usize)
    ensures
        final(out)@ == old(out)@ + sample@.header_columns(event_name_width as int),
{
    let ghost start = out@;
    push_owner_column(out, sample);
    push_cpu_column(out, sample);
    push_time_column(out, sample);
    push_event_column(out, sample, event_name_width);
    assert(out@ =~= start + sample@.header_columns(event_name_width as int));
}

/// Appends the header line of a sample with a callchain.
pub fn write_sample_header(out: &mut String, sample: &PreparedFoldSample, event_name_width: usize)
    ensures
        final(out)@ == old(out)@ + sample@.header_line(event_name_width as int),
{
    let ghost start = out@;
    out.append(perf_script_comm(sample).as_str());
    out.append(" ");
    push_header_columns(out, sample, event_name_width);
    out.append("\n");
    assert(out@ =~= start + sample@.header_line(event_name_width as int));
}

/// Appends the header of a sample without a callchain.
pub fn write_sample_inline_header(
    out: &mut String,
    sample: &PreparedFoldSample,
    event_name_width: usize,
)
    ensures
        final(out)@ == old(out)@ + sample@.inline_header(event_name_width as int),
{
    let ghost start = out@;
    push_padded(out, perf_script_comm(sample).as_str(), ' ', 16);
    out.append(" ");
    push_header_columns(out, sample, event_name_width);
    assert(out@ =~= start + sample@.inline_header(event_name_width as int));
}

/// Appends the event of a sample.
pub fn write_sample_event(
    out: &mut String,
    sample: &PreparedFoldSample,
    mmap_table: &MmapTable,
    symbols: Option<&SymbolTable>,
    inline: bool,
    event_name_width: usize,
)
    requires
        mmap_table.wf(),
        symbols_wf(symbols),
    ensures
        final(out)@ == old(out)@ + sample@.event_text(
            mmap_table.model(),
            symbols_view(symbols),
            inline,
            event_name_width as int,
        ),
{
    let ghost start = out@;
    if sample.has_callchain {
        write_sample_header(out, sample, event_name_width);
        write_script_frames_for_stack(
            mmap_table,
            sample.pid,
            sample.frames.as_slice(),
            symbols,
            inline,
            out,
        );
    } else {
        write_sample_inline_header(out, sample, event_name_width);
        write_inline_sample_frame_for_stack(
            mmap_table,
            sample.pid,
            sample.frames.as_slice(),
            symbols,
            out,
        );
    }
    out.append("\n");
    assert(out@ =~= start + sample@.event_text(
        mmap_table.model(),
        symbols_view(symbols),
        inline,
        event_name_width as int,
    ));
}

// ---------------------------------------------------------------------------
// A file as text
// ---------------------------------------------------------------------------

/// How events are shown: with which symbols and columns.
#[verifier::ext_equal]
pub struct ShowModel {
    pub symbols: Option<SymbolsModel>,
    pub inline: bool,
    pub event_name_width: int,
}

/// The events of the first `count` samples.
pub open spec fn events_text(
    samples: Seq<PreparedModel>,
    count: int,
    table: TableModel,
    show: ShowModel,
) -> Seq<char>
    decreases count,
{
    if count <= 0 {
        Seq::empty()
    } else {
        events_text(samples, count - 1, table, show) + samples[count - 1].event_text(
            table,
            show.symbols,
            show.inline,
            show.event_name_width,
        )
    }
}

/// The headers of the first `count` samples whose callchains never came.
pub open spec fn headers_text(
    samples: Seq<PreparedModel>,
    count: int,
    event_name_width: int,
) -> Seq<char>
    decreases count,
{
    if count <= 0 {
        Seq::empty()
    } else {
        headers_text(samples, count - 1, event_name_width) + samples[count - 1].header_line(
            event_name_width,
        ) + "\n"@
    }
}

/// What records have told, and the text of the events shown so far.
#[verifier::ext_equal]
pub struct ScriptModel {
    pub fold: FoldModel,
    pub text: Seq<char>,
}

impl ScriptModel {
    /// After a record; its events are shown in the light of the mappings known then.
    pub open spec fn applied(self, record: ParsedModel, setup: SetupModel, show: ShowModel) -> Result<
        ScriptModel,
        Seq<char>,
    > {
        match self.fold.shown(record, setup.layouts, setup.options, setup.objects) {
            Err(error) => Err(error),
            Ok((fold, samples)) => Ok(
                ScriptModel {
                    fold,
                    text: self.text + events_text(
                        samples,
                        samples.len() as int,
                        fold.table,
                        show,
                    ),
                },
            ),
        }
    }

    /// After the records from index `from` on.
    pub open spec fn applied_all(
        self,
        records: Seq<ParsedModel>,
        from: int,
        setup: SetupModel,
        show: ShowModel,
    ) -> Result<ScriptModel, Seq<char>>
        decreases records.len() - from,
    {
        if from >= records.len() {
            Ok(self)
        } else {
            match self.applied(records[from], setup, show) {
                Err(error) => Err(error),
                Ok(after) => after.applied_all(records, from + 1, setup, show),
            }
        }
    }

    /// After the samples were shown whose callchains never came.
    pub open spec fn finished(self, show: ShowModel) -> ScriptModel {
        let samples = in_cookie_order(self.fold.deferred);
        ScriptModel {
            fold: FoldModel { deferred: Map::empty(), ..self.fold },
            text: self.text + headers_text(samples, samples.len() as int, show.event_name_width),
        }
    }

    /// After all records of a file from a point of it on.
    pub open spec fn run(
        self,
        stream: StreamModel,
        bytes: Seq<u8>,
        end: int,
        setup: SetupModel,
        show: ShowModel,
    ) -> Result<ScriptModel, Seq<char>>
        decreases end - stream.offset,
    {
        if stream.offset >= end {
            match self.applied_all(stream.queue.rest(), 0, setup, show) {
                Err(error) => Err(error),
                Ok(after) => Ok(after.finished(show)),
            }
        } else {
            match stream.stepped(bytes, end, setup.layouts) {
                Err(error) => Err(error),
                Ok((next, batch)) => match self.applied_all(batch.records, 0, setup, show) {
                    Err(error) => Err(error),
                    Ok(after) => if next.offset <= stream.offset || next.offset > end {
                        Err(Seq::empty())
                    } else {
                        after.run(next, bytes, end, setup, show)
                    },
                },
            }
        }
    }
}

/// The events of a file as text.
pub open spec fn script_of(
    bytes: Seq<u8>,
    options: FoldOptions,
    objects: ObjectsModel,
    symbols: Option<SymbolsModel>,
) -> Result<Seq<char>, Seq<char>> {
    match opening_of(bytes) {
        Err(error) => Err(error),
        Ok(prelude) => match section_of(prelude.header, bytes.len() as int) {
            Err(error) => Err(error),
            Ok((start, end)) => {
                let script = ScriptModel {
                    fold: FoldModel::nothing(prelude.build_ids, prelude.arch),
                    text: Seq::empty(),
                };
                let setup = SetupModel { layouts: prelude.layouts, options, objects };
                let show = ShowModel {
                    symbols,
                    inline: options.inline,
                    event_name_width: prelude.layouts.event_name_width,
                };
                match script.run(StreamModel::start(start), bytes, end, setup, show) {
                    Err(error) => Err(error),
                    Ok(done) => Ok(done.text),
                }
            },
        },
    }
}

/// Shows the events of records as text.
pub struct PerfScriptSink {
    accumulator: FoldAccumulator,
    text: String,
    event_name_width: usize,
}

impl View for PerfScriptSink {
    type V = ScriptModel;

    closed spec fn view(&self) -> ScriptModel {
        ScriptModel { fold: self.accumulator@, text: self.text@ }
    }
}

impl PerfScriptSink {
    /// The width of the column of event names.
    pub closed spec fn event_name_width(&self) -> int {
        self.event_name_width as int
    }

    /// Whether what records have told is in order.
    pub closed spec fn wf(&self) -> bool {
        self.accumulator.wf()
    }

    /// A sink that nothing was shown in.
    #[must_use]
    pub fn new(accumulator: FoldAccumulator, event_name_width: usize) -> (sink: PerfScriptSink)
        requires
            accumulator.wf(),
        ensures
            sink.wf(),
            sink.event_name_width() == event_name_width,
            sink@ == (ScriptModel { fold: accumulator@, text: Seq::empty() }),
    {
        PerfScriptSink { accumulator, text: String::new(), event_name_width }
    }

    /// What records have told.
    #[must_use]
    pub fn gathered(&self) -> (accumulator: &FoldAccumulator)
        requires
            self.wf(),
        ensures
            accumulator.wf(),
            accumulator@ == self@.fold,
    {
        &self.accumulator
    }

    /// Takes a record in, and gives the samples to show.
    ///
    /// # Errors
    ///
    /// Returns an error when the record is a sample that cannot be read.
    pub fn take_record(
        &mut self,
        record: ParsedRecord,
        sample_layouts: &SampleLayouts,
        options: FoldOptions,
        objects: &ObjectStore,
    ) -> (result: Result<Vec<PreparedFoldSample>, String>)
        requires
            old(self).wf(),
            sample_layouts@.wf(),
            objects.images.wf(),
        ensures
            final(self).wf(),
            final(self).event_name_width() == old(self).event_name_width(),
            match (
                result,
                old(self)@.fold.shown(record@, sample_layouts@, options, objects@),
            ) {
                (Ok(samples), Ok((after, shown))) => final(self)@ == (ScriptModel {
                    fold: after,
                    ..old(self)@
                }) && views(samples@) == shown,
                (Err(error), Err(told)) => error@ == told,
                _ => false,
            },
    {
        self.accumulator.show_record(record, sample_layouts, options, objects)
    }

    /// Shows samples.
    pub fn show(
        &mut self,
        samples: &Vec<PreparedFoldSample>,
        symbols: Option<&SymbolTable>,
        inline: bool,
    )
        requires
            old(self).wf(),
            symbols_wf(symbols),
        ensures
            final(self).wf(),
            final(self).event_name_width() == old(self).event_name_width(),
            final(self)@ == (ScriptModel {
                text: old(self)@.text + events_text(
                    views(samples@),
                    samples@.len() as int,
                    old(self)@.fold.table,
                    ShowModel {
                        symbols: symbols_view(symbols),
                        inline,
                        event_name_width: old(self).event_name_width(),
                    },
                ),
                ..old(self)@
            }),
    {
        let ghost start = *self;
        let ghost show = ShowModel {
            symbols: symbols_view(symbols),
            inline,
            event_name_width: start.event_name_width(),
        };
        let ghost all = views(samples@);
        let mut index: usize = 0;
        assert(start@.text + Seq::<char>::empty() =~= start@.text);
        while index < samples.len()
            invariant
                index <= samples@.len(),
                all == views(samples@),
                self.wf(),
                symbols_wf(symbols),
                self.accumulator == start.accumulator,
                self.event_name_width == start.event_name_width,
                show == (ShowModel {
                    symbols: symbols_view(symbols),
                    inline,
                    event_name_width: start.event_name_width as int,
                }),
                self.text@ == start.text@ + events_text(
                    all,
                    index as int,
                    start.accumulator@.table,
                    show,
                ),
            decreases samples@.len() - index,
        {
            assert(all[index as int] == samples@[index as int]@);
            write_sample_event(
                &mut self.text,
                &samples[index],
                self.accumulator.mmap_table(),
                symbols,
                inline,
                self.event_name_width,
            );
            index += 1;
            assert(self.text@ =~= start.text@ + events_text(
                all,
                index as int,
                start.accumulator@.table,
                show,
            ));
        }
    }

    /// Takes records in and shows their events.
    fn apply_all(
        &mut self,
        records: Vec<ParsedRecord>,
        sample_layouts: &SampleLayouts,
        options: FoldOptions,
        objects: &ObjectStore,
        symbols: Option<&SymbolTable>,
    ) -> (result: Result<(), String>)
        requires
            old(self).wf(),
            sample_layouts@.wf(),
            objects.images.wf(),
            symbols_wf(symbols),
        ensures
            final(self).wf(),
            final(self).event_name_width() == old(self).event_name_width(),
            match (
                result,
                old(self)@.applied_all(
                    views(records@),
                    0,
                    (SetupModel { layouts: sample_layouts@, options, objects: objects@ }),
                    (ShowModel {
                        symbols: symbols_view(symbols),
                        inline: options.inline,
                        event_name_width: old(self).event_name_width(),
                    }),
                ),
            ) {
                (Ok(_), Ok(after)) => final(self)@ == after,
                (Err(error), Err(told)) => error@ == told,
                _ => false,
            },
    {
        let ghost held = records@;
        let ghost all = views(records@);
        let ghost width = self.event_name_width();
        let ghost setup = SetupModel { layouts: sample_layouts@, options, objects: objects@ };
        let ghost show = ShowModel {
            symbols: symbols_view(symbols),
            inline: options.inline,
            event_name_width: width,
        };
        let ghost whole = self@.applied_all(all, 0, setup, show);
        for record in it: records
            invariant
                it.seq() == held,
                all == views(held),
                self.wf(),
                self.event_name_width() == width,
                sample_layouts@.wf(),
                objects.images.wf(),
                symbols_wf(symbols),
                width == old(self).event_name_width(),
                setup == (SetupModel { layouts: sample_layouts@, options, objects: objects@ }),
                show == (ShowModel {
                    symbols: symbols_view(symbols),
                    inline: options.inline,
                    event_name_width: width,
                }),
                whole == old(self)@.applied_all(all, 0, setup, show),
                whole == self@.applied_all(all, it.index() as int, setup, show),
        {
            assert(all[it.index() as int] == record@);
            let samples = self.take_record(record, sample_layouts, options, objects)?;
            self.show(&samples, symbols, options.inline);
        }
        Ok(())
    }

    /// Shows the headers of samples whose callchains never came.
    pub fn flush_deferred_samples(&mut self)
        requires
            old(self).wf(),
        ensures
            final(self).wf(),
            final(self).event_name_width() == old(self).event_name_width(),
            final(self)@.fold == (FoldModel { deferred: Map::empty(), ..old(self)@.fold }),
            final(self)@.text == old(self)@.text + headers_text(
                in_cookie_order(old(self)@.fold.deferred),
                in_cookie_order(old(self)@.fold.deferred).len() as int,
                old(self).event_name_width(),
            ),
    {
        let ghost start = self.text@;
        let samples = self.accumulator.take_deferred_samples();
        let ghost all = views(samples@);
        let mut index: usize = 0;
        assert(start + Seq::<char>::empty() =~= start);
        while index < samples.len()
            invariant
                index <= samples@.len(),
                all == views(samples@),
                self.wf(),
                self.accumulator@ == (FoldModel { deferred: Map::empty(), ..old(self)@.fold }),
                self.event_name_width == old(self).event_name_width,
                self.text@ == start + headers_text(all, index as int, self.event_name_width as int),
            decreases samples@.len() - index,
        {
            assert(all[index as int] == samples@[index as int]@);
            write_sample_header(&mut self.text, &samples[index], self.event_name_width);
            self.text.append("\n");
            index += 1;
            assert(self.text@ =~= start + headers_text(
                all,
                index as int,
                self.event_name_width as int,
            ));
        }
    }

    /// The text shown so far.
    #[must_use]
    pub fn into_text(self) -> (text: String)
        ensures
            text@ == self@.text,
    {
        self.text
    }
}

/// Shows the events of a file as text, with the symbols of a table where there is one.
///
/// # Errors
///
/// Returns an error when the file cannot be parsed.
pub fn write_inferno_perf_script(
    bytes: &[u8],
    options: FoldOptions,
    objects: &ObjectStore,
    symbols: Option<&SymbolTable>,
) -> (result: Result<String, String>)
    requires
        objects.images.wf(),
        symbols_wf(symbols),
    ensures
        crate::text::outcome(result) == script_of(bytes@, options, objects@, symbols_view(symbols)),
{
    let prelude = open_file(bytes)?;
    let FilePrelude { header, layouts, accumulator } = prelude;
    let (start, end) = data_section(&header, bytes)?;
    let mut stream = RecordStream::new(start, end);
    let mut sink = PerfScriptSink::new(accumulator, layouts.event_name_width);
    let ghost setup = SetupModel { layouts: layouts@, options, objects: objects@ };
    let ghost show = ShowModel {
        symbols: symbols_view(symbols),
        inline: options.inline,
        event_name_width: layouts@.event_name_width,
    };
    let ghost whole = sink@.run(stream@, bytes@, end as int, setup, show);
    while !stream.is_done()
        invariant
            stream.wf(),
            stream.end() == end,
            end <= bytes.len(),
            sink.wf(),
            sink.event_name_width() == show.event_name_width,
            layouts@.wf(),
            objects.images.wf(),
            symbols_wf(symbols),
            setup == (SetupModel { layouts: layouts@, options, objects: objects@ }),
            show == (ShowModel {
                symbols: symbols_view(symbols),
                inline: options.inline,
                event_name_width: layouts@.event_name_width,
            }),
            script_of(bytes@, options, objects@, symbols_view(symbols)) == match whole {
                Err(error) => Err(error),
                Ok(done) => Ok(done.text),
            },
            whole == sink@.run(stream@, bytes@, end as int, setup, show),
        decreases end - stream@.offset,
    {
        let batch = stream.step(bytes, &layouts)?;
        proof {
            stream.stays_inside();
        }
        sink.apply_all(batch.records, &layouts, options, objects, symbols)?;
    }
    let records = stream.finish();
    sink.apply_all(records, &layouts, options, objects, symbols)?;
    sink.flush_deferred_samples();
    Ok(sink.into_text())
}

// ---------------------------------------------------------------------------
// Laws
// ---------------------------------------------------------------------------

/// A padded text ends in the text, is as wide as asked for unless the text is wider, and holds
/// nothing but the fill in front of the text.
pub proof fn padding_stands_in_front(text: Seq<char>, fill: char, width: int)
    ensures
        padded(text, fill, width).len() == if text.len() < width {
            width
        } else {
            text.len() as int
        },
        padded(text, fill, width).skip(padded(text, fill, width).len() - text.len()) == text,
        forall|i: int|
            0 <= i < padded(text, fill, width).len() - text.len() ==> #[trigger] padded(
                text,
                fill,
                width,
            )[i] == fill,
{
    assert(padded(text, fill, width).skip(padded(text, fill, width).len() - text.len()) =~= text);
}

/// The time of a sample is shown in seconds and microseconds; nanoseconds are cut off.
pub proof fn times_are_shown_in_microseconds(
    sample: PreparedModel,
    seconds: u64,
    micros: u64,
    nanos: u64,
)
    requires
        micros < 1_000_000,
        nanos < 1_000,
        sample.time is Some,
        sample.time->0 == seconds * 1_000_000_000 + micros * 1_000 + nanos,
    ensures
        sample.time_column() == padded(decimal(seconds as nat), ' ', 5) + "."@ + padded(
            decimal(micros as nat),
            '0',
            6,
        ) + ": "@,
{
    let time = sample.time->0;
    assert(time / 1_000_000_000 == seconds && (time % 1_000_000_000) / 1_000 == micros)
        by (nonlinear_arith)
        requires
            micros < 1_000_000,
            nanos < 1_000,
            time == seconds * 1_000_000_000 + micros * 1_000 + nanos,
    ;
}

/// The lines of a stack are those of its frames one behind the other, the innermost first.
pub proof fn stacks_are_shown_frame_by_frame(
    table: TableModel,
    pid: Option<u32>,
    inner: Seq<FoldFrame>,
    outer: Seq<FoldFrame>,
    symbols: Option<SymbolsModel>,
    inline: bool,
)
    ensures
        stack_lines(
            table,
            pid,
            inner + outer,
            (inner.len() + outer.len()) as int,
            symbols,
            inline,
        ) == stack_lines(table, pid, inner, inner.len() as int, symbols, inline) + stack_lines(
            table,
            pid,
            outer,
            outer.len() as int,
            symbols,
            inline,
        ),
    decreases outer.len(),
{
    let all = inner + outer;
    if outer.len() > 0 {
        let less = outer.drop_last();
        stacks_are_shown_frame_by_frame(table, pid, inner, less, symbols, inline);
        let count = inner.len() + less.len();
        lines_agree(table, pid, inner + less, all, count as int, symbols, inline);
        lines_agree(table, pid, less, outer, less.len() as int, symbols, inline);
        assert(all[count as int] == outer.last());
        let front = stack_lines(table, pid, inner, inner.len() as int, symbols, inline);
        let middle = stack_lines(table, pid, less, less.len() as int, symbols, inline);
        let last = frame_lines(table, pid, outer.last(), symbols, inline);
        assert((front + middle) + last =~= front + (middle + last));
    } else {
        assert(all =~= inner);
        let front = stack_lines(table, pid, inner, inner.len() as int, symbols, inline);
        assert(front + Seq::<char>::empty() =~= front);
    }
}

proof fn lines_agree(
    table: TableModel,
    pid: Option<u32>,
    frames: Seq<FoldFrame>,
    longer: Seq<FoldFrame>,
    count: int,
    symbols: Option<SymbolsModel>,
    inline: bool,
)
    requires
        count <= frames.len(),
        count <= longer.len(),
        forall|i: int| 0 <= i < count ==> #[trigger] frames[i] == longer[i],
    ensures
        stack_lines(table, pid, frames, count, symbols, inline) == stack_lines(
            table,
            pid,
            longer,
            count,
            symbols,
            inline,
        ),
    decreases count,
{
    if count > 0 {
        lines_agree(table, pid, frames, longer, count - 1, symbols, inline);
        assert(frames[count - 1] == longer[count - 1]);
    }
}

/// Marks between contexts are not shown.
pub proof fn markers_are_not_shown(
    table: TableModel,
    pid: Option<u32>,
    address: u64,
    symbols: Option<SymbolsModel>,
    inline: bool,
)
    requires
        address >= 0xffff_ffff_ffff_f000,
    ensures
        frame_lines(table, pid, FoldFrame::Callchain(address), symbols, inline).len() == 0,
{
}

/// The functions at an address are shown each on a line of its own, the last of them first.
pub proof fn functions_are_shown_outermost_first(
    address: u64,
    frames: Seq<Seq<char>>,
    function: Seq<char>,
    path: Seq<char>,
)
    ensures
        function_lines(address, Seq::empty(), path, 0) == Seq::<char>::empty(),
        function_lines(address, seq![function] + frames, path, (frames.len() + 1) as int)
            == function_lines(address, frames, path, frames.len() as int) + (seq!['\t'] + symbolized(
            address,
            function,
            path,
        ) + seq!['\n']),
    decreases frames.len(),
{
    reveal_strlit("\t");
    reveal_strlit("\n");
    assert("\t"@ =~= seq!['\t']);
    assert("\n"@ =~= seq!['\n']);
    let line = seq!['\t'] + symbolized(address, function, path) + seq!['\n'];
    let all = seq![function] + frames;
    functions_behind(address, frames, function, path, frames.len() as int);
    assert(function_lines(address, all, path, 0) == Seq::<char>::empty());
}

proof fn functions_behind(
    address: u64,
    frames: Seq<Seq<char>>,
    function: Seq<char>,
    path: Seq<char>,
    count: int,
)
    requires
        0 <= count <= frames.len(),
    ensures
        function_lines(address, seq![function] + frames, path, count + 1) == function_lines(
            address,
            frames,
            path,
            count,
        ) + frame_line(symbolized(address, function, path)),
    decreases count,
{
    let all = seq![function] + frames;
    let last = frame_line(symbolized(address, function, path));
    if count > 0 {
        functions_behind(address, frames, function, path, count - 1);
        assert(all[count] == frames[count - 1]);
        let first = frame_line(symbolized(address, frames[count - 1], path));
        let middle = function_lines(address, frames, path, count - 1);
        assert(first + (middle + last) =~= (first + middle) + last);
    } else {
        assert(all[0] == function);
        assert(function_lines(address, all, path, 0) == Seq::<char>::empty());
        assert(last + Seq::<char>::empty() =~= last);
        assert(Seq::<char>::empty() + last =~= last);
    }
}

/// Events are shown one behind the other, in the order of the samples.
pub proof fn events_are_shown_in_order(
    samples: Seq<PreparedModel>,
    sample: PreparedModel,
    table: TableModel,
    show: ShowModel,
)
    ensures
        events_text(Seq::empty(), 0, table, show) == Seq::<char>::empty(),
        events_text(samples.push(sample), (samples.len() + 1) as int, table, show) == events_text(
            samples,
            samples.len() as int,
            table,
            show,
        ) + sample.event_text(table, show.symbols, show.inline, show.event_name_width),
{
    events_agree(samples, samples.push(sample), samples.len() as int, table, show);
}

proof fn events_agree(
    samples: Seq<PreparedModel>,
    longer: Seq<PreparedModel>,
    count: int,
    table: TableModel,
    show: ShowModel,
)
    requires
        count <= samples.len(),
        count <= longer.len(),
        forall|i: int| 0 <= i < count ==> #[trigger] samples[i] == longer[i],
    ensures
        events_text(samples, count, table, show) == events_text(longer, count, table, show),
    decreases count,
{
    if count > 0 {
        events_agree(samples, longer, count - 1, table, show);
        assert(samples[count - 1] == longer[count - 1]);
    }
}

/// A name in square brackets stands for a file, unless it says that nothing is known; a symbol is
/// shown with the path of its file.
pub proof fn labels_are_shown_with_their_places(
    address: u64,
    name: Seq<char>,
    path: Seq<char>,
)
    requires
        name.len() > 0,
        name != "unknown"@,
        name[0] != '[',
        !begins_with(name, "0x"@),
    ensures
        bracketed_module(seq!['['] + name + seq![']']) == Some(name),
        labelled(address, seq!['['] + name + seq![']']) == frame_text(
            address,
            "[unknown]"@,
            name,
        ),
        symbolized(address, name, path) == frame_text(address, name, path),
{
    reveal_strlit("[");
    reveal_strlit("]");
    reveal_strlit("0x");
    reveal_strlit("unknown");
    reveal_strlit("[unknown]");
    let label = seq!['['] + name + seq![']'];
    assert("["@ =~= seq!['[']);
    assert("]"@ =~= seq![']']);
    assert(label =~= "["@ + (name + seq![']']));
    beginning_is_being_in_front(label, "["@);
    assert(label =~= (seq!['['] + name) + "]"@);
    ending_is_being_behind(label, "]"@);
    assert(label.subrange(1, label.len() - 1) =~= name);
    if label == "[unknown]"@ {
        assert(name =~= "unknown"@);
    }
    if begins_with(label, "0x"@) {
        assert(label.subrange(0, 2)[0] == label[0]);
    }
    if begins_with(name, "["@) {
        assert(name.subrange(0, 1)[0] == name[0]);
    }
}

} // verus!
