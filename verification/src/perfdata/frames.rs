//! Call-frame tables that an unwinder can follow: what their rows say, read through the `gimli`
//! crate, and which of them keep the unwinder's arithmetic in range and its walks finite.

use std::iter::from_fn;

use gimli::CfaRule::RegisterAndOffset;
use gimli::RegisterRule::{Expression, Offset, Undefined, ValExpression};
use gimli::{
    BaseAddresses, CfaRule, DebugFrame, DebugFrameOffset, EhFrame, EhFrameHdr, EhFrameOffset,
    Encoding, EndianSlice, Format, LittleEndian, Operation, Pointer, Register, UnwindContext,
    UnwindSection,
};
use vstd::prelude::*;
use vstd::slice::slice_subrange;

use crate::perfdata::objects::{
    debug_frame_items, debug_frame_items_of, eh_frame_items, eh_frame_items_of, AddressRange,
    CfiBases, CfiItem, ModuleSections, SectionsModel,
};
use crate::perfdata::unwind::PerfArch;

verus! {

// ---------------------------------------------------------------------------
// What the tables state
// ---------------------------------------------------------------------------

/// Where an unwinder takes call-frame pointers to be relative to.
#[derive(Clone, Copy, Debug, Eq, PartialEq, Structural)]
pub struct FrameBases {
    pub eh_frame_hdr: u64,
    pub eh_frame: u64,
    pub text: u64,
    pub got: u64,
}

impl FrameBases {
    /// The same places for a walk over all entries.
    pub open spec fn stated(self) -> CfiBases {
        CfiBases {
            eh_frame_hdr: Some(self.eh_frame_hdr),
            eh_frame: Some(self.eh_frame),
            text: Some(self.text),
            got: Some(self.got),
        }
    }
}

/// How a row finds the frame's address: a register with an offset, or an expression at a place of
/// the section.
#[derive(Clone, Copy, Debug, Eq, PartialEq, Structural)]
pub enum CfaInfo {
    Register(u16, i64),
    Expression(usize, usize),
}

/// How a row restores a register: not at all, from an offset of the frame's address, by an
/// expression at a place of the section, or in another way.
#[derive(Clone, Copy, Debug, Eq, PartialEq, Structural)]
pub enum RuleInfo {
    Undefined,
    Offset(i64),
    Expression(usize, usize),
    Other,
}

/// An operation of an expression.
#[derive(Clone, Copy, Debug, Eq, PartialEq, Structural)]
pub enum CfiOp {
    Register(u16, i64),
    Constant(u64),
    And,
    Ge,
    Shl,
    Plus,
    Deref,
    Bra,
    Skip,
    ImplicitPointer,
    Other,
}

/// A pointer of a search table: an address, or where an address is kept.
#[derive(Clone, Copy, Debug, Eq, PartialEq, Structural)]
pub enum CfiPointer {
    Direct(u64),
    Indirect(u64),
}

/// A search table: where its pointers are relative to, how many rows it claims, and the frame
/// descriptions that its rows point at.
#[derive(Clone, Debug, Eq, PartialEq)]
pub struct SearchTable {
    pub frame: CfiPointer,
    pub count: Option<usize>,
    pub rows: Vec<CfiPointer>,
}

/// The contents of a [`SearchTable`].
#[verifier::ext_equal]
pub struct SearchModel {
    pub frame: CfiPointer,
    pub count: Option<usize>,
    pub rows: Seq<CfiPointer>,
}

impl View for SearchTable {
    type V = SearchModel;

    open spec fn view(&self) -> SearchModel {
        SearchModel { frame: self.frame, count: self.count, rows: self.rows@ }
    }
}

/// The frame addresses of the rows of a frame description in `.eh_frame`.
pub uninterp spec fn eh_frame_cfas_of(data: Seq<u8>, bases: FrameBases, offset: usize) -> Option<
    Seq<CfaInfo>,
>;

/// Calls `gimli::UnwindSection::fde_from_offset` on an `EhFrame` of eight-byte addresses and
/// walks `FrameDescriptionEntry::rows` up to their end or their first error; gives
/// `UnwindTableRow::cfa` of each row, or nothing where the description cannot be read. What the
/// bytes mean is not spelled out, only that the rows are a function of them.
#[verifier::external_body]
fn eh_frame_cfas(data: &[u8], bases: FrameBases, offset: usize) -> (cfas: Option<Vec<CfaInfo>>)
    ensures
        (match cfas {
            Some(cfas) => eh_frame_cfas_of(data@, bases, offset) == Some(cfas@),
            None => eh_frame_cfas_of(data@, bases, offset) is None,
        }),
{
    let b = BaseAddresses::default().set_eh_frame(bases.eh_frame).set_text(bases.text).set_got(bases.got);
    let mut section = EhFrame::new(data, LittleEndian);
    section.set_address_size(8);
    let fde = section.fde_from_offset(&b, EhFrameOffset(offset), EhFrame::cie_from_offset).ok()?;
    let mut context = UnwindContext::new();
    let mut table = fde.rows(&section, &b, &mut context).ok()?;
    Some(from_fn(|| Some(match table.next_row().ok()??.cfa() {
        RegisterAndOffset { register, offset } => CfaInfo::Register(register.0, *offset),
        CfaRule::Expression(at) => CfaInfo::Expression(at.offset, at.length),
    })).collect())
}

/// How the rows of a frame description in `.eh_frame` restore a register.
pub uninterp spec fn eh_frame_rules_of(
    data: Seq<u8>,
    bases: FrameBases,
    offset: usize,
    number: u16,
) -> Option<Seq<Option<RuleInfo>>>;

/// Reads the rows as [`eh_frame_cfas`] does and gives `UnwindTableRow::register` of each.
#[verifier::external_body]
fn eh_frame_rules(data: &[u8], bases: FrameBases, offset: usize, number: u16) -> (rules: Option<
    Vec<Option<RuleInfo>>,
>)
    ensures
        (match rules {
            Some(rules) => eh_frame_rules_of(data@, bases, offset, number) == Some(rules@),
            None => eh_frame_rules_of(data@, bases, offset, number) is None,
        }),
{
    let b = BaseAddresses::default().set_eh_frame(bases.eh_frame).set_text(bases.text).set_got(bases.got);
    let mut section = EhFrame::new(data, LittleEndian);
    section.set_address_size(8);
    let fde = section.fde_from_offset(&b, EhFrameOffset(offset), EhFrame::cie_from_offset).ok()?;
    let mut context = UnwindContext::new();
    let mut table = fde.rows(&section, &b, &mut context).ok()?;
    Some(from_fn(|| Some(table.next_row().ok()??.register(Register(number)).map(|rule| match rule {
        Undefined => RuleInfo::Undefined,
        Offset(offset) => RuleInfo::Offset(offset),
        Expression(at) | ValExpression(at) => RuleInfo::Expression(at.offset, at.length),
        _ => RuleInfo::Other,
    }))).collect())
}

/// The frame addresses of the rows of a frame description in `.debug_frame`.
pub uninterp spec fn debug_frame_cfas_of(data: Seq<u8>, bases: FrameBases, offset: usize) -> Option<
    Seq<CfaInfo>,
>;

/// Does for a `DebugFrame` what [`eh_frame_cfas`] does for an `EhFrame`.
#[verifier::external_body]
fn debug_frame_cfas(data: &[u8], bases: FrameBases, offset: usize) -> (cfas: Option<Vec<CfaInfo>>)
    ensures
        (match cfas {
            Some(cfas) => debug_frame_cfas_of(data@, bases, offset) == Some(cfas@),
            None => debug_frame_cfas_of(data@, bases, offset) is None,
        }),
{
    let b = BaseAddresses::default().set_eh_frame(bases.eh_frame).set_text(bases.text).set_got(bases.got);
    let mut section = DebugFrame::new(data, LittleEndian);
    section.set_address_size(8);
    let fde = section.fde_from_offset(&b, DebugFrameOffset(offset), DebugFrame::cie_from_offset).ok()?;
    let mut context = UnwindContext::new();
    let mut table = fde.rows(&section, &b, &mut context).ok()?;
    Some(from_fn(|| Some(match table.next_row().ok()??.cfa() {
        RegisterAndOffset { register, offset } => CfaInfo::Register(register.0, *offset),
        CfaRule::Expression(at) => CfaInfo::Expression(at.offset, at.length),
    })).collect())
}

/// How the rows of a frame description in `.debug_frame` restore a register.
pub uninterp spec fn debug_frame_rules_of(
    data: Seq<u8>,
    bases: FrameBases,
    offset: usize,
    number: u16,
) -> Option<Seq<Option<RuleInfo>>>;

/// Does for a `DebugFrame` what [`eh_frame_rules`] does for an `EhFrame`.
#[verifier::external_body]
fn debug_frame_rules(data: &[u8], bases: FrameBases, offset: usize, number: u16) -> (rules: Option<
    Vec<Option<RuleInfo>>,
>)
    ensures
        (match rules {
            Some(rules) => debug_frame_rules_of(data@, bases, offset, number) == Some(rules@),
            None => debug_frame_rules_of(data@, bases, offset, number) is None,
        }),
{
    let b = BaseAddresses::default().set_eh_frame(bases.eh_frame).set_text(bases.text).set_got(bases.got);
    let mut section = DebugFrame::new(data, LittleEndian);
    section.set_address_size(8);
    let fde = section.fde_from_offset(&b, DebugFrameOffset(offset), DebugFrame::cie_from_offset).ok()?;
    let mut context = UnwindContext::new();
    let mut table = fde.rows(&section, &b, &mut context).ok()?;
    Some(from_fn(|| Some(table.next_row().ok()??.register(Register(number)).map(|rule| match rule {
        Undefined => RuleInfo::Undefined,
        Offset(offset) => RuleInfo::Offset(offset),
        Expression(at) | ValExpression(at) => RuleInfo::Expression(at.offset, at.length),
        _ => RuleInfo::Other,
    }))).collect())
}

/// The search table of `.eh_frame_hdr`.
pub uninterp spec fn search_table_of(data: Seq<u8>, bases: FrameBases) -> Option<SearchModel>;

/// Calls `gimli::EhFrameHdr::parse` for eight-byte addresses and walks the rows of
/// `ParsedEhFrameHdr::table` up to their end or their first error; gives nothing where the section
/// cannot be read or has no rows. What the bytes mean is not spelled out, only that the table is
/// a function of them.
#[verifier::external_body]
fn search_table(data: &[u8], bases: FrameBases) -> (table: Option<SearchTable>)
    ensures
        (match table {
            Some(table) => search_table_of(data@, bases) == Some(table@),
            None => search_table_of(data@, bases) is None,
        }),
{
    let b = BaseAddresses::default().set_eh_frame_hdr(bases.eh_frame_hdr).set_text(bases.text);
    let parsed = EhFrameHdr::new(data, LittleEndian).parse(&b, 8).ok()?;
    let convert = |pointer| match pointer {
        Pointer::Direct(address) => CfiPointer::Direct(address),
        Pointer::Indirect(address) => CfiPointer::Indirect(address),
    };
    let table = parsed.table()?;
    let mut rows = table.iter(&b);
    let count = Iterator::size_hint(&rows).1;
    let rows = from_fn(|| Some(convert(rows.next().ok()??.1))).collect();
    Some(SearchTable { frame: convert(parsed.eh_frame_ptr()), count, rows })
}

/// The operations of an expression.
pub uninterp spec fn expression_ops_of(code: Seq<u8>) -> Seq<CfiOp>;

/// Walks `gimli::Expression::operations` up to their end or their first error. How operations are
/// written is not spelled out, only that they are a function of the bytes.
#[verifier::external_body]
fn expression_ops(code: &[u8]) -> (ops: Vec<CfiOp>)
    ensures
        ops@ == expression_ops_of(code@),
{
    let encoding = Encoding { address_size: 8, format: Format::Dwarf32, version: 4 };
    let mut ops = gimli::Expression(EndianSlice::new(code, LittleEndian)).operations(encoding);
    from_fn(|| ops.next().ok().flatten()).map(|op| match op {
        Operation::RegisterOffset { register, offset, .. } => CfiOp::Register(register.0, offset),
        Operation::UnsignedConstant { value } => CfiOp::Constant(value),
        Operation::And => CfiOp::And,
        Operation::Ge => CfiOp::Ge,
        Operation::Shl => CfiOp::Shl,
        Operation::Plus => CfiOp::Plus,
        Operation::Deref { .. } => CfiOp::Deref,
        Operation::Bra { .. } => CfiOp::Bra,
        Operation::Skip { .. } => CfiOp::Skip,
        Operation::ImplicitPointer { .. } => CfiOp::ImplicitPointer,
        _ => CfiOp::Other,
    }).collect()
}

// ---------------------------------------------------------------------------
// Expressions
// ---------------------------------------------------------------------------

/// The operations of the expression at a place of a section, if the section holds the place.
pub open spec fn ops_at(data: Seq<u8>, offset: usize, length: usize) -> Option<Seq<CfiOp>> {
    if offset + length <= data.len() {
        Some(expression_ops_of(data.subrange(offset as int, offset + length)))
    } else {
        None
    }
}

fn read_ops(data: &[u8], offset: usize, length: usize) -> (ops: Option<Vec<CfiOp>>)
    ensures
        (match ops {
            Some(ops) => ops_at(data@, offset, length) == Some(ops@),
            None => ops_at(data@, offset, length) is None,
        }),
{
    if length <= data.len() && offset <= data.len() - length {
        Some(expression_ops(slice_subrange(data, offset, offset + length)))
    } else {
        None
    }
}

/// Whether an operation may be followed by another one than the next: a branch, or one whose length
/// depends on the section.
pub open spec fn leads_away(op: CfiOp) -> bool {
    op == CfiOp::Bra || op == CfiOp::Skip || op == CfiOp::ImplicitPointer
}

/// Whether the operations from `at` on run one after the other up to their end, or up to the first
/// that reads memory, where an evaluation without memory ends.
pub open spec fn runs_straight(ops: Seq<CfiOp>, at: int) -> bool
    decreases ops.len() - at,
{
    if at >= ops.len() {
        true
    } else {
        ops[at] == CfiOp::Deref || (!leads_away(ops[at]) && runs_straight(ops, at + 1))
    }
}

/// Whether a register is one that an `x86_64` unwinder knows: `rbp`, `rsp` or `rip`.
pub open spec fn is_x86_register(number: u16) -> bool {
    number == 6 || number == 7 || number == 16
}

/// Whether a register is one that an `aarch64` unwinder knows: `x29`, `x30` or `sp`.
pub open spec fn is_aarch64_register(number: u16) -> bool {
    number == 29 || number == 30 || number == 31
}

/// Whether the operations from `at` on run one after the other up to one that reads memory or a
/// register that an `x86_64` unwinder does not know, where the evaluation ends without a value.
pub open spec fn ends_without_value(ops: Seq<CfiOp>, at: int) -> bool
    decreases ops.len() - at,
{
    if at >= ops.len() {
        false
    } else {
        match ops[at] {
            CfiOp::Deref => true,
            CfiOp::Register(number, _) => !is_x86_register(number) || ends_without_value(
                ops,
                at + 1,
            ),
            _ => !leads_away(ops[at]) && ends_without_value(ops, at + 1),
        }
    }
}

/// Whether operations are those of a linkage table: eight behind the stack pointer, and eight more
/// behind the instruction of an entry that pushes its index.
pub open spec fn is_linkage_entry(ops: Seq<CfiOp>) -> bool {
    &&& ops.len() == 9
    &&& ops[0] == CfiOp::Register(7, 8)
    &&& ops[1] == CfiOp::Register(16, 0)
    &&& ops[2] == CfiOp::Constant(15)
    &&& ops[3] == CfiOp::And
    &&& ops[4] is Constant
    &&& ops[5] == CfiOp::Ge
    &&& ops[6] == CfiOp::Constant(3)
    &&& ops[7] == CfiOp::Shl
    &&& ops[8] == CfiOp::Plus
}

fn run_straight(ops: &Vec<CfiOp>) -> (straight: bool)
    ensures
        straight == runs_straight(ops@, 0),
{
    let mut at: usize = 0;
    while at < ops.len()
        invariant
            at <= ops@.len(),
            runs_straight(ops@, 0) == runs_straight(ops@, at as int),
        decreases ops@.len() - at,
    {
        match ops[at] {
            CfiOp::Deref => return true,
            CfiOp::Bra | CfiOp::Skip | CfiOp::ImplicitPointer => return false,
            _ => {},
        }
        at += 1;
    }
    true
}

fn end_without_value(ops: &Vec<CfiOp>) -> (ended: bool)
    ensures
        ended == ends_without_value(ops@, 0),
{
    let mut at: usize = 0;
    while at < ops.len()
        invariant
            at <= ops@.len(),
            ends_without_value(ops@, 0) == ends_without_value(ops@, at as int),
        decreases ops@.len() - at,
    {
        match ops[at] {
            CfiOp::Deref => return true,
            CfiOp::Bra | CfiOp::Skip | CfiOp::ImplicitPointer => return false,
            CfiOp::Register(number, _) => {
                if number != 6 && number != 7 && number != 16 {
                    return true;
                }
            },
            _ => {},
        }
        at += 1;
    }
    false
}

fn are_linkage_entry(ops: &Vec<CfiOp>) -> (found: bool)
    ensures
        found == is_linkage_entry(ops@),
{
    ops.len() == 9 && ops[0] == CfiOp::Register(7, 8) && ops[1] == CfiOp::Register(16, 0)
        && ops[2] == CfiOp::Constant(15) && ops[3] == CfiOp::And && matches!(
        ops[4],
        CfiOp::Constant(_)
    ) && ops[5] == CfiOp::Ge && ops[6] == CfiOp::Constant(3) && ops[7] == CfiOp::Shl && ops[8]
        == CfiOp::Plus
}

// ---------------------------------------------------------------------------
// Rows
// ---------------------------------------------------------------------------

/// Whether the rule of a register can be followed: its expression ends. One at a place that the
/// section does not hold is not followed.
pub open spec fn rule_is_tame(data: Seq<u8>, rule: Option<RuleInfo>) -> bool {
    rule matches Some(RuleInfo::Expression(offset, length)) ==> (match ops_at(
        data,
        offset,
        length,
    ) {
        Some(ops) => runs_straight(ops, 0),
        None => true,
    })
}

fn check_rule(data: &[u8], rule: Option<RuleInfo>) -> (tame: bool)
    ensures
        tame == rule_is_tame(data@, rule),
{
    match rule {
        Some(RuleInfo::Expression(offset, length)) => match read_ops(data, offset, length) {
            Some(ops) => run_straight(&ops),
            None => true,
        },
        _ => true,
    }
}

/// Whether the offset of the frame's address and that of a register, which are summed up where the
/// first is small, have a sum that fits.
pub open spec fn sum_fits(offset: i64, rule: Option<RuleInfo>) -> bool {
    rule matches Some(RuleInfo::Offset(other)) ==> (-16 < offset < 0x10_0000 ==> i64::MIN
        <= offset + other <= i64::MAX)
}

fn check_sum(offset: i64, rule: Option<RuleInfo>) -> (fits: bool)
    ensures
        fits == sum_fits(offset, rule),
{
    match rule {
        Some(RuleInfo::Offset(other)) => offset <= -16 || offset >= 0x10_0000
            || offset.checked_add(other).is_some(),
        _ => true,
    }
}

/// Whether an `x86_64` row can be followed. Without a rule for the return address the stack ends.
/// Otherwise the frame's address must be found at least eight bytes above a register, or not at
/// all, or as in a linkage table whose return addresses are read from memory.
pub open spec fn x86_row_is_tame(
    data: Seq<u8>,
    in_eh_frame: bool,
    cfa: CfaInfo,
    frame: Option<RuleInfo>,
    back: Option<RuleInfo>,
) -> bool {
    back is None || back == Some(RuleInfo::Undefined) || match cfa {
        CfaInfo::Register(number, offset) => !is_x86_register(number) || {
            &&& 8 <= offset
            &&& sum_fits(offset, frame)
            &&& rule_is_tame(data, frame)
            &&& rule_is_tame(data, back)
        },
        CfaInfo::Expression(offset, length) => match ops_at(data, offset, length) {
            Some(ops) => ends_without_value(ops, 0) || (in_eh_frame && is_linkage_entry(ops)
                && rule_is_tame(data, frame) && back is Some && back->Some_0 is Offset),
            None => true,
        },
    }
}

/// Whether an `aarch64` row can be followed.
pub open spec fn aarch64_row_is_tame(
    data: Seq<u8>,
    cfa: CfaInfo,
    frame: Option<RuleInfo>,
    back: Option<RuleInfo>,
) -> bool {
    match cfa {
        CfaInfo::Register(number, offset) => !is_aarch64_register(number) || {
            &&& sum_fits(offset, frame)
            &&& sum_fits(offset, back)
            &&& rule_is_tame(data, frame)
            &&& rule_is_tame(data, back)
        },
        CfaInfo::Expression(offset, length) => match ops_at(data, offset, length) {
            Some(ops) => {
                &&& runs_straight(ops, 0)
                &&& rule_is_tame(data, frame)
                &&& rule_is_tame(data, back)
            },
            None => true,
        },
    }
}

/// Whether a row can be followed.
pub open spec fn row_is_tame(
    arch: PerfArch,
    data: Seq<u8>,
    in_eh_frame: bool,
    cfa: CfaInfo,
    frame: Option<RuleInfo>,
    back: Option<RuleInfo>,
) -> bool {
    match arch {
        PerfArch::X86_64 => x86_row_is_tame(data, in_eh_frame, cfa, frame, back),
        PerfArch::Aarch64 => aarch64_row_is_tame(data, cfa, frame, back),
    }
}

fn check_row(
    arch: PerfArch,
    data: &[u8],
    in_eh_frame: bool,
    cfa: CfaInfo,
    frame: Option<RuleInfo>,
    back: Option<RuleInfo>,
) -> (tame: bool)
    ensures
        tame == row_is_tame(arch, data@, in_eh_frame, cfa, frame, back),
{
    match arch {
        PerfArch::X86_64 => {
            match back {
                None => return true,
                Some(RuleInfo::Undefined) => return true,
                _ => {},
            }
            match cfa {
                CfaInfo::Register(number, offset) => {
                    let known = number == 6 || number == 7 || number == 16;
                    !known || (8 <= offset && check_sum(offset, frame) && check_rule(data, frame)
                        && check_rule(data, back))
                },
                CfaInfo::Expression(offset, length) => match read_ops(data, offset, length) {
                    Some(ops) => end_without_value(&ops) || (in_eh_frame && are_linkage_entry(
                        &ops,
                    ) && check_rule(data, frame) && matches!(back, Some(RuleInfo::Offset(_)))),
                    None => true,
                },
            }
        },
        PerfArch::Aarch64 => match cfa {
            CfaInfo::Register(number, offset) => {
                let known = number == 29 || number == 30 || number == 31;
                !known || (check_sum(offset, frame) && check_sum(offset, back) && check_rule(
                    data,
                    frame,
                ) && check_rule(data, back))
            },
            CfaInfo::Expression(offset, length) => match read_ops(data, offset, length) {
                Some(ops) => run_straight(&ops) && check_rule(data, frame) && check_rule(
                    data,
                    back,
                ),
                None => true,
            },
        },
    }
}

/// The registers of the frame and of the return address.
pub open spec fn frame_registers(arch: PerfArch) -> (u16, u16) {
    match arch {
        PerfArch::X86_64 => (6, 16),
        PerfArch::Aarch64 => (29, 30),
    }
}

/// Whether rows can be followed: one that cannot be read is not followed.
pub open spec fn rows_are_tame(
    arch: PerfArch,
    data: Seq<u8>,
    in_eh_frame: bool,
    cfas: Option<Seq<CfaInfo>>,
    frames: Option<Seq<Option<RuleInfo>>>,
    backs: Option<Seq<Option<RuleInfo>>>,
) -> bool {
    match (cfas, frames, backs) {
        (Some(cfas), Some(frames), Some(backs)) => {
            &&& cfas.len() == frames.len()
            &&& cfas.len() == backs.len()
            &&& forall|i: int|
                0 <= i < cfas.len() ==> row_is_tame(
                    arch,
                    data,
                    in_eh_frame,
                    #[trigger] cfas[i],
                    frames[i],
                    backs[i],
                )
        },
        (None, None, None) => true,
        _ => false,
    }
}

/// Whether the rows of the frame description at an offset can be followed.
pub open spec fn description_is_tame(
    arch: PerfArch,
    data: Seq<u8>,
    bases: FrameBases,
    in_eh_frame: bool,
    offset: usize,
) -> bool {
    let (frame, back) = frame_registers(arch);
    if in_eh_frame {
        rows_are_tame(
            arch,
            data,
            in_eh_frame,
            eh_frame_cfas_of(data, bases, offset),
            eh_frame_rules_of(data, bases, offset, frame),
            eh_frame_rules_of(data, bases, offset, back),
        )
    } else {
        rows_are_tame(
            arch,
            data,
            in_eh_frame,
            debug_frame_cfas_of(data, bases, offset),
            debug_frame_rules_of(data, bases, offset, frame),
            debug_frame_rules_of(data, bases, offset, back),
        )
    }
}

/// The contents of an optional list.
pub open spec fn list_view<T>(list: Option<Vec<T>>) -> Option<Seq<T>> {
    match list {
        Some(list) => Some(list@),
        None => None,
    }
}

fn check_rows(
    arch: PerfArch,
    data: &[u8],
    in_eh_frame: bool,
    cfas: Option<Vec<CfaInfo>>,
    frames: Option<Vec<Option<RuleInfo>>>,
    backs: Option<Vec<Option<RuleInfo>>>,
) -> (tame: bool)
    ensures
        tame == rows_are_tame(
            arch,
            data@,
            in_eh_frame,
            list_view(cfas),
            list_view(frames),
            list_view(backs),
        ),
{
    match (cfas, frames, backs) {
        (Some(cfas), Some(frames), Some(backs)) => check_all_rows(
            arch,
            data,
            in_eh_frame,
            &cfas,
            &frames,
            &backs,
        ),
        (None, None, None) => true,
        _ => false,
    }
}

fn check_all_rows(
    arch: PerfArch,
    data: &[u8],
    in_eh_frame: bool,
    cfas: &Vec<CfaInfo>,
    frames: &Vec<Option<RuleInfo>>,
    backs: &Vec<Option<RuleInfo>>,
) -> (tame: bool)
    ensures
        tame == rows_are_tame(
            arch,
            data@,
            in_eh_frame,
            Some(cfas@),
            Some(frames@),
            Some(backs@),
        ),
{
    if cfas.len() != frames.len() || cfas.len() != backs.len() {
        return false;
    }
    let mut i: usize = 0;
    while i < cfas.len()
        invariant
            i <= cfas@.len(),
            cfas@.len() == frames@.len(),
            cfas@.len() == backs@.len(),
            forall|j: int|
                0 <= j < i ==> row_is_tame(
                    arch,
                    data@,
                    in_eh_frame,
                    #[trigger] cfas@[j],
                    frames@[j],
                    backs@[j],
                ),
        decreases cfas@.len() - i,
    {
        if !check_row(arch, data, in_eh_frame, cfas[i], frames[i], backs[i]) {
            assert(!row_is_tame(
                arch,
                data@,
                in_eh_frame,
                cfas@[i as int],
                frames@[i as int],
                backs@[i as int],
            ));
            return false;
        }
        i += 1;
    }
    true
}

fn check_description(
    arch: PerfArch,
    data: &[u8],
    bases: FrameBases,
    in_eh_frame: bool,
    offset: usize,
) -> (tame: bool)
    ensures
        tame == description_is_tame(arch, data@, bases, in_eh_frame, offset),
{
    let (frame, back): (u16, u16) = match arch {
        PerfArch::X86_64 => (6, 16),
        PerfArch::Aarch64 => (29, 30),
    };
    if in_eh_frame {
        let cfas = eh_frame_cfas(data, bases, offset);
        let frames = eh_frame_rules(data, bases, offset, frame);
        let backs = eh_frame_rules(data, bases, offset, back);
        check_rows(arch, data, in_eh_frame, cfas, frames, backs)
    } else {
        let cfas = debug_frame_cfas(data, bases, offset);
        let frames = debug_frame_rules(data, bases, offset, frame);
        let backs = debug_frame_rules(data, bases, offset, back);
        check_rows(arch, data, in_eh_frame, cfas, frames, backs)
    }
}

// ---------------------------------------------------------------------------
// Sections
// ---------------------------------------------------------------------------

/// The entries of a section.
pub open spec fn section_items(data: Seq<u8>, bases: FrameBases, in_eh_frame: bool) -> Seq<CfiItem> {
    if in_eh_frame {
        eh_frame_items_of(data, bases.stated())
    } else {
        debug_frame_items_of(data, bases.stated())
    }
}

/// Whether all frame descriptions of a section can be followed.
pub open spec fn section_is_tame(
    arch: PerfArch,
    data: Seq<u8>,
    bases: FrameBases,
    in_eh_frame: bool,
) -> bool {
    let items = section_items(data, bases, in_eh_frame);
    forall|i: int|
        0 <= i < items.len() ==> (#[trigger] items[i] matches CfiItem::Described { offset, .. }
            ==> description_is_tame(arch, data, bases, in_eh_frame, offset))
}

fn check_section(arch: PerfArch, data: &[u8], bases: FrameBases, in_eh_frame: bool) -> (tame: bool)
    ensures
        tame == section_is_tame(arch, data@, bases, in_eh_frame),
{
    let stated = CfiBases {
        eh_frame_hdr: Some(bases.eh_frame_hdr),
        eh_frame: Some(bases.eh_frame),
        text: Some(bases.text),
        got: Some(bases.got),
    };
    let items = if in_eh_frame {
        eh_frame_items(data, stated)
    } else {
        debug_frame_items(data, stated)
    };
    let mut i: usize = 0;
    while i < items.len()
        invariant
            i <= items@.len(),
            items@ == section_items(data@, bases, in_eh_frame),
            forall|j: int|
                0 <= j < i ==> (#[trigger] items@[j] matches CfiItem::Described { offset, .. }
                    ==> description_is_tame(arch, data@, bases, in_eh_frame, offset)),
        decreases items@.len() - i,
    {
        if let CfiItem::Described { offset, .. } = items[i] {
            if !check_description(arch, data, bases, in_eh_frame, offset) {
                assert(items@[i as int] is Described);
                return false;
            }
        }
        i += 1;
    }
    true
}

/// Whether a row of a search table points at a frame description that can be followed: one behind
/// the address that pointers are relative to.
pub open spec fn pointer_is_tame(
    arch: PerfArch,
    data: Seq<u8>,
    bases: FrameBases,
    frame: CfiPointer,
    row: CfiPointer,
) -> bool {
    match (frame, row) {
        (CfiPointer::Direct(frame), CfiPointer::Direct(at)) => {
            &&& frame <= at
            &&& at - frame <= u32::MAX ==> description_is_tame(
                arch,
                data,
                bases,
                true,
                (at - frame) as usize,
            )
        },
        _ => true,
    }
}

/// Whether a search table can be used: it has all the rows that it claims, and each points at a
/// frame description that can be followed. A table that cannot be read is not used.
pub open spec fn search_is_tame(
    arch: PerfArch,
    search: Seq<u8>,
    data: Seq<u8>,
    bases: FrameBases,
) -> bool {
    match search_table_of(search, bases) {
        None => true,
        Some(table) => {
            &&& table.count == Some(table.rows.len() as usize)
            &&& forall|i: int|
                0 <= i < table.rows.len() ==> pointer_is_tame(
                    arch,
                    data,
                    bases,
                    table.frame,
                    #[trigger] table.rows[i],
                )
        },
    }
}

fn check_search(arch: PerfArch, search: &[u8], data: &[u8], bases: FrameBases) -> (tame: bool)
    ensures
        tame == search_is_tame(arch, search@, data@, bases),
{
    let table = match search_table(search, bases) {
        Some(table) => table,
        None => return true,
    };
    match table.count {
        Some(count) => {
            if count != table.rows.len() {
                return false;
            }
        },
        None => return false,
    }
    let mut i: usize = 0;
    while i < table.rows.len()
        invariant
            i <= table.rows@.len(),
            search_table_of(search@, bases) == Some(table@),
            forall|j: int|
                0 <= j < i ==> pointer_is_tame(
                    arch,
                    data@,
                    bases,
                    table.frame,
                    #[trigger] table.rows@[j],
                ),
        decreases table.rows@.len() - i,
    {
        if let (CfiPointer::Direct(frame), CfiPointer::Direct(at)) = (table.frame, table.rows[i]) {
            if at < frame || (at - frame <= u32::MAX as u64 && !check_description(
                arch,
                data,
                bases,
                true,
                (at - frame) as usize,
            )) {
                assert(!pointer_is_tame(arch, data@, bases, table@.frame, table@.rows[i as int]));
                return false;
            }
        }
        i += 1;
    }
    true
}

// ---------------------------------------------------------------------------
// Objects
// ---------------------------------------------------------------------------

/// How far behind the base of a module an unwinder looks an address of it up, if it does.
pub open spec fn offset_in_module(range: AddressRange, base: u64, address: u64) -> Option<int> {
    if (address == range.start || range.start < address < range.end) && base <= address && address
        - base <= u32::MAX {
        Some(address - base)
    } else {
        None
    }
}

/// Whether every address of a module that is looked up has its place behind the object's own base.
pub open spec fn places_fit(range: AddressRange, base: u64, own_base: u64) -> bool {
    forall|address: u64|
        (#[trigger] offset_in_module(range, base, address)) matches Some(offset) ==> own_base
            + offset <= u64::MAX
}

fn check_places(range: AddressRange, base: u64, own_base: u64) -> (fit: bool)
    ensures
        fit == places_fit(range, base, own_base),
{
    let last: u64 = if range.end > range.start {
        range.end - 1
    } else {
        range.start
    };
    if last < base || (range.start > base && range.start - base > u32::MAX as u64) {
        return true;
    }
    let offset: u64 = if last - base > u32::MAX as u64 {
        u32::MAX as u64
    } else {
        last - base
    };
    let fit = own_base.checked_add(offset).is_some();
    assert(offset_in_module(range, base, (base + offset) as u64) == Some(offset as int));
    fit
}

/// Where a section begins; zero without it.
pub open spec fn start_of(range: Option<AddressRange>) -> u64 {
    match range {
        Some(range) => range.start,
        None => 0,
    }
}

/// Where an unwinder takes call-frame pointers to be relative to.
pub open spec fn unwinder_bases(sections: SectionsModel) -> FrameBases {
    FrameBases {
        eh_frame_hdr: start_of(sections.eh_frame_hdr_svma),
        eh_frame: start_of(sections.eh_frame_svma),
        text: start_of(sections.text_svma),
        got: start_of(sections.got_svma),
    }
}

/// Whether an unwinder can follow all the tables that it uses of a module.
pub open spec fn is_tame(
    arch: PerfArch,
    sections: SectionsModel,
    range: AddressRange,
    base: u64,
) -> bool {
    let bases = unwinder_bases(sections);
    &&& sections.unwind_info is None
    &&& sections.eh_frame is Some || sections.debug_frame is Some ==> places_fit(
        range,
        base,
        sections.base_svma,
    )
    &&& match sections.eh_frame {
        Some(data) => match sections.eh_frame_hdr {
            Some(search) => search_is_tame(arch, search, data, bases),
            None => section_is_tame(arch, data, bases, true),
        },
        None => sections.debug_frame matches Some(data) ==> section_is_tame(
            arch,
            data,
            bases,
            false,
        ),
    }
}

/// Whether the search table of a module is kept.
pub open spec fn keeps_search(
    arch: PerfArch,
    sections: SectionsModel,
    range: AddressRange,
    base: u64,
) -> bool {
    match (sections.eh_frame_hdr, sections.eh_frame) {
        (Some(search), Some(data)) => places_fit(range, base, sections.base_svma)
            && search_is_tame(arch, search, data, unwinder_bases(sections)),
        _ => false,
    }
}

/// Whether the frame descriptions of a module are kept.
pub open spec fn keeps_frames(
    arch: PerfArch,
    sections: SectionsModel,
    range: AddressRange,
    base: u64,
) -> bool {
    match sections.eh_frame {
        Some(data) => places_fit(range, base, sections.base_svma) && (keeps_search(
            arch,
            sections,
            range,
            base,
        ) || section_is_tame(arch, data, unwinder_bases(sections), true)),
        None => false,
    }
}

/// Whether the frame descriptions for debuggers of a module are kept.
pub open spec fn keeps_debug_frames(
    arch: PerfArch,
    sections: SectionsModel,
    range: AddressRange,
    base: u64,
) -> bool {
    match sections.debug_frame {
        Some(data) => places_fit(range, base, sections.base_svma) && section_is_tame(
            arch,
            data,
            unwinder_bases(sections),
            false,
        ),
        None => false,
    }
}

/// The sections that an unwinder is given of a module: without tables that it could not follow,
/// and without compact unwind information, which is found in no object of a recording.
pub open spec fn usable_sections(
    arch: PerfArch,
    sections: SectionsModel,
    range: AddressRange,
    base: u64,
) -> SectionsModel {
    SectionsModel {
        unwind_info: None,
        eh_frame: if keeps_frames(arch, sections, range, base) {
            sections.eh_frame
        } else {
            None
        },
        eh_frame_hdr: if keeps_search(arch, sections, range, base) {
            sections.eh_frame_hdr
        } else {
            None
        },
        debug_frame: if keeps_debug_frames(arch, sections, range, base) {
            sections.debug_frame
        } else {
            None
        },
        ..sections
    }
}

/// An unwinder can follow what it is given.
pub proof fn usable_sections_are_tame(
    arch: PerfArch,
    sections: SectionsModel,
    range: AddressRange,
    base: u64,
)
    ensures
        is_tame(arch, usable_sections(arch, sections, range, base), range, base),
{
    let usable = usable_sections(arch, sections, range, base);
    assert(unwinder_bases(usable) == unwinder_bases(sections));
}

/// Tables that an unwinder can follow are all kept.
pub proof fn tame_sections_are_kept(
    arch: PerfArch,
    sections: SectionsModel,
    range: AddressRange,
    base: u64,
)
    requires
        is_tame(arch, sections, range, base),
    ensures
        usable_sections(arch, sections, range, base).eh_frame == sections.eh_frame,
        sections.eh_frame is Some ==> usable_sections(arch, sections, range, base).eh_frame_hdr
            == sections.eh_frame_hdr,
        sections.eh_frame is None ==> usable_sections(arch, sections, range, base).debug_frame
            == sections.debug_frame,
{
}

fn start(range: Option<AddressRange>) -> (start: u64)
    ensures
        start == start_of(range),
{
    match range {
        Some(range) => range.start,
        None => 0,
    }
}

/// Drops the tables of a module that an unwinder could not follow.
pub fn keep_usable(
    arch: PerfArch,
    sections: ModuleSections,
    range: AddressRange,
    base: u64,
) -> (usable: ModuleSections)
    ensures
        usable@ == usable_sections(arch, sections@, range, base),
{
    let ghost all = sections@;
    let mut usable = sections;
    let bases = FrameBases {
        eh_frame_hdr: start(usable.eh_frame_hdr_svma),
        eh_frame: start(usable.eh_frame_svma),
        text: start(usable.text_svma),
        got: start(usable.got_svma),
    };
    assert(bases == unwinder_bases(all));
    let fits = check_places(range, base, usable.base_svma);
    let search = match (&usable.eh_frame_hdr, &usable.eh_frame) {
        (Some(search), Some(data)) => fits && check_search(
            arch,
            search.as_slice(),
            data.as_slice(),
            bases,
        ),
        _ => false,
    };
    assert(search == keeps_search(arch, all, range, base));
    let frames = match &usable.eh_frame {
        Some(data) => fits && (search || check_section(arch, data.as_slice(), bases, true)),
        None => false,
    };
    assert(frames == keeps_frames(arch, all, range, base));
    let debug = match &usable.debug_frame {
        Some(data) => fits && check_section(arch, data.as_slice(), bases, false),
        None => false,
    };
    assert(debug == keeps_debug_frames(arch, all, range, base));
    usable.unwind_info = None;
    if !frames {
        usable.eh_frame = None;
    }
    if !search {
        usable.eh_frame_hdr = None;
    }
    if !debug {
        usable.debug_frame = None;
    }
    assert(usable@ =~= usable_sections(arch, all, range, base));
    usable
}

// ---------------------------------------------------------------------------
// Laws
// ---------------------------------------------------------------------------

/// Operations run one after the other just where no operation leads away in front of the first
/// that reads memory, or in front of their end.
pub proof fn straight_operations_lead_nowhere_else(ops: Seq<CfiOp>, at: int)
    requires
        0 <= at <= ops.len(),
    ensures
        runs_straight(ops, at) <==> exists|end: int|
            at <= end <= ops.len() && (end == ops.len() || ops[end] == CfiOp::Deref)
                && #[trigger] none_leads_away(ops, at, end),
    decreases ops.len() - at,
{
    if at < ops.len() {
        straight_operations_lead_nowhere_else(ops, at + 1);
        if runs_straight(ops, at) {
            if ops[at] == CfiOp::Deref {
                assert(none_leads_away(ops, at, at));
            } else {
                let end = choose|end: int|
                    at + 1 <= end <= ops.len() && (end == ops.len() || ops[end] == CfiOp::Deref)
                        && #[trigger] none_leads_away(ops, at + 1, end);
                assert(none_leads_away(ops, at, end));
            }
        }
        if exists|end: int|
            at <= end <= ops.len() && (end == ops.len() || ops[end] == CfiOp::Deref)
                && #[trigger] none_leads_away(ops, at, end) {
            let end = choose|end: int|
                at <= end <= ops.len() && (end == ops.len() || ops[end] == CfiOp::Deref)
                    && #[trigger] none_leads_away(ops, at, end);
            if end > at {
                assert(none_leads_away(ops, at + 1, end));
                assert(!leads_away(ops[at]));
            }
        }
    } else {
        assert(none_leads_away(ops, at, at));
    }
}

/// Whether no operation between two places leads away.
pub open spec fn none_leads_away(ops: Seq<CfiOp>, from: int, end: int) -> bool {
    forall|i: int|
        from <= i < end ==> #[trigger] ops[i] != CfiOp::Bra && ops[i] != CfiOp::Skip && ops[i]
            != CfiOp::ImplicitPointer
}

} // verus!
