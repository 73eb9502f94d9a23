use pyroclast::perfdata::frames::keep_usable;
use pyroclast::perfdata::objects::{AddressRange, ModuleSections};
use pyroclast::perfdata::unwind::PerfArch;

// A section whose one description, at offset 20, has the given instructions. Its frames begin
// eight bytes above `rsp`, and return addresses stand at their ends.
fn section(id: u32, pointer: u32, first: &[u8], instructions: &[u8]) -> Vec<u8> {
    let mut common = id.to_le_bytes().to_vec();
    common.extend([1, 0, 1, 0x78, 16]);
    common.extend(first);
    common.extend([0x90, 1]);
    common.resize(16, 0);
    let mut description = pointer.to_le_bytes().to_vec();
    description.extend(0x1000_u64.to_le_bytes());
    description.extend(0x100_u64.to_le_bytes());
    description.extend(instructions);
    let mut bytes = 16_u32.to_le_bytes().to_vec();
    bytes.extend(common);
    bytes.extend((description.len() as u32).to_le_bytes());
    bytes.extend(description);
    bytes
}

fn eh_frame(instructions: &[u8]) -> Vec<u8> {
    section(0, 24, &[0x0c, 7, 8], instructions)
}

fn debug_frame(instructions: &[u8]) -> Vec<u8> {
    section(u32::MAX, 0, &[0x0c, 7, 8], instructions)
}

fn expression(code: &[u8]) -> Vec<u8> {
    let mut instruction = vec![0x0f, code.len() as u8];
    instruction.extend(code);
    instruction
}

fn sections(eh_frame: Option<Vec<u8>>) -> ModuleSections {
    ModuleSections {
        base_svma: 0,
        text_svma: None,
        text: None,
        stubs_svma: None,
        stub_helper_svma: None,
        got_svma: None,
        unwind_info: None,
        eh_frame_svma: None,
        eh_frame,
        eh_frame_hdr_svma: None,
        eh_frame_hdr: None,
        debug_frame: None,
        text_segment_svma: None,
        text_segment: None,
    }
}

const BASE: u64 = 0x40_0000;

// What is kept of a module of 64 kilobytes.
fn usable(arch: PerfArch, sections: ModuleSections) -> ModuleSections {
    let range = AddressRange { start: BASE, end: BASE + 0x1_0000 };
    keep_usable(arch, sections, range, BASE)
}

fn kept(arch: PerfArch, eh_frame: Vec<u8>) -> bool {
    let usable = usable(arch, sections(Some(eh_frame.clone())));
    match usable.eh_frame {
        Some(data) => {
            assert_eq!(data, eh_frame);
            true
        }
        None => false,
    }
}

#[test]
fn ordinary_tables_are_kept() {
    assert!(kept(PerfArch::X86_64, eh_frame(&[])));
    assert!(kept(PerfArch::Aarch64, eh_frame(&[])));
    assert!(kept(PerfArch::X86_64, Vec::new()));
    assert!(kept(PerfArch::X86_64, vec![1, 2, 3]));
    assert!(kept(PerfArch::X86_64, eh_frame(&[0x0e, 16, 0x86, 2])));
}

#[test]
fn expressions_with_branches_are_dropped() {
    let endless = expression(&[0x2f, 0xfd, 0xff]);
    assert!(!kept(PerfArch::X86_64, eh_frame(&endless)));
    assert!(!kept(PerfArch::Aarch64, eh_frame(&endless)));
    let mut restored = vec![0x10, 6, 3, 0x2f, 0xfd, 0xff];
    assert!(!kept(PerfArch::X86_64, eh_frame(&restored)));
    restored[1] = 29;
    assert!(kept(PerfArch::X86_64, eh_frame(&restored)));
    assert!(kept(PerfArch::Aarch64, eh_frame(&restored)));
    let from_sp = section(0, 24, &[0x0c, 31, 8], &restored);
    assert!(!kept(PerfArch::Aarch64, from_sp));
}

#[test]
fn expressions_that_read_memory_end_there() {
    let reading = expression(&[0x76, 0x78, 0x06]);
    assert!(kept(PerfArch::X86_64, eh_frame(&reading)));
    let branching_behind = expression(&[0x76, 0x78, 0x06, 0x2f, 0xfd, 0xff]);
    assert!(kept(PerfArch::X86_64, eh_frame(&branching_behind)));
    let unknown_register = expression(&[0x73, 0]);
    assert!(kept(PerfArch::X86_64, eh_frame(&unknown_register)));
    let any_value = expression(&[0x76, 0]);
    assert!(!kept(PerfArch::X86_64, eh_frame(&any_value)));
    assert!(kept(PerfArch::Aarch64, eh_frame(&any_value)));
}

#[test]
fn linkage_tables_are_kept() {
    let entry = [0x77, 8, 0x80, 0, 0x3f, 0x1a, 0x3b, 0x2a, 0x33, 0x24, 0x22];
    assert!(kept(PerfArch::X86_64, eh_frame(&expression(&entry))));
    let mut other = entry;
    other[1] = 0;
    assert!(!kept(PerfArch::X86_64, eh_frame(&expression(&other))));
}

#[test]
fn frames_too_near_to_zero_are_dropped() {
    let near = section(0, 24, &[0x0c, 7, 0], &[]);
    assert!(!kept(PerfArch::X86_64, near.clone()));
    assert!(kept(PerfArch::Aarch64, near));
    let other_register = section(0, 24, &[0x0c, 10, 0], &[]);
    assert!(kept(PerfArch::X86_64, other_register));
}

// A signed number in groups of seven bits.
fn signed(mut value: i64) -> Vec<u8> {
    let mut bytes = Vec::new();
    loop {
        let group = (value & 0x7f) as u8;
        value >>= 7;
        if (value == 0 && group & 0x40 == 0) || (value == -1 && group & 0x40 != 0) {
            bytes.push(group);
            return bytes;
        }
        bytes.push(group | 0x80);
    }
}

// Restores a register from eight times less the given number behind the frame.
fn restored(register: u8, factor: i64) -> Vec<u8> {
    let mut instruction = vec![0x11, register];
    instruction.extend(signed(factor));
    instruction
}

#[test]
fn offsets_whose_sum_is_out_of_range_are_dropped() {
    let last = -((1_i64 << 60) - 1);
    assert!(!kept(PerfArch::X86_64, eh_frame(&restored(6, last))));
    assert!(kept(PerfArch::X86_64, eh_frame(&restored(6, last + 1))));
    assert!(kept(PerfArch::X86_64, eh_frame(&restored(6, 1 << 60))));
    assert!(kept(PerfArch::X86_64, eh_frame(&restored(3, last))));
    let from_sp = |instructions: &[u8]| section(0, 24, &[0x0c, 31, 8], instructions);
    assert!(!kept(PerfArch::Aarch64, from_sp(&restored(29, last))));
    assert!(!kept(PerfArch::Aarch64, from_sp(&restored(30, last))));
    assert!(kept(PerfArch::Aarch64, from_sp(&restored(30, last + 1))));
    assert!(kept(PerfArch::Aarch64, eh_frame(&restored(30, last))));
}

#[test]
fn expressions_that_only_compute_are_kept() {
    let computing = [0x10, 6, 6, 0x31, 0x32, 0x1e, 0x1c, 0x1f, 0x20];
    assert!(kept(PerfArch::X86_64, eh_frame(&computing)));
    let read_behind = expression(&[0x31, 0x32, 0x1e, 0x06]);
    assert!(kept(PerfArch::X86_64, eh_frame(&read_behind)));
}

#[test]
fn places_out_of_range_and_compact_tables_are_dropped() {
    let mut high = sections(Some(eh_frame(&[])));
    high.base_svma = u64::MAX - 0xfffe;
    high.unwind_info = Some(vec![1]);
    let rest = usable(PerfArch::X86_64, high);
    assert_eq!(rest.base_svma, u64::MAX - 0xfffe);
    assert_eq!(rest.eh_frame, None);
    assert_eq!(rest.unwind_info, None);
    let mut highest = sections(Some(eh_frame(&[])));
    highest.base_svma = u64::MAX - 0xffff;
    assert!(usable(PerfArch::X86_64, highest).eh_frame.is_some());
}

#[test]
fn addresses_that_are_not_looked_up_need_no_place() {
    let all = || {
        let mut all = sections(Some(eh_frame(&[])));
        all.base_svma = 0xffff_ffff_8100_0000;
        all
    };
    let far = AddressRange { start: 0x8100_0000_0000, end: 0x8200_0000_0000 };
    assert!(keep_usable(PerfArch::X86_64, all(), far, 0).eh_frame.is_some());
    let below = AddressRange { start: 0x1000, end: 0x2000 };
    assert!(keep_usable(PerfArch::X86_64, all(), below, 0x3000).eh_frame.is_some());
    let long = AddressRange { start: 0x1000, end: 0x8200_0000_0000 };
    assert!(keep_usable(PerfArch::X86_64, all(), long, 0).eh_frame.is_none());
}

#[test]
fn tables_for_debuggers_are_looked_at_too() {
    let mut plain = sections(None);
    plain.debug_frame = Some(debug_frame(&[]));
    assert!(usable(PerfArch::X86_64, plain).debug_frame.is_some());
    let mut endless = sections(None);
    endless.debug_frame = Some(debug_frame(&expression(&[0x2f, 0xfd, 0xff])));
    assert!(usable(PerfArch::X86_64, endless).debug_frame.is_none());
}

// A search table for a section at 0x1000 that claims a number of rows and has one.
fn search(count: u32, at: u64) -> Vec<u8> {
    let mut bytes = vec![1, 4, 3, 4];
    bytes.extend(0x1000_u64.to_le_bytes());
    bytes.extend(count.to_le_bytes());
    bytes.extend(0x1000_u64.to_le_bytes());
    bytes.extend(at.to_le_bytes());
    bytes
}

fn searched(search: Vec<u8>, instructions: &[u8]) -> (bool, bool) {
    let mut all = sections(Some(eh_frame(instructions)));
    all.eh_frame_hdr = Some(search);
    let rest = usable(PerfArch::X86_64, all);
    (rest.eh_frame_hdr.is_some(), rest.eh_frame.is_some())
}

#[test]
fn search_tables_must_point_at_what_can_be_followed() {
    assert_eq!(searched(search(1, 0x1000 + 20), &[]), (true, true));
    assert_eq!(searched(search(1, 0x0fff), &[]), (false, true));
    assert_eq!(searched(search(2, 0x1000 + 20), &[]), (false, true));
    assert_eq!(searched(search(u32::MAX, 0x1000 + 20), &[]), (false, true));
    assert_eq!(searched(Vec::new(), &[]), (true, true));
    let endless = expression(&[0x2f, 0xfd, 0xff]);
    assert_eq!(searched(search(1, 0x1000 + 20), &endless), (false, false));
    assert_eq!(searched(search(1, 0x1000), &endless), (true, true));
}
