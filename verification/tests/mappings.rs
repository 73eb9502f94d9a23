use pyroclast::perfdata::mappings::{MappingResolveCache, MmapTable};
use pyroclast::perfdata::records::MmapRecord;

fn mapping(pid: u32, start: u64, len: u64, pgoff: u64, path: &str) -> MmapRecord {
    MmapRecord { pid, tid: pid, start, len, pgoff, path: path.to_string() }
}

#[test]
fn broad_new_mapping_replaces_covered_old_mapping_like_perf_maps_fixup() {
    let mut table = MmapTable::default();
    table.insert_mmap(mapping(7, 0x3000, 0x100, 0, "/later"));
    table.insert_mmap(mapping(7, 0x1000, 0x4000, 0, "/earlier"));

    let bucket = table.indexed_mappings(7);
    assert_eq!(bucket.len(), 1);
    assert_eq!(bucket[0].max_end, 0x5000);
    assert_eq!(table.resolve(7, 0x3000).expect("mapping").path, "/earlier");
}

#[test]
fn new_mapping_replaces_fully_overlapped_old_mapping_like_perf_maps_fixup() {
    let mut table = MmapTable::default();
    table.insert_mmap(mapping(7, 0x1000, 0x1000, 0, "/bin/sh"));
    table.insert_mmap(mapping(7, 0x1000, 0x1000, 0, "/pyroclast"));

    let paths = table
        .user_mappings()
        .iter()
        .map(|mapping| mapping.path)
        .collect::<Vec<_>>();
    assert_eq!(paths, ["/pyroclast"]);
    assert_eq!(
        table.resolve(7, 0x1000).expect("mapping").path,
        "/pyroclast"
    );
}

#[test]
fn cached_lookup_tracks_pid_specific_and_global_mappings() {
    let mut table = MmapTable::default();
    table.insert_mmap(mapping(7, 0x1000, 0x100, 0, "/app"));
    table.insert_mmap(mapping(
        u32::MAX,
        0xffff_ffff_8100_0000,
        0x1000,
        0,
        "[kernel.kallsyms]",
    ));

    let mut cache = MappingResolveCache::default();
    let local = table
        .resolve_ref_cached(7, 0x1010, &mut cache)
        .expect("local mapping");
    assert_eq!(local.path, "/app");
    assert_eq!(cache.pid, Some(7));
    assert_eq!(cache.pid_index, Some(0));
    assert_eq!(cache.global_index, None);

    let global = table
        .resolve_ref_cached(42, 0xffff_ffff_8100_0010, &mut cache)
        .expect("global mapping");
    assert_eq!(global.path, "[kernel.kallsyms]");
    assert_eq!(cache.pid, Some(42));
    assert_eq!(cache.pid_index, None);
    assert_eq!(cache.global_index, Some(1));
}

#[test]
fn cached_lookup_clears_stale_pid_mapping_after_miss() {
    let mut table = MmapTable::default();
    table.insert_mmap(mapping(7, 0x1000, 0x100, 0, "/app"));

    let mut cache = MappingResolveCache::default();
    assert!(table.has_mapping_for_pid_cached(7, 0x1010, &mut cache));
    assert_eq!(cache.pid_index, Some(0));

    assert!(!table.has_mapping_for_pid_cached(7, 0x5000, &mut cache));
    assert_eq!(cache.pid_index, None);
}

#[test]
fn a_mapping_in_the_middle_leaves_both_ends() {
    let mut table = MmapTable::default();
    table.insert_mmap(mapping(7, 0x1000, 0x3000, 0, "/outer"));
    table.insert_mmap(mapping(7, 0x2000, 0x1000, 0, "/inner"));

    let before = table.resolve(7, 0x1fff).expect("front");
    assert_eq!((before.path.as_str(), before.relative_address), ("/outer", 0xfff));
    let middle = table.resolve(7, 0x2010).expect("middle");
    assert_eq!((middle.path.as_str(), middle.relative_address), ("/inner", 0x10));
    let after = table.resolve(7, 0x3010).expect("back");
    assert_eq!((after.path.as_str(), after.relative_address), ("/outer", 0x2010));
    assert!(table.resolve(7, 0x4000).is_none());
    assert!(table.resolve(8, 0x1000).is_none());
}

#[test]
fn a_child_process_finds_what_its_parent_finds() {
    let mut table = MmapTable::default();
    table.insert_mmap(mapping(7, 0x1000, 0x1000, 0x200, "/app"));
    table.insert_mmap(mapping(8, 0x9000, 0x1000, 0, "/stale"));
    table.clone_pid_mappings(7, 8);

    let parent = table.resolve(7, 0x1010).expect("parent");
    let child = table.resolve(8, 0x1010).expect("child");
    assert_eq!(parent, child);
    assert_eq!(child.relative_address, 0x210);
    assert!(table.resolve(8, 0x9010).is_none());
    assert!(table.has_mappings_for_pid(8));

    table.clone_pid_mappings(7, 7);
    assert!(table.resolve(7, 0x1010).is_some());
}

#[test]
fn one_file_is_one_symbol_source() {
    let mut table = MmapTable::default();
    table.insert_mmap(mapping(7, 0x1000, 0x1000, 0, "/app"));
    table.insert_mmap(mapping(7, 0x4000, 0x1000, 0, "/lib.so"));
    table.insert_mmap(mapping(9, 0x8000, 0x1000, 0, "/app"));

    let first = table.resolve_ref(7, 0x1000).expect("app").symbol_source_id;
    let second = table.resolve_ref(7, 0x4000).expect("library").symbol_source_id;
    let third = table.resolve_ref(9, 0x8000).expect("app again").symbol_source_id;
    assert_ne!(first, second);
    assert_eq!(first, third);
}
