use pyroclast::perfdata::analysis::analyze_perfdata;
use pyroclast::perfdata::build_id::{
    build_id_events_from_perfdata, build_id_hex, parse_build_id_events,
};
use pyroclast::perfdata::features::{
    header_build_ids_by_filename, hex_build_id_bytes, parse_header_arch,
};
use pyroclast::perfdata::fold::{
    fold_perfdata_callchains, fold_perfdata_callchains_with_options,
    fold_perfdata_callchains_with_symbols, fold_perfdata_rounds, summarize_perfdata, FoldOptions,
    FoldStream,
};
use pyroclast::perfdata::header::parse_header;
use pyroclast::perfdata::opening::header_build_ids_by_filename_from_file;
use pyroclast::perfdata::records::iter_records;
use pyroclast::perfdata::script::write_inferno_perf_script;
use pyroclast::perfdata::unwinding::ObjectStore;
use pyroclast::reports::render_perfdata_analysis;
use pyroclast::summary::threads::summarize_folded_stacks;
use pyroclast::symbols::{ResolvedSymbolFrames, SymbolTable};

const SAMPLE_TYPE: u64 = 0x1 | 0x2 | 0x4 | 0x20 | 0x100;

fn put_u32(bytes: &mut Vec<u8>, value: u32) {
    bytes.extend(value.to_le_bytes());
}

fn put_u64(bytes: &mut Vec<u8>, value: u64) {
    bytes.extend(value.to_le_bytes());
}

fn record(kind: u32, misc: u16, payload: &[u8]) -> Vec<u8> {
    let mut bytes = Vec::new();
    put_u32(&mut bytes, kind);
    bytes.extend(misc.to_le_bytes());
    bytes.extend(((payload.len() + 8) as u16).to_le_bytes());
    bytes.extend(payload);
    bytes
}

fn padded(text: &str) -> Vec<u8> {
    let mut bytes = text.as_bytes().to_vec();
    bytes.resize((text.len() + 1).div_ceil(8) * 8, 0);
    bytes
}

fn comm(pid: u32, tid: u32, name: &str) -> Vec<u8> {
    let mut payload = Vec::new();
    put_u32(&mut payload, pid);
    put_u32(&mut payload, tid);
    payload.extend(padded(name));
    record(3, 0, &payload)
}

fn mmap(pid: u32, start: u64, len: u64, pgoff: u64, path: &str) -> Vec<u8> {
    let mut payload = Vec::new();
    put_u32(&mut payload, pid);
    put_u32(&mut payload, pid);
    put_u64(&mut payload, start);
    put_u64(&mut payload, len);
    put_u64(&mut payload, pgoff);
    payload.extend(padded(path));
    record(1, 0, &payload)
}

// What SAMPLE_TYPE asks for: the address, the thread, the time, the period and the callchain.
fn sample(tid: u32, time: u64, period: u64, frames: &[u64]) -> Vec<u8> {
    let mut payload = Vec::new();
    put_u64(&mut payload, frames.first().copied().unwrap_or(0));
    put_u32(&mut payload, 11);
    put_u32(&mut payload, tid);
    put_u64(&mut payload, time);
    put_u64(&mut payload, period);
    put_u64(&mut payload, frames.len() as u64 + 1);
    put_u64(&mut payload, (-512_i64) as u64);
    for frame in frames {
        put_u64(&mut payload, *frame);
    }
    record(9, 2, &payload)
}

fn finished_round() -> Vec<u8> {
    record(68, 0, &[])
}

fn recording_with_features(records: &[Vec<u8>], features: &[(u16, Vec<u8>)]) -> Vec<u8> {
    let attr_len: usize = 128;
    let attr_section: usize = attr_len + 16;
    let data: Vec<u8> = records.concat();
    let attr_offset: usize = 104;
    let data_offset: usize = attr_offset + attr_section;
    let mut bytes = b"PERFILE2".to_vec();
    put_u64(&mut bytes, 104);
    put_u64(&mut bytes, attr_section as u64);
    put_u64(&mut bytes, attr_offset as u64);
    put_u64(&mut bytes, attr_section as u64);
    put_u64(&mut bytes, data_offset as u64);
    put_u64(&mut bytes, data.len() as u64);
    put_u64(&mut bytes, 0);
    put_u64(&mut bytes, 0);
    let mut bits = [0_u64; 4];
    for (feature, _) in features {
        bits[*feature as usize / 64] |= 1 << (*feature % 64);
    }
    for word in bits {
        put_u64(&mut bytes, word);
    }
    let mut attr = Vec::new();
    put_u32(&mut attr, 1);
    put_u32(&mut attr, attr_len as u32);
    put_u64(&mut attr, 0);
    put_u64(&mut attr, 4000);
    put_u64(&mut attr, SAMPLE_TYPE);
    attr.resize(attr_len, 0);
    bytes.extend(attr);
    put_u64(&mut bytes, 0);
    put_u64(&mut bytes, 0);
    bytes.extend(data);
    let mut place: u64 = bytes.len() as u64 + 16 * features.len() as u64;
    for (_, payload) in features {
        put_u64(&mut bytes, place);
        put_u64(&mut bytes, payload.len() as u64);
        place += payload.len() as u64;
    }
    for (_, payload) in features {
        bytes.extend(payload);
    }
    bytes
}

fn recording(records: &[Vec<u8>]) -> Vec<u8> {
    recording_with_features(records, &[])
}

fn demo() -> Vec<u8> {
    recording(&[
        comm(11, 11, "demo app"),
        mmap(11, 0x1000, 0x1000, 0, "/bin/demo"),
        mmap(11, 0x4000, 0x1000, 0, "/lib/libc.so.6"),
        sample(11, 30, 7, &[0x4010, 0x1020]),
        sample(11, 10, 5, &[0x1010]),
        finished_round(),
        sample(11, 40, 2, &[0x4010, 0x1020]),
    ])
}

#[test]
fn a_recording_is_folded_by_samples_or_by_periods() {
    let objects = ObjectStore::new();
    let folded = fold_perfdata_callchains(&demo(), &objects).expect("fold");
    assert_eq!(
        folded,
        "demo_app;[demo] 1\ndemo_app;[demo];[libc.so.6] 2\n"
    );
    let options = FoldOptions { count_periods: true, ..FoldOptions::default() };
    let folded = fold_perfdata_callchains_with_options(&demo(), options, &objects).expect("fold");
    assert_eq!(
        folded,
        "demo_app;[demo] 5\ndemo_app;[demo];[libc.so.6] 9\n"
    );
    assert_eq!(
        fold_perfdata_rounds(&demo(), options, &objects, None).expect("rounds"),
        folded
    );
    let summary = summarize_folded_stacks(&folded);
    assert_eq!(summary.total_count, 14);
    assert_eq!(summary.folded_lines, 2);
    assert_eq!(summary.top_stacks[0].stack, "demo_app;[demo];[libc.so.6]");
}

#[test]
fn symbols_take_the_place_of_file_names() {
    let objects = ObjectStore::new();
    let options = FoldOptions { count_periods: true, inline: false };
    let bytes = demo();
    let mut stream = FoldStream::open(&bytes).expect("open");
    while !stream.is_done() {
        stream.step(&bytes, options, &objects).expect("step");
    }
    stream.flush(options, &objects).expect("flush");
    let mut symbols = SymbolTable::new();
    let table = stream.gathered().mmap_table();
    for (ip, name) in [(0x4010, "memcpy+0x10"), (0x1020, "main+0x20"), (0x1010, "start")] {
        let mapping = table.resolve_ref(11, ip).expect("mapping");
        symbols.insert(
            mapping.symbol_source_id,
            mapping.relative_address,
            true,
            ResolvedSymbolFrames { frames: vec![name.to_string()], has_base_symbol: true },
        );
    }
    let folded =
        fold_perfdata_callchains_with_symbols(&bytes, options, &objects, &symbols).expect("fold");
    assert_eq!(folded, "demo_app;main;memcpy 9\ndemo_app;start 5\n");
    let script =
        write_inferno_perf_script(&bytes, options, &objects, Some(&symbols)).expect("script");
    assert!(script.contains("memcpy+0x10 (/lib/libc.so.6)"), "{script}");
    assert!(script.starts_with("demo app"), "{script}");
}

#[test]
fn records_are_taken_in_the_order_of_their_times() {
    let objects = ObjectStore::new();
    let script =
        write_inferno_perf_script(&demo(), FoldOptions::default(), &objects, None).expect("script");
    let first = script.find("1010").expect("first sample");
    let second = script.find("4010").expect("second sample");
    assert!(first < second, "{script}");
}

#[test]
fn a_recording_is_summarized_and_analyzed() {
    let summary = summarize_perfdata(&demo()).expect("summary");
    assert_eq!(summary.record_count(9), 3);
    assert_eq!(summary.record_count(1), 2);
    assert_eq!(summary.record_count(12), 0);
    let analysis = analyze_perfdata(&demo(), 10).expect("analysis");
    assert_eq!(analysis.total_samples, 3);
    assert_eq!(analysis.weighted_samples, 14);
    let text = render_perfdata_analysis(&analysis);
    assert!(text.starts_with("records: 7\nsamples: 3\nweighted samples: 14\nlost records: 0\n\nthreads\n        14          3      11  demo app\n\ntop leaf ips\n"), "{text}");
    assert!(text.contains("\ntop edges\n         9          2  "), "{text}");
}

#[test]
fn records_tile_the_data() {
    let bytes = demo();
    let header = parse_header(&bytes).expect("header");
    let records = iter_records(&bytes, header).expect("records");
    assert_eq!(records.len(), 7);
    let total: usize = records.iter().map(|record| record.payload.len() + 8).sum();
    assert_eq!(total as u64, header.data_size);
}

#[test]
fn a_child_process_is_folded_with_the_mappings_of_its_parent() {
    let mut fork = Vec::new();
    for value in [12, 11, 12, 11] {
        put_u32(&mut fork, value);
    }
    put_u64(&mut fork, 5);
    let mut child_sample = sample(12, 20, 1, &[0x1010]);
    child_sample[16..20].copy_from_slice(&12_u32.to_le_bytes());
    let bytes = recording(&[
        comm(11, 11, "demo"),
        mmap(11, 0x1000, 0x1000, 0, "/bin/demo"),
        record(7, 0, &fork),
        child_sample,
    ]);
    let folded = fold_perfdata_callchains(&bytes, &ObjectStore::new()).expect("fold");
    assert!(folded.ends_with(";[demo] 1\n"), "{folded}");
}

#[test]
fn broken_recordings_are_told() {
    let objects = ObjectStore::new();
    assert!(fold_perfdata_callchains(b"", &objects).is_err());
    let mut wrong = demo();
    wrong[0] = b'X';
    assert!(parse_header(&wrong).is_err());
    let mut cut = demo();
    cut.truncate(200);
    assert!(fold_perfdata_callchains(&cut, &objects).is_err());
    let mut short = record(9, 2, &[]);
    short[6..8].copy_from_slice(&4_u16.to_le_bytes());
    let error = fold_perfdata_callchains(&recording(&[short]), &objects).unwrap_err();
    assert!(!error.is_empty());
}

#[test]
fn features_name_the_architecture_and_the_build_ids() {
    let mut arch = Vec::new();
    put_u32(&mut arch, 64);
    let mut name = b"aarch64".to_vec();
    name.resize(64, 0);
    arch.extend(name);
    let mut build_id = Vec::new();
    put_u32(&mut build_id, u32::MAX);
    let mut id = (1_u8..=20).collect::<Vec<_>>();
    id.resize(24, 0);
    build_id.extend(id);
    build_id.extend(padded("/bin/demo"));
    let event = record(67, 0, &build_id);
    let bytes = recording_with_features(&[comm(11, 11, "demo")], &[(2, event), (6, arch)]);
    let header = parse_header(&bytes).expect("header");
    assert_eq!(
        parse_header_arch(&bytes, &header).expect("arch").as_deref(),
        Some("aarch64")
    );
    let events = build_id_events_from_perfdata(&bytes).expect("build ids");
    assert_eq!(events.len(), 1);
    assert_eq!(events[0].filename, "/bin/demo");
    assert!(events[0].build_id.starts_with("0102030405"));
}

#[test]
fn build_ids_survive_their_hexadecimal_text() {
    let bytes = [0x00, 0x9f, 0xa0, 0xff];
    assert_eq!(build_id_hex(&bytes), "009fa0ff");
    assert_eq!(hex_build_id_bytes("009fa0ff").expect("bytes"), bytes);
    assert!(hex_build_id_bytes("0g").is_err());
    assert!(hex_build_id_bytes("012").is_err());
}

// A sample whose user callchain comes later, under a cookie.
fn put_off_sample(tid: u32, time: u64, cookie: u64) -> Vec<u8> {
    sample(tid, time, 1, &[(-640_i64) as u64, cookie])
}

fn deferred(cookie: u64, ips: &[u64]) -> Vec<u8> {
    let mut payload = Vec::new();
    put_u64(&mut payload, cookie);
    put_u64(&mut payload, ips.len() as u64);
    for ip in ips {
        put_u64(&mut payload, *ip);
    }
    record(22, 0, &payload)
}

fn deferring(last: &[Vec<u8>]) -> Vec<u8> {
    let mut records = vec![
        comm(11, 11, "demo"),
        mmap(11, 0x1000, 0x1000, 0, "/bin/demo"),
        mmap(11, 0x4000, 0x1000, 0, "/lib/libc.so.6"),
        put_off_sample(11, 10, 7),
        finished_round(),
        finished_round(),
    ];
    records.extend_from_slice(last);
    recording(&records)
}

#[test]
fn a_sample_waits_for_its_callchain() {
    let objects = ObjectStore::new();
    let bytes = deferring(&[deferred(7, &[0x4010, 0x1020])]);
    let once = "demo;[demo];[libc.so.6] 1\n";
    assert_eq!(fold_perfdata_callchains(&bytes, &objects).expect("fold"), once);
    let options = FoldOptions::default();
    assert_eq!(fold_perfdata_rounds(&bytes, options, &objects, None).expect("rounds"), once);
    let again = deferring(&[deferred(7, &[0x4010, 0x1020]), deferred(7, &[0x1020])]);
    assert_eq!(fold_perfdata_callchains(&again, &objects).expect("fold"), once);
    let other = deferring(&[deferred(8, &[0x1020]), deferred(7, &[0x4010, 0x1020])]);
    assert_eq!(fold_perfdata_callchains(&other, &objects).expect("fold"), once);
}

#[test]
fn a_sample_that_waits_in_vain_is_shown_but_not_folded() {
    let objects = ObjectStore::new();
    let bytes = deferring(&[]);
    assert_eq!(fold_perfdata_callchains(&bytes, &objects).expect("fold"), "");
    let options = FoldOptions::default();
    let script = write_inferno_perf_script(&bytes, options, &objects, None).expect("script");
    assert!(script.starts_with("demo"), "{script}");
}

#[test]
fn sections_that_leave_the_address_space_are_told() {
    let mut bytes = b"PERFILE2".to_vec();
    put_u64(&mut bytes, 104);
    bytes.extend([0; 24]);
    put_u64(&mut bytes, u64::MAX);
    put_u64(&mut bytes, 1);
    bytes.extend([0; 48]);
    assert_eq!(
        parse_header(&bytes),
        Err("perf data section size overflows u64".to_string())
    );
    bytes[40..48].copy_from_slice(&(u64::MAX - 1).to_le_bytes());
    assert!(parse_header(&bytes).is_ok());
    bytes[24..32].copy_from_slice(&u64::MAX.to_le_bytes());
    bytes[32..40].copy_from_slice(&1_u64.to_le_bytes());
    assert_eq!(
        parse_header(&bytes),
        Err("perf attribute section size overflows u64".to_string())
    );
}

#[test]
fn joined_build_ids_are_listed_one_after_another() {
    let mut one = vec![7, 0, 0, 0];
    one.extend(1..=24);
    one.extend(padded("/bin/one"));
    let one = record(67, 0, &one);
    let mut two = vec![8, 0, 0, 0];
    two.extend([0xab; 24]);
    two.extend(padded("/bin/two"));
    let two = record(67, 0, &two);
    let first = parse_build_id_events(&one).expect("one");
    let second = parse_build_id_events(&two).expect("two");
    assert_eq!(second[0].build_id, "ab".repeat(20));
    assert_eq!(first[0].filename, "/bin/one");
    let all = parse_build_id_events(&[one.clone(), two].concat()).expect("both");
    assert_eq!(all, [first, second].concat());
    assert!(parse_build_id_events(&[]).expect("none").is_empty());
    assert!(parse_build_id_events(&one[..one.len() - 1]).is_err());
}

fn rounds(bytes: &[u8]) -> Result<String, String> {
    let options = FoldOptions { count_periods: false, inline: false };
    fold_perfdata_rounds(bytes, options, &ObjectStore::new(), None)
}

fn script(bytes: &[u8]) -> Result<String, String> {
    let options = FoldOptions { count_periods: false, inline: false };
    write_inferno_perf_script(bytes, options, &ObjectStore::new(), None)
}

fn named_build_id(first: u8, path: &str) -> Vec<u8> {
    let mut payload = Vec::new();
    put_u32(&mut payload, u32::MAX);
    let mut id = (first..first + 20).collect::<Vec<_>>();
    id.resize(24, 0);
    payload.extend(id);
    payload.extend(padded(path));
    record(67, 0, &payload)
}

#[test]
fn records_give_no_build_ids_to_a_file_that_is_folded_round_by_round() {
    let cut = record(67, 0, &[1, 2, 3, 4]);
    let bytes = recording(&[comm(11, 11, "demo"), sample(11, 1, 1, &[0x1010]), cut]);
    assert!(fold_perfdata_callchains(&bytes, &ObjectStore::new()).is_err());
    assert_eq!(rounds(&bytes).expect("rounds"), "demo;[unknown] 1\n");
    assert!(script(&bytes).expect("script").starts_with("demo"));

    let told = named_build_id(1, "/bin/demo");
    let kept = named_build_id(31, "/bin/demo");
    let bytes = recording_with_features(&[told], &[(2, kept)]);
    let all = header_build_ids_by_filename(&bytes).expect("all");
    assert_eq!(all.get("/bin/demo").map(|id| id[0]), Some(1));
    let header = parse_header(&bytes).expect("header");
    let listed = header_build_ids_by_filename_from_file(&bytes, &header).expect("listed");
    assert_eq!(listed.get("/bin/demo").map(|id| id[0]), Some(31));
}

fn cut_short(name: &str) -> Result<String, String> {
    Err(format!("failed to read {name}: failed to fill whole buffer"))
}

#[test]
fn files_that_end_too_early_are_told_piece_by_piece() {
    assert_eq!(rounds(b"PERFILE2"), cut_short("perf.data header"));
    let mut attrs = recording(&[comm(11, 11, "demo")]);
    attrs.truncate(200);
    assert_eq!(rounds(&attrs), cut_short("perf attr section"));
    assert_eq!(script(&attrs), cut_short("perf attr section"));

    let mut ids = recording(&[comm(11, 11, "demo")]);
    ids[232..240].copy_from_slice(&u64::MAX.to_le_bytes());
    assert_eq!(rounds(&ids), Ok(String::new()));
    assert!(fold_perfdata_callchains(&ids, &ObjectStore::new()).is_err());
    ids[240..248].copy_from_slice(&8_u64.to_le_bytes());
    assert_eq!(rounds(&ids), cut_short("perf attr id section"));

    for (feature, name) in [
        (2, "build-id feature payload"),
        (6, "arch feature payload"),
        (12, "event desc feature payload"),
    ] {
        let mut bytes = recording_with_features(&[comm(11, 11, "demo")], &[(feature, vec![0; 8])]);
        bytes.pop();
        assert_eq!(rounds(&bytes), cut_short(name));
        bytes.truncate(bytes.len() - 8);
        assert_eq!(rounds(&bytes), cut_short("perf feature table"));
    }

    let bytes = recording(&[comm(11, 11, "demo"), vec![0; 4]]);
    assert_eq!(
        rounds(&bytes),
        cut_short(&format!("perf record header at offset {}", bytes.len() - 4))
    );
    let mut data = recording(&[comm(11, 11, "demo")]);
    data.pop();
    assert_eq!(rounds(&data), Err("perf data section extends past end of file".to_string()));
}

#[test]
fn leaf_addresses_and_edges_are_listed_by_weight_and_text() {
    let bytes = recording(&[
        sample(13, 1, 5, &[0x2000, 0x10]),
        sample(12, 2, 5, &[0x1000, 0x10]),
        sample(12, 3, 1, &[0x3000, 0x10]),
        sample(14, 4, 7, &[0x4000, 0x10]),
    ]);
    let report = analyze_perfdata(&bytes, 3).expect("report");
    let ips: Vec<&str> = report.top_leaf_ips.iter().map(|entry| entry.ip.as_str()).collect();
    assert_eq!(
        ips,
        ["0x0000000000004000", "0x0000000000001000", "0x0000000000002000"]
    );
    let callees: Vec<&str> = report.top_edges.iter().map(|edge| edge.callee.as_str()).collect();
    assert_eq!(callees, ips);
    let tids: Vec<u32> = report.threads.iter().map(|thread| thread.tid).collect();
    assert_eq!(tids, [14, 12, 13]);
}
