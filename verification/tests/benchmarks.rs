use pyroclast::benchmarks::comparison::{
    compare_folded_line_receivers, read_folded_entry, FoldedComparison, Side,
};
use pyroclast::benchmarks::counts::{
    compare_folded, comparison_picture, folded_difference, parse_folded_counts, FoldedCounts,
};
use pyroclast::benchmarks::streams::{
    collapse_stream_command, finished_program, producer_result, streaming_report, CountingWriter,
    LineChannelWriter, ProducerResult, SvgHasher,
};
use pyroclast::benchmarks::{
    benchmark_fold_options, collapse_command, compare_with_inferno_collapse,
    format_benchmark_report, format_comparison_report, run_fold_benchmark,
    run_inferno_collapse_benchmark, tool_output, BenchArgs, FoldBenchmarkReport,
};
use pyroclast::perfdata::unwinding::ObjectStore;
use pyroclast::process::CommandOutput;

fn texts(values: &[&str]) -> Vec<String> {
    values.iter().map(|value| value.to_string()).collect()
}

fn output(status_code: Option<i32>, stdout: &str) -> CommandOutput {
    CommandOutput {
        status_code,
        stdout: stdout.as_bytes().to_vec(),
        stderr: Vec::new(),
    }
}

#[test]
fn counting_writer_tracks_bytes_and_lines() {
    let mut writer = CountingWriter::new(Vec::<u8>::new());
    writer.count(b"one\ntwo\nthree");

    assert_eq!(writer.counts(), (13, 2));
}

#[test]
fn compares_sorted_folded_receivers_without_buffering_all_lines() {
    let left = texts(&["a 1", "c 2"]);
    let right = texts(&["a 1", "b 3"]);

    let diff = compare_folded_line_receivers(&left, &right).unwrap();

    assert!(!diff.matches);
    assert_eq!(diff.only_pyroclast, vec!["c 2"]);
    assert_eq!(diff.only_inferno, vec!["b 3"]);
}

#[test]
fn a_comparison_asks_for_one_line_at_a_time() {
    let mut comparison = FoldedComparison::new();
    assert_eq!(comparison.wanted(), Some(Side::Pyroclast));
    comparison.feed(Some("a 1".to_string())).unwrap();
    assert_eq!(comparison.wanted(), Some(Side::Inferno));
    comparison.feed(Some("a 2".to_string())).unwrap();
    assert!(!comparison.diff.matches);
    assert_eq!(comparison.diff.only_pyroclast, vec!["a 1"]);
    assert_eq!(comparison.diff.only_inferno, vec!["a 2"]);
    assert_eq!(comparison.wanted(), Some(Side::Pyroclast));
    comparison.feed(None).unwrap();
    comparison.feed(None).unwrap();
    assert_eq!(comparison.wanted(), None);
    comparison.feed(Some("late 1".to_string())).unwrap();
    assert_eq!(comparison.diff.only_pyroclast.len(), 1);
}

#[test]
fn equal_lines_match_and_list_nothing() {
    let lines = texts(&["a;b 1", "a;c 22", "z 3"]);

    let diff = compare_folded_line_receivers(&lines, &lines).unwrap();

    assert!(diff.matches);
    assert!(diff.only_pyroclast.is_empty());
    assert!(diff.only_inferno.is_empty());
}

#[test]
fn the_listed_differences_are_bounded() {
    let left: Vec<String> = (0..1500).map(|index| format!("stack{index:04} 1")).collect();

    let diff = compare_folded_line_receivers(&left, &Vec::new()).unwrap();

    assert!(!diff.matches);
    assert_eq!(diff.only_pyroclast.len(), 1_000);
    assert_eq!(diff.only_pyroclast[999], "stack0999 1");
    assert!(diff.only_inferno.is_empty());
}

#[test]
fn unreadable_lines_are_told() {
    assert_eq!(
        read_folded_entry("nocount".to_string()).unwrap_err(),
        "folded stack line is missing count: nocount"
    );
    assert_eq!(
        read_folded_entry("a b".to_string()).unwrap_err(),
        "folded stack count is invalid: invalid digit found in string"
    );
    assert_eq!(
        read_folded_entry("a ".to_string()).unwrap_err(),
        "folded stack count is invalid: cannot parse integer from empty string"
    );
    assert_eq!(
        read_folded_entry("a 18446744073709551616".to_string()).unwrap_err(),
        "folded stack count is invalid: number too large to fit in target type"
    );
    let entry = read_folded_entry("a b +7".to_string()).unwrap();
    assert_eq!((entry.stack.as_str(), entry.count), ("a b", 7));
    assert_eq!(
        compare_folded_line_receivers(&texts(&["a 1"]), &texts(&["bad"])).unwrap_err(),
        "folded stack line is missing count: bad"
    );
}

#[test]
fn counts_of_one_stack_add_up() {
    let counts = parse_folded_counts("b 2\n\na 1\n   \nb 3\n").unwrap();

    assert_eq!(counts.entries.len(), 2);
    assert_eq!(counts.entries[0].stack, "a");
    assert_eq!(counts.entries[1].stack, "b");
    assert_eq!(counts.get("b"), 5);
    assert_eq!(counts.get("missing"), 0);
    assert_eq!(
        parse_folded_counts("a 1\nbad\n").unwrap_err(),
        "folded stack line is missing count: bad"
    );
}

#[test]
fn a_stack_that_is_missing_counts_as_zero() {
    let mut left = FoldedCounts::new();
    left.add("zero".to_string(), 0);
    left.add("one".to_string(), 1);
    let mut right = FoldedCounts::new();
    right.add("one".to_string(), 2);

    assert_eq!(folded_difference(&left, &right), vec!["one 1"]);
    assert_eq!(folded_difference(&right, &left), vec!["one 2"]);
    assert!(folded_difference(&left, &left).is_empty());
}

#[test]
fn tools_are_compared_by_counts_and_pictures() {
    let report = compare_folded(
        "a;b 1\na;c 2\n",
        output(Some(0), "a;c 2\na;b 1\n"),
        output(Some(0), "<svg/>"),
        output(Some(0), "<svg/>"),
    )
    .unwrap();
    assert!(report.matches);
    assert!(report.svg_matches);
    assert_eq!(report.pyroclast_folded_lines, 2);
    assert_eq!(report.inferno_svg_bytes, 6);
    assert_eq!(
        format_comparison_report("fold", &report),
        "fold.matches=true\nfold.svg_matches=true\nfold.pyroclast_folded_lines=2\n\
         fold.inferno_folded_lines=2\nfold.pyroclast_svg_bytes=6\nfold.inferno_svg_bytes=6\n\
         fold.only_pyroclast=0\nfold.only_inferno=0\n"
    );

    let report = compare_folded(
        "a 1\n",
        output(Some(0), "a 2\n"),
        output(Some(0), "x"),
        output(Some(0), "yy"),
    )
    .unwrap();
    assert!(!report.matches);
    assert!(!report.svg_matches);
    assert_eq!(report.only_pyroclast, vec!["a 1"]);
    assert_eq!(report.only_inferno, vec!["a 2"]);
}

#[test]
fn the_first_thing_that_went_wrong_is_told() {
    let fine = || output(Some(0), "a 1\n");
    assert_eq!(
        compare_folded("bad", output(Some(3), ""), fine(), fine()).unwrap_err(),
        "inferno-collapse-perf exited with Some(3)"
    );
    assert_eq!(
        compare_folded("bad", fine(), output(None, ""), fine()).unwrap_err(),
        "folded stack line is missing count: bad"
    );
    assert_eq!(
        compare_folded("a 1", fine(), output(None, ""), output(Some(1), "")).unwrap_err(),
        "inferno-flamegraph exited with None"
    );
    assert_eq!(
        compare_folded("a 1", fine(), fine(), output(Some(-1), "")).unwrap_err(),
        "inferno-flamegraph exited with Some(-1)"
    );
    assert_eq!(tool_output("tool", fine()).unwrap(), b"a 1\n");
}

#[test]
fn arguments_name_what_to_measure() {
    let args = BenchArgs::parse(&texts(&[
        "--perf-script",
        "out.txt",
        "first.data",
        "--symbols",
        "second.data",
        "--export-perf-script",
    ]));
    assert_eq!(args.perf_script.as_deref(), Some("out.txt"));
    assert_eq!(args.perf_data.as_deref(), Some("second.data"));
    assert_eq!(args.export_perf_script, None);
    assert!(args.symbols);
    assert_eq!(BenchArgs::parse(&Vec::new()), BenchArgs::default());
}

#[test]
fn the_other_tool_is_measured_by_what_it_wrote() {
    assert_eq!(collapse_command("x.txt").args, vec!["x.txt"]);
    assert_eq!(collapse_command("x.txt").program, "inferno-collapse-perf");
    let report =
        run_inferno_collapse_benchmark("x.txt", 2_000_000, output(Some(0), "a 1\nb 2")).unwrap();
    assert_eq!(report.folded_bytes, 7);
    assert_eq!(report.folded_lines, 2);
    assert_eq!(
        format_benchmark_report(&report),
        "input=x.txt\nelapsed_ms=2\nfolded_bytes=7\nfolded_lines=2\n"
    );
    assert_eq!(
        run_inferno_collapse_benchmark("x.txt", 0, output(Some(1), "")).unwrap_err(),
        "inferno-collapse-perf exited with Some(1)"
    );
}

#[test]
fn recordings_that_cannot_be_read_are_not_measured() {
    let objects = ObjectStore::new();
    let error = run_fold_benchmark("x", b"not a recording", &objects).unwrap_err();
    assert!(!error.is_empty());
    let fine = || output(Some(0), "");
    assert_eq!(
        compare_with_inferno_collapse(b"not a recording", &objects, fine(), fine(), fine())
            .unwrap_err(),
        error
    );
    assert!(benchmark_fold_options().count_periods);
}

#[test]
fn written_parts_count_together() {
    let mut at_once = CountingWriter::new(());
    at_once.count(b"a\nb\nc");
    let mut in_parts = CountingWriter::new(());
    in_parts.count(b"a\nb");
    in_parts.count(b"\nc");
    assert_eq!(at_once.counts(), in_parts.counts());
    assert_eq!(in_parts.into_inner_and_counts(), ((), (5, 2)));
}

#[test]
fn lines_are_handed_out_when_they_end() {
    let mut writer = LineChannelWriter::new();
    let ended = writer.write(&b"one\ntw".to_vec());
    assert_eq!(ended.lines, vec!["one"]);
    assert_eq!(ended.error, None);
    let ended = writer.write(&b"o\n\nrest".to_vec());
    assert_eq!(ended.lines, vec!["two", ""]);
    assert_eq!(writer.buffer, b"rest");

    let mut writer = LineChannelWriter::new();
    let ended = writer.write(&b"good\n\xff\nmore\n".to_vec());
    assert_eq!(ended.lines, vec!["good"]);
    assert_eq!(
        ended.error.as_deref(),
        Some("invalid utf-8 sequence of 1 bytes from index 0")
    );
    assert_eq!(writer.buffer, b"good\n\xff\nmore\n");
}

#[test]
fn pictures_are_compared_by_their_hashes() {
    let mut first = SvgHasher::new();
    first.update(b"<svg");
    first.update(b"/>");
    let mut second = SvgHasher::new();
    second.update(b"<svg/>");
    assert_eq!(first.finish(), second.finish());
    assert_eq!(first.finish().bytes, 6);
    assert_eq!(first.finish().hash, blake3::hash(b"<svg/>").as_bytes().to_vec());

    let mut other = SvgHasher::new();
    other.update(b"<svg></svg>");
    let report = |folded_lines: usize| FoldBenchmarkReport {
        input: "x".to_string(),
        elapsed_nanos: 1,
        folded_bytes: 3,
        folded_lines,
    };
    let diff = compare_folded_line_receivers(&texts(&["a 1"]), &texts(&["a 1"])).unwrap();
    let compared = streaming_report(
        ProducerResult { report: report(1), svg: first.finish() },
        ProducerResult { report: report(2), svg: other.finish() },
        diff,
    );
    assert!(!compared.comparison.matches);
    assert!(!compared.comparison.svg_matches);
    assert_eq!(compared.comparison.pyroclast_folded_lines, 1);
    assert_eq!(compared.comparison.inferno_folded_lines, 2);
    assert_eq!(compared.comparison.inferno_svg_bytes, 11);
    assert_eq!(compared.inferno_fold, report(2));
}

#[test]
fn a_picture_is_made_of_the_folded_stacks() {
    let command = comparison_picture("a 1\n");
    assert_eq!(command.program, "inferno-flamegraph");
    assert_eq!(command.stdin, Some(b"a 1\n".to_vec()));
    assert!(command.args.iter().any(|arg| arg.contains("Pyroclast comparison")));
}

#[test]
fn a_stream_is_collapsed_from_a_file_or_from_what_is_written() {
    let read = collapse_stream_command(Some("out.script"));
    assert_eq!(read.program, "inferno-collapse-perf");
    assert_eq!(read.args, vec!["out.script"]);
    assert!(collapse_stream_command(None).args.is_empty());
}

#[test]
fn a_failed_program_tells_its_status_and_errors() {
    assert_eq!(finished_program("tool", true, "exit status: 0", b"noise"), Ok(()));
    assert_eq!(
        finished_program("tool", false, "exit status: 2", b"bad \xff input"),
        Err("tool exited with exit status: 2: bad \u{fffd} input".to_string())
    );
}

#[test]
fn a_measured_stream_names_what_was_read() {
    let digest = SvgHasher::new().finish();
    let own = producer_result("perf.data", None, 7, (13, 2), digest.clone());
    assert_eq!(own.report.input, "perf.data");
    assert_eq!(own.report.elapsed_nanos, 7);
    assert_eq!((own.report.folded_bytes, own.report.folded_lines), (13, 2));
    assert_eq!(own.svg, digest);
    let other = producer_result("perf.data", Some("out.script"), 7, (13, 2), digest);
    assert_eq!(other.report.input, "out.script");
}
