use pyroclast::cli::{
    CliCommand, FlamegraphArgs, OffcpuMethod, ParsePerfCommand, ParsePerfSummaryArgs,
    PerfCallGraph, PerfEvent, ProfileArgs, ProfileKind, RunArgs, SymbolizerKind,
};
use pyroclast::flamegraph::analysis::{
    categorize_flamegraph_frame, category_summary, diff_flamegraphs, parse_flamegraph_entries,
    rank_entries, search_entries, syscall_breakdown, top_entries, FlamegraphEntry,
};
use pyroclast::flamegraph::build_inferno_flamegraph_command;
use pyroclast::folded::{
    append_inferno_perf_raw_function, escape_frame, render_address_stack, render_folded_stack,
    render_inferno_perf_folded_stack, render_inferno_perf_raw_stack,
};
use pyroclast::output::{
    after_stderr, after_stdout, write_cli_output, write_goes_on, CliOutput, OutputStep,
    WriteOutcome,
};
use pyroclast::parsers::bpftrace::collapse_offcpu;
use pyroclast::parsers::heaptrack::{parse_heaptrack_summary, render_heaptrack_summary_text};
use pyroclast::parsers::strace::{
    parse_strace_summary, parse_syscall_lines, render_strace_summary_text,
};
use pyroclast::parsers::xctrace::parse_cpu_rows;
use pyroclast::platform::{linux_thread_ids_from_proc, task_directory};
use pyroclast::precommit::{checks, shell_command};
use pyroclast::ranking::{group_by_name, largest_first};
use pyroclast::reports::{
    after_stacks, after_summary, render_flamegraph_categories, render_flamegraph_deltas,
    render_flamegraph_entries, summary_path, DeltaText, SummaryStep,
};
use pyroclast::summary::threads::{render_folded_stack_summary_text, summarize_folded_stacks};
use pyroclast::tables::NamedBytes;
use pyroclast::text::{
    contains_text, lines_of, parse_number, push_decimal, push_hexadecimal, split_text, trim,
};
use pyroclast::workload::{churn_allocations, mix, mix_twice, recurse, total_work};

fn chars(text: &str) -> Vec<char> {
    text.chars().collect()
}

#[test]
fn frames_are_escaped() {
    assert_eq!(escape_frame("a;b\r\nc"), "a\\;b  c");
    assert_eq!(render_folded_stack(&["main", "a;b"], 3), "main;a\\;b 3");
    assert_eq!(render_folded_stack(&["main"], 3), "main 3");
    assert_eq!(render_address_stack(&[0x10, 0xff], 2), "0x10;0xff 2");
}

#[test]
fn raw_functions_are_tidied() {
    let mut rendered = String::new();
    append_inferno_perf_raw_function(&mut rendered, "handler(int)+0x2a");
    assert_eq!(rendered, "handler");
    assert_eq!(
        render_inferno_perf_raw_stack(&["main+0x1", "<A as B>::run+0x2"]),
        "main;<A as B>::run"
    );
    assert_eq!(render_inferno_perf_folded_stack(&["main", "leaf"], 4), "main;leaf 4");
    let mut rendered = String::new();
    append_inferno_perf_raw_function(&mut rendered, "_ZN4core3fmt17h0123456789abcdefE");
    assert!(!rendered.is_empty());
}

#[test]
fn folded_stacks_are_summarized_by_count_and_name() {
    let summary = summarize_folded_stacks("b 2\na 2\nno count\nc 5\n");
    assert_eq!(summary.folded_lines, 4);
    assert_eq!(summary.total_count, 9);
    let stacks: Vec<&str> = summary.top_stacks.iter().map(|top| top.stack.as_str()).collect();
    assert_eq!(stacks, ["c", "a", "b"]);
    assert_eq!(
        render_folded_stack_summary_text(&summary),
        "folded lines: 4\nfolded bytes: 21\ntotal count: 9\n"
    );
}

#[test]
fn rendered_lines_give_their_stack_and_count_back() {
    for (stack, count) in [("main;a b", 7), ("", 0), ("x 1", u64::MAX)] {
        let line = format!("{} {count}", stack);
        let summary = summarize_folded_stacks(&line);
        assert_eq!(summary.top_stacks.len(), 1);
        assert_eq!(summary.top_stacks[0].stack, stack);
        assert_eq!(summary.top_stacks[0].count, count);
    }
}

#[test]
fn waiting_stacks_are_collapsed() {
    let printed = "noise\n@offcpu[\n  0 __schedule+5\n  1 futex_wait (libc)\n  2 ([unknown])\n]: 7\n@offcpu[\n]: 3\n";
    assert_eq!(collapse_offcpu(printed), vec!["futex_wait;__schedule 7"]);
    assert!(collapse_offcpu("").is_empty());
}

#[test]
fn heaps_are_summarized() {
    let summary = parse_heaptrack_summary("total allocations: 12 x\n peak heap memory consumption: 3K\n");
    assert_eq!(summary.total_allocations, Some(12));
    assert_eq!(summary.peak_heap_bytes, None);
    assert_eq!(
        render_heaptrack_summary_text(&summary),
        "total allocations: 12\npeak heap bytes: unknown\n"
    );
}

#[test]
fn syscalls_are_read_with_their_durations() {
    let calls = parse_syscall_lines("12 read(3, \"<x>\", 4) = 4 <0.000012>\nno duration\n+++ exited <0.5>\n");
    assert_eq!(calls.len(), 2);
    assert_eq!(calls[0].syscall.as_deref(), Some("read"));
    assert_eq!(calls[0].duration, "0.000012");
    assert_eq!(calls[1].syscall, None);
    assert_eq!(calls[1].duration, "0.5");
}

#[test]
fn xml_rows_are_read() {
    let rows = parse_cpu_rows(
        "<row><symbol> main </symbol><weight>1.5</weight></row><row><symbol>x</symbol></row>",
    );
    assert_eq!(rows.len(), 1);
    assert_eq!(rows[0].symbol, "main");
    assert_eq!(rows[0].weight, "1.5");
}

#[test]
fn pictures_are_read() {
    let svg = "<title>all (10 samples, 100%)</title><title>__x64_sys_read (1,200 samples, 12.50%)</title><title>Main Loop (3 samples, 2%)</title>";
    let entries = parse_flamegraph_entries(svg);
    assert_eq!(entries.len(), 2);
    assert_eq!(entries[0].name, "__x64_sys_read");
    assert_eq!(entries[0].samples, 1200);
    assert_eq!(entries[0].percent, "12.50");
    let found = search_entries(&entries, "MAIN");
    assert_eq!(found.len(), 1);
    assert_eq!(found[0].name, "Main Loop");
    let calls = syscall_breakdown(&entries);
    assert_eq!(calls.len(), 1);
    assert_eq!(calls[0].name, "read");
    assert_eq!(categorize_flamegraph_frame("Tokio::park"), "Tokio Runtime");
    assert_eq!(categorize_flamegraph_frame("__x64_sys_getpid"), "Syscall");
    assert_eq!(categorize_flamegraph_frame("main"), "Other");
    assert_eq!(categorize_flamegraph_frame("FOYER"), "Cache/Foyer");
    let command = build_inferno_flamegraph_command("A title");
    assert_eq!(command.program, "inferno-flamegraph");
    assert!(command.args.iter().any(|arg| arg.contains("A title")));
}

#[test]
fn threads_are_listed_in_order() {
    assert_eq!(task_directory("/proc", 12), "/proc/12/task");
    let names: Vec<String> = ["12", "x", "3", "99999999999"].iter().map(|s| s.to_string()).collect();
    assert_eq!(linux_thread_ids_from_proc(&names, "/proc/3/task").unwrap(), vec![3, 12]);
    assert_eq!(
        linux_thread_ids_from_proc(&Vec::new(), "/proc/3/task").unwrap_err(),
        "no thread ids found in /proc/3/task"
    );
}

#[test]
fn output_is_written_to_both_streams() {
    let output = CliOutput { stdout: "é".to_string(), stderr: "!".to_string() };
    let stderr = OutputStep::WriteStderr(b"!".to_vec());
    assert_eq!(write_cli_output(&output), OutputStep::WriteStdout("é".as_bytes().to_vec()));
    assert_eq!(after_stdout(&output, WriteOutcome::Written), stderr);
    assert_eq!(after_stdout(&output, WriteOutcome::BrokenPipe), stderr);
    assert_eq!(after_stdout(&output, WriteOutcome::Failed), OutputStep::Fail);
    assert_eq!(after_stderr(WriteOutcome::Written), OutputStep::Done);
    assert_eq!(after_stderr(WriteOutcome::BrokenPipe), OutputStep::Done);
    assert_eq!(after_stderr(WriteOutcome::Failed), OutputStep::Fail);
    assert_eq!(CliOutput::default().stdout, "");
    assert!(write_goes_on(WriteOutcome::BrokenPipe));
    assert!(!write_goes_on(WriteOutcome::Failed));
}

fn run_args() -> RunArgs {
    RunArgs {
        out: None,
        name: Some("n".to_string()),
        json: true,
        symbols: true,
        symbolizer: SymbolizerKind::Addr2line,
        frequency: 99,
        event: PerfEvent::TaskClock,
        call_graph: PerfCallGraph::Fp,
        pid: Some(1),
        tids: vec![2],
        threads_of_pid: Some(3),
        duration_secs: 4,
        command: vec!["demo".to_string()],
    }
}

#[test]
fn commands_ask_for_profiles() {
    let invocation = CliCommand::Memory(run_args()).profile_invocation().expect("profile");
    assert_eq!(invocation.kind, ProfileKind::Memory);
    assert_eq!(invocation.tids, vec![2]);
    assert_eq!(invocation.frequency, 99);
    let named = CliCommand::Profile(ProfileArgs { kind: ProfileKind::Offcpu, run: run_args() });
    assert_eq!(named.profile_invocation().expect("profile").kind, ProfileKind::Offcpu);
    assert_eq!(CliCommand::Plumbing.profile_invocation(), None);
    assert_eq!(PerfEvent::TaskClock.text(), "task-clock");
    assert_eq!(PerfCallGraph::Dwarf.text(), "dwarf,64000");
    assert_eq!(OffcpuMethod::PerfCpuClock.summary_label(), "perf_cpu_clock");
}

#[test]
fn file_commands_have_defaults() {
    let args = FlamegraphArgs {
        input: "in".to_string(),
        output: None,
        title: "t".to_string(),
        symbols: false,
        symbolizer: SymbolizerKind::RustAddr2line,
    };
    assert_eq!(args.output_path(), "flamegraph.svg");
    let ParsePerfCommand::Summary(parse) = ParsePerfCommand::Summary(ParsePerfSummaryArgs {
        input: "x".to_string(),
        limit: 5,
        json: true,
    });
    assert_eq!(parse.analyze_args().limit, 5);
    assert_eq!(summary_path("run", true), "run/summary.json");
    assert_eq!(summary_path("run", false), "run/summary.txt");
}

#[test]
fn checks_are_shown_as_one_line() {
    let checks = checks();
    assert_eq!(checks.len(), 4);
    assert_eq!(shell_command(&checks[0]), "cargo fmt --check");
    assert_eq!(
        shell_command(&checks[1]),
        "cargo clippy --all-targets -- -D warnings -W clippy::pedantic"
    );
    assert_eq!(shell_command(&checks[3]), "nix flake check --no-build");
}

#[test]
fn the_workload_mixes_numbers() {
    let expected = 5_u64
        .wrapping_mul(0x9e37_79b9_7f4a_7c15)
        .rotate_left(31)
        .wrapping_add(0x517c_c1b7_2722_0a95);
    assert_eq!(mix(5), expected);
    assert_eq!(mix_twice(5), mix(mix(5)));
    let mut bottom = 9_u64;
    for index in 0..512 {
        bottom = mix_twice(bottom ^ index);
    }
    assert_eq!(recurse(0, 9), bottom);
    let mut seed = 9_u64;
    seed = mix(seed);
    assert_eq!(recurse(1, 9), recurse(0, seed).wrapping_add(1));
    let mut acc = 0_u64;
    for round in 0..2_usize {
        let mut values: Vec<u64> = (0..2048).map(|i| mix(i ^ round as u64)).collect();
        values.sort_unstable();
        let text = format!("round-{round}-{}", values[values.len() / 2]);
        acc = acc.wrapping_add(text.len() as u64).wrapping_add(values[0]);
    }
    assert_eq!(churn_allocations(2), acc);
    assert_eq!(
        total_work(1),
        recurse(24, 0).wrapping_add(churn_allocations(8))
    );
}

#[test]
fn texts_are_taken_apart() {
    assert_eq!(parse_number(&chars("+12")), Some(12));
    assert_eq!(parse_number(&chars("")), None);
    assert_eq!(parse_number(&chars("+")), None);
    assert_eq!(parse_number(&chars("-1")), None);
    assert_eq!(parse_number(&chars("18446744073709551615")), Some(u64::MAX));
    assert_eq!(parse_number(&chars("18446744073709551616")), None);
    assert_eq!(trim(&chars(" \t x y\n")), chars("x y"));
    let lines: Vec<String> =
        lines_of("a\r\nb\n\nc").into_iter().map(|line| line.into_iter().collect()).collect();
    assert_eq!(lines, "a\r\nb\n\nc".lines().collect::<Vec<_>>());
    let pieces: Vec<String> =
        split_text(&chars("a, b,, c"), ", ").into_iter().map(|p| p.into_iter().collect()).collect();
    assert_eq!(pieces, "a, b,, c".split(", ").collect::<Vec<_>>());
    assert!(contains_text(&chars("abc"), "bc"));
    assert!(!contains_text(&chars("abc"), "cb"));
    let mut out = String::new();
    push_decimal(&mut out, u128::MAX);
    assert_eq!(out, u128::MAX.to_string());
    let mut out = String::new();
    push_hexadecimal(&mut out, 0xab, 4);
    assert_eq!(out, "00ab");
}

#[test]
fn names_stand_for_bytes() {
    let mut table = NamedBytes::new();
    table.insert("a", vec![1]);
    table.insert("a", vec![2]);
    table.insert("b", vec![3]);
    assert_eq!(table.get("a"), Some(&vec![2]));
    assert_eq!(table.get("b"), Some(&vec![3]));
    assert_eq!(table.get("c"), None);
}

fn entry(name: &str, samples: u64, percent: &str) -> FlamegraphEntry {
    FlamegraphEntry { name: name.to_string(), samples, percent: percent.to_string() }
}

// The place of a number in the order of all numbers.
fn rank_of(number: f64) -> i64 {
    let bits = number.to_bits() as i64;
    bits ^ (((bits >> 63) as u64) >> 1) as i64
}

fn ranks_of(entries: &[FlamegraphEntry], least: f64) -> Vec<Option<i64>> {
    entries
        .iter()
        .map(|entry| entry.percent.parse::<f64>().ok().filter(|it| *it >= least).map(rank_of))
        .collect()
}

fn names_of(entries: &[FlamegraphEntry]) -> Vec<&str> {
    entries.iter().map(|entry| entry.name.as_str()).collect()
}

#[test]
fn the_largest_entries_come_first() {
    let entries = vec![
        entry("b", 1, "2.5"),
        entry("odd", 1, "x"),
        entry("a", 2, "2.5"),
        entry("c", 3, "10"),
        entry("a", 4, "2.5"),
        entry("minus", 5, "-1"),
    ];
    let ranked = rank_entries(&entries, &ranks_of(&entries, f64::NEG_INFINITY));
    assert_eq!(names_of(&ranked), ["c", "a", "a", "b", "minus"]);
    assert_eq!(ranked[1].samples, 2);
    assert_eq!(ranked[2].samples, 4);
    let top = top_entries(&entries, &ranks_of(&entries, 2.5), 3);
    assert_eq!(names_of(&top), ["c", "a", "a"]);
    let all = top_entries(&entries, &ranks_of(&entries, 2.5), 10);
    assert_eq!(names_of(&all), ["c", "a", "a", "b"]);
    assert!(top_entries(&entries, &ranks_of(&entries, 50.0), 10).is_empty());
}

#[test]
fn equal_ranks_go_by_name_and_place() {
    let names: Vec<String> = ["b", "\u{e9}", "B", "b"].iter().map(|it| it.to_string()).collect();
    assert_eq!(largest_first(&names, &[1, 1, 1, 1]), [2, 0, 3, 1]);
    assert_eq!(largest_first(&names, &[-1, 7, 0, i64::MAX]), [3, 1, 2, 0]);
    assert!(largest_first(&[], &[]).is_empty());
}

#[test]
fn names_are_grouped() {
    let names = [Some("b".to_string()), None, Some("a".to_string()), Some("b".to_string())];
    let groups = group_by_name(&names);
    assert_eq!(groups.len(), 2);
    assert_eq!(groups[0].name, "a");
    assert_eq!(groups[0].members, [2]);
    assert_eq!(groups[1].name, "b");
    assert_eq!(groups[1].members, [0, 3]);
    assert!(group_by_name(&[None]).is_empty());
}

#[test]
fn categories_hold_their_entries() {
    let entries = [
        entry("tokio::park", 1, "1"),
        entry("main", 2, "2"),
        entry("futex_wait", 3, "3"),
        entry("TOKIO", 4, "4"),
    ];
    let categories = category_summary(&entries);
    assert_eq!(categories.len(), 3);
    assert_eq!(categories[0].name, "Locks/Futex");
    assert_eq!(categories[0].members, [2]);
    assert_eq!(categories[1].name, "Other");
    assert_eq!(categories[1].members, [1]);
    assert_eq!(categories[2].name, "Tokio Runtime");
    assert_eq!(categories[2].members, [0, 3]);
}

#[test]
fn flame_graphs_are_put_side_by_side() {
    let before = [entry("gone", 5, "5"), entry("same", 1, "1"), entry("same", 2, "2")];
    let after = [entry("new", 7, "7"), entry("same", 3, "3")];
    let deltas = diff_flamegraphs(&before, &after);
    assert_eq!(deltas.len(), 3);
    assert_eq!(deltas[0].name, "gone");
    assert_eq!((deltas[0].before, deltas[0].after), (Some(0), None));
    assert_eq!((deltas[0].before_samples, deltas[0].after_samples), (5, 0));
    assert_eq!(deltas[1].name, "new");
    assert_eq!((deltas[1].before, deltas[1].after), (None, Some(0)));
    assert_eq!((deltas[1].before_samples, deltas[1].after_samples), (0, 7));
    assert_eq!(deltas[2].name, "same");
    assert_eq!((deltas[2].before, deltas[2].after), (Some(2), Some(1)));
    assert_eq!((deltas[2].before_samples, deltas[2].after_samples), (2, 3));
    let turned = diff_flamegraphs(&after, &before);
    assert_eq!((turned[0].before, turned[0].after), (None, Some(0)));
    for delta in diff_flamegraphs(&before, &before) {
        assert_eq!(delta.before, delta.after);
        assert_eq!(delta.before_samples, delta.after_samples);
    }
    let shown = DeltaText {
        before_percent: "5.00".to_string(),
        after_percent: "0.00".to_string(),
        delta_percent: "-5.00".to_string(),
    };
    assert_eq!(
        render_flamegraph_deltas(&deltas[..1], &[shown]),
        "   5.00%    0.00%   -5.00%          5          0  gone\n"
    );
}

#[test]
fn flame_graphs_are_printed() {
    let entries = [entry("main", 1200, "12.5"), entry("x", 3, "100")];
    assert_eq!(
        render_flamegraph_entries(&entries, &["12.50".to_string(), "100.00".to_string()]),
        " 12.50%       1200  main\n100.00%          3  x\n"
    );
    assert_eq!(
        render_flamegraph_categories(&["Other".to_string()], &["7.00".to_string()]),
        "  7.00%  Other\n"
    );
}

#[test]
fn syscalls_are_counted_by_name() {
    let lines = parse_syscall_lines(
        "write(1) = 1 <0.25>\nread(3) = 4 <0.5>\n+++ exited <1.0>\nread(3) = 4 <odd>\n1 read(3) = 0 <0.5>\n",
    );
    let timed: Vec<bool> = lines.iter().map(|line| line.duration.parse::<f64>().is_ok()).collect();
    assert_eq!(timed, [true, true, true, false, true]);
    let summary = parse_strace_summary(&lines, &timed);
    assert_eq!(summary.total_calls, 4);
    assert_eq!(summary.by_syscall.len(), 2);
    assert_eq!(summary.by_syscall[0].name, "read");
    assert_eq!(summary.by_syscall[0].members, [1, 4]);
    assert_eq!(summary.by_syscall[1].name, "write");
    assert_eq!(summary.by_syscall[1].members, [0]);
    let seconds = ["1.000000".to_string(), "0.250000".to_string()];
    assert_eq!(
        render_strace_summary_text(&summary, "2.250000", &seconds),
        "syscall calls: 4\nsyscall seconds: 2.250000\nread: calls=2 seconds=1.000000\nwrite: calls=1 seconds=0.250000\n"
    );
}

#[test]
fn a_summary_is_looked_for_in_turn() {
    assert_eq!(
        after_summary("run", Some("text".to_string())),
        SummaryStep::Show("text".to_string())
    );
    assert_eq!(after_summary("run", None), SummaryStep::Read("run/stacks.folded".to_string()));
    assert_eq!(
        after_stacks("run", Some("main 1".to_string())),
        SummaryStep::Summarize("main 1".to_string())
    );
    assert_eq!(
        after_stacks("run", None),
        SummaryStep::Fold("run/profile.raw.perf.data".to_string())
    );
}
