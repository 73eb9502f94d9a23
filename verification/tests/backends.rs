use pyroclast::artifacts::{join_path, ArtifactLayout};
use pyroclast::backends::fake::FakeBackend;
use pyroclast::backends::heaptrack::{build_heaptrack_print_command, HeaptrackBackend};
use pyroclast::backends::linux_perf::{
    build_perf_record_command, linux_perf_fold_tools, threads_to_list, LinuxPerfBackend,
    PerfRecordTarget,
};
use pyroclast::backends::macos_xctrace::MacosXctraceBackend;
use pyroclast::backends::offcpu::{
    build_bpftrace_offcpu_command, build_perf_cpu_clock_command, OffcpuBackend, OffcpuMethod,
};
use pyroclast::backends::strace::build_strace_command;
use pyroclast::backends::{
    backend_for, run_manifest, ArtifactFile, HostFacts, ProfileRequest, ProfileStep,
    ProfileSummary,
};
use pyroclast::cli::{PerfCallGraph, PerfEvent, ProfileKind, SymbolizerKind};
use pyroclast::manifest::BackendName;
use pyroclast::process::{exit_error, CommandOutput, CommandSpec};

fn texts(values: &[&str]) -> Vec<String> {
    values.iter().map(|value| value.to_string()).collect()
}

fn request(kind: ProfileKind) -> ProfileRequest {
    ProfileRequest {
        kind,
        command: texts(&["demo", "--fast"]),
        out_dir: "run".to_string(),
        name: None,
        json: false,
        symbols: false,
        symbolizer: SymbolizerKind::RustAddr2line,
        frequency: 997,
        event: PerfEvent::Default,
        call_graph: PerfCallGraph::Dwarf,
        pid: None,
        tids: Vec::new(),
        threads_of_pid: None,
        offcpu_method: None,
        duration_secs: 30,
    }
}

fn output(status_code: i32, stdout: &str, stderr: &str) -> CommandOutput {
    CommandOutput {
        status_code: Some(status_code),
        stdout: stdout.as_bytes().to_vec(),
        stderr: stderr.as_bytes().to_vec(),
    }
}

fn file<'a>(files: &'a [ArtifactFile], path: &str) -> &'a [u8] {
    &files.iter().find(|file| file.path == path).expect("file").contents
}

fn command(step: ProfileStep) -> CommandSpec {
    match step {
        ProfileStep::Run { command, .. } => command,
        other => panic!("expected a command, got {other:?}"),
    }
}

#[test]
fn each_platform_has_its_backends() {
    assert_eq!(backend_for(ProfileKind::Cpu, "linux"), BackendName::LinuxPerf);
    assert_eq!(backend_for(ProfileKind::Cpu, "macos"), BackendName::MacosXctrace);
    assert_eq!(backend_for(ProfileKind::Cpu, "windows"), BackendName::Fake);
    assert_eq!(backend_for(ProfileKind::Latency, "linux"), BackendName::Strace);
    assert_eq!(backend_for(ProfileKind::Memory, "linux"), BackendName::Heaptrack);
    assert_eq!(backend_for(ProfileKind::Memory, "macos"), BackendName::Fake);
    assert_eq!(backend_for(ProfileKind::Offcpu, "linux"), BackendName::Offcpu);
    assert_eq!(backend_for(ProfileKind::Async, "linux"), BackendName::Fake);
}

#[test]
fn perf_records_commands_processes_and_threads() {
    let args = |target: PerfRecordTarget| {
        build_perf_record_command(PerfEvent::CpuClock, 99, "fp", "out.data", &target, 5).args
    };
    assert_eq!(
        args(PerfRecordTarget::Command(texts(&["demo", "-x"]))),
        texts(&[
            "record", "-e", "cpu-clock", "-F", "99", "-g", "--call-graph", "fp", "-o", "out.data",
            "--", "demo", "-x",
        ])
    );
    assert_eq!(
        args(PerfRecordTarget::Process(7))[8..],
        texts(&["-p", "7", "-o", "out.data", "--", "sleep", "5"])
    );
    assert_eq!(
        args(PerfRecordTarget::Threads(vec![7, 8]))[8..],
        texts(&["-t", "7,8", "-o", "out.data", "--", "sleep", "5"])
    );
}

#[test]
fn a_cpu_profile_is_recorded_folded_and_rendered() {
    let backend = LinuxPerfBackend::new(request(ProfileKind::Cpu));
    let command = command(backend.start());
    assert_eq!(command.program, "perf");
    assert!(command.args.contains(&"run/profile.raw.perf.data".to_string()));

    let failed = output(2, "out", "no permission");
    match backend.after_record(&failed) {
        ProfileStep::Fail { files, error } => {
            assert_eq!(error, "perf record exited with Some(2): no permission");
            assert_eq!(error, exit_error("perf record", &failed));
            assert_eq!(file(&files, "run/stdout.log"), b"out");
            assert_eq!(
                file(&files, "run/tool-errors.log"),
                b"perf record exited with Some(2): no permission\n"
            );
        }
        other => panic!("expected a failure, got {other:?}"),
    }
    let recorded = output(0, "out", "err;");
    match backend.after_record(&recorded) {
        ProfileStep::Fold { perf_data, .. } => assert_eq!(perf_data, "run/profile.raw.perf.data"),
        other => panic!("expected a fold, got {other:?}"),
    }
    match backend.after_fold("a;b 2\n".to_string()) {
        ProfileStep::Render { files, request } => {
            assert_eq!(file(&files, "run/stacks.folded"), b"a;b 2\n");
            assert_eq!(request.title, "CPU profile");
            assert_eq!(request.output, "run/flamegraph.svg");
        }
        other => panic!("expected a picture, got {other:?}"),
    }
    match backend.after_failed_render("broken".to_string()) {
        ProfileStep::Fail { files, error } => {
            assert_eq!(error, "broken");
            assert_eq!(file(&files, "run/tool-errors.log"), b"broken\n");
        }
        other => panic!("expected a failure, got {other:?}"),
    }
    match backend.after_render(&recorded, "a;b 2\n", &b"drawn".to_vec()) {
        ProfileStep::Done { files, summary, outcome } => {
            assert_eq!(file(&files, "run/stderr.log"), b"err;drawn");
            assert_eq!(file(&files, "run/command.txt"), b"demo --fast\n");
            assert_eq!(
                file(&files, "run/summary.txt"),
                b"folded lines: 1\nfolded bytes: 6\ntotal count: 2\n"
            );
            assert!(matches!(summary, ProfileSummary::Folded(folded) if folded.total_count == 2));
            assert_eq!(outcome.record_target, "command");
            assert_eq!(outcome.duration_secs, None);
            assert_eq!(outcome.diagnostics, texts(&["perf record executed"]));
            let manifest = run_manifest(
                &request(ProfileKind::Cpu),
                outcome,
                HostFacts {
                    cwd: "/work".to_string(),
                    platform: "linux".to_string(),
                    started_at_unix_ms: 1,
                    ended_at_unix_ms: 2,
                    tool_versions: Vec::new(),
                },
            );
            assert_eq!(manifest.actual_backend, BackendName::LinuxPerf);
            assert_eq!(manifest.platform, "linux");
            assert!(manifest.artifacts.contains(&"run/flamegraph.svg".to_string()));
        }
        other => panic!("expected the end, got {other:?}"),
    }
}

#[test]
fn threads_of_a_process_are_listed_first() {
    let mut request = request(ProfileKind::Cpu);
    request.threads_of_pid = Some(7);
    assert_eq!(threads_to_list(&request), Some(7));
    let backend = LinuxPerfBackend::with_thread_lister(request.clone(), &vec![7, 9]);
    assert_eq!(backend.target, PerfRecordTarget::Threads(vec![7, 9]));
    match backend.after_render(&output(0, "", ""), "", &Vec::new()) {
        ProfileStep::Done { files, outcome, .. } => {
            assert_eq!(file(&files, "run/command.txt"), b"threads-of-pid:7 tids:7,9\n");
            assert_eq!(outcome.record_target, "threads_of_pid");
            assert_eq!(outcome.duration_secs, Some(30));
        }
        other => panic!("expected the end, got {other:?}"),
    }
    request.pid = Some(3);
    assert_eq!(threads_to_list(&request), None);
    assert_eq!(LinuxPerfBackend::new(request).target, PerfRecordTarget::Process(3));
}

#[test]
fn fold_tools_depend_on_the_symbolizer() {
    let names = |symbols: bool, symbolizer: SymbolizerKind| {
        linux_perf_fold_tools(symbols, symbolizer)
            .into_iter()
            .map(|tool| tool.name)
            .collect::<Vec<_>>()
    };
    assert_eq!(names(true, SymbolizerKind::Addr2line), texts(&["perf", "addr2line"]));
    assert_eq!(names(true, SymbolizerKind::RustAddr2line), texts(&["perf"]));
    assert_eq!(names(false, SymbolizerKind::Addr2line), texts(&["perf"]));
}

#[test]
fn only_commands_can_be_watched_while_they_wait() {
    let mut attached = request(ProfileKind::Offcpu);
    attached.tids = vec![1];
    match OffcpuBackend::new(attached).start() {
        ProfileStep::Fail { error, files } => {
            assert_eq!(error, "offcpu currently supports command-driven workflows only");
            assert!(files.is_empty());
        }
        other => panic!("expected a failure, got {other:?}"),
    }
}

#[test]
fn waiting_is_measured_by_the_scheduler() {
    let backend = OffcpuBackend::new(request(ProfileKind::Offcpu));
    assert_eq!(backend.method(), OffcpuMethod::PerfSched);
    let record = command(backend.start());
    assert!(record.interactive);
    assert_eq!(record.args[..2], texts(&["sched", "record"]));
    let recorded = output(0, "one", "two");
    let shown = command(backend.after_record(&recorded));
    assert_eq!(
        shown.args,
        texts(&["sched", "timehist", "-i", "run/profile.raw.perf.data"])
    );
    match backend.after_timehist(&recorded, &output(0, "table", "!")) {
        ProfileStep::Done { files, outcome, summary } => {
            assert_eq!(file(&files, "run/stdout.log"), b"onetable");
            assert_eq!(file(&files, "run/summary.txt"), b"table");
            assert_eq!(outcome.diagnostics, texts(&["offcpu method: perf_sched"]));
            assert!(matches!(
                summary,
                ProfileSummary::PerfSched { timehist_raw, .. } if timehist_raw == "table"
            ));
        }
        other => panic!("expected the end, got {other:?}"),
    }
    assert!(matches!(
        backend.after_timehist(&recorded, &output(1, "", "bad")),
        ProfileStep::Fail { error, .. } if error == "perf sched timehist exited with Some(1): bad"
    ));
}

#[test]
fn waiting_is_measured_by_bpftrace_and_by_the_clock() {
    let mut bpf = request(ProfileKind::Offcpu);
    bpf.offcpu_method = Some(OffcpuMethod::Bpftrace);
    let backend = OffcpuBackend::new(bpf);
    let started = command(backend.start());
    assert_eq!(started, build_bpftrace_offcpu_command("demo --fast", 30));
    assert!(started.args[1].contains("interval:s:30\n{\n  exit();\n}\n"));
    let printed = "@offcpu[\n    ffff schedule+10 ([kernel])\n    ffff wait+4\n]: 12\n";
    match backend.after_record(&output(0, printed, "")) {
        ProfileStep::Done { files, outcome, .. } => {
            assert_eq!(file(&files, "run/stacks.folded"), b"wait;schedule 12\n");
            assert_eq!(file(&files, "run/profile.raw.bpftrace"), printed.as_bytes());
            assert_eq!(outcome.duration_secs, Some(30));
        }
        other => panic!("expected the end, got {other:?}"),
    }

    let mut clock = request(ProfileKind::Offcpu);
    clock.offcpu_method = Some(OffcpuMethod::PerfCpuClock);
    let backend = OffcpuBackend::new(clock);
    assert_eq!(
        command(backend.start()),
        build_perf_cpu_clock_command(
            997,
            "dwarf,64000",
            "run/profile.raw.perf.data",
            &texts(&["demo", "--fast"]),
        )
    );
    assert!(matches!(backend.after_record(&output(0, "", "")), ProfileStep::Fold { .. }));
    match backend.after_fold(&output(0, "", ""), "a 1\n") {
        ProfileStep::Done { outcome, .. } => {
            assert_eq!(outcome.sample_event, PerfEvent::CpuClock);
            assert!(outcome.artifacts.contains(&"run/stacks.folded".to_string()));
        }
        other => panic!("expected the end, got {other:?}"),
    }
}

#[test]
fn memory_is_profiled_by_heaptrack() {
    let backend = HeaptrackBackend::new(request(ProfileKind::Memory));
    let record = command(backend.start());
    assert_eq!(
        record.args,
        texts(&["--record-only", "-o", "run/profile.raw.heaptrack", "demo", "--fast"])
    );
    assert!(matches!(
        backend.after_record(&output(1, "", "no")),
        ProfileStep::Fail { error, .. } if error == "heaptrack exited with Some(1): no"
    ));
    let print = command(backend.after_record(&output(0, "", "")));
    assert_eq!(print.program, build_heaptrack_print_command("x").program);
    let printed = "total allocations: 42\npeak heap memory consumption: 1024 bytes\n";
    match backend.after_print(Some(0), &output(0, printed, "")) {
        ProfileStep::Done { files, summary, .. } => {
            assert_eq!(
                file(&files, "run/summary.txt"),
                b"total allocations: 42\npeak heap bytes: 1024\n"
            );
            assert!(matches!(
                summary,
                ProfileSummary::Heaptrack(heap)
                    if heap.total_allocations == Some(42) && heap.peak_heap_bytes == Some(1024)
            ));
        }
        other => panic!("expected the end, got {other:?}"),
    }
}

#[test]
fn other_backends_start_their_tools() {
    let record = command(MacosXctraceBackend::new(request(ProfileKind::Cpu)).start());
    assert!(record.program.contains("xc"), "{}", record.program);
    let strace = build_strace_command("out.log", &texts(&["demo"]));
    assert_eq!(strace.program, "strace");
    assert!(strace.args.contains(&"out.log".to_string()));
    assert_eq!(strace.args.last().map(String::as_str), Some("demo"));
    assert!(matches!(
        FakeBackend::new(request(ProfileKind::Async)).profile(),
        ProfileStep::Done { .. }
    ));
}

#[test]
fn artifacts_lie_in_the_run_directory() {
    let layout = ArtifactLayout::new("run/");
    assert_eq!(layout.raw_profile("perf.data"), "run/profile.raw.perf.data");
    assert_eq!(layout.summary_json(), "run/summary.json");
    assert_eq!(join_path("", "x"), "x");
    assert_eq!(join_path("a", "x"), "a/x");
    assert_eq!(layout.root(), "run/");
}

#[test]
fn commands_that_use_the_terminal_get_no_input() {
    let command = CommandSpec::new("demo").arg("a").env("K", "V").stdin(vec![1]);
    assert_eq!(command.reject_piped_terminal(), None);
    assert_eq!(
        command.interactive().reject_piped_terminal().as_deref(),
        Some("interactive commands cannot also supply piped stdin")
    );
}
