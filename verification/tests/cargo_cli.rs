use pyroclast::backends::heaptrack::HeaptrackBackend;
use pyroclast::backends::{profile_request, ProfileStep, ProfileSummary};
use pyroclast::cargo_cli::artifacts::{
    artifacts_of_messages, build_artifacts, cargo_build_command, workload, BuildArtifact,
    CargoMessage,
};
use pyroclast::cargo_cli::targets::{
    find_crate_root, find_unique_target, lies_in, BinaryTarget, PackageTarget, RootCandidate,
    TargetKind, WorkspacePackage,
};
use pyroclast::cargo_cli::{
    normalize_cargo_args, CargoCli, CargoCommand, CargoPyroclastCommand, CargoRunArgs,
    UnitTestTargetKind,
};
use pyroclast::cli::{PerfCallGraph, PerfEvent, ProfileKind, SymbolizerKind};
use pyroclast::manifest::BackendName;
use pyroclast::process::CommandOutput;

fn texts(values: &[&str]) -> Vec<String> {
    values.iter().map(|value| value.to_string()).collect()
}

fn run_args() -> CargoRunArgs {
    CargoRunArgs {
        dev: false,
        profile: None,
        package: None,
        bin: None,
        example: None,
        test: None,
        unit_test: None,
        unit_test_kind: None,
        unit_bench: None,
        bench: None,
        manifest_path: None,
        features: None,
        no_default_features: false,
        release: false,
        target: None,
        out: None,
        name: None,
        json: false,
        no_symbols: false,
        symbolizer: SymbolizerKind::RustAddr2line,
        frequency: 997,
        event: PerfEvent::Default,
        call_graph: PerfCallGraph::Dwarf,
        trailing_arguments: Vec::new(),
    }
}

fn successful(stdout: Vec<u8>) -> CommandOutput {
    CommandOutput { status_code: Some(0), stdout, stderr: Vec::new() }
}

fn artifact_messages(target_name: &str, kind: &str, executable: Option<&str>, debuginfo: u32) -> Vec<u8> {
    let (filenames, executable) = match executable {
        Some(path) => (format!("\"{path}\""), format!("\"{path}\"")),
        None => (String::new(), "null".to_string()),
    };
    let target = format!(
        "{{\"kind\":[\"{kind}\"],\"crate_types\":[\"bin\"],\"name\":\"{target_name}\",\
         \"src_path\":\"/demo/src/main.rs\",\"edition\":\"2024\",\"doc\":true,\
         \"doctest\":false,\"test\":true}}"
    );
    let profile = format!(
        "{{\"opt_level\":\"3\",\"debuginfo\":{debuginfo},\"debug_assertions\":false,\
         \"overflow_checks\":false,\"test\":false}}"
    );
    let artifact = format!(
        "{{\"reason\":\"compiler-artifact\",\
         \"package_id\":\"path+file:///demo#{target_name}@0.1.0\",\
         \"manifest_path\":\"/demo/Cargo.toml\",\"target\":{target},\"profile\":{profile},\
         \"features\":[],\"filenames\":[{filenames}],\"executable\":{executable},\
         \"fresh\":false}}"
    );
    format!("{artifact}\n{{\"reason\":\"build-finished\",\"success\":true}}\n").into_bytes()
}

fn package(name: &str, default_run: Option<&str>, targets: &[(&str, TargetKind)]) -> WorkspacePackage {
    WorkspacePackage {
        name: name.to_string(),
        manifest_path: "/demo/Cargo.toml".to_string(),
        default_run: default_run.map(str::to_string),
        targets: targets
            .iter()
            .map(|(name, kind)| PackageTarget { name: name.to_string(), kind: vec![kind.clone()] })
            .collect(),
    }
}

#[test]
fn normalizes_direct_binary_invocation_to_cargo_shape() {
    let normalized = normalize_cargo_args(&texts(&["cargo-pyroclast", "cpu", "--", "--tui"]));

    assert_eq!(
        normalized,
        texts(&["cargo-pyroclast", "pyroclast", "cpu", "--", "--tui"])
    );
}

#[test]
fn parses_cargo_style_cpu_invocation_with_profile_options() {
    let normalized = normalize_cargo_args(&texts(&[
        "cargo",
        "pyroclast",
        "--profile",
        "profiling",
        "cpu",
        "--frequency",
        "199",
        "--event",
        "task-clock",
        "--call-graph",
        "fp",
        "--",
        "--tui",
    ]));

    assert_eq!(
        normalized,
        texts(&[
            "cargo",
            "pyroclast",
            "cpu",
            "--profile",
            "profiling",
            "--frequency",
            "199",
            "--event",
            "task-clock",
            "--call-graph",
            "fp",
            "--",
            "--tui",
        ])
    );
}

#[test]
fn parses_leading_manifest_path_before_profile_kind() {
    let normalized = normalize_cargo_args(&texts(&[
        "cargo",
        "pyroclast",
        "--manifest-path",
        "demo/Cargo.toml",
        "memory",
        "--",
        "--tui",
    ]));

    assert_eq!(
        normalized,
        texts(&[
            "cargo",
            "pyroclast",
            "memory",
            "--manifest-path",
            "demo/Cargo.toml",
            "--",
            "--tui",
        ])
    );
}

#[test]
fn resolves_unique_bin_and_forwards_trailing_arguments() {
    let mut args = run_args();
    args.manifest_path = Some("/demo/Cargo.toml".to_string());
    args.trailing_arguments = texts(&["--tui"]);
    let cli = CargoCli {
        command: CargoCommand::Pyroclast { command: CargoPyroclastCommand::Cpu(args.clone()) },
    };
    let query = args.target_query().expect("query");
    assert_eq!(query.kinds, vec![TargetKind::Bin]);
    let found = find_unique_target(
        &query.kinds,
        &args.package,
        "/demo",
        &query.name,
        &vec![package("demo", None, &[("demo", TargetKind::Bin)])],
    )
    .expect("target");
    let executable = "/demo/target/release/demo";
    let output = successful(artifact_messages("demo", "bin", Some(executable), 2));

    let mut selected = args.clone();
    selected.select_target(&found.target);
    let command = cargo_build_command(&selected, &found.target.kind);
    let invocation = cli
        .command
        .pyroclast_command()
        .into_profile_invocation(&Some(found.target), &output, true)
        .expect("profile invocation");

    assert_eq!(invocation.invocation.kind, ProfileKind::Cpu);
    assert_eq!(
        invocation.invocation.command,
        vec![executable.to_string(), "--tui".to_string()]
    );
    assert_eq!(
        command.args,
        vec![
            "build".to_string(),
            "--release".to_string(),
            "--package".to_string(),
            "demo".to_string(),
            "--bin".to_string(),
            "demo".to_string(),
            "--manifest-path".to_string(),
            "/demo/Cargo.toml".to_string(),
            "--message-format=json-render-diagnostics".to_string(),
        ]
    );
    assert!(command.inherit_stderr);
    assert_eq!(invocation.warning, None);
    assert_eq!(
        profile_request(&invocation.invocation).command,
        vec![executable.to_string(), "--tui".to_string()]
    );
}

#[test]
fn auto_selects_default_run_target() {
    let mut args = run_args();
    args.manifest_path = Some("/demo/Cargo.toml".to_string());
    let query = args.target_query().expect("query");
    let found = find_unique_target(
        &query.kinds,
        &args.package,
        "/demo",
        &query.name,
        &vec![package(
            "demo",
            Some("viewer"),
            &[
                ("demo", TargetKind::Bin),
                ("viewer", TargetKind::Bin),
                ("worker", TargetKind::Bin),
            ],
        )],
    )
    .expect("target");
    assert_eq!(found.note, None);
    args.select_target(&found.target);

    assert_eq!(
        cargo_build_command(&args, &found.target.kind).args,
        vec![
            "build".to_string(),
            "--release".to_string(),
            "--package".to_string(),
            "demo".to_string(),
            "--bin".to_string(),
            "viewer".to_string(),
            "--manifest-path".to_string(),
            "/demo/Cargo.toml".to_string(),
            "--message-format=json-render-diagnostics".to_string(),
        ]
    );
    let executable = "/demo/target/release/viewer";
    let output = successful(artifact_messages("viewer", "bin", Some(executable), 2));
    let artifacts = build_artifacts(&output).expect("artifacts");
    assert_eq!(
        workload(&args, &artifacts).expect("workload").command,
        vec![executable.to_string()]
    );
}

#[test]
fn uses_explicit_profile_instead_of_release() {
    let mut args = run_args();
    args.bin = Some("demo".to_string());
    args.profile = Some("profiling".to_string());

    let command = cargo_build_command(&args, &vec![TargetKind::Bin]);

    assert!(command.args.contains(&"--profile".to_string()));
    assert!(command.args.contains(&"profiling".to_string()));
    assert!(!command.args.contains(&"--release".to_string()));
    assert!(command.inherit_stderr);
}

#[test]
fn forwards_example_and_feature_flags_to_cargo_build() {
    let mut args = run_args();
    args.manifest_path = Some("/demo/Cargo.toml".to_string());
    args.example = Some("sample".to_string());
    args.features = Some("tui,profiling".to_string());
    args.no_default_features = true;
    args.target = Some("x86_64-unknown-linux-gnu".to_string());
    args.trailing_arguments = texts(&["--tui"]);
    assert_eq!(args.target_query(), None);

    assert_eq!(
        cargo_build_command(&args, &Vec::new()).args,
        vec![
            "build".to_string(),
            "--release".to_string(),
            "--target".to_string(),
            "x86_64-unknown-linux-gnu".to_string(),
            "--example".to_string(),
            "sample".to_string(),
            "--manifest-path".to_string(),
            "/demo/Cargo.toml".to_string(),
            "--features".to_string(),
            "tui,profiling".to_string(),
            "--no-default-features".to_string(),
            "--message-format=json-render-diagnostics".to_string(),
        ]
    );
    let executable = "/demo/target/release/examples/sample";
    let output = successful(artifact_messages("sample", "example", Some(executable), 2));
    let artifacts = build_artifacts(&output).expect("artifacts");
    assert_eq!(
        workload(&args, &artifacts).expect("workload").command,
        vec![executable.to_string(), "--tui".to_string()]
    );
}

#[test]
fn rejects_ambiguous_automatic_target_selection() {
    let args = run_args();
    let query = args.target_query().expect("query");

    let error = find_unique_target(
        &query.kinds,
        &args.package,
        "/demo",
        &query.name,
        &vec![package(
            "demo",
            None,
            &[("alpha", TargetKind::Bin), ("beta", TargetKind::Bin)],
        )],
    )
    .expect_err("ambiguous target should fail");

    assert!(error.contains("several possible targets found"));
    assert_eq!(
        error,
        "several possible targets found: [\n    BinaryTarget {\n        package: \"demo\",\n        \
         target: \"alpha\",\n        kind: [\n            Bin,\n        ],\n    },\n    \
         BinaryTarget {\n        package: \"demo\",\n        target: \"beta\",\n        kind: [\n            \
         Bin,\n        ],\n    },\n], please pass an explicit target."
    );
}

#[test]
fn reports_cargo_build_failure_with_stderr() {
    let output = CommandOutput {
        status_code: Some(101),
        stdout: Vec::new(),
        stderr: b"compile failed\n".to_vec(),
    };

    let mut args = run_args();
    args.bin = Some("demo".to_string());
    let error = CargoPyroclastCommand::Cpu(args)
        .into_profile_invocation(&None, &output, true)
        .expect_err("cargo build should fail");

    assert_eq!(error, "cargo build failed: compile failed\n");
    let silent = CommandOutput { stderr: b" \n".to_vec(), ..output };
    assert_eq!(build_artifacts(&silent).unwrap_err(), "cargo build failed");
}

#[test]
fn reports_missing_executable_artifact() {
    let output = successful(artifact_messages("demo", "bin", None, 2));
    let mut args = run_args();
    args.bin = Some("demo".to_string());

    let error = CargoPyroclastCommand::Cpu(args)
        .into_profile_invocation(&None, &output, true)
        .expect_err("missing executable should fail");

    assert_eq!(
        error,
        "build artifacts do not contain any executable to profile"
    );
}

#[test]
fn messages_are_read_line_by_line() {
    let mut bytes = b"warning: not a message\n".to_vec();
    bytes.extend(artifact_messages("demo", "rlib", Some("/demo/a"), 0));
    let artifacts = build_artifacts(&successful(bytes.clone())).expect("artifacts");
    assert_eq!(
        artifacts,
        vec![BuildArtifact {
            name: "demo".to_string(),
            kind: vec![TargetKind::RLib],
            executable: Some("/demo/a".to_string()),
            lacks_debuginfo: true,
        }]
    );
    bytes.extend(b"\xff\n");
    let error = build_artifacts(&successful(bytes)).unwrap_err();
    assert!(error.starts_with("failed to parse cargo build output: "), "{error}");

    let messages = vec![CargoMessage::Other, CargoMessage::Failed("broken".to_string())];
    assert_eq!(
        artifacts_of_messages(&messages).unwrap_err(),
        "failed to parse cargo build output: broken"
    );
}

#[test]
fn a_target_that_was_not_built_is_shown_with_those_that_were() {
    let mut args = run_args();
    args.test = Some("it".to_string());
    let artifacts = vec![BuildArtifact {
        name: "demo \"x\"".to_string(),
        kind: vec![TargetKind::Bin, TargetKind::named("future")],
        executable: Some("/demo/a".to_string()),
        lacks_debuginfo: false,
    }];

    assert_eq!(
        workload(&args, &artifacts).unwrap_err(),
        "could not find desired target ([Test], \"it\") in the targets for this crate: \
         [([Bin, Unknown(\"future\")], \"demo \\\"x\\\"\")]"
    );
    assert_eq!(
        workload(&run_args(), &artifacts).unwrap_err(),
        "no target for profiling"
    );
}

#[test]
fn missing_names_are_warned_of() {
    let artifact = |kind: TargetKind| BuildArtifact {
        name: "demo".to_string(),
        kind: vec![kind],
        executable: Some("/demo/a".to_string()),
        lacks_debuginfo: true,
    };
    let mut args = run_args();
    args.bin = Some("demo".to_string());
    let load = workload(&args, &vec![artifact(TargetKind::Bin)]).unwrap();
    assert_eq!(
        load.warning.as_deref(),
        Some(
            "\nWARNING: profiling without debuginfo. Enable symbol information by adding the \
             following lines to Cargo.toml:\n\n[profile.release]\ndebug = true\n\nOr set this \
             environment variable:\n\nCARGO_PROFILE_RELEASE_DEBUG=true\n\n"
        )
    );
    args.dev = true;
    assert_eq!(workload(&args, &vec![artifact(TargetKind::Bin)]).unwrap().warning, None);

    let mut args = run_args();
    args.unit_bench = Some(Some("demo".to_string()));
    args.trailing_arguments = texts(&["fast"]);
    let load = workload(&args, &vec![artifact(TargetKind::Lib)]).unwrap();
    assert_eq!(load.command, texts(&["/demo/a", "fast", "--bench"]));
    assert!(load.warning.unwrap().contains("CARGO_PROFILE_BENCH_DEBUG=true"));
}

#[test]
fn unit_tests_are_looked_for_by_kind() {
    let mut args = run_args();
    args.unit_test = Some(None);
    args.unit_test_kind = Some(UnitTestTargetKind::Lib);
    let query = args.target_query().expect("query");
    assert_eq!(query.kinds, vec![TargetKind::Lib, TargetKind::RLib]);
    let found = find_unique_target(
        &query.kinds,
        &None,
        "/demo",
        &query.name,
        &vec![package("demo", None, &[("demo", TargetKind::Lib), ("tool", TargetKind::Bin)])],
    )
    .expect("target");
    assert_eq!(
        found.note.as_deref(),
        Some("automatically selected target demo in package demo as it is the only valid target")
    );
    args.select_target(&found.target);
    assert_eq!(args.unit_test, Some(Some("demo".to_string())));
    assert_eq!(
        cargo_build_command(&args, &found.target.kind).args,
        texts(&[
            "test",
            "--no-run",
            "--release",
            "--package",
            "demo",
            "--lib",
            "--message-format=json-render-diagnostics",
        ])
    );

    let mut args = run_args();
    args.unit_bench = Some(Some("tool".to_string()));
    assert_eq!(
        cargo_build_command(&args, &vec![TargetKind::Bin]).args,
        texts(&[
            "bench",
            "--no-run",
            "--bin",
            "tool",
            "--message-format=json-render-diagnostics",
        ])
    );
}

#[test]
fn packages_are_taken_by_name_or_by_place() {
    let packages = vec![
        package("demo", None, &[("demo", TargetKind::Bin)]),
        WorkspacePackage {
            manifest_path: "/demo2/Cargo.toml".to_string(),
            ..package("other", None, &[("other", TargetKind::Bin)])
        },
    ];
    let kinds = vec![TargetKind::Bin];
    let found = find_unique_target(&kinds, &None, "/demo", &None, &packages).unwrap();
    assert_eq!(
        found.target,
        BinaryTarget {
            package: "demo".to_string(),
            target: "demo".to_string(),
            kind: vec![TargetKind::Bin],
        }
    );
    let named = Some("other".to_string());
    let found = find_unique_target(&kinds, &named, "/demo", &None, &packages).unwrap();
    assert_eq!(found.target.target, "other");
    assert_eq!(
        find_unique_target(&kinds, &Some("none".to_string()), "/demo", &None, &packages)
            .unwrap_err(),
        "workspace has no package named none"
    );
    assert_eq!(
        find_unique_target(&kinds, &None, "/else", &None, &packages).unwrap_err(),
        "failed to find any package in '/else' or below"
    );
    assert_eq!(
        find_unique_target(&vec![TargetKind::Lib], &None, "/demo", &None, &packages).unwrap_err(),
        "crate has no automatically selectable target:\nHint: try passing `--example <example>` \
         or similar to choose a binary"
    );
}

#[test]
fn paths_lie_in_directories_by_their_parts() {
    assert!(lies_in("/demo/Cargo.toml", "/demo"));
    assert!(lies_in("/demo//sub/./Cargo.toml", "/demo/sub/"));
    assert!(!lies_in("/demo2/Cargo.toml", "/demo"));
    assert!(!lies_in("demo/Cargo.toml", "/demo"));
    assert!(lies_in("/demo", "/"));
}

#[test]
fn the_nearest_manifest_is_found() {
    let candidate = |path: &str, has_manifest: bool| RootCandidate {
        path: path.to_string(),
        has_manifest,
    };
    let directories = vec![
        candidate("/a/b/c", false),
        candidate("/a/b", true),
        candidate("/a", true),
    ];
    assert_eq!(find_crate_root("/a/b/c", &directories).unwrap(), "/a/b");
    assert_eq!(
        find_crate_root("/x", &vec![candidate("/x", false)]).unwrap_err(),
        "could not find 'Cargo.toml' in '/x' or any parent directory"
    );
}

#[test]
fn arguments_in_order_stay() {
    for args in [
        texts(&[]),
        texts(&["cargo-pyroclast"]),
        texts(&["cargo", "pyroclast", "--release", "-p", "demo", "cpu", "--json"]),
        texts(&["cargo", "pyroclast", "--bin=demo", "--unit-test", "cpu"]),
        texts(&["cargo", "pyroclast", "--unit-bench", "name", "offcpu", "--out", "x"]),
        texts(&["cargo", "pyroclast", "--unknown", "cpu"]),
        texts(&["cargo", "pyroclast", "--", "cpu", "x"]),
    ] {
        let once = normalize_cargo_args(&args);
        assert_eq!(normalize_cargo_args(&once), once);
    }
    assert_eq!(normalize_cargo_args(&Vec::new()), texts(&["cargo", "pyroclast"]));
    assert_eq!(
        normalize_cargo_args(&texts(&["cargo", "pyroclast", "--bin=demo", "--unit-test", "cpu"])),
        texts(&["cargo", "pyroclast", "cpu", "--bin=demo", "--unit-test"])
    );
}

#[test]
fn cargo_memory_command_runs_end_to_end() {
    let executable = "/workspace/target/release/demo";
    let mut args = run_args();
    args.bin = Some("demo".to_string());
    args.out = Some("/memory-run".to_string());
    args.trailing_arguments = texts(&["--serve"]);
    let output = successful(artifact_messages("demo", "bin", Some(executable), 2));

    let invocation = CargoPyroclastCommand::Memory(args)
        .into_profile_invocation(&None, &output, true)
        .expect("profile invocation");
    let backend = HeaptrackBackend::new(profile_request(&invocation.invocation));
    let ProfileStep::Run { command: record, .. } = backend.start() else {
        panic!("expected a command");
    };
    assert_eq!(record.program, "heaptrack");
    assert_eq!(
        record.args,
        texts(&[
            "--record-only",
            "-o",
            "/memory-run/profile.raw.heaptrack",
            executable,
            "--serve",
        ])
    );
    let ProfileStep::Run { files, command: print } = backend.after_record(&successful(Vec::new()))
    else {
        panic!("expected a command");
    };
    assert_eq!(print.program, "heaptrack_print");
    let command_txt = files.iter().find(|file| file.path == "/memory-run/command.txt");
    assert_eq!(
        command_txt.expect("command.txt").contents,
        format!("{executable} --serve\n").into_bytes()
    );
    let printed = b"total allocations: 42\npeak heap memory consumption: 1024 bytes\n".to_vec();
    let ProfileStep::Done { summary, outcome, .. } =
        backend.after_print(Some(0), &successful(printed))
    else {
        panic!("expected the end");
    };
    assert_eq!(outcome.backend, BackendName::Heaptrack);
    let ProfileSummary::Heaptrack(summary) = summary else {
        panic!("expected a summary of the heap");
    };
    assert_eq!(summary.total_allocations, Some(42));
    assert_eq!(summary.peak_heap_bytes, Some(1024));
}

#[test]
fn lines_that_are_nested_too_deep_are_text() {
    let deep = format!("{}\n", "[".repeat(512));
    let read = build_artifacts(&successful(deep.clone().into_bytes())).expect("text");
    assert!(read.is_empty());
    let deeper = "{[".repeat(100_000);
    let read = build_artifacts(&successful(deeper.clone().into_bytes())).expect("text");
    assert!(read.is_empty());
    let mut broken = deeper.clone().into_bytes();
    broken.push(0xff);
    assert_eq!(
        build_artifacts(&successful(broken)).unwrap_err(),
        "failed to parse cargo build output: stream did not contain valid UTF-8"
    );
    let built = artifact_messages("demo", "bin", Some("/target/demo"), 2);
    let mut around = format!("{deeper}\n").into_bytes();
    around.extend(&built);
    around.extend(deep.as_bytes());
    around.extend(&built);
    let read = build_artifacts(&successful(around)).expect("artifacts");
    assert_eq!(read.len(), 2);
    assert_eq!(read[0].name, "demo");
    assert_eq!(read, [
        build_artifacts(&successful(built.clone())).expect("first"),
        build_artifacts(&successful(built)).expect("second"),
    ].concat());
}
