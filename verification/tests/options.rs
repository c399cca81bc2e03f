use cargo_libafl::common::{
    archive_file_path, hash_can_be_shortened, join_path, pkg_version, runtime_dir, rustc_version,
    xdg_prefix,
};
use cargo_libafl::options::{
    BuildOptions, Coverage, CoverageError, FuzzDirWrapper, Init, Sanitizer,
};
use cargo_libafl::utils::default_target;
use clap::{Arg, ArgAction, ArgMatches, Command};

fn default_opts() -> BuildOptions {
    BuildOptions {
        dev: false,
        release: false,
        debug_assertions: false,
        verbose: false,
        no_default_features: false,
        all_features: false,
        features: None,
        build_std: false,
        careful_mode: false,
        sanitizer: Sanitizer::Address,
        triple: String::from(default_target(None)),
        unstable_flags: Vec::new(),
        target_dir: None,
        coverage: false,
        strip_dead_code: false,
        no_cfg_fuzzing: false,
        no_trace_compares: false,
    }
}

#[test]
fn build_options_text() {
    assert_eq!(default_opts().to_string(default_target(None)), "");
    assert_eq!(BuildOptions { dev: true, ..default_opts() }.to_string(default_target(None)), " -D");
    assert_eq!(BuildOptions { release: true, ..default_opts() }.to_string(default_target(None)), " -O");
    assert_eq!(BuildOptions { debug_assertions: true, ..default_opts() }.to_string(default_target(None)), " -a");
    assert_eq!(BuildOptions { verbose: true, ..default_opts() }.to_string(default_target(None)), " -v");
    assert_eq!(
        BuildOptions { no_default_features: true, ..default_opts() }.to_string(default_target(None)),
        " --no-default-features"
    );
    assert_eq!(
        BuildOptions { all_features: true, ..default_opts() }.to_string(default_target(None)),
        " --all-features"
    );
    assert_eq!(
        BuildOptions { features: Some(String::from("features")), ..default_opts() }.to_string(default_target(None)),
        " --features=features"
    );
    assert_eq!(
        BuildOptions { sanitizer: Sanitizer::Off, ..default_opts() }.to_string(default_target(None)),
        " --sanitizer=none"
    );
    assert_eq!(
        BuildOptions { sanitizer: Sanitizer::Leak, ..default_opts() }.to_string(default_target(None)),
        " --sanitizer=leak"
    );
    assert_eq!(
        BuildOptions { sanitizer: Sanitizer::Memory, ..default_opts() }.to_string(default_target(None)),
        " --sanitizer=memory"
    );
    assert_eq!(
        BuildOptions { sanitizer: Sanitizer::Thread, ..default_opts() }.to_string(default_target(None)),
        " --sanitizer=thread"
    );
    assert_eq!(
        BuildOptions { triple: String::from("custom_triple"), ..default_opts() }.to_string(default_target(None)),
        " --target=custom_triple"
    );
    assert_eq!(
        BuildOptions {
            unstable_flags: vec![String::from("unstable"), String::from("flags")],
            ..default_opts()
        }
        .to_string(default_target(None)),
        " -Zunstable -Zflags"
    );
    assert_eq!(
        BuildOptions { target_dir: Some(String::from("/tmp/test")), ..default_opts() }.to_string(default_target(None)),
        " --target-dir=/tmp/test"
    );
    assert_eq!(BuildOptions { coverage: true, ..default_opts() }.to_string(default_target(None)), " --coverage");
}

#[test]
fn build_options_text_keeps_order_and_skips_hidden_options() {
    let all = BuildOptions {
        dev: true,
        release: true,
        debug_assertions: true,
        verbose: true,
        no_default_features: true,
        all_features: true,
        features: Some(String::from("a,b")),
        build_std: true,
        careful_mode: true,
        sanitizer: Sanitizer::Thread,
        triple: String::from("t"),
        unstable_flags: vec![String::from("x")],
        target_dir: Some(String::from("d")),
        coverage: true,
        strip_dead_code: true,
        no_cfg_fuzzing: true,
        no_trace_compares: true,
    };
    assert_eq!(
        all.to_string(default_target(None)),
        " -D -O -a -v --no-default-features --all-features --features=a,b --sanitizer=thread --target=t -Zx --target-dir=d --coverage"
    );
}

#[test]
fn sanitizer_names() {
    assert_eq!(Sanitizer::Address.to_string(), "address");
    assert_eq!(Sanitizer::Leak.to_string(), "leak");
    assert_eq!(Sanitizer::Memory.to_string(), "memory");
    assert_eq!(Sanitizer::Thread.to_string(), "thread");
    assert_eq!(Sanitizer::Off.to_string(), "");
}

#[test]
fn sanitizer_from_word() {
    assert_eq!(Sanitizer::from_str("address"), Ok(Sanitizer::Address));
    assert_eq!(Sanitizer::from_str("leak"), Ok(Sanitizer::Leak));
    assert_eq!(Sanitizer::from_str("memory"), Ok(Sanitizer::Memory));
    assert_eq!(Sanitizer::from_str("thread"), Ok(Sanitizer::Thread));
    assert_eq!(Sanitizer::from_str("none"), Ok(Sanitizer::Off));
    assert_eq!(Sanitizer::from_str("bogus"), Err(String::from("unknown sanitizer: bogus")));
    assert_eq!(Sanitizer::from_str(""), Err(String::from("unknown sanitizer: ")));
    assert_eq!(Sanitizer::from_str("Address"), Err(String::from("unknown sanitizer: Address")));
}

#[test]
fn fuzz_dir_text() {
    assert_eq!(FuzzDirWrapper { fuzz_dir: None }.to_string(), "");
    assert_eq!(
        FuzzDirWrapper { fuzz_dir: Some(String::from("/work/fuzz")) }.to_string(),
        " --fuzz-dir=/work/fuzz"
    );
}

fn coverage_command(build_std: bool) -> Coverage {
    Coverage {
        build: BuildOptions { build_std, ..default_opts() },
        fuzz_dir_wrapper: FuzzDirWrapper { fuzz_dir: None },
        target: String::from("t"),
        corpus: vec![],
        args: vec![],
    }
}

#[test]
fn coverage_run_switches_instrumentation_on() {
    let mut c = coverage_command(false);
    assert_eq!(c.enable_coverage(), Ok(()));
    assert!(c.build.coverage);
    assert_eq!(c.build, BuildOptions { coverage: true, ..default_opts() });
}

#[test]
fn coverage_run_refuses_build_std() {
    let mut c = coverage_command(true);
    assert_eq!(c.enable_coverage(), Err(CoverageError::BuildStdUnsupported));
    assert!(!c.build.coverage);
    assert!(CoverageError::BuildStdUnsupported.message().starts_with("-Zbuild-std is currently"));
}

#[test]
fn init_default_target_name() {
    let init = Init::with_default_target(FuzzDirWrapper { fuzz_dir: None });
    assert_eq!(init.target, "fuzz_target_1");
    assert_eq!(init.fuzz_dir_wrapper, FuzzDirWrapper { fuzz_dir: None });
}

#[test]
fn default_target_triple() {
    assert_eq!(default_target(None), "x86_64-unknown-linux-gnu");
    assert_eq!(default_target(Some("aarch64-apple-darwin")), "aarch64-apple-darwin");
    assert_eq!(default_target(Some("x86_64-unknown-linux-gnu")), "x86_64-unknown-linux-gnu");
    assert_eq!(default_target(Some("")), "");
}

#[test]
fn the_build_target_needs_no_flag() {
    let host = default_target(Some("aarch64-apple-darwin"));
    let on_host = BuildOptions { triple: String::from(host), ..default_opts() };
    assert_eq!(on_host.to_string(host), "");
    assert_eq!(on_host.to_string(default_target(None)), " --target=aarch64-apple-darwin");
    assert_eq!(default_opts().to_string(host), " --target=x86_64-unknown-linux-gnu");
}

#[test]
fn version_names() {
    assert_eq!(rustc_version("1.70.0", None), "rustc-1.70.0");
    assert_eq!(
        rustc_version("1.72.0-nightly", Some("0123456789abcdef0123")),
        "rustc-1.72.0-nightly-0123456"
    );
    assert_eq!(rustc_version("1.0.0", Some("abcdefg")), "rustc-1.0.0-abcdefg");
    assert_eq!(rustc_version("1.0.0", Some("a\u{e9}bcde\u{e9}")), "rustc-1.0.0-a\u{e9}bcde");
    assert!(hash_can_be_shortened("0123456789"));
    assert!(hash_can_be_shortened("0123456"));
    assert!(!hash_can_be_shortened("012345"));
    assert!(!hash_can_be_shortened(""));
    assert!(!hash_can_be_shortened("abcdef\u{e9}"));
    assert_eq!(pkg_version("0.1.8"), "cargo-libafl-0.1.8");
}

#[test]
fn path_joining() {
    assert_eq!(join_path("a", "b"), "a/b");
    assert_eq!(join_path("a/", "b"), "a/b");
    assert_eq!(join_path("", "b"), "b");
    assert_eq!(join_path("a", "/b"), "/b");
    assert_eq!(join_path("a", ""), "a/");
    assert_eq!(join_path("a/", ""), "a/");
    assert_eq!(join_path("", ""), "");
    for (base, part) in [("a", "b"), ("a/", "b"), ("", "b"), ("a", "/b"), ("a", ""), ("/", "x")] {
        let expected = std::path::Path::new(base).join(part);
        assert_eq!(join_path(base, part), expected.to_str().unwrap());
    }
}

#[test]
fn runtime_paths() {
    assert_eq!(
        xdg_prefix("rustc-1.70.0", "cargo-libafl-0.1.8"),
        "cargo-libafl/rustc-1.70.0/cargo-libafl-0.1.8"
    );
    let dir = runtime_dir("/home/u/.local/share", "rustc-1.70.0", "cargo-libafl-0.1.8");
    assert_eq!(dir, "/home/u/.local/share/cargo-libafl/rustc-1.70.0/cargo-libafl-0.1.8/cargo-libafl");
    assert_eq!(
        archive_file_path(&dir),
        "/home/u/.local/share/cargo-libafl/rustc-1.70.0/cargo-libafl-0.1.8/cargo-libafl/libcargo_libafl_runtime.a"
    );
}

fn build_options_command() -> Command {
    Command::new("build")
        .arg(
            Arg::new("dev")
                .short('D')
                .long("dev")
                .action(ArgAction::SetTrue)
                .conflicts_with("release"),
        )
        .arg(
            Arg::new("release")
                .short('O')
                .long("release")
                .action(ArgAction::SetTrue)
                .conflicts_with("dev"),
        )
        .arg(
            Arg::new("debug_assertions")
                .short('a')
                .long("debug-assertions")
                .action(ArgAction::SetTrue),
        )
        .arg(Arg::new("verbose").short('v').long("verbose").action(ArgAction::SetTrue))
        .arg(Arg::new("no_default_features").long("no-default-features").action(ArgAction::SetTrue))
        .arg(
            Arg::new("all_features")
                .long("all-features")
                .action(ArgAction::SetTrue)
                .conflicts_with("no_default_features")
                .conflicts_with("features"),
        )
        .arg(Arg::new("features").long("features"))
        .arg(
            Arg::new("sanitizer")
                .short('s')
                .long("sanitizer")
                .value_parser(["address", "leak", "memory", "thread", "none"])
                .default_value("address"),
        )
        .arg(Arg::new("build_std").long("build-std").action(ArgAction::SetTrue))
        .arg(Arg::new("careful_mode").short('c').long("careful").action(ArgAction::SetTrue))
        .arg(Arg::new("triple").long("target").default_value(default_target(None)))
        .arg(Arg::new("unstable_flags").short('Z').value_name("FLAG").action(ArgAction::Append))
        .arg(Arg::new("target_dir").long("target-dir"))
        .arg(Arg::new("strip_dead_code").long("strip-dead-code").action(ArgAction::SetTrue))
        .arg(Arg::new("no_cfg_fuzzing").long("no-cfg-fuzzing").action(ArgAction::SetTrue))
        .arg(Arg::new("no_trace_compares").long("no-trace-compares").action(ArgAction::SetTrue))
}

fn build_options_from(m: &ArgMatches) -> BuildOptions {
    BuildOptions {
        dev: m.get_flag("dev"),
        release: m.get_flag("release"),
        debug_assertions: m.get_flag("debug_assertions"),
        verbose: m.get_flag("verbose"),
        no_default_features: m.get_flag("no_default_features"),
        all_features: m.get_flag("all_features"),
        features: m.get_one::<String>("features").cloned(),
        sanitizer: Sanitizer::from_str(m.get_one::<String>("sanitizer").unwrap()).unwrap(),
        build_std: m.get_flag("build_std"),
        careful_mode: m.get_flag("careful_mode"),
        triple: m.get_one::<String>("triple").unwrap().clone(),
        unstable_flags: m
            .get_many::<String>("unstable_flags")
            .map(|values| values.cloned().collect())
            .unwrap_or_default(),
        target_dir: m.get_one::<String>("target_dir").cloned(),
        coverage: false,
        strip_dead_code: m.get_flag("strip_dead_code"),
        no_cfg_fuzzing: m.get_flag("no_cfg_fuzzing"),
        no_trace_compares: m.get_flag("no_trace_compares"),
    }
}

#[test]
fn display_build_options() {
    let default_opts = BuildOptions {
        dev: false,
        release: false,
        debug_assertions: false,
        verbose: false,
        no_default_features: false,
        all_features: false,
        features: None,
        build_std: false,
        careful_mode: false,
        sanitizer: Sanitizer::Address,
        triple: String::from(default_target(None)),
        unstable_flags: Vec::new(),
        target_dir: None,
        coverage: false,
        strip_dead_code: false,
        no_cfg_fuzzing: false,
        no_trace_compares: false,
    };

    let opts = vec![
        default_opts.clone(),
        BuildOptions { dev: true, ..default_opts.clone() },
        BuildOptions { release: true, ..default_opts.clone() },
        BuildOptions { debug_assertions: true, ..default_opts.clone() },
        BuildOptions { verbose: true, ..default_opts.clone() },
        BuildOptions { no_default_features: true, ..default_opts.clone() },
        BuildOptions { all_features: true, ..default_opts.clone() },
        BuildOptions { features: Some(String::from("features")), ..default_opts.clone() },
        BuildOptions { sanitizer: Sanitizer::Off, ..default_opts.clone() },
        BuildOptions { triple: String::from("custom_triple"), ..default_opts.clone() },
        BuildOptions {
            unstable_flags: vec![String::from("unstable"), String::from("flags")],
            ..default_opts.clone()
        },
        BuildOptions { target_dir: Some(String::from("/tmp/test")), ..default_opts.clone() },
        BuildOptions { coverage: false, ..default_opts },
    ];

    for case in opts {
        assert_eq!(
            case,
            build_options_from(
                &build_options_command()
                    .try_get_matches_from(case.to_string(default_target(None)).split(' '))
                    .unwrap()
            )
        );
    }
}
