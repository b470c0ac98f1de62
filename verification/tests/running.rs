use zksolc_driver::args::{default_compiler, ConfigValue, ZkBuildArgs};
use zksolc_driver::error::{Error, ErrorKind};
use zksolc_driver::invoke::ProcessResult;
use zksolc_driver::manager::default_download_base;
use zksolc_driver::output::CompilationOutcome;
use zksolc_driver::pipeline::{Action, Environment, Event, Pipeline, Stage};
use zksolc_driver::request::{Project, Settings, SourceFile};

fn args(contract: &str, version: &str, is_system: bool) -> ZkBuildArgs {
    ZkBuildArgs {
        contract_name: contract.to_string(),
        use_zksolc: Some(version.to_string()),
        is_system,
    }
}

fn project() -> Project {
    Project {
        source_root: "/work/src".to_string(),
        sources: vec![SourceFile {
            path: "/work/src/Foo.sol".to_string(),
            content: "contract Foo {}".to_string(),
        }],
    }
}

fn settings() -> Settings {
    Settings { optimizer_enabled: true, optimizer_runs: 200, remappings: Vec::new() }
}

fn environment(os: &str) -> Environment {
    Environment {
        cache_dir: "/home/u/.zksync".to_string(),
        os: os.to_string(),
        arch: "x86_64".to_string(),
        download_base: default_download_base().to_string(),
        nonce: 77,
    }
}

fn start(contract: &str, version: &str) -> Pipeline {
    Pipeline::start(args(contract, version, false), project(), settings(), environment("linux"))
        .unwrap()
}

const FOO_OUTPUT: &str =
    r#"{"contracts":{"/work/src/Foo.sol":{"Foo":{"abi":[],"evm":{"bytecode":{"object":"00"}}}}}}"#;

fn exited(code: i32, stdout: &str, stderr: &str) -> Event {
    Event::ProcessExited(ProcessResult {
        exit_code: Some(code),
        stdout: stdout.to_string(),
        stderr: stderr.to_string(),
    })
}

fn failure(action: Action) -> Error {
    match action {
        Action::Finish(CompilationOutcome::Failure(e)) => e,
        other => panic!("expected a failure, got {:?}", other),
    }
}

#[test]
fn present_compiler_is_run_without_download() {
    let mut p = start("Foo.sol", "solc:1.3.9");
    match p.first_action() {
        Action::EnsureCacheDir(dir) => assert_eq!(dir, "/home/u/.zksync"),
        other => panic!("got {:?}", other),
    }
    assert_eq!(p.stage, Stage::AwaitingCacheDir);
    match p.step(Event::CacheDirReady) {
        Action::CheckCompiler(path) => assert_eq!(path, "/home/u/.zksync/zksolc-v1.3.9"),
        other => panic!("got {:?}", other),
    }
    assert_eq!(p.stage, Stage::AwaitingPresence);
    match p.step(Event::CompilerPresent) {
        Action::Invoke(inv) => {
            assert_eq!(inv.program, "/home/u/.zksync/zksolc-v1.3.9");
            assert_eq!(inv.arguments, vec!["--standard-json".to_string()]);
            assert!(inv.input.contains("\"isSystem\":false"));
            assert!(inv.input.contains("\"/work/src/Foo.sol\":{\"content\":\"contract Foo {}\"}"));
        }
        other => panic!("got {:?}", other),
    }
    assert_eq!(p.stage, Stage::AwaitingCompiler);
    match p.step(exited(0, FOO_OUTPUT, "")) {
        Action::Finish(CompilationOutcome::Success(artifacts)) => {
            assert_eq!(artifacts.len(), 1);
            assert_eq!(artifacts[0].name, "Foo");
        }
        other => panic!("got {:?}", other),
    }
    assert!(p.is_finished());
}

#[test]
fn absent_compiler_is_downloaded_then_run() {
    let mut p = start("Foo.sol", "1.3.9");
    p.step(Event::CacheDirReady);
    match p.step(Event::CompilerAbsent) {
        Action::Download(plan) => {
            assert_eq!(
                plan.url,
                "https://github.com/matter-labs/zksolc-bin/raw/main/linux-amd64-musl/zksolc-linux-amd64-musl-v1.3.9"
            );
            assert_eq!(plan.target_path, "/home/u/.zksync/zksolc-v1.3.9");
            assert_eq!(plan.temp_path, "/home/u/.zksync/zksolc-v1.3.9.77~");
        }
        other => panic!("got {:?}", other),
    }
    assert_eq!(p.stage, Stage::AwaitingDownload);
    match p.step(Event::Downloaded) {
        Action::Invoke(inv) => assert_eq!(inv.program, "/home/u/.zksync/zksolc-v1.3.9"),
        other => panic!("got {:?}", other),
    }
    assert!(matches!(
        p.step(exited(0, FOO_OUTPUT, "")),
        Action::Finish(CompilationOutcome::Success(_))
    ));
}

#[test]
fn missing_contract_fails_before_the_compiler_runs() {
    let mut p = start("Missing.sol", "solc:1.3.9");
    p.step(Event::CacheDirReady);
    match failure(p.step(Event::CompilerPresent)) {
        Error::ContractNotFound(path) => assert_eq!(path, "/work/src/Missing.sol"),
        other => panic!("got {:?}", other),
    }
    assert!(p.is_finished());
    assert!(matches!(p.step(exited(0, FOO_OUTPUT, "")), Action::Ignored));

    let mut p = start("Missing.sol", "solc:1.3.9");
    p.step(Event::CacheDirReady);
    p.step(Event::CompilerAbsent);
    assert_eq!(failure(p.step(Event::Downloaded)).kind(), ErrorKind::ContractNotFound);
}

#[test]
fn refused_version_does_not_start() {
    match Pipeline::start(args("Foo.sol", "", false), project(), settings(), environment("linux")) {
        Err(e) => assert_eq!(e.kind(), ErrorKind::InvalidVersionSpec),
        Ok(p) => panic!("got {:?}", p),
    }
}

#[test]
fn cache_dir_failure_ends_the_build() {
    let mut p = start("Foo.sol", "1.3.9");
    match failure(p.step(Event::CacheDirFailed("permission denied".into()))) {
        Error::CacheDirUnavailable(reason) => assert_eq!(reason, "permission denied"),
        other => panic!("got {:?}", other),
    }
    assert!(p.is_finished());
    assert!(matches!(p.step(Event::CacheDirReady), Action::Ignored));
    assert!(p.is_finished());
}

#[test]
fn download_failures_end_the_build() {
    let mut p = start("Foo.sol", "1.3.9");
    p.step(Event::CacheDirReady);
    p.step(Event::CompilerAbsent);
    match failure(p.step(Event::NetworkFailed("timed out".into()))) {
        Error::NetworkError(reason) => assert_eq!(reason, "timed out"),
        other => panic!("got {:?}", other),
    }
    let mut p = start("Foo.sol", "1.3.9");
    p.step(Event::CacheDirReady);
    p.step(Event::CompilerAbsent);
    match failure(p.step(Event::WriteFailed("disk full".into()))) {
        Error::WriteError(reason) => assert_eq!(reason, "disk full"),
        other => panic!("got {:?}", other),
    }
}

#[test]
fn unsupported_platform_ends_the_build() {
    let mut p = Pipeline::start(
        args("Foo.sol", "1.3.9", false),
        project(),
        settings(),
        environment("freebsd"),
    )
    .unwrap();
    p.step(Event::CacheDirReady);
    match failure(p.step(Event::CompilerAbsent)) {
        Error::UnsupportedPlatform(label) => assert_eq!(label, "freebsd-x86_64"),
        other => panic!("got {:?}", other),
    }
}

#[test]
fn local_compiler_is_never_downloaded() {
    let mut p = start("Foo.sol", "/opt/zksolc");
    match p.step(Event::CacheDirReady) {
        Action::CheckCompiler(path) => assert_eq!(path, "/opt/zksolc"),
        other => panic!("got {:?}", other),
    }
    match failure(p.step(Event::CompilerAbsent)) {
        Error::SpawnError(path) => assert_eq!(path, "/opt/zksolc"),
        other => panic!("got {:?}", other),
    }
    let mut p = start("Foo.sol", "/opt/zksolc");
    p.step(Event::CacheDirReady);
    match p.step(Event::CompilerPresent) {
        Action::Invoke(inv) => assert_eq!(inv.program, "/opt/zksolc"),
        other => panic!("got {:?}", other),
    }
}

#[test]
fn compiler_failures() {
    let run = |event: Event| {
        let mut p = start("Foo.sol", "1.3.9");
        p.step(Event::CacheDirReady);
        p.step(Event::CompilerPresent);
        failure(p.step(event))
    };
    match run(Event::ProcessNotSpawned("exec format error".into())) {
        Error::SpawnError(reason) => assert_eq!(reason, "exec format error"),
        other => panic!("got {:?}", other),
    }
    match run(exited(2, "", "panicked")) {
        Error::NonZeroExit(code, stderr) => {
            assert_eq!(code, 2);
            assert_eq!(stderr, "panicked");
        }
        other => panic!("got {:?}", other),
    }
    match run(exited(0, "not json", "")) {
        Error::MalformedOutput(text) => assert_eq!(text, "not json"),
        other => panic!("got {:?}", other),
    }
    match run(exited(0, r#"{"errors":[{"severity":"error","message":"E1"}]}"#, "")) {
        Error::CompilerReportedError(messages) => assert_eq!(messages, vec!["E1".to_string()]),
        other => panic!("got {:?}", other),
    }
}

#[test]
fn events_out_of_turn_are_ignored() {
    let mut p = start("Foo.sol", "1.3.9");
    assert!(matches!(p.step(Event::CompilerPresent), Action::Ignored));
    assert!(matches!(p.step(Event::Downloaded), Action::Ignored));
    assert!(matches!(p.step(exited(0, FOO_OUTPUT, "")), Action::Ignored));
    assert_eq!(p.stage, Stage::AwaitingCacheDir);
    p.step(Event::CacheDirReady);
    assert!(matches!(p.step(Event::CacheDirReady), Action::Ignored));
    assert!(matches!(p.step(Event::Downloaded), Action::Ignored));
    assert_eq!(p.stage, Stage::AwaitingPresence);
    p.step(Event::CompilerAbsent);
    assert!(matches!(p.step(Event::CompilerPresent), Action::Ignored));
    assert_eq!(p.stage, Stage::AwaitingDownload);
}

#[test]
fn system_mode_reaches_the_compiler() {
    let mut p = Pipeline::start(
        args("Foo.sol", "1.3.9", true),
        project(),
        settings(),
        environment("linux"),
    )
    .unwrap();
    p.step(Event::CacheDirReady);
    match p.step(Event::CompilerPresent) {
        Action::Invoke(inv) => assert!(inv.input.contains("\"isSystem\":true")),
        other => panic!("got {:?}", other),
    }
}

#[test]
fn options() {
    let d = ZkBuildArgs::default();
    assert_eq!(d.contract_name, "");
    assert!(d.use_zksolc.is_none());
    assert!(!d.is_system);
    assert_eq!(default_compiler(), "v1.3.9");
    
    let a = args("Foo.sol", "v1.3.9", true);
    assert_eq!(a.manager_opts().version, "v1.3.9");
    assert_eq!(a.metadata(), "Build Args Provider");
    let entries = a.data();
    assert_eq!(entries.len(), 2);
    assert_eq!(entries[0].key, "contract_name");
    assert!(matches!(&entries[0].value, ConfigValue::Text(t) if t == "Foo.sol"));
    assert_eq!(entries[1].key, "is_system");
    assert!(matches!(entries[1].value, ConfigValue::Flag(true)));
}

#[test]
fn default_compiler_is_a_published_version() {
    let mut p = start("Foo.sol", default_compiler());
    match p.step(Event::CacheDirReady) {
        Action::CheckCompiler(path) => assert_eq!(path, "/home/u/.zksync/zksolc-v1.3.9"),
        other => panic!("got {:?}", other),
    }
}
