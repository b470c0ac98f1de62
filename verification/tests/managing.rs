use zksolc_driver::error::{Error, ErrorKind};
use zksolc_driver::manager::{
    default_download_base, has_leftover_name, is_runnable, join, CompilerManager, ManagerOpts,
    CACHE_DIR_MODE, COMPILER_MODE, EXECUTE_BITS, LEFTOVER_AFTER_SECONDS,
};
use zksolc_driver::platform::{Arch, Os, Platform};
use zksolc_driver::version::VersionSpec;

fn manager(version: &str, dir: &str) -> CompilerManager {
    CompilerManager::build(ManagerOpts { version: version.to_string() }, dir).unwrap()
}

#[test]
fn joining_paths() {
    assert_eq!(join("/home/u/.zksync", "zksolc-v1.3.9"), "/home/u/.zksync/zksolc-v1.3.9");
    assert_eq!(join("/home/u/.zksync/", "zksolc-v1.3.9"), "/home/u/.zksync/zksolc-v1.3.9");
    assert_eq!(join("C:\\cache\\", "x"), "C:\\cache\\x");
    assert_eq!(join("", "x"), "x");
    assert_eq!(join("src", "Foo.sol"), "src/Foo.sol");
}

#[test]
fn build_computes_the_cached_path() {
    let m = manager("solc:1.3.9", "/home/u/.zksync");
    assert!(matches!(&m.spec, VersionSpec::Remote(v) if v == "1.3.9"));
    assert_eq!(m.get_full_compiler_path(), "/home/u/.zksync/zksolc-v1.3.9");
    assert_eq!(m.compilers_dir(), "/home/u/.zksync");
    assert!(m.is_remote());
    let same = manager("v1.3.9", "/home/u/.zksync");
    assert_eq!(same.get_full_compiler_path(), m.get_full_compiler_path());
    let other = manager("1.3.10", "/home/u/.zksync");
    assert_ne!(other.get_full_compiler_path(), m.get_full_compiler_path());
}

#[test]
fn build_keeps_a_local_path() {
    let m = manager("/opt/zksolc/bin/zksolc", "/home/u/.zksync");
    assert!(matches!(&m.spec, VersionSpec::LocalPath(p) if p == "/opt/zksolc/bin/zksolc"));
    assert_eq!(m.get_full_compiler_path(), "/opt/zksolc/bin/zksolc");
    assert!(!m.is_remote());
}

#[test]
fn build_refuses_empty_version() {
    match CompilerManager::build(ManagerOpts { version: String::new() }, "/cache") {
        Err(e) => assert_eq!(e.kind(), ErrorKind::InvalidVersionSpec),
        Ok(m) => panic!("got {:?}", m),
    }
}

#[test]
fn plan_for_linux() {
    let m = manager("1.3.9", "/cache");
    let plan = m
        .download_plan("linux", "x86_64", default_download_base(), 4711)
        .unwrap()
        .unwrap();
    assert_eq!(
        plan.url,
        "https://github.com/matter-labs/zksolc-bin/raw/main/linux-amd64-musl/zksolc-linux-amd64-musl-v1.3.9"
    );
    assert_eq!(plan.target_path, "/cache/zksolc-v1.3.9");
    assert_eq!(plan.temp_path, "/cache/zksolc-v1.3.9.4711~");
}

#[test]
fn plan_for_mac_on_arm() {
    let m = manager("v1.3.14", "/cache/");
    let plan = m.download_plan("macos", "aarch64", "http://mirror/zksolc", 0).unwrap().unwrap();
    assert_eq!(plan.url, "http://mirror/zksolc/macosx-arm64/zksolc-macosx-arm64-v1.3.14");
    assert_eq!(plan.target_path, "/cache/zksolc-v1.3.14");
    assert_eq!(plan.temp_path, "/cache/zksolc-v1.3.14.0~");
}

#[test]
fn largest_nonce() {
    let m = manager("1.0.0", "c");
    let plan = m.download_plan("linux", "arm64", "b", u64::MAX).unwrap().unwrap();
    assert_eq!(plan.temp_path, "c/zksolc-v1.0.0.18446744073709551615~");
    assert_eq!(plan.url, "b/linux-arm64-musl/zksolc-linux-arm64-musl-v1.0.0");
}

#[test]
fn no_plan_for_a_local_path() {
    let m = manager("./zksolc", "/cache");
    assert!(m.download_plan("linux", "x86_64", "b", 1).unwrap().is_none());
    assert!(m.download_plan("plan9", "mips", "b", 1).unwrap().is_none());
}

#[test]
fn unsupported_platform() {
    let m = manager("1.3.9", "/cache");
    match m.download_plan("windows", "x86_64", "b", 1) {
        Err(Error::UnsupportedPlatform(label)) => assert_eq!(label, "windows-x86_64"),
        other => panic!("got {:?}", other),
    }
    match m.download_plan("linux", "riscv64", "b", 1) {
        Err(e) => {
            assert_eq!(e.kind(), ErrorKind::UnsupportedPlatform);
            assert_eq!(e.message(), "unsupported platform: linux-riscv64");
        }
        other => panic!("got {:?}", other),
    }
}

#[test]
fn detecting_platforms() {
    assert_eq!(
        Platform::detect("linux", "x86_64").unwrap(),
        Platform { os: Os::Linux, arch: Arch::Amd64 }
    );
    assert_eq!(
        Platform::detect("linux", "amd64").unwrap(),
        Platform { os: Os::Linux, arch: Arch::Amd64 }
    );
    assert_eq!(
        Platform::detect("darwin", "arm64").unwrap(),
        Platform { os: Os::MacOs, arch: Arch::Arm64 }
    );
    assert_eq!(
        Platform::detect("macos", "aarch64").unwrap(),
        Platform { os: Os::MacOs, arch: Arch::Arm64 }
    );
    assert!(Platform::detect("Linux", "x86_64").is_err());
    assert!(Platform::detect("", "").is_err());
    assert_eq!(Platform { os: Os::Linux, arch: Arch::Amd64 }.tag_text(), "linux-amd64-musl");
    assert_eq!(Platform { os: Os::Linux, arch: Arch::Arm64 }.tag_text(), "linux-arm64-musl");
    assert_eq!(Platform { os: Os::MacOs, arch: Arch::Amd64 }.tag_text(), "macosx-amd64");
    assert_eq!(Platform { os: Os::MacOs, arch: Arch::Arm64 }.tag_text(), "macosx-arm64");
}

#[test]
fn leftovers_are_recognised_by_name() {
    let target = "/cache/zksolc-v1.3.9";
    assert!(has_leftover_name("/cache/zksolc-v1.3.9.4711~", target));
    assert!(has_leftover_name("/cache/zksolc-v1.3.9.0~", target));
    assert!(has_leftover_name("/cache/zksolc-v1.3.9.007~", target));
    assert!(!has_leftover_name("/cache/zksolc-v1.3.9", target));
    assert!(!has_leftover_name("/cache/zksolc-v1.3.9.~", target));
    assert!(!has_leftover_name("/cache/zksolc-v1.3.9~", target));
    assert!(!has_leftover_name("/cache/zksolc-v1.3.9.12", target));
    assert!(!has_leftover_name("/cache/zksolc-v1.3.9.12~x", target));
    assert!(!has_leftover_name("/cache/zksolc-v1.3.9.12~~", target));
    assert!(!has_leftover_name("/cache/zksolc-v1.3.9.1a~", target));
    assert!(!has_leftover_name("/cache/zksolc-v1.3.9-12~", target));
    assert!(!has_leftover_name("/cache/zksolc-v1.3.10.12~", target));
    assert!(!has_leftover_name("", target));
    assert!(!has_leftover_name(".1~", target));
    assert!(has_leftover_name(".1~", ""));
    assert_eq!(LEFTOVER_AFTER_SECONDS, 3600);
    let m = CompilerManager::build(ManagerOpts { version: "1.3.9".into() }, "/cache").unwrap();
    let plan = m.download_plan("linux", "x86_64", "b", 9).unwrap().unwrap();
    assert!(has_leftover_name(&plan.temp_path, &plan.target_path));
    let other = m.download_plan("linux", "x86_64", "b", 10).unwrap().unwrap();
    assert_ne!(plan.temp_path, other.temp_path);
}

#[test]
fn temporary_file_of_one_version_is_no_other_version() {
    let a = CompilerManager::build(ManagerOpts { version: "1.0.0-a".into() }, "/cache").unwrap();
    let plan = a.download_plan("linux", "x86_64", "b", 5).unwrap().unwrap();
    assert_eq!(plan.temp_path, "/cache/zksolc-v1.0.0-a.5~");
    match CompilerManager::build(ManagerOpts { version: "1.0.0-a.5~".into() }, "/cache") {
        Ok(m) => assert!(!m.is_remote()),
        Err(e) => panic!("got {:?}", e),
    }
}

#[test]
fn build_with_configured_prefixes() {
    let prefixes = vec!["zk:".to_string()];
    let m = CompilerManager::build_with(ManagerOpts { version: "zk:2.0.0".into() }, "/c", &prefixes)
        .unwrap();
    assert_eq!(m.get_full_compiler_path(), "/c/zksolc-v2.0.0");
    let m = CompilerManager::build_with(ManagerOpts { version: "v2.0.0".into() }, "/c", &prefixes)
        .unwrap();
    assert_eq!(m.get_full_compiler_path(), "v2.0.0");
    assert!(!m.is_remote());
    assert!(CompilerManager::build_with(ManagerOpts { version: "".into() }, "/c", &prefixes).is_err());
    assert_eq!(CACHE_DIR_MODE, 0o755);
    assert_eq!(COMPILER_MODE, 0o755);
}

#[test]
fn runnable_files() {
    assert_eq!(EXECUTE_BITS, 0o111);
    assert!(is_runnable(true, 0o755));
    assert!(is_runnable(true, 0o100));
    assert!(is_runnable(true, 0o010));
    assert!(is_runnable(true, 0o001));
    assert!(is_runnable(true, 0o100644 | 0o001));
    assert!(!is_runnable(true, 0o644));
    assert!(!is_runnable(true, 0));
    assert!(!is_runnable(false, 0o755));
    assert!(!is_runnable(false, 0));
}
