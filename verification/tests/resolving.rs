use zksolc_driver::error::{Error, ErrorKind};
use zksolc_driver::version::{resolve, resolve_with, VersionSpec};

fn remote(text: &str) -> String {
    match resolve(text) {
        Ok(VersionSpec::Remote(v)) => v,
        other => panic!("expected a remote version, got {:?}", other),
    }
}

fn local(text: &str) -> String {
    match resolve(text) {
        Ok(VersionSpec::LocalPath(p)) => p,
        other => panic!("expected a local path, got {:?}", other),
    }
}

#[test]
fn bare_version_is_remote() {
    assert_eq!(remote("1.3.9"), "1.3.9");
    assert_eq!(remote("0.0.0"), "0.0.0");
    assert_eq!(remote("10.20.30"), "10.20.30");
}

#[test]
fn prefixed_version_is_remote() {
    assert_eq!(remote("solc:1.3.9"), "1.3.9");
    assert_eq!(remote("v1.3.9"), "1.3.9");
}

#[test]
fn path_is_local() {
    assert_eq!(local("/usr/local/bin/zksolc"), "/usr/local/bin/zksolc");
    assert_eq!(local("\\tools\\zksolc.exe"), "\\tools\\zksolc.exe");
    assert_eq!(local("./zksolc"), "./zksolc");
    assert_eq!(local("zksolc.exe"), "zksolc.exe");
}

#[test]
fn near_versions_are_paths() {
    assert_eq!(local("1.3"), "1.3");
    assert_eq!(local("1.3.9.1"), "1.3.9.1");
    assert_eq!(local("01.3.9"), "01.3.9");
    assert_eq!(local("1.3.x"), "1.3.x");
    assert_eq!(local("1..9"), "1..9");
    assert_eq!(local("solc:"), "solc:");
    assert_eq!(local("zk:1.3.9"), "zk:1.3.9");
}

#[test]
fn separator_wins_over_version() {
    assert_eq!(local("/1.3.9"), "/1.3.9");
}

#[test]
fn empty_text_is_refused() {
    match resolve("") {
        Err(e) => assert_eq!(e.kind(), ErrorKind::InvalidVersionSpec),
        other => panic!("expected an error, got {:?}", other),
    }
}

#[test]
fn nul_is_refused() {
    match resolve("/bin/\0solc") {
        Err(Error::InvalidVersionSpec(text)) => assert_eq!(text, "/bin/\0solc"),
        other => panic!("expected an error, got {:?}", other),
    }
    assert!(resolve("1.3.9\0").is_err());
}

#[test]
fn configured_prefixes_replace_the_defaults() {
    let prefixes = vec!["zk:".to_string(), "zksolc-".to_string()];
    match resolve_with("zk:1.3.9", &prefixes) {
        Ok(VersionSpec::Remote(v)) => assert_eq!(v, "1.3.9"),
        other => panic!("expected a remote version, got {:?}", other),
    }
    match resolve_with("zksolc-2.0.1", &prefixes) {
        Ok(VersionSpec::Remote(v)) => assert_eq!(v, "2.0.1"),
        other => panic!("expected a remote version, got {:?}", other),
    }
    match resolve_with("solc:1.3.9", &prefixes) {
        Ok(VersionSpec::LocalPath(p)) => assert_eq!(p, "solc:1.3.9"),
        other => panic!("expected a local path, got {:?}", other),
    }
}

#[test]
fn first_matching_prefix_wins() {
    let prefixes = vec!["v".to_string(), "v1".to_string()];
    match resolve_with("v12.3.4", &prefixes) {
        Ok(VersionSpec::Remote(v)) => assert_eq!(v, "12.3.4"),
        other => panic!("expected a remote version, got {:?}", other),
    }
    let prefixes = vec!["v1".to_string(), "v".to_string()];
    match resolve_with("v12.3.4", &prefixes) {
        Ok(VersionSpec::Remote(v)) => assert_eq!(v, "2.3.4"),
        other => panic!("expected a remote version, got {:?}", other),
    }
}

#[test]
fn pre_release_and_build_versions_are_remote() {
    for v in [
        "1.0.0-alpha",
        "1.0.0-alpha.1",
        "1.0.0-0.3.7",
        "1.0.0-x.7.z.92",
        "1.0.0-x-y-z.--",
        "1.0.0+20130313144700",
        "1.0.0-beta+exp.sha.5114f85",
        "1.0.0+21AF26D3----117B344092BD",
        "1.0.0+01",
        "1.0.0-0",
        "1.0.0--",
        "1.3.9-beta",
    ] {
        assert_eq!(remote(v), v);
    }
    assert_eq!(remote("solc:1.3.9-rc.1"), "1.3.9-rc.1");
    assert_eq!(remote("v1.3.9+build"), "1.3.9+build");
}

#[test]
fn malformed_suffixes_are_paths() {
    for v in [
        "1.0.0-",
        "1.0.0+",
        "1.0.0-alpha..1",
        "1.0.0-.alpha",
        "1.0.0-alpha.",
        "1.0.0-01",
        "1.0.0-1.02",
        "1.0.0-alpha_beta",
        "1.0.0+a+b",
        "1.0.0-a+",
        "1.0.0+a.",
        "1.0.0.",
        "1.0.0-\u{e9}",
        "1.0.0 ",
        "1.0-alpha",
        "1.0.0alpha",
    ] {
        assert_eq!(local(v), v);
    }
}
