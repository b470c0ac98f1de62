use zksolc_driver::error::{Error, ErrorKind};

fn samples() -> Vec<Error> {
    vec![
        Error::InvalidVersionSpec("".into()),
        Error::CacheDirUnavailable("permission denied".into()),
        Error::NetworkError("connection reset".into()),
        Error::UnsupportedPlatform("plan9-mips".into()),
        Error::WriteError("disk full".into()),
        Error::ContractNotFound("src/Missing.sol".into()),
        Error::SpawnError("no such file".into()),
        Error::SerializationError("src/Foo.sol".into()),
        Error::NonZeroExit(1, "boom".into()),
        Error::CompilerReportedError(vec!["a".into(), "b".into()]),
        Error::MalformedOutput("<html>".into()),
    ]
}

#[test]
fn every_kind_is_told_apart() {
    let kinds: Vec<ErrorKind> = samples().iter().map(|e| e.kind()).collect();
    assert_eq!(
        kinds,
        vec![
            ErrorKind::InvalidVersionSpec,
            ErrorKind::CacheDirUnavailable,
            ErrorKind::NetworkError,
            ErrorKind::UnsupportedPlatform,
            ErrorKind::WriteError,
            ErrorKind::ContractNotFound,
            ErrorKind::SpawnError,
            ErrorKind::SerializationError,
            ErrorKind::NonZeroExit,
            ErrorKind::CompilerReportedError,
            ErrorKind::MalformedOutput,
        ]
    );
}

#[test]
fn messages_are_exact() {
    let messages: Vec<String> = samples().iter().map(|e| e.message()).collect();
    assert_eq!(
        messages,
        vec![
            "invalid compiler version: ",
            "cache directory unavailable: permission denied",
            "network error while downloading the compiler: connection reset",
            "unsupported platform: plan9-mips",
            "write error while storing the compiler: disk full",
            "contract not found: src/Missing.sol",
            "spawning the compiler failed: no such file",
            "serialization of the compilation request failed: src/Foo.sol",
            "non-zero exit status from the compiler: status 1: boom",
            "compiler reported errors: a\nb\n",
            "malformed compiler output: <html>",
        ]
    );
}

#[test]
fn messages_of_different_kinds_differ_even_with_equal_details() {
    let same_detail = vec![
        Error::InvalidVersionSpec("x".into()),
        Error::CacheDirUnavailable("x".into()),
        Error::NetworkError("x".into()),
        Error::UnsupportedPlatform("x".into()),
        Error::WriteError("x".into()),
        Error::ContractNotFound("x".into()),
        Error::SpawnError("x".into()),
        Error::SerializationError("x".into()),
        Error::NonZeroExit(0, "x".into()),
        Error::CompilerReportedError(vec!["x".into()]),
        Error::MalformedOutput("x".into()),
    ];
    for (i, a) in same_detail.iter().enumerate() {
        for (j, b) in same_detail.iter().enumerate() {
            if i != j {
                assert_ne!(a.message(), b.message());
            }
        }
    }
}

#[test]
fn exit_status_is_written_in_decimal() {
    assert_eq!(
        Error::NonZeroExit(-2147483648, "".into()).message(),
        "non-zero exit status from the compiler: status -2147483648: "
    );
    assert_eq!(
        Error::NonZeroExit(2147483647, "e".into()).message(),
        "non-zero exit status from the compiler: status 2147483647: e"
    );
    assert_eq!(
        Error::NonZeroExit(0, "e".into()).message(),
        "non-zero exit status from the compiler: status 0: e"
    );
    assert_eq!(
        Error::NonZeroExit(101, "e".into()).message(),
        "non-zero exit status from the compiler: status 101: e"
    );
}

#[test]
fn headlines() {
    assert_eq!(ErrorKind::ContractNotFound.headline_text(), "contract not found");
    assert_eq!(ErrorKind::MalformedOutput.headline_text(), "malformed compiler output");
    assert_eq!(Error::CompilerReportedError(vec![]).message(), "compiler reported errors: ");
}

#[test]
fn reports_name_the_step_that_failed() {
    let reports: Vec<String> = samples().iter().map(|e| e.report()).collect();
    assert_eq!(
        reports,
        vec![
            "Error building zksolc_manager: invalid compiler version: ",
            "Failed to setup compilers directory: cache directory unavailable: permission denied",
            "Failed to download the file: network error while downloading the compiler: connection reset",
            "Failed to download the file: unsupported platform: plan9-mips",
            "Failed to download the file: write error while storing the compiler: disk full",
            "Failed to parse json input for zksolc compiler: contract not found: src/Missing.sol",
            "Failed to compile smart contracts with zksolc: spawning the compiler failed: no such file",
            "Failed to parse json input for zksolc compiler: serialization of the compilation request failed: src/Foo.sol",
            "Failed to compile smart contracts with zksolc: non-zero exit status from the compiler: status 1: boom",
            "Failed to compile smart contracts with zksolc: compiler reported errors: a\nb\n",
            "Failed to compile smart contracts with zksolc: malformed compiler output: <html>",
        ]
    );
    assert_eq!(ErrorKind::WriteError.step_text(), "Failed to download the file");
}
