use zksolc_driver::error::Error;
use zksolc_driver::invoke::{classify, prepare_invocation, ProcessResult};
use zksolc_driver::json::{member_named, parse, render, text_named, Json, Member};
use zksolc_driver::request::{
    build_request, contains_source, copy_sources, copy_strings, CompilationRequest, Project,
    Settings, SourceFile,
};

fn source(path: &str, content: &str) -> SourceFile {
    SourceFile { path: path.to_string(), content: content.to_string() }
}

fn project() -> Project {
    Project {
        source_root: "src".to_string(),
        sources: vec![
            source("src/Foo.sol", "contract Foo {}\n"),
            source("src/Bar.sol", "contract Bar { string s = \"x\"; }"),
            source("lib/Dep.sol", "library Dep {}"),
        ],
    }
}

fn settings() -> Settings {
    Settings {
        optimizer_enabled: true,
        optimizer_runs: 200,
        remappings: vec!["ds-test/=lib/ds-test/src/".to_string()],
    }
}

#[test]
fn request_for_a_contract_of_the_project() {
    let r = build_request("Foo.sol", &project(), &settings(), false).unwrap();
    assert_eq!(r.contract_path, "src/Foo.sol");
    assert_eq!(r.sources.len(), 3);
    assert_eq!(r.sources[1].path, "src/Bar.sol");
    assert_eq!(r.sources[1].content, "contract Bar { string s = \"x\"; }");
    assert!(r.settings.optimizer_enabled);
    assert_eq!(r.settings.optimizer_runs, 200);
    assert_eq!(r.settings.remappings, vec!["ds-test/=lib/ds-test/src/".to_string()]);
    assert!(!r.is_system);
}

#[test]
fn system_mode_is_handed_on() {
    assert!(build_request("Foo.sol", &project(), &settings(), true).unwrap().is_system);
    assert!(!build_request("Foo.sol", &project(), &settings(), false).unwrap().is_system);
}

#[test]
fn contract_outside_the_project_is_not_found() {
    match build_request("Missing.sol", &project(), &settings(), false) {
        Err(Error::ContractNotFound(path)) => assert_eq!(path, "src/Missing.sol"),
        other => panic!("got {:?}", other),
    }
    match build_request("Dep.sol", &project(), &settings(), false) {
        Err(Error::ContractNotFound(path)) => assert_eq!(path, "src/Dep.sol"),
        other => panic!("got {:?}", other),
    }
    let empty = Project { source_root: "src/".to_string(), sources: Vec::new() };
    match build_request("Foo.sol", &empty, &settings(), false) {
        Err(Error::ContractNotFound(path)) => assert_eq!(path, "src/Foo.sol"),
        other => panic!("got {:?}", other),
    }
}

#[test]
fn looking_for_sources() {
    let p = project();
    assert!(contains_source(&p.sources, "lib/Dep.sol"));
    assert!(!contains_source(&p.sources, "lib/dep.sol"));
    assert!(!contains_source(&Vec::new(), ""));
}

#[test]
fn copies_are_equal() {
    let p = project();
    let copy = copy_sources(&p.sources);
    assert_eq!(format!("{:?}", copy), format!("{:?}", p.sources));
    let list = vec!["a".to_string(), "".to_string(), "c".to_string()];
    assert_eq!(copy_strings(&list), list);
    let s = settings().duplicate();
    assert_eq!(format!("{:?}", s), format!("{:?}", settings()));
}

#[test]
fn request_document_is_exact() {
    let project = Project {
        source_root: "src".to_string(),
        sources: vec![source("src/A.sol", "contract A {\n\t// \"quoted\" \\ \u{1}\n}")],
    };
    let settings = Settings {
        optimizer_enabled: false,
        optimizer_runs: 0,
        remappings: vec!["a=b".to_string(), "c=d".to_string()],
    };
    let r = build_request("A.sol", &project, &settings, true).unwrap();
    let text = render(&r.to_json());
    assert_eq!(
        text,
        concat_all(&[
            r#"{"language":"Solidity","#,
            r#""sources":{"src/A.sol":{"content":"contract A {\n\t// \"quoted\" \\ \u0001\n}"}},"#,
            r#""settings":{"remappings":["a=b","c=d"],"#,
            r#""optimizer":{"enabled":false,"runs":0},"#,
            r#""outputSelection":{"src/A.sol":{"*":["abi","evm.bytecode"]}},"#,
            r#""isSystem":true}}"#,
        ])
    );
}

fn concat_all(parts: &[&str]) -> String {
    let mut out = String::new();
    for p in parts {
        out.push_str(p);
    }
    out
}

#[test]
fn request_document_reads_back() {
    let r = build_request("Bar.sol", &project(), &settings(), false).unwrap();
    let text = render(&r.to_json());
    let back = parse(&text).unwrap();
    assert_eq!(render(&back), text);
    match &back {
        Json::Object(members) => {
            assert_eq!(text_named(members, "language").unwrap(), "Solidity");
            match member_named(members, "sources").unwrap() {
                Json::Object(sources) => {
                    assert_eq!(sources.len(), 3);
                    match member_named(sources, "src/Bar.sol").unwrap() {
                        Json::Object(file) => assert_eq!(
                            text_named(file, "content").unwrap(),
                            "contract Bar { string s = \"x\"; }"
                        ),
                        other => panic!("got {:?}", other),
                    }
                }
                other => panic!("got {:?}", other),
            }
            match member_named(members, "settings").unwrap() {
                Json::Object(settings) => {
                    assert!(matches!(
                        member_named(settings, "isSystem").unwrap(),
                        Json::Bool(false)
                    ));
                    match member_named(settings, "optimizer").unwrap() {
                        Json::Object(o) => {
                            assert!(matches!(member_named(o, "enabled").unwrap(), Json::Bool(true)));
                            assert!(
                                matches!(member_named(o, "runs").unwrap(), Json::Number(n) if n == "200")
                            );
                        }
                        other => panic!("got {:?}", other),
                    }
                }
                other => panic!("got {:?}", other),
            }
        }
        other => panic!("got {:?}", other),
    }
}

#[test]
fn rendering_values() {
    assert_eq!(render(&Json::Null), "null");
    assert_eq!(render(&Json::Bool(true)), "true");
    assert_eq!(render(&Json::Bool(false)), "false");
    assert_eq!(render(&Json::Number("-1.5e3".into())), "-1.5e3");
    assert_eq!(render(&Json::Text("".into())), "\"\"");
    assert_eq!(render(&Json::Text("a/b\u{7f}\u{e9}".into())), "\"a/b\u{7f}\u{e9}\"");
    assert_eq!(
        render(&Json::Text("\u{0}\u{8}\u{c}\u{1f}\n\r\t\"\\".into())),
        r#""\u0000\u0008\u000c\u001f\n\r\t\"\\""#
    );
    assert_eq!(render(&Json::Array(vec![])), "[]");
    assert_eq!(render(&Json::Object(vec![])), "{}");
    assert_eq!(
        render(&Json::Array(vec![Json::Null, Json::Array(vec![Json::Bool(true)]), Json::Text("x".into())])),
        r#"[null,[true],"x"]"#
    );
    assert_eq!(
        render(&Json::Object(vec![
            Member { name: "a b".into(), value: Json::Number("1".into()) },
            Member { name: "".into(), value: Json::Object(vec![]) },
        ])),
        r#"{"a b":1,"":{}}"#
    );
}

#[test]
fn rendered_text_reads_back() {
    for t in ["", "plain", "quote\" slash\\ nl\n cr\r tab\t", "\u{0}\u{1}\u{1f}", "\u{e9}\u{1f600}/"] {
        let rendered = render(&Json::Text(t.to_string()));
        match parse(&rendered) {
            Some(Json::Text(back)) => assert_eq!(back, t),
            other => panic!("{:?}: got {:?}", t, other),
        }
    }
}

#[test]
fn invocation_for_a_request() {
    let r = build_request("Foo.sol", &project(), &settings(), false).unwrap();
    let inv = prepare_invocation("/cache/zksolc-v1.3.9", &r).unwrap();
    assert_eq!(inv.program, "/cache/zksolc-v1.3.9");
    assert_eq!(inv.arguments, vec!["--standard-json".to_string()]);
    assert_eq!(inv.input, render(&r.to_json()));
}

#[test]
fn request_without_its_contract_cannot_be_written() {
    let r = CompilationRequest {
        contract_path: "src/Ghost.sol".to_string(),
        sources: vec![source("src/Foo.sol", "")],
        settings: settings(),
        is_system: false,
    };
    match prepare_invocation("zksolc", &r) {
        Err(Error::SerializationError(path)) => assert_eq!(path, "src/Ghost.sol"),
        other => panic!("got {:?}", other),
    }
}

#[test]
fn classifying_process_ends() {
    let ok = ProcessResult { exit_code: Some(0), stdout: "{}".into(), stderr: "warn".into() };
    assert_eq!(classify(ok).unwrap().text, "{}");
    let failed = ProcessResult { exit_code: Some(3), stdout: "out".into(), stderr: "bad".into() };
    match classify(failed) {
        Err(Error::NonZeroExit(code, stderr)) => {
            assert_eq!(code, 3);
            assert_eq!(stderr, "bad");
        }
        other => panic!("got {:?}", other),
    }
    let negative = ProcessResult { exit_code: Some(-1), stdout: "".into(), stderr: "".into() };
    assert!(matches!(classify(negative), Err(Error::NonZeroExit(-1, _))));
    let killed = ProcessResult { exit_code: None, stdout: "{}".into(), stderr: "".into() };
    match classify(killed) {
        Err(Error::SpawnError(reason)) => {
            assert_eq!(reason, "the compiler was ended before it exited")
        }
        other => panic!("got {:?}", other),
    }
}
