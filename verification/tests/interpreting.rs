use zksolc_driver::error::{Error, ErrorKind};
use zksolc_driver::json::Json;
use zksolc_driver::output::{
    collect_error_messages, interpret, interpret_document, read_document, CompilationOutcome,
    Diagnostic,
};

const ONE_CONTRACT: &str = r#"{
  "contracts": {
    "src/Foo.sol": {
      "Foo": {
        "abi": [ { "type": "constructor", "inputs": [] } ],
        "evm": { "bytecode": { "object": "0000002b" } }
      }
    }
  },
  "version": "0.8.19",
  "zk_version": "1.3.9"
}"#;

#[test]
fn success_with_one_contract() {
    match interpret(ONE_CONTRACT) {
        CompilationOutcome::Success(artifacts) => {
            assert_eq!(artifacts.len(), 1);
            assert_eq!(artifacts[0].name, "Foo");
            assert_eq!(artifacts[0].file, "src/Foo.sol");
            assert_eq!(artifacts[0].bytecode, "0000002b");
            match &artifacts[0].abi {
                Json::Array(items) => assert_eq!(items.len(), 1),
                other => panic!("expected an array, got {:?}", other),
            }
        }
        other => panic!("expected success, got {:?}", other),
    }
}

#[test]
fn one_error_is_reported_verbatim() {
    let raw = r#"{"errors":[{"severity":"error","message":"ParserError: Expected ';' but got '}'\n  --> src/Foo.sol:3:1\n"}],"contracts":{}}"#;
    match interpret(raw) {
        CompilationOutcome::Failure(Error::CompilerReportedError(messages)) => {
            assert_eq!(
                messages,
                vec!["ParserError: Expected ';' but got '}'\n  --> src/Foo.sol:3:1\n".to_string()]
            );
        }
        other => panic!("expected a reported error, got {:?}", other),
    }
}

#[test]
fn formatted_message_is_preferred() {
    let raw = r#"{"errors":[{"severity":"error","message":"short","formattedMessage":"long form"}]}"#;
    match interpret(raw) {
        CompilationOutcome::Failure(Error::CompilerReportedError(messages)) => {
            assert_eq!(messages, vec!["long form".to_string()]);
        }
        other => panic!("expected a reported error, got {:?}", other),
    }
}

#[test]
fn warnings_do_not_fail_the_build() {
    let raw = r#"{"errors":[{"severity":"warning","message":"unused variable"}],
        "contracts":{"a.sol":{"A":{}, "B":{"evm":{"bytecode":{"object":"ff"}}}},"b.sol":{"C":{"abi":null}}}}"#;
    match interpret(raw) {
        CompilationOutcome::Success(artifacts) => {
            let names: Vec<(&str, &str, &str)> = artifacts
                .iter()
                .map(|a| (a.file.as_str(), a.name.as_str(), a.bytecode.as_str()))
                .collect();
            assert_eq!(names, vec![("a.sol", "A", ""), ("a.sol", "B", "ff"), ("b.sol", "C", "")]);
            assert!(matches!(artifacts[0].abi, Json::Null));
        }
        other => panic!("expected success, got {:?}", other),
    }
    let doc = read_document(raw).unwrap();
    assert_eq!(doc.diagnostics.len(), 1);
    assert_eq!(doc.diagnostics[0].severity, "warning");
    assert_eq!(doc.diagnostics[0].message, "unused variable");
}

#[test]
fn only_errors_are_collected_in_order() {
    let raw = r#"{"errors":[
        {"severity":"error","message":"first"},
        {"severity":"warning","message":"second"},
        {"severity":"info","message":"third"},
        {"severity":"error","message":"fourth"}]}"#;
    match interpret(raw) {
        CompilationOutcome::Failure(e) => {
            assert_eq!(e.kind(), ErrorKind::CompilerReportedError);
            match e {
                Error::CompilerReportedError(messages) => {
                    assert_eq!(messages, vec!["first".to_string(), "fourth".to_string()])
                }
                other => panic!("got {:?}", other),
            }
        }
        other => panic!("expected a failure, got {:?}", other),
    }
}

fn malformed(raw: &str) {
    match interpret(raw) {
        CompilationOutcome::Failure(Error::MalformedOutput(text)) => assert_eq!(text, raw),
        other => panic!("{:?}: expected malformed output, got {:?}", raw, other),
    }
}

#[test]
fn unparseable_output_is_malformed() {
    malformed("");
    malformed("Segmentation fault");
    malformed(&ONE_CONTRACT[..ONE_CONTRACT.len() - 10]);
    malformed("{\"contracts\": {");
    malformed("<html></html>");
}

#[test]
fn output_of_another_shape_is_malformed() {
    malformed("[]");
    malformed("null");
    malformed("\"ok\"");
    malformed(r#"{"errors":{}}"#);
    malformed(r#"{"errors":null}"#);
    malformed(r#"{"errors":["boom"]}"#);
    malformed(r#"{"errors":[{"message":"no severity"}]}"#);
    malformed(r#"{"errors":[{"severity":"error"}]}"#);
    malformed(r#"{"errors":[{"severity":1,"message":"x"}]}"#);
    malformed(r#"{"contracts":[]}"#);
    malformed(r#"{"contracts":{"a.sol":[]}}"#);
    malformed(r#"{"contracts":{"a.sol":{"A":1}}}"#);
}

#[test]
fn empty_document_is_an_empty_success() {
    match interpret("{}") {
        CompilationOutcome::Success(artifacts) => assert!(artifacts.is_empty()),
        other => panic!("expected success, got {:?}", other),
    }
}

#[test]
fn interpret_document_without_a_document() {
    match interpret_document("garbage", None) {
        CompilationOutcome::Failure(Error::MalformedOutput(text)) => assert_eq!(text, "garbage"),
        other => panic!("got {:?}", other),
    }
}

#[test]
fn interpret_document_agrees_with_interpret() {
    let doc = read_document(ONE_CONTRACT);
    match interpret_document(ONE_CONTRACT, doc) {
        CompilationOutcome::Success(artifacts) => assert_eq!(artifacts.len(), 1),
        other => panic!("got {:?}", other),
    }
}

#[test]
fn collecting_from_diagnostics() {
    let list = vec![
        Diagnostic { severity: "warning".into(), message: "w".into() },
        Diagnostic { severity: "error".into(), message: "e1".into() },
        Diagnostic { severity: "Error".into(), message: "not counted".into() },
        Diagnostic { severity: "error".into(), message: "e2".into() },
    ];
    assert_eq!(collect_error_messages(&list), vec!["e1".to_string(), "e2".to_string()]);
    assert!(collect_error_messages(&Vec::new()).is_empty());
}
