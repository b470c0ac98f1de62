//! Interpreting what the compiler printed.
//!
//! The compiler answers with one JSON object. Its member `errors`, if there is
//! one, lists diagnostics, each with a `severity` and a text: the member
//! `formattedMessage` where there is one, else `message`. Its member
//! `contracts`, if there is one, holds one object per source file, and in it
//! one object per contract. Output of any other shape is malformed.

use vstd::prelude::*;
use crate::error::{Error, ErrorView};
use crate::json::{
    element_views,
    find_member,
    find_text,
    lemma_array_view,
    lemma_object_view,
    member_named,
    member_views,
    parse,
    parse_spec,
    text_named,
    Json,
    JsonView,
    Member,
    MemberView,
};
use crate::text::str_equal;

verus! {

/// One message of the compiler.
#[derive(Debug)]
pub struct Diagnostic {
    /// `error`, `warning` or `info`, as the compiler wrote it.
    pub severity: String,
    /// The text of the message, unchanged.
    pub message: String,
}

/// The mathematical value of a [`Diagnostic`].
pub struct DiagnosticView {
    pub severity: Seq<char>,
    pub message: Seq<char>,
}

impl View for Diagnostic {
    type V = DiagnosticView;

    open spec fn view(&self) -> DiagnosticView {
        DiagnosticView { severity: self.severity@, message: self.message@ }
    }
}

/// What the compiler made of one contract.
#[derive(Debug)]
pub struct Artifact {
    /// The source file that declares the contract.
    pub file: String,
    /// The contract's name.
    pub name: String,
    /// The bytecode in hexadecimal; empty where the compiler gave none.
    pub bytecode: String,
    /// The interface description; `null` where the compiler gave none.
    pub abi: Json,
}

/// The mathematical value of an [`Artifact`].
pub struct ArtifactView {
    pub file: Seq<char>,
    pub name: Seq<char>,
    pub bytecode: Seq<char>,
    pub abi: JsonView,
}

impl View for Artifact {
    type V = ArtifactView;

    open spec fn view(&self) -> ArtifactView {
        ArtifactView { file: self.file@, name: self.name@, bytecode: self.bytecode@, abi: self.abi@ }
    }
}

/// What the compiler printed, once understood.
#[derive(Debug)]
pub struct OutputDocument {
    /// The compiled contracts, in the order of the output.
    pub artifacts: Vec<Artifact>,
    /// The messages, in the order of the output.
    pub diagnostics: Vec<Diagnostic>,
}

/// The mathematical value of an [`OutputDocument`].
pub struct OutputDocumentView {
    pub artifacts: Seq<ArtifactView>,
    pub diagnostics: Seq<DiagnosticView>,
}

/// The values of `list`, in order.
pub open spec fn diagnostic_views(list: Seq<Diagnostic>) -> Seq<DiagnosticView> {
    Seq::new(list.len(), |i: int| list[i]@)
}

/// The values of `list`, in order.
pub open spec fn artifact_views(list: Seq<Artifact>) -> Seq<ArtifactView> {
    Seq::new(list.len(), |i: int| list[i]@)
}

impl View for OutputDocument {
    type V = OutputDocumentView;

    open spec fn view(&self) -> OutputDocumentView {
        OutputDocumentView {
            artifacts: artifact_views(self.artifacts@),
            diagnostics: diagnostic_views(self.diagnostics@),
        }
    }
}

/// The result of one run of the compiler.
#[derive(Debug)]
pub enum CompilationOutcome {
    /// The compiler reported no error. Holds what it compiled.
    Success(Vec<Artifact>),
    /// The compiler reported errors, or its output was not understood.
    Failure(Error),
}

/// The mathematical value of a [`CompilationOutcome`].
pub enum CompilationOutcomeView {
    Success(Seq<ArtifactView>),
    Failure(ErrorView),
}

impl View for CompilationOutcome {
    type V = CompilationOutcomeView;

    open spec fn view(&self) -> CompilationOutcomeView {
        match self {
            CompilationOutcome::Success(list) => CompilationOutcomeView::Success(
                artifact_views(list@),
            ),
            CompilationOutcome::Failure(e) => CompilationOutcomeView::Failure(e@),
        }
    }
}

/// The diagnostic that one entry of `errors` writes.
pub open spec fn diagnostic_of(entry: JsonView) -> Option<DiagnosticView> {
    match entry {
        JsonView::Object(members) => match find_text(members, "severity"@) {
            None => None,
            Some(severity) => match find_text(members, "formattedMessage"@) {
                Some(message) => Some(DiagnosticView { severity, message }),
                None => match find_text(members, "message"@) {
                    Some(message) => Some(DiagnosticView { severity, message }),
                    None => None,
                },
            },
        },
        _ => None,
    }
}

/// The diagnostics that the entries of `errors` write, if each writes one.
pub open spec fn diagnostics_of(entries: Seq<JsonView>) -> Option<Seq<DiagnosticView>>
    decreases entries.len(),
{
    if entries.len() == 0 {
        Some(Seq::empty())
    } else {
        match diagnostics_of(entries.drop_last()) {
            None => None,
            Some(before) => match diagnostic_of(entries.last()) {
                None => None,
                Some(d) => Some(before.push(d)),
            },
        }
    }
}

/// The bytecode among the members of a contract: the text at `evm.bytecode.object`.
pub open spec fn bytecode_of(contract: Seq<MemberView>) -> Seq<char> {
    match find_member(contract, "evm"@) {
        Some(JsonView::Object(evm)) => match find_member(evm, "bytecode"@) {
            Some(JsonView::Object(bytecode)) => match find_text(bytecode, "object"@) {
                Some(text) => text,
                None => Seq::empty(),
            },
            _ => Seq::empty(),
        },
        _ => Seq::empty(),
    }
}

/// The interface description among the members of a contract.
pub open spec fn abi_of(contract: Seq<MemberView>) -> JsonView {
    match find_member(contract, "abi"@) {
        Some(abi) => abi,
        None => JsonView::Null,
    }
}

/// The artifact that one member of a file's object writes.
pub open spec fn artifact_of(file: Seq<char>, contract: MemberView) -> Option<ArtifactView> {
    match contract.value {
        JsonView::Object(members) => Some(
            ArtifactView {
                file,
                name: contract.name,
                bytecode: bytecode_of(members),
                abi: abi_of(members),
            },
        ),
        _ => None,
    }
}

/// `acc`, followed by the artifacts of the contracts of one file.
pub open spec fn file_artifacts(
    acc: Seq<ArtifactView>,
    file: Seq<char>,
    contracts: Seq<MemberView>,
) -> Option<Seq<ArtifactView>>
    decreases contracts.len(),
{
    if contracts.len() == 0 {
        Some(acc)
    } else {
        match file_artifacts(acc, file, contracts.drop_last()) {
            None => None,
            Some(before) => match artifact_of(file, contracts.last()) {
                None => None,
                Some(a) => Some(before.push(a)),
            },
        }
    }
}

/// The artifacts of all the files under `contracts`.
pub open spec fn all_artifacts(files: Seq<MemberView>) -> Option<Seq<ArtifactView>>
    decreases files.len(),
{
    if files.len() == 0 {
        Some(Seq::empty())
    } else {
        match all_artifacts(files.drop_last()) {
            None => None,
            Some(before) => match files.last().value {
                JsonView::Object(contracts) => file_artifacts(before, files.last().name, contracts),
                _ => None,
            },
        }
    }
}

/// The document that a JSON value writes, if it has the shape of one.
pub open spec fn document_of(json: JsonView) -> Option<OutputDocumentView> {
    match json {
        JsonView::Object(members) => {
            let diagnostics = match find_member(members, "errors"@) {
                None => Some(Seq::empty()),
                Some(JsonView::Array(entries)) => diagnostics_of(entries),
                Some(_) => None,
            };
            let artifacts = match find_member(members, "contracts"@) {
                None => Some(Seq::empty()),
                Some(JsonView::Object(files)) => all_artifacts(files),
                Some(_) => None,
            };
            match diagnostics {
                None => None,
                Some(diagnostics) => match artifacts {
                    None => None,
                    Some(artifacts) => Some(OutputDocumentView { artifacts, diagnostics }),
                },
            }
        },
        _ => None,
    }
}

/// The document that `raw` writes, if it is JSON of that shape.
pub open spec fn read_document_spec(raw: Seq<char>) -> Option<OutputDocumentView> {
    match parse_spec(raw) {
        None => None,
        Some(json) => document_of(json),
    }
}

/// The texts of the diagnostics of severity `error`, in order.
pub open spec fn error_messages(diagnostics: Seq<DiagnosticView>) -> Seq<Seq<char>>
    decreases diagnostics.len(),
{
    if diagnostics.len() == 0 {
        Seq::empty()
    } else if diagnostics.last().severity == "error"@ {
        error_messages(diagnostics.drop_last()).push(diagnostics.last().message)
    } else {
        error_messages(diagnostics.drop_last())
    }
}

/// What a run of the compiler came to, given its output `raw` and the
/// document that the output writes, if it writes one.
pub open spec fn outcome_of(raw: Seq<char>, document: Option<OutputDocumentView>)
    -> CompilationOutcomeView {
    match document {
        None => CompilationOutcomeView::Failure(ErrorView::MalformedOutput(raw)),
        Some(doc) => {
            if error_messages(doc.diagnostics).len() > 0 {
                CompilationOutcomeView::Failure(
                    ErrorView::CompilerReportedError(error_messages(doc.diagnostics)),
                )
            } else {
                CompilationOutcomeView::Success(doc.artifacts)
            }
        },
    }
}

/// What a run of the compiler that printed `raw` came to.
pub open spec fn interpret_spec(raw: Seq<char>) -> CompilationOutcomeView {
    outcome_of(raw, read_document_spec(raw))
}

/// Executable form of [`diagnostic_of`].
fn read_diagnostic(entry: &Json) -> (r: Option<Diagnostic>)
    ensures
        match r {
            Some(d) => diagnostic_of(entry@) == Some(d@),
            None => diagnostic_of(entry@) is None,
        },
{
    match entry {
        Json::Object(members) => {
            proof {
                lemma_object_view(*members);
            }
            let severity = match text_named(members, "severity") {
                Some(text) => text.clone(),
                None => {
                    return None;
                },
            };
            match text_named(members, "formattedMessage") {
                Some(text) => Some(Diagnostic { severity, message: text.clone() }),
                None => match text_named(members, "message") {
                    Some(text) => Some(Diagnostic { severity, message: text.clone() }),
                    None => None,
                },
            }
        },
        _ => None,
    }
}

/// Executable form of [`diagnostics_of`].
fn read_diagnostics(entries: &Vec<Json>) -> (r: Option<Vec<Diagnostic>>)
    ensures
        match r {
            Some(list) => diagnostics_of(element_views(entries@)) == Some(
                diagnostic_views(list@),
            ),
            None => diagnostics_of(element_views(entries@)) is None,
        },
{
    let ghost all = element_views(entries@);
    let mut list: Vec<Diagnostic> = Vec::new();
    let mut i: usize = 0;
    assert(all.take(0) =~= Seq::<JsonView>::empty());
    assert(diagnostic_views(list@) =~= Seq::<DiagnosticView>::empty());
    while i < entries.len()
        invariant
            i <= entries.len(),
            all == element_views(entries@),
            diagnostics_of(all.take(i as int)) == Some(diagnostic_views(list@)),
        decreases entries.len() - i,
    {
        proof {
            assert(all.take(i + 1).drop_last() =~= all.take(i as int));
            assert(all.take(i + 1).last() == entries@[i as int]@);
        }
        match read_diagnostic(&entries[i]) {
            Some(d) => {
                proof {
                    assert(diagnostic_views(list@.push(d)) =~= diagnostic_views(list@).push(d@));
                }
                list.push(d);
            },
            None => {
                proof {
                    lemma_diagnostics_prefix(all, i + 1);
                }
                return None;
            },
        }
        i += 1;
    }
    assert(all.take(entries.len() as int) =~= all);
    Some(list)
}

/// Where a prefix of the entries writes no diagnostics, neither do all of them.
proof fn lemma_diagnostics_prefix(entries: Seq<JsonView>, n: int)
    requires
        0 <= n <= entries.len(),
        diagnostics_of(entries.take(n)) is None,
    ensures
        diagnostics_of(entries) is None,
    decreases entries.len(),
{
    if n < entries.len() {
        assert(entries.drop_last().take(n) =~= entries.take(n));
        lemma_diagnostics_prefix(entries.drop_last(), n);
    } else {
        assert(entries.take(n) =~= entries);
    }
}

/// Executable form of [`bytecode_of`].
fn read_bytecode(contract: &Vec<Member>) -> (r: String)
    ensures
        r@ == bytecode_of(member_views(contract@)),
{
    if let Some(Json::Object(evm)) = member_named(contract, "evm") {
        proof {
            lemma_object_view(*evm);
        }
        if let Some(Json::Object(bytecode)) = member_named(evm, "bytecode") {
            proof {
                lemma_object_view(*bytecode);
            }
            if let Some(text) = text_named(bytecode, "object") {
                return text.clone();
            }
        }
    }
    String::new()
}

/// Executable form of [`artifact_of`].
fn read_artifact(file: &String, contract: &Member) -> (r: Option<Artifact>)
    ensures
        match r {
            Some(a) => artifact_of(file@, MemberView { name: contract.name@, value: contract.value@ })
                == Some(a@),
            None => artifact_of(file@, MemberView { name: contract.name@, value: contract.value@ })
                is None,
        },
{
    match &contract.value {
        Json::Object(members) => {
            proof {
                lemma_object_view(*members);
            }
            let abi = match member_named(members, "abi") {
                Some(abi) => abi.duplicate(),
                None => Json::Null,
            };
            Some(
                Artifact {
                    file: file.clone(),
                    name: contract.name.clone(),
                    bytecode: read_bytecode(members),
                    abi,
                },
            )
        },
        _ => None,
    }
}

/// Where a prefix of the contracts of a file writes no artifacts, neither do all of them.
proof fn lemma_file_artifacts_prefix(
    acc: Seq<ArtifactView>,
    file: Seq<char>,
    contracts: Seq<MemberView>,
    n: int,
)
    requires
        0 <= n <= contracts.len(),
        file_artifacts(acc, file, contracts.take(n)) is None,
    ensures
        file_artifacts(acc, file, contracts) is None,
    decreases contracts.len(),
{
    if n < contracts.len() {
        assert(contracts.drop_last().take(n) =~= contracts.take(n));
        lemma_file_artifacts_prefix(acc, file, contracts.drop_last(), n);
    } else {
        assert(contracts.take(n) =~= contracts);
    }
}

/// Where a prefix of the files writes no artifacts, neither do all of them.
proof fn lemma_all_artifacts_prefix(files: Seq<MemberView>, n: int)
    requires
        0 <= n <= files.len(),
        all_artifacts(files.take(n)) is None,
    ensures
        all_artifacts(files) is None,
    decreases files.len(),
{
    if n < files.len() {
        assert(files.drop_last().take(n) =~= files.take(n));
        lemma_all_artifacts_prefix(files.drop_last(), n);
    } else {
        assert(files.take(n) =~= files);
    }
}

/// Executable form of [`file_artifacts`]: appends the artifacts of one file to
/// `list`, and says whether every contract of the file wrote one.
fn read_file_artifacts(list: &mut Vec<Artifact>, file: &String, contracts: &Vec<Member>) -> (ok:
    bool)
    ensures
        ok == file_artifacts(artifact_views(old(list)@), file@, member_views(contracts@)) is Some,
        ok ==> file_artifacts(artifact_views(old(list)@), file@, member_views(contracts@)) == Some(
            artifact_views(final(list)@),
        ),
{
    let ghost all = member_views(contracts@);
    let ghost acc = artifact_views(list@);
    let mut i: usize = 0;
    assert(all.take(0) =~= Seq::<MemberView>::empty());
    while i < contracts.len()
        invariant
            i <= contracts.len(),
            all == member_views(contracts@),
            acc == artifact_views(old(list)@),
            file_artifacts(acc, file@, all.take(i as int)) == Some(artifact_views(list@)),
        decreases contracts.len() - i,
    {
        proof {
            assert(all.take(i + 1).drop_last() =~= all.take(i as int));
            assert(all.take(i + 1).last() == all[i as int]);
        }
        match read_artifact(file, &contracts[i]) {
            Some(a) => {
                proof {
                    assert(artifact_views(list@.push(a)) =~= artifact_views(list@).push(a@));
                }
                list.push(a);
            },
            None => {
                proof {
                    lemma_file_artifacts_prefix(acc, file@, all, i + 1);
                }
                return false;
            },
        }
        i += 1;
    }
    assert(all.take(contracts.len() as int) =~= all);
    true
}

/// Executable form of [`all_artifacts`].
fn read_all_artifacts(files: &Vec<Member>) -> (r: Option<Vec<Artifact>>)
    ensures
        match r {
            Some(list) => all_artifacts(member_views(files@)) == Some(artifact_views(list@)),
            None => all_artifacts(member_views(files@)) is None,
        },
{
    let ghost all = member_views(files@);
    let mut list: Vec<Artifact> = Vec::new();
    let mut i: usize = 0;
    assert(all.take(0) =~= Seq::<MemberView>::empty());
    assert(artifact_views(list@) =~= Seq::<ArtifactView>::empty());
    while i < files.len()
        invariant
            i <= files.len(),
            all == member_views(files@),
            all_artifacts(all.take(i as int)) == Some(artifact_views(list@)),
        decreases files.len() - i,
    {
        proof {
            assert(all.take(i + 1).drop_last() =~= all.take(i as int));
            assert(all.take(i + 1).last() == all[i as int]);
        }
        let ok = match &files[i].value {
            Json::Object(contracts) => {
                proof {
                    lemma_object_view(*contracts);
                }
                read_file_artifacts(&mut list, &files[i].name, contracts)
            },
            _ => false,
        };
        if !ok {
            proof {
                lemma_all_artifacts_prefix(all, i + 1);
            }
            return None;
        }
        i += 1;
    }
    assert(all.take(files.len() as int) =~= all);
    Some(list)
}

/// Reads the document that a JSON value writes, if it has the shape of one.
pub fn read_document_json(json: &Json) -> (r: Option<OutputDocument>)
    ensures
        match r {
            Some(doc) => document_of(json@) == Some(doc@),
            None => document_of(json@) is None,
        },
{
    match json {
        Json::Object(members) => {
            proof {
                lemma_object_view(*members);
            }
            let diagnostics = match member_named(members, "errors") {
                None => Vec::new(),
                Some(Json::Array(entries)) => {
                    proof {
                        lemma_array_view(*entries);
                    }
                    match read_diagnostics(entries) {
                        Some(list) => list,
                        None => {
                            return None;
                        },
                    }
                },
                Some(_) => {
                    return None;
                },
            };
            let artifacts = match member_named(members, "contracts") {
                None => Vec::new(),
                Some(Json::Object(files)) => {
                    proof {
                        lemma_object_view(*files);
                    }
                    match read_all_artifacts(files) {
                        Some(list) => list,
                        None => {
                            return None;
                        },
                    }
                },
                Some(_) => {
                    return None;
                },
            };
            proof {
                assert(diagnostic_views(Seq::<Diagnostic>::empty()) =~= Seq::<
                    DiagnosticView,
                >::empty());
                assert(artifact_views(Seq::<Artifact>::empty()) =~= Seq::<ArtifactView>::empty());
            }
            Some(OutputDocument { artifacts, diagnostics })
        },
        _ => None,
    }
}

/// Reads the compiler's output: JSON text with the shape of a document.
pub fn read_document(raw: &str) -> (r: Option<OutputDocument>)
    ensures
        match r {
            Some(doc) => read_document_spec(raw@) == Some(doc@),
            None => read_document_spec(raw@) is None,
        },
{
    match parse(raw) {
        Some(json) => read_document_json(&json),
        None => None,
    }
}

/// The texts of the diagnostics of severity `error`, in order and unchanged.
pub fn collect_error_messages(diagnostics: &Vec<Diagnostic>) -> (r: Vec<String>)
    ensures
        r.deep_view() == error_messages(diagnostic_views(diagnostics@)),
{
    let ghost all = diagnostic_views(diagnostics@);
    let mut list: Vec<String> = Vec::new();
    let mut i: usize = 0;
    assert(all.take(0) =~= Seq::<DiagnosticView>::empty());
    assert(list.deep_view() =~= Seq::<Seq<char>>::empty());
    while i < diagnostics.len()
        invariant
            i <= diagnostics.len(),
            all == diagnostic_views(diagnostics@),
            list.deep_view() == error_messages(all.take(i as int)),
        decreases diagnostics.len() - i,
    {
        proof {
            assert(all.take(i + 1).drop_last() =~= all.take(i as int));
            assert(all.take(i + 1).last() == all[i as int]);
        }
        if str_equal(diagnostics[i].severity.as_str(), "error") {
            let ghost before = list.deep_view();
            let text = diagnostics[i].message.clone();
            list.push(text);
            assert(list.deep_view() =~= before.push(text@));
        }
        i += 1;
    }
    assert(all.take(diagnostics.len() as int) =~= all);
    list
}

/// Decides what a run of the compiler came to, given its output and the
/// document read from it.
///
/// Without a document the run failed with malformed output, and the failure
/// holds the output unchanged. With a document that holds diagnostics of
/// severity `error`, the run failed with their texts. Otherwise the run
/// succeeded with the document's artifacts.
pub fn interpret_document(raw: &str, document: Option<OutputDocument>) -> (r: CompilationOutcome)
    ensures
        r@ == outcome_of(
            raw@,
            match document {
                Some(doc) => Some(doc@),
                None => None,
            },
        ),
{
    match document {
        None => CompilationOutcome::Failure(Error::MalformedOutput(raw.to_owned())),
        Some(doc) => {
            let messages = collect_error_messages(&doc.diagnostics);
            if messages.len() > 0 {
                CompilationOutcome::Failure(Error::CompilerReportedError(messages))
            } else {
                CompilationOutcome::Success(doc.artifacts)
            }
        },
    }
}

/// Interprets what the compiler printed.
///
/// Output that is not a well-formed document gives a failure of kind
/// malformed output, which holds the output. A document with diagnostics of
/// severity `error` gives a failure that holds their texts. Any other
/// document gives success with its artifacts.
pub fn interpret(raw: &str) -> (r: CompilationOutcome)
    ensures
        r@ == interpret_spec(raw@),
{
    let document = read_document(raw);
    interpret_document(raw, document)
}

/// Output that writes no document is never taken for a success: it gives the
/// failure of kind malformed output that holds the output itself.
pub proof fn lemma_unreadable_output_is_malformed(raw: Seq<char>)
    requires
        read_document_spec(raw) is None,
    ensures
        interpret_spec(raw) == CompilationOutcomeView::Failure(ErrorView::MalformedOutput(raw)),
{
}

/// The outcome is a success exactly when the output writes a document that
/// holds no diagnostic of severity `error`; the success then holds the
/// document's artifacts.
pub proof fn lemma_success_means_no_errors(raw: Seq<char>)
    ensures
        interpret_spec(raw) is Success <==> read_document_spec(raw) is Some && error_messages(
            read_document_spec(raw)->0.diagnostics,
        ).len() == 0,
        interpret_spec(raw) is Success ==> interpret_spec(raw)->Success_0 == read_document_spec(
            raw,
        )->0.artifacts,
{
}

/// Every text among the error messages is the text of a diagnostic of
/// severity `error`, and every such diagnostic's text is among them.
pub proof fn lemma_error_messages_are_verbatim(diagnostics: Seq<DiagnosticView>)
    ensures
        forall|m: Seq<char>| #[trigger]
            error_messages(diagnostics).contains(m) <==> exists|i: int|
                0 <= i < diagnostics.len() && diagnostics[i].severity == "error"@
                    && diagnostics[i].message == m,
    decreases diagnostics.len(),
{
    if diagnostics.len() > 0 {
        let before = diagnostics.drop_last();
        let last = diagnostics.last();
        lemma_error_messages_are_verbatim(before);
        assert forall|m: Seq<char>| #[trigger]
            error_messages(diagnostics).contains(m) <==> exists|i: int|
                0 <= i < diagnostics.len() && diagnostics[i].severity == "error"@
                    && diagnostics[i].message == m by {
            let found = error_messages(before);
            if error_messages(diagnostics).contains(m) {
                if last.severity == "error"@ {
                    let k = choose|k: int|
                        0 <= k < found.push(last.message).len() && found.push(last.message)[k] == m;
                    if k < found.len() {
                        assert(found[k] == m);
                        assert(found.contains(m));
                    } else {
                        assert(diagnostics[diagnostics.len() - 1].message == m);
                    }
                }
                if found.contains(m) {
                    let i = choose|i: int|
                        0 <= i < before.len() && before[i].severity == "error"@ && before[i].message
                            == m;
                    assert(diagnostics[i] == before[i]);
                }
            }
            if exists|i: int|
                0 <= i < diagnostics.len() && diagnostics[i].severity == "error"@
                    && diagnostics[i].message == m {
                let i = choose|i: int|
                    0 <= i < diagnostics.len() && diagnostics[i].severity == "error"@
                        && diagnostics[i].message == m;
                if i < before.len() {
                    assert(before[i] == diagnostics[i]);
                    assert(found.contains(m));
                    let k = choose|k: int| 0 <= k < found.len() && found[k] == m;
                    if last.severity == "error"@ {
                        assert(found.push(last.message)[k] == m);
                    }
                } else {
                    assert(found.push(last.message)[found.len() as int] == m);
                }
            }
        }
    }
}

} // verus!
