//! Assembling what the compiler is asked to do.
//!
//! A request names one contract file of the project, carries every source of
//! the project, and carries the settings: remappings, the optimizer, and the
//! system-mode flag, which is handed on as it is given.

use vstd::prelude::*;
use crate::error::{Error, ErrorView};
use crate::json::{
    element_views,
    lemma_array_view,
    lemma_object_view,
    member_views,
    Json,
    JsonView,
    Member,
    MemberView,
};
use crate::manager::{join, join_path};
use crate::text::{decimal, push_decimal, str_equal, string_of};

verus! {

/// One source file of a project.
#[derive(Clone, Debug)]
pub struct SourceFile {
    /// The file's path, as the compiler is to know it.
    pub path: String,
    /// The file's text.
    pub content: String,
}

/// The mathematical value of a [`SourceFile`].
pub struct SourceFileView {
    pub path: Seq<char>,
    pub content: Seq<char>,
}

impl View for SourceFile {
    type V = SourceFileView;

    open spec fn view(&self) -> SourceFileView {
        SourceFileView { path: self.path@, content: self.content@ }
    }
}

/// The values of `list`, in order.
pub open spec fn source_views(list: Seq<SourceFile>) -> Seq<SourceFileView> {
    Seq::new(list.len(), |i: int| list[i]@)
}

/// A project, as the surrounding build system has resolved it.
#[derive(Clone, Debug)]
pub struct Project {
    /// The directory under which the project's contracts lie.
    pub source_root: String,
    /// Every source file that the compiler needs.
    pub sources: Vec<SourceFile>,
}

/// The mathematical value of a [`Project`].
pub struct ProjectView {
    pub source_root: Seq<char>,
    pub sources: Seq<SourceFileView>,
}

impl View for Project {
    type V = ProjectView;

    open spec fn view(&self) -> ProjectView {
        ProjectView { source_root: self.source_root@, sources: source_views(self.sources@) }
    }
}

/// The settings of a build.
#[derive(Clone, Debug)]
pub struct Settings {
    /// Whether the optimizer runs.
    pub optimizer_enabled: bool,
    /// For how many runs of the contract the optimizer tunes the code.
    pub optimizer_runs: u64,
    /// The import remappings, each written `prefix=target`.
    pub remappings: Vec<String>,
}

/// The mathematical value of a [`Settings`].
pub struct SettingsView {
    pub optimizer_enabled: bool,
    pub optimizer_runs: nat,
    pub remappings: Seq<Seq<char>>,
}

impl View for Settings {
    type V = SettingsView;

    open spec fn view(&self) -> SettingsView {
        SettingsView {
            optimizer_enabled: self.optimizer_enabled,
            optimizer_runs: self.optimizer_runs as nat,
            remappings: self.remappings.deep_view(),
        }
    }
}

/// What the compiler is asked to do in one run.
#[derive(Clone, Debug)]
pub struct CompilationRequest {
    /// The path of the contract file to compile.
    pub contract_path: String,
    /// Every source file that the compiler needs.
    pub sources: Vec<SourceFile>,
    /// The settings of the build.
    pub settings: Settings,
    /// Whether to compile in system mode.
    pub is_system: bool,
}

/// The mathematical value of a [`CompilationRequest`].
pub struct CompilationRequestView {
    pub contract_path: Seq<char>,
    pub sources: Seq<SourceFileView>,
    pub settings: SettingsView,
    pub is_system: bool,
}

impl View for CompilationRequest {
    type V = CompilationRequestView;

    open spec fn view(&self) -> CompilationRequestView {
        CompilationRequestView {
            contract_path: self.contract_path@,
            sources: source_views(self.sources@),
            settings: self.settings@,
            is_system: self.is_system,
        }
    }
}

/// Whether one of `sources` has the path `path`.
pub open spec fn has_source(sources: Seq<SourceFileView>, path: Seq<char>) -> bool {
    exists|i: int| 0 <= i < sources.len() && #[trigger] sources[i].path == path
}

impl CompilationRequestView {
    /// The contract to compile is one of the sources.
    pub open spec fn wf(self) -> bool {
        has_source(self.sources, self.contract_path)
    }
}

/// What [`build_request`] gives.
pub open spec fn build_request_spec(
    contract_name: Seq<char>,
    project: ProjectView,
    settings: SettingsView,
    is_system: bool,
) -> Result<CompilationRequestView, ErrorView> {
    let path = join_path(project.source_root, contract_name);
    if has_source(project.sources, path) {
        Ok(
            CompilationRequestView {
                contract_path: path,
                sources: project.sources,
                settings,
                is_system,
            },
        )
    } else {
        Err(ErrorView::ContractNotFound(path))
    }
}

/// Executable form of [`has_source`].
pub fn contains_source(sources: &Vec<SourceFile>, path: &str) -> (r: bool)
    ensures
        r == has_source(source_views(sources@), path@),
{
    let mut i: usize = 0;
    while i < sources.len()
        invariant
            i <= sources.len(),
            forall|k: int| 0 <= k < i ==> (#[trigger] source_views(sources@)[k]).path != path@,
        decreases sources.len() - i,
    {
        if str_equal(sources[i].path.as_str(), path) {
            assert(source_views(sources@)[i as int].path == path@);
            return true;
        }
        i += 1;
    }
    false
}

/// A copy of `sources`.
pub fn copy_sources(sources: &Vec<SourceFile>) -> (r: Vec<SourceFile>)
    ensures
        source_views(r@) == source_views(sources@),
{
    let mut out: Vec<SourceFile> = Vec::new();
    let mut i: usize = 0;
    while i < sources.len()
        invariant
            i <= sources.len(),
            out@.len() == i,
            forall|k: int| 0 <= k < i ==> out@[k]@ == sources@[k]@,
        decreases sources.len() - i,
    {
        out.push(SourceFile { path: sources[i].path.clone(), content: sources[i].content.clone() });
        i += 1;
    }
    assert(source_views(out@) =~= source_views(sources@));
    out
}

/// A copy of `list`.
pub fn copy_strings(list: &Vec<String>) -> (r: Vec<String>)
    ensures
        r.deep_view() == list.deep_view(),
{
    let mut out: Vec<String> = Vec::new();
    let mut i: usize = 0;
    while i < list.len()
        invariant
            i <= list.len(),
            out@.len() == i,
            forall|k: int| 0 <= k < i ==> out@[k]@ == list@[k]@,
        decreases list.len() - i,
    {
        out.push(list[i].clone());
        i += 1;
    }
    assert(out.deep_view() =~= list.deep_view());
    out
}

impl Settings {
    /// A copy of these settings.
    pub fn duplicate(&self) -> (r: Settings)
        ensures
            r@ == self@,
    {
        Settings {
            optimizer_enabled: self.optimizer_enabled,
            optimizer_runs: self.optimizer_runs,
            remappings: copy_strings(&self.remappings),
        }
    }
}

/// Assembles the request to compile the contract file `contract_name` of `project`.
///
/// The contract's path is `contract_name` under the project's source root.
/// Fails with a contract-not-found error, which holds that path, exactly when
/// the project has no source of that path. Otherwise the request holds that
/// path, all the sources of the project, the settings, and the system-mode
/// flag as given.
pub fn build_request(
    contract_name: &str,
    project: &Project,
    settings: &Settings,
    is_system_mode: bool,
) -> (r: Result<CompilationRequest, Error>)
    ensures
        match r {
            Ok(request) => build_request_spec(contract_name@, project@, settings@, is_system_mode)
                == Ok::<CompilationRequestView, ErrorView>(request@) && request@.wf(),
            Err(e) => build_request_spec(contract_name@, project@, settings@, is_system_mode)
                == Err::<CompilationRequestView, ErrorView>(e@),
        },
{
    let path = join(project.source_root.as_str(), contract_name);
    if contains_source(&project.sources, path.as_str()) {
        Ok(
            CompilationRequest {
                contract_path: path,
                sources: copy_sources(&project.sources),
                settings: settings.duplicate(),
                is_system: is_system_mode,
            },
        )
    } else {
        Err(Error::ContractNotFound(path))
    }
}

/// A member with the given name and value.
pub open spec fn member(name: Seq<char>, value: JsonView) -> MemberView {
    MemberView { name, value }
}

/// The member of `sources` that one source file makes: its path, and under
/// it an object with the file's text as `content`.
pub open spec fn source_member(source: SourceFileView) -> MemberView {
    member(source.path, JsonView::Object(seq![member("content"@, JsonView::Text(source.content))]))
}

/// The object `sources` of a request.
pub open spec fn sources_json(sources: Seq<SourceFileView>) -> JsonView {
    JsonView::Object(Seq::new(sources.len(), |i: int| source_member(sources[i])))
}

/// The array `remappings` of a request.
pub open spec fn remappings_json(remappings: Seq<Seq<char>>) -> JsonView {
    JsonView::Array(Seq::new(remappings.len(), |i: int| JsonView::Text(remappings[i])))
}

/// The object `settings` of a request.
pub open spec fn settings_json(request: CompilationRequestView) -> JsonView {
    JsonView::Object(
        seq![
            member("remappings"@, remappings_json(request.settings.remappings)),
            member(
                "optimizer"@,
                JsonView::Object(
                    seq![
                        member("enabled"@, JsonView::Bool(request.settings.optimizer_enabled)),
                        member(
                            "runs"@,
                            JsonView::Number(decimal(request.settings.optimizer_runs)),
                        ),
                    ],
                ),
            ),
            member(
                "outputSelection"@,
                JsonView::Object(
                    seq![
                        member(
                            request.contract_path,
                            JsonView::Object(
                                seq![
                                    member(
                                        "*"@,
                                        JsonView::Array(
                                            seq![
                                                JsonView::Text("abi"@),
                                                JsonView::Text("evm.bytecode"@),
                                            ],
                                        ),
                                    ),
                                ],
                            ),
                        ),
                    ],
                ),
            ),
            member("isSystem"@, JsonView::Bool(request.is_system)),
        ],
    )
}

/// The document that a request is sent as.
pub open spec fn request_json(request: CompilationRequestView) -> JsonView {
    JsonView::Object(
        seq![
            member("language"@, JsonView::Text("Solidity"@)),
            member("sources"@, sources_json(request.sources)),
            member("settings"@, settings_json(request)),
        ],
    )
}

/// An object with the members `members`.
fn object(members: Vec<Member>) -> (r: Json)
    ensures
        r@ == JsonView::Object(member_views(members@)),
{
    proof {
        lemma_object_view(members);
    }
    Json::Object(members)
}

/// An array with the items `items`.
fn array(items: Vec<Json>) -> (r: Json)
    ensures
        r@ == JsonView::Array(element_views(items@)),
{
    proof {
        lemma_array_view(items);
    }
    Json::Array(items)
}

/// A member called `name` with the value `value`.
fn named(name: &str, value: Json) -> (r: Member)
    ensures
        r.name@ == name@,
        r.value@ == value@,
{
    Member { name: name.to_owned(), value }
}

/// A string value.
fn text(t: &str) -> (r: Json)
    ensures
        r@ == JsonView::Text(t@),
{
    Json::Text(t.to_owned())
}

/// Executable form of [`sources_json`].
fn sources_to_json(sources: &Vec<SourceFile>) -> (r: Json)
    ensures
        r@ == sources_json(source_views(sources@)),
{
    let mut members: Vec<Member> = Vec::new();
    let mut i: usize = 0;
    while i < sources.len()
        invariant
            i <= sources.len(),
            members@.len() == i,
            forall|k: int|
                0 <= k < i ==> (#[trigger] members@[k]).name@ == sources@[k].path@ && members@[k].value@
                    == source_member(sources@[k]@).value,
        decreases sources.len() - i,
    {
        let mut inner: Vec<Member> = Vec::new();
        inner.push(named("content", text(sources[i].content.as_str())));
        let value = object(inner);
        assert(member_views(inner@) =~= seq![
            member("content"@, JsonView::Text(sources@[i as int].content@)),
        ]);
        let entry = named(sources[i].path.as_str(), value);
        members.push(entry);
        i += 1;
    }
    let r = object(members);
    assert(member_views(members@) =~= Seq::new(
        source_views(sources@).len(),
        |i: int| source_member(source_views(sources@)[i]),
    ));
    r
}

/// Executable form of [`remappings_json`].
fn remappings_to_json(remappings: &Vec<String>) -> (r: Json)
    ensures
        r@ == remappings_json(remappings.deep_view()),
{
    let mut items: Vec<Json> = Vec::new();
    let mut i: usize = 0;
    while i < remappings.len()
        invariant
            i <= remappings.len(),
            items@.len() == i,
            forall|k: int| 0 <= k < i ==> (#[trigger] items@[k])@ == JsonView::Text(remappings@[k]@),
        decreases remappings.len() - i,
    {
        items.push(text(remappings[i].as_str()));
        i += 1;
    }
    let r = array(items);
    assert(element_views(items@) =~= Seq::new(
        remappings.deep_view().len(),
        |i: int| JsonView::Text(remappings.deep_view()[i]),
    ));
    r
}

impl CompilationRequest {
    /// The document that this request is sent as.
    pub fn to_json(&self) -> (r: Json)
        ensures
            r@ == request_json(self@),
    {
        let mut runs: Vec<char> = Vec::new();
        push_decimal(&mut runs, self.settings.optimizer_runs);
        assert(runs@ =~= decimal(self.settings.optimizer_runs as nat));

        let mut optimizer: Vec<Member> = Vec::new();
        optimizer.push(named("enabled", Json::Bool(self.settings.optimizer_enabled)));
        optimizer.push(named("runs", Json::Number(string_of(&runs))));
        let optimizer_json = object(optimizer);
        assert(member_views(optimizer@) =~= seq![
            member("enabled"@, JsonView::Bool(self.settings.optimizer_enabled)),
            member("runs"@, JsonView::Number(decimal(self.settings.optimizer_runs as nat))),
        ]);

        let mut outputs: Vec<Json> = Vec::new();
        outputs.push(text("abi"));
        outputs.push(text("evm.bytecode"));
        let outputs_json = array(outputs);
        assert(element_views(outputs@) =~= seq![
            JsonView::Text("abi"@),
            JsonView::Text("evm.bytecode"@),
        ]);

        let mut per_contract: Vec<Member> = Vec::new();
        per_contract.push(named("*", outputs_json));
        let per_contract_json = object(per_contract);
        assert(member_views(per_contract@) =~= seq![member("*"@, outputs_json@)]);

        let mut selection: Vec<Member> = Vec::new();
        selection.push(named(self.contract_path.as_str(), per_contract_json));
        let selection_json = object(selection);
        assert(member_views(selection@) =~= seq![
            member(self.contract_path@, per_contract_json@),
        ]);

        let remappings_json = remappings_to_json(&self.settings.remappings);
        let mut settings: Vec<Member> = Vec::new();
        settings.push(named("remappings", remappings_json));
        settings.push(named("optimizer", optimizer_json));
        settings.push(named("outputSelection", selection_json));
        settings.push(named("isSystem", Json::Bool(self.is_system)));
        let settings_json = object(settings);
        assert(member_views(settings@) =~= seq![
            member("remappings"@, remappings_json@),
            member("optimizer"@, optimizer_json@),
            member("outputSelection"@, selection_json@),
            member("isSystem"@, JsonView::Bool(self.is_system)),
        ]);

        let sources_json = sources_to_json(&self.sources);
        let mut document: Vec<Member> = Vec::new();
        document.push(named("language", text("Solidity")));
        document.push(named("sources", sources_json));
        document.push(named("settings", settings_json));
        let r = object(document);
        assert(member_views(document@) =~= seq![
            member("language"@, JsonView::Text("Solidity"@)),
            member("sources"@, sources_json@),
            member("settings"@, settings_json@),
        ]);
        r
    }
}

} // verus!
