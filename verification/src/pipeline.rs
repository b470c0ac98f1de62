//! The course of one build, as a machine of states.
//!
//! The library decides; the caller acts. The caller starts a pipeline, carries
//! out the action it is handed (make the cache directory, look for the
//! compiler, download it, run it), and reports what happened as an event. Each
//! event is answered with the next action, until the action is to finish.
//! The first failure finishes the build: nothing is retried.

use vstd::prelude::*;
use crate::args::{ZkBuildArgs, ZkBuildArgsView};
use crate::error::{Error, ErrorView};
use crate::invoke::{
    classify,
    classify_spec,
    invocation_of,
    prepare_invocation,
    Invocation,
    InvocationView,
    ProcessResult,
    ProcessResultView,
};
use crate::manager::{
    build_spec,
    download_plan_spec,
    CompilerManager,
    CompilerManagerView,
    DownloadPlan,
    DownloadPlanView,
};
use crate::output::{interpret, interpret_spec, CompilationOutcome, CompilationOutcomeView};
use crate::request::{
    build_request,
    build_request_spec,
    has_source,
    Project,
    ProjectView,
    Settings,
    SettingsView,
};
use crate::manager::join_path;

verus! {

/// What the caller knows of the machine it runs on.
#[derive(Clone, Debug)]
pub struct Environment {
    /// The directory in which published compilers are cached.
    pub cache_dir: String,
    /// The machine's name for its operating system.
    pub os: String,
    /// The machine's name for its architecture.
    pub arch: String,
    /// The repository from which compilers are downloaded.
    pub download_base: String,
    /// A number that tells this process from others, such as its process number.
    pub nonce: u64,
}

/// The mathematical value of an [`Environment`].
pub struct EnvironmentView {
    pub cache_dir: Seq<char>,
    pub os: Seq<char>,
    pub arch: Seq<char>,
    pub download_base: Seq<char>,
    pub nonce: nat,
}

impl View for Environment {
    type V = EnvironmentView;

    open spec fn view(&self) -> EnvironmentView {
        EnvironmentView {
            cache_dir: self.cache_dir@,
            os: self.os@,
            arch: self.arch@,
            download_base: self.download_base@,
            nonce: self.nonce as nat,
        }
    }
}

/// What a pipeline waits for.
#[derive(Clone, Copy, Debug, PartialEq, Eq, Structural)]
pub enum Stage {
    /// For the cache directory to be made.
    AwaitingCacheDir,
    /// For word on whether the compiler is at its path.
    AwaitingPresence,
    /// For the download of the compiler to end.
    AwaitingDownload,
    /// For the compiler's process to end.
    AwaitingCompiler,
    /// For nothing: the build is over.
    Finished,
}

/// What happened when the caller carried out an action.
#[derive(Clone, Debug)]
pub enum Event {
    /// The cache directory exists, whether it was made now or before.
    CacheDirReady,
    /// The cache directory could not be made. Holds the reason.
    CacheDirFailed(String),
    /// The compiler is at its path and can be executed.
    CompilerPresent,
    /// There is no executable compiler at its path.
    CompilerAbsent,
    /// The compiler was fetched, made executable and renamed to its path.
    Downloaded,
    /// The compiler could not be fetched. Holds the reason.
    NetworkFailed(String),
    /// The fetched compiler could not be stored. Holds the reason.
    WriteFailed(String),
    /// The compiler's process ended.
    ProcessExited(ProcessResult),
    /// The compiler's process could not be started. Holds the reason.
    ProcessNotSpawned(String),
}

/// The mathematical value of an [`Event`].
pub enum EventView {
    CacheDirReady,
    CacheDirFailed(Seq<char>),
    CompilerPresent,
    CompilerAbsent,
    Downloaded,
    NetworkFailed(Seq<char>),
    WriteFailed(Seq<char>),
    ProcessExited(ProcessResultView),
    ProcessNotSpawned(Seq<char>),
}

impl View for Event {
    type V = EventView;

    open spec fn view(&self) -> EventView {
        match self {
            Event::CacheDirReady => EventView::CacheDirReady,
            Event::CacheDirFailed(t) => EventView::CacheDirFailed(t@),
            Event::CompilerPresent => EventView::CompilerPresent,
            Event::CompilerAbsent => EventView::CompilerAbsent,
            Event::Downloaded => EventView::Downloaded,
            Event::NetworkFailed(t) => EventView::NetworkFailed(t@),
            Event::WriteFailed(t) => EventView::WriteFailed(t@),
            Event::ProcessExited(r) => EventView::ProcessExited(r@),
            Event::ProcessNotSpawned(t) => EventView::ProcessNotSpawned(t@),
        }
    }
}

/// What the caller is to do next.
#[derive(Debug)]
pub enum Action {
    /// Make this directory and its parents, unless it exists, and make it
    /// readable, writable and searchable for the user.
    EnsureCacheDir(String),
    /// Find out whether an executable file is at this path.
    CheckCompiler(String),
    /// Fetch the compiler as the plan says.
    Download(DownloadPlan),
    /// Run the compiler.
    Invoke(Invocation),
    /// Stop: the build has come to this outcome.
    Finish(CompilationOutcome),
    /// Go on with the action handed out before: the event did not answer it.
    Ignored,
}

/// The mathematical value of an [`Action`].
pub enum ActionView {
    EnsureCacheDir(Seq<char>),
    CheckCompiler(Seq<char>),
    Download(DownloadPlanView),
    Invoke(InvocationView),
    Finish(CompilationOutcomeView),
    Ignored,
}

impl View for Action {
    type V = ActionView;

    open spec fn view(&self) -> ActionView {
        match self {
            Action::EnsureCacheDir(d) => ActionView::EnsureCacheDir(d@),
            Action::CheckCompiler(p) => ActionView::CheckCompiler(p@),
            Action::Download(plan) => ActionView::Download(plan@),
            Action::Invoke(invocation) => ActionView::Invoke(invocation@),
            Action::Finish(outcome) => ActionView::Finish(outcome@),
            Action::Ignored => ActionView::Ignored,
        }
    }
}

/// One build under way.
#[derive(Debug)]
pub struct Pipeline {
    /// What the pipeline waits for.
    pub stage: Stage,
    /// The compiler chosen for the build.
    pub manager: CompilerManager,
    /// The contract file to compile, under the project's source root.
    pub contract_name: String,
    /// Whether to compile in system mode.
    pub is_system: bool,
    /// The project.
    pub project: Project,
    /// The settings of the build.
    pub settings: Settings,
    /// The machine.
    pub environment: Environment,
}

/// The mathematical value of a [`Pipeline`].
pub struct PipelineView {
    pub stage: Stage,
    pub manager: CompilerManagerView,
    pub contract_name: Seq<char>,
    pub is_system: bool,
    pub project: ProjectView,
    pub settings: SettingsView,
    pub environment: EnvironmentView,
}

impl View for Pipeline {
    type V = PipelineView;

    open spec fn view(&self) -> PipelineView {
        PipelineView {
            stage: self.stage,
            manager: self.manager@,
            contract_name: self.contract_name@,
            is_system: self.is_system,
            project: self.project@,
            settings: self.settings@,
            environment: self.environment@,
        }
    }
}

/// A pipeline after an event, and the action that answers the event.
pub struct Transition {
    pub next: PipelineView,
    pub action: ActionView,
}

impl PipelineView {
    /// The manager is well formed and keeps its cache where the machine says.
    pub open spec fn wf(self) -> bool {
        &&& self.manager.wf()
        &&& self.manager.cache_dir == self.environment.cache_dir
    }

    /// The build ends with `outcome`.
    pub open spec fn finish(self, outcome: CompilationOutcomeView) -> Transition {
        Transition {
            next: PipelineView { stage: Stage::Finished, ..self },
            action: ActionView::Finish(outcome),
        }
    }

    /// The build ends with the failure `e`.
    pub open spec fn fail(self, e: ErrorView) -> Transition {
        self.finish(CompilationOutcomeView::Failure(e))
    }

    /// The event is not the answer to what the pipeline waits for.
    pub open spec fn ignore(self) -> Transition {
        Transition { next: self, action: ActionView::Ignored }
    }

    /// The compiler is known to be at its path: the request is assembled and
    /// the compiler is to be run on it, unless the request cannot be made.
    pub open spec fn launch(self) -> Transition {
        match build_request_spec(self.contract_name, self.project, self.settings, self.is_system) {
            Err(e) => self.fail(e),
            Ok(request) => match invocation_of(self.manager.compiler_path, request) {
                Err(e) => self.fail(e),
                Ok(invocation) => Transition {
                    next: PipelineView { stage: Stage::AwaitingCompiler, ..self },
                    action: ActionView::Invoke(invocation),
                },
            },
        }
    }

    /// The compiler is not at its path: a published compiler is to be
    /// downloaded; for a compiler given by its path the build fails, for it
    /// cannot be started.
    pub open spec fn acquire(self) -> Transition {
        match download_plan_spec(
            self.manager,
            self.environment.os,
            self.environment.arch,
            self.environment.download_base,
            self.environment.nonce,
        ) {
            Err(e) => self.fail(e),
            Ok(None) => self.fail(ErrorView::SpawnError(self.manager.compiler_path)),
            Ok(Some(plan)) => Transition {
                next: PipelineView { stage: Stage::AwaitingDownload, ..self },
                action: ActionView::Download(plan),
            },
        }
    }

    /// The compiler's process ended with `result`.
    pub open spec fn conclude(self, result: ProcessResultView) -> Transition {
        match classify_spec(result) {
            Err(e) => self.fail(e),
            Ok(text) => self.finish(interpret_spec(text)),
        }
    }

    /// The action that opens the build: to make the cache directory.
    pub open spec fn first_action(self) -> ActionView {
        ActionView::EnsureCacheDir(self.manager.cache_dir)
    }

    /// The pipeline after `event`, and the action that answers it.
    pub open spec fn step(self, event: EventView) -> Transition {
        match self.stage {
            Stage::AwaitingCacheDir => match event {
                EventView::CacheDirReady => Transition {
                    next: PipelineView { stage: Stage::AwaitingPresence, ..self },
                    action: ActionView::CheckCompiler(self.manager.compiler_path),
                },
                EventView::CacheDirFailed(reason) => self.fail(
                    ErrorView::CacheDirUnavailable(reason),
                ),
                _ => self.ignore(),
            },
            Stage::AwaitingPresence => match event {
                EventView::CompilerPresent => self.launch(),
                EventView::CompilerAbsent => self.acquire(),
                _ => self.ignore(),
            },
            Stage::AwaitingDownload => match event {
                EventView::Downloaded => self.launch(),
                EventView::NetworkFailed(reason) => self.fail(ErrorView::NetworkError(reason)),
                EventView::WriteFailed(reason) => self.fail(ErrorView::WriteError(reason)),
                _ => self.ignore(),
            },
            Stage::AwaitingCompiler => match event {
                EventView::ProcessExited(result) => self.conclude(result),
                EventView::ProcessNotSpawned(reason) => self.fail(ErrorView::SpawnError(reason)),
                _ => self.ignore(),
            },
            Stage::Finished => self.ignore(),
        }
    }
}

/// What [`Pipeline::start`] gives: a pipeline that waits for the cache
/// directory, unless the version text is refused.
pub open spec fn start_spec(
    args: ZkBuildArgsView,
    project: ProjectView,
    settings: SettingsView,
    environment: EnvironmentView,
) -> Result<PipelineView, ErrorView>
    recommends
        args.use_zksolc is Some,
{
    match build_spec(args.use_zksolc->0, environment.cache_dir) {
        Err(e) => Err(e),
        Ok(manager) => Ok(
            PipelineView {
                stage: Stage::AwaitingCacheDir,
                manager,
                contract_name: args.contract_name,
                is_system: args.is_system,
                project,
                settings,
                environment,
            },
        ),
    }
}

impl Pipeline {
    /// Starts a build: resolves the compiler to use. Nothing is looked up,
    /// fetched or run yet.
    ///
    /// Fails exactly when the version text is refused.
    pub fn start(args: ZkBuildArgs, project: Project, settings: Settings, environment: Environment)
        -> (r: Result<Pipeline, Error>)
        requires
            args.use_zksolc is Some,
        ensures
            match r {
                Ok(pipeline) => start_spec(args@, project@, settings@, environment@) == Ok::<
                    PipelineView,
                    ErrorView,
                >(pipeline@) && pipeline@.wf(),
                Err(e) => start_spec(args@, project@, settings@, environment@) == Err::<
                    PipelineView,
                    ErrorView,
                >(e@),
            },
    {
        let manager = match CompilerManager::build(
            args.manager_opts(),
            environment.cache_dir.as_str(),
        ) {
            Ok(manager) => manager,
            Err(e) => {
                return Err(e);
            },
        };
        Ok(
            Pipeline {
                stage: Stage::AwaitingCacheDir,
                manager,
                contract_name: args.contract_name,
                is_system: args.is_system,
                project,
                settings,
                environment,
            },
        )
    }

    /// The action that opens the build.
    pub fn first_action(&self) -> (r: Action)
        ensures
            r@ == self@.first_action(),
    {
        Action::EnsureCacheDir(self.manager.compilers_dir())
    }

    /// Whether the build is over.
    pub fn is_finished(&self) -> (r: bool)
        ensures
            r == (self@.stage == Stage::Finished),
    {
        match self.stage {
            Stage::Finished => true,
            _ => false,
        }
    }

    /// Ends the build with `outcome`.
    fn finish(&mut self, outcome: CompilationOutcome) -> (r: Action)
        ensures
            final(self)@ == old(self)@.finish(outcome@).next,
            r@ == old(self)@.finish(outcome@).action,
    {
        self.stage = Stage::Finished;
        Action::Finish(outcome)
    }

    /// Executable form of [`PipelineView::launch`].
    fn launch(&mut self) -> (r: Action)
        ensures
            final(self)@ == old(self)@.launch().next,
            r@ == old(self)@.launch().action,
    {
        let request = match build_request(
            self.contract_name.as_str(),
            &self.project,
            &self.settings,
            self.is_system,
        ) {
            Ok(request) => request,
            Err(e) => {
                return self.finish(CompilationOutcome::Failure(e));
            },
        };
        match prepare_invocation(self.manager.compiler_path.as_str(), &request) {
            Ok(invocation) => {
                self.stage = Stage::AwaitingCompiler;
                Action::Invoke(invocation)
            },
            Err(e) => self.finish(CompilationOutcome::Failure(e)),
        }
    }

    /// Executable form of [`PipelineView::acquire`].
    fn acquire(&mut self) -> (r: Action)
        ensures
            final(self)@ == old(self)@.acquire().next,
            r@ == old(self)@.acquire().action,
    {
        let planned = self.manager.download_plan(
            self.environment.os.as_str(),
            self.environment.arch.as_str(),
            self.environment.download_base.as_str(),
            self.environment.nonce,
        );
        match planned {
            Ok(Some(plan)) => {
                self.stage = Stage::AwaitingDownload;
                Action::Download(plan)
            },
            Ok(None) => {
                let path = self.manager.get_full_compiler_path();
                self.finish(CompilationOutcome::Failure(Error::SpawnError(path)))
            },
            Err(e) => self.finish(CompilationOutcome::Failure(e)),
        }
    }

    /// Executable form of [`PipelineView::conclude`].
    fn conclude(&mut self, result: ProcessResult) -> (r: Action)
        ensures
            final(self)@ == old(self)@.conclude(result@).next,
            r@ == old(self)@.conclude(result@).action,
    {
        match classify(result) {
            Ok(raw) => {
                let outcome = interpret(raw.text.as_str());
                self.finish(outcome)
            },
            Err(e) => self.finish(CompilationOutcome::Failure(e)),
        }
    }

    /// Takes in what happened and says what to do next.
    ///
    /// An event that does not answer what the pipeline waits for changes
    /// nothing and is answered with [`Action::Ignored`]. Once the answer is
    /// [`Action::Finish`], every further event is ignored.
    pub fn step(&mut self, event: Event) -> (r: Action)
        ensures
            final(self)@ == old(self)@.step(event@).next,
            r@ == old(self)@.step(event@).action,
    {
        match self.stage {
            Stage::AwaitingCacheDir => match event {
                Event::CacheDirReady => {
                    self.stage = Stage::AwaitingPresence;
                    Action::CheckCompiler(self.manager.get_full_compiler_path())
                },
                Event::CacheDirFailed(reason) => self.finish(
                    CompilationOutcome::Failure(Error::CacheDirUnavailable(reason)),
                ),
                _ => Action::Ignored,
            },
            Stage::AwaitingPresence => match event {
                Event::CompilerPresent => self.launch(),
                Event::CompilerAbsent => self.acquire(),
                _ => Action::Ignored,
            },
            Stage::AwaitingDownload => match event {
                Event::Downloaded => self.launch(),
                Event::NetworkFailed(reason) => self.finish(
                    CompilationOutcome::Failure(Error::NetworkError(reason)),
                ),
                Event::WriteFailed(reason) => self.finish(
                    CompilationOutcome::Failure(Error::WriteError(reason)),
                ),
                _ => Action::Ignored,
            },
            Stage::AwaitingCompiler => match event {
                Event::ProcessExited(result) => self.conclude(result),
                Event::ProcessNotSpawned(reason) => self.finish(
                    CompilationOutcome::Failure(Error::SpawnError(reason)),
                ),
                _ => Action::Ignored,
            },
            Stage::Finished => Action::Ignored,
        }
    }
}

/// The pipeline after a run of events.
pub open spec fn after(s: PipelineView, events: Seq<EventView>) -> PipelineView
    decreases events.len(),
{
    if events.len() == 0 {
        s
    } else {
        after(s, events.drop_last()).step(events.last()).next
    }
}

/// An event changes nothing of a pipeline but what it waits for, and leaves
/// it well formed.
pub proof fn lemma_step_changes_only_the_stage(s: PipelineView, e: EventView)
    ensures
        s.step(e).next == (PipelineView { stage: s.step(e).next.stage, ..s }),
        s.wf() ==> s.step(e).next.wf(),
{
}

/// A compiler is downloaded only when it was looked for and not found, and
/// only when it is a published one. A compiler that is present is never
/// downloaded, nor is one given by its path.
pub proof fn lemma_download_only_when_absent(s: PipelineView, e: EventView)
    ensures
        s.step(e).action is Download ==> s.stage == Stage::AwaitingPresence && e
            == EventView::CompilerAbsent && s.manager.spec is Remote,
        !(s.step(EventView::CompilerPresent).action is Download),
        s.manager.spec is LocalPath ==> !(s.step(e).action is Download),
{
}

/// A download aims at the path at which the compiler is run, through a
/// temporary file of another name.
pub proof fn lemma_download_aims_at_the_compiler_path(s: PipelineView, e: EventView)
    requires
        s.step(e).action is Download,
    ensures
        s.step(e).action->Download_0.target_path == s.manager.compiler_path,
        s.step(e).action->Download_0.temp_path != s.manager.compiler_path,
{
    crate::manager::lemma_temp_differs_from_target(s.manager.compiler_path, s.environment.nonce);
}

/// The compiler is run only once it is known to be at its path: after it was
/// found there, or after its download succeeded. What is run is the file at
/// that path, on the request assembled from the pipeline's inputs.
pub proof fn lemma_compiler_runs_only_once_present(s: PipelineView, e: EventView)
    requires
        s.step(e).action is Invoke,
    ensures
        (s.stage == Stage::AwaitingPresence && e == EventView::CompilerPresent) || (s.stage
            == Stage::AwaitingDownload && e == EventView::Downloaded),
        s.step(e).action->Invoke_0.program == s.manager.compiler_path,
        build_request_spec(s.contract_name, s.project, s.settings, s.is_system) is Ok,
        invocation_of(
            s.manager.compiler_path,
            build_request_spec(s.contract_name, s.project, s.settings, s.is_system)->Ok_0,
        ) == Ok::<InvocationView, ErrorView>(s.step(e).action->Invoke_0),
{
}

/// Where the contract is not among the project's sources, the compiler is
/// never run: once the compiler is known to be present, the build ends with
/// a contract-not-found failure that holds the path looked for.
pub proof fn lemma_missing_contract_is_never_compiled(s: PipelineView, e: EventView)
    requires
        !has_source(s.project.sources, join_path(s.project.source_root, s.contract_name)),
    ensures
        !(s.step(e).action is Invoke),
        (s.stage == Stage::AwaitingPresence && e == EventView::CompilerPresent) || (s.stage
            == Stage::AwaitingDownload && e == EventView::Downloaded) ==> s.step(e).action
            == ActionView::Finish(
            CompilationOutcomeView::Failure(
                ErrorView::ContractNotFound(join_path(s.project.source_root, s.contract_name)),
            ),
        ),
{
}

/// The action to finish ends the build, and a build that has ended ignores
/// every event.
pub proof fn lemma_finish_is_final(s: PipelineView, e: EventView)
    ensures
        s.step(e).action is Finish ==> s.step(e).next.stage == Stage::Finished,
        s.stage == Stage::Finished ==> s.step(e) == s.ignore(),
{
}

/// Whatever events follow the end of a build, the pipeline stays as it ended.
pub proof fn lemma_nothing_follows_the_end(s: PipelineView, events: Seq<EventView>)
    requires
        s.stage == Stage::Finished,
    ensures
        after(s, events) == s,
    decreases events.len(),
{
    if events.len() > 0 {
        lemma_nothing_follows_the_end(s, events.drop_last());
    }
}

/// A failure reported by the caller ends the build at once with the failure
/// of its kind, which holds the reason as reported.
pub proof fn lemma_reported_failures_end_the_build(s: PipelineView, reason: Seq<char>)
    ensures
        s.stage == Stage::AwaitingCacheDir ==> s.step(EventView::CacheDirFailed(reason))
            == s.fail(ErrorView::CacheDirUnavailable(reason)),
        s.stage == Stage::AwaitingDownload ==> s.step(EventView::NetworkFailed(reason)) == s.fail(
            ErrorView::NetworkError(reason),
        ),
        s.stage == Stage::AwaitingDownload ==> s.step(EventView::WriteFailed(reason)) == s.fail(
            ErrorView::WriteError(reason),
        ),
        s.stage == Stage::AwaitingCompiler ==> s.step(EventView::ProcessNotSpawned(reason))
            == s.fail(ErrorView::SpawnError(reason)),
{
}

} // verus!
