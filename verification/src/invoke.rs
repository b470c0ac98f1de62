//! Running the compiler: what to start it with, and what its end means.
//!
//! The library neither starts nor watches a process. It prepares the
//! invocation and classifies how the process ended: whether the compiler
//! could not run, ran and failed, or ran and answered. What the answer says
//! is not looked at here.

use vstd::prelude::*;
use crate::error::{Error, ErrorView};
use crate::json::{render, rendered};
use crate::request::{
    contains_source,
    request_json,
    CompilationRequest,
    CompilationRequestView,
};

verus! {

/// How to start the compiler for one request.
#[derive(Clone, Debug)]
pub struct Invocation {
    /// The path of the compiler.
    pub program: String,
    /// The arguments on its command line.
    pub arguments: Vec<String>,
    /// The text to write to its standard input.
    pub input: String,
}

/// The mathematical value of an [`Invocation`].
pub struct InvocationView {
    pub program: Seq<char>,
    pub arguments: Seq<Seq<char>>,
    pub input: Seq<char>,
}

impl View for Invocation {
    type V = InvocationView;

    open spec fn view(&self) -> InvocationView {
        InvocationView {
            program: self.program@,
            arguments: self.arguments.deep_view(),
            input: self.input@,
        }
    }
}

/// How a process ended.
#[derive(Clone, Debug)]
pub struct ProcessResult {
    /// The exit status; `None` where the process was ended from outside.
    pub exit_code: Option<i32>,
    /// What the process wrote to its standard output.
    pub stdout: String,
    /// What the process wrote to its standard error.
    pub stderr: String,
}

/// The mathematical value of a [`ProcessResult`].
pub struct ProcessResultView {
    pub exit_code: Option<i32>,
    pub stdout: Seq<char>,
    pub stderr: Seq<char>,
}

impl View for ProcessResult {
    type V = ProcessResultView;

    open spec fn view(&self) -> ProcessResultView {
        ProcessResultView {
            exit_code: self.exit_code,
            stdout: self.stdout@,
            stderr: self.stderr@,
        }
    }
}

/// What the compiler answered, not yet interpreted.
#[derive(Clone, Debug)]
pub struct RawOutput {
    pub text: String,
}

/// What [`prepare_invocation`] gives: the compiler at `compiler_path`, told to
/// read a standard JSON request, and the request written as JSON. A request
/// whose contract is not among its sources cannot be written.
pub open spec fn invocation_of(compiler_path: Seq<char>, request: CompilationRequestView)
    -> Result<InvocationView, ErrorView> {
    if request.wf() {
        Ok(
            InvocationView {
                program: compiler_path,
                arguments: seq!["--standard-json"@],
                input: rendered(request_json(request)),
            },
        )
    } else {
        Err(ErrorView::SerializationError(request.contract_path))
    }
}

/// What the end of the compiler's process means: its output where it exited
/// with status zero, a non-zero-exit failure with the status and the error
/// stream where it exited otherwise, and a spawn failure where it was ended
/// from outside.
pub open spec fn classify_spec(result: ProcessResultView) -> Result<Seq<char>, ErrorView> {
    match result.exit_code {
        Some(code) => if code == 0 {
            Ok(result.stdout)
        } else {
            Err(ErrorView::NonZeroExit(code, result.stderr))
        },
        None => Err(ErrorView::SpawnError("the compiler was ended before it exited"@)),
    }
}

/// Prepares the run of the compiler at `compiler_path` on `request`.
///
/// Fails with a serialization error, which holds the contract's path, exactly
/// when the contract of the request is not among its sources.
pub fn prepare_invocation(compiler_path: &str, request: &CompilationRequest) -> (r: Result<
    Invocation,
    Error,
>)
    ensures
        match r {
            Ok(invocation) => invocation_of(compiler_path@, request@) == Ok::<
                InvocationView,
                ErrorView,
            >(invocation@),
            Err(e) => invocation_of(compiler_path@, request@) == Err::<InvocationView, ErrorView>(
                e@,
            ),
        },
{
    if !contains_source(&request.sources, request.contract_path.as_str()) {
        return Err(Error::SerializationError(request.contract_path.clone()));
    }
    let document = request.to_json();
    let mut arguments: Vec<String> = Vec::new();
    arguments.push("--standard-json".to_owned());
    assert(arguments.deep_view() =~= seq!["--standard-json"@]);
    Ok(Invocation { program: compiler_path.to_owned(), arguments, input: render(&document) })
}

/// Classifies how the compiler's process ended.
pub fn classify(result: ProcessResult) -> (r: Result<RawOutput, Error>)
    ensures
        match r {
            Ok(raw) => classify_spec(result@) == Ok::<Seq<char>, ErrorView>(raw.text@),
            Err(e) => classify_spec(result@) == Err::<Seq<char>, ErrorView>(e@),
        },
{
    match result.exit_code {
        Some(code) => {
            if code == 0 {
                Ok(RawOutput { text: result.stdout })
            } else {
                Err(Error::NonZeroExit(code, result.stderr))
            }
        },
        None => Err(Error::SpawnError("the compiler was ended before it exited".to_owned())),
    }
}

} // verus!
