//! The failures that the pipeline can end in, and the text shown for each.

use vstd::prelude::*;
use crate::text::{push_signed_decimal, push_str_chars, signed_decimal, string_of};

verus! {

/// The kinds of failure. Every [`Error`] has exactly one.
#[derive(Clone, Copy, Debug, PartialEq, Eq, Structural)]
pub enum ErrorKind {
    InvalidVersionSpec,
    CacheDirUnavailable,
    NetworkError,
    UnsupportedPlatform,
    WriteError,
    ContractNotFound,
    SpawnError,
    SerializationError,
    NonZeroExit,
    CompilerReportedError,
    MalformedOutput,
}

/// A failure of one stage of the pipeline, with what is known about it.
#[derive(Clone, Debug)]
pub enum Error {
    /// The version text is neither a version nor a usable path. Holds the text.
    InvalidVersionSpec(String),
    /// The cache directory could not be created. Holds the reason.
    CacheDirUnavailable(String),
    /// The compiler could not be fetched. Holds the reason.
    NetworkError(String),
    /// No compiler is published for this machine. Holds the platform as reported.
    UnsupportedPlatform(String),
    /// The fetched compiler could not be stored. Holds the reason.
    WriteError(String),
    /// The contract file is not part of the project. Holds the path looked for.
    ContractNotFound(String),
    /// The compiler could not be started. Holds the reason.
    SpawnError(String),
    /// The compilation request cannot be written down. Holds the reason.
    SerializationError(String),
    /// The compiler ran and ended with a failure status. Holds the status and
    /// what it wrote to its error stream.
    NonZeroExit(i32, String),
    /// The compiler ran and reported errors. Holds their texts, in order.
    CompilerReportedError(Vec<String>),
    /// The compiler's output could not be understood. Holds the output.
    MalformedOutput(String),
}

/// The mathematical value of an [`Error`].
pub enum ErrorView {
    InvalidVersionSpec(Seq<char>),
    CacheDirUnavailable(Seq<char>),
    NetworkError(Seq<char>),
    UnsupportedPlatform(Seq<char>),
    WriteError(Seq<char>),
    ContractNotFound(Seq<char>),
    SpawnError(Seq<char>),
    SerializationError(Seq<char>),
    NonZeroExit(i32, Seq<char>),
    CompilerReportedError(Seq<Seq<char>>),
    MalformedOutput(Seq<char>),
}

impl View for Error {
    type V = ErrorView;

    open spec fn view(&self) -> ErrorView {
        match self {
            Error::InvalidVersionSpec(t) => ErrorView::InvalidVersionSpec(t@),
            Error::CacheDirUnavailable(t) => ErrorView::CacheDirUnavailable(t@),
            Error::NetworkError(t) => ErrorView::NetworkError(t@),
            Error::UnsupportedPlatform(t) => ErrorView::UnsupportedPlatform(t@),
            Error::WriteError(t) => ErrorView::WriteError(t@),
            Error::ContractNotFound(t) => ErrorView::ContractNotFound(t@),
            Error::SpawnError(t) => ErrorView::SpawnError(t@),
            Error::SerializationError(t) => ErrorView::SerializationError(t@),
            Error::NonZeroExit(code, t) => ErrorView::NonZeroExit(*code, t@),
            Error::CompilerReportedError(list) => ErrorView::CompilerReportedError(
                list.deep_view(),
            ),
            Error::MalformedOutput(t) => ErrorView::MalformedOutput(t@),
        }
    }
}

/// The lines of `lines`, each followed by a line feed.
pub open spec fn joined_lines(lines: Seq<Seq<char>>) -> Seq<char>
    decreases lines.len(),
{
    if lines.len() == 0 {
        Seq::empty()
    } else {
        joined_lines(lines.drop_last()) + lines.last() + seq!['\n']
    }
}

impl ErrorView {
    /// The kind of this failure.
    pub open spec fn kind(self) -> ErrorKind {
        match self {
            ErrorView::InvalidVersionSpec(_) => ErrorKind::InvalidVersionSpec,
            ErrorView::CacheDirUnavailable(_) => ErrorKind::CacheDirUnavailable,
            ErrorView::NetworkError(_) => ErrorKind::NetworkError,
            ErrorView::UnsupportedPlatform(_) => ErrorKind::UnsupportedPlatform,
            ErrorView::WriteError(_) => ErrorKind::WriteError,
            ErrorView::ContractNotFound(_) => ErrorKind::ContractNotFound,
            ErrorView::SpawnError(_) => ErrorKind::SpawnError,
            ErrorView::SerializationError(_) => ErrorKind::SerializationError,
            ErrorView::NonZeroExit(_, _) => ErrorKind::NonZeroExit,
            ErrorView::CompilerReportedError(_) => ErrorKind::CompilerReportedError,
            ErrorView::MalformedOutput(_) => ErrorKind::MalformedOutput,
        }
    }

    /// What is known about this failure, as text.
    pub open spec fn detail(self) -> Seq<char> {
        match self {
            ErrorView::InvalidVersionSpec(t) => t,
            ErrorView::CacheDirUnavailable(t) => t,
            ErrorView::NetworkError(t) => t,
            ErrorView::UnsupportedPlatform(t) => t,
            ErrorView::WriteError(t) => t,
            ErrorView::ContractNotFound(t) => t,
            ErrorView::SpawnError(t) => t,
            ErrorView::SerializationError(t) => t,
            ErrorView::NonZeroExit(code, t) => "status "@ + signed_decimal(code as int) + ": "@ + t,
            ErrorView::CompilerReportedError(list) => joined_lines(list),
            ErrorView::MalformedOutput(t) => t,
        }
    }

    /// The text shown for this failure: the headline of its kind, a colon and
    /// a space, then the detail.
    pub open spec fn message(self) -> Seq<char> {
        self.kind().headline() + ": "@ + self.detail()
    }
}

impl ErrorKind {
    /// The fixed text that opens every message of this kind.
    pub open spec fn headline(self) -> Seq<char> {
        match self {
            ErrorKind::InvalidVersionSpec => "invalid compiler version"@,
            ErrorKind::CacheDirUnavailable => "cache directory unavailable"@,
            ErrorKind::NetworkError => "network error while downloading the compiler"@,
            ErrorKind::UnsupportedPlatform => "unsupported platform"@,
            ErrorKind::WriteError => "write error while storing the compiler"@,
            ErrorKind::ContractNotFound => "contract not found"@,
            ErrorKind::SpawnError => "spawning the compiler failed"@,
            ErrorKind::SerializationError => "serialization of the compilation request failed"@,
            ErrorKind::NonZeroExit => "non-zero exit status from the compiler"@,
            ErrorKind::CompilerReportedError => "compiler reported errors"@,
            ErrorKind::MalformedOutput => "malformed compiler output"@,
        }
    }

    /// Executable form of [`ErrorKind::headline`].
    pub fn headline_text(self) -> (r: &'static str)
        ensures
            r@ == self.headline(),
    {
        match self {
            ErrorKind::InvalidVersionSpec => "invalid compiler version",
            ErrorKind::CacheDirUnavailable => "cache directory unavailable",
            ErrorKind::NetworkError => "network error while downloading the compiler",
            ErrorKind::UnsupportedPlatform => "unsupported platform",
            ErrorKind::WriteError => "write error while storing the compiler",
            ErrorKind::ContractNotFound => "contract not found",
            ErrorKind::SpawnError => "spawning the compiler failed",
            ErrorKind::SerializationError => "serialization of the compilation request failed",
            ErrorKind::NonZeroExit => "non-zero exit status from the compiler",
            ErrorKind::CompilerReportedError => "compiler reported errors",
            ErrorKind::MalformedOutput => "malformed compiler output",
        }
    }
}

impl ErrorKind {
    /// The step of a build that a failure of this kind ends.
    pub open spec fn step(self) -> Seq<char> {
        match self {
            ErrorKind::InvalidVersionSpec => "Error building zksolc_manager"@,
            ErrorKind::CacheDirUnavailable => "Failed to setup compilers directory"@,
            ErrorKind::NetworkError => "Failed to download the file"@,
            ErrorKind::UnsupportedPlatform => "Failed to download the file"@,
            ErrorKind::WriteError => "Failed to download the file"@,
            ErrorKind::ContractNotFound => "Failed to parse json input for zksolc compiler"@,
            ErrorKind::SerializationError => "Failed to parse json input for zksolc compiler"@,
            ErrorKind::SpawnError => "Failed to compile smart contracts with zksolc"@,
            ErrorKind::NonZeroExit => "Failed to compile smart contracts with zksolc"@,
            ErrorKind::CompilerReportedError => "Failed to compile smart contracts with zksolc"@,
            ErrorKind::MalformedOutput => "Failed to compile smart contracts with zksolc"@,
        }
    }

    /// Executable form of [`ErrorKind::step`].
    pub fn step_text(self) -> (r: &'static str)
        ensures
            r@ == self.step(),
    {
        match self {
            ErrorKind::InvalidVersionSpec => "Error building zksolc_manager",
            ErrorKind::CacheDirUnavailable => "Failed to setup compilers directory",
            ErrorKind::NetworkError => "Failed to download the file",
            ErrorKind::UnsupportedPlatform => "Failed to download the file",
            ErrorKind::WriteError => "Failed to download the file",
            ErrorKind::ContractNotFound => "Failed to parse json input for zksolc compiler",
            ErrorKind::SerializationError => "Failed to parse json input for zksolc compiler",
            ErrorKind::SpawnError => "Failed to compile smart contracts with zksolc",
            ErrorKind::NonZeroExit => "Failed to compile smart contracts with zksolc",
            ErrorKind::CompilerReportedError => "Failed to compile smart contracts with zksolc",
            ErrorKind::MalformedOutput => "Failed to compile smart contracts with zksolc",
        }
    }
}

impl ErrorView {
    /// The line that reports this failure to the user: the step that
    /// failed, a colon and a space, then the message.
    pub open spec fn report(self) -> Seq<char> {
        self.kind().step() + ": "@ + self.message()
    }
}

/// Appends every line of `lines`, each followed by a line feed, to `out`.
fn push_lines(out: &mut Vec<char>, lines: &Vec<String>)
    ensures
        final(out)@ == old(out)@ + joined_lines(lines.deep_view()),
{
    let mut i: usize = 0;
    assert(lines.deep_view().take(0) =~= Seq::<Seq<char>>::empty());
    while i < lines.len()
        invariant
            i <= lines.len(),
            out@ == old(out)@ + joined_lines(lines.deep_view().take(i as int)),
        decreases lines.len() - i,
    {
        push_str_chars(out, lines[i].as_str());
        out.push('\n');
        proof {
            let all = lines.deep_view();
            let next = all.take(i + 1);
            assert(next.drop_last() =~= all.take(i as int));
            assert(next.last() == lines@[i as int]@);
            assert(out@ =~= old(out)@ + joined_lines(next));
        }
        i += 1;
    }
    assert(lines.deep_view().take(lines.len() as int) =~= lines.deep_view());
}

impl Error {
    /// The kind of this failure.
    pub fn kind(&self) -> (k: ErrorKind)
        ensures
            k == self@.kind(),
    {
        match self {
            Error::InvalidVersionSpec(_) => ErrorKind::InvalidVersionSpec,
            Error::CacheDirUnavailable(_) => ErrorKind::CacheDirUnavailable,
            Error::NetworkError(_) => ErrorKind::NetworkError,
            Error::UnsupportedPlatform(_) => ErrorKind::UnsupportedPlatform,
            Error::WriteError(_) => ErrorKind::WriteError,
            Error::ContractNotFound(_) => ErrorKind::ContractNotFound,
            Error::SpawnError(_) => ErrorKind::SpawnError,
            Error::SerializationError(_) => ErrorKind::SerializationError,
            Error::NonZeroExit(_, _) => ErrorKind::NonZeroExit,
            Error::CompilerReportedError(_) => ErrorKind::CompilerReportedError,
            Error::MalformedOutput(_) => ErrorKind::MalformedOutput,
        }
    }

    /// The text to show for this failure.
    pub fn message(&self) -> (m: String)
        ensures
            m@ == self@.message(),
    {
        let mut out: Vec<char> = Vec::new();
        push_str_chars(&mut out, self.kind().headline_text());
        push_str_chars(&mut out, ": ");
        match self {
            Error::InvalidVersionSpec(t) => push_str_chars(&mut out, t.as_str()),
            Error::CacheDirUnavailable(t) => push_str_chars(&mut out, t.as_str()),
            Error::NetworkError(t) => push_str_chars(&mut out, t.as_str()),
            Error::UnsupportedPlatform(t) => push_str_chars(&mut out, t.as_str()),
            Error::WriteError(t) => push_str_chars(&mut out, t.as_str()),
            Error::ContractNotFound(t) => push_str_chars(&mut out, t.as_str()),
            Error::SpawnError(t) => push_str_chars(&mut out, t.as_str()),
            Error::SerializationError(t) => push_str_chars(&mut out, t.as_str()),
            Error::NonZeroExit(code, t) => {
                push_str_chars(&mut out, "status ");
                push_signed_decimal(&mut out, *code);
                push_str_chars(&mut out, ": ");
                push_str_chars(&mut out, t.as_str());
            },
            Error::CompilerReportedError(list) => push_lines(&mut out, list),
            Error::MalformedOutput(t) => push_str_chars(&mut out, t.as_str()),
        }
        assert(out@ =~= self@.message());
        string_of(&out)
    }
}

impl Error {
    /// The line that reports this failure to the user.
    pub fn report(&self) -> (r: String)
        ensures
            r@ == self@.report(),
    {
        let mut out: Vec<char> = Vec::new();
        push_str_chars(&mut out, self.kind().step_text());
        push_str_chars(&mut out, ": ");
        let message = self.message();
        push_str_chars(&mut out, message.as_str());
        assert(out@ =~= self@.report());
        string_of(&out)
    }
}

/// The first three characters of the headline of `kind`.
pub open spec fn headline_opening(kind: ErrorKind) -> Seq<char> {
    match kind {
        ErrorKind::InvalidVersionSpec => seq!['i', 'n', 'v'],
        ErrorKind::CacheDirUnavailable => seq!['c', 'a', 'c'],
        ErrorKind::NetworkError => seq!['n', 'e', 't'],
        ErrorKind::UnsupportedPlatform => seq!['u', 'n', 's'],
        ErrorKind::WriteError => seq!['w', 'r', 'i'],
        ErrorKind::ContractNotFound => seq!['c', 'o', 'n'],
        ErrorKind::SpawnError => seq!['s', 'p', 'a'],
        ErrorKind::SerializationError => seq!['s', 'e', 'r'],
        ErrorKind::NonZeroExit => seq!['n', 'o', 'n'],
        ErrorKind::CompilerReportedError => seq!['c', 'o', 'm'],
        ErrorKind::MalformedOutput => seq!['m', 'a', 'l'],
    }
}

/// Every message opens with the three characters that are particular to its kind.
pub proof fn lemma_message_opening(e: ErrorView)
    ensures
        e.message().len() >= 3,
        e.message().take(3) == headline_opening(e.kind()),
{
    reveal_strlit("invalid compiler version");
    reveal_strlit("cache directory unavailable");
    reveal_strlit("network error while downloading the compiler");
    reveal_strlit("unsupported platform");
    reveal_strlit("write error while storing the compiler");
    reveal_strlit("contract not found");
    reveal_strlit("spawning the compiler failed");
    reveal_strlit("serialization of the compilation request failed");
    reveal_strlit("non-zero exit status from the compiler");
    reveal_strlit("compiler reported errors");
    reveal_strlit("malformed compiler output");
    let h = e.kind().headline();
    let m = e.message();
    assert(h.len() >= 3);
    assert(m[0] == h[0] && m[1] == h[1] && m[2] == h[2]);
    assert(m.take(3) =~= headline_opening(e.kind()));
}

/// Failures of different kinds never show the same text, whatever their details.
pub proof fn lemma_kinds_have_distinct_messages(a: ErrorView, b: ErrorView)
    requires
        a.kind() != b.kind(),
    ensures
        a.message() != b.message(),
{
    lemma_message_opening(a);
    lemma_message_opening(b);
    let x = headline_opening(a.kind());
    let y = headline_opening(b.kind());
    assert(x[0] != y[0] || x[1] != y[1] || x[2] != y[2]);
}

} // verus!
