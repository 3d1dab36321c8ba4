//! Why a C or C++ compilation cannot use the action cache.
use vstd::prelude::*;
use crate::text::{lit, string_of, lit_then};
use crate::decimal::{decimal, decimal_chars};

verus! {

/// Reason a C or C++ invocation cannot safely use the action cache.
///
/// A bypass is an expected conservative outcome, not a compiler error. Match
/// on [`CcBypassReason::kind`] for aggregation rather than on the variants;
/// paths are carried as their UTF-8 text.
#[derive(Debug, Clone)]
pub enum CcBypassReason {
    /// Fails with: "compiler argument {index} is not valid UTF-8".
    NonUtf8Argument{ index: usize },
    /// Fails with: "compiler response file is not modeled by the cache adapter: {0}".
    ResponseFile(String),
    /// Fails with: "compiler flag is not modeled by the cache adapter: {0}".
    UnknownFlag(String),
    /// Fails with: "compiler flag {0} is missing its value".
    MissingValue(String),
    /// Fails with: "compiler invocation queries the driver instead of compiling".
    CompilerQuery,
    /// Fails with: "compiler invocation does not compile with -c".
    NotACompile,
    /// Fails with: "compiler invocation emits a non-object output: {0}".
    NonObjectOutput(String),
    /// Fails with: "compiler invocation reads its source from standard input".
    StandardInput,
    /// Fails with: "compiler invocation names no source file".
    MissingInput,
    /// Fails with: "compiler invocation names more than one source file".
    MultipleInputs,
    /// Fails with: "compiler invocation names no output file".
    MissingOutput,
    /// Fails with: "compiler input language is not modeled by the cache adapter: {0}".
    UnsupportedLanguage(String),
    /// Fails with: "compiler invocation requests its own dependency output: {0}".
    CallerDependencyFlags(String),
    /// Fails with: "precompiled headers are not modeled by the cache adapter: {0}".
    PrecompiledHeader(String),
    /// Fails with: "coverage instrumentation is not modeled by the cache adapter: {0}".
    CoverageInstrumentation(String),
    /// Fails with: "split debug output is not modeled by the cache adapter: {0}".
    SplitDebugOutput(String),
    /// Fails with: "preserved temporaries are not modeled by the cache adapter: {0}".
    SaveTemps(String),
    /// Fails with: "compiler flag forwards options to another tool: {0}".
    ToolPassthrough(String),
    /// Fails with: "compiler plugins are not modeled by the cache adapter: {0}".
    Plugin(String),
    /// Fails with: "compiler flag tunes for the local CPU: {0}".
    LocalCpuTarget(String),
    /// Fails with: "compiler driver is not modeled by the cache adapter: {0}".
    UnsupportedCompilerDriver(String),
    /// Fails with: "could not establish compiler identity: {0}".
    CompilerIdentityUnavailable(String),
    /// Fails with: "environment variable {0} changes the compilation in an unmodeled way".
    UnsupportedEnvironment(String),
    /// Fails with: "no real compiler was pinned for the cc shim".
    RealCompilerUnpinned,
    /// Fails with: "input expands a timestamp macro: {0}".
    EmbeddedTimestampMacro(String),
    /// Fails with: "could not model the compiler depfile: {0}".
    MalformedDepfile(String),
    /// Fails with: "could not read the compiler depfile {path}: {message}".
    DepfileRead{ path: String, message: String },
    /// Fails with: "compilation reads more inputs than the cache adapter models".
    TooManyInputs,
    /// Fails with: "path is outside every modeled root: {0}".
    UnmappedAbsolutePath(String),
    /// Fails with: "path is not valid UTF-8: {0}".
    NonUtf8Path(String),
    /// Fails with: "compiler working directory is not absolute: {0}".
    RelativeWorkingDirectory(String),
    /// Fails with: "path mapping root is not absolute: {0}".
    RelativePathMapping(String),
    /// Fails with: "invalid path mapping placeholder: {0}".
    InvalidPathPlaceholder(String),
    /// Fails with: "required input is missing from the discovered inputs: {0}".
    MissingRequiredInput(String),
    /// Fails with: "invalid digest for input: {0}".
    InvalidInputDigest(String),
    /// Fails with: "conflicting digests for input: {0}".
    ConflictingInput(String),
    /// Fails with: "could not read input {path}: {message}".
    InputRead{ path: String, message: String },
    /// Fails with: "input changed during the compilation: {0}".
    InputChanged(String),
    /// Fails with: "input was modified during the compilation: {0}".
    InputModifiedDuringCompilation(String),
    /// Fails with: "discovered inputs use a different working directory".
    DiscoveryWorkingDirectory,
    /// Fails with: "action prediction is not modeled by this adapter version".
    UnsupportedPrediction,
    /// Fails with: "invalid predicted input: {0}".
    InvalidPredictedInput(String),
    /// Fails with: "could not serialize the action descriptor: {0}".
    Serialization(String),
}

/// The abstract content of a [`CcBypassReason`]: the same variant, with
/// every text field taken by its characters.
pub ghost enum BypassView {
    NonUtf8Argument{ index: usize },
    ResponseFile(Seq<char>),
    UnknownFlag(Seq<char>),
    MissingValue(Seq<char>),
    CompilerQuery,
    NotACompile,
    NonObjectOutput(Seq<char>),
    StandardInput,
    MissingInput,
    MultipleInputs,
    MissingOutput,
    UnsupportedLanguage(Seq<char>),
    CallerDependencyFlags(Seq<char>),
    PrecompiledHeader(Seq<char>),
    CoverageInstrumentation(Seq<char>),
    SplitDebugOutput(Seq<char>),
    SaveTemps(Seq<char>),
    ToolPassthrough(Seq<char>),
    Plugin(Seq<char>),
    LocalCpuTarget(Seq<char>),
    UnsupportedCompilerDriver(Seq<char>),
    CompilerIdentityUnavailable(Seq<char>),
    UnsupportedEnvironment(Seq<char>),
    RealCompilerUnpinned,
    EmbeddedTimestampMacro(Seq<char>),
    MalformedDepfile(Seq<char>),
    DepfileRead{ path: Seq<char>, message: Seq<char> },
    TooManyInputs,
    UnmappedAbsolutePath(Seq<char>),
    NonUtf8Path(Seq<char>),
    RelativeWorkingDirectory(Seq<char>),
    RelativePathMapping(Seq<char>),
    InvalidPathPlaceholder(Seq<char>),
    MissingRequiredInput(Seq<char>),
    InvalidInputDigest(Seq<char>),
    ConflictingInput(Seq<char>),
    InputRead{ path: Seq<char>, message: Seq<char> },
    InputChanged(Seq<char>),
    InputModifiedDuringCompilation(Seq<char>),
    DiscoveryWorkingDirectory,
    UnsupportedPrediction,
    InvalidPredictedInput(Seq<char>),
    Serialization(Seq<char>),
}

impl View for CcBypassReason {
    type V = BypassView;

    open spec fn view(&self) -> BypassView {
        match self {
            CcBypassReason::NonUtf8Argument { index } => BypassView::NonUtf8Argument { index: *index },
            CcBypassReason::ResponseFile(x) => BypassView::ResponseFile(x@),
            CcBypassReason::UnknownFlag(x) => BypassView::UnknownFlag(x@),
            CcBypassReason::MissingValue(x) => BypassView::MissingValue(x@),
            CcBypassReason::CompilerQuery => BypassView::CompilerQuery,
            CcBypassReason::NotACompile => BypassView::NotACompile,
            CcBypassReason::NonObjectOutput(x) => BypassView::NonObjectOutput(x@),
            CcBypassReason::StandardInput => BypassView::StandardInput,
            CcBypassReason::MissingInput => BypassView::MissingInput,
            CcBypassReason::MultipleInputs => BypassView::MultipleInputs,
            CcBypassReason::MissingOutput => BypassView::MissingOutput,
            CcBypassReason::UnsupportedLanguage(x) => BypassView::UnsupportedLanguage(x@),
            CcBypassReason::CallerDependencyFlags(x) => BypassView::CallerDependencyFlags(x@),
            CcBypassReason::PrecompiledHeader(x) => BypassView::PrecompiledHeader(x@),
            CcBypassReason::CoverageInstrumentation(x) => BypassView::CoverageInstrumentation(x@),
            CcBypassReason::SplitDebugOutput(x) => BypassView::SplitDebugOutput(x@),
            CcBypassReason::SaveTemps(x) => BypassView::SaveTemps(x@),
            CcBypassReason::ToolPassthrough(x) => BypassView::ToolPassthrough(x@),
            CcBypassReason::Plugin(x) => BypassView::Plugin(x@),
            CcBypassReason::LocalCpuTarget(x) => BypassView::LocalCpuTarget(x@),
            CcBypassReason::UnsupportedCompilerDriver(x) => BypassView::UnsupportedCompilerDriver(x@),
            CcBypassReason::CompilerIdentityUnavailable(x) => BypassView::CompilerIdentityUnavailable(x@),
            CcBypassReason::UnsupportedEnvironment(x) => BypassView::UnsupportedEnvironment(x@),
            CcBypassReason::RealCompilerUnpinned => BypassView::RealCompilerUnpinned,
            CcBypassReason::EmbeddedTimestampMacro(x) => BypassView::EmbeddedTimestampMacro(x@),
            CcBypassReason::MalformedDepfile(x) => BypassView::MalformedDepfile(x@),
            CcBypassReason::DepfileRead { path, message } => BypassView::DepfileRead { path: path@, message: message@ },
            CcBypassReason::TooManyInputs => BypassView::TooManyInputs,
            CcBypassReason::UnmappedAbsolutePath(x) => BypassView::UnmappedAbsolutePath(x@),
            CcBypassReason::NonUtf8Path(x) => BypassView::NonUtf8Path(x@),
            CcBypassReason::RelativeWorkingDirectory(x) => BypassView::RelativeWorkingDirectory(x@),
            CcBypassReason::RelativePathMapping(x) => BypassView::RelativePathMapping(x@),
            CcBypassReason::InvalidPathPlaceholder(x) => BypassView::InvalidPathPlaceholder(x@),
            CcBypassReason::MissingRequiredInput(x) => BypassView::MissingRequiredInput(x@),
            CcBypassReason::InvalidInputDigest(x) => BypassView::InvalidInputDigest(x@),
            CcBypassReason::ConflictingInput(x) => BypassView::ConflictingInput(x@),
            CcBypassReason::InputRead { path, message } => BypassView::InputRead { path: path@, message: message@ },
            CcBypassReason::InputChanged(x) => BypassView::InputChanged(x@),
            CcBypassReason::InputModifiedDuringCompilation(x) => BypassView::InputModifiedDuringCompilation(x@),
            CcBypassReason::DiscoveryWorkingDirectory => BypassView::DiscoveryWorkingDirectory,
            CcBypassReason::UnsupportedPrediction => BypassView::UnsupportedPrediction,
            CcBypassReason::InvalidPredictedInput(x) => BypassView::InvalidPredictedInput(x@),
            CcBypassReason::Serialization(x) => BypassView::Serialization(x@),
        }
    }
}

/// The stable, low-cardinality name of a reason's variant.
pub open spec fn bypass_kind(r: BypassView) -> &'static str {
    match r {
        BypassView::NonUtf8Argument { .. } => "non-utf8-argument",
        BypassView::ResponseFile(..) => "response-file",
        BypassView::UnknownFlag(..) => "unknown-flag",
        BypassView::MissingValue(..) => "missing-value",
        BypassView::CompilerQuery => "compiler-query",
        BypassView::NotACompile => "not-a-compile",
        BypassView::NonObjectOutput(..) => "non-object-output",
        BypassView::StandardInput => "standard-input",
        BypassView::MissingInput => "missing-input",
        BypassView::MultipleInputs => "multiple-inputs",
        BypassView::MissingOutput => "missing-output",
        BypassView::UnsupportedLanguage(..) => "unsupported-language",
        BypassView::CallerDependencyFlags(..) => "caller-dependency-flags",
        BypassView::PrecompiledHeader(..) => "precompiled-header",
        BypassView::CoverageInstrumentation(..) => "coverage-instrumentation",
        BypassView::SplitDebugOutput(..) => "split-debug-output",
        BypassView::SaveTemps(..) => "save-temps",
        BypassView::ToolPassthrough(..) => "tool-passthrough",
        BypassView::Plugin(..) => "plugin",
        BypassView::LocalCpuTarget(..) => "local-cpu-target",
        BypassView::UnsupportedCompilerDriver(..) => "unsupported-compiler-driver",
        BypassView::CompilerIdentityUnavailable(..) => "compiler-identity-unavailable",
        BypassView::UnsupportedEnvironment(..) => "unsupported-environment",
        BypassView::RealCompilerUnpinned => "real-compiler-unpinned",
        BypassView::EmbeddedTimestampMacro(..) => "embedded-timestamp-macro",
        BypassView::MalformedDepfile(..) => "malformed-depfile",
        BypassView::DepfileRead { .. } => "depfile-read",
        BypassView::TooManyInputs => "too-many-inputs",
        BypassView::UnmappedAbsolutePath(..) => "unmapped-absolute-path",
        BypassView::NonUtf8Path(..) => "non-utf8-path",
        BypassView::RelativeWorkingDirectory(..) => "relative-working-directory",
        BypassView::RelativePathMapping(..) => "relative-path-mapping",
        BypassView::InvalidPathPlaceholder(..) => "invalid-path-placeholder",
        BypassView::MissingRequiredInput(..) => "missing-required-input",
        BypassView::InvalidInputDigest(..) => "invalid-input-digest",
        BypassView::ConflictingInput(..) => "conflicting-input",
        BypassView::InputRead { .. } => "input-read",
        BypassView::InputChanged(..) => "input-changed",
        BypassView::InputModifiedDuringCompilation(..) => "input-modified-during-compilation",
        BypassView::DiscoveryWorkingDirectory => "discovery-working-directory",
        BypassView::UnsupportedPrediction => "unsupported-prediction",
        BypassView::InvalidPredictedInput(..) => "invalid-predicted-input",
        BypassView::Serialization(..) => "serialization",
    }
}

/// The human-readable text of a reason.
pub open spec fn bypass_message(r: BypassView) -> Seq<char> {
    match r {
        BypassView::NonUtf8Argument { index } => "compiler argument "@ + decimal(index as nat) + " is not valid UTF-8"@,
        BypassView::ResponseFile(x) => "compiler response file is not modeled by the cache adapter: "@ + x,
        BypassView::UnknownFlag(x) => "compiler flag is not modeled by the cache adapter: "@ + x,
        BypassView::MissingValue(x) => "compiler flag "@ + x + " is missing its value"@,
        BypassView::CompilerQuery => "compiler invocation queries the driver instead of compiling"@,
        BypassView::NotACompile => "compiler invocation does not compile with -c"@,
        BypassView::NonObjectOutput(x) => "compiler invocation emits a non-object output: "@ + x,
        BypassView::StandardInput => "compiler invocation reads its source from standard input"@,
        BypassView::MissingInput => "compiler invocation names no source file"@,
        BypassView::MultipleInputs => "compiler invocation names more than one source file"@,
        BypassView::MissingOutput => "compiler invocation names no output file"@,
        BypassView::UnsupportedLanguage(x) => "compiler input language is not modeled by the cache adapter: "@ + x,
        BypassView::CallerDependencyFlags(x) => "compiler invocation requests its own dependency output: "@ + x,
        BypassView::PrecompiledHeader(x) => "precompiled headers are not modeled by the cache adapter: "@ + x,
        BypassView::CoverageInstrumentation(x) => "coverage instrumentation is not modeled by the cache adapter: "@ + x,
        BypassView::SplitDebugOutput(x) => "split debug output is not modeled by the cache adapter: "@ + x,
        BypassView::SaveTemps(x) => "preserved temporaries are not modeled by the cache adapter: "@ + x,
        BypassView::ToolPassthrough(x) => "compiler flag forwards options to another tool: "@ + x,
        BypassView::Plugin(x) => "compiler plugins are not modeled by the cache adapter: "@ + x,
        BypassView::LocalCpuTarget(x) => "compiler flag tunes for the local CPU: "@ + x,
        BypassView::UnsupportedCompilerDriver(x) => "compiler driver is not modeled by the cache adapter: "@ + x,
        BypassView::CompilerIdentityUnavailable(x) => "could not establish compiler identity: "@ + x,
        BypassView::UnsupportedEnvironment(x) => "environment variable "@ + x + " changes the compilation in an unmodeled way"@,
        BypassView::RealCompilerUnpinned => "no real compiler was pinned for the cc shim"@,
        BypassView::EmbeddedTimestampMacro(x) => "input expands a timestamp macro: "@ + x,
        BypassView::MalformedDepfile(x) => "could not model the compiler depfile: "@ + x,
        BypassView::DepfileRead { path, message } => "could not read the compiler depfile "@ + path + ": "@ + message,
        BypassView::TooManyInputs => "compilation reads more inputs than the cache adapter models"@,
        BypassView::UnmappedAbsolutePath(x) => "path is outside every modeled root: "@ + x,
        BypassView::NonUtf8Path(x) => "path is not valid UTF-8: "@ + x,
        BypassView::RelativeWorkingDirectory(x) => "compiler working directory is not absolute: "@ + x,
        BypassView::RelativePathMapping(x) => "path mapping root is not absolute: "@ + x,
        BypassView::InvalidPathPlaceholder(x) => "invalid path mapping placeholder: "@ + x,
        BypassView::MissingRequiredInput(x) => "required input is missing from the discovered inputs: "@ + x,
        BypassView::InvalidInputDigest(x) => "invalid digest for input: "@ + x,
        BypassView::ConflictingInput(x) => "conflicting digests for input: "@ + x,
        BypassView::InputRead { path, message } => "could not read input "@ + path + ": "@ + message,
        BypassView::InputChanged(x) => "input changed during the compilation: "@ + x,
        BypassView::InputModifiedDuringCompilation(x) => "input was modified during the compilation: "@ + x,
        BypassView::DiscoveryWorkingDirectory => "discovered inputs use a different working directory"@,
        BypassView::UnsupportedPrediction => "action prediction is not modeled by this adapter version"@,
        BypassView::InvalidPredictedInput(x) => "invalid predicted input: "@ + x,
        BypassView::Serialization(x) => "could not serialize the action descriptor: "@ + x,
    }
}

impl CcBypassReason {
    /// A copy of the reason.
    pub fn clone_reason(&self) -> (r: CcBypassReason)
        ensures
            r@ == self@,
    {
        match self {
            CcBypassReason::NonUtf8Argument { index } => CcBypassReason::NonUtf8Argument { index: *index },
            CcBypassReason::ResponseFile(x) => CcBypassReason::ResponseFile(x.clone()),
            CcBypassReason::UnknownFlag(x) => CcBypassReason::UnknownFlag(x.clone()),
            CcBypassReason::MissingValue(x) => CcBypassReason::MissingValue(x.clone()),
            CcBypassReason::CompilerQuery => CcBypassReason::CompilerQuery,
            CcBypassReason::NotACompile => CcBypassReason::NotACompile,
            CcBypassReason::NonObjectOutput(x) => CcBypassReason::NonObjectOutput(x.clone()),
            CcBypassReason::StandardInput => CcBypassReason::StandardInput,
            CcBypassReason::MissingInput => CcBypassReason::MissingInput,
            CcBypassReason::MultipleInputs => CcBypassReason::MultipleInputs,
            CcBypassReason::MissingOutput => CcBypassReason::MissingOutput,
            CcBypassReason::UnsupportedLanguage(x) => CcBypassReason::UnsupportedLanguage(x.clone()),
            CcBypassReason::CallerDependencyFlags(x) => CcBypassReason::CallerDependencyFlags(x.clone()),
            CcBypassReason::PrecompiledHeader(x) => CcBypassReason::PrecompiledHeader(x.clone()),
            CcBypassReason::CoverageInstrumentation(x) => CcBypassReason::CoverageInstrumentation(x.clone()),
            CcBypassReason::SplitDebugOutput(x) => CcBypassReason::SplitDebugOutput(x.clone()),
            CcBypassReason::SaveTemps(x) => CcBypassReason::SaveTemps(x.clone()),
            CcBypassReason::ToolPassthrough(x) => CcBypassReason::ToolPassthrough(x.clone()),
            CcBypassReason::Plugin(x) => CcBypassReason::Plugin(x.clone()),
            CcBypassReason::LocalCpuTarget(x) => CcBypassReason::LocalCpuTarget(x.clone()),
            CcBypassReason::UnsupportedCompilerDriver(x) => CcBypassReason::UnsupportedCompilerDriver(x.clone()),
            CcBypassReason::CompilerIdentityUnavailable(x) => CcBypassReason::CompilerIdentityUnavailable(x.clone()),
            CcBypassReason::UnsupportedEnvironment(x) => CcBypassReason::UnsupportedEnvironment(x.clone()),
            CcBypassReason::RealCompilerUnpinned => CcBypassReason::RealCompilerUnpinned,
            CcBypassReason::EmbeddedTimestampMacro(x) => CcBypassReason::EmbeddedTimestampMacro(x.clone()),
            CcBypassReason::MalformedDepfile(x) => CcBypassReason::MalformedDepfile(x.clone()),
            CcBypassReason::DepfileRead { path, message } => CcBypassReason::DepfileRead { path: path.clone(), message: message.clone() },
            CcBypassReason::TooManyInputs => CcBypassReason::TooManyInputs,
            CcBypassReason::UnmappedAbsolutePath(x) => CcBypassReason::UnmappedAbsolutePath(x.clone()),
            CcBypassReason::NonUtf8Path(x) => CcBypassReason::NonUtf8Path(x.clone()),
            CcBypassReason::RelativeWorkingDirectory(x) => CcBypassReason::RelativeWorkingDirectory(x.clone()),
            CcBypassReason::RelativePathMapping(x) => CcBypassReason::RelativePathMapping(x.clone()),
            CcBypassReason::InvalidPathPlaceholder(x) => CcBypassReason::InvalidPathPlaceholder(x.clone()),
            CcBypassReason::MissingRequiredInput(x) => CcBypassReason::MissingRequiredInput(x.clone()),
            CcBypassReason::InvalidInputDigest(x) => CcBypassReason::InvalidInputDigest(x.clone()),
            CcBypassReason::ConflictingInput(x) => CcBypassReason::ConflictingInput(x.clone()),
            CcBypassReason::InputRead { path, message } => CcBypassReason::InputRead { path: path.clone(), message: message.clone() },
            CcBypassReason::InputChanged(x) => CcBypassReason::InputChanged(x.clone()),
            CcBypassReason::InputModifiedDuringCompilation(x) => CcBypassReason::InputModifiedDuringCompilation(x.clone()),
            CcBypassReason::DiscoveryWorkingDirectory => CcBypassReason::DiscoveryWorkingDirectory,
            CcBypassReason::UnsupportedPrediction => CcBypassReason::UnsupportedPrediction,
            CcBypassReason::InvalidPredictedInput(x) => CcBypassReason::InvalidPredictedInput(x.clone()),
            CcBypassReason::Serialization(x) => CcBypassReason::Serialization(x.clone()),
        }
    }

    /// A stable, low-cardinality name for this reason.
    ///
    /// Many variants carry a path or a flag, so the message text cannot be
    /// aggregated; statistics group by this instead.
    pub fn kind(&self) -> (k: &'static str)
        ensures
            k == bypass_kind(self@),
    {
        match self {
            CcBypassReason::NonUtf8Argument { .. } => "non-utf8-argument",
            CcBypassReason::ResponseFile(..) => "response-file",
            CcBypassReason::UnknownFlag(..) => "unknown-flag",
            CcBypassReason::MissingValue(..) => "missing-value",
            CcBypassReason::CompilerQuery => "compiler-query",
            CcBypassReason::NotACompile => "not-a-compile",
            CcBypassReason::NonObjectOutput(..) => "non-object-output",
            CcBypassReason::StandardInput => "standard-input",
            CcBypassReason::MissingInput => "missing-input",
            CcBypassReason::MultipleInputs => "multiple-inputs",
            CcBypassReason::MissingOutput => "missing-output",
            CcBypassReason::UnsupportedLanguage(..) => "unsupported-language",
            CcBypassReason::CallerDependencyFlags(..) => "caller-dependency-flags",
            CcBypassReason::PrecompiledHeader(..) => "precompiled-header",
            CcBypassReason::CoverageInstrumentation(..) => "coverage-instrumentation",
            CcBypassReason::SplitDebugOutput(..) => "split-debug-output",
            CcBypassReason::SaveTemps(..) => "save-temps",
            CcBypassReason::ToolPassthrough(..) => "tool-passthrough",
            CcBypassReason::Plugin(..) => "plugin",
            CcBypassReason::LocalCpuTarget(..) => "local-cpu-target",
            CcBypassReason::UnsupportedCompilerDriver(..) => "unsupported-compiler-driver",
            CcBypassReason::CompilerIdentityUnavailable(..) => "compiler-identity-unavailable",
            CcBypassReason::UnsupportedEnvironment(..) => "unsupported-environment",
            CcBypassReason::RealCompilerUnpinned => "real-compiler-unpinned",
            CcBypassReason::EmbeddedTimestampMacro(..) => "embedded-timestamp-macro",
            CcBypassReason::MalformedDepfile(..) => "malformed-depfile",
            CcBypassReason::DepfileRead { .. } => "depfile-read",
            CcBypassReason::TooManyInputs => "too-many-inputs",
            CcBypassReason::UnmappedAbsolutePath(..) => "unmapped-absolute-path",
            CcBypassReason::NonUtf8Path(..) => "non-utf8-path",
            CcBypassReason::RelativeWorkingDirectory(..) => "relative-working-directory",
            CcBypassReason::RelativePathMapping(..) => "relative-path-mapping",
            CcBypassReason::InvalidPathPlaceholder(..) => "invalid-path-placeholder",
            CcBypassReason::MissingRequiredInput(..) => "missing-required-input",
            CcBypassReason::InvalidInputDigest(..) => "invalid-input-digest",
            CcBypassReason::ConflictingInput(..) => "conflicting-input",
            CcBypassReason::InputRead { .. } => "input-read",
            CcBypassReason::InputChanged(..) => "input-changed",
            CcBypassReason::InputModifiedDuringCompilation(..) => "input-modified-during-compilation",
            CcBypassReason::DiscoveryWorkingDirectory => "discovery-working-directory",
            CcBypassReason::UnsupportedPrediction => "unsupported-prediction",
            CcBypassReason::InvalidPredictedInput(..) => "invalid-predicted-input",
            CcBypassReason::Serialization(..) => "serialization",
        }
    }

    /// The human-readable description of this reason.
    pub fn message(&self) -> (m: String)
        ensures
            m@ == bypass_message(self@),
    {
        match self {
            CcBypassReason::NonUtf8Argument { index } => { let d = decimal_chars(*index as u64); let mut s = lit_then("compiler argument ", d.as_slice()); s.append(" is not valid UTF-8"); s },
            CcBypassReason::ResponseFile(x) => { let mut s = String::from_str("compiler response file is not modeled by the cache adapter: "); s.append(x.as_str()); s },
            CcBypassReason::UnknownFlag(x) => { let mut s = String::from_str("compiler flag is not modeled by the cache adapter: "); s.append(x.as_str()); s },
            CcBypassReason::MissingValue(x) => { let mut s = String::from_str("compiler flag "); s.append(x.as_str()); s.append(" is missing its value"); s },
            CcBypassReason::CompilerQuery => String::from_str("compiler invocation queries the driver instead of compiling"),
            CcBypassReason::NotACompile => String::from_str("compiler invocation does not compile with -c"),
            CcBypassReason::NonObjectOutput(x) => { let mut s = String::from_str("compiler invocation emits a non-object output: "); s.append(x.as_str()); s },
            CcBypassReason::StandardInput => String::from_str("compiler invocation reads its source from standard input"),
            CcBypassReason::MissingInput => String::from_str("compiler invocation names no source file"),
            CcBypassReason::MultipleInputs => String::from_str("compiler invocation names more than one source file"),
            CcBypassReason::MissingOutput => String::from_str("compiler invocation names no output file"),
            CcBypassReason::UnsupportedLanguage(x) => { let mut s = String::from_str("compiler input language is not modeled by the cache adapter: "); s.append(x.as_str()); s },
            CcBypassReason::CallerDependencyFlags(x) => { let mut s = String::from_str("compiler invocation requests its own dependency output: "); s.append(x.as_str()); s },
            CcBypassReason::PrecompiledHeader(x) => { let mut s = String::from_str("precompiled headers are not modeled by the cache adapter: "); s.append(x.as_str()); s },
            CcBypassReason::CoverageInstrumentation(x) => { let mut s = String::from_str("coverage instrumentation is not modeled by the cache adapter: "); s.append(x.as_str()); s },
            CcBypassReason::SplitDebugOutput(x) => { let mut s = String::from_str("split debug output is not modeled by the cache adapter: "); s.append(x.as_str()); s },
            CcBypassReason::SaveTemps(x) => { let mut s = String::from_str("preserved temporaries are not modeled by the cache adapter: "); s.append(x.as_str()); s },
            CcBypassReason::ToolPassthrough(x) => { let mut s = String::from_str("compiler flag forwards options to another tool: "); s.append(x.as_str()); s },
            CcBypassReason::Plugin(x) => { let mut s = String::from_str("compiler plugins are not modeled by the cache adapter: "); s.append(x.as_str()); s },
            CcBypassReason::LocalCpuTarget(x) => { let mut s = String::from_str("compiler flag tunes for the local CPU: "); s.append(x.as_str()); s },
            CcBypassReason::UnsupportedCompilerDriver(x) => { let mut s = String::from_str("compiler driver is not modeled by the cache adapter: "); s.append(x.as_str()); s },
            CcBypassReason::CompilerIdentityUnavailable(x) => { let mut s = String::from_str("could not establish compiler identity: "); s.append(x.as_str()); s },
            CcBypassReason::UnsupportedEnvironment(x) => { let mut s = String::from_str("environment variable "); s.append(x.as_str()); s.append(" changes the compilation in an unmodeled way"); s },
            CcBypassReason::RealCompilerUnpinned => String::from_str("no real compiler was pinned for the cc shim"),
            CcBypassReason::EmbeddedTimestampMacro(x) => { let mut s = String::from_str("input expands a timestamp macro: "); s.append(x.as_str()); s },
            CcBypassReason::MalformedDepfile(x) => { let mut s = String::from_str("could not model the compiler depfile: "); s.append(x.as_str()); s },
            CcBypassReason::DepfileRead { path, message } => { let mut s = String::from_str("could not read the compiler depfile "); s.append(path.as_str()); s.append(": "); s.append(message.as_str()); s },
            CcBypassReason::TooManyInputs => String::from_str("compilation reads more inputs than the cache adapter models"),
            CcBypassReason::UnmappedAbsolutePath(x) => { let mut s = String::from_str("path is outside every modeled root: "); s.append(x.as_str()); s },
            CcBypassReason::NonUtf8Path(x) => { let mut s = String::from_str("path is not valid UTF-8: "); s.append(x.as_str()); s },
            CcBypassReason::RelativeWorkingDirectory(x) => { let mut s = String::from_str("compiler working directory is not absolute: "); s.append(x.as_str()); s },
            CcBypassReason::RelativePathMapping(x) => { let mut s = String::from_str("path mapping root is not absolute: "); s.append(x.as_str()); s },
            CcBypassReason::InvalidPathPlaceholder(x) => { let mut s = String::from_str("invalid path mapping placeholder: "); s.append(x.as_str()); s },
            CcBypassReason::MissingRequiredInput(x) => { let mut s = String::from_str("required input is missing from the discovered inputs: "); s.append(x.as_str()); s },
            CcBypassReason::InvalidInputDigest(x) => { let mut s = String::from_str("invalid digest for input: "); s.append(x.as_str()); s },
            CcBypassReason::ConflictingInput(x) => { let mut s = String::from_str("conflicting digests for input: "); s.append(x.as_str()); s },
            CcBypassReason::InputRead { path, message } => { let mut s = String::from_str("could not read input "); s.append(path.as_str()); s.append(": "); s.append(message.as_str()); s },
            CcBypassReason::InputChanged(x) => { let mut s = String::from_str("input changed during the compilation: "); s.append(x.as_str()); s },
            CcBypassReason::InputModifiedDuringCompilation(x) => { let mut s = String::from_str("input was modified during the compilation: "); s.append(x.as_str()); s },
            CcBypassReason::DiscoveryWorkingDirectory => String::from_str("discovered inputs use a different working directory"),
            CcBypassReason::UnsupportedPrediction => String::from_str("action prediction is not modeled by this adapter version"),
            CcBypassReason::InvalidPredictedInput(x) => { let mut s = String::from_str("invalid predicted input: "); s.append(x.as_str()); s },
            CcBypassReason::Serialization(x) => { let mut s = String::from_str("could not serialize the action descriptor: "); s.append(x.as_str()); s },
        }
    }
}

} // verus!
