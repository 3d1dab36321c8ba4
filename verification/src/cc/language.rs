//! Languages and compiler families the cc adapter models.
use vstd::prelude::*;
use crate::cc::reason::{CcBypassReason, BypassView};
use crate::text::{chars_of, contains_chars, contains_seq, lit, find_char, slice, string_of};

verus! {

/// Source language a driver invocation compiles.
#[derive(Debug, Clone, Copy, PartialEq, Eq, Structural)]
pub enum CcLanguage {
    /// C, driven through `CC`.
    C,
    /// C++, driven through `CXX`.
    Cxx,
}

impl CcLanguage {
    /// Shim file stem that selects this language.
    pub fn shim_stem(self) -> (r: &'static str)
        ensures
            r == (match self {
                CcLanguage::C => "mbx-cc",
                CcLanguage::Cxx => "mbx-cxx",
            }),
    {
        match self {
            Self::C => "mbx-cc",
            Self::Cxx => "mbx-cxx",
        }
    }

    /// Default driver name to fall back to when no real compiler is pinned.
    pub fn default_driver(self) -> (r: &'static str)
        ensures
            r == (match self {
                CcLanguage::C => "cc",
                CcLanguage::Cxx => "c++",
            }),
    {
        match self {
            Self::C => "cc",
            Self::Cxx => "c++",
        }
    }
}

/// Compiler family, which decides how the identity is assembled.
#[derive(Debug, Clone, Copy, PartialEq, Eq, Structural)]
pub enum CcCompilerFamily {
    /// GCC, which compiles objects through an external assembler.
    Gcc,
    /// Upstream LLVM clang.
    Clang,
    /// Apple's clang distribution.
    AppleClang,
}

/// The first line of a text, without its line terminator.
pub open spec fn first_line(s: Seq<char>) -> Seq<char> {
    let line = match crate::text::split_once(s, '\n') {
        Some((head, _)) => head,
        None => s,
    };
    if line.len() > 0 && line.last() == '\r' { line.drop_last() } else { line }
}

/// The family a verbose probe output names, checked from the most specific
/// spelling to the least.
pub open spec fn classify_probe(probe: Seq<char>) -> Result<CcCompilerFamily, BypassView> {
    if contains_seq(probe, "Apple clang version"@) {
        Ok(CcCompilerFamily::AppleClang)
    } else if contains_seq(probe, "clang version"@) {
        Ok(CcCompilerFamily::Clang)
    } else if contains_seq(probe, "gcc version"@) {
        Ok(CcCompilerFamily::Gcc)
    } else {
        Err(BypassView::UnsupportedCompilerDriver(first_line(probe)))
    }
}

impl CcCompilerFamily {
    /// Stable name recorded in the action key.
    pub fn as_str(self) -> (r: &'static str)
        ensures
            r == (match self {
                CcCompilerFamily::Gcc => "gcc",
                CcCompilerFamily::Clang => "clang",
                CcCompilerFamily::AppleClang => "apple-clang",
            }),
    {
        match self {
            Self::Gcc => "gcc",
            Self::Clang => "clang",
            Self::AppleClang => "apple-clang",
        }
    }

    /// Whether objects are produced through a separate assembler binary whose
    /// version therefore belongs in the identity.
    pub fn uses_external_assembler(self) -> (r: bool)
        ensures
            r == (self == CcCompilerFamily::Gcc),
    {
        matches!(self, Self::Gcc)
    }

    /// Classify a driver from its verbose probe output.
    pub fn classify(probe: &str) -> (r: Result<Self, CcBypassReason>)
        ensures
            match (r, classify_probe(probe@)) {
                (Ok(a), Ok(b)) => a == b,
                (Err(e), Err(f)) => e@ == f,
                _ => false,
            },
    {
        let text = chars_of(probe);
        let apple = lit("Apple clang version");
        let clang = lit("clang version");
        let gcc = lit("gcc version");
        if contains_chars(text.as_slice(), apple.as_slice()) {
            Ok(Self::AppleClang)
        } else if contains_chars(text.as_slice(), clang.as_slice()) {
            Ok(Self::Clang)
        } else if contains_chars(text.as_slice(), gcc.as_slice()) {
            Ok(Self::Gcc)
        } else {
            let mut line = match find_char(text.as_slice(), '\n') {
                Some(i) => slice(text.as_slice(), 0, i),
                None => slice(text.as_slice(), 0, text.len()),
            };
            assert(line@ == (match crate::text::split_once(text@, '\n') {
                Some((head, _)) => head,
                None => text@,
            }));
            if line.len() > 0 && line[line.len() - 1] == '\r' {
                line.pop();
            }
            Err(CcBypassReason::UnsupportedCompilerDriver(string_of(line.as_slice())))
        }
    }
}

/// Compiler properties that distinguish incompatible objects.
#[derive(Debug, Clone)]
pub struct CcCompilerIdentity {
    /// Driver family.
    pub family: CcCompilerFamily,
    /// Complete verbose probe output, verbatim.
    pub version_text: String,
    /// Target triple the driver reports.
    pub target: String,
    /// Resolved assembler and its version, for families that use one.
    ///
    /// GCC assembles through binutils, whose version changes object bytes
    /// without changing anything `gcc -v` prints. Clang assembles internally,
    /// so this is empty there.
    pub assembler: String,
}

/// The driver family is decided by the whole probe output, wherever in it
/// the version line stands: the Apple spelling wins, then clang's, then
/// gcc's, and a probe naming none is refused.
pub proof fn lemma_family_from_whole_probe(probe: Seq<char>)
    ensures
        contains_seq(probe, "Apple clang version"@) ==> classify_probe(probe) == Ok::<CcCompilerFamily, BypassView>(CcCompilerFamily::AppleClang),
        !contains_seq(probe, "Apple clang version"@) && contains_seq(probe, "clang version"@)
            ==> classify_probe(probe) == Ok::<CcCompilerFamily, BypassView>(CcCompilerFamily::Clang),
        !contains_seq(probe, "Apple clang version"@) && !contains_seq(probe, "clang version"@) && contains_seq(probe, "gcc version"@)
            ==> classify_probe(probe) == Ok::<CcCompilerFamily, BypassView>(CcCompilerFamily::Gcc),
        !contains_seq(probe, "Apple clang version"@) && !contains_seq(probe, "clang version"@) && !contains_seq(probe, "gcc version"@)
            ==> classify_probe(probe) is Err,
{
}

proof fn lemma_contains_after_line(line: Seq<char>, rest: Seq<char>, needle: Seq<char>)
    requires
        needle.len() > 0,
        !needle.contains('\n'),
        !contains_seq(line, needle),
    ensures
        contains_seq(line + seq!['\n'] + rest, needle) == contains_seq(rest, needle),
{
    let q = line + seq!['\n'] + rest;
    let l = line.len() as int;
    let n = needle.len() as int;
    if contains_seq(rest, needle) {
        let i = choose|i: int| 0 <= i <= rest.len() - n && #[trigger] rest.subrange(i, i + n) == needle;
        assert(q.subrange(l + 1 + i, l + 1 + i + n) =~= rest.subrange(i, i + n));
        assert(0 <= l + 1 + i <= q.len() - n);
    }
    if contains_seq(q, needle) {
        let j = choose|j: int| 0 <= j <= q.len() - n && #[trigger] q.subrange(j, j + n) == needle;
        if j >= l + 1 {
            assert(rest.subrange(j - l - 1, j - l - 1 + n) =~= q.subrange(j, j + n));
            assert(0 <= j - l - 1 <= rest.len() - n);
        } else if j + n <= l {
            assert(line.subrange(j, j + n) =~= q.subrange(j, j + n));
            assert(0 <= j <= line.len() - n);
            assert(contains_seq(line, needle));
        } else {
            assert(needle[l - j] == q.subrange(j, j + n)[l - j]);
            assert(q[l] == '\n');
            assert(needle.contains('\n'));
        }
    }
}

proof fn lemma_spellings_lack_newline()
    ensures
        !"Apple clang version"@.contains('\n'),
        !"clang version"@.contains('\n'),
        !"gcc version"@.contains('\n'),
        "Apple clang version"@.len() > 0,
        "clang version"@.len() > 0,
        "gcc version"@.len() > 0,
{
    reveal_strlit("Apple clang version");
    reveal_strlit("clang version");
    reveal_strlit("gcc version");
    assert forall|k: int| 0 <= k < "Apple clang version"@.len() implies "Apple clang version"@[k] != '\n' by {}
    assert forall|k: int| 0 <= k < "clang version"@.len() implies "clang version"@[k] != '\n' by {}
    assert forall|k: int| 0 <= k < "gcc version"@.len() implies "gcc version"@[k] != '\n' by {}
}

/// A line that names no family, put before a probe that names one, leaves
/// the family as it was.
pub proof fn lemma_unrelated_line_keeps_family(line: Seq<char>, probe: Seq<char>)
    requires
        !line.contains('\n'),
        !contains_seq(line, "Apple clang version"@),
        !contains_seq(line, "clang version"@),
        !contains_seq(line, "gcc version"@),
        classify_probe(probe) is Ok,
    ensures
        classify_probe(line + seq!['\n'] + probe) == classify_probe(probe),
{
    lemma_spellings_lack_newline();
    lemma_contains_after_line(line, probe, "Apple clang version"@);
    lemma_contains_after_line(line, probe, "clang version"@);
    lemma_contains_after_line(line, probe, "gcc version"@);
}

} // verus!
