//! What a canonical cc action is built from besides the command line: the
//! compiler's identity, the working directory, the path mappings and the
//! environment, and the inputs discovery found.
use vstd::prelude::*;
use crate::cc::language::CcCompilerFamily;
use crate::cc::discovery::{CcActionInput, CcDiscoveredInputs};
use crate::cc::prediction::{PathMapping, PathMappingView, mappings_view};
use crate::cc::reason::{CcBypassReason, BypassView};
use crate::cc::invocation::CcInvocation;
use crate::path::{is_absolute, normalized, normalize_chars};
use crate::text::{chars_of, eq_chars};

verus! {

/// Compiler properties that distinguish incompatible objects.
#[derive(Debug, Clone)]
pub struct CcCompilerIdentity {
    /// Driver family.
    pub family: CcCompilerFamily,
    /// Complete verbose probe output, verbatim.
    pub version_text: String,
    /// Target triple the driver reports.
    pub target: String,
    /// Resolved assembler and its version, for families that use one.
    pub assembler: String,
}

/// External information needed to construct a canonical cc action.
#[derive(Debug, Clone)]
pub struct CcActionContext {
    /// Identity of the compiler that produces the object.
    pub compiler: CcCompilerIdentity,
    /// Absolute directory in which the compiler runs.
    pub working_dir: String,
    /// Host roots replaced with stable placeholders in the key, in the
    /// order they are tried.
    pub path_mappings: Vec<PathMapping>,
    /// Environment inputs and their observed values, by name.
    pub environment: Vec<(String, Option<String>)>,
    /// Complete set of direct and discovered file inputs.
    pub inputs: Vec<CcActionInput>,
}

/// Whether a character may appear in a placeholder: an ASCII letter or
/// digit, or `_`.
pub open spec fn placeholder_char(c: char) -> bool {
    ('a' <= c && c <= 'z') || ('A' <= c && c <= 'Z') || ('0' <= c && c <= '9') || c == '_'
}

/// Whether the mapping at `k` is admissible after those before it: an
/// absolute root, a non-empty placeholder of letters, digits and `_`, and
/// neither the normalized root nor the placeholder used before.
pub open spec fn mapping_admissible(ms: Seq<PathMappingView>, k: int) -> bool {
    &&& is_absolute(ms[k].root)
    &&& ms[k].placeholder.len() > 0
    &&& forall|i: int| 0 <= i < ms[k].placeholder.len() ==> placeholder_char(#[trigger] ms[k].placeholder[i])
    &&& forall|j: int| 0 <= j < k ==> normalized(#[trigger] ms[j].root) != normalized(ms[k].root)
    &&& forall|j: int| 0 <= j < k ==> (#[trigger] ms[j]).placeholder != ms[k].placeholder
}

/// The refusal an inadmissible mapping earns.
pub open spec fn mapping_refusal(m: PathMappingView) -> BypassView {
    if !is_absolute(m.root) {
        BypassView::RelativePathMapping(m.root)
    } else {
        BypassView::InvalidPathPlaceholder(m.placeholder)
    }
}

/// The refusal a context's working directory and mappings earn, if any:
/// a relative working directory, else the first inadmissible mapping.
pub open spec fn mappings_refusal(working_dir: Seq<char>, ms: Seq<PathMappingView>) -> Option<BypassView> {
    if !is_absolute(working_dir) {
        Some(BypassView::RelativeWorkingDirectory(working_dir))
    } else if exists|k: int| 0 <= k < ms.len() && !mapping_admissible(ms, k) {
        let f = choose|k: int| 0 <= k < ms.len() && !mapping_admissible(ms, k)
            && forall|j: int| 0 <= j < k ==> mapping_admissible(ms, j);
        Some(mapping_refusal(ms[f]))
    } else {
        None
    }
}

fn placeholder_ok(p: &[char]) -> (r: bool)
    ensures
        r == (p@.len() > 0 && forall|i: int| 0 <= i < p@.len() ==> placeholder_char(#[trigger] p@[i])),
{
    if p.len() == 0 {
        return false;
    }
    let mut i: usize = 0;
    while i < p.len()
        invariant
            i <= p.len(),
            forall|j: int| 0 <= j < i ==> placeholder_char(#[trigger] p@[j]),
        decreases p.len() - i,
    {
        let c = p[i];
        if !(('a' <= c && c <= 'z') || ('A' <= c && c <= 'Z') || ('0' <= c && c <= '9') || c == '_') {
            return false;
        }
        i = i + 1;
    }
    true
}

/// Refuse a relative working directory, and mappings that would make keys
/// ambiguous, see [`mappings_refusal`].
pub fn validate_mappings(working_dir: &str, mappings: &Vec<PathMapping>) -> (r: Result<(), CcBypassReason>)
    ensures
        match mappings_refusal(working_dir@, mappings_view(mappings@)) {
            None => r is Ok,
            Some(e) => r matches Err(x) && x@ == e,
        },
{
    let ghost ms = mappings_view(mappings@);
    let wd = chars_of(working_dir);
    if !(wd.len() > 0 && wd[0] == '/') {
        return Err(CcBypassReason::RelativeWorkingDirectory(String::from_str(working_dir)));
    }
    let mut roots: Vec<Vec<char>> = Vec::new();
    let mut i: usize = 0;
    while i < mappings.len()
        invariant
            i <= mappings.len(),
            ms == mappings_view(mappings@),
            is_absolute(working_dir@),
            roots.len() == i,
            forall|j: int| 0 <= j < i ==> (#[trigger] roots@[j])@ == normalized(ms[j].root),
            forall|k: int| 0 <= k < i ==> mapping_admissible(ms, k),
        decreases mappings.len() - i,
    {
        assert(ms[i as int] == mappings@[i as int]@);
        let root = chars_of(mappings[i].root.as_str());
        let placeholder = chars_of(mappings[i].placeholder.as_str());
        let fail = if !(root.len() > 0 && root[0] == '/') {
            Some(CcBypassReason::RelativePathMapping(mappings[i].root.clone()))
        } else {
            assert(is_absolute(ms[i as int].root));
            let normal = normalize_chars(&root);
            let mut clash = !placeholder_ok(&placeholder);
            let mut j: usize = 0;
            while j < i
                invariant
                    j <= i,
                    i < mappings.len(),
                    roots.len() == i,
                    ms == mappings_view(mappings@),
                    forall|q: int| 0 <= q < i ==> (#[trigger] roots@[q])@ == normalized(ms[q].root),
                    normal@ == normalized(ms[i as int].root),
                    placeholder@ == ms[i as int].placeholder,
                    is_absolute(ms[i as int].root),
                    !clash ==> forall|q: int| 0 <= q < j ==> normalized(#[trigger] ms[q].root) != normalized(ms[i as int].root),
                    !clash ==> forall|q: int| 0 <= q < j ==> (#[trigger] ms[q]).placeholder != ms[i as int].placeholder,
                    !clash ==> (ms[i as int].placeholder.len() > 0 && forall|c: int| 0 <= c < ms[i as int].placeholder.len()
                        ==> placeholder_char(#[trigger] ms[i as int].placeholder[c])),
                    clash ==> !mapping_admissible(ms, i as int),
                decreases i - j,
            {
                assert(ms[j as int] == mappings@[j as int]@);
                if eq_chars(&roots[j], &normal) || mappings[j].placeholder == mappings[i].placeholder {
                    clash = true;
                }
                j = j + 1;
            }
            if !clash {
                assert(mapping_admissible(ms, i as int));
            }
            roots.push(normal);
            if clash { Some(CcBypassReason::InvalidPathPlaceholder(mappings[i].placeholder.clone())) } else { None }
        };
        match fail {
            Some(e) => {
                assert(!mapping_admissible(ms, i as int));
                assert(forall|j: int| 0 <= j < i ==> mapping_admissible(ms, j));
                proof {
                    let f = choose|k: int| 0 <= k < ms.len() && !mapping_admissible(ms, k)
                        && forall|j: int| 0 <= j < k ==> mapping_admissible(ms, j);
                    assert(0 <= i < ms.len() && !mapping_admissible(ms, i as int)
                        && forall|j: int| 0 <= j < i ==> mapping_admissible(ms, j));
                    if f < i {
                    } else if f > i {
                        assert(mapping_admissible(ms, i as int));
                    }
                    assert(f == i);
                }
                return Err(e);
            },
            None => {
                assert(mapping_admissible(ms, i as int));
            },
        }
        i = i + 1;
    }
    Ok(())
}

impl CcDiscoveredInputs {
    /// Merge the inputs into an action context after confirming both use the
    /// same compiler working directory: the context's, normalized, must be
    /// the one the inputs were discovered under.
    pub fn apply_to(self, context: &mut CcActionContext) -> (r: Result<(), CcBypassReason>)
        ensures
            normalized(old(context).working_dir@) == self.spec_working_dir() ==> r is Ok
                && final(context).inputs@ == old(context).inputs@ + self.spec_inputs()
                && *final(context) == (CcActionContext { inputs: final(context).inputs, ..*old(context) }),
            normalized(old(context).working_dir@) != self.spec_working_dir() ==> (r matches Err(e)
                && e@ == BypassView::DiscoveryWorkingDirectory && *final(context) == *old(context)),
    {
        let wd = chars_of(context.working_dir.as_str());
        let normal = normalize_chars(&wd);
        let (working_dir, inputs) = self.into_parts();
        let mine = chars_of(working_dir.as_str());
        if !eq_chars(&normal, &mine) {
            return Err(CcBypassReason::DiscoveryWorkingDirectory);
        }
        let mut inputs = inputs;
        context.inputs.append(&mut inputs);
        Ok(())
    }
}

impl CcInvocation {
    /// Arguments to append so the driver writes a dependency list beside
    /// the object: `-MD` rather than `-MMD`, since system headers are the
    /// inputs most likely to change unnoticed by any other key component.
    pub fn dependency_arguments(&self, depfile: &str) -> (r: Vec<String>)
        ensures
            r@.len() == 3,
            r@[0]@ == "-MD"@,
            r@[1]@ == "-MF"@,
            r@[2]@ == depfile@,
    {
        let mut r: Vec<String> = Vec::new();
        r.push(String::from_str("-MD"));
        r.push(String::from_str("-MF"));
        r.push(String::from_str(depfile));
        r
    }
}

} // verus!
