use mbx_cache::agent::digest::CacheDigest;
use mbx_cache::cc::context::{validate_mappings, CcActionContext, CcCompilerIdentity};
use mbx_cache::cc::discovery::{CcActionInput, CcDiscoveredInputs};
use mbx_cache::cc::invocation::CcInvocation;
use mbx_cache::cc::language::CcCompilerFamily;
use mbx_cache::cc::prediction::PathMapping;

fn mapping(root: &str, placeholder: &str) -> PathMapping {
    PathMapping { root: root.to_string(), placeholder: placeholder.to_string() }
}

fn context(working_dir: &str) -> CcActionContext {
    CcActionContext {
        compiler: CcCompilerIdentity {
            family: CcCompilerFamily::Gcc,
            version_text: "gcc version 13".into(),
            target: "x86_64-linux-gnu".into(),
            assembler: "GNU assembler 2.41".into(),
        },
        working_dir: working_dir.to_string(),
        path_mappings: vec![mapping("/work/one/target", "target"), mapping("/work/one", "workspace")],
        environment: Vec::new(),
        inputs: Vec::new(),
    }
}

#[test]
fn mappings_must_be_absolute_distinct_and_plainly_named() {
    let good = vec![mapping("/work/one/target", "target"), mapping("/work/one", "workspace")];
    assert!(validate_mappings("/work/one", &good).is_ok());
    assert_eq!(validate_mappings("work/one", &good).unwrap_err().kind(), "relative-working-directory");
    assert_eq!(
        validate_mappings("/work", &vec![mapping("relative/root", "r")]).unwrap_err().kind(),
        "relative-path-mapping"
    );
    for placeholder in ["", "has space", "dollar$", "ümlaut"] {
        assert_eq!(
            validate_mappings("/work", &vec![mapping("/root", placeholder)]).unwrap_err().kind(),
            "invalid-path-placeholder",
            "{placeholder:?}"
        );
    }
    // The same root spelled twice, or one placeholder for two roots.
    let twice = vec![mapping("/work/one", "a"), mapping("/work/./one/", "b")];
    assert_eq!(validate_mappings("/work", &twice).unwrap_err().kind(), "invalid-path-placeholder");
    let shared = vec![mapping("/work/one", "a"), mapping("/work/two", "a")];
    assert_eq!(validate_mappings("/work", &shared).unwrap_err().kind(), "invalid-path-placeholder");
}

#[test]
fn discovered_inputs_join_a_context_with_the_same_working_directory() {
    let input = CcActionInput { path: "/work/one/a.c".into(), digest: CacheDigest::blake3(b"int a;") };
    let mut same = context("/work/./one");
    CcDiscoveredInputs::new("/work/one".into(), vec![input.clone()]).apply_to(&mut same).unwrap();
    assert_eq!(same.inputs, vec![input.clone()]);

    let mut other = context("/work/two");
    let error = CcDiscoveredInputs::new("/work/one".into(), vec![input]).apply_to(&mut other).unwrap_err();
    assert_eq!(error.kind(), "discovery-working-directory");
    assert!(other.inputs.is_empty());
}

#[test]
fn dependency_lists_are_requested_with_system_headers() {
    let arguments: Vec<Option<String>> = ["-c", "-o", "out.o", "a.c"].iter().map(|a| Some(a.to_string())).collect();
    let invocation = CcInvocation::parse(&arguments).expect("admitted");
    assert_eq!(invocation.dependency_arguments("out.d"), vec!["-MD", "-MF", "out.d"]);
}
