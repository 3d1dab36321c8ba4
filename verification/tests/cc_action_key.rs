use mbx_cache::agent::digest::CacheDigest;
use mbx_cache::cc::action_key::invocation_digest;
use mbx_cache::cc::context::{CcActionContext, CcCompilerIdentity};
use mbx_cache::cc::language::CcCompilerFamily;
use mbx_cache::cc::prediction::PathMapping;
use mbx_cache::cc::reason::CcBypassReason;

fn context(working_dir: &str) -> CcActionContext {
    CcActionContext {
        compiler: CcCompilerIdentity {
            family: CcCompilerFamily::Clang,
            version_text: "clang \"17\"\n".into(),
            target: "x86_64-linux-gnu".into(),
            assembler: String::new(),
        },
        working_dir: working_dir.to_string(),
        path_mappings: vec![PathMapping { root: "/work".into(), placeholder: "workspace".into() }],
        environment: Vec::new(),
        inputs: Vec::new(),
    }
}

fn ok(items: &[&str]) -> Vec<Result<String, CcBypassReason>> {
    items.iter().map(|s| Ok(s.to_string())).collect()
}

#[test]
fn the_invocation_digest_hashes_the_canonical_descriptor() {
    let digest = invocation_digest(
        &context("/work"),
        &ok(&["-c", "${workspace}/a.c", "-o", "a.o"]),
        &ok(&["${workspace}/b.h", "${workspace}/a.c", "${workspace}/b.h"]),
    )
    .unwrap();
    let expected = [
        r#"{"adapter_version":1,"arguments":["-c","${workspace}/a.c","-o","a.o"],"#,
        r#""compiler":{"assembler":"","family":"clang","target":"x86_64-linux-gnu","version_text":"clang \"17\"\n"},"#,
        r#""kind":"cc","required_inputs":["${workspace}/a.c","${workspace}/b.h"],"version":1}"#,
    ]
    .concat();
    assert_eq!(digest, CacheDigest::blake3(expected.as_bytes()));
}

#[test]
fn equivalent_required_inputs_give_the_same_invocation_digest() {
    let one = invocation_digest(&context("/work"), &ok(&["-c"]), &ok(&["b", "a"])).unwrap();
    let two = invocation_digest(&context("/work"), &ok(&["-c"]), &ok(&["a", "b", "a"])).unwrap();
    assert_eq!(one, two);
    let other = invocation_digest(&context("/work"), &ok(&["-c", "-O2"]), &ok(&["a", "b"])).unwrap();
    assert_ne!(one, other);
}

#[test]
fn an_invocation_digest_is_refused_in_order() {
    assert_eq!(
        invocation_digest(&context("relative"), &ok(&["-c"]), &ok(&[])).unwrap_err().kind(),
        "relative-working-directory"
    );
    let unmapped = vec![Ok("-c".to_string()), Err(CcBypassReason::UnmappedAbsolutePath("/elsewhere".into()))];
    assert_eq!(
        invocation_digest(&context("/work"), &unmapped, &ok(&[])).unwrap_err().kind(),
        "unmapped-absolute-path"
    );
}
