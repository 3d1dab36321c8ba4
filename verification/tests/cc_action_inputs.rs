use mbx_cache::agent::digest::CacheDigest;
use mbx_cache::cc::action_inputs::{action_inputs, prediction_inputs, KeyedInput};
use mbx_cache::cc::reason::CcBypassReason;

fn keyed(path: &str, contents: &[u8], normalized: &str) -> KeyedInput {
    KeyedInput { path: path.into(), digest: CacheDigest::blake3(contents), normalized: Ok(normalized.into()) }
}

#[test]
fn key_inputs_are_ordered_by_path_and_agree_on_repeats() {
    let inputs = vec![
        keyed("/w/b.h", b"b", "${SRC}/b.h"),
        keyed("/w/a.c", b"a", "${SRC}/a.c"),
        keyed("/w/./b.h", b"b", "${SRC}/b.h"),
    ];
    let out = action_inputs(&inputs, &vec![Ok("${SRC}/a.c".to_string())]).unwrap();
    assert_eq!(
        out,
        vec![("${SRC}/a.c".to_string(), CacheDigest::blake3(b"a")), ("${SRC}/b.h".to_string(), CacheDigest::blake3(b"b"))]
    );
}

#[test]
fn one_path_with_two_digests_conflicts() {
    let inputs = vec![keyed("/w/b.h", b"b", "${SRC}/b.h"), keyed("/w/b2.h", b"other", "${SRC}/b.h")];
    let error = action_inputs(&inputs, &vec![]).unwrap_err();
    assert_eq!(error.kind(), "conflicting-input");
}

#[test]
fn an_invalid_digest_is_refused_under_the_path_the_compiler_saw() {
    let mut input = keyed("/w/a.c", b"a", "${SRC}/a.c");
    input.digest.algorithm = "sha256".into();
    match action_inputs(&vec![input], &vec![]).unwrap_err() {
        CcBypassReason::InvalidInputDigest(path) => assert_eq!(path, "/w/a.c"),
        other => panic!("unexpected {other:?}"),
    }
}

#[test]
fn the_least_missing_required_input_is_named() {
    let inputs = vec![keyed("/w/a.c", b"a", "${SRC}/a.c")];
    let required = vec![Ok("${SRC}/z.h".to_string()), Ok("${SRC}/m.h".to_string()), Ok("${SRC}/a.c".to_string())];
    match action_inputs(&inputs, &required).unwrap_err() {
        CcBypassReason::MissingRequiredInput(path) => assert_eq!(path, "${SRC}/m.h"),
        other => panic!("unexpected {other:?}"),
    }
    let unmapped = vec![Err(CcBypassReason::UnmappedAbsolutePath("/elsewhere/x.h".into()))];
    assert_eq!(action_inputs(&inputs, &unmapped).unwrap_err().kind(), "unmapped-absolute-path");
}

#[test]
fn predictions_record_each_normalized_input_once_in_order() {
    let paths = vec![Ok("${SRC}/b.h".to_string()), Ok("${SRC}/a.c".to_string()), Ok("${SRC}/b.h".to_string())];
    assert_eq!(prediction_inputs(&paths).unwrap(), vec!["${SRC}/a.c".to_string(), "${SRC}/b.h".to_string()]);
    let bad = vec![Ok("${SRC}/a.c".to_string()), Err(CcBypassReason::NonUtf8Path("x".into()))];
    assert_eq!(prediction_inputs(&bad).unwrap_err().kind(), "non-utf8-path");
}
