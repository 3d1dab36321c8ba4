//! The pre-input fingerprint of a C or C++ compile: the canonical JSON of its
//! invocation descriptor (compiler, normalized arguments, required inputs)
//! and the BLAKE3 digest a prediction is looked up under.
use vstd::prelude::*;
use vstd::utf8::encode_utf8;
use crate::agent::digest::{CacheDigest, DigestView, blake3_digest};
use crate::cargo::identity::{json_string, push_json_string, push_literal};
use crate::cc::action_inputs::{first_required_error, ordered_paths, prediction_inputs, required_set};
use crate::cc::context::{CcActionContext, validate_mappings, mappings_refusal};
use crate::cc::prediction::mappings_view;
use crate::cc::reason::CcBypassReason;
use crate::cc::language::CcCompilerFamily;
use crate::text::string_of;

verus! {

/// The version of the action schema, which enters every descriptor.
pub const ACTION_SCHEMA_VERSION: u8 = 1;

/// The version of this adapter's descriptors.
pub const ADAPTER_VERSION: u8 = 1;

/// JSON string literals separated by commas.
pub open spec fn json_items(items: Seq<Seq<char>>) -> Seq<char>
    decreases items.len(),
{
    if items.len() == 0 {
        Seq::empty()
    } else if items.len() == 1 {
        json_string(items[0])
    } else {
        json_items(items.drop_last()) + seq![','] + json_string(items.last())
    }
}

/// A JSON array of strings.
pub open spec fn json_array(items: Seq<Seq<char>>) -> Seq<char> {
    seq!['['] + json_items(items) + seq![']']
}

/// The compiler part of a descriptor, its keys in order.
pub open spec fn compiler_object(assembler: Seq<char>, family: Seq<char>, target: Seq<char>, version_text: Seq<char>) -> Seq<char> {
    "{\"assembler\":"@ + json_string(assembler) + ",\"family\":"@ + json_string(family) + ",\"target\":"@
        + json_string(target) + ",\"version_text\":"@ + json_string(version_text) + "}"@
}

/// The canonical invocation descriptor: its keys in sorted order, no
/// whitespace, the schema and adapter versions 1 and the kind `cc`.
pub open spec fn invocation_document(compiler: Seq<char>, arguments: Seq<Seq<char>>, required: Seq<Seq<char>>) -> Seq<char> {
    "{\"adapter_version\":1,\"arguments\":"@ + json_array(arguments) + ",\"compiler\":"@ + compiler
        + ",\"kind\":\"cc\",\"required_inputs\":"@ + json_array(required) + ",\"version\":1}"@
}

/// The texts of results that are all `Ok`.
pub open spec fn ok_texts(rs: Seq<Result<String, CcBypassReason>>) -> Seq<Seq<char>> {
    rs.map_values(|r: Result<String, CcBypassReason>| match r {
        Ok(s) => s@,
        Err(_) => Seq::empty(),
    })
}

/// A compiler family's name in a descriptor.
pub open spec fn family_text(f: CcCompilerFamily) -> Seq<char> {
    match f {
        CcCompilerFamily::Gcc => "gcc"@,
        CcCompilerFamily::Clang => "clang"@,
        CcCompilerFamily::AppleClang => "apple-clang"@,
    }
}

/// The compiler part of a context's descriptor.
pub open spec fn context_compiler(context: CcActionContext) -> Seq<char> {
    compiler_object(context.compiler.assembler@, family_text(context.compiler.family), context.compiler.target@,
        context.compiler.version_text@)
}

fn push_json_array(out: &mut Vec<char>, items: &Vec<String>)
    ensures
        final(out)@ == old(out)@ + json_array(items@.map_values(|s: String| s@)),
{
    let ghost start = out@;
    let ghost views = items@.map_values(|s: String| s@);
    out.push('[');
    let mut i: usize = 0;
    while i < items.len()
        invariant
            i <= items.len(),
            views == items@.map_values(|s: String| s@),
            out@ == start + seq!['['] + json_items(views.take(i as int)),
        decreases items.len() - i,
    {
        let ghost before = out@;
        assert(views.take(i + 1).drop_last() == views.take(i as int));
        assert(views.take(i + 1).last() == items@[i as int]@);
        if i > 0 {
            out.push(',');
        }
        push_json_string(out, items[i].as_str());
        if i == 0 {
            assert(views.take(1)[0] == items@[0]@);
            assert(out@ =~= start + seq!['['] + json_items(views.take(1)));
        } else {
            assert(out@ =~= start + seq!['['] + json_items(views.take(i + 1)));
        }
        i = i + 1;
    }
    assert(views.take(items.len() as int) == views);
    out.push(']');
    assert(out@ =~= start + json_array(views));
}

fn ok_strings(rs: &Vec<Result<String, CcBypassReason>>) -> (r: Vec<String>)
    requires
        first_required_error(rs@, 0) is None,
    ensures
        r@.map_values(|s: String| s@) == ok_texts(rs@),
{
    let mut out: Vec<String> = Vec::new();
    let mut i: usize = 0;
    while i < rs.len()
        invariant
            i <= rs.len(),
            first_required_error(rs@, 0) == first_required_error(rs@, i as int),
            first_required_error(rs@, 0) is None,
            out@.map_values(|s: String| s@) == ok_texts(rs@).take(i as int),
        decreases rs.len() - i,
    {
        let ghost before = out@;
        match &rs[i] {
            Ok(s) => {
                out.push(s.clone());
                assert(out@.map_values(|s: String| s@) =~= before.map_values(|s: String| s@).push(s@));
                assert(ok_texts(rs@)[i as int] == s@);
            },
            Err(_) => {
                assert(false);
            },
        }
        assert(out@.map_values(|s: String| s@) =~= ok_texts(rs@).take(i + 1));
        i = i + 1;
    }
    assert(ok_texts(rs@).take(rs.len() as int) == ok_texts(rs@));
    out
}

/// The digest a prediction is looked up under: the BLAKE3 digest of the
/// canonical invocation descriptor, built from the context's compiler, the
/// normalized arguments in order and the normalized required inputs ordered
/// and each once. Refused where the context's working directory or path
/// mappings are not admissible, then at the first argument and then the
/// first required input that could not be normalized.
pub fn invocation_digest(
    context: &CcActionContext,
    arguments: &Vec<Result<String, CcBypassReason>>,
    required: &Vec<Result<String, CcBypassReason>>,
) -> (r: Result<CacheDigest, CcBypassReason>)
    ensures
        match mappings_refusal(context.working_dir@, mappings_view(context.path_mappings@)) {
            Some(e) => r matches Err(x) && x@ == e,
            None => match first_required_error(arguments@, 0) {
                Some(e) => r matches Err(x) && x@ == e,
                None => match first_required_error(required@, 0) {
                    Some(e) => r matches Err(x) && x@ == e,
                    None => r matches Ok(d) && exists|req: Seq<String>| ordered_paths(req, required_set(required@))
                        && d@ == blake3_digest(encode_utf8(invocation_document(context_compiler(*context), ok_texts(arguments@),
                            req.map_values(|s: String| s@)))),
                },
            },
        },
{
    validate_mappings(context.working_dir.as_str(), &context.path_mappings)?;
    let mut k: usize = 0;
    while k < arguments.len()
        invariant
            k <= arguments.len(),
            mappings_refusal(context.working_dir@, mappings_view(context.path_mappings@)) is None,
            first_required_error(arguments@, 0) == first_required_error(arguments@, k as int),
        decreases arguments.len() - k,
    {
        if let Err(e) = &arguments[k] {
            return Err(e.clone_reason());
        }
        k = k + 1;
    }
    let normalized = ok_strings(arguments);
    let required_inputs = prediction_inputs(required)?;
    let mut document: Vec<char> = Vec::new();
    push_literal(&mut document, "{\"adapter_version\":1,\"arguments\":");
    push_json_array(&mut document, &normalized);
    push_literal(&mut document, ",\"compiler\":{\"assembler\":");
    push_json_string(&mut document, context.compiler.assembler.as_str());
    push_literal(&mut document, ",\"family\":");
    push_json_string(&mut document, context.compiler.family.as_str());
    push_literal(&mut document, ",\"target\":");
    push_json_string(&mut document, context.compiler.target.as_str());
    push_literal(&mut document, ",\"version_text\":");
    push_json_string(&mut document, context.compiler.version_text.as_str());
    push_literal(&mut document, "},\"kind\":\"cc\",\"required_inputs\":");
    push_json_array(&mut document, &required_inputs);
    push_literal(&mut document, ",\"version\":1}");
    proof {
        reveal_strlit("{\"adapter_version\":1,\"arguments\":");
        reveal_strlit(",\"compiler\":{\"assembler\":");
        reveal_strlit(",\"family\":");
        reveal_strlit(",\"target\":");
        reveal_strlit(",\"version_text\":");
        reveal_strlit("},\"kind\":\"cc\",\"required_inputs\":");
        reveal_strlit(",\"version\":1}");
        reveal_strlit("{\"assembler\":"); 
        reveal_strlit("}");
        reveal_strlit(",\"kind\":\"cc\",\"required_inputs\":");
        reveal_strlit(",\"compiler\":");
        reveal_strlit("gcc");
        reveal_strlit("clang");
        reveal_strlit("apple-clang");
    }
    assert(document@ =~= invocation_document(context_compiler(*context), ok_texts(arguments@),
        required_inputs@.map_values(|s: String| s@)));
    let text = string_of(&document);
    let bytes = text.as_str().as_bytes();
    Ok(CacheDigest::blake3(bytes))
}

} // verus!
