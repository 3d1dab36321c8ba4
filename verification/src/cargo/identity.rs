//! The cross-checkout identity that selects a workspace's prediction
//! manifest: the BLAKE3 hash of a small canonical JSON document naming the
//! workspace, the platform and the identity scheme.
use vstd::prelude::*;
use crate::agent::digest::{CacheDigest, blake3_hex, is_lower_hex};
use crate::text::{chars_of, string_of, lit};
use crate::path::{file_name, file_name_of};
use vstd::utf8::encode_utf8;

verus! {

/// The identity scheme's version, which enters every identity.
pub const BUILD_IDENTITY_VERSION: u8 = 3;

/// A lowercase hexadecimal digit.
pub open spec fn hex_char(d: int) -> char {
    if d < 10 { (('0' as int) + d) as char } else { (('a' as int) + d - 10) as char }
}

/// One character as it appears inside a JSON string under the JSON
/// Canonicalization Scheme: quote and backslash escaped, the five named
/// control characters by name, the other controls as `\u00XX`, everything
/// else as itself.
pub open spec fn json_char(c: char) -> Seq<char> {
    if c == '"' {
        seq!['\\', '"']
    } else if c == '\\' {
        seq!['\\', '\\']
    } else if c == '\u{8}' {
        seq!['\\', 'b']
    } else if c == '\t' {
        seq!['\\', 't']
    } else if c == '\n' {
        seq!['\\', 'n']
    } else if c == '\u{c}' {
        seq!['\\', 'f']
    } else if c == '\r' {
        seq!['\\', 'r']
    } else if (c as int) < 0x20 {
        seq!['\\', 'u', '0', '0', hex_char((c as int) / 16), hex_char((c as int) % 16)]
    } else {
        seq![c]
    }
}

/// The characters of `s` escaped for a JSON string.
pub open spec fn json_escaped(s: Seq<char>) -> Seq<char>
    decreases s.len(),
{
    if s.len() == 0 { Seq::empty() } else { json_escaped(s.drop_last()) + json_char(s.last()) }
}

/// `s` as a JSON string literal.
pub open spec fn json_string(s: Seq<char>) -> Seq<char> {
    seq!['"'] + json_escaped(s) + seq!['"']
}

/// The canonical identity document: its keys in sorted order, no spaces.
pub open spec fn identity_document(workspace: Seq<char>, os: Seq<char>, arch: Seq<char>) -> Seq<char> {
    "{\"arch\":"@ + json_string(arch) + ",\"os\":"@ + json_string(os) + ",\"version\":3,\"workspace\":"@
        + json_string(workspace) + "}"@
}

/// The manifest identity of one workspace marker on one platform.
pub open spec fn identity_of(workspace: Seq<char>, os: Seq<char>, arch: Seq<char>) -> Seq<char> {
    blake3_hex(encode_utf8(identity_document(workspace, os, arch)))
}

fn hex_digit_char(d: u32) -> (c: char)
    requires
        d < 16,
    ensures
        c == hex_char(d as int),
{
    let table = ['0', '1', '2', '3', '4', '5', '6', '7', '8', '9', 'a', 'b', 'c', 'd', 'e', 'f'];
    let c = table[d as usize];
    assert(c == hex_char(d as int)) by {
        assert(table@ =~= seq!['0', '1', '2', '3', '4', '5', '6', '7', '8', '9', 'a', 'b', 'c', 'd', 'e', 'f']);
    }
    c
}

fn push_json_char(out: &mut Vec<char>, c: char)
    ensures
        final(out)@ == old(out)@ + json_char(c),
{
    let ghost before = out@;
    if c == '"' {
        out.push('\\');
        out.push('"');
    } else if c == '\\' {
        out.push('\\');
        out.push('\\');
    } else if c == '\u{8}' {
        out.push('\\');
        out.push('b');
    } else if c == '\t' {
        out.push('\\');
        out.push('t');
    } else if c == '\n' {
        out.push('\\');
        out.push('n');
    } else if c == '\u{c}' {
        out.push('\\');
        out.push('f');
    } else if c == '\r' {
        out.push('\\');
        out.push('r');
    } else if (c as u32) < 0x20 {
        let v = c as u32;
        out.push('\\');
        out.push('u');
        out.push('0');
        out.push('0');
        out.push(hex_digit_char(v / 16));
        out.push(hex_digit_char(v % 16));
    } else {
        out.push(c);
    }
    assert(out@ =~= before + json_char(c));
}

pub(crate) fn push_json_string(out: &mut Vec<char>, s: &str)
    ensures
        final(out)@ == old(out)@ + json_string(s@),
{
    let text = chars_of(s);
    let ghost start = out@;
    out.push('"');
    let mut i: usize = 0;
    while i < text.len()
        invariant
            i <= text.len(),
            out@ == start + seq!['"'] + json_escaped(text@.take(i as int)),
        decreases text.len() - i,
    {
        push_json_char(out, text[i]);
        assert(text@.take(i + 1).drop_last() == text@.take(i as int));
        assert(text@.take(i + 1).last() == text@[i as int]);
        i = i + 1;
    }
    assert(text@.take(text.len() as int) == text@);
    out.push('"');
    assert(out@ =~= start + json_string(s@));
}

pub(crate) fn push_literal(out: &mut Vec<char>, s: &str)
    ensures
        final(out)@ == old(out)@ + s@,
{
    let text = chars_of(s);
    let ghost start = out@;
    let mut i: usize = 0;
    while i < text.len()
        invariant
            i <= text.len(),
            out@ == start + text@.take(i as int),
        decreases text.len() - i,
    {
        out.push(text[i]);
        assert(text@.take(i + 1) =~= text@.take(i as int).push(text@[i as int]));
        assert(out@ =~= start + text@.take(i + 1));
        i = i + 1;
    }
    assert(text@.take(text.len() as int) == text@);
}

/// The manifest identity of one workspace marker on one platform, see
/// [`identity_of`].
pub fn identity_for_workspace(workspace: &str, os: &str, arch: &str) -> (r: String)
    ensures
        r@ == identity_of(workspace@, os@, arch@),
        r@.len() == 64,
        forall|i: int| 0 <= i < 64 ==> is_lower_hex(#[trigger] r@[i]),
{
    let mut document: Vec<char> = Vec::new();
    push_literal(&mut document, "{\"arch\":");
    push_json_string(&mut document, arch);
    push_literal(&mut document, ",\"os\":");
    push_json_string(&mut document, os);
    push_literal(&mut document, ",\"version\":3,\"workspace\":");
    push_json_string(&mut document, workspace);
    push_literal(&mut document, "}");
    assert(document@ =~= identity_document(workspace@, os@, arch@));
    let text = string_of(&document);
    let bytes = text.as_str().as_bytes();
    CacheDigest::blake3(bytes).hash
}

/// What identifies a workspace across checkouts: the lockfile's BLAKE3 hash
/// where there is a lockfile, else the workspace directory's name.
pub open spec fn workspace_marker_of(workspace_root: Seq<char>, lockfile: Option<Seq<u8>>) -> Seq<char> {
    match lockfile {
        Some(bytes) => blake3_hex(bytes),
        None => match file_name(workspace_root) {
            Some(name) => name,
            None => Seq::empty(),
        },
    }
}

/// The marker of a workspace, given its lockfile's bytes where it has one.
pub fn workspace_marker(workspace_root: &str, lockfile: Option<&[u8]>) -> (r: String)
    ensures
        r@ == workspace_marker_of(workspace_root@, match lockfile { Some(b) => Some(b@), None => None::<Seq<u8>> }),
{
    match lockfile {
        Some(bytes) => CacheDigest::blake3(bytes).hash,
        None => {
            let root = chars_of(workspace_root);
            match file_name_of(&root) {
                Some(name) => string_of(&name),
                None => String::new(),
            }
        },
    }
}

/// Derive the prediction-manifest identity for a Cargo command in a
/// workspace, given the workspace's lockfile bytes where it has one and the
/// platform's operating-system and architecture names.
///
/// The command deliberately does not enter the identity: rustc invocation
/// digests already distinguish profiles, features, targets and toolchains,
/// and keeping the surrounding command out lets `build`, `test` and Clippy
/// share predictions.
pub fn build_identity(workspace_root: &str, command: &[String], lockfile: Option<&[u8]>, os: &str, arch: &str) -> (r: String)
    ensures
        r@ == identity_of(workspace_marker_of(workspace_root@, match lockfile { Some(b) => Some(b@), None => None::<Seq<u8>> }), os@, arch@),
        r@.len() == 64,
        forall|i: int| 0 <= i < 64 ==> is_lower_hex(#[trigger] r@[i]),
{
    let marker = workspace_marker(workspace_root, lockfile);
    identity_for_workspace(marker.as_str(), os, arch)
}

/// With a lockfile, the identity is the same wherever the workspace is
/// checked out, and whatever Cargo command runs in it.
pub proof fn lemma_identity_ignores_checkout(left: Seq<char>, right: Seq<char>, lock: Seq<u8>, os: Seq<char>, arch: Seq<char>)
    ensures
        identity_of(workspace_marker_of(left, Some(lock)), os, arch)
            == identity_of(workspace_marker_of(right, Some(lock)), os, arch),
{
}

} // verus!

verus! {

/// How many earlier lockfile states are offered as prediction sources.
pub const PREVIOUS_LOCKFILE_STATES: usize = 8;

/// The markers of earlier lockfile states, oldest candidate last: each
/// readable state's hash, once, and never the current one.
pub open spec fn earlier_markers(current: Seq<char>, candidates: Seq<Option<Seq<u8>>>) -> Seq<Seq<char>>
    decreases candidates.len(),
{
    if candidates.len() == 0 {
        Seq::empty()
    } else {
        let before = earlier_markers(current, candidates.drop_last());
        match candidates.last() {
            Some(bytes) => {
                let marker = blake3_hex(bytes);
                if marker == current || before.contains(marker) { before } else { before.push(marker) }
            },
            None => before,
        }
    }
}

proof fn lemma_markers_grow(current: Seq<char>, candidates: Seq<Option<Seq<u8>>>, i: int)
    requires
        0 <= i <= candidates.len(),
    ensures
        earlier_markers(current, candidates.take(i)).len() <= earlier_markers(current, candidates).len(),
        earlier_markers(current, candidates).take(earlier_markers(current, candidates.take(i)).len() as int)
            == earlier_markers(current, candidates.take(i)),
    decreases candidates.len() - i,
{
    if i == candidates.len() {
        assert(candidates.take(i) == candidates);
    } else {
        lemma_markers_grow(current, candidates, i + 1);
        assert(candidates.take(i + 1).drop_last() == candidates.take(i));
        let small = earlier_markers(current, candidates.take(i));
        let big = earlier_markers(current, candidates.take(i + 1));
        let all = earlier_markers(current, candidates);
        assert(big.take(small.len() as int) == small);
        assert(all.take(big.len() as int).take(small.len() as int) == all.take(small.len() as int));
    }
}

/// The identities recorded for earlier states of a workspace's lockfile,
/// newest first, given the current lockfile's bytes and each candidate
/// earlier state's bytes (none where that revision had no readable copy):
/// each distinct earlier state once, never the current one, at most
/// [`PREVIOUS_LOCKFILE_STATES`] of them.
pub fn previous_identities(lock: &[u8], candidates: &Vec<Option<Vec<u8>>>, os: &str, arch: &str) -> (r: Vec<String>)
    ensures
        ({
            let cands = candidates@.map_values(|c: Option<Vec<u8>>| match c { Some(v) => Some(v@), None => None::<Seq<u8>> });
            let markers = earlier_markers(blake3_hex(lock@), cands);
            let kept = if markers.len() <= PREVIOUS_LOCKFILE_STATES { markers } else { markers.take(PREVIOUS_LOCKFILE_STATES as int) };
            &&& r.len() == kept.len()
            &&& forall|i: int| 0 <= i < r.len() ==> (#[trigger] r@[i])@ == identity_of(kept[i], os@, arch@)
        }),
{
    let ghost cands = candidates@.map_values(|c: Option<Vec<u8>>| match c { Some(v) => Some(v@), None => None::<Seq<u8>> });
    let current = CacheDigest::blake3(lock).hash;
    let mut markers: Vec<String> = Vec::new();
    let mut identities: Vec<String> = Vec::new();
    let mut i: usize = 0;
    while i < candidates.len()
        invariant_except_break
            markers.len() < PREVIOUS_LOCKFILE_STATES,
        invariant
            i <= candidates.len(),
            cands == candidates@.map_values(|c: Option<Vec<u8>>| match c { Some(v) => Some(v@), None => None::<Seq<u8>> }),
            current@ == blake3_hex(lock@),
            crate::cargo::args::strs(markers@) == earlier_markers(current@, cands.take(i as int)),
            markers.len() <= PREVIOUS_LOCKFILE_STATES,
            identities.len() == markers.len(),
            forall|k: int| 0 <= k < identities.len() ==> (#[trigger] identities@[k])@ == identity_of(markers@[k]@, os@, arch@),
        ensures
            crate::cargo::args::strs(markers@) == earlier_markers(current@, cands.take(i as int)),
            markers.len() == PREVIOUS_LOCKFILE_STATES || i == candidates.len(),
            markers.len() <= PREVIOUS_LOCKFILE_STATES,
            identities.len() == markers.len(),
            forall|k: int| 0 <= k < identities.len() ==> (#[trigger] identities@[k])@ == identity_of(markers@[k]@, os@, arch@),
            i <= candidates.len(),
        decreases candidates.len() - i,
    {
        let ghost before = crate::cargo::args::strs(markers@);
        assert(cands.take(i + 1).drop_last() == cands.take(i as int));
        assert(cands.take(i + 1).last() == cands[i as int]);
        match &candidates[i] {
            Some(bytes) => {
                let marker = CacheDigest::blake3(bytes.as_slice()).hash;
                let mut seen = current == marker;
                let mut k: usize = 0;
                while k < markers.len()
                    invariant
                        k <= markers.len(),
                        before == crate::cargo::args::strs(markers@),
                        seen == (current@ == marker@ || exists|j: int| 0 <= j < k && before[j] == marker@),
                    decreases markers.len() - k,
                {
                    if markers[k] == marker {
                        seen = true;
                    }
                    assert(before[k as int] == markers@[k as int]@);
                    k = k + 1;
                }
                assert(seen == (current@ == marker@ || before.contains(marker@)));
                if !seen {
                    let identity = identity_for_workspace(marker.as_str(), os, arch);
                    markers.push(marker);
                    identities.push(identity);
                    assert(crate::cargo::args::strs(markers@) =~= before.push(marker@));
                    if markers.len() == PREVIOUS_LOCKFILE_STATES {
                        i = i + 1;
                        break;
                    }
                }
            },
            None => {},
        }
        i = i + 1;
    }
    proof {
        lemma_markers_grow(current@, cands, i as int);
        let all = earlier_markers(current@, cands);
        let got = crate::cargo::args::strs(markers@);
        if i == candidates.len() {
            assert(cands.take(i as int) == cands);
        } else {
            assert(all.take(PREVIOUS_LOCKFILE_STATES as int) == got);
            if all.len() == PREVIOUS_LOCKFILE_STATES {
                assert(all == all.take(PREVIOUS_LOCKFILE_STATES as int));
            }
        }
        let kept = if all.len() <= PREVIOUS_LOCKFILE_STATES { all } else { all.take(PREVIOUS_LOCKFILE_STATES as int) };
        assert(kept == got);
        assert forall|k: int| 0 <= k < identities.len() implies (#[trigger] identities@[k])@ == identity_of(kept[k], os@, arch@) by {
            assert(got[k] == markers@[k]@);
        }
    }
    identities
}

} // verus!
