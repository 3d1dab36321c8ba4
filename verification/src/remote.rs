//! What a session may do with a remote cache, and the entity tags that make
//! manifest replacement conditional.
use vstd::prelude::*;
use vstd::string::StringSliceAdditionalSpecFns;
use crate::text::{chars_of, eq_lit, push_char};

verus! {

/// Operations permitted against a configured remote cache.
#[derive(Debug, Clone, Copy, PartialEq, Eq, Structural)]
pub enum RemoteCacheMode {
    /// Permit reads from and writes to the remote cache.
    ReadWrite,
    /// Permit reads but never publish new objects.
    ReadOnly,
    /// Publish objects but never satisfy lookups from the remote cache.
    WriteOnly,
}

impl Default for RemoteCacheMode {
    fn default() -> (r: Self)
        ensures
            r == RemoteCacheMode::ReadWrite,
    {
        RemoteCacheMode::ReadWrite
    }
}

impl RemoteCacheMode {
    /// Whether this mode permits remote cache reads.
    pub fn reads(self) -> (r: bool)
        ensures
            r == (self == RemoteCacheMode::ReadWrite || self == RemoteCacheMode::ReadOnly),
    {
        match self {
            RemoteCacheMode::ReadWrite | RemoteCacheMode::ReadOnly => true,
            RemoteCacheMode::WriteOnly => false,
        }
    }

    /// Whether this mode permits remote cache writes.
    pub fn writes(self) -> (r: bool)
        ensures
            r == (self == RemoteCacheMode::ReadWrite || self == RemoteCacheMode::WriteOnly),
    {
        match self {
            RemoteCacheMode::ReadWrite | RemoteCacheMode::WriteOnly => true,
            RemoteCacheMode::ReadOnly => false,
        }
    }

    /// The mode's kebab-case name.
    pub fn name(self) -> (r: String)
        ensures
            r@ == match self {
                RemoteCacheMode::ReadWrite => "read-write"@,
                RemoteCacheMode::ReadOnly => "read-only"@,
                RemoteCacheMode::WriteOnly => "write-only"@,
            },
    {
        let text = match self {
            RemoteCacheMode::ReadWrite => crate::text::lit("read-write"),
            RemoteCacheMode::ReadOnly => crate::text::lit("read-only"),
            RemoteCacheMode::WriteOnly => crate::text::lit("write-only"),
        };
        crate::text::string_of(&text)
    }

    /// The mode a kebab-case name selects.
    pub fn from_name(name: &str) -> (r: Option<Self>)
        ensures
            r == (if name@ == "read-write"@ {
                Some(RemoteCacheMode::ReadWrite)
            } else if name@ == "read-only"@ {
                Some(RemoteCacheMode::ReadOnly)
            } else if name@ == "write-only"@ {
                Some(RemoteCacheMode::WriteOnly)
            } else {
                None::<RemoteCacheMode>
            }),
    {
        let text = chars_of(name);
        if eq_lit(&text, "read-write") {
            Some(RemoteCacheMode::ReadWrite)
        } else if eq_lit(&text, "read-only") {
            Some(RemoteCacheMode::ReadOnly)
        } else if eq_lit(&text, "write-only") {
            Some(RemoteCacheMode::WriteOnly)
        } else {
            None
        }
    }
}

/// Task action-manifest bytes returned with their concurrency token.
#[derive(Debug, Clone)]
pub struct RemoteActionManifest {
    /// Raw canonical manifest JSON.
    pub bytes: Vec<u8>,
    /// Entity tag used for conditional manifest replacement.
    pub etag: String,
}

/// What a server did with the blobs in an uploaded pack.
#[derive(Debug, Clone, Copy, PartialEq, Eq, Structural)]
pub struct BlobPackReceipt {
    /// Blobs this request added to the remote cache.
    pub created: u64,
    /// Blobs the remote cache already held.
    pub existing: u64,
}

/// Result of a conditional task-manifest write.
#[derive(Debug, Clone, Copy, PartialEq, Eq, Structural)]
pub enum ManifestPutOutcome {
    /// The manifest was stored.
    Stored,
    /// The supplied entity-tag precondition did not match.
    PreconditionFailed,
}

/// Ceiling on the opaque part of an entity tag this client carries back.
pub const MAX_ETAG_BYTES: usize = 256;

/// A byte allowed inside a strong entity tag (RFC 9110 `etagc`, visible
/// ASCII without the double quote).
pub open spec fn is_etag_byte(b: u8) -> bool {
    b == 0x21 || (0x23 <= b && b <= 0x7e)
}

/// Whether bytes are the opaque body of a strong entity tag of bounded length.
pub open spec fn is_entity_tag_bytes(bytes: Seq<u8>) -> bool {
    &&& 0 < bytes.len() <= MAX_ETAG_BYTES
    &&& forall|i: int| 0 <= i < bytes.len() ==> is_etag_byte(#[trigger] bytes[i])
}

fn entity_tag_bytes(bytes: &[u8]) -> (r: bool)
    ensures
        r == is_entity_tag_bytes(bytes@),
{
    if bytes.len() == 0 || bytes.len() > MAX_ETAG_BYTES {
        return false;
    }
    let mut i: usize = 0;
    while i < bytes.len()
        invariant
            i <= bytes.len(),
            forall|j: int| 0 <= j < i ==> is_etag_byte(#[trigger] bytes@[j]),
        decreases bytes.len() - i,
    {
        let b = bytes[i];
        if !(b == 0x21 || (0x23 <= b && b <= 0x7e)) {
            return false;
        }
        i = i + 1;
    }
    true
}

/// Whether this is the opaque body of a strong entity tag.
pub fn is_entity_tag(value: &str) -> (r: bool)
    ensures
        r == is_entity_tag_bytes(value.spec_bytes()),
{
    entity_tag_bytes(value.as_bytes())
}

/// Why an entity tag was refused.
#[derive(Debug, Clone, Copy, PartialEq, Eq, Structural)]
pub enum EtagError {
    /// The response carried no tag, or one that is not visible ASCII.
    Missing,
    /// The tag is weak, and a conditional update needs a strong one.
    Weak,
    /// The tag is not a quoted entity tag.
    Invalid,
}

/// A byte a header value may hold and still read as text: visible ASCII or
/// a tab.
pub open spec fn is_header_text_byte(b: u8) -> bool {
    b == 9 || (32 <= b && b < 127)
}

/// The tag a strong `ETag` header value carries.
pub open spec fn strong_etag(value: Option<Seq<u8>>) -> Result<Seq<u8>, EtagError> {
    match value {
        None => Err(EtagError::Missing),
        Some(v) => if !(forall|i: int| 0 <= i < v.len() ==> is_header_text_byte(#[trigger] v[i])) {
            Err(EtagError::Missing)
        } else if v.len() >= 2 && v[0] == 0x57 && v[1] == 0x2f {
            Err(EtagError::Weak)
        } else if v.len() >= 2 && v[0] == 0x22 && v[v.len() - 1] == 0x22
            && is_entity_tag_bytes(v.subrange(1, v.len() - 1)) {
            Ok(v.subrange(1, v.len() - 1))
        } else {
            Err(EtagError::Invalid)
        },
    }
}

/// What the client sends back in `If-Match` reads back as the same tag: a
/// strong entity tag in double quotes parses to itself.
pub proof fn lemma_quoted_tag_reads_back(tag: Seq<u8>)
    requires
        is_entity_tag_bytes(tag),
    ensures
        strong_etag(Some(seq![0x22u8] + tag + seq![0x22u8])) == Ok::<Seq<u8>, EtagError>(tag),
{
    let v = seq![0x22u8] + tag + seq![0x22u8];
    assert forall|i: int| 0 <= i < v.len() implies is_header_text_byte(#[trigger] v[i]) by {
        if 0 < i < v.len() - 1 {
            assert(v[i] == tag[i - 1]);
            assert(is_etag_byte(tag[i - 1]));
        }
    }
    assert(v.subrange(1, v.len() - 1) =~= tag);
}

/// Text whose characters are these ASCII bytes.
pub open spec fn ascii_text(bytes: Seq<u8>) -> Seq<char> {
    bytes.map_values(|b: u8| b as char)
}

fn text_of_ascii(bytes: &[u8], start: usize, end: usize) -> (r: String)
    requires
        start <= end <= bytes.len(),
    ensures
        r@ == ascii_text(bytes@.subrange(start as int, end as int)),
{
    let mut s = String::new();
    let mut i: usize = start;
    while i < end
        invariant
            start <= i <= end <= bytes.len(),
            s@ == ascii_text(bytes@.subrange(start as int, i as int)),
        decreases end - i,
    {
        push_char(&mut s, bytes[i] as char);
        assert(ascii_text(bytes@.subrange(start as int, i + 1)) == ascii_text(bytes@.subrange(start as int, i as int)).push(bytes@[i as int] as char));
        i = i + 1;
    }
    s
}

/// Read the entity tag a later conditional update has to send back, from
/// the bytes of an `ETag` header value.
///
/// The tag is carried through opaquely: a proxy that re-encodes a response
/// may append to it, and nothing may infer content from it. A weak tag is
/// refused, since `If-Match` cannot carry one.
pub fn parse_strong_etag(value: Option<&[u8]>) -> (r: Result<String, EtagError>)
    ensures
        match (strong_etag(match value { Some(v) => Some(v@), None => None::<Seq<u8>> }), r) {
            (Ok(tag), Ok(text)) => text@ == ascii_text(tag),
            (Err(e), Err(f)) => e == f,
            _ => false,
        },
{
    let v = match value {
        None => return Err(EtagError::Missing),
        Some(v) => v,
    };
    let mut i: usize = 0;
    while i < v.len()
        invariant
            i <= v.len(),
            value == Some(v),
            forall|j: int| 0 <= j < i ==> is_header_text_byte(#[trigger] v@[j]),
        decreases v.len() - i,
    {
        let b = v[i];
        if !(b == 9 || (32 <= b && b < 127)) {
            assert(!is_header_text_byte(v@[i as int]));
            return Err(EtagError::Missing);
        }
        i = i + 1;
    }
    if v.len() >= 2 && v[0] == 0x57 && v[1] == 0x2f {
        return Err(EtagError::Weak);
    }
    if v.len() >= 2 && v[0] == 0x22 && v[v.len() - 1] == 0x22 {
        let inner = &v[1..v.len() - 1];
        assert(inner@ == v@.subrange(1, v.len() - 1));
        if entity_tag_bytes(inner) {
            return Ok(text_of_ascii(v, 1, v.len() - 1));
        }
    }
    Err(EtagError::Invalid)
}

/// The `If-Match` header text for an entity tag: the tag in double quotes.
pub fn quoted_etag(etag: &str) -> (r: Result<String, EtagError>)
    ensures
        match r {
            Ok(text) => is_entity_tag_bytes(etag.spec_bytes()) && text@ == seq!['"'] + etag@ + seq!['"'],
            Err(e) => !is_entity_tag_bytes(etag.spec_bytes()) && e == EtagError::Invalid,
        },
{
    if !is_entity_tag(etag) {
        return Err(EtagError::Invalid);
    }
    let mut text = String::new();
    push_char(&mut text, '"');
    let body = chars_of(etag);
    let mut i: usize = 0;
    while i < body.len()
        invariant
            i <= body.len(),
            body@ == etag@,
            text@ == seq!['"'] + body@.take(i as int),
        decreases body.len() - i,
    {
        push_char(&mut text, body[i]);
        assert(body@.take(i + 1) == body@.take(i as int).push(body@[i as int]));
        i = i + 1;
    }
    assert(body@.take(body.len() as int) == body@);
    push_char(&mut text, '"');
    Ok(text)
}

} // verus!
