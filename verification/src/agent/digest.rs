//! Content digests: an algorithm name, a hexadecimal hash and a length.
use vstd::prelude::*;
use crate::text::chars_of;

verus! {

/// The lowercase hexadecimal BLAKE3 hash of a byte string.
pub uninterp spec fn blake3_hex(bytes: Seq<u8>) -> Seq<char>;

/// Whether `c` is a lowercase hexadecimal digit.
pub open spec fn is_lower_hex(c: char) -> bool {
    ('0' <= c && c <= '9') || ('a' <= c && c <= 'f')
}

/// Hashes `bytes` with `blake3::hash` and renders it with `Hash::to_hex`.
///
/// The crate's source writes each of the 32 hash bytes as two characters
/// from `0123456789abcdef`, so the text is 64 lowercase hexadecimal digits;
/// which digits they are is left to the name `blake3_hex`.
#[verifier::external_body]
fn blake3_hex_of(bytes: &[u8]) -> (r: String)
    ensures
        r@ == blake3_hex(bytes@),
        r@.len() == 64,
        forall|i: int| 0 <= i < 64 ==> is_lower_hex(#[trigger] r@[i]),
{
    blake3::hash(bytes).to_hex().to_string()
}

/// A content digest: the algorithm that produced it, the hash in lowercase
/// hexadecimal, and the length of the hashed content in bytes.
#[derive(Debug, PartialEq, Eq, PartialOrd, Ord, Hash)]
pub struct CacheDigest {
    /// Hash algorithm name, such as `blake3`.
    pub algorithm: String,
    /// Lowercase hexadecimal hash.
    pub hash: String,
    /// Length of the hashed content.
    pub size: u64,
}

/// A digest as plain values.
pub ghost struct DigestView {
    pub algorithm: Seq<char>,
    pub hash: Seq<char>,
    pub size: u64,
}

impl View for CacheDigest {
    type V = DigestView;

    open spec fn view(&self) -> DigestView {
        DigestView { algorithm: self.algorithm@, hash: self.hash@, size: self.size }
    }
}

impl Clone for CacheDigest {
    fn clone(&self) -> (r: Self)
        ensures
            r == *self,
    {
        CacheDigest { algorithm: self.algorithm.clone(), hash: self.hash.clone(), size: self.size }
    }
}

/// The digest BLAKE3 gives `bytes`.
pub open spec fn blake3_digest(bytes: Seq<u8>) -> DigestView {
    DigestView { algorithm: "blake3"@, hash: blake3_hex(bytes), size: bytes.len() as u64 }
}

/// Whether a digest names an algorithm this cache computes and carries a
/// hash of the shape that algorithm produces.
pub open spec fn is_valid_digest(d: DigestView) -> bool {
    &&& d.algorithm == "blake3"@
    &&& d.hash.len() == 64
    &&& forall|i: int| 0 <= i < 64 ==> is_lower_hex(#[trigger] d.hash[i])
}

impl CacheDigest {
    /// The BLAKE3 digest of `bytes`.
    pub fn blake3(bytes: &[u8]) -> (r: CacheDigest)
        requires
            bytes.len() <= u64::MAX,
        ensures
            r@ == blake3_digest(bytes@),
            is_valid_digest(r@),
    {
        let hash = blake3_hex_of(bytes);
        let algorithm = String::from_str("blake3");
        proof {
            reveal_strlit("blake3");
        }
        CacheDigest { algorithm, hash, size: bytes.len() as u64 }
    }

    /// Whether this digest is well formed, see [`is_valid_digest`].
    pub fn validate(&self) -> (r: bool)
        ensures
            r == is_valid_digest(self@),
    {
        let algorithm = chars_of(self.algorithm.as_str());
        if !crate::text::eq_lit(&algorithm, "blake3") {
            return false;
        }
        let hash = chars_of(self.hash.as_str());
        if hash.len() != 64 {
            return false;
        }
        let mut i: usize = 0;
        while i < 64
            invariant
                hash@ == self.hash@,
                hash@.len() == 64,
                i <= 64,
                forall|j: int| 0 <= j < i ==> is_lower_hex(#[trigger] hash@[j]),
            decreases 64 - i,
        {
            let c = hash[i];
            if !(('0' <= c && c <= '9') || ('a' <= c && c <= 'f')) {
                return false;
            }
            i = i + 1;
        }
        true
    }
}

/// Whether two digests are the same digest.
pub fn same_digest(a: &CacheDigest, b: &CacheDigest) -> (r: bool)
    ensures
        r == (a@ == b@),
{
    a.size == b.size && a.algorithm == b.algorithm && a.hash == b.hash
}

/// Whether `d` occurs in `ds`.
pub fn contains_digest(ds: &[CacheDigest], d: &CacheDigest) -> (r: bool)
    ensures
        r == digests(ds@).contains(d@),
{
    let mut i: usize = 0;
    while i < ds.len()
        invariant
            i <= ds.len(),
            forall|j: int| 0 <= j < i ==> ds@[j]@ != d@,
        decreases ds.len() - i,
    {
        if same_digest(&ds[i], d) {
            assert(digests(ds@)[i as int] == d@);
            return true;
        }
        i = i + 1;
    }
    assert(!digests(ds@).contains(d@)) by {
        if digests(ds@).contains(d@) {
            let k = choose|k: int| 0 <= k < digests(ds@).len() && digests(ds@)[k] == d@;
            assert(ds@[k]@ == d@);
        }
    }
    false
}

/// Lexicographic order of texts by character, as `String`'s `Ord` orders
/// their UTF-8 bytes.
pub open spec fn text_less(a: Seq<char>, b: Seq<char>) -> bool
    decreases a.len(),
{
    if a.len() == 0 {
        b.len() > 0
    } else if b.len() == 0 {
        false
    } else if a[0] != b[0] {
        a[0] < b[0]
    } else {
        text_less(a.drop_first(), b.drop_first())
    }
}

/// The order of digests: by algorithm, then hash, then size.
pub open spec fn digest_less(a: DigestView, b: DigestView) -> bool {
    text_less(a.algorithm, b.algorithm) || (a.algorithm == b.algorithm && (text_less(a.hash, b.hash)
        || (a.hash == b.hash && a.size < b.size)))
}

/// Text order is a strict total order.
pub proof fn lemma_text_order(a: Seq<char>, b: Seq<char>, c: Seq<char>)
    ensures
        !text_less(a, a),
        text_less(a, b) ==> !text_less(b, a),
        a != b ==> text_less(a, b) || text_less(b, a),
        text_less(a, b) && text_less(b, c) ==> text_less(a, c),
    decreases a.len(),
{
    if a.len() > 0 && b.len() > 0 && c.len() > 0 {
        lemma_text_order(a.drop_first(), b.drop_first(), c.drop_first());
    } else if a.len() > 0 && b.len() > 0 {
        lemma_text_order(a.drop_first(), b.drop_first(), b.drop_first());
    } else if a.len() > 0 {
        lemma_text_order(a.drop_first(), a.drop_first(), a.drop_first());
    }
    if a.len() > 0 && b.len() > 0 && a[0] == b[0] && a.drop_first() == b.drop_first() {
        assert forall|i: int| 0 <= i < a.len() implies a[i] == b[i] by {
            if i > 0 {
                assert(a[i] == a.drop_first()[i - 1]);
                assert(b[i] == b.drop_first()[i - 1]);
            }
        }
        assert(a =~= b);
    }
    if a.len() == 0 && b.len() == 0 {
        assert(a =~= b);
    }
}

/// Digest order is a strict total order.
pub proof fn lemma_digest_order(a: DigestView, b: DigestView, c: DigestView)
    ensures
        !digest_less(a, a),
        digest_less(a, b) ==> !digest_less(b, a),
        a != b ==> digest_less(a, b) || digest_less(b, a),
        digest_less(a, b) && digest_less(b, c) ==> digest_less(a, c),
{
    lemma_text_order(a.algorithm, b.algorithm, c.algorithm);
    lemma_text_order(a.hash, b.hash, c.hash);
    lemma_text_order(b.algorithm, a.algorithm, c.algorithm);
    lemma_text_order(b.hash, a.hash, c.hash);
    lemma_text_order(a.algorithm, c.algorithm, b.algorithm);
    lemma_text_order(a.hash, c.hash, b.hash);
}

/// Whether `a` orders before `b`.
pub fn text_before(a: &[char], b: &[char]) -> (r: bool)
    ensures
        r == text_less(a@, b@),
{
    let mut i: usize = 0;
    assert(a@.skip(0) == a@);
    assert(b@.skip(0) == b@);
    while i < a.len() && i < b.len()
        invariant
            i <= a.len(),
            i <= b.len(),
            text_less(a@, b@) == text_less(a@.skip(i as int), b@.skip(i as int)),
        decreases a.len() - i,
    {
        assert(a@.skip(i as int)[0] == a@[i as int]);
        assert(b@.skip(i as int)[0] == b@[i as int]);
        if a[i] != b[i] {
            return a[i] < b[i];
        }
        assert(a@.skip(i as int).drop_first() == a@.skip(i + 1));
        assert(b@.skip(i as int).drop_first() == b@.skip(i + 1));
        i = i + 1;
    }
    assert(a@.skip(i as int).len() == a.len() - i);
    assert(b@.skip(i as int).len() == b.len() - i);
    i == a.len() && i < b.len()
}

/// Whether digest `a` orders before digest `b`.
pub fn digest_before(a: &CacheDigest, b: &CacheDigest) -> (r: bool)
    ensures
        r == digest_less(a@, b@),
{
    let aa = chars_of(a.algorithm.as_str());
    let ba = chars_of(b.algorithm.as_str());
    if text_before(&aa, &ba) {
        return true;
    }
    if a.algorithm != b.algorithm {
        return false;
    }
    let ah = chars_of(a.hash.as_str());
    let bh = chars_of(b.hash.as_str());
    text_before(&ah, &bh) || (a.hash == b.hash && a.size < b.size)
}

/// Digests taken as plain values.
pub open spec fn digests(ds: Seq<CacheDigest>) -> Seq<DigestView> {
    ds.map_values(|d: CacheDigest| d@)
}

} // verus!
