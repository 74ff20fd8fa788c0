//! SHA-256 content identifiers and hash-chain links.
use vstd::prelude::*;
use vstd::string::StringExecFns;
use vstd::utf8::encode_utf8;
use crate::text::hex_digit;
use sha2::Digest;

verus! {

/// The SHA-256 digest of a byte sequence.
pub uninterp spec fn sha256_of(data: Seq<u8>) -> Seq<u8>;

/// Two lowercase hexadecimal digits per byte, high half first.
pub open spec fn hex_text(bytes: Seq<u8>) -> Seq<char>
    decreases bytes.len(),
{
    if bytes.len() == 0 {
        Seq::empty()
    } else {
        seq![hex_digit(bytes[0] as int / 16), hex_digit(bytes[0] as int % 16)] + hex_text(
            bytes.subrange(1, bytes.len() as int),
        )
    }
}

/// The lowercase hex SHA-256 digest of bytes.
pub open spec fn sha256_hex_text(data: Seq<u8>) -> Seq<char> {
    hex_text(sha256_of(data))
}

/// The lowercase hex SHA-256 digest of a text's UTF-8 encoding.
pub open spec fn sha256_text(s: Seq<char>) -> Seq<char> {
    sha256_hex_text(encode_utf8(s))
}

/// The content identifier of a text.
pub open spec fn cid_text(data: Seq<char>) -> Seq<char> {
    seq!['c', ':'] + sha256_text(data)
}

/// The body hash of a text.
pub open spec fn body_hash_text(body: Seq<char>) -> Seq<char> {
    seq!['b', ':'] + sha256_text(body)
}

/// The head hash that links `cid` to the previous head `prev`.
pub open spec fn head_hash_text(prev: Seq<char>, cid: Seq<char>) -> Seq<char> {
    seq!['h', ':'] + sha256_text(prev + seq![':'] + cid)
}

/// Relies on sha2's `Digest::digest` for `Sha256`: the digest of the bytes,
/// 32 bytes long.
#[verifier::external_body]
fn sha256_digest(data: &[u8]) -> (r: Vec<u8>)
    ensures
        r@ == sha256_of(data@),
        r@.len() == 32,
{
    sha2::Sha256::digest(data).to_vec()
}

/// Relies on hex's `encode`: two lowercase hex digits per byte, high half first.
#[verifier::external_body]
fn hex_encode(data: &[u8]) -> (r: String)
    ensures
        r@ == hex_text(data@),
{
    hex::encode(data)
}

proof fn lemma_hex_text_len(bytes: Seq<u8>)
    ensures
        hex_text(bytes).len() == 2 * bytes.len(),
    decreases bytes.len(),
{
    if bytes.len() > 0 {
        lemma_hex_text_len(bytes.subrange(1, bytes.len() as int));
    }
}

/// Genesis hash: the head that anchors a new chain.
pub const GENESIS_HASH: &'static str = "h:genesis";

/// Lowercase hex SHA-256 digest of `data`.
pub fn sha256_hex(data: &[u8]) -> (r: String)
    ensures
        r@ == sha256_hex_text(data@),
        r@.len() == 64,
{
    let digest = sha256_digest(data);
    proof {
        lemma_hex_text_len(digest@);
    }
    hex_encode(digest.as_slice())
}

/// Lowercase hex SHA-256 digest of the UTF-8 encoding of `s`.
pub fn sha256_str(s: &str) -> (r: String)
    ensures
        r@ == sha256_text(s@),
        r@.len() == 64,
{
    sha256_hex(s.as_bytes())
}

/// `prefix` followed by the SHA-256 text of `s`.
fn prefixed_digest(prefix: &str, s: &str) -> (r: String)
    ensures
        r@ == prefix@ + sha256_text(s@),
{
    let mut out = String::from_str(prefix);
    let digest = sha256_str(s);
    out.append(digest.as_str());
    out
}

/// The content identifier of `data`: `c:` and its SHA-256 hex digest.
pub fn compute_cid(data: &str) -> (r: String)
    ensures
        r@ == cid_text(data@),
        r@.subrange(0, 2) == seq!['c', ':'],
{
    let r = prefixed_digest("c:", data);
    proof {
        reveal_strlit("c:");
        assert(r@.subrange(0, 2) =~= seq!['c', ':']);
    }
    r
}

/// The head hash linking `cid` to `prev_hash`: `h:` and the SHA-256 hex
/// digest of `prev_hash:cid`.
pub fn compute_head_hash(prev_hash: &str, cid: &str) -> (r: String)
    ensures
        r@ == head_hash_text(prev_hash@, cid@),
        r@.subrange(0, 2) == seq!['h', ':'],
{
    let mut input = String::from_str(prev_hash);
    input.append(":");
    input.append(cid);
    let r = prefixed_digest("h:", input.as_str());
    proof {
        reveal_strlit("h:");
        reveal_strlit(":");
        assert(input@ =~= prev_hash@ + seq![':'] + cid@);
        assert(r@.subrange(0, 2) =~= seq!['h', ':']);
    }
    r
}

/// The body hash of `body`: `b:` and its SHA-256 hex digest.
pub fn compute_body_hash(body: &str) -> (r: String)
    ensures
        r@ == body_hash_text(body@),
        r@.subrange(0, 2) == seq!['b', ':'],
{
    let r = prefixed_digest("b:", body);
    proof {
        reveal_strlit("b:");
        assert(r@.subrange(0, 2) =~= seq!['b', ':']);
    }
    r
}

/// Whether `expected` is the head hash linking `cid` to `prev`.
pub open spec fn chain_link_holds(prev: Seq<char>, cid: Seq<char>, expected: Seq<char>) -> bool {
    expected == head_hash_text(prev, cid)
}

/// Whether `expected_hash` is the head hash linking `cid` to `prev_hash`.
pub fn verify_chain_link(prev_hash: &str, cid: &str, expected_hash: &str) -> (r: bool)
    ensures
        r == chain_link_holds(prev_hash@, cid@, expected_hash@),
{
    let computed = compute_head_hash(prev_hash, cid);
    let expected = String::from_str(expected_hash);
    computed == expected
}

/// Chain continuity: the head hash computed from a previous head and a
/// content identifier verifies as the link between them.
pub proof fn lemma_chain_continuity(prev: Seq<char>, cid: Seq<char>)
    ensures
        chain_link_holds(prev, cid, head_hash_text(prev, cid)),
{
}

/// Every content identifier starts with `c:`, every head hash with `h:`,
/// and every body hash with `b:`.
pub proof fn lemma_hash_prefixes(data: Seq<char>, prev: Seq<char>, cid: Seq<char>)
    ensures
        cid_text(data).subrange(0, 2) == seq!['c', ':'],
        head_hash_text(prev, cid).subrange(0, 2) == seq!['h', ':'],
        body_hash_text(data).subrange(0, 2) == seq!['b', ':'],
{
    assert(cid_text(data).subrange(0, 2) =~= seq!['c', ':']);
    assert(head_hash_text(prev, cid).subrange(0, 2) =~= seq!['h', ':']);
    assert(body_hash_text(data).subrange(0, 2) =~= seq!['b', ':']);
}

} // verus!
