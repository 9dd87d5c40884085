//! Content-addressed keys for parsed transcripts.

use vstd::prelude::*;
use sha2::Digest;
use crate::text::string_from_chars;

verus! {

/// The SHA-256 digest of a byte sequence.
pub uninterp spec fn sha256_of(b: Seq<u8>) -> Seq<u8>;

/// Relies on `sha2::Sha256::digest`: the 32-byte SHA-256 digest of `b`.
#[verifier::external_body]
fn sha256(b: &[u8]) -> (r: Vec<u8>)
    ensures
        r@ == sha256_of(b@),
        r@.len() == 32,
{
    sha2::Sha256::digest(b).to_vec()
}

/// The lowercase hexadecimal digit of `n < 16`.
pub open spec fn hex_digit(n: int) -> char {
    if n < 10 {
        (n + 48) as char
    } else {
        (n + 87) as char
    }
}

/// Two lowercase hexadecimal digits per byte, high nibble first.
pub open spec fn hex_of(b: Seq<u8>) -> Seq<char> {
    Seq::new(
        2 * b.len(),
        |j: int|
            if j % 2 == 0 {
                hex_digit(b[j / 2] as int / 16)
            } else {
                hex_digit(b[j / 2] as int % 16)
            },
    )
}

/// The cache key of a transcript: the hex-encoded SHA-256 digest of its bytes.
pub open spec fn transcript_key(b: Seq<u8>) -> Seq<char> {
    hex_of(sha256_of(b))
}

/// The key under which a parsed transcript is cached.
#[derive(Debug, Clone, PartialEq, Eq, Hash)]
pub struct TranscriptCacheKey {
    pub transcript_hash: String,
}

fn nibble_char(n: u8) -> (r: char)
    requires
        n < 16,
    ensures
        r == hex_digit(n as int),
{
    if n < 10 {
        (n + 48) as char
    } else {
        (n + 87) as char
    }
}

/// Lowercase hexadecimal encoding of `b`.
pub fn hex_lower(b: &[u8]) -> (r: String)
    ensures
        r@ == hex_of(b@),
{
    let mut out: Vec<char> = Vec::new();
    let mut i: usize = 0;
    while i < b.len()
        invariant
            0 <= i <= b@.len(),
            out@ =~= hex_of(b@.take(i as int)),
        decreases b@.len() - i,
    {
        let x = b[i];
        out.push(nibble_char(x / 16));
        out.push(nibble_char(x % 16));
        i = i + 1;
        assert(out@ =~= hex_of(b@.take(i as int)));
    }
    assert(b@.take(b@.len() as int) =~= b@);
    string_from_chars(out.as_slice())
}

/// The hex-encoded SHA-256 digest of the raw transcript bytes.
pub fn compute_transcript_hash(transcript: &[u8]) -> (r: String)
    ensures
        r@ == transcript_key(transcript@),
        r@.len() == 64,
{
    let d = sha256(transcript);
    hex_lower(d.as_slice())
}

/// The cache key of the raw transcript bytes.
pub fn cache_key_for(transcript: &[u8]) -> (r: TranscriptCacheKey)
    ensures
        r.transcript_hash@ == transcript_key(transcript@),
{
    TranscriptCacheKey { transcript_hash: compute_transcript_hash(transcript) }
}

/// Byte-identical transcripts get the same cache key.
pub proof fn lemma_same_bytes_same_key(a: Seq<u8>, b: Seq<u8>)
    requires
        a == b,
    ensures
        transcript_key(a) == transcript_key(b),
{
}

proof fn lemma_hex_digit_injective(x: int, y: int)
    requires
        0 <= x < 16,
        0 <= y < 16,
        hex_digit(x) == hex_digit(y),
    ensures
        x == y,
{
    let cx = hex_digit(x);
    let cy = hex_digit(y);
    assert(cx as u32 == cy as u32);
}

/// The hex encoding loses nothing: distinct digests give distinct keys.
pub proof fn lemma_hex_injective(a: Seq<u8>, b: Seq<u8>)
    requires
        a != b,
    ensures
        hex_of(a) != hex_of(b),
{
    if a.len() == b.len() {
        assert(!(a =~= b));
        let i = choose|i: int| 0 <= i < a.len() && a[i] != b[i];
        if hex_of(a) == hex_of(b) {
            let j = 2 * i;
            assert(j / 2 == i && j % 2 == 0);
            assert((j + 1) / 2 == i && (j + 1) % 2 == 1);
            assert(hex_of(a)[j] == hex_digit(a[i] as int / 16));
            assert(hex_of(b)[j] == hex_digit(b[i] as int / 16));
            assert(hex_of(a)[j + 1] == hex_digit(a[i] as int % 16));
            assert(hex_of(b)[j + 1] == hex_digit(b[i] as int % 16));
            lemma_hex_digit_injective(a[i] as int / 16, b[i] as int / 16);
            lemma_hex_digit_injective(a[i] as int % 16, b[i] as int % 16);
        }
    } else {
        assert(hex_of(a).len() != hex_of(b).len());
    }
}

} // verus!
