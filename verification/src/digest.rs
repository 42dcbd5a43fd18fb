//! SHA-256 digests as lower-case hexadecimal text, and the CPU load that
//! the services simulate by computing them.

use vstd::prelude::*;
use vstd::string::StringSliceAdditionalSpecFns;
use crate::random::random_u64_in;

verus! {

/// The SHA-256 digest of a byte string, as `ring` computes it.
pub uninterp spec fn sha256_digest(data: Seq<u8>) -> Seq<u8>;

/// `ring::digest::digest` with `ring::digest::SHA256`: the digest of `data`,
/// 32 bytes long (`SHA256_OUTPUT_LEN`). `ring` panics when the length in bits
/// does not fit in a `u64`, which `requires` leaves out.
#[verifier::external_body]
fn sha256(data: &[u8]) -> (d: Vec<u8>)
    requires
        data@.len() * 8 <= u64::MAX,
    ensures
        d@ == sha256_digest(data@),
        d@.len() == 32,
{
    ring::digest::digest(&ring::digest::SHA256, data).as_ref().to_vec()
}

/// The lower-case hexadecimal digit of a number below 16.
pub open spec fn hex_digit(n: nat) -> char
    recommends
        n < 16,
{
    if n < 10 {
        (48 + n) as char
    } else {
        (87 + n) as char
    }
}

/// Lower-case hexadecimal text of a byte string: two digits per byte, the
/// high half first.
pub open spec fn hex_lower(bytes: Seq<u8>) -> Seq<char>
    decreases bytes.len(),
{
    if bytes.len() == 0 {
        Seq::empty()
    } else {
        hex_lower(bytes.drop_last()) + seq![
            hex_digit((bytes.last() / 16) as nat),
            hex_digit((bytes.last() % 16) as nat),
        ]
    }
}

/// `hex::encode`: each byte as two lower-case hexadecimal digits (the table
/// `0123456789abcdef`), high half first, in order.
#[verifier::external_body]
fn hex_encode(data: &[u8]) -> (s: String)
    ensures
        s@ == hex_lower(data@),
{
    hex::encode(data)
}

/// What `create_hash` gives for a document: nothing for an empty one, else
/// the hexadecimal SHA-256 digest of its UTF-8 bytes.
pub open spec fn document_hash(doc: Seq<char>) -> Seq<char> {
    if doc.len() == 0 {
        Seq::empty()
    } else {
        hex_lower(sha256_digest(vstd::utf8::encode_utf8(doc)))
    }
}

/// A text encodes to no bytes only when it is empty.
pub proof fn lemma_encode_utf8_empty(text: Seq<char>)
    ensures
        (vstd::utf8::encode_utf8(text).len() == 0) == (text.len() == 0),
{
    if text.len() > 0 {
        assert(vstd::utf8::encode_scalar(text[0] as u32).len() > 0);
    }
}

/// The hexadecimal SHA-256 digest of a document; the empty string for an
/// empty document.
pub fn create_hash(xml_document: &str) -> (h: String)
    requires
        xml_document.spec_bytes().len() * 8 <= u64::MAX,
    ensures
        h@ == document_hash(xml_document@),
        xml_document@.len() > 0 ==> h@.len() == 64 && forall|i: int| 0 <= i < 64 ==> {
            let c = #[trigger] h@[i];
            ('0' <= c <= '9') || ('a' <= c <= 'f')
        },
{
    if xml_document.is_empty() {
        proof {
            lemma_encode_utf8_empty(xml_document@);
        }
        return String::new();
    }
    let bytes = xml_document.as_bytes();
    proof {
        lemma_encode_utf8_empty(xml_document@);
    }
    let digest = sha256(bytes);
    proof {
        lemma_hex_lower_shape(digest@);
    }
    hex_encode(&digest)
}

/// Hexadecimal text is twice as long as the bytes it encodes and holds only
/// the digits `0`-`9` and `a`-`f`.
pub proof fn lemma_hex_lower_shape(bytes: Seq<u8>)
    ensures
        hex_lower(bytes).len() == 2 * bytes.len(),
        forall|i: int| 0 <= i < hex_lower(bytes).len() ==> {
            let c = #[trigger] hex_lower(bytes)[i];
            ('0' <= c <= '9') || ('a' <= c <= 'f')
        },
    decreases bytes.len(),
{
    if bytes.len() > 0 {
        lemma_hex_lower_shape(bytes.drop_last());
        let prefix = hex_lower(bytes.drop_last());
        let tail = seq![
            hex_digit((bytes.last() / 16) as nat),
            hex_digit((bytes.last() % 16) as nat),
        ];
        assert forall|i: int| 0 <= i < hex_lower(bytes).len() implies {
            let c = #[trigger] hex_lower(bytes)[i];
            ('0' <= c <= '9') || ('a' <= c <= 'f')
        } by {
            if i < prefix.len() {
                assert(hex_lower(bytes)[i] == prefix[i]);
            } else {
                assert(hex_lower(bytes)[i] == tail[i - prefix.len()]);
            }
        }
    }
}

/// Makes the CPU busy the way the services do: computes the hash of the
/// document a random number of times, at least `min` and below `max`
/// (nothing is computed for an empty document).
pub fn simulate_cpu(xml_document: &String, max_cpu_usage_in_milliseconds: u64, min_cpu_usage_in_milliseconds: u64)
    requires
        min_cpu_usage_in_milliseconds < max_cpu_usage_in_milliseconds,
        vstd::utf8::encode_utf8(xml_document@).len() * 8 <= u64::MAX,
{
    let loopcounter = random_u64_in(min_cpu_usage_in_milliseconds, max_cpu_usage_in_milliseconds);
    if !xml_document.as_str().is_empty() {
        let mut i: u64 = 0;
        while i < loopcounter
            invariant
                vstd::utf8::encode_utf8(xml_document@).len() * 8 <= u64::MAX,
            decreases loopcounter - i,
        {
            let _xml_hash = create_hash(xml_document.as_str());
            i = i + 1;
        }
    }
}

} // verus!
