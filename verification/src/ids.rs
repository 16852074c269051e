//! Identifiers and encodings computed with outside crates: name-based
//! UUIDs for stored chunks (`uuid`) and base64 data URLs for images sent to
//! vision models (`base64`).
use vstd::prelude::*;
use crate::chunker::DocumentChunk;
use crate::pipeline::cut_bytes;
use crate::text::{append_all, chars_of, string_of};
use base64::Engine;

verus! {

/// The version-5 (SHA-1, name-based) UUID of `name` in namespace `ns`, both
/// UUIDs as 128-bit big-endian integers: what `uuid::Uuid::new_v5` computes.
pub uninterp spec fn uuid_v5(ns: u128, name: Seq<u8>) -> u128;

/// `uuid::Uuid::new_v5`, with the namespace and the result as 128-bit
/// integers (`Uuid::from_u128`, `Uuid::as_u128`). Its result is named
/// `uuid_v5`; as the crate's `Builder::from_sha1_bytes` shows, it carries
/// version 5 and the RFC 4122 variant.
#[verifier::external_body]
fn new_v5(ns: u128, name: &[u8]) -> (r: u128)
    ensures
        r == uuid_v5(ns, name@),
        (r >> 76u128) & 0xfu128 == 5,
        (r >> 62u128) & 0x3u128 == 2,
{
    uuid::Uuid::new_v5(&uuid::Uuid::from_u128(ns), name).as_u128()
}

/// The name under which a chunk's id is derived: its section path, `:`, and
/// the first 64 bytes of its content (cut at a character boundary).
pub open spec fn chunk_id_name(section_path: Seq<char>, content: Seq<char>) -> Seq<char> {
    section_path + ":"@ + cut_bytes(content, 64)
}

/// The stable id of a stored chunk of document `doc_id`: the version-5 UUID
/// of its id name in the document's namespace.
pub fn chunk_id(doc_id: u128, chunk: &DocumentChunk) -> (r: u128)
    ensures
        r == uuid_v5(doc_id, vstd::utf8::encode_utf8(chunk_id_name(chunk.section_path@, chunk.content@))),
{
    let mut name = chars_of(chunk.section_path.as_str());
    append_all(&mut name, &chars_of(":"));
    let content = chars_of(chunk.content.as_str());
    let cut = crate::pipeline::cut_bytes_chars(&content, 64);
    append_all(&mut name, &cut);
    let s = string_of(&name);
    new_v5(doc_id, s.as_str().as_bytes())
}

/// The symbol of a 6-bit value in the standard base64 alphabet
/// (`A`–`Z`, `a`–`z`, `0`–`9`, `+`, `/`).
pub open spec fn b64_symbol(v: int) -> char {
    if v < 26 {
        (65 + v) as char
    } else if v < 52 {
        (97 + v - 26) as char
    } else if v < 62 {
        (48 + v - 52) as char
    } else if v == 62 {
        '+'
    } else {
        '/'
    }
}

/// The standard base64 encoding of `b`, padded with `=`: each group of
/// three bytes, read as a 24-bit number, gives four symbols of six bits; a
/// last group of one or two bytes gives two or three symbols and padding.
pub open spec fn base64_standard(b: Seq<u8>) -> Seq<char>
    decreases b.len(),
{
    if b.len() == 0 {
        Seq::empty()
    } else if b.len() == 1 {
        let n = b[0] * 65536;
        seq![b64_symbol(n / 262144), b64_symbol((n / 4096) % 64), '=', '=']
    } else if b.len() == 2 {
        let n = b[0] * 65536 + b[1] * 256;
        seq![b64_symbol(n / 262144), b64_symbol((n / 4096) % 64), b64_symbol((n / 64) % 64), '=']
    } else {
        let n = b[0] * 65536 + b[1] * 256 + b[2];
        seq![b64_symbol(n / 262144), b64_symbol((n / 4096) % 64), b64_symbol((n / 64) % 64), b64_symbol(n % 64)]
            + base64_standard(b.skip(3))
    }
}

/// Length of the padded encoding of `n` bytes, as the crate's
/// `encoded_len` computes it.
pub open spec fn base64_len(n: nat) -> nat {
    if n % 3 == 0 {
        (n / 3) * 4
    } else {
        (n / 3) * 4 + 4
    }
}

/// `base64::Engine::encode` on the `STANDARD` engine: the standard alphabet
/// with padding, as `base64_standard` spells out. The crate panics when the
/// encoded length overflows `usize`.
#[verifier::external_body]
fn base64_encode(b: &[u8]) -> (r: String)
    requires
        base64_len(b@.len()) <= usize::MAX,
    ensures
        r@ == base64_standard(b@),
{
    base64::engine::general_purpose::STANDARD.encode(b)
}

/// The data URL of an image: `data:<mime>;base64,<encoding>`.
pub fn image_data_url(mime_type: &str, image_bytes: &[u8]) -> (r: String)
    requires
        base64_len(image_bytes@.len()) <= usize::MAX,
    ensures
        r@ == "data:"@ + mime_type@ + ";base64,"@ + base64_standard(image_bytes@),
{
    let enc = base64_encode(image_bytes);
    let mut r = String::from_str("data:");
    r.append(mime_type);
    r.append(";base64,");
    r.append(enc.as_str());
    r
}

} // verus!
