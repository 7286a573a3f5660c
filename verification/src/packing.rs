//! Bytes made smaller, and bytes written as text.

use vstd::prelude::*;

verus! {

/// What `flate2::write::GzEncoder` makes of bytes at its default level.
pub uninterp spec fn gzipped(bytes: Seq<u8>) -> Option<Seq<u8>>;

/// The first bytes, at most `limit`, of what `flate2::read::GzDecoder` makes of
/// packed bytes.
pub uninterp spec fn gunzipped(packed: Seq<u8>, limit: u64) -> Option<Seq<u8>>;

/// What the standard engine of `base64` writes for bytes.
pub uninterp spec fn base64_text(bytes: Seq<u8>) -> Seq<char>;

/// The bytes that the standard engine of `base64` reads in a text.
pub uninterp spec fn base64_bytes(text: Seq<char>) -> Option<Seq<u8>>;

/// The bytes of an optional list.
pub open spec fn bytes_of(value: Option<Vec<u8>>) -> Option<Seq<u8>> {
    match value {
        Some(bytes) => Some(bytes@),
        None => None,
    }
}

/// `flate2::write::GzEncoder` at its default level, over all of `bytes`. The
/// result depends on the bytes alone, and unpacking it gives them back, given
/// room for them.
#[verifier::external_body]
pub(crate) fn pack(bytes: &[u8]) -> (r: Option<Vec<u8>>)
    ensures
        bytes_of(r) == gzipped(bytes@),
        r is Some ==> forall|limit: u64|
            bytes@.len() <= limit ==> #[trigger] gunzipped(r->0@, limit) == Some(bytes@),
{
    let mut encoder = flate2::write::GzEncoder::new(Vec::new(), flate2::Compression::default());
    std::io::Write::write_all(&mut encoder, bytes).ok()?;
    encoder.finish().ok()
}

/// `flate2::read::GzDecoder` over `packed`, read to its end or up to `limit`
/// bytes; nothing where it fails. The result depends on the bytes and the limit
/// alone, and is not longer than the limit.
#[verifier::external_body]
pub(crate) fn unpack(packed: &[u8], limit: u64) -> (r: Option<Vec<u8>>)
    ensures
        bytes_of(r) == gunzipped(packed@, limit),
        r is Some ==> r->0@.len() <= limit,
{
    let mut bytes: Vec<u8> = Vec::new();
    let reader = std::io::Read::take(flate2::read::GzDecoder::new(packed), limit);
    std::io::Read::read_to_end(&mut { reader }, &mut bytes).ok()?;
    Some(bytes)
}

/// `base64::Engine::encode` of the standard engine. The text depends on the
/// bytes alone, and reading it gives them back.
#[verifier::external_body]
pub(crate) fn to_base64(bytes: &[u8]) -> (r: String)
    ensures
        r@ == base64_text(bytes@),
        base64_bytes(r@) == Some(bytes@),
{
    base64::Engine::encode(&base64::engine::general_purpose::STANDARD, bytes)
}

/// `base64::Engine::decode` of the standard engine; nothing where it fails. The
/// result depends on the text alone.
#[verifier::external_body]
pub(crate) fn from_base64(text: &str) -> (r: Option<Vec<u8>>)
    ensures
        bytes_of(r) == base64_bytes(text@),
{
    base64::Engine::decode(&base64::engine::general_purpose::STANDARD, text).ok()
}

} // verus!
