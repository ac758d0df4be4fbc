//! Trusted boundary to the encoding crates this library leans on: base64
//! decoding, percent decoding, URL host and fragment extraction, SHA-256
//! digests, gzip decompression, UTF-8 decoding and the local clock.
//!
//! Each wrapper names the outside function it relies on; the names below
//! (`b64_standard_of` and the like) stand for those functions' results, which
//! depend on the arguments alone.
use vstd::prelude::*;

use base64::Engine;
use sha2::Digest;
use std::io::Read;

verus! {

/// What `base64::engine::general_purpose::STANDARD` decodes `s` to.
pub uninterp spec fn b64_standard_of(s: Seq<char>) -> Option<Seq<u8>>;

/// What `base64::engine::general_purpose::STANDARD_NO_PAD` decodes `s` to.
pub uninterp spec fn b64_standard_no_pad_of(s: Seq<char>) -> Option<Seq<u8>>;

/// What `base64::engine::general_purpose::URL_SAFE` decodes `s` to.
pub uninterp spec fn b64_url_safe_of(s: Seq<char>) -> Option<Seq<u8>>;

/// What `base64::engine::general_purpose::URL_SAFE_NO_PAD` decodes `s` to.
pub uninterp spec fn b64_url_safe_no_pad_of(s: Seq<char>) -> Option<Seq<u8>>;

/// Relies on `Engine::decode` with the `STANDARD` engine: base64 decoding is
/// a function of the input text alone.
#[verifier::external_body]
pub fn b64_decode_standard(s: &str) -> (r: Option<Vec<u8>>)
    ensures
        r.deep_view() == b64_standard_of(s@),
{
    base64::engine::general_purpose::STANDARD.decode(s).ok()
}

/// Relies on `Engine::decode` with the `STANDARD_NO_PAD` engine.
#[verifier::external_body]
pub fn b64_decode_standard_no_pad(s: &str) -> (r: Option<Vec<u8>>)
    ensures
        r.deep_view() == b64_standard_no_pad_of(s@),
{
    base64::engine::general_purpose::STANDARD_NO_PAD.decode(s).ok()
}

/// Relies on `Engine::decode` with the `URL_SAFE` engine.
#[verifier::external_body]
pub fn b64_decode_url_safe(s: &str) -> (r: Option<Vec<u8>>)
    ensures
        r.deep_view() == b64_url_safe_of(s@),
{
    base64::engine::general_purpose::URL_SAFE.decode(s).ok()
}

/// Relies on `Engine::decode` with the `URL_SAFE_NO_PAD` engine.
#[verifier::external_body]
pub fn b64_decode_url_safe_no_pad(s: &str) -> (r: Option<Vec<u8>>)
    ensures
        r.deep_view() == b64_url_safe_no_pad_of(s@),
{
    base64::engine::general_purpose::URL_SAFE_NO_PAD.decode(s).ok()
}

/// What `percent_encoding::percent_decode_str(s).decode_utf8_lossy()` yields:
/// a function of the input text alone.
pub uninterp spec fn percent_decoded_of(s: Seq<char>) -> Seq<char>;

/// Relies on `percent_encoding::percent_decode_str` and
/// `PercentDecode::decode_utf8_lossy`.
#[verifier::external_body]
pub fn percent_decode_lossy(s: &str) -> (r: String)
    ensures
        r@ == percent_decoded_of(s@),
{
    percent_encoding::percent_decode_str(s).decode_utf8_lossy().to_string()
}

/// The host of `s` as `url::Url::parse` resolves it, when `s` parses as an
/// absolute URL with a host.
pub uninterp spec fn url_host_of(s: Seq<char>) -> Option<Seq<char>>;

/// The fragment of `s` as `url::Url::parse` resolves it.
pub uninterp spec fn url_fragment_of(s: Seq<char>) -> Option<Seq<char>>;

/// Relies on `url::Url::parse` and `url::Url::host_str`: both depend on the
/// input text alone.
#[verifier::external_body]
pub fn url_host(s: &str) -> (r: Option<String>)
    ensures
        r.deep_view() == url_host_of(s@),
{
    match url::Url::parse(s) {
        Ok(u) => u.host_str().map(|h| h.to_string()),
        Err(_) => None,
    }
}

/// Relies on `url::Url::parse` and `url::Url::fragment`: both depend on the
/// input text alone.
#[verifier::external_body]
pub fn url_fragment(s: &str) -> (r: Option<String>)
    ensures
        r.deep_view() == url_fragment_of(s@),
{
    match url::Url::parse(s) {
        Ok(u) => u.fragment().map(|f| f.to_string()),
        Err(_) => None,
    }
}

/// The lower-case hexadecimal SHA-256 digest of `b`: a function of the bytes
/// alone.
pub uninterp spec fn sha256_hex_of(b: Seq<u8>) -> Seq<char>;

/// Relies on `sha2::Sha256`: the digest depends on the input bytes alone and
/// renders as 64 hexadecimal characters.
#[verifier::external_body]
pub fn sha256_hex(b: &[u8]) -> (r: String)
    ensures
        r@ == sha256_hex_of(b@),
        r@.len() == 64,
{
    let mut hasher = sha2::Sha256::new();
    hasher.update(b);
    format!("{:x}", hasher.finalize())
}

/// What gzip decompression of `b` yields, or `None` when `b` is not a valid
/// gzip stream: a function of the bytes alone.
pub uninterp spec fn gunzip_of(b: Seq<u8>) -> Option<Seq<u8>>;

/// Relies on `flate2::read::GzDecoder` reading the whole stream.
#[verifier::external_body]
pub fn gunzip(b: &[u8]) -> (r: Option<Vec<u8>>)
    ensures
        r.deep_view() == gunzip_of(b@),
{
    let mut decoder = flate2::read::GzDecoder::new(std::io::Cursor::new(b));
    let mut out: Vec<u8> = Vec::new();
    match decoder.read_to_end(&mut out) {
        Ok(_) => Some(out),
        Err(_) => None,
    }
}

/// Relies on `String::from_utf8`: succeeds exactly on valid UTF-8 and returns
/// the decoded characters of those bytes.
#[verifier::external_body]
pub fn string_from_utf8(b: Vec<u8>) -> (r: Option<String>)
    ensures
        r is Some <==> vstd::utf8::valid_utf8(b@),
        r matches Some(s) ==> s@ == vstd::utf8::decode_utf8(b@),
{
    String::from_utf8(b).ok()
}

/// Relies on `chrono::Local::now`: the wall-clock time, formatted as
/// `YYYY-MM-DD HH:MM:SS`. The result depends on the clock and the machine's
/// time zone, so nothing is promised of it.
#[verifier::external_body]
pub fn current_local_timestamp() -> (r: String)
    ensures
        true,
{
    chrono::Local::now().format("%Y-%m-%d %H:%M:%S").to_string()
}

} // verus!
