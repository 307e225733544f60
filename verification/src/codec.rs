//! Opaque identifiers and digests of the control plane: prefixed ULIDs,
//! base64url page cursors, and xxh3 request and command hashes.

use vstd::prelude::*;
use vstd::string::*;

use crate::problem::{problem_new_view, Problem, ProblemCode};
use crate::text::concat3;

verus! {

/// Home id prefix.
pub const HOME: &'static str = "home";

/// Fleet id prefix.
pub const FLEET: &'static str = "flt";

/// Scenario id prefix.
pub const SCENARIO: &'static str = "scn";

/// Dispatch command id prefix.
pub const COMMAND: &'static str = "cmd";

/// Snapshot id prefix.
pub const SNAPSHOT: &'static str = "snap";

/// Backtest run id prefix.
pub const BACKTEST: &'static str = "bt";

/// `ulid::Ulid::new()` rendered as text. Trusted: the canonical ULID text
/// is 26 characters (Crockford base32); its value depends on the clock and
/// a random source, so nothing more is stated.
#[verifier::external_body]
fn fresh_ulid() -> (r: String)
    ensures
        r@.len() == 26,
{
    ulid::Ulid::new().to_string()
}

/// A fresh prefixed id, e.g. `home_01J...`.
pub fn new_id(prefix: &str) -> (r: String)
    ensures
        exists|u: Seq<char>| u.len() == 26 && r@ == prefix@ + "_"@ + u,
{
    let u = fresh_ulid();
    concat3(prefix, "_", u.as_str())
}

/// The xxh3 64-bit hash (seed 0) of a byte sequence, as `xxhash_rust`
/// computes it.
pub uninterp spec fn xxh3_64_of(bytes: Seq<u8>) -> u64;

/// `xxhash_rust::xxh3::xxh3_64`. Trusted: the result is the named hash
/// of the input bytes.
#[verifier::external_body]
pub(crate) fn xxh3_64_hash(bytes: &[u8]) -> (r: u64)
    ensures
        r == xxh3_64_of(bytes@),
{
    xxhash_rust::xxh3::xxh3_64(bytes)
}

/// Hash of a request body (its canonical JSON bytes) for idempotency
/// comparison.
pub fn body_hash(body_json: &[u8]) -> (r: u64)
    ensures
        r == xxh3_64_of(body_json@),
{
    xxh3_64_hash(body_json)
}

/// The engine's issuer tag of a command id.
pub fn command_tag(command_id: &str) -> (r: u64)
    ensures
        r == xxh3_64_of(vstd::utf8::encode_utf8(command_id@)),
{
    xxh3_64_hash(command_id.as_bytes())
}

/// The base64url symbol of a six-bit value: `A`-`Z`, `a`-`z`, `0`-`9`,
/// `-`, `_` (RFC 4648 section 5).
pub open spec fn b64url_symbol(v: int) -> char {
    if v < 26 {
        (65 + v) as char
    } else if v < 52 {
        (97 + v - 26) as char
    } else if v < 62 {
        (48 + v - 52) as char
    } else if v == 62 {
        '-'
    } else {
        '_'
    }
}

/// Unpadded base64url text of a byte sequence (RFC 4648 section 5): each
/// group of three bytes gives four symbols, a last group of two bytes three
/// symbols and a last single byte two, the unused low bits zero.
pub open spec fn base64url_text(bytes: Seq<u8>) -> Seq<char>
    decreases bytes.len(),
{
    let n = bytes.len();
    let a = if n > 0 { bytes[0] as int } else { 0 };
    let b = if n > 1 { bytes[1] as int } else { 0 };
    let c = if n > 2 { bytes[2] as int } else { 0 };
    if n == 0 {
        Seq::empty()
    } else if n == 1 {
        seq![b64url_symbol(a / 4), b64url_symbol((a % 4) * 16)]
    } else if n == 2 {
        seq![b64url_symbol(a / 4), b64url_symbol((a % 4) * 16 + b / 16), b64url_symbol((b % 16) * 4)]
    } else {
        seq![
            b64url_symbol(a / 4),
            b64url_symbol((a % 4) * 16 + b / 16),
            b64url_symbol((b % 16) * 4 + c / 64),
            b64url_symbol(c % 64),
        ] + base64url_text(bytes.subrange(3, n as int))
    }
}

/// The bytes an unpadded base64url text decodes to with trailing bits
/// allowed, or `None` when it is not base64url.
pub uninterp spec fn base64url_bytes(text: Seq<char>) -> Option<Seq<u8>>;

/// `base64::engine::general_purpose::URL_SAFE_NO_PAD.encode`. Trusted:
/// the result is the unpadded base64url text of the bytes, and decoding it
/// gives the bytes back.
#[verifier::external_body]
fn base64url_encode(bytes: &[u8]) -> (r: String)
    ensures
        r@ == base64url_text(bytes@),
        base64url_bytes(r@) == Some(bytes@),
{
    base64::Engine::encode(&base64::engine::general_purpose::URL_SAFE_NO_PAD, bytes)
}

/// A character of the URL-safe base64 alphabet.
pub open spec fn url_safe_char(c: char) -> bool {
    ('A' <= c <= 'Z') || ('a' <= c <= 'z') || ('0' <= c <= '9') || c == '-' || c == '_'
}

/// Text made only of URL-safe base64 characters.
pub open spec fn url_safe_text(s: Seq<char>) -> bool {
    forall|i: int| 0 <= i < s.len() ==> url_safe_char(#[trigger] s[i])
}

/// `base64::Engine::decode` with the URL-safe alphabet, no padding and
/// trailing bits allowed. Trusted: the result is the named decoding, and a
/// text with a character outside the alphabet (`=` and every non-ASCII
/// character among them), or one whose length leaves a remainder of 1 when
/// divided by 4, is refused (every input byte passes the alphabet's decode
/// table, and a last group of one symbol is an invalid length).
#[verifier::external_body]
fn base64url_decode(text: &str) -> (r: Option<Vec<u8>>)
    ensures
        match r {
            Some(b) => base64url_bytes(text@) == Some(b@),
            None => base64url_bytes(text@) is None,
        },
        !url_safe_text(text@) || text@.len() % 4 == 1 ==> r is None,
{
    let engine = base64::engine::GeneralPurpose::new(
        &base64::alphabet::URL_SAFE,
        base64::engine::general_purpose::NO_PAD.with_decode_allow_trailing_bits(true),
    );
    base64::Engine::decode(&engine, text.as_bytes()).ok()
}

/// Encode a page cursor (opaque, base64url of the id's bytes).
pub fn encode_cursor(id: &str) -> (r: String)
    ensures
        r@ == base64url_text(vstd::utf8::encode_utf8(id@)),
        base64url_bytes(r@) == Some(vstd::utf8::encode_utf8(id@)),
{
    base64url_encode(id.as_bytes())
}

/// Decode a cursor to its raw bytes; anything that is not base64url is a
/// validation problem, in particular a text with a character outside the
/// URL-safe alphabet or a length leaving a remainder of 1 when divided by 4.
pub fn decode_cursor(cursor: &str) -> (r: Result<Vec<u8>, Problem>)
    ensures
        match base64url_bytes(cursor@) {
            Some(b) => r matches Ok(v) && v@ == b,
            None => r matches Err(p) && p@ == problem_new_view(ProblemCode::ValidationError, 400, "Validation error"@)
                .with_detail("malformed cursor"@),
        },
        !url_safe_text(cursor@) || cursor@.len() % 4 == 1 ==> r is Err,
{
    match base64url_decode(cursor) {
        Some(b) => Ok(b),
        None => Err(Problem::validation(String::from_str("malformed cursor"))),
    }
}

/// A cursor made from an id decodes back to the id's bytes.
pub proof fn law_cursor_round_trip(id: Seq<char>, text: Seq<char>)
    requires
        text == base64url_text(vstd::utf8::encode_utf8(id)),
        base64url_bytes(text) == Some(vstd::utf8::encode_utf8(id)),
    ensures
        base64url_bytes(text) matches Some(b) && vstd::utf8::decode_utf8(b) == id,
{
    vstd::utf8::encode_utf8_decode_utf8(id);
}

} // verus!
