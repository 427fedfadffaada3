use vstd::prelude::*;

use crate::counter::lex_lt;
use crate::json::{
    flat_record, json_compact_text, json_parse_result, json_to_text, lemma_object_view,
    members_view, member_value, parse_json, plain_scalar, str_member, u64_member, Json, JsonNumber, JsonValue,
    Num,
};
use crate::text::push_str;

verus! {

// ---------------------------------------------------------------------------
// The runtime file: the port the server listens on and its bearer token
// ---------------------------------------------------------------------------

/// The port used where the runtime file names none.
pub const DEFAULT_PORT: u16 = 9786;

/// Why the runtime file could not be read.
#[derive(Debug, Clone, Copy, PartialEq, Eq, Structural)]
pub enum RuntimeError {
    /// The text is not one JSON document.
    InvalidJson,
    /// The document has no `token` string.
    MissingToken,
}

/// The port a runtime document names: its `port` member where that is a
/// non-negative integer, cut to 16 bits as a cast does; the default port
/// otherwise.
pub open spec fn runtime_port(v: Json) -> u16 {
    match u64_member(v, "port"@) {
        Some(p) => (p % 65536) as u16,
        None => DEFAULT_PORT,
    }
}

/// What reading a runtime document out of `text` gives.
pub open spec fn runtime_of(text: Seq<char>) -> Result<(u16, Seq<char>), RuntimeError> {
    match json_parse_result(text) {
        None => Err(RuntimeError::InvalidJson),
        Some(v) => match str_member(v, "token"@) {
            None => Err(RuntimeError::MissingToken),
            Some(t) => Ok((runtime_port(v), t)),
        },
    }
}

/// The runtime document written for a port and a token.
pub open spec fn runtime_doc(port: u16, token: Seq<char>) -> Json {
    Json::Object(seq![("port"@, Json::Number(Num::PosInt(port as u64))), ("token"@, Json::Str(token))])
}

/// Reads the port and the token out of the runtime file's text.
pub fn read_runtime_token(text: &str) -> (r: Result<(u16, String), RuntimeError>)
    ensures
        match r {
            Ok((port, token)) => runtime_of(text@) == Ok::<(u16, Seq<char>), RuntimeError>((port, token@)),
            Err(e) => runtime_of(text@) == Err::<(u16, Seq<char>), RuntimeError>(e),
        },
{
    let v = match parse_json(text) {
        Some(v) => v,
        None => {
            return Err(RuntimeError::InvalidJson);
        },
    };
    let port = match v.u64_member("port") {
        Some(p) => (p % 65536) as u16,
        None => DEFAULT_PORT,
    };
    match v.string_member("token") {
        Some(t) => Ok((port, t)),
        None => Err(RuntimeError::MissingToken),
    }
}

/// The text of the runtime file for a port and a token (written when the
/// port changes; the token is kept).
pub fn update_runtime_port(port: u16, token: &str) -> (r: String)
    ensures
        r@ == json_compact_text(runtime_doc(port, token@)),
        runtime_of(r@) == Ok::<(u16, Seq<char>), RuntimeError>((port, token@)),
{
    let mut ms: Vec<(String, JsonValue)> = Vec::new();
    ms.push(("port".to_owned(), JsonValue::Number(JsonNumber::PosInt(port as u64))));
    ms.push(("token".to_owned(), JsonValue::Str(token.to_owned())));
    proof {
        lemma_object_view(ms);
        assert(members_view(ms@) =~= runtime_doc(port, token@)->Object_0);
        lemma_runtime_doc_flat(port, token@);
    }
    let doc = JsonValue::Object(ms);
    let text = json_to_text(&doc);
    proof {
        lemma_runtime_doc_reads(port, token@);
    }
    text
}

/// A runtime document is a flat record.
proof fn lemma_runtime_doc_flat(port: u16, token: Seq<char>)
    ensures
        flat_record(runtime_doc(port, token)),
{
    reveal_strlit("port");
    reveal_strlit("token");
    let ms = runtime_doc(port, token)->Object_0;
    assert(lex_lt(ms[0].0, ms[1].0));
    assert forall|i: int| 0 <= i < ms.len() implies plain_scalar(#[trigger] ms[i].1) by {}
    assert forall|i: int, j: int| 0 <= i < j < ms.len() implies lex_lt(#[trigger] ms[i].0, #[trigger] ms[j].0) by {
        assert(i == 0 && j == 1);
    }
}

/// The members of a runtime document read back as the port and the token.
proof fn lemma_runtime_doc_reads(port: u16, token: Seq<char>)
    ensures
        str_member(runtime_doc(port, token), "token"@) == Some(token),
        runtime_port(runtime_doc(port, token)) == port,
{
    reveal_strlit("port");
    reveal_strlit("token");
    assert("port"@.len() == 4);
    assert("token"@.len() == 5);
    assert((port as u64) % 65536 == port as u64);
    let ms = runtime_doc(port, token)->Object_0;
    assert(ms.drop_last().last().0 != "token"@);
    assert(ms.last().0 != "port"@);
    assert(ms.drop_last().drop_last().len() == 0);
    assert(member_value(ms.drop_last(), "port"@) == Some(ms[0].1));
    assert(member_value(ms, "port"@) == Some(ms[0].1));
    assert(((port as u64) % 65536) as u16 == port);
}

// ---------------------------------------------------------------------------
// The bearer token
// ---------------------------------------------------------------------------

/// What the `base64` crate's URL-safe engine without padding writes for
/// a run of bytes.
pub uninterp spec fn base64_url_text(bytes: Seq<u8>) -> Seq<char>;

/// The length of unpadded base64 text for `n` bytes.
pub open spec fn base64_unpadded_len(n: nat) -> nat {
    let rem = n % 3;
    (n / 3) * 4 + if rem == 0 { 0nat } else if rem == 1 { 2nat } else { 3nat }
}

/// A character of the URL-safe base64 alphabet: a letter, a digit, `-`
/// or `_`.
pub open spec fn is_url_safe_b64(c: char) -> bool {
    ('A' <= c <= 'Z') || ('a' <= c <= 'z') || ('0' <= c <= '9') || c == '-' || c == '_'
}

/// Encodes bytes with `base64::engine::general_purpose::URL_SAFE_NO_PAD`;
/// the text is named [`base64_url_text`] of the bytes, four characters for
/// each three bytes and two or three for a last one or two, all from the
/// URL-safe alphabet (no padding).
#[verifier::external_body]
fn base64_url(bytes: &[u8]) -> (r: String)
    requires
        bytes@.len() <= usize::MAX / 2,
    ensures
        r@ == base64_url_text(bytes@),
        r@.len() == base64_unpadded_len(bytes@.len()),
        forall|i: int| 0 <= i < r@.len() ==> is_url_safe_b64(#[trigger] r@[i]),
{
    base64::Engine::encode(&base64::engine::general_purpose::URL_SAFE_NO_PAD, bytes)
}

/// Fills 32 bytes from `rand::thread_rng()`; nothing is promised of them but
/// their number.
#[verifier::external_body]
fn random_bytes() -> (r: Vec<u8>)
    ensures
        r@.len() == 32,
{
    let mut bytes = [0u8; 32];
    rand::RngCore::fill_bytes(&mut rand::thread_rng(), &mut bytes);
    bytes.to_vec()
}

/// The token made of some random bytes: `ct_` and their unpadded URL-safe
/// base64 text.
pub open spec fn token_of(bytes: Seq<u8>) -> Seq<char> {
    "ct_"@ + base64_url_text(bytes)
}

/// The token made of the given bytes.
pub fn token_from_bytes(bytes: &[u8]) -> (r: String)
    requires
        bytes@.len() <= usize::MAX / 2,
    ensures
        r@ == token_of(bytes@),
        r@.len() == 3 + base64_unpadded_len(bytes@.len()),
        r@.take(3) == "ct_"@,
        forall|i: int| 3 <= i < r@.len() ==> is_url_safe_b64(#[trigger] r@[i]),
{
    let mut t = "ct_".to_owned();
    let enc = base64_url(bytes);
    push_str(&mut t, enc.as_str());
    proof {
        reveal_strlit("ct_");
        assert(t@.take(3) =~= "ct_"@);
        assert forall|i: int| 3 <= i < t@.len() implies is_url_safe_b64(#[trigger] t@[i]) by {
            assert(t@[i] == enc@[i - 3]);
        }
    }
    t
}

/// A new token and the runtime file text that stores it with the port.
pub fn write_runtime_token(port: u16) -> (r: (String, String))
    ensures
        exists|bytes: Seq<u8>| bytes.len() == 32 && r.0@ == token_of(bytes),
        r.0@.len() == 46,
        r.0@.take(3) == "ct_"@,
        forall|i: int| 3 <= i < r.0@.len() ==> is_url_safe_b64(#[trigger] r.0@[i]),
        r.1@ == json_compact_text(runtime_doc(port, r.0@)),
        runtime_of(r.1@) == Ok::<(u16, Seq<char>), RuntimeError>((port, r.0@)),
{
    let bytes = random_bytes();
    let token = token_from_bytes(bytes.as_slice());
    assert(base64_unpadded_len(32) == 43);
    let text = update_runtime_port(port, token.as_str());
    (token, text)
}

/// The text of the file the shell reads the token from.
pub fn env_file_text(token: &str) -> (r: String)
    ensures
        r@ == "CT_TOKEN="@ + token@ + "\n"@,
{
    let mut t = "CT_TOKEN=".to_owned();
    push_str(&mut t, token);
    push_str(&mut t, "\n");
    t
}

} // verus!
