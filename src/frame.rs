//! Framing of control messages on the wire: the JSON text of a message,
//! compressed with gzip.

use std::io::Read;
use std::io::Write;
use vstd::prelude::*;
use vstd::utf8::{decode_utf8, valid_utf8};
use crate::messages::MessageBase;

verus! {

/// What writing `data` through `flate2`'s gzip encoder at the default level
/// into a vector gives: the stream, or nothing where the encoder reports an
/// error.
pub uninterp spec fn gzip_of(data: Seq<u8>) -> Option<Seq<u8>>;

/// The bytes that the gzip stream `data` holds, where it is a whole, valid
/// stream.
pub uninterp spec fn gunzip_of(data: Seq<u8>) -> Option<Seq<u8>>;

/// Relies on `flate2::write::GzEncoder` at `Compression::default()`: the
/// stream depends on the input bytes alone.
#[verifier::external_body]
fn gzip(data: &[u8]) -> (r: Option<Vec<u8>>)
    ensures
        match r {
            Some(v) => gzip_of(data@) == Some(v@),
            None => gzip_of(data@) is None,
        },
{
    let mut encoder = flate2::write::GzEncoder::new(Vec::new(), flate2::Compression::default());
    encoder.write_all(data).ok()?;
    encoder.finish().ok()
}

/// Relies on `flate2::read::GzDecoder` read to its end: the decompressed
/// bytes, or an error where the stream is not valid.
#[verifier::external_body]
fn gunzip(data: &[u8]) -> (r: Option<Vec<u8>>)
    ensures
        match r {
            Some(v) => gunzip_of(data@) == Some(v@),
            None => gunzip_of(data@) is None,
        },
{
    let mut decoder = flate2::read::GzDecoder::new(data);
    let mut out = Vec::new();
    decoder.read_to_end(&mut out).ok()?;
    Some(out)
}

/// Relies on `String::from_utf8`: the text where the bytes are valid UTF-8.
#[verifier::external_body]
fn utf8_text(bytes: Vec<u8>) -> (r: Option<String>)
    ensures
        match r {
            Some(s) => valid_utf8(bytes@) && s@ == decode_utf8(bytes@),
            None => !valid_utf8(bytes@),
        },
{
    String::from_utf8(bytes).ok()
}

/// Relies on `str::as_bytes`: the UTF-8 encoding of the text.
#[verifier::external_body]
fn utf8_bytes(text: &str) -> (r: Vec<u8>)
    ensures
        r@ == vstd::utf8::encode_utf8(text@),
{
    text.as_bytes().to_vec()
}

/// The frame of a message's JSON text: the gzip stream of its UTF-8 bytes.
pub fn encode_frame(json: &str) -> (r: Option<Vec<u8>>)
    ensures
        match r {
            Some(v) => gzip_of(vstd::utf8::encode_utf8(json@)) == Some(v@),
            None => gzip_of(vstd::utf8::encode_utf8(json@)) is None,
        },
{
    let bytes = utf8_bytes(json);
    gzip(bytes.as_slice())
}

/// The text of decompressed frame bytes, where they are valid UTF-8.
pub fn payload_text(raw: Vec<u8>) -> (r: Option<String>)
    ensures
        match r {
            Some(s) => valid_utf8(raw@) && s@ == decode_utf8(raw@),
            None => !valid_utf8(raw@),
        },
{
    utf8_text(raw)
}

/// The JSON text that a frame carries: nothing where the bytes are not a
/// gzip stream or the stream does not hold UTF-8 text.
pub fn decode_frame(data: &[u8]) -> (r: Option<String>)
    ensures
        match gunzip_of(data@) {
            Some(raw) => match r {
                Some(s) => valid_utf8(raw) && s@ == decode_utf8(raw),
                None => !valid_utf8(raw),
            },
            None => r is None,
        },
{
    match gunzip(data) {
        Some(raw) => payload_text(raw),
        None => None,
    }
}

/// The string value of member `key` of the JSON object that `text` holds;
/// nothing where the text is not JSON or the member is missing or is not a
/// string.
pub uninterp spec fn json_string_member_of(text: Seq<char>, key: Seq<char>) -> Option<Seq<char>>;

/// Relies on `serde_json::from_str` into `serde_json::Value`, then
/// `Value::get` and `Value::as_str`: the result depends on the text alone.
#[verifier::external_body]
fn json_string_member(text: &str, key: &str) -> (r: Option<String>)
    ensures
        match r {
            Some(s) => json_string_member_of(text@, key@) == Some(s@),
            None => json_string_member_of(text@, key@) is None,
        },
{
    let value: serde_json::Value = serde_json::from_str(text).ok()?;
    value.get(key)?.as_str().map(|s| s.to_string())
}

/// The envelope of a message's JSON text: its `payload_type` member, whatever
/// else the body holds.
pub fn envelope_of(text: &str) -> (r: Option<MessageBase>)
    ensures
        match r {
            Some(b) => json_string_member_of(text@, "payload_type"@) == Some(b.payload_type@),
            None => json_string_member_of(text@, "payload_type"@) is None,
        },
{
    match json_string_member(text, "payload_type") {
        Some(tag) => Some(MessageBase { payload_type: tag }),
        None => None,
    }
}

/// The envelope of a frame; nothing where the frame or its text cannot be
/// read.
pub fn decode_message(data: &[u8]) -> (r: Option<MessageBase>)
    ensures
        match gunzip_of(data@) {
            Some(raw) => {
                if valid_utf8(raw) {
                    match r {
                        Some(b) => json_string_member_of(decode_utf8(raw), "payload_type"@) == Some(
                            b.payload_type@,
                        ),
                        None => json_string_member_of(decode_utf8(raw), "payload_type"@) is None,
                    }
                } else {
                    r is None
                }
            },
            None => r is None,
        },
{
    match decode_frame(data) {
        Some(text) => envelope_of(text.as_str()),
        None => None,
    }
}

} // verus!
