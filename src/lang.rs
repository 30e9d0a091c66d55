//! The language class of a code block, whose tag may be base64-encoded.
use vstd::prelude::*;

verus! {

#[verifier::external_type_specification]
#[verifier::external_body]
pub struct ExDecodeError(base64::DecodeError);

#[verifier::external_type_specification]
#[verifier::external_body]
pub struct ExFromUtf8Error(std::string::FromUtf8Error);

/// The bytes that base64 text in the standard alphabet encodes, if it is valid.
pub uninterp spec fn base64_decoded(s: Seq<char>) -> Option<Seq<u8>>;

/// The text that bytes encode in UTF-8, if they are valid UTF-8.
pub uninterp spec fn utf8_decoded(b: Seq<u8>) -> Option<Seq<char>>;

/// Relies on base64::decode: the bytes that the text encodes (standard
/// alphabet), or an error where it is not valid base64.
#[verifier::external_body]
fn decode_base64(s: &str) -> (r: Result<Vec<u8>, base64::DecodeError>)
    ensures
        match r {
            Ok(v) => base64_decoded(s@) == Some(v@),
            Err(_) => base64_decoded(s@) is None,
        },
{
    base64::decode(s)
}

/// Relies on String::from_utf8: the text that the bytes encode, or an error
/// where they are not valid UTF-8.
#[verifier::external_body]
fn utf8_string(b: Vec<u8>) -> (r: Result<String, std::string::FromUtf8Error>)
    ensures
        match r {
            Ok(t) => utf8_decoded(b@) == Some(t@),
            Err(_) => utf8_decoded(b@) is None,
        },
{
    String::from_utf8(b)
}

/// The class attribute for a language tag, given its decoded text: that
/// text, or the raw tag where it does not decode to text.
pub open spec fn language_attr_of(info: Seq<char>, decoded: Option<Seq<char>>) -> Seq<char> {
    " class=\"language-"@ + (match decoded {
        Some(t) => t,
        None => info,
    }) + "\""@
}

/// The view of an optional text.
pub open spec fn opt_text(d: Option<String>) -> Option<Seq<char>> {
    match d {
        Some(t) => Some(t@),
        None => None,
    }
}

/// The text that a tag decodes to: base64 first, then UTF-8.
pub open spec fn decode_of(info: Seq<char>) -> Option<Seq<char>> {
    match base64_decoded(info) {
        None => None,
        Some(bytes) => utf8_decoded(bytes),
    }
}

/// The class attribute for a non-empty tag once decoded.
pub fn language_attr(info: &str, decoded: &Option<String>) -> (r: String)
    ensures
        r@ == language_attr_of(info@, opt_text(*decoded)),
{
    let mut out = String::new();
    out.append(" class=\"language-");
    match decoded {
        Some(t) => out.append(t.as_str()),
        None => out.append(info),
    }
    out.append("\"");
    assert(out@ =~= language_attr_of(info@, opt_text(*decoded)));
    out
}

/// Decodes a language tag: base64, then UTF-8.
pub fn decode_language(info: &str) -> (r: Option<String>)
    ensures
        opt_text(r) == decode_of(info@),
{
    match decode_base64(info) {
        Err(_) => None,
        Ok(bytes) => match utf8_string(bytes) {
            Ok(t) => Some(t),
            Err(_) => None,
        },
    }
}

/// The class attribute of a code block's language tag: nothing for an empty
/// tag, else as `language_attr` gives it for the tag's decoding.
pub open spec fn code_language_attr(info: Seq<char>) -> Seq<char> {
    if info.len() == 0 {
        Seq::empty()
    } else {
        language_attr_of(info, decode_of(info))
    }
}

/// The class attribute of a code block's language tag.
pub fn code_language(info: &str) -> (r: String)
    ensures
        r@ == code_language_attr(info@),
{
    if info.is_empty() {
        return String::new();
    }
    let d = decode_language(info);
    language_attr(info, &d)
}

} // verus!
