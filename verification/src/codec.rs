//! The encodings of bytes as text: the storage encoding and the hexadecimal form.

use vstd::prelude::*;
use base64::Engine;

verus! {

/// The text that the storage encoding gives a byte string: base64 with the URL-safe
/// alphabet and without padding.
pub uninterp spec fn base64url_text(bytes: Seq<u8>) -> Seq<char>;

/// The byte string that a text stands for in the storage encoding, if it stands for one.
pub uninterp spec fn base64url_bytes(text: Seq<char>) -> Option<Seq<u8>>;

/// Whether a character belongs to the alphabet of the storage encoding.
pub open spec fn is_base64url_char(c: char) -> bool {
    ('A' <= c && c <= 'Z') || ('a' <= c && c <= 'z') || ('0' <= c && c <= '9') || c == '-' || c == '_'
}

/// Whether a text is made of the alphabet of the storage encoding alone.
pub open spec fn is_base64url(text: Seq<char>) -> bool {
    forall|i: int| 0 <= i < text.len() ==> is_base64url_char(#[trigger] text[i])
}

/// The number of characters that the storage encoding gives `n` bytes: four for every
/// three bytes, the last group cut short.
pub open spec fn encoded_len(n: nat) -> nat {
    ((4 * n + 2) / 3) as nat
}

/// The longest byte string that the storage encoding takes.
pub const MAX_ENCODABLE_LEN: usize = usize::MAX / 2;

/// `base64::engine::general_purpose::URL_SAFE_NO_PAD.encode`. The contract names the
/// result and states what the crate documents of it: decoding gives the bytes back,
/// the text is made of the URL-safe alphabet alone, so it holds no padding, and it has
/// four characters for every three bytes, the last group cut short. The call panics
/// where the length of the text does not fit in `usize`.
#[verifier::external_body]
fn base64url_encode(bytes: &[u8]) -> (text: String)
    requires
        bytes.len() <= MAX_ENCODABLE_LEN,
    ensures
        text@ == base64url_text(bytes@),
        base64url_bytes(text@) == Some(bytes@),
        forall|i: int| 0 <= i < text@.len() ==> is_base64url_char(#[trigger] text@[i]),
        text@.len() == (4 * bytes.len() + 2) / 3,
{
    base64::engine::general_purpose::URL_SAFE_NO_PAD.encode(bytes)
}

/// `base64::engine::general_purpose::URL_SAFE_NO_PAD.decode`. The contract names the
/// bytes that come back and says that an error comes back where the text stands for
/// none. The error is handed on as its message.
#[verifier::external_body]
fn base64url_decode(text: &str) -> (r: Result<Vec<u8>, String>)
    ensures
        match r {
            Ok(bytes) => base64url_bytes(text@) == Some(bytes@),
            Err(_) => base64url_bytes(text@) is None,
        },
{
    base64::engine::general_purpose::URL_SAFE_NO_PAD.decode(text).map_err(|e| e.to_string())
}

/// Encodes bytes for storage.
pub fn encode_base64url(bytes: &[u8]) -> (text: String)
    requires
        bytes.len() <= MAX_ENCODABLE_LEN,
    ensures
        text@ == base64url_text(bytes@),
        base64url_bytes(text@) == Some(bytes@),
        forall|i: int| 0 <= i < text@.len() ==> is_base64url_char(#[trigger] text@[i]),
        !text@.contains('='),
        text@.len() == (4 * bytes.len() + 2) / 3,
{
    let text = base64url_encode(bytes);
    assert(!text@.contains('=')) by {
        if text@.contains('=') {
            let i = choose|i: int| 0 <= i < text@.len() && text@[i] == '=';
            assert(is_base64url_char(text@[i]));
        }
    }
    text
}

/// Encodes bytes for storage, unless they are too many.
pub fn try_encode_base64url(bytes: &[u8]) -> (r: Option<String>)
    ensures
        match r {
            Some(text) => {
                &&& bytes.len() <= MAX_ENCODABLE_LEN
                &&& text@ == base64url_text(bytes@)
                &&& base64url_bytes(text@) == Some(bytes@)
                &&& is_base64url(text@)
                &&& text@.len() == encoded_len(bytes@.len())
            },
            None => bytes.len() > MAX_ENCODABLE_LEN,
        },
{
    if bytes.len() <= MAX_ENCODABLE_LEN {
        Some(encode_base64url(bytes))
    } else {
        None
    }
}

/// Decodes what was encoded for storage. The error is the decoder's message.
pub fn decode_base64url(text: &str) -> (r: Result<Vec<u8>, String>)
    ensures
        match r {
            Ok(bytes) => base64url_bytes(text@) == Some(bytes@),
            Err(_) => base64url_bytes(text@) is None,
        },
{
    base64url_decode(text)
}

/// The lower-case hexadecimal digit of a number below sixteen.
pub open spec fn hex_digit(n: int) -> char {
    if n == 0 {
        '0'
    } else if n == 1 {
        '1'
    } else if n == 2 {
        '2'
    } else if n == 3 {
        '3'
    } else if n == 4 {
        '4'
    } else if n == 5 {
        '5'
    } else if n == 6 {
        '6'
    } else if n == 7 {
        '7'
    } else if n == 8 {
        '8'
    } else if n == 9 {
        '9'
    } else if n == 10 {
        'a'
    } else if n == 11 {
        'b'
    } else if n == 12 {
        'c'
    } else if n == 13 {
        'd'
    } else if n == 14 {
        'e'
    } else {
        'f'
    }
}

/// The lower-case hexadecimal form of a byte string: two digits per byte, the high
/// half of the byte first.
pub open spec fn hex_lower_text(bytes: Seq<u8>) -> Seq<char> {
    Seq::new(
        2 * bytes.len(),
        |i: int|
            if i % 2 == 0 {
                hex_digit(bytes[i / 2] as int / 16)
            } else {
                hex_digit(bytes[i / 2] as int % 16)
            },
    )
}

/// `data_encoding::HEXLOWER.encode`: base 16 with the digits `0123456789abcdef`. The
/// call panics on inputs longer than `usize::MAX / 512`.
#[verifier::external_body]
fn hex_lower_encode(bytes: &[u8]) -> (text: String)
    requires
        bytes.len() <= usize::MAX / 512,
    ensures
        text@ == hex_lower_text(bytes@),
{
    data_encoding::HEXLOWER.encode(bytes)
}

/// The text of the identifier that no authenticator model has.
pub open spec fn nil_aaguid() -> Seq<char> {
    "00000000-0000-0000-0000-000000000000"@
}

/// The text of an authenticator model's identifier: the hexadecimal form of its
/// sixteen bytes in groups of 8, 4, 4, 4 and 12 digits. Bytes that are not sixteen
/// give the nil identifier.
pub open spec fn aaguid_text(bytes: Seq<u8>) -> Seq<char> {
    if bytes.len() == 16 {
        let hex = hex_lower_text(bytes);
        hex.subrange(0, 8) + seq!['-'] + hex.subrange(8, 12) + seq!['-'] + hex.subrange(12, 16) + seq!['-']
            + hex.subrange(16, 20) + seq!['-'] + hex.subrange(20, 32)
    } else {
        nil_aaguid()
    }
}

/// Formats an authenticator model's identifier.
pub fn format_aaguid(bytes: &[u8]) -> (text: String)
    ensures
        text@ == aaguid_text(bytes@),
{
    if bytes.len() == 16 {
        let hex = hex_lower_encode(bytes);
        proof {
            reveal_strlit("-");
        }
        let mut text = hex.as_str().substring_char(0, 8).to_owned();
        text.append("-");
        text.append(hex.as_str().substring_char(8, 12));
        text.append("-");
        text.append(hex.as_str().substring_char(12, 16));
        text.append("-");
        text.append(hex.as_str().substring_char(16, 20));
        text.append("-");
        text.append(hex.as_str().substring_char(20, 32));
        assert("-"@ =~= seq!['-']);
        text
    } else {
        "00000000-0000-0000-0000-000000000000".to_owned()
    }
}

} // verus!
