//! Base64 text of binary values, through the `base64` crate.
use vstd::prelude::*;
use vstd::string::{StrSliceExecFns, StringSliceAdditionalSpecFns};
use vstd::utf8::encode_utf8;
use base64::engine::{general_purpose, DecodePaddingMode, GeneralPurpose, GeneralPurposeConfig};
use base64::{DecodeError, Engine};
use crate::error::{Base64Error, ParseError, ParseErrorSpec, result_view};
use crate::escape::is_delimited;

verus! {

/// What `base64` decodes `input` to with the standard alphabet, padding being optional.
pub uninterp spec fn base64_decoded(input: Seq<u8>) -> Result<Seq<u8>, Base64Error>;

/// What `base64` decodes `input` to with `general_purpose::STANDARD`, which requires
/// canonical padding.
pub uninterp spec fn base64_padded_decoded(input: Seq<u8>) -> Result<Seq<u8>, Base64Error>;

/// The character of the standard base64 alphabet for the 6-bit value `d`: `A`-`Z`,
/// `a`-`z`, `0`-`9`, `+` and `/`.
pub open spec fn b64_digit(d: int) -> char {
    if 0 <= d < 26 {
        ((65 + d) as u8) as char
    } else if 26 <= d < 52 {
        ((71 + d) as u8) as char
    } else if 52 <= d < 62 {
        ((d - 4) as u8) as char
    } else if d == 62 {
        '+'
    } else {
        '/'
    }
}

/// The standard base64 text, with padding, of `b`: each group of three bytes, read as a
/// 24-bit number, gives four characters of six bits each; a last group of one or two
/// bytes gives two or three characters, and `=` fills the group up to four.
pub open spec fn base64_text(b: Seq<u8>) -> Seq<char>
    decreases b.len(),
{
    if b.len() == 0 {
        Seq::empty()
    } else if b.len() == 1 {
        let n = b[0] as int * 65536;
        seq![b64_digit(n / 262144), b64_digit((n / 4096) % 64), '=', '=']
    } else if b.len() == 2 {
        let n = b[0] as int * 65536 + b[1] as int * 256;
        seq![b64_digit(n / 262144), b64_digit((n / 4096) % 64), b64_digit((n / 64) % 64), '=']
    } else {
        let n = b[0] as int * 65536 + b[1] as int * 256 + b[2] as int;
        seq![b64_digit(n / 262144), b64_digit((n / 4096) % 64), b64_digit((n / 64) % 64), b64_digit(n % 64)]
            + base64_text(b.subrange(3, b.len() as int))
    }
}

/// `Engine::decode` of a `GeneralPurpose` engine built from `alphabet::STANDARD` and a
/// configuration whose decode padding mode is `Indifferent`. Its contract claims only that
/// the outcome, decoded bytes or the kind of error, is a function of the input bytes.
#[verifier::external_body]
fn decode_standard_lenient(input: &[u8]) -> (r: Result<Vec<u8>, Base64Error>)
    ensures
        match r {
            Ok(v) => base64_decoded(input@) == Ok::<Seq<u8>, Base64Error>(v@),
            Err(e) => base64_decoded(input@) == Err::<Seq<u8>, Base64Error>(e),
        },
{
    let config = GeneralPurposeConfig::new().with_decode_padding_mode(DecodePaddingMode::Indifferent);
    match GeneralPurpose::new(&base64::alphabet::STANDARD, config).decode(input) {
        Ok(v) => Ok(v),
        Err(DecodeError::InvalidByte(i, b)) => Err(Base64Error::InvalidByte(i, b)),
        Err(DecodeError::InvalidLength(n)) => Err(Base64Error::InvalidLength(n)),
        Err(DecodeError::InvalidLastSymbol(i, b)) => Err(Base64Error::InvalidLastSymbol(i, b)),
        Err(DecodeError::InvalidPadding) => Err(Base64Error::InvalidPadding),
    }
}

/// `Engine::decode` of `general_purpose::STANDARD`. Its contract claims only that the
/// outcome, decoded bytes or the kind of error, is a function of the input bytes.
#[verifier::external_body]
pub(crate) fn decode_standard(input: &[u8]) -> (r: Result<Vec<u8>, Base64Error>)
    ensures
        match r {
            Ok(v) => base64_padded_decoded(input@) == Ok::<Seq<u8>, Base64Error>(v@),
            Err(e) => base64_padded_decoded(input@) == Err::<Seq<u8>, Base64Error>(e),
        },
{
    match general_purpose::STANDARD.decode(input) {
        Ok(v) => Ok(v),
        Err(DecodeError::InvalidByte(i, b)) => Err(Base64Error::InvalidByte(i, b)),
        Err(DecodeError::InvalidLength(n)) => Err(Base64Error::InvalidLength(n)),
        Err(DecodeError::InvalidLastSymbol(i, b)) => Err(Base64Error::InvalidLastSymbol(i, b)),
        Err(DecodeError::InvalidPadding) => Err(Base64Error::InvalidPadding),
    }
}

/// `Engine::encode` of `general_purpose::STANDARD`: the standard base64 text of the bytes,
/// with padding (RFC 4648, section 4). `encode` panics only when the length of the text would not
/// fit in `usize`, which cannot happen for a slice: no slice holds more than `isize::MAX`
/// bytes.
#[verifier::external_body]
pub(crate) fn encode_standard(bytes: &[u8]) -> (r: String)
    ensures
        r@ == base64_text(bytes@),
{
    general_purpose::STANDARD.encode(bytes)
}

/// What a b64 literal `b64'...'` or `b64"..."` stands for.
pub open spec fn b64_literal_value(s: Seq<char>) -> Result<Seq<u8>, ParseErrorSpec> {
    match base64_decoded(encode_utf8(s.subrange(4, s.len() - 1))) {
        Ok(v) => Ok(v),
        Err(e) => Err(ParseErrorSpec::Base64(e)),
    }
}

/// Parse b64 literal.
pub fn parse_b64_literal(str: &str) -> (r: Result<Vec<u8>, ParseError>)
    requires
        is_delimited(str@, 4),
    ensures
        result_view(r) == b64_literal_value(str@),
{
    let n = str.unicode_len();
    let inner = str.substring_char(4, n - 1);
    match decode_standard_lenient(inner.as_bytes()) {
        Ok(v) => Ok(v),
        Err(e) => Err(ParseError::Base64DecodeError(e)),
    }
}

} // verus!
