//! Payloads: the data URL that carries the content of an artifact to a
//! download.

use vstd::prelude::*;
use vstd::string::StringExecFns;
use vstd::string::StringSliceAdditionalSpecFns;

verus! {

/// What a data URL for plain text starts with.
pub const DATA_URL_PREFIX: &'static str = "data:text;charset=utf-8,";

/// Whether a byte stands for itself in a percent-encoded text: the ASCII
/// letters and digits, and `-`, `.`, `_`, `~`.
pub open spec fn is_unreserved(byte: u8) -> bool {
    ||| 0x30 <= byte <= 0x39
    ||| 0x41 <= byte <= 0x5a
    ||| 0x61 <= byte <= 0x7a
    ||| byte == 0x2d
    ||| byte == 0x2e
    ||| byte == 0x5f
    ||| byte == 0x7e
}

/// The upper-case hexadecimal digit for a value below 16.
pub open spec fn hex_digit(value: u8) -> char {
    if value < 10 {
        (0x30 + value) as u8 as char
    } else {
        (0x41 + value - 10) as u8 as char
    }
}

/// The percent-encoding of `bytes`: an unreserved byte stands for itself,
/// every other byte becomes `%` and its two hexadecimal digits.
pub open spec fn percent_encoded(bytes: Seq<u8>) -> Seq<char>
    decreases bytes.len(),
{
    if bytes.len() == 0 {
        Seq::empty()
    } else if is_unreserved(bytes.first()) {
        seq![bytes.first() as char] + percent_encoded(bytes.drop_first())
    } else {
        seq!['%', hex_digit(bytes.first() / 16), hex_digit(bytes.first() % 16)] + percent_encoded(
            bytes.drop_first(),
        )
    }
}

/// Calls `urlencoding::encode`, which percent-encodes the UTF-8 bytes of
/// `text`: every byte but the ASCII letters and digits and `-`, `.`, `_`,
/// `~` becomes `%` and two upper-case hexadecimal digits.
#[verifier::external_body]
fn percent_encode(text: &str) -> (encoded: String)
    ensures
        encoded@ == percent_encoded(text.spec_bytes()),
{
    urlencoding::encode(text).into_owned()
}

/// The data URL of `content`.
pub open spec fn data_url_of(content: Seq<u8>) -> Seq<char> {
    DATA_URL_PREFIX@ + percent_encoded(content)
}

/// The data URL that holds `content` as plain text in UTF-8: a link to it
/// downloads the content.
pub fn data_url(content: &str) -> (url: String)
    ensures
        url@ == data_url_of(content.spec_bytes()),
{
    let encoded = percent_encode(content);
    let mut url = DATA_URL_PREFIX.to_owned();
    url.append(encoded.as_str());
    url
}

} // verus!
