//! The receiver's side of a file transfer: recognizing the request to shut
//! the server down.

use vstd::prelude::*;

verus! {

/// The text `String::from_utf8_lossy` makes of some bytes.
pub uninterp spec fn spec_utf8_lossy(bytes: Seq<u8>) -> Seq<char>;

/// Whether a character has the Unicode White_Space property.
pub open spec fn spec_is_white_space(c: char) -> bool {
    let code = c as u32;
    ||| 0x09 <= code <= 0x0D
    ||| code == 0x20
    ||| code == 0x85
    ||| code == 0xA0
    ||| code == 0x1680
    ||| 0x2000 <= code <= 0x200A
    ||| code == 0x2028
    ||| code == 0x2029
    ||| code == 0x202F
    ||| code == 0x205F
    ||| code == 0x3000
}

/// The text without its leading white space.
pub open spec fn spec_trim_start(text: Seq<char>) -> Seq<char>
    decreases text.len(),
{
    if text.len() > 0 && spec_is_white_space(text[0]) {
        spec_trim_start(text.drop_first())
    } else {
        text
    }
}

/// The text without its trailing white space.
pub open spec fn spec_trim_end(text: Seq<char>) -> Seq<char>
    decreases text.len(),
{
    if text.len() > 0 && spec_is_white_space(text.last()) {
        spec_trim_end(text.drop_last())
    } else {
        text
    }
}

/// The text without its leading and trailing white space.
pub open spec fn spec_trim(text: Seq<char>) -> Seq<char> {
    spec_trim_end(spec_trim_start(text))
}

/// Calls `String::from_utf8_lossy`, which decodes the bytes as UTF-8 and
/// puts U+FFFD in place of each invalid sequence. Claimed: the result is
/// `spec_utf8_lossy` of the bytes, and bytes that are all ASCII give the
/// characters of the same codes.
#[verifier::external_body]
fn utf8_lossy(bytes: &[u8]) -> (text: String)
    ensures
        text@ == spec_utf8_lossy(bytes@),
        (forall|i: int| 0 <= i < bytes@.len() ==> #[trigger] bytes@[i] < 128) ==> text@ == bytes@.map_values(
            |b: u8| b as char,
        ),
{
    String::from_utf8_lossy(bytes).into_owned()
}

/// Calls `str::trim`, which removes leading and trailing white space (the
/// characters with the Unicode White_Space property). Claimed: the result is
/// `spec_trim` of the text.
#[verifier::external_body]
fn trim(text: &str) -> (trimmed: &str)
    ensures
        trimmed@ == spec_trim(text@),
{
    text.trim()
}

/// Whether the text is the shutdown command: exactly `shutdown`.
pub fn is_shutdown_command(text: &str) -> (shutdown: bool)
    ensures
        shutdown == (text@ == "shutdown"@),
{
    let owned: String = text.to_owned();
    let command: String = "shutdown".to_owned();
    owned == command
}

/// Whether the data received from a client ask the server to shut down:
/// read as UTF-8 (invalid sequences replaced) and trimmed of white space,
/// they are the shutdown command.
pub fn is_shutdown_request(data: &[u8]) -> (shutdown: bool)
    ensures
        shutdown == (spec_trim(spec_utf8_lossy(data@)) == "shutdown"@),
        (forall|i: int| 0 <= i < data@.len() ==> #[trigger] data@[i] < 128) ==> shutdown == (
        spec_trim(data@.map_values(|b: u8| b as char)) == "shutdown"@),
{
    let text: String = utf8_lossy(data);
    let trimmed: &str = trim(text.as_str());
    is_shutdown_command(trimmed)
}

} // verus!

