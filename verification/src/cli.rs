//! The command line argument that names the configuration.

use base64::Engine;
use vstd::prelude::*;
use vstd::string::*;

verus! {

#[verifier::external_type_specification]
#[verifier::external_body]
pub struct ExDecodeError(base64::DecodeError);

/// Where the configuration is to be read from: the content itself, or the
/// path of a file.
#[derive(Debug)]
pub enum ContentOrPath {
    Content(Vec<u8>),
    Path(String),
}

/// The bytes that the standard base64 alphabet, with padding, decodes a
/// text to; `None` where the text is no such encoding.
pub uninterp spec fn base64_decoded(text: Seq<char>) -> Option<Seq<u8>>;

/// Decodes with `base64::engine::general_purpose::STANDARD`.
/// Trusted: the bytes handed out are those that `base64_decoded` names, and
/// the decoder refuses exactly the texts for which it names none.
#[verifier::external_body]
fn decode_base64(text: &str) -> (decoded: Result<Vec<u8>, base64::DecodeError>)
    ensures
        match decoded {
            Ok(bytes) => base64_decoded(text@) == Some(bytes@),
            Err(_) => base64_decoded(text@) is None,
        },
{
    base64::engine::general_purpose::STANDARD.decode(text.as_bytes())
}

/// What is said of an argument that is neither a file nor base64, with the
/// decoder's own words as `detail`.
pub open spec fn rejection_of(detail: Seq<char>) -> Seq<char> {
    "path does not exist or is not a file, or content provided is not valid base64 (base64-decode error: "@
        + detail + ")"@
}

/// What is said of an argument that is neither a file nor base64.
pub fn rejection(detail: &str) -> (message: String)
    ensures
        message@ == rejection_of(detail@),
{
    let mut message =
        "path does not exist or is not a file, or content provided is not valid base64 (base64-decode error: ".to_owned();
    message.append(detail);
    message.append(")");
    message
}

/// Reads the configuration argument. `is_file` says whether the argument is
/// the path of an existing file. Such a path is taken as it is, whatever
/// else it could mean. Any other argument is taken as the configuration
/// itself in base64, and refused if it is none.
pub fn content_or_path(argument: &str, is_file: bool) -> (read: Result<ContentOrPath, String>)
    ensures
        match read {
            Ok(ContentOrPath::Path(path)) => is_file && path@ == argument@,
            Ok(ContentOrPath::Content(content)) => !is_file && base64_decoded(argument@) == Some(
                content@,
            ),
            Err(message) => !is_file && base64_decoded(argument@) is None && exists|
                detail: Seq<char>,
            |
                message@ == rejection_of(detail),
        },
{
    if is_file {
        return Ok(ContentOrPath::Path(argument.to_owned()));
    }
    match decode_base64(argument) {
        Ok(decoded) => Ok(ContentOrPath::Content(decoded)),
        Err(error) => {
            let detail = error.to_string();
            Err(rejection(detail.as_str()))
        },
    }
}

} // verus!
