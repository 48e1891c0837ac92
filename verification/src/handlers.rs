//! The rules of the request handlers: where the MJML of a conversion comes
//! from, which uploads are taken, and with which status and message a
//! request is turned down.
//!
//! The handlers themselves talk HTTP and call the template engines; they
//! hand what came of that to the functions here.

use vstd::prelude::*;
use vstd::string::StringExecFns;
use vstd::utf8::{decode_utf8, valid_utf8};
use crate::models::MjmlInput;

verus! {

/// Status of a request that was at fault.
pub const BAD_REQUEST: u16 = 400;

/// Status of a request that failed on the server's side.
pub const INTERNAL_SERVER_ERROR: u16 = 500;

/// Where the MJML of a conversion comes from.
#[derive(Debug, PartialEq, Eq)]
pub enum TemplateSource {
    /// From the template cached, or to be cached, under `key`.
    Cached { key: String },
    /// From the request itself.
    Inline { mjml: String },
}

/// Why a request was turned down.
#[derive(Debug, PartialEq, Eq)]
pub enum Rejection {
    /// A conversion names no template and brings no MJML.
    MissingInput,
    /// The template of a conversion was not cached and `file` could not be
    /// read.
    TemplateRead { file: String, reason: String },
    /// The placeholders could not be filled in.
    PlaceholderRendering { reason: String },
    /// What was to be converted is no MJML.
    InvalidMjml { reason: String },
    /// The MJML could not be rendered to HTML.
    MjmlRendering { reason: String },
    /// The template directory could not be listed.
    DirectoryRead { reason: String },
    /// A part of an upload has no file name.
    MissingFilename,
    /// A part of an upload is not plain text.
    InvalidFileType,
    /// An uploaded file is not UTF-8.
    InvalidEncoding,
    /// An uploaded file is no MJML.
    InvalidUpload,
    /// The file of an upload could not be created.
    FileCreation { reason: String },
    /// The file of an upload could not be written.
    FileWrite { reason: String },
    /// The file of an upload could not be flushed.
    FileFlush { reason: String },
}

/// The content type of an upload that names none, and the only one taken.
pub open spec fn plain_text() -> Seq<char> {
    "text/plain"@
}

/// The status a rejection is answered with: the request's fault where it
/// brought something unusable, the server's where reading, writing or filling
/// in failed.
pub open spec fn status_of(rejection: Rejection) -> u16 {
    match rejection {
        Rejection::MissingInput => BAD_REQUEST,
        Rejection::TemplateRead { .. } => INTERNAL_SERVER_ERROR,
        Rejection::PlaceholderRendering { .. } => INTERNAL_SERVER_ERROR,
        Rejection::InvalidMjml { .. } => BAD_REQUEST,
        Rejection::MjmlRendering { .. } => BAD_REQUEST,
        Rejection::DirectoryRead { .. } => INTERNAL_SERVER_ERROR,
        Rejection::MissingFilename => BAD_REQUEST,
        Rejection::InvalidFileType => BAD_REQUEST,
        Rejection::InvalidEncoding => BAD_REQUEST,
        Rejection::InvalidUpload => BAD_REQUEST,
        Rejection::FileCreation { .. } => INTERNAL_SERVER_ERROR,
        Rejection::FileWrite { .. } => INTERNAL_SERVER_ERROR,
        Rejection::FileFlush { .. } => INTERNAL_SERVER_ERROR,
    }
}

/// The message a rejection is answered with.
pub open spec fn message_of(rejection: Rejection) -> Seq<char> {
    match rejection {
        Rejection::MissingInput => "Missing MJML input"@,
        Rejection::TemplateRead { file, reason } => "Failed to read template file "@ + file@
            + ": "@ + reason@,
        Rejection::PlaceholderRendering { reason } => "Handlebars rendering error: "@ + reason@,
        Rejection::InvalidMjml { reason } => "Invalid MJML input: "@ + reason@,
        Rejection::MjmlRendering { reason } => "Couldn't render MJML template: "@ + reason@,
        Rejection::DirectoryRead { reason } => "Failed to read templates directory: "@ + reason@,
        Rejection::MissingFilename => "Missing filename"@,
        Rejection::InvalidFileType => "Invalid file type. Only text/plain is allowed."@,
        Rejection::InvalidEncoding => "Invalid UTF-8 encoding"@,
        Rejection::InvalidUpload => "Invalid MJML input"@,
        Rejection::FileCreation { reason } => "Failed to create file: "@ + reason@,
        Rejection::FileWrite { reason } => "Failed to write file: "@ + reason@,
        Rejection::FileFlush { reason } => "Failed to flush file: "@ + reason@,
    }
}

/// The file an upload named `file_name` is written to: below the template
/// directory, taken from the working directory.
pub open spec fn upload_file(template_dir: Seq<char>, file_name: Seq<char>) -> Seq<char> {
    "./"@ + template_dir + "/"@ + file_name
}

/// `String::from_utf8`: the text that `bytes` encode, where they are valid
/// UTF-8, and nothing where they are not.
#[verifier::external_body]
fn from_utf8(bytes: Vec<u8>) -> (decoded: Option<String>)
    ensures
        match decoded {
            Some(text) => valid_utf8(bytes@) && text@ == decode_utf8(bytes@),
            None => !valid_utf8(bytes@),
        },
{
    String::from_utf8(bytes).ok()
}

/// `head` followed by `tail`.
fn prefixed(head: &str, tail: &str) -> (text: String)
    ensures
        text@ == head@ + tail@,
{
    let mut text = head.to_owned();
    text.append(tail);
    text
}

impl Rejection {
    /// The status the rejection is answered with.
    pub fn status(&self) -> (status: u16)
        ensures
            status == status_of(*self),
    {
        match self {
            Rejection::MissingInput => BAD_REQUEST,
            Rejection::TemplateRead { .. } => INTERNAL_SERVER_ERROR,
            Rejection::PlaceholderRendering { .. } => INTERNAL_SERVER_ERROR,
            Rejection::InvalidMjml { .. } => BAD_REQUEST,
            Rejection::MjmlRendering { .. } => BAD_REQUEST,
            Rejection::DirectoryRead { .. } => INTERNAL_SERVER_ERROR,
            Rejection::MissingFilename => BAD_REQUEST,
            Rejection::InvalidFileType => BAD_REQUEST,
            Rejection::InvalidEncoding => BAD_REQUEST,
            Rejection::InvalidUpload => BAD_REQUEST,
            Rejection::FileCreation { .. } => INTERNAL_SERVER_ERROR,
            Rejection::FileWrite { .. } => INTERNAL_SERVER_ERROR,
            Rejection::FileFlush { .. } => INTERNAL_SERVER_ERROR,
        }
    }

    /// The message the rejection is answered with.
    pub fn message(&self) -> (message: String)
        ensures
            message@ == message_of(*self),
    {
        match self {
            Rejection::MissingInput => "Missing MJML input".to_owned(),
            Rejection::TemplateRead { file, reason } => {
                let mut message = prefixed("Failed to read template file ", file.as_str());
                message.append(": ");
                message.append(reason.as_str());
                message
            },
            Rejection::PlaceholderRendering { reason } => prefixed(
                "Handlebars rendering error: ",
                reason.as_str(),
            ),
            Rejection::InvalidMjml { reason } => prefixed("Invalid MJML input: ", reason.as_str()),
            Rejection::MjmlRendering { reason } => prefixed(
                "Couldn't render MJML template: ",
                reason.as_str(),
            ),
            Rejection::DirectoryRead { reason } => prefixed(
                "Failed to read templates directory: ",
                reason.as_str(),
            ),
            Rejection::MissingFilename => "Missing filename".to_owned(),
            Rejection::InvalidFileType => "Invalid file type. Only text/plain is allowed."
                .to_owned(),
            Rejection::InvalidEncoding => "Invalid UTF-8 encoding".to_owned(),
            Rejection::InvalidUpload => "Invalid MJML input".to_owned(),
            Rejection::FileCreation { reason } => prefixed(
                "Failed to create file: ",
                reason.as_str(),
            ),
            Rejection::FileWrite { reason } => prefixed("Failed to write file: ", reason.as_str()),
            Rejection::FileFlush { reason } => prefixed("Failed to flush file: ", reason.as_str()),
        }
    }
}

/// Tells where the MJML of a conversion comes from. A template that is named
/// goes before MJML that is brought along; a request with neither is turned
/// down.
pub fn choose_source(input: &MjmlInput) -> (chosen: Result<TemplateSource, Rejection>)
    ensures
        match input.template {
            Some(name) => chosen matches Ok(TemplateSource::Cached { key }) && key@ == name@,
            None => match input.mjml {
                Some(text) => chosen matches Ok(TemplateSource::Inline { mjml }) && mjml@
                    == text@,
                None => chosen == Err::<TemplateSource, Rejection>(Rejection::MissingInput),
            },
        },
{
    match &input.template {
        Some(name) => Ok(TemplateSource::Cached { key: name.clone() }),
        None => match &input.mjml {
            Some(text) => Ok(TemplateSource::Inline { mjml: text.clone() }),
            None => Err(Rejection::MissingInput),
        },
    }
}

/// Decides on one part of an upload by what it says of itself. A part
/// without a file name is turned down, and so is one whose content type is
/// given and is not plain text. Else the part is taken under its file name.
pub fn check_upload(file_name: Option<&str>, content_type: Option<&str>) -> (checked: Result<
    String,
    Rejection,
>)
    ensures
        match file_name {
            None => checked == Err::<String, Rejection>(Rejection::MissingFilename),
            Some(name) => if content_type matches Some(given) && given@ != plain_text() {
                checked == Err::<String, Rejection>(Rejection::InvalidFileType)
            } else {
                checked matches Ok(taken) && taken@ == name@
            },
        },
{
    match file_name {
        None => Err(Rejection::MissingFilename),
        Some(name) => {
            let plain = match content_type {
                Some(given) => given.to_owned() == "text/plain".to_owned(),
                None => true,
            };
            if plain {
                Ok(name.to_owned())
            } else {
                Err(Rejection::InvalidFileType)
            }
        },
    }
}

/// Reads an uploaded file as text. Bytes that are valid UTF-8 give the text
/// they encode; any others are turned down.
pub fn decode_upload(bytes: Vec<u8>) -> (decoded: Result<String, Rejection>)
    ensures
        match decoded {
            Ok(text) => valid_utf8(bytes@) && text@ == decode_utf8(bytes@),
            Err(rejection) => !valid_utf8(bytes@) && rejection == Rejection::InvalidEncoding,
        },
{
    match from_utf8(bytes) {
        Some(text) => Ok(text),
        None => Err(Rejection::InvalidEncoding),
    }
}

/// The file an upload named `file_name` is written to.
pub fn upload_path(template_dir: &str, file_name: &str) -> (file: String)
    ensures
        file@ == upload_file(template_dir@, file_name@),
{
    let mut file = prefixed("./", template_dir);
    file.append("/");
    file.append(file_name);
    file
}

} // verus!
