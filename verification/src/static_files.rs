use crate::types::text::{replace_text, replaced};
use vstd::prelude::*;
use vstd::string::StringExecFns;

verus! {

/// Serves the files below one directory.
#[derive(Debug)]
pub struct StaticFileServer {}

/// The directory whose files are served.
#[derive(Debug)]
pub struct StaticRouterConfig {
    pub root_path: String,
}

/// What the path of a page of the web client names.
#[derive(Debug)]
pub struct PathData {
    pub display_calendar: Option<String>,
}

/// The media type that `mime_guess` has for the extension of a path, if it
/// has one.
pub uninterp spec fn guessed_mime(path: Seq<char>) -> Option<Seq<char>>;

/// `mime_guess::from_path(..).first_raw()`: the first media type that the
/// crate's table holds for the extension of the path. The disk is not
/// looked at.
#[verifier::external_body]
fn guess_mime(path: &str) -> (r: Option<String>)
    ensures
        match r {
            Some(mime) => guessed_mime(path@) == Some(mime@),
            None => guessed_mime(path@) is None,
        },
{
    match mime_guess::from_path(path).first_raw() {
        Some(mime) => Some(mime.to_string()),
        None => None,
    }
}

impl StaticFileServer {
    /// The media type under which a file is sent: the one that its
    /// extension stands for, or that of arbitrary bytes.
    pub open spec fn content_type_for(guess: Option<Seq<char>>) -> Seq<char> {
        match guess {
            Some(mime) => mime,
            None => "application/octet-stream"@,
        }
    }

    /// The media type under which the file at `path` is sent.
    pub fn content_type(path: &str) -> (r: String)
        ensures
            r@ == Self::content_type_for(guessed_mime(path@)),
    {
        Self::content_type_of(guess_mime(path))
    }

    /// The media type under which a file is sent, given what its extension
    /// stands for.
    pub fn content_type_of(guess: Option<String>) -> (r: String)
        ensures
            r@ == Self::content_type_for(
                match guess {
                    Some(mime) => Some(mime@),
                    None => None,
                },
            ),
    {
        match guess {
            Some(mime) => mime,
            None => "application/octet-stream".to_owned(),
        }
    }

    /// The page of the web client with what it needs to know put in: each
    /// empty `data-app_config` of the page is given the settings.
    pub fn page_with(index: &str, settings: &str) -> (r: String)
        ensures
            r@ == replaced(
                index@,
                "data-app_config='{}'"@,
                "data-app_config='"@ + settings@ + "'"@,
            ),
    {
        proof {
            reveal_strlit("data-app_config='{}'");
        }
        let mut filled = "data-app_config='".to_owned();
        filled.append(settings);
        filled.append("'");
        replace_text(index, "data-app_config='{}'", filled.as_str())
    }

    /// The header that makes a browser save the file under its name.
    pub fn content_disposition(file_name: &str) -> (r: String)
        ensures
            r@ == "attachment; filename=\""@ + file_name@ + "\""@,
    {
        let mut out = "attachment; filename=\"".to_owned();
        out.append(file_name);
        out.append("\"");
        out
    }
}

} // verus!
