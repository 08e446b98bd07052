//! Where a finished replay file is sent, and under which names.
//!
//! The file goes out as one part of a multipart form, posted to the upload
//! route of the server.  Only the request is made up here; sending it is the
//! caller's part, and whatever goes wrong there is dropped without a retry.

use crate::path::{file_name_of, PathView, WatchPath};
use vstd::prelude::*;
use vstd::string::StringExecFns;

verus! {

/// The environment variable that overrides the server's base URL.
pub const SERVER_URL_VARIABLE: &'static str = "MELEE_TV_UPLOAD_URL";

/// The server's base URL in a development build.
pub const DEVELOPMENT_SERVER_URL: &'static str = "http://localhost:3000";

/// The server's base URL in a release build.
pub const PRODUCTION_SERVER_URL: &'static str = "https://meleetv.boilerroom.tech";

/// The route that takes uploads, below the base URL.
pub const UPLOAD_ROUTE: &'static str = "/upload";

/// The name of the form field that carries the file.
pub const UPLOAD_FIELD: &'static str = "file";

/// The base URL in force: the override where one is set and not empty,
/// else the default of the kind of build.
pub open spec fn server_url(override_url: Option<Seq<char>>, development: bool) -> Seq<char> {
    match override_url {
        Some(url) if url.len() > 0 => url,
        _ => if development {
            DEVELOPMENT_SERVER_URL@
        } else {
            PRODUCTION_SERVER_URL@
        },
    }
}

/// The view of an override that may be absent.
pub open spec fn override_view(override_url: Option<String>) -> Option<Seq<char>> {
    match override_url {
        Some(url) => Some(url@),
        None => None,
    }
}

/// Settles the server's base URL.  `override_url` is the value of
/// [`SERVER_URL_VARIABLE`] where it is set; `development` says whether this
/// is a development build.
pub fn resolve_server_url(override_url: Option<String>, development: bool) -> (url: String)
    ensures
        url@ == server_url(override_view(override_url), development),
{
    if let Some(val) = override_url {
        if !val.as_str().is_empty() {
            return val;
        }
    }
    if development {
        String::from_str(DEVELOPMENT_SERVER_URL)
    } else {
        String::from_str(PRODUCTION_SERVER_URL)
    }
}

/// The URL that uploads are posted to, given the server's base URL.
pub fn upload_url(base: &str) -> (url: String)
    ensures
        url@ == base@ + UPLOAD_ROUTE@,
{
    String::from_str(base).concat(UPLOAD_ROUTE)
}

/// One upload, ready to be sent: a POST of a multipart form with a single
/// part.
#[derive(Debug)]
pub struct UploadRequest {
    /// Where the form is posted.
    pub url: String,
    /// The name of the part.
    pub field: String,
    /// The file name that the part declares, where the path has one.
    pub file_name: Option<String>,
    /// The file whose bytes make up the part.
    pub path: WatchPath,
}

/// The mathematical value of an [`UploadRequest`].
pub struct UploadRequestView {
    pub url: Seq<char>,
    pub field: Seq<char>,
    pub file_name: Option<Seq<char>>,
    pub path: PathView,
}

impl View for UploadRequest {
    type V = UploadRequestView;

    open spec fn view(&self) -> UploadRequestView {
        UploadRequestView {
            url: self.url@,
            field: self.field@,
            file_name: match self.file_name {
                Some(name) => Some(name@),
                None => None,
            },
            path: self.path@,
        }
    }
}

/// The request that uploads `path` to the server at `base`.
pub open spec fn upload_of(path: PathView, base: Seq<char>) -> UploadRequestView {
    UploadRequestView {
        url: base + UPLOAD_ROUTE@,
        field: UPLOAD_FIELD@,
        file_name: file_name_of(path),
        path,
    }
}

/// Makes up the request that uploads the file at `path`: a form with the
/// file in the field [`UPLOAD_FIELD`], under its own name, posted to the
/// upload route of the server.
pub fn upload_file(path: WatchPath, override_url: Option<String>, development: bool) -> (request:
    UploadRequest)
    ensures
        request@ == upload_of(path@, server_url(override_view(override_url), development)),
{
    let base = resolve_server_url(override_url, development);
    let file_name = match path.file_name() {
        Some(name) => Some(name.clone()),
        None => None,
    };
    UploadRequest {
        url: upload_url(base.as_str()),
        field: String::from_str(UPLOAD_FIELD),
        file_name,
        path,
    }
}

} // verus!
