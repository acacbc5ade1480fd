use crate::error::{ContainerError, ContainerErrorView};
use reqwest::Url;
use vstd::prelude::*;
use vstd::string::*;

verus! {

/// What `Url::parse` makes of `input`: the text of the URL it reads, or
/// `None` where it reads none.
pub uninterp spec fn url_parse(input: Seq<char>) -> Option<Seq<char>>;

/// What `Url::has_host` says of the URL with the text `url`; `false` where
/// `url` is not the text of a URL.
pub uninterp spec fn url_has_host(url: Seq<char>) -> bool;

/// What `Url::join` makes of `reference` on the URL with the text `base`:
/// the text of the URL it resolves to, or `None` where it resolves to none
/// or `base` is not the text of a URL.
pub uninterp spec fn url_join(base: Seq<char>, reference: Seq<char>) -> Option<Seq<char>>;

/// Calls `Url::parse` and hands back the text of the URL. Nothing is claimed
/// of which inputs are URLs or of what the text is, only that both depend on
/// `input` alone.
#[verifier::external_body]
pub(crate) fn parse_url(input: &str) -> (r: Option<String>)
    ensures
        match r {
            Some(text) => url_parse(input@) == Some(text@),
            None => url_parse(input@) is None,
        },
{
    match Url::parse(input) {
        Ok(url) => Some(String::from(url)),
        Err(_) => None,
    }
}

/// Calls `Url::has_host` on the URL with the text `url`. Nothing is claimed
/// of which URLs have a host, only that the answer depends on `url` alone.
#[verifier::external_body]
pub(crate) fn has_host(url: &str) -> (r: bool)
    ensures
        r == url_has_host(url@),
{
    match Url::parse(url) {
        Ok(parsed) => parsed.has_host(),
        Err(_) => false,
    }
}

/// Calls `Url::join` on the URL with the text `base` and hands back the text
/// of the URL it resolves `reference` to. Nothing is claimed of what that
/// text is, only that it depends on `base` and `reference` alone.
#[verifier::external_body]
pub(crate) fn join_url(base: &str, reference: &str) -> (r: Option<String>)
    ensures
        match r {
            Some(text) => url_join(base@, reference@) == Some(text@),
            None => url_join(base@, reference@) is None,
        },
{
    match Url::parse(base) {
        Ok(parsed) => match parsed.join(reference) {
            Ok(url) => Some(String::from(url)),
            Err(_) => None,
        },
        Err(_) => None,
    }
}

/// The base of a registry, as a request can use it: what `input` parses to,
/// where that is a URL with a host.
pub open spec fn base_url_spec(input: Seq<char>) -> Option<Seq<char>> {
    match url_parse(input) {
        Some(text) => hosted_only_spec(text, url_has_host(text)),
        None => None,
    }
}

/// `text` where `hosted` holds, nothing otherwise.
pub open spec fn hosted_only_spec(text: Seq<char>, hosted: bool) -> Option<Seq<char>> {
    if hosted {
        Some(text)
    } else {
        None
    }
}

/// `url` where it is there, and otherwise the failure to build a URL, with
/// `complaint` as its reason.
pub open spec fn require_url_spec(url: Option<Seq<char>>, complaint: Seq<char>) -> Result<
    Seq<char>,
    ContainerErrorView,
> {
    match url {
        Some(text) => Ok(text),
        None => Err(ContainerErrorView::Auth(complaint)),
    }
}

/// Keeps the text of a URL only where the URL has a host.
pub fn hosted_only(text: String, hosted: bool) -> (r: Option<String>)
    ensures
        match r {
            Some(kept) => hosted_only_spec(text@, hosted) == Some(kept@),
            None => hosted_only_spec(text@, hosted) is None,
        },
{
    if hosted {
        Some(text)
    } else {
        None
    }
}

/// Turns a URL that could not be built into the error that says so.
pub fn require_url(url: Option<String>, complaint: &'static str) -> (r: Result<
    String,
    ContainerError,
>)
    ensures
        match r {
            Ok(text) => require_url_spec(option_text(url), complaint@) == Ok::<
                Seq<char>,
                ContainerErrorView,
            >(text@),
            Err(e) => require_url_spec(option_text(url), complaint@) == Err::<
                Seq<char>,
                ContainerErrorView,
            >(e@),
        },
{
    match url {
        Some(text) => Ok(text),
        None => Err(ContainerError::Auth(complaint)),
    }
}

/// The characters of a text that may be absent.
pub open spec fn option_text(text: Option<String>) -> Option<Seq<char>> {
    match text {
        Some(s) => Some(s@),
        None => None,
    }
}

/// Reads the base of a registry: a URL with a host.
pub fn base_url(input: &str) -> (r: Option<String>)
    ensures
        option_text(r) == base_url_spec(input@),
{
    match parse_url(input) {
        Some(text) => {
            let hosted = has_host(text.as_str());
            hosted_only(text, hosted)
        },
        None => None,
    }
}

/// The path of a repository's API below the base of a registry.
pub open spec fn library_path_spec(image_name: Seq<char>) -> Seq<char> {
    "/v2/library/"@ + image_name + "/"@
}

/// Where a manifest is found below a repository's API root, by tag or by
/// digest.
pub open spec fn manifest_reference_spec(reference: Seq<char>) -> Seq<char> {
    "manifests/"@ + reference
}

/// Where a blob is found below a repository's API root.
pub open spec fn blob_reference_spec(digest: Seq<char>) -> Seq<char> {
    "blobs/"@ + digest
}

/// The API root of a repository: `/v2/library/`, the repository's name and a
/// slash, resolved on the base of the registry.
pub open spec fn api_root_spec(url: Seq<char>, image_name: Seq<char>) -> Result<
    Seq<char>,
    ContainerErrorView,
> {
    match require_url_spec(base_url_spec(url), "Invalid base URL"@) {
        Ok(base) => require_url_spec(
            url_join(base, library_path_spec(image_name)),
            "Cannot join url with manifest"@,
        ),
        Err(e) => Err(e),
    }
}

/// Builds the path of a repository's API.
pub fn library_path(image_name: &str) -> (path: String)
    ensures
        path@ == library_path_spec(image_name@),
{
    let mut path = String::from_str("/v2/library/");
    path.append(image_name);
    path.append("/");
    path
}

/// Builds the reference to a manifest, by tag or by digest.
pub fn manifest_reference(reference: &str) -> (path: String)
    ensures
        path@ == manifest_reference_spec(reference@),
{
    let mut path = String::from_str("manifests/");
    path.append(reference);
    path
}

/// Builds the reference to a blob.
pub fn blob_reference(digest: &str) -> (path: String)
    ensures
        path@ == blob_reference_spec(digest@),
{
    let mut path = String::from_str("blobs/");
    path.append(digest);
    path
}

/// Builds the API root of the repository `image_name` at the registry
/// `url`.
pub fn api_root(url: &str, image_name: &str) -> (r: Result<String, ContainerError>)
    ensures
        match r {
            Ok(root) => api_root_spec(url@, image_name@) == Ok::<Seq<char>, ContainerErrorView>(
                root@,
            ),
            Err(e) => api_root_spec(url@, image_name@) == Err::<Seq<char>, ContainerErrorView>(
                e@,
            ),
        },
{
    let base = match require_url(base_url(url), "Invalid base URL") {
        Ok(base) => base,
        Err(e) => {
            return Err(e);
        },
    };
    let path = library_path(image_name);
    require_url(join_url(base.as_str(), path.as_str()), "Cannot join url with manifest")
}

} // verus!
