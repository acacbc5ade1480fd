use crate::endpoint::{
    api_root, api_root_spec, blob_reference, blob_reference_spec, join_url, manifest_reference,
    manifest_reference_spec, option_text, require_url, require_url_spec, url_join,
};
use crate::error::{ContainerError, ContainerErrorView};
use crate::text::{append_decimal, decimal, str_eq};
use crate::www_authenticate::parse_www_authenticate_spec;
use vstd::prelude::*;
use vstd::string::*;

pub use crate::www_authenticate::parse_www_authenticate;

verus! {

/// The media type of a manifest list, which names one manifest for each
/// platform of a tag.
pub const MIME_OCI_IMAGE_INDEX: &'static str =
    "application/vnd.docker.distribution.manifest.list.v2+json";

/// The architecture of the platform that images are run on.
pub const TARGET_ARCHITECTURE: &'static str = "amd64";

/// The operating system of the platform that images are run on.
pub const TARGET_OS: &'static str = "linux";

/// What a registry says of one stored object: its type, size and address.
#[derive(Debug, Clone, PartialEq, Eq)]
pub struct ManifestElement {
    pub media_type: String,
    pub size: usize,
    pub digest: String,
}

/// The platform that an image manifest is made for.
#[derive(Debug, Clone, PartialEq, Eq)]
pub struct ManifestPlatform {
    pub architecture: String,
    pub os: String,
}

/// One entry of a manifest list: an image manifest and its platform.
#[derive(Debug, Clone, PartialEq, Eq)]
pub struct Manifest {
    pub content: ManifestElement,
    pub platform: ManifestPlatform,
}

/// The two fields by which a manifest says what kind of document it is.
#[derive(Debug, Clone, PartialEq, Eq)]
pub struct ObjectType {
    pub schema_version: u8,
    pub media_type: String,
}

/// The manifest of one image: its configuration and its layers, lowest
/// first.
#[derive(Debug, Clone, PartialEq, Eq)]
pub struct ImageManifest {
    pub config: ManifestElement,
    pub layers: Vec<ManifestElement>,
    pub object_type: ObjectType,
}

/// The bytes of one layer: a compressed archive.
#[derive(Debug, Clone, PartialEq, Eq)]
pub struct ImageLayerData(pub Vec<u8>);

impl ObjectType {
    /// Whether a manifest of this kind is what a request for `mime_type`
    /// was to be answered with: a document of version 2 and of that type.
    pub open spec fn validate_spec(&self, mime_type: Seq<char>) -> Result<(), ContainerErrorView> {
        if self.schema_version != 2 {
            Err(ContainerErrorView::Manifest("Invalid version"@))
        } else if self.media_type@ != mime_type {
            Err(ContainerErrorView::Manifest("Invalid media type"@))
        } else {
            Ok(())
        }
    }

    /// Checks a decoded manifest against the media type that was asked for.
    pub fn validate(&self, mime_type: &str) -> (r: Result<(), ContainerError>)
        ensures
            match r {
                Ok(_) => self.validate_spec(mime_type@) is Ok,
                Err(e) => self.validate_spec(mime_type@) == Err::<(), ContainerErrorView>(e@),
            },
    {
        if self.schema_version != 2 {
            return Err(ContainerError::Manifest("Invalid version"));
        }
        if !str_eq(self.media_type.as_str(), mime_type) {
            return Err(ContainerError::Manifest("Invalid media type"));
        }
        Ok(())
    }
}

/// A manifest is accepted exactly when it is of version 2 and of the media
/// type that was asked for; one of another version is refused for its
/// version whatever else it holds, one of another type for its type, and
/// both refusals are of the manifest kind.
pub proof fn lemma_manifest_contract(kind: ObjectType, mime_type: Seq<char>)
    ensures
        kind.validate_spec(mime_type) is Ok <==> kind.schema_version == 2 && kind.media_type@
            == mime_type,
        kind.schema_version != 2 ==> kind.validate_spec(mime_type) == Err::<
            (),
            ContainerErrorView,
        >(ContainerErrorView::Manifest("Invalid version"@)),
        kind.schema_version == 2 && kind.media_type@ != mime_type ==> kind.validate_spec(mime_type)
            == Err::<(), ContainerErrorView>(ContainerErrorView::Manifest("Invalid media type"@)),
        kind.validate_spec(mime_type) is Err ==> kind.validate_spec(mime_type)->Err_0 is Manifest,
{
}

impl ImageManifest {
    /// Whether the manifest is what a request for `media_type` was to be
    /// answered with: a document of version 2 that says it is of that type.
    pub open spec fn conforms(&self, media_type: Seq<char>) -> bool {
        self.object_type.schema_version == 2 && self.object_type.media_type@ == media_type
    }

    /// Hands a decoded manifest on where it is what `manifest` announced: a
    /// document of version 2 and of the announced media type.
    pub fn checked(self, manifest: &Manifest) -> (r: Result<ImageManifest, ContainerError>)
        ensures
            match r {
                Ok(kept) => kept == self && kept.conforms(manifest.content.media_type@),
                Err(e) => !self.conforms(manifest.content.media_type@)
                    && self.object_type.validate_spec(manifest.content.media_type@) == Err::<
                    (),
                    ContainerErrorView,
                >(e@),
            },
    {
        match self.object_type.validate(manifest.content.media_type.as_str()) {
            Ok(_) => Ok(self),
            Err(e) => Err(e),
        }
    }

    /// The layer that is fetched and unpacked: the first one, if there is
    /// any.
    pub fn first_layer(&self) -> (r: Option<&ManifestElement>)
        ensures
            match r {
                Some(layer) => self.layers.len() > 0 && *layer == self.layers[0],
                None => self.layers.len() == 0,
            },
    {
        if self.layers.len() > 0 {
            Some(&self.layers[0])
        } else {
            None
        }
    }
}

/// Whether `manifest` is made for the platform given.
pub open spec fn runs_on(manifest: Manifest, architecture: Seq<char>, os: Seq<char>) -> bool {
    manifest.platform.architecture@ == architecture && manifest.platform.os@ == os
}

/// Whether `manifests[i]` is the first of `manifests` made for the platform
/// given.
pub open spec fn is_first_on(
    manifests: Seq<Manifest>,
    i: int,
    architecture: Seq<char>,
    os: Seq<char>,
) -> bool {
    &&& 0 <= i < manifests.len()
    &&& runs_on(manifests[i], architecture, os)
    &&& forall|j: int| 0 <= j < i ==> !runs_on(#[trigger] manifests[j], architecture, os)
}

/// A list has at most one first manifest for a platform: the choice among
/// its entries is determined.
pub proof fn lemma_first_is_determined(
    manifests: Seq<Manifest>,
    i: int,
    j: int,
    architecture: Seq<char>,
    os: Seq<char>,
)
    requires
        is_first_on(manifests, i, architecture, os),
        is_first_on(manifests, j, architecture, os),
    ensures
        i == j,
{
}

/// Picks from a manifest list the first entry made for the platform given;
/// `None` says that the list has no such entry.
pub fn select_platform<'a>(manifests: &'a Vec<Manifest>, architecture: &str, os: &str) -> (r:
    Option<&'a Manifest>)
    ensures
        match r {
            Some(found) => exists|i: int|
                is_first_on(manifests@, i, architecture@, os@) && *found == manifests@[i],
            None => forall|i: int|
                0 <= i < manifests.len() ==> !runs_on(#[trigger] manifests@[i], architecture@, os@),
        },
{
    let mut i: usize = 0;
    while i < manifests.len()
        invariant
            i <= manifests.len(),
            forall|j: int| 0 <= j < i ==> !runs_on(#[trigger] manifests@[j], architecture@, os@),
        decreases manifests.len() - i,
    {
        let manifest = &manifests[i];
        if str_eq(manifest.platform.architecture.as_str(), architecture) && str_eq(
            manifest.platform.os.as_str(),
            os,
        ) {
            assert(is_first_on(manifests@, i as int, architecture@, os@));
            return Some(manifest);
        }
        i = i + 1;
    }
    None
}

/// Picks from a manifest list the entry that is run: the first one made for
/// `amd64` and `linux`.
pub fn select_target<'a>(manifests: &'a Vec<Manifest>) -> (r: Option<&'a Manifest>)
    ensures
        match r {
            Some(found) => exists|i: int|
                is_first_on(manifests@, i, TARGET_ARCHITECTURE@, TARGET_OS@) && *found
                    == manifests@[i],
            None => forall|i: int|
                0 <= i < manifests.len() ==> !runs_on(
                    #[trigger] manifests@[i],
                    TARGET_ARCHITECTURE@,
                    TARGET_OS@,
                ),
        },
{
    select_platform(manifests, TARGET_ARCHITECTURE, TARGET_OS)
}

/// A session with one repository of a registry: where its API is, the
/// token that opens it, and the tag that is pulled.
#[derive(Debug, Clone, PartialEq, Eq)]
pub struct RegistryClient {
    api_url: String,
    token: Option<String>,
    tag: String,
}

/// The mathematical value of a [`RegistryClient`].
pub struct RegistryClientView {
    pub api_url: Seq<char>,
    pub token: Option<Seq<char>>,
    pub tag: Seq<char>,
}

impl View for RegistryClient {
    type V = RegistryClientView;

    closed spec fn view(&self) -> RegistryClientView {
        RegistryClientView {
            api_url: self.api_url@,
            token: option_text(self.token),
            tag: self.tag@,
        }
    }
}

/// A request that a session asks its caller to send: a GET of `url` that
/// accepts `accept` and carries `bearer` as its bearer token.
#[derive(Debug, Clone, PartialEq, Eq)]
pub struct RegistryRequest {
    pub url: String,
    pub accept: String,
    pub bearer: String,
}

/// The token that a request carries: the session's, or the empty text where
/// the registry asked for none.
pub open spec fn bearer_spec(token: Option<Seq<char>>) -> Seq<char> {
    match token {
        Some(text) => text,
        None => Seq::empty(),
    }
}

/// The address that a session is first probed at: that of the manifest of
/// `tag`, below the API root of the repository.
pub open spec fn probe_url_spec(url: Seq<char>, image_name: Seq<char>, tag: Seq<char>) -> Result<
    Seq<char>,
    ContainerErrorView,
> {
    match api_root_spec(url, image_name) {
        Ok(root) => require_url_spec(
            url_join(root, manifest_reference_spec(tag)),
            "Cannot join url with manifest"@,
        ),
        Err(e) => Err(e),
    }
}

/// Whether `r` is what a session hands out when asked for `reference`: the
/// request for it, or the failure to resolve it, with `complaint` as its
/// reason.
pub open spec fn is_request_for(
    r: Result<RegistryRequest, ContainerError>,
    client: RegistryClientView,
    reference: Seq<char>,
    accept: Seq<char>,
    complaint: Seq<char>,
) -> bool {
    match r {
        Ok(request) => {
            &&& url_join(client.api_url, reference) == Some(request.url@)
            &&& request.accept@ == accept
            &&& request.bearer@ == bearer_spec(client.token)
        },
        Err(e) => {
            &&& url_join(client.api_url, reference) is None
            &&& e@ == ContainerErrorView::Auth(complaint)
        },
    }
}

impl RegistryClient {
    /// The address at which a session with the repository `image_name` of
    /// the registry `url` is probed for the need of a token.
    pub fn probe_url(url: &str, image_name: &str, tag: &str) -> (r: Result<String, ContainerError>)
        ensures
            match r {
                Ok(probe) => probe_url_spec(url@, image_name@, tag@) == Ok::<
                    Seq<char>,
                    ContainerErrorView,
                >(probe@),
                Err(e) => probe_url_spec(url@, image_name@, tag@) == Err::<
                    Seq<char>,
                    ContainerErrorView,
                >(e@),
            },
    {
        let root = match api_root(url, image_name) {
            Ok(root) => root,
            Err(e) => {
                return Err(e);
            },
        };
        let reference = manifest_reference(tag);
        require_url(
            join_url(root.as_str(), reference.as_str()),
            "Cannot join url with manifest",
        )
    }

    /// Opens the session with the repository `image_name` of the registry
    /// `url`, for the tag `tag`, once the registry has been probed and has
    /// handed out `token`, or has asked for none.
    pub fn authenticated(url: &str, image_name: &str, tag: &str, token: Option<String>) -> (r:
        Result<RegistryClient, ContainerError>)
        ensures
            match r {
                Ok(client) => {
                    &&& probe_url_spec(url@, image_name@, tag@) is Ok
                    &&& api_root_spec(url@, image_name@) == Ok::<Seq<char>, ContainerErrorView>(
                        client@.api_url,
                    )
                    &&& client@.token == option_text(token)
                    &&& client@.tag == tag@
                },
                Err(e) => probe_url_spec(url@, image_name@, tag@) == Err::<
                    Seq<char>,
                    ContainerErrorView,
                >(e@),
            },
    {
        let api_url = match api_root(url, image_name) {
            Ok(root) => root,
            Err(e) => {
                return Err(e);
            },
        };
        let reference = manifest_reference(tag);
        match require_url(
            join_url(api_url.as_str(), reference.as_str()),
            "Cannot join url with manifest",
        ) {
            Ok(_) => Ok(RegistryClient { api_url, token, tag: String::from_str(tag) }),
            Err(e) => Err(e),
        }
    }

    /// The API root of the repository.
    pub fn api_url(&self) -> (r: &str)
        ensures
            r@ == self@.api_url,
    {
        self.api_url.as_str()
    }

    /// The tag that is pulled.
    pub fn tag(&self) -> (r: &str)
        ensures
            r@ == self@.tag,
    {
        self.tag.as_str()
    }

    /// The bearer token that the session's requests carry.
    pub fn bearer(&self) -> (r: &str)
        ensures
            r@ == bearer_spec(self@.token),
    {
        match &self.token {
            Some(token) => token.as_str(),
            None => {
                proof {
                    reveal_strlit("");
                    assert(""@ =~= Seq::<char>::empty());
                }
                ""
            },
        }
    }

    /// The request for `reference`, below the API root.
    fn request(&self, reference: &str, accept: &str, complaint: &'static str) -> (r: Result<
        RegistryRequest,
        ContainerError,
    >)
        ensures
            is_request_for(r, self@, reference@, accept@, complaint@),
    {
        match require_url(join_url(self.api_url.as_str(), reference), complaint) {
            Ok(url) => Ok(
                RegistryRequest {
                    url,
                    accept: String::from_str(accept),
                    bearer: String::from_str(self.bearer()),
                },
            ),
            Err(e) => Err(e),
        }
    }

    /// The request for the manifest list of the session's tag.
    pub fn list_manifests(&self) -> (r: Result<RegistryRequest, ContainerError>)
        ensures
            is_request_for(
                r,
                self@,
                manifest_reference_spec(self@.tag),
                MIME_OCI_IMAGE_INDEX@,
                "Cannot join url with manifest"@,
            ),
    {
        let reference = manifest_reference(self.tag.as_str());
        self.request(reference.as_str(), MIME_OCI_IMAGE_INDEX, "Cannot join url with manifest")
    }

    /// The request for the image manifest that `manifest` announces, by its
    /// digest and for its media type.
    pub fn read_image_manifest(&self, manifest: &Manifest) -> (r: Result<
        RegistryRequest,
        ContainerError,
    >)
        ensures
            is_request_for(
                r,
                self@,
                manifest_reference_spec(manifest.content.digest@),
                manifest.content.media_type@,
                "Cannot join url with manifest"@,
            ),
    {
        let reference = manifest_reference(manifest.content.digest.as_str());
        self.request(
            reference.as_str(),
            manifest.content.media_type.as_str(),
            "Cannot join url with manifest",
        )
    }

    /// The request for the blob that `element` announces, by its digest and
    /// for its media type.
    pub fn read_blob(&self, element: &ManifestElement) -> (r: Result<
        RegistryRequest,
        ContainerError,
    >)
        ensures
            is_request_for(
                r,
                self@,
                blob_reference_spec(element.digest@),
                element.media_type@,
                "Cannot join url with blobs"@,
            ),
    {
        let reference = blob_reference(element.digest.as_str());
        self.request(reference.as_str(), element.media_type.as_str(), "Cannot join url with blobs")
    }
}

/// Whether a status says that a request was served: one from 200 to 299.
pub open spec fn is_success(status: u16) -> bool {
    200 <= status <= 299
}

/// What the answer to a request for a document or a blob comes to, by its
/// status: any status but one of success is a failure of the transport,
/// which names the status.
pub open spec fn check_status_spec(status: u16) -> Result<(), ContainerErrorView> {
    if is_success(status) {
        Ok(())
    } else {
        Err(ContainerErrorView::Http("unexpected status "@ + decimal(status as nat)))
    }
}

/// Refuses the answer to a request for a document or a blob unless its
/// status is one of success.
pub fn check_status(status: u16) -> (r: Result<(), ContainerError>)
    ensures
        match r {
            Ok(_) => check_status_spec(status) is Ok,
            Err(e) => check_status_spec(status) == Err::<(), ContainerErrorView>(e@),
        },
{
    if 200 <= status && status <= 299 {
        Ok(())
    } else {
        let mut message = String::from_str("unexpected status ");
        append_decimal(&mut message, status);
        Err(ContainerError::Http(message))
    }
}

/// What is to be done about a token after the first probe of a registry.
#[derive(Debug, Clone, PartialEq, Eq)]
pub enum TokenQuery {
    /// The registry serves the repository without a token.
    NotNeeded,
    /// A token is to be asked for at this address.
    AskAt(String),
}

/// The mathematical value of a [`TokenQuery`].
pub enum TokenQueryView {
    NotNeeded,
    AskAt(Seq<char>),
}

impl View for TokenQuery {
    type V = TokenQueryView;

    open spec fn view(&self) -> TokenQueryView {
        match *self {
            TokenQuery::NotNeeded => TokenQueryView::NotNeeded,
            TokenQuery::AskAt(url) => TokenQueryView::AskAt(url@),
        }
    }
}

/// The characters of a header's value that may be absent.
pub open spec fn option_str(text: Option<&str>) -> Option<Seq<char>> {
    match text {
        Some(s) => Some(s@),
        None => None,
    }
}

/// The address of the token service that a challenge names; a response
/// without a readable `WWW-Authenticate` header names none.
pub open spec fn parse_auth_addr_spec(www_authenticate: Option<Seq<char>>) -> Result<
    Seq<char>,
    ContainerErrorView,
> {
    match www_authenticate {
        Some(header) => parse_www_authenticate_spec(header),
        None => Err(ContainerErrorView::Auth("Missing www-authenticate header"@)),
    }
}

/// What the first probe of a registry calls for, by the status it was
/// answered with: nothing on 200, a token on 401, and no other status is
/// handled.
pub open spec fn query_auth_token_spec(status: u16, www_authenticate: Option<Seq<char>>) -> Result<
    TokenQueryView,
    ContainerErrorView,
> {
    if status == 401 {
        match parse_auth_addr_spec(www_authenticate) {
            Ok(url) => Ok(TokenQueryView::AskAt(url)),
            Err(e) => Err(e),
        }
    } else if status == 200 {
        Ok(TokenQueryView::NotNeeded)
    } else {
        Err(ContainerErrorView::UnhandledStatusCode(status))
    }
}

/// Reads the address of the token service out of the `WWW-Authenticate`
/// header of a response, given as `None` where the response has no such
/// header or one that is no text.
pub fn parse_auth_addr(www_authenticate: Option<&str>) -> (r: Result<String, ContainerError>)
    ensures
        match r {
            Ok(url) => parse_auth_addr_spec(option_str(www_authenticate)) == Ok::<
                Seq<char>,
                ContainerErrorView,
            >(url@),
            Err(e) => parse_auth_addr_spec(option_str(www_authenticate)) == Err::<
                Seq<char>,
                ContainerErrorView,
            >(e@),
        },
{
    match www_authenticate {
        Some(header) => parse_www_authenticate(header),
        None => Err(ContainerError::Auth("Missing www-authenticate header")),
    }
}

/// Decides what the answer to the first, unauthenticated probe of a
/// registry calls for, from its status and its `WWW-Authenticate` header.
pub fn query_auth_token(status: u16, www_authenticate: Option<&str>) -> (r: Result<
    TokenQuery,
    ContainerError,
>)
    ensures
        match r {
            Ok(query) => query_auth_token_spec(status, option_str(www_authenticate)) == Ok::<
                TokenQueryView,
                ContainerErrorView,
            >(query@),
            Err(e) => query_auth_token_spec(status, option_str(www_authenticate)) == Err::<
                TokenQueryView,
                ContainerErrorView,
            >(e@),
        },
{
    if status == 401 {
        match parse_auth_addr(www_authenticate) {
            Ok(url) => Ok(TokenQuery::AskAt(url)),
            Err(e) => Err(e),
        }
    } else if status == 200 {
        Ok(TokenQuery::NotNeeded)
    } else {
        Err(ContainerError::UnhandledStatusCode(status))
    }
}

} // verus!
