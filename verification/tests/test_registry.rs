use docker_starter_rust::registry::{
    check_status, parse_auth_addr, parse_www_authenticate, query_auth_token, select_platform, select_target,
    ImageLayerData, ImageManifest, Manifest, ManifestElement, ManifestPlatform, ObjectType,
    RegistryClient, RegistryRequest, TokenQuery, MIME_OCI_IMAGE_INDEX,
};
use docker_starter_rust::ContainerError;

const URL: &str = "https://registry.hub.docker.com";

const MANIFEST_V2: &str = "application/vnd.docker.distribution.manifest.v2+json";

const LAYER: &str = "application/vnd.docker.image.rootfs.diff.tar.gzip";

fn element(media_type: &str, size: usize, digest: &str) -> ManifestElement {
    ManifestElement { media_type: media_type.to_string(), size, digest: digest.to_string() }
}

fn descriptor(digest: &str, architecture: &str, os: &str) -> Manifest {
    Manifest {
        content: element(MANIFEST_V2, 529, digest),
        platform: ManifestPlatform { architecture: architecture.to_string(), os: os.to_string() },
    }
}

fn image_manifest(schema_version: u8, media_type: &str) -> ImageManifest {
    ImageManifest {
        config: element("application/vnd.docker.container.image.v1+json", 1469, "sha256:c0"),
        layers: vec![element(LAYER, 2811478, "sha256:1a"), element(LAYER, 120, "sha256:2b")],
        object_type: ObjectType { schema_version, media_type: media_type.to_string() },
    }
}

#[test]
fn parse_parse_www_authenticate_invalid() {
    assert_eq!(parse_www_authenticate(""), Err(ContainerError::Auth("Invalid auth type")));

    assert_eq!(
        parse_www_authenticate("Bearer "),
        Err(ContainerError::Auth("Missing ww-auth realm param"))
    );

    assert_eq!(
        parse_www_authenticate("Bearer realm"),
        Err(ContainerError::Auth("Missing www-auth param value"))
    );
}

#[test]
fn parse_parse_www_authenticate_valid() {
    assert_eq!(parse_www_authenticate("Bearer realm=hello").as_deref(), Ok("hello"));

    assert_eq!(
        parse_www_authenticate(
            r#"Bearer realm=https://auth.docker.io/token,service="registry.docker.io""#
        )
        .as_deref(),
        Ok("https://auth.docker.io/token?service=registry.docker.io")
    );

    assert_eq!(
        parse_www_authenticate(
            r#"Bearer realm="https://auth.docker.io/token",service="registry.docker.io""#
        )
        .as_deref(),
        Ok("https://auth.docker.io/token?service=registry.docker.io")
    );

    assert_eq!(
        parse_www_authenticate(
            r#"Bearer service="registry.docker.io",realm="https://auth.docker.io/token""#
        )
        .as_deref(),
        Ok("https://auth.docker.io/token?service=registry.docker.io")
    );

    assert_eq!(
        parse_www_authenticate(
            r#"Bearer realm="https://auth.docker.io/token",service="registry.docker.io",scope="repository:samalba/my-app:pull""#
        )
        .as_deref(),
        Ok("https://auth.docker.io/token?scope=repository:samalba/my-app:pull&service=registry.docker.io")
    );
}

#[test]
fn header_of_another_scheme_is_refused() {
    let refused = Err(ContainerError::Auth("Invalid auth type"));
    assert_eq!(parse_www_authenticate("Basic x"), refused);
    assert_eq!(parse_www_authenticate("Basic realm=hello"), refused);
    assert_eq!(parse_www_authenticate("Bearer"), refused);
    assert_eq!(parse_www_authenticate("bearer realm=hello"), refused);
    assert_eq!(parse_www_authenticate("BEARER realm=hello"), refused);
    assert_eq!(parse_www_authenticate(" Bearer realm=hello"), refused);
    assert_eq!(parse_www_authenticate("Bearer\trealm=hello"), refused);
}

#[test]
fn part_without_value_is_refused_wherever_it_stands() {
    let refused = Err(ContainerError::Auth("Missing www-auth param value"));
    assert_eq!(parse_www_authenticate("Bearer realm=hello,service"), refused);
    assert_eq!(parse_www_authenticate("Bearer service,realm=hello"), refused);
    assert_eq!(parse_www_authenticate("Bearer realm=hello, "), refused);
    assert_eq!(parse_www_authenticate("Bearer \"realm\""), refused);
}

#[test]
fn realm_is_mandatory() {
    let refused = Err(ContainerError::Auth("Missing ww-auth realm param"));
    assert_eq!(parse_www_authenticate("Bearer service=registry.docker.io"), refused);
    assert_eq!(parse_www_authenticate("Bearer ,,,"), refused);
    assert_eq!(parse_www_authenticate("Bearer Realm=hello"), refused);
    assert_eq!(parse_www_authenticate("Bearer \"realm\"=hello"), refused);
}

#[test]
fn empty_parts_bind_nothing() {
    assert_eq!(parse_www_authenticate("Bearer ,realm=hello,,a=b,").as_deref(), Ok("hello?a=b"));
}

#[test]
fn later_binding_of_a_name_wins() {
    assert_eq!(parse_www_authenticate("Bearer realm=one,realm=two").as_deref(), Ok("two"));
    assert_eq!(
        parse_www_authenticate("Bearer a=1,realm=r,a=2,b=3,a=4").as_deref(),
        Ok("r?a=4&b=3")
    );
}

#[test]
fn names_and_values_are_trimmed_and_values_unquoted() {
    assert_eq!(
        parse_www_authenticate("Bearer  realm = \"https://a/token\" ,\tservice\t=\t x y ")
            .as_deref(),
        Ok("https://a/token?service=x y")
    );
    assert_eq!(
        parse_www_authenticate("Bearer realm=\"\"\"q\"\"\",a=\" b \"").as_deref(),
        Ok("q?a= b ")
    );
    assert_eq!(parse_www_authenticate("Bearer realm=\"").as_deref(), Ok(""));
    assert_eq!(
        parse_www_authenticate("Bearer \u{a0}realm\u{2003}=\u{3000}r\u{85},k=\u{2028}").as_deref(),
        Ok("r?k=")
    );
}

#[test]
fn value_keeps_what_follows_its_first_equals_sign() {
    assert_eq!(
        parse_www_authenticate("Bearer realm=https://a/token?x=1,b==").as_deref(),
        Ok("https://a/token?x=1?b==")
    );
    assert_eq!(parse_www_authenticate("Bearer =v,realm=r").as_deref(), Ok("r?=v"));
}

#[test]
fn query_is_sorted_by_name_not_by_place() {
    let expected = Ok("https://auth.example/t?a=1&aa=2&b=3&scope=s&service=t");
    assert_eq!(
        parse_www_authenticate(
            "Bearer service=t,scope=s,b=3,realm=https://auth.example/t,aa=2,a=1"
        )
        .as_deref(),
        expected
    );
    assert_eq!(
        parse_www_authenticate(
            "Bearer a=1,aa=2,b=3,realm=https://auth.example/t,scope=s,service=t"
        )
        .as_deref(),
        expected
    );
    assert_eq!(
        parse_www_authenticate("Bearer realm=r,b=1,B=2,a=3,\u{e9}=4,z=5,Z=6,0=7").as_deref(),
        Ok("r?0=7&B=2&Z=6&a=3&b=1&z=5&\u{e9}=4")
    );
}

#[test]
fn sorted_as_a_map_of_strings_is() {
    let mut names: Vec<String> = Vec::new();
    for name in ["b", "", "ab", "a", "B", "a b", "\u{e9}", "\u{10348}", "\u{ffff}", "zz", "z"] {
        names.push(name.to_string());
    }
    let mut header = String::from("Bearer realm=r");
    for name in names.iter().rev() {
        header.push(',');
        header.push_str(name);
        header.push_str("=v");
    }
    names.sort();
    let mut expected = String::from("r");
    for (at, name) in names.iter().enumerate() {
        expected.push(if at == 0 { '?' } else { '&' });
        if name == "a b" {
            expected.push_str("a b=v");
        } else {
            expected.push_str(name);
            expected.push_str("=v");
        }
    }
    assert_eq!(parse_www_authenticate(&header), Ok(expected));
}

#[test]
fn manifest_of_another_version_is_refused() {
    let manifest = image_manifest(1, MANIFEST_V2);
    assert_eq!(
        manifest.object_type.validate(MANIFEST_V2),
        Err(ContainerError::Manifest("Invalid version"))
    );
    assert_eq!(
        image_manifest(3, "text/plain").object_type.validate(MANIFEST_V2),
        Err(ContainerError::Manifest("Invalid version"))
    );
    assert_eq!(
        manifest.checked(&descriptor("sha256:aa", "amd64", "linux")),
        Err(ContainerError::Manifest("Invalid version"))
    );
}

#[test]
fn manifest_of_another_media_type_is_refused() {
    let manifest = image_manifest(2, MIME_OCI_IMAGE_INDEX);
    assert_eq!(
        manifest.object_type.validate(MANIFEST_V2),
        Err(ContainerError::Manifest("Invalid media type"))
    );
    assert_eq!(
        manifest.checked(&descriptor("sha256:aa", "amd64", "linux")),
        Err(ContainerError::Manifest("Invalid media type"))
    );
}

#[test]
fn manifest_of_the_announced_kind_is_kept() {
    let manifest = image_manifest(2, MANIFEST_V2);
    assert_eq!(manifest.object_type.validate(MANIFEST_V2), Ok(()));
    let kept = manifest.clone().checked(&descriptor("sha256:aa", "amd64", "linux"));
    assert_eq!(kept, Ok(manifest));
}

#[test]
fn first_layer_is_the_one_applied() {
    let mut manifest = image_manifest(2, MANIFEST_V2);
    assert_eq!(manifest.first_layer(), Some(&element(LAYER, 2811478, "sha256:1a")));
    manifest.layers.clear();
    assert_eq!(manifest.first_layer(), None);
}

#[test]
fn platform_is_selected_by_architecture_and_os() {
    let manifests = vec![
        descriptor("sha256:01", "arm64", "linux"),
        descriptor("sha256:02", "amd64", "linux"),
    ];
    assert_eq!(select_platform(&manifests, "amd64", "linux"), Some(&manifests[1]));
    assert_eq!(select_platform(&manifests, "arm64", "linux"), Some(&manifests[0]));
    assert_eq!(select_target(&manifests), Some(&manifests[1]));
    assert_eq!(select_target(&manifests), select_target(&manifests));
}

#[test]
fn first_matching_platform_is_selected() {
    let manifests = vec![
        descriptor("sha256:01", "amd64", "windows"),
        descriptor("sha256:02", "arm64", "linux"),
        descriptor("sha256:03", "amd64", "linux"),
        descriptor("sha256:04", "amd64", "linux"),
    ];
    let found = select_target(&manifests).map(|m| m.content.digest.as_str());
    assert_eq!(found, Some("sha256:03"));
}

#[test]
fn missing_platform_is_reported_as_none() {
    let manifests = vec![
        descriptor("sha256:01", "arm64", "linux"),
        descriptor("sha256:02", "amd64", "windows"),
        descriptor("sha256:03", "AMD64", "linux"),
    ];
    assert_eq!(select_target(&manifests), None);
    assert_eq!(select_platform(&manifests, "amd64", "linux"), None);
    assert_eq!(select_platform(&Vec::new(), "amd64", "linux"), None);
}

#[test]
fn probe_is_answered_by_status() {
    assert_eq!(query_auth_token(200, None), Ok(TokenQuery::NotNeeded));
    assert_eq!(query_auth_token(200, Some("Basic x")), Ok(TokenQuery::NotNeeded));
    assert_eq!(
        query_auth_token(
            401,
            Some(r#"Bearer realm="https://auth.docker.io/token",service="registry.docker.io",scope="repository:library/ubuntu:pull""#)
        ),
        Ok(TokenQuery::AskAt(
            "https://auth.docker.io/token?scope=repository:library/ubuntu:pull&service=registry.docker.io"
                .to_string()
        ))
    );
}

#[test]
fn unhandled_status_carries_its_code() {
    for code in [100u16, 201, 204, 301, 400, 403, 404, 429, 500, 503] {
        assert_eq!(
            query_auth_token(code, Some("Bearer realm=hello")),
            Err(ContainerError::UnhandledStatusCode(code))
        );
    }
}

#[test]
fn challenge_without_usable_header_is_refused() {
    assert_eq!(
        query_auth_token(401, None),
        Err(ContainerError::Auth("Missing www-authenticate header"))
    );
    assert_eq!(parse_auth_addr(None), Err(ContainerError::Auth("Missing www-authenticate header")));
    assert_eq!(
        query_auth_token(401, Some("Basic realm=x")),
        Err(ContainerError::Auth("Invalid auth type"))
    );
    assert_eq!(parse_auth_addr(Some("Bearer realm=hello")), Ok("hello".to_string()));
}

#[test]
fn session_is_rooted_at_the_repository() {
    let probe = RegistryClient::probe_url(URL, "ubuntu", "latest");
    assert_eq!(
        probe,
        Ok("https://registry.hub.docker.com/v2/library/ubuntu/manifests/latest".to_string())
    );
    let client = RegistryClient::authenticated(URL, "ubuntu", "latest", None).unwrap();
    assert_eq!(client.api_url(), "https://registry.hub.docker.com/v2/library/ubuntu/");
    assert_eq!(client.tag(), "latest");
    assert_eq!(client.bearer(), "");
    let client =
        RegistryClient::authenticated(URL, "alpine", "3.19", Some("t0k3n".to_string())).unwrap();
    assert_eq!(client.api_url(), "https://registry.hub.docker.com/v2/library/alpine/");
    assert_eq!(client.tag(), "3.19");
    assert_eq!(client.bearer(), "t0k3n");
}

#[test]
fn session_needs_a_base_with_a_host() {
    for base in ["", "registry.hub.docker.com", "/v2/", "data:text/plain,Stuff", "https://"] {
        assert_eq!(
            RegistryClient::authenticated(base, "ubuntu", "latest", None),
            Err(ContainerError::Auth("Invalid base URL"))
        );
        assert_eq!(
            RegistryClient::probe_url(base, "ubuntu", "latest"),
            Err(ContainerError::Auth("Invalid base URL"))
        );
    }
}

#[test]
fn session_fails_exactly_where_its_probe_address_does() {
    for base in [URL, "http://localhost:5000/x/y", "localhost", "unix:/run/foo.socket"] {
        for (image, tag) in [("ubuntu", "latest"), ("//[", "latest"), ("a", "/../http://[")] {
            assert_eq!(
                RegistryClient::authenticated(base, image, tag, None).map(|_| ()),
                RegistryClient::probe_url(base, image, tag).map(|_| ())
            );
        }
    }
}

#[test]
fn odd_names_stay_below_the_registry() {
    assert_eq!(
        RegistryClient::probe_url(URL, "//[", "latest"),
        Ok("https://registry.hub.docker.com/v2/library///[/manifests/latest".to_string())
    );
    assert_eq!(
        RegistryClient::probe_url(URL, "a/../..", "../x"),
        Ok("https://registry.hub.docker.com/v2/x".to_string())
    );
}

#[test]
fn requests_name_address_type_and_token() {
    let client =
        RegistryClient::authenticated(URL, "ubuntu", "22.04", Some("secret".to_string())).unwrap();
    assert_eq!(
        client.list_manifests(),
        Ok(RegistryRequest {
            url: "https://registry.hub.docker.com/v2/library/ubuntu/manifests/22.04".to_string(),
            accept: "application/vnd.docker.distribution.manifest.list.v2+json".to_string(),
            bearer: "secret".to_string(),
        })
    );
    let manifest = descriptor("sha256:0123abcd", "amd64", "linux");
    assert_eq!(
        client.read_image_manifest(&manifest),
        Ok(RegistryRequest {
            url: "https://registry.hub.docker.com/v2/library/ubuntu/manifests/sha256:0123abcd"
                .to_string(),
            accept: MANIFEST_V2.to_string(),
            bearer: "secret".to_string(),
        })
    );
    assert_eq!(
        client.read_blob(&element(LAYER, 2811478, "sha256:1a2b")),
        Ok(RegistryRequest {
            url: "https://registry.hub.docker.com/v2/library/ubuntu/blobs/sha256:1a2b".to_string(),
            accept: LAYER.to_string(),
            bearer: "secret".to_string(),
        })
    );
}

#[test]
fn requests_of_an_open_registry_carry_an_empty_token() {
    let client = RegistryClient::authenticated(URL, "ubuntu", "latest", None).unwrap();
    let request = client.list_manifests().unwrap();
    assert_eq!(request.bearer, "");
    assert_eq!(request.accept, MIME_OCI_IMAGE_INDEX);
}

#[test]
fn layer_data_holds_its_bytes() {
    let layer = ImageLayerData(vec![0x1f, 0x8b, 0x08]);
    assert_eq!(layer.0, vec![0x1fu8, 0x8b, 0x08]);
}

#[test]
fn status_of_success_is_accepted() {
    for status in [200u16, 201, 204, 206, 299] {
        assert_eq!(check_status(status), Ok(()));
    }
}

#[test]
fn other_status_fails_and_is_named() {
    assert_eq!(check_status(404), Err(ContainerError::Http("unexpected status 404".to_string())));
    assert_eq!(check_status(199), Err(ContainerError::Http("unexpected status 199".to_string())));
    assert_eq!(check_status(300), Err(ContainerError::Http("unexpected status 300".to_string())));
    assert_eq!(check_status(401), Err(ContainerError::Http("unexpected status 401".to_string())));
    assert_eq!(check_status(500), Err(ContainerError::Http("unexpected status 500".to_string())));
    assert_eq!(check_status(0), Err(ContainerError::Http("unexpected status 0".to_string())));
    assert_eq!(
        check_status(65535),
        Err(ContainerError::Http("unexpected status 65535".to_string()))
    );
}
