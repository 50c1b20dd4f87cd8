use minibox::err::Fault;
use minibox::registry::{auth_url, manifest_accept, registry_api_url, service, Registry};

const MANIFEST_BODY: &str = "{\
    \"schemaVersion\":2,\
    \"mediaType\":\"application/vnd.docker.distribution.manifest.v2+json\",\
    \"config\":{\"mediaType\":\"application/vnd.docker.container.image.v1+json\",\
                \"size\":7023,\"digest\":\"sha256:cafe\"},\
    \"layers\":[\
      {\"mediaType\":\"application/vnd.docker.image.rootfs.diff.tar.gzip\",\
       \"size\":977,\"digest\":\"sha256:aaaa\"},\
      {\"mediaType\":\"application/vnd.docker.image.rootfs.diff.tar.gzip\",\
       \"size\":1523,\"digest\":\"sha256:bbbb\"}\
    ]}";

#[test]
fn new_parses_repo_and_tag() {
    let r = Registry::new("alpine:latest").unwrap();
    assert_eq!(r.image_name(), "alpine");
    assert_eq!(r.image_tag(), "latest");
    assert!(!r.has_token());
    assert!(!r.has_manifest());
}

#[test]
fn new_splits_at_first_colon() {
    let r = Registry::new("repo:tag:extra").unwrap();
    assert_eq!(r.image_name(), "repo");
    assert_eq!(r.image_tag(), "tag:extra");
}

#[test]
fn new_rejects_malformed_references() {
    assert!(Registry::new("noseparator").is_none());
    assert!(Registry::new(":tagonly").is_none());
    assert!(Registry::new("repoonly:").is_none());
    assert!(Registry::new(":").is_none());
    assert!(Registry::new("").is_none());
}

#[test]
fn endpoint_constants() {
    assert_eq!(service(), "registry.docker.io");
    assert_eq!(auth_url(), "https://auth.docker.io/token");
    assert_eq!(registry_api_url(), "https://registry-1.docker.io/v2");
    assert_eq!(
        manifest_accept(),
        "application/vnd.docker.distribution.manifest.v2+json"
    );
}

#[test]
fn auth_scope_names_the_repository() {
    let r = Registry::new("alpine:latest").unwrap();
    assert_eq!(r.auth_scope(), "repository:library/alpine:pull");
}

#[test]
fn auth_keeps_the_token() {
    let mut r = Registry::new("alpine:latest").unwrap();
    let out = r.auth(Some("{\"token\":\"deadbeef\"}"));
    assert!(out.is_ok());
    assert!(r.has_token());
    assert_eq!(r.bearer(), "Bearer deadbeef");
}

#[test]
fn auth_fails_without_token_field() {
    let mut r = Registry::new("alpine:latest").unwrap();
    assert_eq!(
        r.auth(Some("{\"access_token\":\"x\"}")),
        Err(Fault::AuthenticationError)
    );
    assert!(!r.has_token());
}

#[test]
fn auth_fails_on_non_string_token() {
    let mut r = Registry::new("alpine:latest").unwrap();
    assert_eq!(r.auth(Some("{\"token\":17}")), Err(Fault::AuthenticationError));
}

#[test]
fn auth_fails_on_transport_failure() {
    let mut r = Registry::new("alpine:latest").unwrap();
    assert_eq!(r.auth(None), Err(Fault::AuthenticationError));
}

#[test]
fn auth_fails_on_malformed_body() {
    let mut r = Registry::new("alpine:latest").unwrap();
    assert_eq!(r.auth(Some("not json")), Err(Fault::AuthenticationError));
}

#[test]
fn manifest_url_names_repo_and_tag() {
    let r = Registry::new("alpine:3.19").unwrap();
    assert_eq!(
        r.manifest_url(),
        "https://registry-1.docker.io/v2/library/alpine/manifests/3.19"
    );
}

#[test]
fn manifest_decodes_and_lists_layers() {
    let mut r = Registry::new("alpine:latest").unwrap();
    r.auth(Some("{\"token\":\"t\"}")).unwrap();
    let out = r.get_manifests(true, Some(MANIFEST_BODY));
    assert!(out.is_ok());
    assert!(r.has_manifest());
    assert_eq!(r.layer_count(), 2);
    let m = r.manifest().unwrap();
    assert_eq!(m.schema_version(), 2);
    assert_eq!(
        m.media_type(),
        "application/vnd.docker.distribution.manifest.v2+json"
    );
    assert_eq!(m.config().size(), 7023);
    assert_eq!(m.config().digest(), "sha256:cafe");
    assert_eq!(m.layer(0).size(), 977);
    assert_eq!(m.layer(0).digest(), "sha256:aaaa");
    assert_eq!(m.layer(1).size(), 1523);
    assert_eq!(m.layer(1).digest(), "sha256:bbbb");
}

#[test]
fn manifest_fetch_fails_on_bad_status() {
    let mut r = Registry::new("alpine:latest").unwrap();
    r.auth(Some("{\"token\":\"t\"}")).unwrap();
    assert_eq!(
        r.get_manifests(false, Some(MANIFEST_BODY)),
        Err(Fault::RegistryRequestError)
    );
    assert!(!r.has_manifest());
}

#[test]
fn manifest_fetch_fails_on_missing_body() {
    let mut r = Registry::new("alpine:latest").unwrap();
    r.auth(Some("{\"token\":\"t\"}")).unwrap();
    assert_eq!(r.get_manifests(true, None), Err(Fault::RegistryRequestError));
}

#[test]
fn manifest_fetch_fails_on_malformed_body() {
    let mut r = Registry::new("alpine:latest").unwrap();
    r.auth(Some("{\"token\":\"t\"}")).unwrap();
    assert_eq!(
        r.get_manifests(true, Some("{\"schemaVersion\":2}")),
        Err(Fault::DecodeError)
    );
    assert_eq!(r.get_manifests(true, Some("wat")), Err(Fault::DecodeError));
}

#[test]
fn blob_url_names_the_digest() {
    let mut r = Registry::new("alpine:latest").unwrap();
    r.auth(Some("{\"token\":\"t\"}")).unwrap();
    r.get_manifests(true, Some(MANIFEST_BODY)).unwrap();
    assert_eq!(
        r.blob_url(0),
        "https://registry-1.docker.io/v2/library/alpine/blobs/sha256:aaaa"
    );
    assert_eq!(
        r.blob_url(1),
        "https://registry-1.docker.io/v2/library/alpine/blobs/sha256:bbbb"
    );
}

#[test]
fn fault_descriptions_name_the_step() {
    assert_eq!(
        Fault::AuthenticationError.describe(),
        "auth failed, no token in response"
    );
    assert_eq!(Fault::RegistryRequestError.describe(), "registry request failed");
    assert_eq!(Fault::DecodeError.describe(), "failed to decode manifest");
    assert_eq!(Fault::IntegrityError.describe(), "layer size mismatch");
    assert_eq!(
        Fault::ArchiveError.describe(),
        "malformed or unsafe layer archive"
    );
    assert_eq!(Fault::IOError.describe(), "filesystem operation failed");
    assert_eq!(
        Fault::EncodingError.describe(),
        "child output is not valid text"
    );
}

#[test]
fn empty_image_has_no_layers() {
    let mut r = Registry::new("scratch:latest").unwrap();
    r.auth(Some("{\"token\":\"t\"}")).unwrap();
    let body = "{\"schemaVersion\":2,\
                 \"mediaType\":\"application/vnd.docker.distribution.manifest.v2+json\",\
                 \"config\":{\"mediaType\":\"application/vnd.docker.container.image.v1+json\",\
                              \"size\":2,\"digest\":\"sha256:00\"},\
                 \"layers\":[]}";
    assert!(r.get_manifests(true, Some(body)).is_ok());
    assert_eq!(r.layer_count(), 0);
}
