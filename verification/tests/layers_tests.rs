use std::io::Write;

use minibox::err::Fault;
use minibox::registry::{BlobResponse, Registry};
use minibox::sandbox::{FsNode, SandboxRoot};

fn gzip(bytes: &[u8]) -> Vec<u8> {
    let mut enc = flate2::write::GzEncoder::new(Vec::new(), flate2::Compression::default());
    enc.write_all(bytes).unwrap();
    enc.finish().unwrap()
}

fn layer_blob(files: &[(&str, &[u8])]) -> Vec<u8> {
    let mut ar = tar::Builder::new(Vec::new());
    for (path, data) in files {
        let mut h = tar::Header::new_ustar();
        h.set_mode(0o644);
        h.set_size(data.len() as u64);
        ar.append_data(&mut h, path, *data).unwrap();
    }
    gzip(&ar.into_inner().unwrap())
}

fn manifest_for(blobs: &[&Vec<u8>]) -> String {
    let mut layers = String::new();
    for (i, b) in blobs.iter().enumerate() {
        if i > 0 {
            layers.push(',');
        }
        layers.push_str(&format!(
            "{{\"mediaType\":\"application/vnd.docker.image.rootfs.diff.tar.gzip\",\
              \"size\":{},\"digest\":\"sha256:layer{}\"}}",
            b.len(),
            i
        ));
    }
    format!(
        "{{\"schemaVersion\":2,\
           \"mediaType\":\"application/vnd.docker.distribution.manifest.v2+json\",\
           \"config\":{{\"mediaType\":\"application/vnd.docker.container.image.v1+json\",\
                        \"size\":7023,\"digest\":\"sha256:cafe\"}},\
           \"layers\":[{}]}}",
        layers
    )
}

fn session_for(blobs: &[&Vec<u8>]) -> Registry {
    let mut r = Registry::new("alpine:latest").unwrap();
    r.auth(Some("{\"token\":\"t\"}")).unwrap();
    r.get_manifests(true, Some(&manifest_for(blobs))).unwrap();
    r
}

fn expect_file(root: &SandboxRoot, path: &[u8], want: &[u8]) {
    match root.lookup(path) {
        Some(FsNode::File(_, data)) => assert_eq!(data.as_slice(), want),
        other => panic!("expected a file at {:?}, got {:?}", path, other),
    }
}

#[test]
fn later_layer_overwrites_earlier_file() {
    let l1 = layer_blob(&[("shared", b"from layer one"), ("only1", b"a")]);
    let l2 = layer_blob(&[("shared", b"from layer two"), ("only2", b"b")]);
    let r = session_for(&[&l1, &l2]);
    let responses = vec![
        BlobResponse { success: true, bytes: l1.clone() },
        BlobResponse { success: true, bytes: l2.clone() },
    ];
    let mut root = SandboxRoot::new();
    assert!(r.download_layers(&responses, &mut root).is_ok());
    expect_file(&root, b"shared", b"from layer two");
    expect_file(&root, b"only1", b"a");
    expect_file(&root, b"only2", b"b");
}

#[test]
fn integrity_mismatch_is_refused() {
    let l1 = layer_blob(&[("f", b"data")]);
    let mut short = l1.clone();
    short.pop();
    let r = session_for(&[&l1]);
    let mut root = SandboxRoot::new();
    assert_eq!(
        r.apply_layer(0, true, &short, &mut root),
        Err(Fault::IntegrityError)
    );
    assert_eq!(root.entry_count(), 0);
    assert!(root.lookup(b"f").is_none());
}

#[test]
fn integrity_mismatch_stops_download() {
    let l1 = layer_blob(&[("f", b"data")]);
    let mut padded = l1.clone();
    padded.push(0);
    let r = session_for(&[&l1]);
    let responses = vec![BlobResponse { success: true, bytes: padded }];
    let mut root = SandboxRoot::new();
    assert_eq!(
        r.download_layers(&responses, &mut root),
        Err(Fault::IntegrityError)
    );
    assert_eq!(root.entry_count(), 0);
}

#[test]
fn failed_blob_request_is_a_registry_error() {
    let l1 = layer_blob(&[("f", b"data")]);
    let r = session_for(&[&l1]);
    let responses = vec![BlobResponse { success: false, bytes: Vec::new() }];
    let mut root = SandboxRoot::new();
    assert_eq!(
        r.download_layers(&responses, &mut root),
        Err(Fault::RegistryRequestError)
    );
    assert_eq!(root.entry_count(), 0);
}

#[test]
fn earlier_layers_stay_applied_when_a_later_one_fails() {
    let l1 = layer_blob(&[("kept", b"yes")]);
    let l2 = layer_blob(&[("lost", b"no")]);
    let r = session_for(&[&l1, &l2]);
    let responses = vec![
        BlobResponse { success: true, bytes: l1.clone() },
        BlobResponse { success: false, bytes: Vec::new() },
    ];
    let mut root = SandboxRoot::new();
    assert_eq!(
        r.download_layers(&responses, &mut root),
        Err(Fault::RegistryRequestError)
    );
    expect_file(&root, b"kept", b"yes");
    assert!(root.lookup(b"lost").is_none());
}

#[test]
fn corrupt_layer_is_an_archive_error() {
    let l1: Vec<u8> = b"corrupt bytes, not gzip".to_vec();
    let r = session_for(&[&l1]);
    let responses = vec![BlobResponse { success: true, bytes: l1.clone() }];
    let mut root = SandboxRoot::new();
    assert_eq!(
        r.download_layers(&responses, &mut root),
        Err(Fault::ArchiveError)
    );
}

#[test]
fn repeated_pull_is_not_cached_and_applies_again() {
    let l1 = layer_blob(&[("f", b"v")]);
    let r = session_for(&[&l1]);
    let responses = vec![BlobResponse { success: true, bytes: l1.clone() }];

    let mut first = SandboxRoot::new();
    assert!(r.download_layers(&responses, &mut first).is_ok());
    let mut second = SandboxRoot::new();
    assert!(r.download_layers(&responses, &mut second).is_ok());
    expect_file(&first, b"f", b"v");
    expect_file(&second, b"f", b"v");
    assert_eq!(first.entry_count(), second.entry_count());

    let again = r.download_layers(&responses, &mut second);
    assert!(again.is_ok());
    assert_eq!(second.entry_count(), 2 * first.entry_count());
}

#[test]
fn later_layer_cannot_write_through_an_earlier_symlink() {
    let mut ar = tar::Builder::new(Vec::new());
    let mut h = tar::Header::new_ustar();
    h.set_size(0);
    h.set_mode(0o777);
    h.set_entry_type(tar::EntryType::Symlink);
    ar.append_link(&mut h, "escape", "../../outside").unwrap();
    let l1 = gzip(&ar.into_inner().unwrap());
    let l2 = layer_blob(&[("escape/evil", b"pwnd")]);
    let r = session_for(&[&l1, &l2]);
    let responses = vec![
        BlobResponse { success: true, bytes: l1.clone() },
        BlobResponse { success: true, bytes: l2.clone() },
    ];
    let mut root = SandboxRoot::new();
    assert_eq!(
        r.download_layers(&responses, &mut root),
        Err(Fault::ArchiveError)
    );
    assert!(root.lookup(b"escape/evil").is_none());
    match root.lookup(b"escape") {
        Some(FsNode::Symlink(t)) => assert_eq!(t.as_slice(), b"../../outside"),
        other => panic!("expected the first layer's symlink, got {:?}", other),
    }
}

#[test]
fn sealed_root_reports_sealed() {
    let mut root = SandboxRoot::new();
    assert!(!root.sealed());
    root.seal();
    assert!(root.sealed());
}
