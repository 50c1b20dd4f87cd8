use std::io::Write;

use minibox::err::Fault;
use minibox::sandbox::{FsNode, SandboxRoot};
use minibox::unpack::unpack;

fn gzip(bytes: &[u8]) -> Vec<u8> {
    let mut enc = flate2::write::GzEncoder::new(Vec::new(), flate2::Compression::default());
    enc.write_all(bytes).unwrap();
    enc.finish().unwrap()
}

fn built_archive(files: &[(&str, &[u8])]) -> Vec<u8> {
    let mut ar = tar::Builder::new(Vec::new());
    for (path, data) in files {
        let mut h = tar::Header::new_ustar();
        h.set_mode(0o644);
        h.set_size(data.len() as u64);
        ar.append_data(&mut h, path, *data).unwrap();
    }
    let tar_bytes = ar.into_inner().unwrap();
    gzip(&tar_bytes)
}

fn raw_header(name: &[u8], typeflag: u8, size: u64, link: &[u8]) -> Vec<u8> {
    let mut h = vec![0u8; 512];
    h[..name.len()].copy_from_slice(name);
    h[100..108].copy_from_slice(b"0000644\0");
    let s = format!("{:011o}\0", size);
    h[124..136].copy_from_slice(s.as_bytes());
    h[156] = typeflag;
    h[157..157 + link.len()].copy_from_slice(link);
    h
}

fn raw_archive(entries: &[(Vec<u8>, Vec<u8>)]) -> Vec<u8> {
    let mut t: Vec<u8> = Vec::new();
    for (header, data) in entries {
        t.extend_from_slice(header);
        t.extend_from_slice(data);
        let pad = (512 - data.len() % 512) % 512;
        t.extend_from_slice(&vec![0u8; pad]);
    }
    t.extend_from_slice(&[0u8; 1024]);
    gzip(&t)
}

fn expect_file(root: &SandboxRoot, path: &[u8], want: &[u8], want_mode: u32) {
    match root.lookup(path) {
        Some(FsNode::File(mode, data)) => {
            assert_eq!(data.as_slice(), want);
            assert_eq!(*mode, want_mode);
        }
        other => panic!("expected a file at {:?}, got {:?}", path, other),
    }
}

#[test]
fn round_trip_two_files() {
    let gz = built_archive(&[("a", b"x"), ("dir/b", b"y")]);
    let mut root = SandboxRoot::new();
    let n = unpack(&gz, &mut root).unwrap();
    assert_eq!(n, 2);
    assert_eq!(root.entry_count(), 2);
    expect_file(&root, b"a", b"x", 0o644);
    expect_file(&root, b"dir/b", b"y", 0o644);
    assert!(root.lookup(b"c").is_none());
    assert!(root.lookup(b"dir").is_none());
}

#[test]
fn traversal_entry_is_refused() {
    let h = raw_header(b"../../etc/passwd", b'0', 4, b"");
    let gz = raw_archive(&[(h, b"pwnd".to_vec())]);
    let mut root = SandboxRoot::new();
    assert_eq!(unpack(&gz, &mut root), Err(Fault::ArchiveError));
    assert_eq!(root.entry_count(), 0);
    assert!(root.lookup(b"../../etc/passwd").is_none());
    assert!(root.lookup(b"etc/passwd").is_none());
}

#[test]
fn deep_traversal_inside_path_is_refused() {
    let h = raw_header(b"a/../../b", b'0', 1, b"");
    let gz = raw_archive(&[(h, b"z".to_vec())]);
    let mut root = SandboxRoot::new();
    assert_eq!(unpack(&gz, &mut root), Err(Fault::ArchiveError));
    assert_eq!(root.entry_count(), 0);
}

#[test]
fn dotted_but_safe_path_is_kept() {
    let h = raw_header(b"a/../b", b'0', 1, b"");
    let gz = raw_archive(&[(h, b"z".to_vec())]);
    let mut root = SandboxRoot::new();
    assert_eq!(unpack(&gz, &mut root), Ok(1));
    expect_file(&root, b"a/../b", b"z", 0o644);
}

#[test]
fn absolute_path_is_refused() {
    let h = raw_header(b"/etc/passwd", b'0', 1, b"");
    let gz = raw_archive(&[(h, b"z".to_vec())]);
    let mut root = SandboxRoot::new();
    assert_eq!(unpack(&gz, &mut root), Err(Fault::ArchiveError));
}

#[test]
fn symlink_is_recorded_with_its_target() {
    let h = raw_header(b"ln", b'2', 0, b"target/file");
    let gz = raw_archive(&[(h, Vec::new())]);
    let mut root = SandboxRoot::new();
    assert_eq!(unpack(&gz, &mut root), Ok(1));
    match root.lookup(b"ln") {
        Some(FsNode::Symlink(t)) => assert_eq!(t.as_slice(), b"target/file"),
        other => panic!("expected a symlink, got {:?}", other),
    }
}

#[test]
fn directory_entry_and_mode_are_kept() {
    let mut t: Vec<(Vec<u8>, Vec<u8>)> = Vec::new();
    let mut dh = raw_header(b"d", b'5', 0, b"");
    dh[100..108].copy_from_slice(b"0000755\0");
    t.push((dh, Vec::new()));
    let mut fh = raw_header(b"d/f", b'0', 2, b"");
    fh[100..108].copy_from_slice(b"0000700\0");
    t.push((fh, b"ok".to_vec()));
    let gz = raw_archive(&t);
    let mut root = SandboxRoot::new();
    assert_eq!(unpack(&gz, &mut root), Ok(2));
    match root.lookup(b"d") {
        Some(FsNode::Dir(mode)) => assert_eq!(*mode, 0o755),
        other => panic!("expected a directory, got {:?}", other),
    }
    expect_file(&root, b"d/f", b"ok", 0o700);
}

#[test]
fn fifo_entry_is_skipped() {
    let fifo = raw_header(b"pipe", b'6', 0, b"");
    let f = raw_header(b"real", b'0', 2, b"");
    let gz = raw_archive(&[(fifo, Vec::new()), (f, b"ok".to_vec())]);
    let mut root = SandboxRoot::new();
    assert_eq!(unpack(&gz, &mut root), Ok(1));
    expect_file(&root, b"real", b"ok", 0o644);
    assert!(root.lookup(b"pipe").is_none());
}

fn pax_record(key: &str, value: &str) -> Vec<u8> {
    let body_len = 1 + key.len() + 1 + value.len() + 1;
    let mut total = body_len + 1;
    while format!("{}", total).len() + body_len != total {
        total = format!("{}", total).len() + body_len;
    }
    format!("{} {}={}\n", total, key, value).into_bytes()
}

#[test]
fn pax_path_record_renames_the_following_file() {
    let rec = pax_record("path", "very/long/override/name");
    let px = raw_header(b"PaxHeader", b'x', rec.len() as u64, b"");
    let f = raw_header(b"short", b'0', 2, b"");
    let gz = raw_archive(&[(px, rec), (f, b"ok".to_vec())]);
    let mut root = SandboxRoot::new();
    assert_eq!(unpack(&gz, &mut root), Ok(1));
    expect_file(&root, b"very/long/override/name", b"ok", 0o644);
    assert!(root.lookup(b"short").is_none());
}

#[test]
fn pax_linkpath_record_retargets_the_following_symlink() {
    let mut rec = pax_record("linkpath", "the/real/target");
    rec.extend_from_slice(&pax_record("atime", "1.5"));
    let px = raw_header(b"PaxHeader", b'x', rec.len() as u64, b"");
    let ln = raw_header(b"ln", b'2', 0, b"short");
    let gz = raw_archive(&[(px, rec), (ln, Vec::new())]);
    let mut root = SandboxRoot::new();
    assert_eq!(unpack(&gz, &mut root), Ok(1));
    match root.lookup(b"ln") {
        Some(FsNode::Symlink(t)) => assert_eq!(t.as_slice(), b"the/real/target"),
        other => panic!("expected a symlink, got {:?}", other),
    }
}

#[test]
fn malformed_pax_records_are_refused() {
    let px = raw_header(b"PaxHeader", b'x', 3, b"");
    let f = raw_header(b"real", b'0', 2, b"");
    let gz = raw_archive(&[(px, b"k=v".to_vec()), (f, b"ok".to_vec())]);
    let mut root = SandboxRoot::new();
    assert_eq!(unpack(&gz, &mut root), Err(Fault::ArchiveError));
    assert_eq!(root.entry_count(), 0);
}

#[test]
fn pax_global_header_is_consumed() {
    let rec = pax_record("comment", "nothing to see");
    let g = raw_header(b"pax_global_header", b'g', rec.len() as u64, b"");
    let f = raw_header(b"real", b'0', 2, b"");
    let gz = raw_archive(&[(g, rec), (f, b"ok".to_vec())]);
    let mut root = SandboxRoot::new();
    assert_eq!(unpack(&gz, &mut root), Ok(1));
    expect_file(&root, b"real", b"ok", 0o644);
}

#[test]
fn long_name_entry_names_the_following_file() {
    let mut long = Vec::new();
    for _ in 0..3 {
        long.extend_from_slice(b"a-rather-long-directory-segment/");
    }
    long.extend_from_slice(b"leaf");
    let mut data = long.clone();
    data.push(0);
    let ln = raw_header(b"././@LongLink", b'L', data.len() as u64, b"");
    let f = raw_header(b"truncated", b'0', 2, b"");
    let gz = raw_archive(&[(ln, data), (f, b"ok".to_vec())]);
    let mut root = SandboxRoot::new();
    assert_eq!(unpack(&gz, &mut root), Ok(1));
    expect_file(&root, &long, b"ok", 0o644);
    assert!(root.lookup(b"truncated").is_none());
}

#[test]
fn long_link_entry_retargets_the_following_symlink() {
    let lk = raw_header(b"././@LongLink", b'K', 12, b"");
    let ln = raw_header(b"ln", b'2', 0, b"short");
    let gz = raw_archive(&[(lk, b"long/target\0".to_vec()), (ln, Vec::new())]);
    let mut root = SandboxRoot::new();
    assert_eq!(unpack(&gz, &mut root), Ok(1));
    match root.lookup(b"ln") {
        Some(FsNode::Symlink(t)) => assert_eq!(t.as_slice(), b"long/target"),
        other => panic!("expected a symlink, got {:?}", other),
    }
}

#[test]
fn hard_link_entry_is_recorded() {
    let f = raw_header(b"target", b'0', 2, b"");
    let hl = raw_header(b"alias", b'1', 0, b"target");
    let gz = raw_archive(&[(f, b"ok".to_vec()), (hl, Vec::new())]);
    let mut root = SandboxRoot::new();
    assert_eq!(unpack(&gz, &mut root), Ok(2));
    match root.lookup(b"alias") {
        Some(FsNode::Hardlink(t)) => assert_eq!(t.as_slice(), b"target"),
        other => panic!("expected a hard link, got {:?}", other),
    }
}

#[test]
fn hard_link_with_escaping_target_is_refused() {
    let hl = raw_header(b"alias", b'1', 0, b"../../etc/shadow");
    let gz = raw_archive(&[(hl, Vec::new())]);
    let mut root = SandboxRoot::new();
    assert_eq!(unpack(&gz, &mut root), Err(Fault::ArchiveError));
    assert_eq!(root.entry_count(), 0);
}

#[test]
fn base256_size_field_is_read() {
    let mut h = raw_header(b"big", b'0', 0, b"");
    h[124] = 0x80;
    for i in 125..135 {
        h[i] = 0;
    }
    h[135] = 5;
    let gz = raw_archive(&[(h, b"12345".to_vec())]);
    let mut root = SandboxRoot::new();
    assert_eq!(unpack(&gz, &mut root), Ok(1));
    expect_file(&root, b"big", b"12345", 0o644);
}

#[test]
fn entry_beneath_symlink_is_refused() {
    let ln = raw_header(b"dir", b'2', 0, b"../outside");
    let f = raw_header(b"dir/evil", b'0', 4, b"");
    let gz = raw_archive(&[(ln, Vec::new()), (f, b"pwnd".to_vec())]);
    let mut root = SandboxRoot::new();
    assert_eq!(unpack(&gz, &mut root), Err(Fault::ArchiveError));
    assert_eq!(root.entry_count(), 0);
}

#[test]
fn entry_before_its_symlink_ancestor_is_refused() {
    let f = raw_header(b"dir/early", b'0', 2, b"");
    let ln = raw_header(b"dir", b'2', 0, b"elsewhere");
    let gz = raw_archive(&[(f, b"ok".to_vec()), (ln, Vec::new())]);
    let mut root = SandboxRoot::new();
    assert_eq!(unpack(&gz, &mut root), Err(Fault::ArchiveError));
    assert_eq!(root.entry_count(), 0);
}

#[test]
fn later_entry_overwrites_earlier_in_one_archive() {
    let a = raw_header(b"f", b'0', 3, b"");
    let b = raw_header(b"f", b'0', 3, b"");
    let gz = raw_archive(&[(a, b"one".to_vec()), (b, b"two".to_vec())]);
    let mut root = SandboxRoot::new();
    assert_eq!(unpack(&gz, &mut root), Ok(2));
    expect_file(&root, b"f", b"two", 0o644);
}

#[test]
fn garbage_is_not_a_gzip_stream() {
    let mut root = SandboxRoot::new();
    let junk: Vec<u8> = b"this is not gzip at all".to_vec();
    assert_eq!(unpack(&junk, &mut root), Err(Fault::ArchiveError));
    assert_eq!(root.entry_count(), 0);
}

#[test]
fn truncated_tar_is_refused() {
    let gz = gzip(&[7u8; 100]);
    let mut root = SandboxRoot::new();
    assert_eq!(unpack(&gz, &mut root), Err(Fault::ArchiveError));
}

#[test]
fn truncated_data_blocks_are_refused() {
    let h = raw_header(b"big", b'0', 4096, b"");
    let mut t: Vec<u8> = Vec::new();
    t.extend_from_slice(&h);
    t.extend_from_slice(&[1u8; 512]);
    let gz = gzip(&t);
    let mut root = SandboxRoot::new();
    assert_eq!(unpack(&gz, &mut root), Err(Fault::ArchiveError));
}

#[test]
fn empty_stream_yields_empty_root() {
    let gz = gzip(&[]);
    let mut root = SandboxRoot::new();
    assert_eq!(unpack(&gz, &mut root), Ok(0));
    assert_eq!(root.entry_count(), 0);
}

#[test]
fn ustar_prefix_field_extends_the_path() {
    let mut h = raw_header(b"name", b'0', 2, b"");
    h[345..348].copy_from_slice(b"pre");
    let gz = raw_archive(&[(h, b"ok".to_vec())]);
    let mut root = SandboxRoot::new();
    assert_eq!(unpack(&gz, &mut root), Ok(1));
    expect_file(&root, b"pre/name", b"ok", 0o644);
}
