use modelhub::digest::{git_blob_header_bytes, DownloadDigests};

#[test]
fn git_blob_header_of_size() {
    assert_eq!(git_blob_header_bytes(0), b"blob 0\0".to_vec());
    assert_eq!(git_blob_header_bytes(1234), b"blob 1234\0".to_vec());
}

#[test]
fn digests_of_empty_content() {
    let d = DownloadDigests::new(0);
    let (sha256, git) = d.finish();
    assert_eq!(sha256, "e3b0c44298fc1c149afbf4c8996fb92427ae41e4649b934ca495991b7852b855");
    assert_eq!(git, "e69de29bb2d1d6434b8b29ae775ad8c2e48c5391");
}

#[test]
fn digests_of_streamed_content() {
    let mut d = DownloadDigests::new(5);
    d.update(b"he");
    d.update(b"llo");
    let (sha256, git) = d.finish();
    assert_eq!(sha256, "2cf24dba5fb0a30e26e83b2ac5b9e29e1b161e5c1fa7425e73043362938b9824");
    assert_eq!(git, "b6fc4c620b67d95f953a5c1c1230aaab5db5a1b0");
}
