use octoget::checksum::{FileDigest, Md5Stream, Sha256Stream};
use octoget::lifecycle::{resolve_source, ResolveSource};
use octoget::stream::{md5_trailer, ChunkAssembler, ChunkSender, StreamStep};

#[test]
fn file_checksums_of_streamed_bytes() {
    let mut d = FileDigest::new();
    d.update(b"hello ");
    d.update(b"");
    d.update(b"world");
    let c = d.finish();
    assert_eq!(c.md5.as_deref(), Some("5eb63bbbe01eeed093cb22bb8f5acdc3"));
    assert_eq!(c.sha256.as_deref(), Some("b94d27b9934d3e08a52e52d7da7dabfac484efe37a5380ee9088f7ace2efcde9"));
    let empty = FileDigest::new().finish();
    assert_eq!(empty.md5.as_deref(), Some("d41d8cd98f00b204e9800998ecf8427e"));
    assert_eq!(empty.sha256.as_deref(), Some("e3b0c44298fc1c149afbf4c8996fb92427ae41e4649b934ca495991b7852b855"));
}

#[test]
fn single_hashers() {
    let mut m = Md5Stream::new();
    m.update(b"hello world");
    assert_eq!(m.finish_hex(), "5eb63bbbe01eeed093cb22bb8f5acdc3");
    let mut s = Sha256Stream::new();
    s.update(b"hello");
    s.update(b" world");
    assert_eq!(s.finish_hex(), "b94d27b9934d3e08a52e52d7da7dabfac484efe37a5380ee9088f7ace2efcde9");
    let mut t = Md5Stream::new();
    t.update(b"abc");
    assert_eq!(t.trailer(), md5_trailer(b"abc"));
}

#[test]
fn served_chunk_is_received_whole() {
    let mut sender = ChunkSender::new(1000);
    let mut receiver = ChunkAssembler::new();
    for part in [b"hello ".to_vec(), b"wor".to_vec(), b"ld".to_vec()] {
        let offset = sender.send(&part);
        assert!(matches!(receiver.on_message(&part, offset, ""), Ok(StreamStep::Continue)));
    }
    assert_eq!(sender.end_offset(), 1011);
    let trailer = sender.trailer();
    assert_eq!(trailer, md5_trailer(b"hello world"));
    match receiver.on_message(&vec![], 1011, &trailer) {
        Ok(StreamStep::Write { offset, bytes }) => {
            assert_eq!(offset, 1000);
            assert_eq!(bytes, b"hello world".to_vec());
        }
        _ => panic!("expected a write"),
    }
}

#[test]
fn offsets_handed_out_by_the_sender() {
    let mut s = ChunkSender::new(5);
    assert_eq!(s.send(b"ab"), 5);
    assert_eq!(s.send(b""), 7);
    assert_eq!(s.send(b"c"), 7);
    assert_eq!(s.end_offset(), 8);
    assert_eq!(ChunkSender::new(0).trailer(), "MD5:d41d8cd98f00b204e9800998ecf8427e");
}

#[test]
fn resolution_sources_in_order() {
    assert_eq!(resolve_source(0, 0), ResolveSource::Local);
    assert_eq!(resolve_source(1, 0), ResolveSource::GiveUp);
    assert_eq!(resolve_source(0, 2), ResolveSource::Local);
    assert_eq!(resolve_source(1, 2), ResolveSource::Peer(0));
    assert_eq!(resolve_source(2, 2), ResolveSource::Peer(1));
    assert_eq!(resolve_source(3, 2), ResolveSource::GiveUp);
}
