use octoget::stream::{digest_trailer, md5_hex, md5_trailer, range_header_value, to_lower_hex, ChunkAssembler, StreamError, StreamStep};

#[test]
fn digests_in_lowercase_hex() {
    assert_eq!(to_lower_hex(&vec![0x0a, 0x14, 0x1e, 0xff]), "0a141eff");
    assert_eq!(md5_hex(b"hello world"), "5eb63bbbe01eeed093cb22bb8f5acdc3");
    assert_eq!(md5_hex(b""), "d41d8cd98f00b204e9800998ecf8427e");
    assert_eq!(md5_trailer(b"hello world"), "MD5:5eb63bbbe01eeed093cb22bb8f5acdc3");
}

#[test]
fn range_header() {
    assert_eq!(range_header_value(0, 0), "bytes=0-0");
    assert_eq!(range_header_value(5242880, 10485759), "bytes=5242880-10485759");
}

#[test]
fn intact_chunk_is_written_at_first_offset() {
    let mut a = ChunkAssembler::new();
    assert!(matches!(a.on_message(&b"hello ".to_vec(), 100, ""), Ok(StreamStep::Continue)));
    assert!(matches!(a.on_message(&vec![], 999, ""), Ok(StreamStep::Continue)));
    assert!(matches!(a.on_message(&b"world".to_vec(), 106, ""), Ok(StreamStep::Continue)));
    assert_eq!(a.total_bytes(), 11);
    let trailer = md5_trailer(b"hello world");
    match a.on_message(&vec![], 111, &trailer) {
        Ok(StreamStep::Write { offset, bytes }) => {
            assert_eq!(offset, 100);
            assert_eq!(bytes, b"hello world".to_vec());
        }
        _ => panic!("expected a write"),
    }
    assert!(matches!(a.on_message(&vec![], 111, &trailer), Ok(StreamStep::Continue)));
}

#[test]
fn corrupted_chunk_is_rejected() {
    let mut a = ChunkAssembler::new();
    let _ = a.on_message(&b"hellO world".to_vec(), 0, "");
    match a.on_message(&vec![], 0, &md5_trailer(b"hello world")) {
        Err(StreamError::Md5Mismatch { remote, local }) => {
            assert_eq!(remote, "5eb63bbbe01eeed093cb22bb8f5acdc3");
            assert_eq!(local, md5_hex(b"hellO world"));
        }
        _ => panic!("expected a mismatch"),
    }
}

#[test]
fn peer_errors_and_oversized_chunks() {
    let mut a = ChunkAssembler::new();
    assert!(matches!(a.on_message(&vec![], 0, "HTTP 404"), Err(StreamError::PeerError(m)) if m == "HTTP 404"));
    let big = vec![0u8; 10 * 1024 * 1024 + 1];
    assert!(matches!(a.on_message(&big, 0, ""), Err(StreamError::TooLarge)));
    let mut b = ChunkAssembler::new();
    let exact = vec![0u8; 10 * 1024 * 1024];
    assert!(matches!(b.on_message(&exact, 0, ""), Ok(StreamStep::Continue)));
}

#[test]
fn trailer_of_a_precomputed_digest() {
    assert_eq!(digest_trailer(&vec![0xab, 0x01]), "MD5:ab01");
    assert_eq!(digest_trailer(&vec![]), "MD5:");
}
