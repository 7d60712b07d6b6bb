use wsvc::codec::{compress_blob, decompress_blob, ChunkFault, CHUNK_SIZE};

fn sample(len: usize) -> Vec<u8> {
    (0..len).map(|i| ((i * 7 + i / 13) % 251) as u8).collect()
}

#[test]
fn compress_then_decompress_gives_content_back() {
    let content = sample(40000);
    let stored = compress_blob(&content).unwrap();
    assert_eq!(stored[0], 0x78);
    assert_eq!(stored[1], 0xda);
    assert_eq!(decompress_blob(&stored), Ok(content));
}

#[test]
fn round_trip_at_chunk_boundaries() {
    for len in [0usize, 1, CHUNK_SIZE - 1, CHUNK_SIZE, CHUNK_SIZE + 1, 2 * CHUNK_SIZE] {
        let content = sample(len);
        let stored = compress_blob(&content).unwrap();
        assert_eq!(decompress_blob(&stored), Ok(content));
    }
}

#[test]
fn empty_content_is_stored_as_nothing() {
    assert_eq!(compress_blob(&[]), Ok(vec![]));
    assert_eq!(decompress_blob(&[]), Ok(vec![]));
}

#[test]
fn one_chunk_is_header_and_deflate_stream() {
    let content = b"hi\n".to_vec();
    let body = miniz_oxide::deflate::compress_to_vec(&content, 8);
    let mut expected = vec![0x78, 0xda, (body.len() / 256) as u8, (body.len() % 256) as u8];
    expected.extend_from_slice(&body);
    assert_eq!(compress_blob(&content), Ok(expected));
}

#[test]
fn content_is_cut_into_chunks_of_16384_bytes() {
    let content = sample(CHUNK_SIZE + 10);
    let stored = compress_blob(&content).unwrap();
    let first = miniz_oxide::deflate::compress_to_vec(&content[..CHUNK_SIZE], 8);
    let second = miniz_oxide::deflate::compress_to_vec(&content[CHUNK_SIZE..], 8);
    let announced = stored[2] as usize * 256 + stored[3] as usize;
    assert_eq!(announced, first.len());
    assert_eq!(&stored[4..4 + announced], &first[..]);
    let next = 4 + announced;
    assert_eq!(&stored[next..next + 2], &[0x78, 0xda]);
    let announced2 = stored[next + 2] as usize * 256 + stored[next + 3] as usize;
    assert_eq!(announced2, second.len());
    assert_eq!(stored.len(), next + 4 + announced2);
}

#[test]
fn stored_form_is_not_the_content() {
    let content = vec![b'a'; 5000];
    let stored = compress_blob(&content).unwrap();
    assert_ne!(stored, content);
    assert!(stored.len() < content.len());
}

#[test]
fn decompress_rejects_wrong_magic() {
    assert_eq!(decompress_blob(&[0x79, 0xda, 0, 1, 0]), Err(ChunkFault::MagicMismatch));
    assert_eq!(decompress_blob(&[0x78, 0xdb, 0, 1, 0]), Err(ChunkFault::MagicMismatch));
}

#[test]
fn decompress_rejects_a_cut_header() {
    assert_eq!(decompress_blob(&[0x78]), Err(ChunkFault::BrokenChunk));
    assert_eq!(decompress_blob(&[0x78, 0xda, 0]), Err(ChunkFault::BrokenChunk));
}

#[test]
fn decompress_rejects_a_length_beyond_the_end() {
    assert_eq!(decompress_blob(&[0x78, 0xda, 0, 5, 1, 2]), Err(ChunkFault::BrokenChunk));
}

#[test]
fn decompress_rejects_bytes_that_do_not_inflate() {
    assert_eq!(decompress_blob(&[0x78, 0xda, 0, 2, 0xff, 0xff]), Err(ChunkFault::DecodeFailed));
    assert_eq!(decompress_blob(&[0x78, 0xda, 0, 0]), Err(ChunkFault::DecodeFailed));
}

#[test]
fn a_fault_after_a_good_chunk_is_reported() {
    let mut stored = compress_blob(b"abc").unwrap();
    stored.extend_from_slice(&[0x00, 0x00, 0x00, 0x00]);
    assert_eq!(decompress_blob(&stored), Err(ChunkFault::MagicMismatch));
}
