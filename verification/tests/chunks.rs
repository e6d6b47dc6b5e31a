//! Chunk producer behaviour: shapes, determinism across read grains, and
//! edge cases around the block boundary.

use snap_transfer::chunk::{chunk_file, ByteSource, SNAP_CHUNK_LEN};

fn bytes(n: usize) -> Vec<u8> {
    (0..n).map(|i| (i % 251) as u8).collect()
}

fn chunks_with_grain(data: &[u8], max: usize, grain: usize) -> Vec<Vec<u8>> {
    let mut src = ByteSource::new(data.to_vec(), grain);
    chunk_file(&mut src, max)
}

#[test]
fn empty_file_yields_no_chunks() {
    let out = chunks_with_grain(&[], 4, 1);
    assert!(out.is_empty());
}

#[test]
fn short_file_yields_one_chunk() {
    let out = chunks_with_grain(b"abc", 4, 2);
    assert_eq!(out, vec![b"abc".to_vec()]);
}

#[test]
fn exact_multiple_has_no_short_tail() {
    let data = bytes(8);
    let out = chunks_with_grain(&data, 4, 3);
    assert_eq!(out.len(), 2);
    assert_eq!(out[0], data[..4].to_vec());
    assert_eq!(out[1], data[4..].to_vec());
}

#[test]
fn last_chunk_holds_the_remainder() {
    let data = bytes(10);
    let out = chunks_with_grain(&data, 4, 4);
    assert_eq!(out.len(), 3);
    assert_eq!(out[0].len(), 4);
    assert_eq!(out[1].len(), 4);
    assert_eq!(out[2].len(), 2);
    let joined: Vec<u8> = out.concat();
    assert_eq!(joined, data);
}

#[test]
fn chunking_is_deterministic_across_grains() {
    let data = bytes(100);
    let a = chunks_with_grain(&data, 16, 1);
    let b = chunks_with_grain(&data, 16, 7);
    let c = chunks_with_grain(&data, 16, 16);
    let d = chunks_with_grain(&data, 16, 1000);
    assert_eq!(a, b);
    assert_eq!(a, c);
    assert_eq!(a, d);
    assert_eq!(a.len(), 7);
}

#[test]
fn rereading_from_start_yields_the_same_sequence() {
    let data = bytes(33);
    let first = chunks_with_grain(&data, 8, 5);
    let second = chunks_with_grain(&data, 8, 5);
    assert_eq!(first, second);
}

#[test]
fn next_chunk_consumes_the_source() {
    let mut src = ByteSource::new(b"hello world".to_vec(), 3);
    let c1 = src.next_chunk(8).expect("first chunk");
    assert_eq!(c1, b"hello wo".to_vec());
    let c2 = src.next_chunk(8).expect("second chunk");
    assert_eq!(c2, b"rld".to_vec());
    assert!(src.next_chunk(8).is_none());
}

#[test]
fn default_chunk_len_is_one_mebibyte() {
    assert_eq!(SNAP_CHUNK_LEN, 1024 * 1024);
}
