use std::io::Write;
use tosm::model::{Node, SourceFile, Way};
use tosm::snapshot::{SnapshotError, BUFFER_SIZE, LG_WINDOW, QUALITY};
use tosm::store::TOSMFile;

fn sample() -> TOSMFile {
    let nodes = (0..500u64)
        .map(|i| Node {
            id: 1000 + i % 400,
            lat_bits: (63.0 + i as f64 / 1000.0).to_bits(),
            lon_bits: (-22.0 + i as f64 / 700.0).to_bits(),
        })
        .collect();
    let ways = (0..50u64)
        .map(|i| Way {
            id: i % 40,
            node_ids: (0..i).map(|k| 1000 + k).collect(),
            one_way: i % 3 == 0,
            name: if i % 2 == 0 { Some(format!("Gata {}", i)) } else { None },
        })
        .collect();
    TOSMFile::from_source(SourceFile { nodes, ways }).unwrap()
}

fn brotli_stream(plain: &[u8]) -> Vec<u8> {
    let mut writer = brotli::CompressorWriter::new(Vec::new(), BUFFER_SIZE, QUALITY, LG_WINDOW);
    writer.write_all(plain).unwrap();
    writer.into_inner()
}

fn assert_same(left: &TOSMFile, right: &TOSMFile) {
    assert_eq!(left.nodes(), right.nodes());
    assert_eq!(left.ways(), right.ways());
    assert_eq!(left.node_indexes(), right.node_indexes());
    assert_eq!(left.way_indexes(), right.way_indexes());
    assert_eq!(left.kd_tree().entries(), right.kd_tree().entries());
}

#[test]
fn snapshot_settings_are_fixed() {
    assert_eq!(BUFFER_SIZE, 4096);
    assert_eq!(QUALITY, 4);
    assert_eq!(LG_WINDOW, 21);
}

#[test]
fn snapshot_reads_back_equal() {
    let file = sample();
    let stream = file.write_snapshot();
    let read = TOSMFile::read_snapshot(&stream).unwrap();
    assert_same(&read, &file);
}

#[test]
fn empty_store_snapshot_reads_back_equal() {
    let file = TOSMFile::from_source(SourceFile { nodes: vec![], ways: vec![] }).unwrap();
    let stream = file.write_snapshot();
    let read = TOSMFile::read_snapshot(&stream).unwrap();
    assert_same(&read, &file);
    assert!(read.nodes().is_empty());
}

#[test]
fn snapshot_is_compressed() {
    let file = sample();
    let plain = file.encode();
    let stream = file.write_snapshot();
    assert_ne!(stream, plain);
    assert!(stream.len() < plain.len());
}

#[test]
fn snapshot_is_a_brotli_stream_of_the_encoding() {
    let file = sample();
    let stream = file.write_snapshot();
    let mut plain = Vec::new();
    let mut reader = brotli::Decompressor::new(&stream[..], BUFFER_SIZE);
    std::io::Read::read_to_end(&mut reader, &mut plain).unwrap();
    assert_eq!(plain, file.encode());
}

#[test]
fn brotli_stream_of_the_encoding_reads_as_snapshot() {
    let file = sample();
    let read = TOSMFile::read_snapshot(&brotli_stream(&file.encode())).unwrap();
    assert_same(&read, &file);
}

#[test]
fn uncompressed_encoding_is_not_a_snapshot() {
    let file = sample();
    assert_eq!(TOSMFile::read_snapshot(&file.encode()).err(), Some(SnapshotError::Decompress));
}

#[test]
fn empty_stream_fails_at_decompression() {
    assert_eq!(TOSMFile::read_snapshot(&[]).err(), Some(SnapshotError::Decompress));
}

#[test]
fn truncated_stream_fails_at_decompression() {
    let stream = sample().write_snapshot();
    let cut = &stream[..stream.len() / 2];
    assert_eq!(TOSMFile::read_snapshot(cut).err(), Some(SnapshotError::Decompress));
}

#[test]
fn bytes_after_the_end_of_the_stream_are_not_read() {
    let file = sample();
    let mut stream = file.write_snapshot();
    stream.extend_from_slice(b"goodbye\n");
    let read = TOSMFile::read_snapshot(&stream).unwrap();
    assert_same(&read, &file);
}

#[test]
fn stream_of_other_bytes_fails_at_decode() {
    let stream = brotli_stream(b"not a snapshot");
    assert_eq!(TOSMFile::read_snapshot(&stream).err(), Some(SnapshotError::Decode));
}

#[test]
fn stream_of_truncated_encoding_fails_at_decode() {
    let plain = sample().encode();
    let stream = brotli_stream(&plain[..plain.len() - 1]);
    assert_eq!(TOSMFile::read_snapshot(&stream).err(), Some(SnapshotError::Decode));
}

#[test]
fn failed_decompression_is_reported_as_such() {
    assert_eq!(TOSMFile::from_decompressed(None).err(), Some(SnapshotError::Decompress));
}

#[test]
fn decompressed_bytes_that_are_no_encoding_fail_at_decode() {
    assert_eq!(
        TOSMFile::from_decompressed(Some(vec![1, 2, 3])).err(),
        Some(SnapshotError::Decode)
    );
}

#[test]
fn decompressed_encoding_gives_the_store() {
    let file = sample();
    let read = TOSMFile::from_decompressed(Some(file.encode())).unwrap();
    assert_same(&read, &file);
}
