use bkar::archive::{encode_archive, ArchiveError, Entry};
use bkar::decode::decode_archive;

fn entry(path: &str, data: &[u8]) -> Entry {
    Entry { path: path.as_bytes().to_vec(), data: data.to_vec() }
}

fn assert_same_entries(a: &[Entry], b: &[Entry]) {
    assert_eq!(a.len(), b.len());
    for i in 0..a.len() {
        assert_eq!(a[i].path, b[i].path);
        assert_eq!(a[i].data, b[i].data);
    }
}

#[test]
fn two_file_stream_layout() {
    let entries = vec![entry("root/a.txt", b"hi"), entry("root/sub/b.bin", &[0x00, 0x01])];
    let bytes = encode_archive(&entries).unwrap();

    let mut expected: Vec<u8> = Vec::new();
    expected.extend_from_slice(b"<!BKAR!>");
    expected.extend_from_slice(b"PTH");
    expected.extend_from_slice(&[0x00, 0x0A]); // "root/a.txt" is 10 bytes
    expected.extend_from_slice(b"root/a.txt");
    expected.extend_from_slice(b"DAT");
    expected.extend_from_slice(&[0, 0, 0, 0, 0, 0, 0, 2]);
    expected.extend_from_slice(b"hi");
    expected.extend_from_slice(b"PTH");
    expected.extend_from_slice(&[0x00, 0x0E]); // "root/sub/b.bin" is 14 bytes
    expected.extend_from_slice(b"root/sub/b.bin");
    expected.extend_from_slice(b"DAT");
    expected.extend_from_slice(&[0, 0, 0, 0, 0, 0, 0, 2]);
    expected.extend_from_slice(&[0x00, 0x01]);
    assert_eq!(bytes, expected);

    let decoded = decode_archive(&bytes).unwrap();
    assert_same_entries(&entries, &decoded);
}

#[test]
fn round_trip_mixed_tree() {
    let entries = vec![
        entry("tree/empty.bin", b""),
        entry("tree/a/b/c/deep.txt", b"nested content"),
        entry("tree/blob", &[0xFF, 0x00, 0x7F, 0x80, 0x0A]),
        entry("tree/a/b/c/deep2.txt", b"x"),
    ];
    let bytes = encode_archive(&entries).unwrap();
    let decoded = decode_archive(&bytes).unwrap();
    assert_same_entries(&entries, &decoded);
}

#[test]
fn round_trip_empty_archive() {
    let entries: Vec<Entry> = Vec::new();
    let bytes = encode_archive(&entries).unwrap();
    assert_eq!(bytes, b"<!BKAR!>".to_vec());
    let decoded = decode_archive(&bytes).unwrap();
    assert_eq!(decoded.len(), 0);
}

#[test]
fn decode_is_deterministic_across_calls() {
    let entries = vec![entry("d/one", b"1"), entry("d/two", b"22")];
    let bytes = encode_archive(&entries).unwrap();
    let first = decode_archive(&bytes).unwrap();
    let second = decode_archive(&bytes).unwrap();
    assert_same_entries(&first, &second);
    assert_same_entries(&entries, &second);
}

#[test]
fn path_of_exactly_4096_bytes_succeeds() {
    let long = "p".repeat(4096);
    let entries = vec![entry(&long, b"data")];
    let bytes = encode_archive(&entries).unwrap();
    // tag + length + path + tag + length + data
    assert_eq!(bytes.len(), 8 + 3 + 2 + 4096 + 3 + 8 + 4);
    assert_eq!(&bytes[11..13], &[0x10, 0x00]); // 4096 big-endian
    let decoded = decode_archive(&bytes).unwrap();
    assert_same_entries(&entries, &decoded);
}

#[test]
fn path_of_4097_bytes_fails_with_path_too_large() {
    let long = "p".repeat(4097);
    let entries = vec![entry(&long, b"data")];
    assert_eq!(encode_archive(&entries), Err(ArchiveError::PathTooLarge));
}

#[test]
fn oversized_path_leaves_earlier_entries_unwritten() {
    let entries = vec![entry("ok", b"fine"), entry(&"q".repeat(5000), b"")];
    assert_eq!(encode_archive(&entries), Err(ArchiveError::PathTooLarge));
}
