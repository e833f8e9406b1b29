use bkar::archive::{encode_archive, write_data_box, write_path_box, ArchiveError, Entry};
use bkar::decode::{check_archive_identifier, decode_archive};
use bkar::format::{push_u16_be, push_u64_be, read_u16_be, read_u64_be};
use bkar::paths::relative_to_root;

fn entry(path: &str, data: &[u8]) -> Entry {
    Entry { path: path.as_bytes().to_vec(), data: data.to_vec() }
}

#[test]
fn empty_stream_is_invalid() {
    let bytes: Vec<u8> = Vec::new();
    assert_eq!(decode_archive(&bytes), Err(ArchiveError::InvalidArchive));
}

#[test]
fn short_identifier_is_invalid() {
    let bytes = b"<!BKAR!".to_vec(); // seven bytes
    assert_eq!(decode_archive(&bytes), Err(ArchiveError::InvalidArchive));
}

#[test]
fn wrong_identifier_is_invalid() {
    let mut bytes = b"<!BKAR!)".to_vec(); // last byte differs
    assert!(!check_archive_identifier(&bytes));
    assert_eq!(decode_archive(&bytes), Err(ArchiveError::InvalidArchive));
    bytes.extend_from_slice(b"PTH\x00\x01aDAT\x00\x00\x00\x00\x00\x00\x00\x00");
    assert_eq!(decode_archive(&bytes), Err(ArchiveError::InvalidArchive));
}

#[test]
fn unexpected_tag_at_entry_boundary_is_invalid() {
    let mut bytes = b"<!BKAR!>".to_vec();
    bytes.extend_from_slice(b"XTH\x00\x01a");
    assert_eq!(decode_archive(&bytes), Err(ArchiveError::InvalidArchive));
}

#[test]
fn path_box_without_data_box_is_invalid() {
    let mut bytes = b"<!BKAR!>".to_vec();
    bytes.extend_from_slice(b"PTH\x00\x01a");
    assert_eq!(decode_archive(&bytes), Err(ArchiveError::InvalidArchive));
}

#[test]
fn second_path_box_in_place_of_data_box_is_invalid() {
    let mut bytes = b"<!BKAR!>".to_vec();
    bytes.extend_from_slice(b"PTH\x00\x01a");
    bytes.extend_from_slice(b"PTH\x00\x01b");
    assert_eq!(decode_archive(&bytes), Err(ArchiveError::InvalidArchive));
}

#[test]
fn truncated_final_data_box_is_invalid() {
    let entries = vec![entry("f/full", b"complete"), entry("f/cut", b"abcdef")];
    let whole = encode_archive(&entries).unwrap();
    // Drop the final byte: the last data box announces six bytes but carries five.
    let cut = whole[..whole.len() - 1].to_vec();
    assert_eq!(decode_archive(&cut), Err(ArchiveError::InvalidArchive));
    // Cutting into the length field or the tag must fail too.
    let deep_cut = whole[..whole.len() - 10].to_vec();
    assert_eq!(decode_archive(&deep_cut), Err(ArchiveError::InvalidArchive));
}

#[test]
fn trailing_garbage_after_last_entry_is_invalid() {
    let entries = vec![entry("g/file", b"data")];
    let mut bytes = encode_archive(&entries).unwrap();
    bytes.push(0x00);
    assert_eq!(decode_archive(&bytes), Err(ArchiveError::InvalidArchive));
}

#[test]
fn data_box_length_is_honoured_exactly() {
    // A data box longer than one 4096-byte chunk, with a boundary-straddling tail.
    let big = vec![0xABu8; 4096 * 2 + 37];
    let entries = vec![entry("big/file", &big)];
    let bytes = encode_archive(&entries).unwrap();
    let decoded = decode_archive(&bytes).unwrap();
    assert_eq!(decoded.len(), 1);
    assert_eq!(decoded[0].data, big);
}

#[test]
fn box_writers_emit_tag_length_payload() {
    let mut out: Vec<u8> = Vec::new();
    write_path_box(&mut out, &b"dir/file".to_vec()).unwrap();
    assert_eq!(out, b"PTH\x00\x08dir/file".to_vec());

    let mut refused: Vec<u8> = Vec::new();
    let r = write_path_box(&mut refused, &vec![0x61u8; 4097]);
    assert_eq!(r, Err(ArchiveError::PathTooLarge));
    assert!(refused.is_empty());

    let mut data_out: Vec<u8> = Vec::new();
    write_data_box(&mut data_out, &b"xyz".to_vec());
    assert_eq!(data_out, b"DAT\x00\x00\x00\x00\x00\x00\x00\x03xyz".to_vec());
}

#[test]
fn big_endian_fields_round_trip() {
    let mut out: Vec<u8> = Vec::new();
    push_u16_be(&mut out, 0x1234);
    assert_eq!(out, vec![0x12, 0x34]);
    assert_eq!(read_u16_be(&out, 0), 0x1234);

    let mut wide: Vec<u8> = Vec::new();
    push_u64_be(&mut wide, 0x0102030405060708);
    assert_eq!(wide, vec![0x01, 0x02, 0x03, 0x04, 0x05, 0x06, 0x07, 0x08]);
    assert_eq!(read_u64_be(&wide, 0), 0x0102030405060708);

    let mut zero: Vec<u8> = Vec::new();
    push_u16_be(&mut zero, 0);
    push_u64_be(&mut zero, u64::MAX);
    assert_eq!(zero, vec![0, 0, 0xFF, 0xFF, 0xFF, 0xFF, 0xFF, 0xFF, 0xFF, 0xFF]);
}

#[test]
fn relative_path_strips_root_and_separator() {
    let path = b"/home/user/tree/sub/file.txt".to_vec();
    let root = b"/home/user".to_vec();
    assert_eq!(relative_to_root(&path, &root), Some(b"tree/sub/file.txt".to_vec()));
}

#[test]
fn relative_path_handles_repeated_directory_names() {
    // A substring-removal approach would also corrupt the inner "ab/".
    let path = b"base/ab/dir/ab/file".to_vec();
    let root = b"base/ab".to_vec();
    assert_eq!(relative_to_root(&path, &root), Some(b"dir/ab/file".to_vec()));
}

#[test]
fn relative_path_rejects_paths_outside_root() {
    assert_eq!(relative_to_root(&b"other/file".to_vec(), &b"root".to_vec()), None);
    // The root itself, with no separator and trailing component, is not under the root.
    assert_eq!(relative_to_root(&b"root".to_vec(), &b"root".to_vec()), None);
    // A sibling whose name merely extends the root is not under it either.
    assert_eq!(relative_to_root(&b"rootish/file".to_vec(), &b"root".to_vec()), None);
}
