use gma::read;
use gma::Builder;
use gma::GmaError;

fn push_u32(v: &mut Vec<u8>, x: u32) {
    v.extend_from_slice(&x.to_le_bytes());
}

fn push_u64(v: &mut Vec<u8>, x: u64) {
    v.extend_from_slice(&x.to_le_bytes());
}

fn push_i64(v: &mut Vec<u8>, x: i64) {
    v.extend_from_slice(&x.to_le_bytes());
}

fn push_cstr(v: &mut Vec<u8>, s: &str) {
    v.extend_from_slice(s.as_bytes());
    v.push(0);
}

/// A hand-written stream with one entry, following the wire format byte by
/// byte.
fn sample_stream() -> Vec<u8> {
    let mut v = Vec::new();
    v.extend_from_slice(b"GMAD");
    v.push(3); // version
    push_i64(&mut v, 76561198000000000); // owner identifier
    push_u64(&mut v, 1700000000); // timestamp, ignored
    v.push(0); // required-content flag
    push_cstr(&mut v, "my addon");
    push_cstr(&mut v, "a description");
    push_cstr(&mut v, "an author");
    push_u32(&mut v, 1); // addon version, ignored
    push_u32(&mut v, 1); // first metadata record: index 1
    push_cstr(&mut v, "lua/init.lua");
    push_i64(&mut v, 5); // declared size
    push_u32(&mut v, 0); // checksum, ignored
    push_u32(&mut v, 0); // end of metadata
    v.extend_from_slice(b"hello");
    push_u32(&mut v, 0); // trailing marker
    v
}

#[test]
fn decodes_handcrafted_stream() {
    let v = sample_stream();
    let a = read(&v).unwrap();
    assert_eq!(a.addon_name, "my addon");
    assert_eq!(a.addon_description, "a description");
    assert_eq!(a.addon_author, "an author");
    assert_eq!(a.steam_id64, 76561198000000000);
    assert_eq!(a.entries.len(), 1);
    assert_eq!(a.entries[0].name, "lua/init.lua");
    assert_eq!(a.entries[0].content, b"hello".to_vec());
    assert_eq!(a.entries[0].size, 5);
}

#[test]
fn round_trip_binary_entries() {
    let mut b = Builder::new("roundtrip addon".to_owned(), -42);
    b.set_description("desc with unicode: caf\u{e9}".to_owned());
    b.set_author("someone".to_owned());
    b.file_from_bytes("bin/data".to_owned(), vec![0u8, 255, 1, 2, 0, 77]);
    b.file_from_string("text/readme.txt".to_owned(), "plain text".to_owned());
    b.file_from_bytes("empty/file".to_owned(), Vec::new());
    let mut out = Vec::new();
    b.write_to(&mut out).unwrap();
    let a = read(&out).unwrap();
    assert_eq!(a.addon_name, "roundtrip addon");
    assert_eq!(a.addon_description, "desc with unicode: caf\u{e9}");
    assert_eq!(a.addon_author, "someone");
    assert_eq!(a.steam_id64, -42);
    assert_eq!(a.entries.len(), 3);
    assert_eq!(a.entries[0].name, "bin/data");
    assert_eq!(a.entries[0].content, vec![0u8, 255, 1, 2, 0, 77]);
    assert_eq!(a.entries[1].name, "text/readme.txt");
    assert_eq!(a.entries[1].content, b"plain text".to_vec());
    assert_eq!(a.entries[2].name, "empty/file");
    assert_eq!(a.entries[2].content, Vec::<u8>::new());
    assert_eq!(a.entries[2].size, 0);
}

#[test]
fn default_author_and_description() {
    let b = Builder::new("x".to_owned(), 7);
    let mut out = Vec::new();
    b.write_to(&mut out).unwrap();
    let a = read(&out).unwrap();
    assert_eq!(a.addon_name, "x");
    assert_eq!(a.addon_description, "");
    assert_eq!(a.addon_author, "unknown");
    assert_eq!(a.steam_id64, 7);
    assert_eq!(a.entries.len(), 0);
}

#[test]
fn empty_archive_layout() {
    // name "a" (1 byte), empty description, default author "unknown" (7):
    // fixed fields take 22 bytes, strings 2 + 1 + 8, addon version 4,
    // so the zero metadata terminator sits right at offset 37.
    let b = Builder::new("a".to_owned(), 0);
    let mut out = Vec::new();
    b.write_to(&mut out).unwrap();
    assert_eq!(out.len(), 45);
    assert_eq!(&out[37..41], &[0u8, 0, 0, 0]); // metadata loop: terminator at once
    assert_eq!(&out[41..45], &[0u8, 0, 0, 0]); // trailing marker
    let a = read(&out).unwrap();
    assert_eq!(a.entries.len(), 0);
}

#[test]
fn header_rejection() {
    let mut v = sample_stream();
    v[0] = b'X';
    match read(&v) {
        Err(GmaError::InvalidHeader(h)) => assert_eq!(&h, b"XMAD"),
        other => panic!("expected InvalidHeader, got {:?}", other.map(|_| ())),
    }
}

#[test]
fn version_rejection() {
    let mut v = sample_stream();
    v[4] = 4;
    assert_eq!(read(&v).unwrap_err(), GmaError::InvalidVersion(4));
}

#[test]
fn truncation_in_fixed_field_gives_io() {
    let v = sample_stream();
    // cut inside the owner-identifier field
    assert_eq!(read(&v[..9]).unwrap_err(), GmaError::Io);
    // cut inside the content bytes
    assert_eq!(read(&v[..v.len() - 10]).unwrap_err(), GmaError::Io);
    // cut inside the trailing marker
    assert_eq!(read(&v[..v.len() - 2]).unwrap_err(), GmaError::Io);
}

#[test]
fn truncation_never_succeeds() {
    let v = sample_stream();
    for n in 0..v.len() {
        assert!(read(&v[..n]).is_err(), "prefix of {} bytes decoded", n);
    }
}

#[test]
fn missing_null_terminator() {
    let mut v = Vec::new();
    v.extend_from_slice(b"GMAD");
    v.push(3);
    push_i64(&mut v, 1);
    push_u64(&mut v, 0);
    v.push(0);
    v.extend_from_slice(b"never terminated");
    assert_eq!(read(&v).unwrap_err(), GmaError::MissingNullTerminator);
}

#[test]
fn negative_size_rejection() {
    let mut v = Vec::new();
    v.extend_from_slice(b"GMAD");
    v.push(3);
    push_i64(&mut v, 1);
    push_u64(&mut v, 0);
    v.push(0);
    push_cstr(&mut v, "n");
    push_cstr(&mut v, "");
    push_cstr(&mut v, "a");
    push_u32(&mut v, 1);
    push_u32(&mut v, 1);
    push_cstr(&mut v, "bad.bin");
    push_i64(&mut v, -1);
    push_u32(&mut v, 0);
    assert_eq!(read(&v).unwrap_err(), GmaError::SizeOutOfRange(-1));
}

#[test]
fn trailing_marker_enforcement() {
    let mut v = sample_stream();
    let n = v.len();
    v[n - 4..].copy_from_slice(&5u32.to_le_bytes());
    assert_eq!(read(&v).unwrap_err(), GmaError::TrailingMarkerMismatch(5));
}

#[test]
fn null_byte_rejection_in_name() {
    let b = Builder::new("bad\0name".to_owned(), 0);
    let mut out = Vec::new();
    assert_eq!(b.write_to(&mut out).unwrap_err(), GmaError::InvalidInput);
    assert!(out.is_empty());
}

#[test]
fn null_byte_rejection_in_entry_name() {
    let mut b = Builder::new("fine".to_owned(), 0);
    b.file_from_bytes("bad\0entry".to_owned(), vec![1, 2, 3]);
    let mut out = Vec::new();
    assert_eq!(b.write_to(&mut out).unwrap_err(), GmaError::InvalidInput);
    assert!(out.is_empty());
}

#[test]
fn null_byte_rejection_in_metadata_strings() {
    let mut b = Builder::new("fine".to_owned(), 0);
    b.set_description("d\0d".to_owned());
    let mut out = Vec::new();
    assert_eq!(b.write_to(&mut out).unwrap_err(), GmaError::InvalidInput);
    assert!(out.is_empty());

    let mut b2 = Builder::new("fine".to_owned(), 0);
    b2.set_author("a\0a".to_owned());
    let mut out2 = Vec::new();
    assert_eq!(b2.write_to(&mut out2).unwrap_err(), GmaError::InvalidInput);
    assert!(out2.is_empty());
}

#[test]
fn invalid_utf8_is_decoded_lossily() {
    let mut v = Vec::new();
    v.extend_from_slice(b"GMAD");
    v.push(3);
    push_i64(&mut v, 0);
    push_u64(&mut v, 0);
    v.push(0);
    v.extend_from_slice(&[b'a', 0xff, 0xfe, b'b']); // not valid UTF-8
    v.push(0);
    push_cstr(&mut v, "");
    push_cstr(&mut v, "");
    push_u32(&mut v, 1);
    push_u32(&mut v, 0);
    push_u32(&mut v, 0);
    let a = read(&v).unwrap();
    assert_eq!(a.addon_name, "a\u{fffd}\u{fffd}b");
}

#[test]
fn timestamp_and_ignored_fields_do_not_matter() {
    let mut v = sample_stream();
    // timestamp bytes
    v[13..21].copy_from_slice(&9999999u64.to_le_bytes());
    // required-content flag
    v[21] = 7;
    let a = read(&v).unwrap();
    assert_eq!(a.addon_name, "my addon");
    assert_eq!(a.entries.len(), 1);
}

#[test]
fn two_encodes_decode_alike() {
    let mut b = Builder::new("twice".to_owned(), 9);
    b.file_from_bytes("f".to_owned(), vec![8, 9]);
    let mut out1 = Vec::new();
    let mut out2 = Vec::new();
    b.write_to(&mut out1).unwrap();
    b.write_to(&mut out2).unwrap();
    let a1 = read(&out1).unwrap();
    let a2 = read(&out2).unwrap();
    assert_eq!(a1.addon_name, a2.addon_name);
    assert_eq!(a1.entries, a2.entries);
}

#[test]
fn garbage_after_trailer_is_ignored() {
    let mut v = sample_stream();
    v.extend_from_slice(b"junk past the end");
    let a = read(&v).unwrap();
    assert_eq!(a.entries.len(), 1);
}
