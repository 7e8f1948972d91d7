//! The audio container codec, held against the established container
//! library byte for byte.

use asset_convert::container::{decode, encode, AudioEntry};
use asset_convert::error::ConvertErrorKind;

fn entry(name: &str, id: u32, data: Vec<u8>) -> AudioEntry {
    AudioEntry { name: String::from(name), id, data }
}

#[test]
fn round_trip_returns_the_same_entry() {
    let e = entry("loop_track", 0, vec![1, 2, 3, 4, 5, 0, 255, 7]);
    let bytes = encode(&e);
    let back = decode(&bytes).unwrap();
    assert_eq!(back.name, "loop_track");
    assert_eq!(back.id, 0);
    assert_eq!(back.data, vec![1, 2, 3, 4, 5, 0, 255, 7]);
}

#[test]
fn round_trip_keeps_an_empty_payload() {
    let e = entry("x", 9, vec![]);
    let back = decode(&encode(&e)).unwrap();
    assert_eq!(back.name, "x");
    assert_eq!(back.id, 9);
    assert_eq!(back.data, Vec::<u8>::new());
}

#[test]
fn encoding_matches_the_established_library() {
    let data = vec![0x4fu8, 0x50, 0x55, 0x53, 9, 8, 7, 6, 5];
    let nus = nus3audio::Nus3audioFile {
        files: vec![nus3audio::AudioFile {
            id: 0,
            name: String::from("test_name"),
            data: data.clone(),
        }],
    };
    let mut theirs: Vec<u8> = Vec::with_capacity(nus.calc_size());
    nus.write(&mut theirs);

    let e = entry("test_name", 0, data);
    assert_eq!(e.calc_size(), nus.calc_size());
    let ours = encode(&e);
    assert_eq!(ours, theirs);
}

#[test]
fn the_established_library_reads_our_output() {
    let e = entry("voice", 3, vec![10, 20, 30]);
    let bytes = encode(&e);
    let nus = nus3audio::Nus3audioFile::from_bytes(&bytes);
    assert_eq!(nus.files.len(), 1);
    assert_eq!(nus.files[0].name, "voice");
    assert_eq!(nus.files[0].id, 3);
    assert_eq!(nus.files[0].data, vec![10, 20, 30]);
}

#[test]
fn an_empty_container_is_rejected_not_indexed() {
    let nus = nus3audio::Nus3audioFile { files: vec![] };
    let mut bytes: Vec<u8> = Vec::with_capacity(nus.calc_size());
    nus.write(&mut bytes);
    let e = decode(&bytes).unwrap_err();
    assert_eq!(e.kind, ConvertErrorKind::Nus3audio);
}

#[test]
fn garbage_is_rejected() {
    assert!(decode(&vec![]).is_err());
    assert!(decode(&vec![0, 1, 2, 3, 4, 5, 6, 7, 8]).is_err());
    let mut almost = encode(&entry("a", 0, vec![1]));
    almost[0] = b'X';
    assert!(decode(&almost).is_err());
}

#[test]
fn a_truncated_container_is_rejected() {
    let bytes = encode(&entry("abc", 0, vec![1, 2, 3, 4]));
    let cut = bytes[..bytes.len() - 3].to_vec();
    assert!(decode(&cut).is_err());
}

#[test]
fn extracted_names_follow_the_payload_magic() {
    assert_eq!(entry("a", 0, b"OPUS....".to_vec()).filename(), "a.lopus");
    assert_eq!(entry("b", 0, b"IDSP....".to_vec()).filename(), "b.idsp");
    assert_eq!(entry("c", 0, vec![1, 2, 3, 4]).filename(), "c.bin");
    assert_eq!(entry("d", 0, vec![1]).filename(), "d.bin");
}

#[test]
fn the_size_is_computed_before_writing() {
    for name in ["", "a", "abcdefghij", "abcdefghijklmno"] {
        for plen in [0usize, 1, 15, 16, 17, 1000] {
            let e = entry(name, 0, vec![7u8; plen]);
            let bytes = encode(&e);
            assert_eq!(bytes.len(), e.calc_size());
        }
    }
}
