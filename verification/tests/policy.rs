//! Archive repacking policy resolution.

use asset_convert::archive::{entry_name, resolve_byml_policy, resolve_policy, Endianness};

#[test]
fn no_option_defaults_to_compressed_little_endian() {
    let p = resolve_policy(None);
    assert_eq!(p.byte_order, Endianness::Little);
    assert_eq!(p.extension, "szs");
    assert!(p.compressed);
}

#[test]
fn big_endian_platform_with_plain_vocabulary_entry() {
    let p = resolve_policy(Some("wiiu, bactorpack"));
    assert_eq!(p.byte_order, Endianness::Big);
    assert_eq!(p.extension, "bactorpack");
    assert!(!p.compressed);
}

#[test]
fn portable_platform_keyword_stays_little_endian() {
    let p = resolve_policy(Some("switch szs"));
    assert_eq!(p.byte_order, Endianness::Little);
    assert_eq!(p.extension, "szs");
    assert!(p.compressed);
}

#[test]
fn portable_keyword_beats_big_endian_keyword() {
    let p = resolve_policy(Some("3ds wiiu"));
    assert_eq!(p.byte_order, Endianness::Little);
}

#[test]
fn spaced_big_endian_platform_name_counts() {
    let p = resolve_policy(Some("wii u"));
    assert_eq!(p.byte_order, Endianness::Big);
}

#[test]
fn uncompressed_keyword_gives_the_generic_plain_extension() {
    let p = resolve_policy(Some("uncompressed please"));
    assert_eq!(p.extension, "sarc");
    assert!(!p.compressed);
}

#[test]
fn compressed_keyword_gives_the_generic_wrapped_extension() {
    let p = resolve_policy(Some("compressed"));
    assert_eq!(p.extension, "szs");
    assert!(p.compressed);
}

#[test]
fn yaz0_keyword_counts_as_compressed() {
    let p = resolve_policy(Some("yaz0"));
    assert_eq!(p.extension, "szs");
    assert!(p.compressed);
}

#[test]
fn a_compressed_entry_beats_an_independent_plain_entry() {
    let p = resolve_policy(Some("szs sarc"));
    assert_eq!(p.extension, "szs");
    assert!(p.compressed);
}

#[test]
fn a_wrapped_name_is_not_read_as_its_plain_tail() {
    // `ssarc` contains `sarc` and `arc`, but only as parts of itself
    let p = resolve_policy(Some("ssarc"));
    assert_eq!(p.extension, "ssarc");
    assert!(p.compressed);
}

#[test]
fn a_bare_compressed_entry_counts() {
    let p = resolve_policy(Some("pack"));
    assert_eq!(p.extension, "pack");
    assert!(p.compressed);
}

#[test]
fn vocabulary_beats_the_generic_keywords() {
    let p = resolve_policy(Some("uncompressed stats"));
    assert_eq!(p.extension, "stats");
    assert!(p.compressed);
}

#[test]
fn byml_no_option_defaults_to_plain() {
    let p = resolve_byml_policy(None);
    assert_eq!(p.byte_order, Endianness::Little);
    assert_eq!(p.extension, "byml");
    assert!(!p.compressed);
}

#[test]
fn byml_wrapped_entry_wins_over_its_plain_tail() {
    let p = resolve_byml_policy(Some("wiiu sbyml"));
    assert_eq!(p.byte_order, Endianness::Big);
    assert_eq!(p.extension, "sbyml");
    assert!(p.compressed);
}

#[test]
fn byml_plain_entry_is_kept_plain() {
    let p = resolve_byml_policy(Some("mubin"));
    assert_eq!(p.byte_order, Endianness::Little);
    assert_eq!(p.extension, "mubin");
    assert!(!p.compressed);
}

#[test]
fn named_entries_keep_their_names() {
    assert_eq!(entry_name(Some(String::from("a/b.bin")), 7), "a/b.bin");
}

#[test]
fn unnamed_entries_get_positional_names() {
    assert_eq!(entry_name(None, 0), "0.bin");
    assert_eq!(entry_name(None, 12), "12.bin");
}
