//! Path handling, text utilities, the error taxonomy, and the song table.

use asset_convert::as_non_empty_string;
use asset_convert::error::{supported_types, ConvertError, ConvertErrorKind};
use asset_convert::paths::{extension, file_stem, to_arc_path, with_extension};
use asset_convert::songs::setup_songs;
use asset_convert::text::u64_to_dec;

#[test]
fn the_extension_is_the_dispatch_key() {
    assert_eq!(extension("/tmp/converter/song.wav"), "wav");
    assert_eq!(extension("archive.tar.gz"), "gz");
    assert_eq!(extension("noext"), "");
    assert_eq!(extension(".hidden"), "");
    assert_eq!(extension("dir.d/noext"), "");
    assert_eq!(extension(""), "");
    assert_eq!(extension(".."), "");
    assert_eq!(extension("a/b.motion_list.bin"), "bin");
}

#[test]
fn outputs_sit_next_to_their_inputs() {
    assert_eq!(with_extension("/tmp/a.wav", "lopus"), "/tmp/a.lopus");
    assert_eq!(with_extension("/tmp/a.wav", "nus3audio"), "/tmp/a.nus3audio");
    assert_eq!(with_extension("noext", "zip"), "noext.zip");
    assert_eq!(with_extension("a.tar.gz", "zip"), "a.tar.zip");
    assert_eq!(with_extension(".hidden", "zip"), ".hidden.zip");
    // replacing with the same extension is the identity
    assert_eq!(with_extension("/tmp/a.lopus", "lopus"), "/tmp/a.lopus");
}

#[test]
fn the_stem_names_the_audio_entry() {
    assert_eq!(file_stem("/tmp/track01.wav"), Some("track01"));
    assert_eq!(file_stem("noext"), Some("noext"));
    assert_eq!(file_stem(".hidden"), Some(".hidden"));
    assert_eq!(file_stem(""), None);
    assert_eq!(file_stem("a/"), None);
}

#[test]
fn requested_paths_resolve_under_the_shared_root() {
    assert_eq!(to_arc_path("fighter/mario"), Some(String::from("/arc/fighter/mario")));
    assert_eq!(to_arc_path("/fighter//mario/"), Some(String::from("/arc/fighter/mario")));
    assert_eq!(to_arc_path(""), Some(String::from("/arc")));
    assert_eq!(to_arc_path("../etc/passwd"), None);
    assert_eq!(to_arc_path("a/../b"), None);
    assert_eq!(to_arc_path("a/..b"), Some(String::from("/arc/a/..b")));
}

#[test]
fn empty_options_read_as_no_option() {
    assert_eq!(as_non_empty_string(""), None);
    assert_eq!(as_non_empty_string("x"), Some("x"));
}

#[test]
fn numbers_render_in_decimal() {
    assert_eq!(u64_to_dec(0), "0");
    assert_eq!(u64_to_dec(7), "7");
    assert_eq!(u64_to_dec(1000), "1000");
    assert_eq!(u64_to_dec(u64::MAX), "18446744073709551615");
}

#[test]
fn every_error_kind_is_constructible() {
    assert_eq!(ConvertError::bad_extension().kind, ConvertErrorKind::BadExtension);
    assert_eq!(ConvertError::param("p").kind, ConvertErrorKind::Param);
    assert_eq!(ConvertError::nus3audio("n").kind, ConvertErrorKind::Nus3audio);
    assert_eq!(ConvertError::file("f").kind, ConvertErrorKind::File);
    assert_eq!(ConvertError::msc("m").kind, ConvertErrorKind::Msc);
    assert_eq!(ConvertError::message_format("x").kind, ConvertErrorKind::MessageFormat);
    assert_eq!(ConvertError::param("p").message, "p");
}

#[test]
fn the_supported_types_listing_is_complete() {
    let s = supported_types();
    for t in ["prc", "xml", "wav", "lopus", "nus3audio", "dds", "mscsb", "sqb", "zip", "sarc"] {
        assert!(s.contains(t));
    }
}

#[test]
fn the_song_table_keeps_usable_rows_in_order() {
    let tsv = "Battlefield\tsong01\tsong02\nbroken\nMenu\tmenu";
    let table = setup_songs(tsv);
    assert_eq!(table.len(), 2);
    assert_eq!(table[0].0, "Battlefield");
    assert_eq!(
        table[0].1,
        vec![String::from("bgm_song01.nus3audio"), String::from("bgm_song02.nus3audio")]
    );
    assert_eq!(table[1].0, "Menu");
    assert_eq!(table[1].1, vec![String::from("bgm_menu.nus3audio")]);
}

#[test]
fn an_empty_song_list_is_empty() {
    assert_eq!(setup_songs("").len(), 0);
}
