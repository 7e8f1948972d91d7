//! Classification and dispatch behavior.

use asset_convert::dispatch::{conclude, next_attempt, registry, settle, ConversionRequest};
use asset_convert::error::{ConvertError, ConvertErrorKind};
use asset_convert::matcher::{
    check_if_byml, check_if_motion_bin, check_if_sarc, ConverterKind, Direction, MaterialConverter,
    MotionListConverter, MscsbConverter, Nus3audioConverter, NutexbConverter, ParamConverter,
    SarcConverter, SqbConverter, BymlConverter, LuaConverter, MOTION_MAGIC,
};

#[test]
fn the_registry_order_is_fixed() {
    let r = registry();
    assert_eq!(
        r,
        vec![
            ConverterKind::Mscsb,
            ConverterKind::Nus3audio,
            ConverterKind::Param,
            ConverterKind::MotionList,
            ConverterKind::Sqb,
            ConverterKind::Material,
            ConverterKind::Nutexb,
            ConverterKind::Sarc,
        ]
    );
}

#[test]
fn extensions_pick_their_converters() {
    assert_eq!(MscsbConverter.get_conversion("c", None), Direction::ConvertTo);
    assert_eq!(MscsbConverter.get_conversion("mscsb", None), Direction::ConvertFrom);
    assert_eq!(Nus3audioConverter.get_conversion("wav", None), Direction::ConvertTo);
    assert_eq!(Nus3audioConverter.get_conversion("lopus", None), Direction::ConvertTo);
    assert_eq!(Nus3audioConverter.get_conversion("nus3audio", None), Direction::ConvertFrom);
    assert_eq!(ParamConverter.get_conversion("xml", None), Direction::ConvertTo);
    assert_eq!(ParamConverter.get_conversion("prc", None), Direction::ConvertFrom);
    assert_eq!(ParamConverter.get_conversion("stprm", None), Direction::ConvertFrom);
    assert_eq!(ParamConverter.get_conversion("stdat", None), Direction::ConvertFrom);
    assert_eq!(SqbConverter.get_conversion("yaml", None), Direction::ConvertTo);
    assert_eq!(SqbConverter.get_conversion("sqb", None), Direction::ConvertFrom);
    assert_eq!(MaterialConverter.get_conversion("xml", None), Direction::ConvertTo);
    assert_eq!(MaterialConverter.get_conversion("numatb", None), Direction::ConvertFrom);
    assert_eq!(NutexbConverter.get_conversion("dds", None), Direction::ConvertTo);
    assert_eq!(NutexbConverter.get_conversion("nutexb", None), Direction::NoMatch);
    assert_eq!(SarcConverter.get_conversion("zip", None), Direction::ConvertTo);
    assert_eq!(BymlConverter.get_conversion("yml", None), Direction::ConvertTo);
    assert_eq!(LuaConverter.get_conversion("lua", None), Direction::ConvertTo);
    assert_eq!(LuaConverter.get_conversion("lc", None), Direction::ConvertFrom);
}

#[test]
fn archive_signatures_match_by_magic() {
    assert!(check_if_sarc(Some(&b"SARC....".to_vec())));
    assert!(check_if_sarc(Some(&b"Yaz0....".to_vec())));
    assert!(!check_if_sarc(Some(&b"PK\x03\x04".to_vec())));
    assert!(!check_if_sarc(Some(&b"SA".to_vec())));
    assert!(!check_if_sarc(None));
    let c = SarcConverter.get_conversion("bin", Some(&b"SARC....".to_vec()));
    assert_eq!(c, Direction::ConvertFrom);
}

#[test]
fn byml_signatures_match_in_either_byte_order() {
    assert!(check_if_byml(Some(&b"BY\x00\x01".to_vec())));
    assert!(check_if_byml(Some(&b"YB\x00\x01".to_vec())));
    assert!(check_if_byml(Some(&b"Yaz0....".to_vec())));
    assert!(!check_if_byml(Some(&b"XX".to_vec())));
    assert!(!check_if_byml(None));
}

#[test]
fn the_motion_tag_is_an_embedded_hashed_keyword() {
    let head = MOTION_MAGIC.to_le_bytes().to_vec();
    assert!(check_if_motion_bin(Some(&head)));
    assert_eq!(
        MotionListConverter.get_conversion("bin", Some(&head)),
        Direction::ConvertFrom
    );
    // the same bytes under another extension stay unmatched
    assert_eq!(MotionListConverter.get_conversion("txt", Some(&head)), Direction::NoMatch);
    // an unreadable head is a non-match, not an error
    assert_eq!(MotionListConverter.get_conversion("bin", None), Direction::NoMatch);
}

#[test]
fn the_motion_tag_agrees_with_the_hashing_crate() {
    assert_eq!(hash40::hash40("motion").0, MOTION_MAGIC);
}

#[test]
fn overlapping_extensions_fall_through_in_order() {
    // yaml: motion list first, then the sound-sequence table
    let first = next_attempt("yaml", None, 0).unwrap();
    assert_eq!((first.0, first.1, first.2), (3, ConverterKind::MotionList, Direction::ConvertTo));
    let second = next_attempt("yaml", None, first.0 + 1).unwrap();
    assert_eq!((second.0, second.1), (4, ConverterKind::Sqb));
    // xml: the param tree first, then the material table
    let first = next_attempt("xml", None, 0).unwrap();
    assert_eq!((first.0, first.1), (2, ConverterKind::Param));
    let second = next_attempt("xml", None, first.0 + 1).unwrap();
    assert_eq!((second.0, second.1), (5, ConverterKind::Material));
    assert!(next_attempt("xml", None, second.0 + 1).is_none());
}

#[test]
fn an_unclaimed_input_yields_the_bad_extension_error() {
    assert!(next_attempt("docx", None, 0).is_none());
    assert!(next_attempt("", Some(&vec![0u8; 16]), 0).is_none());
    let e = conclude(None);
    assert_eq!(e.kind, ConvertErrorKind::BadExtension);
    assert!(e.message.starts_with("Unsupported Filetype. Supported types: "));
    assert!(e.message.contains("nus3audio"));
}

#[test]
fn dispatch_choice_is_deterministic() {
    let head = Some(b"SARC....".to_vec());
    let a = next_attempt("bin", head.as_ref(), 0);
    let b = next_attempt("bin", head.as_ref(), 0);
    assert_eq!(a, b);
    assert_eq!(a.unwrap().1, ConverterKind::Sarc);
}

#[test]
fn the_last_failure_is_kept() {
    let e = conclude(Some(ConvertError::param("second failure")));
    assert_eq!(e.kind, ConvertErrorKind::Param);
    assert_eq!(e.message, "second failure");
}

#[test]
fn settle_returns_the_output_when_all_is_well() {
    let r = settle(Ok(String::from("out.szs")), None, true);
    assert_eq!(r.unwrap(), "out.szs");
}

#[test]
fn settle_reports_a_missing_output() {
    let r = settle(Ok(String::from("out.szs")), None, false).unwrap_err();
    assert_eq!(r.kind, ConvertErrorKind::File);
    assert_eq!(r.message, "Returned file not found");
}

#[test]
fn settle_surfaces_a_deletion_failure_only_on_success() {
    let r = settle(Ok(String::from("out.szs")), Some(String::from("io trouble")), true)
        .unwrap_err();
    assert_eq!(r.kind, ConvertErrorKind::File);
    assert_eq!(r.message, "io trouble");
    // on the error path the conversion error takes precedence
    let r2 = settle(
        Err(ConvertError::msc("tool said no")),
        Some(String::from("io trouble")),
        false,
    )
    .unwrap_err();
    assert_eq!(r2.kind, ConvertErrorKind::Msc);
    assert_eq!(r2.message, "tool said no");
}

#[test]
fn requests_normalize_an_empty_option() {
    let r = ConversionRequest::new(String::from("/tmp/a.wav"), "");
    assert!(r.option.is_none());
    let r2 = ConversionRequest::new(String::from("/tmp/a.wav"), "10-20");
    assert_eq!(r2.option.as_deref(), Some("10-20"));
}

#[test]
fn tool_runs_are_judged_by_status_and_output() {
    let ok = MscsbConverter.assess(true, "", "", String::from("a.c"));
    assert_eq!(ok.unwrap(), "a.c");
    let e = MscsbConverter.assess(false, "out", "err", String::from("a.c")).unwrap_err();
    assert_eq!(e.kind, ConvertErrorKind::Msc);
    assert_eq!(e.message, "out\nerr");

    let e = MaterialConverter.assess(true, false, "boom", String::from("a.numatb")).unwrap_err();
    assert_eq!(e.kind, ConvertErrorKind::Param);
    assert_eq!(e.message, "boom");

    let e = LuaConverter.assess(false, true, "boom", String::from("a.lc")).unwrap_err();
    assert_eq!(e.kind, ConvertErrorKind::Param);

    assert!(Nus3audioConverter.assess_resample(true, "", "").is_ok());
    let e = Nus3audioConverter.assess_resample(false, "o", "e").unwrap_err();
    assert_eq!(e.kind, ConvertErrorKind::Nus3audio);
    assert_eq!(e.message, "oe");

    assert!(Nus3audioConverter.assess_encode(true, true, false, "", "").is_ok());
    let e = Nus3audioConverter.assess_encode(true, true, true, "e", "o").unwrap_err();
    assert_eq!(e.message, "eo");

    let ok = Nus3audioConverter.assess_extract(true, true, "", String::from("x.wav"));
    assert_eq!(ok.unwrap(), "x.wav");
    let e = Nus3audioConverter.assess_extract(true, false, "gone", String::from("x.wav"))
        .unwrap_err();
    assert_eq!(e.message, "gone");
}
