//! Classified conversion errors.
//!
//! Every failure of the conversion pipeline is reported as a [`ConvertError`]:
//! a kind drawn from a fixed taxonomy plus a human-readable message. An error
//! never carries partial output.

use vstd::prelude::*;
use vstd::string::StringExecFns;

verus! {

/// The taxonomy of conversion failures.
#[derive(Debug, Clone, Copy, PartialEq, Eq, Structural)]
pub enum ConvertErrorKind {
    /// No registered converter claims the input.
    BadExtension,
    /// A parameter/tool failure: an external process failed or misbehaved.
    Param,
    /// An audio-specific failure (resampling, encoding, loop validation).
    Nus3audio,
    /// A script-code conversion failure.
    Msc,
    /// A filesystem failure, or a converter that produced no output.
    File,
    /// A required value was absent.
    HandleNone,
    /// A structured-text (de)serialization failure.
    YamlError,
    /// External tool output was not valid UTF-8.
    Utf8Error,
    /// A numeric field failed to parse.
    ParseIntError,
    /// An option string did not match any accepted syntax.
    MessageFormat,
    /// A waveform-file failure.
    WaveError,
    /// An archive-container read or write failure.
    SarcError,
    /// A zip-archive read or write failure.
    ZipError,
}

/// A classified conversion failure with a human-readable message.
#[derive(Debug, Clone)]
pub struct ConvertError {
    pub message: String,
    pub kind: ConvertErrorKind,
}

/// The comma-separated listing of supported input types, as shown to users
/// when no converter matches.
pub open spec fn supported_types_list() -> Seq<char> {
    "prc, xml, wav, lopus, nus3audio, dds, mscsb, c, sqb, yaml, numatb, stprm, stdat, motion_list.bin, zip, sarc, szs, pack, bactorpack, bmodelsh, beventpack, stera, stats, arc, bars, blarc, bgenv, genvb"@
}

/// The listing of supported input types.
pub fn supported_types() -> (s: &'static str)
    ensures
        s@ == supported_types_list(),
{
    "prc, xml, wav, lopus, nus3audio, dds, mscsb, c, sqb, yaml, numatb, stprm, stdat, motion_list.bin, zip, sarc, szs, pack, bactorpack, bmodelsh, beventpack, stera, stats, arc, bars, blarc, bgenv, genvb"
}

impl ConvertError {
    /// The error returned when no converter claims an input; its message
    /// lists the supported types.
    pub fn bad_extension() -> (e: ConvertError)
        ensures
            e.kind == ConvertErrorKind::BadExtension,
            e.message@ == "Unsupported Filetype. Supported types: "@ + supported_types_list(),
    {
        ConvertError {
            message: String::from_str("Unsupported Filetype. Supported types: ").concat(
                supported_types(),
            ),
            kind: ConvertErrorKind::BadExtension,
        }
    }

    /// A parameter/tool failure carrying the given diagnostic.
    pub fn param(message: &str) -> (e: ConvertError)
        ensures
            e.kind == ConvertErrorKind::Param,
            e.message@ == message@,
    {
        ConvertError { message: String::from_str(message), kind: ConvertErrorKind::Param }
    }

    /// An audio-pipeline failure carrying the given diagnostic.
    pub fn nus3audio(message: &str) -> (e: ConvertError)
        ensures
            e.kind == ConvertErrorKind::Nus3audio,
            e.message@ == message@,
    {
        ConvertError { message: String::from_str(message), kind: ConvertErrorKind::Nus3audio }
    }

    /// A filesystem or missing-output failure carrying the given diagnostic.
    pub fn file(message: &str) -> (e: ConvertError)
        ensures
            e.kind == ConvertErrorKind::File,
            e.message@ == message@,
    {
        ConvertError { message: String::from_str(message), kind: ConvertErrorKind::File }
    }

    /// A script-code conversion failure carrying the given diagnostic.
    pub fn msc(message: &str) -> (e: ConvertError)
        ensures
            e.kind == ConvertErrorKind::Msc,
            e.message@ == message@,
    {
        ConvertError { message: String::from_str(message), kind: ConvertErrorKind::Msc }
    }

    /// An option-string syntax failure carrying the given diagnostic.
    pub fn message_format(message: &str) -> (e: ConvertError)
        ensures
            e.kind == ConvertErrorKind::MessageFormat,
            e.message@ == message@,
    {
        ConvertError { message: String::from_str(message), kind: ConvertErrorKind::MessageFormat }
    }
}

} // verus!
