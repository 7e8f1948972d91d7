//! Format matching.
//!
//! Each converter decides from a file's extension, and where needed from its
//! first bytes, whether it applies and in which direction. Matching is
//! extension-first; binary containers without a distinctive extension are
//! recognized by magic bytes, and the motion-list container by a hashed
//! keyword tag at its start. A file head that could not be read counts as no
//! match: classification is total and never propagates a read failure.

use vstd::prelude::*;
use vstd::string::StringExecFns;
use crate::error::{ConvertError, ConvertErrorKind};
use crate::text::str_eq_str;

verus! {

/// The direction of a conversion: encode the human-editable form into the
/// binary one, decode the binary form back, or no match at all.
#[derive(Debug, Clone, Copy, PartialEq, Eq, Structural)]
pub enum Direction {
    ConvertTo,
    ConvertFrom,
    NoMatch,
}

/// The identity of each known format converter.
#[derive(Debug, Clone, Copy, PartialEq, Eq, Structural)]
pub enum ConverterKind {
    Mscsb,
    Nus3audio,
    Param,
    MotionList,
    Sqb,
    Material,
    Nutexb,
    Sarc,
    Byml,
    Lua,
}

/// The tag at the start of a motion-list binary: the hashed keyword
/// `motion`, its length in the upper word and its checksum in the lower.
pub const MOTION_MAGIC: u64 = 0x6F5FEA1E8;

/// The magic bytes of a compression-wrapped archive, `Yaz0` in ASCII.
pub open spec fn yaz0_magic() -> Seq<u8> {
    seq![0x59u8, 0x61u8, 0x7au8, 0x30u8]
}

/// The magic bytes of a plain archive container, `SARC` in ASCII.
pub open spec fn sarc_magic() -> Seq<u8> {
    seq![0x53u8, 0x41u8, 0x52u8, 0x43u8]
}

/// The view of an optional file head: `None` when the head could not be
/// read.
pub open spec fn head_view(h: Option<&Vec<u8>>) -> Option<Seq<u8>> {
    match h {
        Some(v) => Some(v@),
        Option::None => Option::<Seq<u8>>::None,
    }
}

/// The value of the first eight bytes read as a little-endian integer.
pub open spec fn spec_le_u64(b: Seq<u8>) -> int {
    b[0] + 0x100 * b[1] + 0x1_0000 * b[2] + 0x100_0000 * b[3] + 0x1_0000_0000 * b[4]
        + 0x100_0000_0000 * b[5] + 0x1_0000_0000_0000 * b[6] + 0x100_0000_0000_0000 * b[7]
}

/// Reads the first eight bytes of `v` as a little-endian integer.
pub fn le_u64_head(v: &Vec<u8>) -> (r: u64)
    requires
        v@.len() >= 8,
    ensures
        r == spec_le_u64(v@),
{
    let mut r: u64 = v[7] as u64;
    r = r * 0x100 + v[6] as u64;
    r = r * 0x100 + v[5] as u64;
    r = r * 0x100 + v[4] as u64;
    r = r * 0x100 + v[3] as u64;
    r = r * 0x100 + v[2] as u64;
    r = r * 0x100 + v[1] as u64;
    r = r * 0x100 + v[0] as u64;
    r
}

/// Whether a file head carries an archive signature: `Yaz0` or `SARC`.
pub open spec fn spec_is_sarc_head(h: Option<Seq<u8>>) -> bool {
    match h {
        Some(s) => s.len() >= 4 && (s.subrange(0, 4) == yaz0_magic() || s.subrange(0, 4)
            == sarc_magic()),
        Option::None => false,
    }
}

/// Whether a file head carries a structured-binary-data signature: a `BY` or
/// `YB` marker in either byte order, or a compression wrapper.
pub open spec fn spec_is_byml_head(h: Option<Seq<u8>>) -> bool {
    match h {
        Some(s) => (s.len() >= 2 && (s.subrange(0, 2) == seq![0x42u8, 0x59u8] || s.subrange(0, 2)
            == seq![0x59u8, 0x42u8])) || (s.len() >= 4 && s.subrange(0, 4) == yaz0_magic()),
        Option::None => false,
    }
}

/// Whether a file head carries the motion-list keyword tag.
pub open spec fn spec_is_motion_head(h: Option<Seq<u8>>) -> bool {
    match h {
        Some(s) => s.len() >= 8 && spec_le_u64(s) == MOTION_MAGIC,
        Option::None => false,
    }
}

/// Archive signature test on a file head.
pub fn check_if_sarc(head: Option<&Vec<u8>>) -> (b: bool)
    ensures
        b == spec_is_sarc_head(head_view(head)),
{
    match head {
        Some(v) => {
            if v.len() >= 4 {
                let yaz = v[0] == 0x59 && v[1] == 0x61 && v[2] == 0x7a && v[3] == 0x30;
                let sarc = v[0] == 0x53 && v[1] == 0x41 && v[2] == 0x52 && v[3] == 0x43;
                proof {
                    if yaz {
                        assert(v@.subrange(0, 4) =~= yaz0_magic());
                    } else {
                        assert(v@.subrange(0, 4) != yaz0_magic()) by {
                            assert(v@.subrange(0, 4)[0] == v@[0] && v@.subrange(0, 4)[1] == v@[1]
                                && v@.subrange(0, 4)[2] == v@[2] && v@.subrange(0, 4)[3] == v@[3]);
                        }
                    }
                    if sarc {
                        assert(v@.subrange(0, 4) =~= sarc_magic());
                    } else {
                        assert(v@.subrange(0, 4) != sarc_magic()) by {
                            assert(v@.subrange(0, 4)[0] == v@[0] && v@.subrange(0, 4)[1] == v@[1]
                                && v@.subrange(0, 4)[2] == v@[2] && v@.subrange(0, 4)[3] == v@[3]);
                        }
                    }
                }
                yaz || sarc
            } else {
                false
            }
        },
        Option::None => false,
    }
}

/// Structured-binary-data signature test on a file head.
pub fn check_if_byml(head: Option<&Vec<u8>>) -> (b: bool)
    ensures
        b == spec_is_byml_head(head_view(head)),
{
    match head {
        Some(v) => {
            let two = if v.len() >= 2 {
                let by = v[0] == 0x42 && v[1] == 0x59;
                let yb = v[0] == 0x59 && v[1] == 0x42;
                proof {
                    if by {
                        assert(v@.subrange(0, 2) =~= seq![0x42u8, 0x59u8]);
                    } else {
                        assert(v@.subrange(0, 2) != seq![0x42u8, 0x59u8]) by {
                            assert(v@.subrange(0, 2)[0] == v@[0] && v@.subrange(0, 2)[1] == v@[1]);
                        }
                    }
                    if yb {
                        assert(v@.subrange(0, 2) =~= seq![0x59u8, 0x42u8]);
                    } else {
                        assert(v@.subrange(0, 2) != seq![0x59u8, 0x42u8]) by {
                            assert(v@.subrange(0, 2)[0] == v@[0] && v@.subrange(0, 2)[1] == v@[1]);
                        }
                    }
                }
                by || yb
            } else {
                false
            };
            if two {
                true
            } else {
                check_if_sarc(head) && {
                    let v4 = v[0] == 0x59;
                    proof {
                        if !v4 {
                            assert(v@.subrange(0, 4) != yaz0_magic()) by {
                                assert(v@.subrange(0, 4)[0] == v@[0]);
                            }
                        }
                    }
                    v4
                }
            }
        },
        Option::None => false,
    }
}

/// Motion-list keyword-tag test on a file head.
pub fn check_if_motion_bin(head: Option<&Vec<u8>>) -> (b: bool)
    ensures
        b == spec_is_motion_head(head_view(head)),
{
    match head {
        Some(v) => v.len() >= 8 && le_u64_head(v) == MOTION_MAGIC,
        Option::None => false,
    }
}

/// What `kind` makes of a file with extension `ext` and first bytes `head`.
pub open spec fn spec_conversion(kind: ConverterKind, ext: Seq<char>, head: Option<Seq<u8>>)
    -> Direction {
    match kind {
        ConverterKind::Mscsb => if ext == "mscsb"@ {
            Direction::ConvertFrom
        } else if ext == "c"@ {
            Direction::ConvertTo
        } else {
            Direction::NoMatch
        },
        ConverterKind::Nus3audio => if ext == "wav"@ || ext == "lopus"@ {
            Direction::ConvertTo
        } else if ext == "nus3audio"@ {
            Direction::ConvertFrom
        } else {
            Direction::NoMatch
        },
        ConverterKind::Param => if ext == "xml"@ {
            Direction::ConvertTo
        } else if ext == "prc"@ || ext == "stprm"@ || ext == "stdat"@ {
            Direction::ConvertFrom
        } else {
            Direction::NoMatch
        },
        ConverterKind::MotionList => if ext == "yaml"@ {
            Direction::ConvertTo
        } else if ext == "bin"@ && spec_is_motion_head(head) {
            Direction::ConvertFrom
        } else {
            Direction::NoMatch
        },
        ConverterKind::Sqb => if ext == "yaml"@ {
            Direction::ConvertTo
        } else if ext == "sqb"@ {
            Direction::ConvertFrom
        } else {
            Direction::NoMatch
        },
        ConverterKind::Material => if ext == "xml"@ {
            Direction::ConvertTo
        } else if ext == "numatb"@ {
            Direction::ConvertFrom
        } else {
            Direction::NoMatch
        },
        ConverterKind::Nutexb => if ext == "dds"@ {
            Direction::ConvertTo
        } else {
            Direction::NoMatch
        },
        ConverterKind::Sarc => if ext == "zip"@ {
            Direction::ConvertTo
        } else if spec_is_sarc_head(head) {
            Direction::ConvertFrom
        } else {
            Direction::NoMatch
        },
        ConverterKind::Byml => if ext == "yml"@ {
            Direction::ConvertTo
        } else if spec_is_byml_head(head) {
            Direction::ConvertFrom
        } else {
            Direction::NoMatch
        },
        ConverterKind::Lua => if ext == "lua"@ {
            Direction::ConvertTo
        } else if ext == "lc"@ {
            Direction::ConvertFrom
        } else {
            Direction::NoMatch
        },
    }
}

/// What the converter `kind` makes of a file: its direction, or no match.
pub fn get_conversion_of(kind: ConverterKind, file_extension: &str, head: Option<&Vec<u8>>) -> (d:
    Direction)
    ensures
        d == spec_conversion(kind, file_extension@, head_view(head)),
{
    match kind {
        ConverterKind::Mscsb => if str_eq_str(file_extension, "mscsb") {
            Direction::ConvertFrom
        } else if str_eq_str(file_extension, "c") {
            Direction::ConvertTo
        } else {
            Direction::NoMatch
        },
        ConverterKind::Nus3audio => if str_eq_str(file_extension, "wav") || str_eq_str(
            file_extension,
            "lopus",
        ) {
            Direction::ConvertTo
        } else if str_eq_str(file_extension, "nus3audio") {
            Direction::ConvertFrom
        } else {
            Direction::NoMatch
        },
        ConverterKind::Param => if str_eq_str(file_extension, "xml") {
            Direction::ConvertTo
        } else if str_eq_str(file_extension, "prc") || str_eq_str(file_extension, "stprm")
            || str_eq_str(file_extension, "stdat") {
            Direction::ConvertFrom
        } else {
            Direction::NoMatch
        },
        ConverterKind::MotionList => if str_eq_str(file_extension, "yaml") {
            Direction::ConvertTo
        } else if str_eq_str(file_extension, "bin") && check_if_motion_bin(head) {
            Direction::ConvertFrom
        } else {
            Direction::NoMatch
        },
        ConverterKind::Sqb => if str_eq_str(file_extension, "yaml") {
            Direction::ConvertTo
        } else if str_eq_str(file_extension, "sqb") {
            Direction::ConvertFrom
        } else {
            Direction::NoMatch
        },
        ConverterKind::Material => if str_eq_str(file_extension, "xml") {
            Direction::ConvertTo
        } else if str_eq_str(file_extension, "numatb") {
            Direction::ConvertFrom
        } else {
            Direction::NoMatch
        },
        ConverterKind::Nutexb => if str_eq_str(file_extension, "dds") {
            Direction::ConvertTo
        } else {
            Direction::NoMatch
        },
        ConverterKind::Sarc => if str_eq_str(file_extension, "zip") {
            Direction::ConvertTo
        } else if check_if_sarc(head) {
            Direction::ConvertFrom
        } else {
            Direction::NoMatch
        },
        ConverterKind::Byml => if str_eq_str(file_extension, "yml") {
            Direction::ConvertTo
        } else if check_if_byml(head) {
            Direction::ConvertFrom
        } else {
            Direction::NoMatch
        },
        ConverterKind::Lua => if str_eq_str(file_extension, "lua") {
            Direction::ConvertTo
        } else if str_eq_str(file_extension, "lc") {
            Direction::ConvertFrom
        } else {
            Direction::NoMatch
        },
    }
}

/// Converts script-code binaries.
pub struct MscsbConverter;

/// Converts audio between waveform files and the audio container.
pub struct Nus3audioConverter;

/// Converts parameter trees between text and binary form.
pub struct ParamConverter;

/// Converts motion-list binaries to and from structured text.
pub struct MotionListConverter;

/// Converts sound-sequence tables to and from structured text.
pub struct SqbConverter;

/// Converts material tables to and from text form.
pub struct MaterialConverter;

/// Converts texture files into the engine's texture container.
pub struct NutexbConverter;

/// Converts archives between zip files and the archive container.
pub struct SarcConverter;

/// Converts structured binary data to and from text form.
pub struct BymlConverter;

/// Converts script sources to and from compiled bytecode.
pub struct LuaConverter;

impl MscsbConverter {
    /// Classification by extension.
    pub fn get_conversion(&self, file_extension: &str, head: Option<&Vec<u8>>) -> (d: Direction)
        ensures
            d == spec_conversion(ConverterKind::Mscsb, file_extension@, head_view(head)),
    {
        get_conversion_of(ConverterKind::Mscsb, file_extension, head)
    }

    /// Judges a script-tool run: the exit status alone decides, and a
    /// failure carries the tool's output and error text joined by a line
    /// break.
    pub fn assess(&self, succeeded: bool, out_text: &str, err_text: &str, outpath: String) -> (r:
        Result<String, ConvertError>)
        ensures
            succeeded ==> r == Result::<String, ConvertError>::Ok(outpath),
            !succeeded ==> r is Err && r->Err_0.kind == ConvertErrorKind::Msc
                && r->Err_0.message@ == out_text@ + "\n"@ + err_text@,
    {
        if succeeded {
            Ok(outpath)
        } else {
            Err(
                ConvertError {
                    message: String::from_str(out_text).concat("\n").concat(err_text),
                    kind: ConvertErrorKind::Msc,
                },
            )
        }
    }
}

impl Nus3audioConverter {
    /// Classification by extension.
    pub fn get_conversion(&self, file_extension: &str, head: Option<&Vec<u8>>) -> (d: Direction)
        ensures
            d == spec_conversion(ConverterKind::Nus3audio, file_extension@, head_view(head)),
    {
        get_conversion_of(ConverterKind::Nus3audio, file_extension, head)
    }

    /// Judges a resampling run: the exit status alone decides, and a
    /// failure carries the tool's output and error text.
    pub fn assess_resample(&self, succeeded: bool, out_text: &str, err_text: &str) -> (r: Result<
        (),
        ConvertError,
    >)
        ensures
            succeeded ==> r is Ok,
            !succeeded ==> r is Err && r->Err_0.kind == ConvertErrorKind::Nus3audio
                && r->Err_0.message@ == out_text@ + err_text@,
    {
        if succeeded {
            Ok(())
        } else {
            Err(
                ConvertError {
                    message: String::from_str(out_text).concat(err_text),
                    kind: ConvertErrorKind::Nus3audio,
                },
            )
        }
    }

    /// Judges an audio-encoding run: the tool must report success and leave
    /// a nonempty output file; a failure carries the tool's error and
    /// output text.
    pub fn assess_encode(
        &self,
        succeeded: bool,
        output_exists: bool,
        output_empty: bool,
        err_text: &str,
        out_text: &str,
    ) -> (r: Result<(), ConvertError>)
        ensures
            succeeded && output_exists && !output_empty ==> r is Ok,
            !(succeeded && output_exists && !output_empty) ==> r is Err && r->Err_0.kind
                == ConvertErrorKind::Nus3audio && r->Err_0.message@ == err_text@ + out_text@,
    {
        if succeeded && output_exists && !output_empty {
            Ok(())
        } else {
            Err(
                ConvertError {
                    message: String::from_str(err_text).concat(out_text),
                    kind: ConvertErrorKind::Nus3audio,
                },
            )
        }
    }

    /// Judges an audio-extraction run: the tool must report success and its
    /// output file must exist; a failure carries the tool's output text.
    pub fn assess_extract(&self, succeeded: bool, output_exists: bool, out_text: &str,
        outpath: String) -> (r: Result<String, ConvertError>)
        ensures
            succeeded && output_exists ==> r == Result::<String, ConvertError>::Ok(outpath),
            !(succeeded && output_exists) ==> r is Err && r->Err_0.kind
                == ConvertErrorKind::Nus3audio && r->Err_0.message@ == out_text@,
    {
        if succeeded && output_exists {
            Ok(outpath)
        } else {
            Err(ConvertError::nus3audio(out_text))
        }
    }
}

impl ParamConverter {
    /// Classification by extension.
    pub fn get_conversion(&self, file_extension: &str, head: Option<&Vec<u8>>) -> (d: Direction)
        ensures
            d == spec_conversion(ConverterKind::Param, file_extension@, head_view(head)),
    {
        get_conversion_of(ConverterKind::Param, file_extension, head)
    }
}

impl MotionListConverter {
    /// Classification by extension, and by the keyword tag for binaries.
    pub fn get_conversion(&self, file_extension: &str, head: Option<&Vec<u8>>) -> (d: Direction)
        ensures
            d == spec_conversion(ConverterKind::MotionList, file_extension@, head_view(head)),
    {
        get_conversion_of(ConverterKind::MotionList, file_extension, head)
    }
}

impl SqbConverter {
    /// Classification by extension.
    pub fn get_conversion(&self, file_extension: &str, head: Option<&Vec<u8>>) -> (d: Direction)
        ensures
            d == spec_conversion(ConverterKind::Sqb, file_extension@, head_view(head)),
    {
        get_conversion_of(ConverterKind::Sqb, file_extension, head)
    }
}

impl MaterialConverter {
    /// Classification by extension.
    pub fn get_conversion(&self, file_extension: &str, head: Option<&Vec<u8>>) -> (d: Direction)
        ensures
            d == spec_conversion(ConverterKind::Material, file_extension@, head_view(head)),
    {
        get_conversion_of(ConverterKind::Material, file_extension, head)
    }

    /// Judges a material-tool run: the tool must report success and its
    /// output file must exist; a failure carries the tool's error text.
    pub fn assess(&self, succeeded: bool, output_exists: bool, err_text: &str, outpath: String)
        -> (r: Result<String, ConvertError>)
        ensures
            succeeded && output_exists ==> r == Result::<String, ConvertError>::Ok(outpath),
            !(succeeded && output_exists) ==> r is Err && r->Err_0.kind == ConvertErrorKind::Param
                && r->Err_0.message@ == err_text@,
    {
        if succeeded && output_exists {
            Ok(outpath)
        } else {
            Err(ConvertError::param(err_text))
        }
    }
}

impl NutexbConverter {
    /// Classification by extension; there is no reliable binary signature,
    /// so only the encoding direction matches.
    pub fn get_conversion(&self, file_extension: &str, head: Option<&Vec<u8>>) -> (d: Direction)
        ensures
            d == spec_conversion(ConverterKind::Nutexb, file_extension@, head_view(head)),
    {
        get_conversion_of(ConverterKind::Nutexb, file_extension, head)
    }
}

impl SarcConverter {
    /// Classification by extension, and by magic bytes for binaries.
    pub fn get_conversion(&self, file_extension: &str, head: Option<&Vec<u8>>) -> (d: Direction)
        ensures
            d == spec_conversion(ConverterKind::Sarc, file_extension@, head_view(head)),
    {
        get_conversion_of(ConverterKind::Sarc, file_extension, head)
    }
}

impl BymlConverter {
    /// Classification by extension, and by magic bytes for binaries.
    pub fn get_conversion(&self, file_extension: &str, head: Option<&Vec<u8>>) -> (d: Direction)
        ensures
            d == spec_conversion(ConverterKind::Byml, file_extension@, head_view(head)),
    {
        get_conversion_of(ConverterKind::Byml, file_extension, head)
    }
}

impl LuaConverter {
    /// Classification by extension.
    pub fn get_conversion(&self, file_extension: &str, head: Option<&Vec<u8>>) -> (d: Direction)
        ensures
            d == spec_conversion(ConverterKind::Lua, file_extension@, head_view(head)),
    {
        get_conversion_of(ConverterKind::Lua, file_extension, head)
    }

    /// Judges a script compile or decompile run: the tool must report
    /// success and its output file must exist; a failure carries the tool's
    /// error text.
    pub fn assess(&self, succeeded: bool, output_exists: bool, err_text: &str, outpath: String)
        -> (r: Result<String, ConvertError>)
        ensures
            succeeded && output_exists ==> r == Result::<String, ConvertError>::Ok(outpath),
            !(succeeded && output_exists) ==> r is Err && r->Err_0.kind == ConvertErrorKind::Param
                && r->Err_0.message@ == err_text@,
    {
        if succeeded && output_exists {
            Ok(outpath)
        } else {
            Err(ConvertError::param(err_text))
        }
    }
}

} // verus!
