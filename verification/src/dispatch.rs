//! Converter registry and dispatch.
//!
//! Converters are tried in fixed registration order. A converter that does
//! not match is skipped; one that matches is attempted; the first success is
//! final; a failure is remembered, overwriting any earlier one, and the scan
//! goes on. When no attempt succeeds the outcome is the last remembered
//! failure, or the bad-extension error if nothing ever matched. Once a
//! decision is reached the input file is deleted regardless of the outcome,
//! and a successful output must exist on disk.
//!
//! The attempts themselves perform filesystem and subprocess work, so the
//! caller runs the scan loop: [`next_attempt`] picks each converter,
//! [`conclude`] turns the remembered failure into the final error, and
//! [`settle`] folds in the deletion of the input and the existence check of
//! the output. [`spec_dispatch_from`] states the decision the whole loop
//! reaches, and the lemmas below give the properties the dispatch protocol
//! promises.

use vstd::prelude::*;
use vstd::string::StringExecFns;
use crate::as_non_empty_string;
use crate::error::{ConvertError, ConvertErrorKind, supported_types_list};
use crate::matcher::{ConverterKind, Direction, get_conversion_of, head_view, spec_conversion};

verus! {

/// One conversion job: an input path plus the free-text option string that
/// accompanied it, already normalized so that an empty option reads as
/// "no option given".
pub struct ConversionRequest {
    pub path: String,
    pub option: Option<String>,
}

impl ConversionRequest {
    /// Builds a request, treating an empty option string as no option.
    pub fn new(path: String, option_text: &str) -> (r: ConversionRequest)
        ensures
            r.path == path,
            option_text@.len() == 0 ==> r.option is None,
            option_text@.len() > 0 ==> r.option is Some && r.option->0@ == option_text@,
    {
        let option = match as_non_empty_string(option_text) {
            Some(s) => Some(String::from_str(s)),
            Option::None => Option::<String>::None,
        };
        ConversionRequest { path, option }
    }
}

/// The fixed registration order of the dispatcher's converters. Order is the
/// tie-break for converters with overlapping classification.
pub open spec fn spec_registry() -> Seq<ConverterKind> {
    seq![
        ConverterKind::Mscsb,
        ConverterKind::Nus3audio,
        ConverterKind::Param,
        ConverterKind::MotionList,
        ConverterKind::Sqb,
        ConverterKind::Material,
        ConverterKind::Nutexb,
        ConverterKind::Sarc,
    ]
}

/// The registered converters, in dispatch order.
pub fn registry() -> (r: Vec<ConverterKind>)
    ensures
        r@ == spec_registry(),
{
    let mut r: Vec<ConverterKind> = Vec::new();
    r.push(ConverterKind::Mscsb);
    r.push(ConverterKind::Nus3audio);
    r.push(ConverterKind::Param);
    r.push(ConverterKind::MotionList);
    r.push(ConverterKind::Sqb);
    r.push(ConverterKind::Material);
    r.push(ConverterKind::Nutexb);
    r.push(ConverterKind::Sarc);
    proof {
        assert(r@ =~= spec_registry());
    }
    r
}

/// The first registered converter at or after position `i` that claims the
/// input, together with its direction.
pub open spec fn spec_next_attempt(ext: Seq<char>, head: Option<Seq<u8>>, i: int) -> Option<
    (int, Direction),
>
    decreases spec_registry().len() - i,
{
    if i < 0 || i >= spec_registry().len() {
        Option::<(int, Direction)>::None
    } else {
        let d = spec_conversion(spec_registry()[i], ext, head);
        if d != Direction::NoMatch {
            Some((i, d))
        } else {
            spec_next_attempt(ext, head, i + 1)
        }
    }
}

/// Finds the next converter to attempt, scanning the registry in order from
/// position `start`.
pub fn next_attempt(ext: &str, head: Option<&Vec<u8>>, start: usize) -> (r: Option<
    (usize, ConverterKind, Direction),
>)
    ensures
        match r {
            Some((i, k, d)) => {
                &&& spec_next_attempt(ext@, head_view(head), start as int) == Some((i as int, d))
                &&& k == spec_registry()[i as int]
                &&& d != Direction::NoMatch
                &&& start <= i < spec_registry().len()
            },
            Option::None => spec_next_attempt(ext@, head_view(head), start as int) is None,
        },
{
    let reg = registry();
    let n = reg.len();
    let mut i = start;
    while i < n
        invariant
            start <= i,
            n == spec_registry().len(),
            reg@ == spec_registry(),
            spec_next_attempt(ext@, head_view(head), start as int) == spec_next_attempt(
                ext@,
                head_view(head),
                i as int,
            ),
        decreases n - i,
    {
        let d = get_conversion_of(reg[i], ext, head);
        if d != Direction::NoMatch {
            return Some((i, reg[i], d));
        }
        i = i + 1;
    }
    Option::None
}

/// A ghost mirror of a conversion error: its kind and its message text.
pub struct ErrorModel {
    pub kind: ConvertErrorKind,
    pub message: Seq<char>,
}

/// The ghost mirror of a concrete error.
pub open spec fn error_model(e: ConvertError) -> ErrorModel {
    ErrorModel { kind: e.kind, message: e.message@ }
}

/// The ghost mirror of the bad-extension error.
pub open spec fn bad_extension_model() -> ErrorModel {
    ErrorModel {
        kind: ConvertErrorKind::BadExtension,
        message: "Unsupported Filetype. Supported types: "@ + supported_types_list(),
    }
}

/// The final error of a scan that found no success: the last remembered
/// failure, or bad-extension if no converter ever matched.
pub open spec fn spec_conclude(last: Option<ErrorModel>) -> ErrorModel {
    match last {
        Some(e) => e,
        Option::None => bad_extension_model(),
    }
}

/// The decision a full dispatch scan reaches, starting at registry position
/// `i` with `last` as the failure remembered so far, when the attempted
/// converters return `results` in attempt order. A scan that runs out of
/// supplied results concludes as if the remaining converters stayed silent.
pub open spec fn spec_dispatch_from(
    ext: Seq<char>,
    head: Option<Seq<u8>>,
    i: int,
    results: Seq<Result<Seq<char>, ErrorModel>>,
    last: Option<ErrorModel>,
) -> Result<Seq<char>, ErrorModel>
    decreases results.len(),
{
    match spec_next_attempt(ext, head, i) {
        Option::None => Result::<Seq<char>, ErrorModel>::Err(spec_conclude(last)),
        Some((j, d)) => {
            if results.len() == 0 {
                Result::<Seq<char>, ErrorModel>::Err(spec_conclude(last))
            } else {
                match results[0] {
                    Ok(p) => Result::<Seq<char>, ErrorModel>::Ok(p),
                    Err(e) => spec_dispatch_from(ext, head, j + 1, results.drop_first(), Some(e)),
                }
            }
        },
    }
}

/// The decision of a whole dispatch pass over an input.
pub open spec fn spec_dispatch(
    ext: Seq<char>,
    head: Option<Seq<u8>>,
    results: Seq<Result<Seq<char>, ErrorModel>>,
) -> Result<Seq<char>, ErrorModel> {
    spec_dispatch_from(ext, head, 0, results, Option::<ErrorModel>::None)
}

/// Turns the failure remembered by a finished scan into the final error.
pub fn conclude(last_error: Option<ConvertError>) -> (r: ConvertError)
    ensures
        error_model(r) == spec_conclude(
            match last_error {
                Some(e) => Some(error_model(e)),
                Option::None => Option::<ErrorModel>::None,
            },
        ),
{
    match last_error {
        Some(e) => e,
        Option::None => ConvertError::bad_extension(),
    }
}

/// Applies the end-of-conversion rules to an outcome: the input file has
/// been deleted either way; a failed deletion surfaces as an I/O error only
/// on the success path, where the produced output must also exist on disk.
///
/// A conversion error takes precedence over a deletion failure, success is
/// returned exactly when deletion succeeded and the output exists, and a
/// converter that reported success without producing a file yields the
/// missing-output error.
pub fn settle(
    outcome: Result<String, ConvertError>,
    delete_error: Option<String>,
    output_exists: bool,
) -> (r: Result<String, ConvertError>)
    ensures
        outcome is Err ==> r == Result::<String, ConvertError>::Err(outcome->Err_0),
        outcome is Ok && delete_error is Some ==> r is Err && r->Err_0.kind
            == ConvertErrorKind::File && r->Err_0.message == delete_error->Some_0,
        outcome is Ok && delete_error is None && !output_exists ==> r is Err && r->Err_0.kind
            == ConvertErrorKind::File && r->Err_0.message@ == "Returned file not found"@,
        outcome is Ok && delete_error is None && output_exists ==> r == Result::<
            String,
            ConvertError,
        >::Ok(outcome->Ok_0),
{
    match outcome {
        Err(e) => Err(e),
        Ok(path) => {
            match delete_error {
                Some(m) => Err(ConvertError { message: m, kind: ConvertErrorKind::File }),
                Option::None => {
                    if !output_exists {
                        Err(ConvertError::file("Returned file not found"))
                    } else {
                        Ok(path)
                    }
                },
            }
        },
    }
}

proof fn lemma_next_attempt_unmatched(ext: Seq<char>, head: Option<Seq<u8>>, i: int)
    requires
        forall|k: int|
            0 <= k < spec_registry().len() ==> spec_conversion(#[trigger] spec_registry()[k], ext, head)
                == Direction::NoMatch,
    ensures
        spec_next_attempt(ext, head, i) is None,
    decreases spec_registry().len() - i,
{
    if 0 <= i < spec_registry().len() {
        lemma_next_attempt_unmatched(ext, head, i + 1);
    }
}

/// An input whose extension no registered converter claims and whose
/// signature matches nothing is never attempted, and the dispatch outcome is
/// the bad-extension error — whatever results converters would have
/// returned.
pub proof fn lemma_unmatched_input_is_bad_extension(
    ext: Seq<char>,
    head: Option<Seq<u8>>,
    results: Seq<Result<Seq<char>, ErrorModel>>,
)
    requires
        forall|k: int|
            0 <= k < spec_registry().len() ==> spec_conversion(#[trigger] spec_registry()[k], ext, head)
                == Direction::NoMatch,
    ensures
        spec_next_attempt(ext, head, 0) is None,
        spec_dispatch(ext, head, results) == Result::<Seq<char>, ErrorModel>::Err(
            bad_extension_model(),
        ),
{
    lemma_next_attempt_unmatched(ext, head, 0);
}

/// Dispatch is deterministic: over one fixed registry, two passes over the
/// same extension, the same file head and the same converter results select
/// the same converters and reach the same decision.
pub proof fn lemma_dispatch_deterministic(
    ext1: Seq<char>,
    head1: Option<Seq<u8>>,
    results1: Seq<Result<Seq<char>, ErrorModel>>,
    ext2: Seq<char>,
    head2: Option<Seq<u8>>,
    results2: Seq<Result<Seq<char>, ErrorModel>>,
)
    requires
        ext1 == ext2,
        head1 == head2,
        results1 == results2,
    ensures
        spec_next_attempt(ext1, head1, 0) == spec_next_attempt(ext2, head2, 0),
        spec_dispatch(ext1, head1, results1) == spec_dispatch(ext2, head2, results2),
{
}

} // verus!
