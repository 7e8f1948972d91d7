//! Sample-accurate loop-range resolution.
//!
//! A free-text option string names a loop range either as raw sample indices
//! or as timestamps, auto-detected: a string containing `:` or `.` is read
//! as timestamps of the shape `[[hours:]minutes:]seconds[.fraction]`, any
//! other as decimal sample counts in the pre-resampling domain. Timestamps
//! are converted at a fixed reference rate of 48000 Hz; raw indices are
//! rescaled by the conversion rate with round-half-up. Fields are separated
//! by `,` or `-`, trailing separators are ignored, and spacing inside a
//! field is tolerated (ASCII whitespace). One field gives the loop start,
//! two give start and end; anything else, or a field that does not parse as
//! the detected kind, is a format error. A resolved range must satisfy
//! `start <= end <= total samples`, checked against the post-resampling
//! total; a range that does not is rejected with the actual sample count.

use vstd::prelude::*;
use vstd::string::{StringExecFns, StrSliceExecFns};
use crate::error::{ConvertError, ConvertErrorKind};
use crate::text::{chars_of, dec_string, u64_to_dec};

verus! {

/// A half-open loop interval `[start, end)` over sample indices.
#[derive(Debug, Clone, Copy, PartialEq, Eq, Structural)]
pub struct LoopRange {
    pub start: u64,
    pub end: u64,
}

impl LoopRange {
    /// The invariant of a resolved range: within bounds and well ordered.
    pub open spec fn is_valid(self, total_samples: u64) -> bool {
        self.start <= self.end <= total_samples
    }
}

/// The ratio of post-processing to pre-processing sample counts, kept as the
/// two exact counts.
#[derive(Debug, Clone, Copy, PartialEq, Eq, Structural)]
pub struct ConversionRate {
    pub new_count: u32,
    pub old_count: u32,
}

/// The separator classes that structure the crate's text inputs.
#[derive(Debug, Clone, Copy, PartialEq, Eq, Structural)]
pub enum SepKind {
    /// `,` or `-`: separates the fields of a range.
    Field,
    /// `:`: separates the parts of a timestamp.
    Colon,
    /// A line break: separates the rows of a table.
    Line,
    /// A tab: separates the columns of a row.
    Tab,
    /// `/`: separates the components of a path.
    Slash,
}

/// Whether `c` is a separator of the given kind.
pub open spec fn is_sep(k: SepKind, c: char) -> bool {
    match k {
        SepKind::Field => c == ',' || c == '-',
        SepKind::Colon => c == ':',
        SepKind::Line => c == '\n',
        SepKind::Tab => c == '\t',
        SepKind::Slash => c == '/',
    }
}

/// Whether `c` is ASCII whitespace.
pub open spec fn is_space(c: char) -> bool {
    c == ' ' || c == '\t' || c == '\n' || c == '\r'
}

/// Whether `c` is a decimal digit.
pub open spec fn is_digit(c: char) -> bool {
    '0' as u32 <= c as u32 <= '9' as u32
}

/// The value of a decimal digit.
pub open spec fn digit_val(c: char) -> int {
    c as u32 - '0' as u32
}

/// Whether the string carries a timestamp marker (`:` or `.`), switching
/// every field to timestamp form.
pub open spec fn has_ts_marker(s: Seq<char>) -> bool {
    exists|i: int| 0 <= i < s.len() && (s[i] == ':' || s[i] == '.')
}

/// The string with every trailing field separator removed.
pub open spec fn trim_trailing_seps(s: Seq<char>) -> Seq<char>
    decreases s.len(),
{
    if s.len() > 0 && is_sep(SepKind::Field, s[s.len() - 1]) {
        trim_trailing_seps(s.drop_last())
    } else {
        s
    }
}

/// The position of the first separator of kind `k` at or after `i`, or the
/// length of `s` if there is none.
pub open spec fn sep_from(k: SepKind, s: Seq<char>, i: int) -> int
    decreases s.len() - i,
{
    if i < 0 || i >= s.len() {
        s.len() as int
    } else if is_sep(k, s[i]) {
        i
    } else {
        sep_from(k, s, i + 1)
    }
}

/// The fields of `s`, split at every separator of kind `k`; empty fields
/// are preserved.
pub open spec fn split_by(k: SepKind, s: Seq<char>) -> Seq<Seq<char>>
    decreases s.len(),
{
    let q = sep_from(k, s, 0);
    let p = if 0 <= q < s.len() {
        q
    } else {
        s.len() as int
    };
    if p >= s.len() {
        seq![s]
    } else {
        seq![s.subrange(0, p)] + split_by(k, s.subrange(p + 1, s.len() as int))
    }
}

proof fn lemma_sep_from_is(k: SepKind, s: Seq<char>, i: int, j: int)
    requires
        0 <= i <= j <= s.len(),
        forall|t: int| i <= t < j ==> !is_sep(k, s[t]),
        j < s.len() ==> is_sep(k, s[j]),
    ensures
        sep_from(k, s, i) == j,
    decreases j - i,
{
    if i < j {
        lemma_sep_from_is(k, s, i + 1, j);
    }
}

proof fn lemma_trim_seps_is(s: Seq<char>, e: int)
    requires
        0 <= e <= s.len(),
        forall|j: int| e <= j < s.len() ==> is_sep(SepKind::Field, s[j]),
        e > 0 ==> !is_sep(SepKind::Field, s[e - 1]),
    ensures
        trim_trailing_seps(s) == s.subrange(0, e),
    decreases s.len(),
{
    if e < s.len() {
        lemma_trim_seps_is(s.drop_last(), e);
        assert(s.drop_last() =~= s.subrange(0, s.len() - 1));
        assert(s.drop_last().subrange(0, e) =~= s.subrange(0, e));
    } else {
        if s.len() > 0 {
            assert(!is_sep(SepKind::Field, s[s.len() - 1]));
        }
        assert(s.subrange(0, e) =~= s);
    }
}

/// Whether `c` is a separator of kind `k`.
fn is_sep_exec(k: SepKind, c: char) -> (b: bool)
    ensures
        b == is_sep(k, c),
{
    match k {
        SepKind::Field => c == ',' || c == '-',
        SepKind::Colon => c == ':',
        SepKind::Line => c == '\n',
        SepKind::Tab => c == '\t',
        SepKind::Slash => c == '/',
    }
}

/// Splits `v`, up to position `end`, at every separator of kind `k`.
pub(crate) fn split_by_exec(k: SepKind, v: &Vec<char>, end: usize) -> (r: Vec<Vec<char>>)
    requires
        end <= v@.len(),
    ensures
        r.deep_view() == split_by(k, v@.subrange(0, end as int)),
{
    let ghost whole = v@.subrange(0, end as int);
    let mut r: Vec<Vec<char>> = Vec::new();
    let mut fstart: usize = 0;
    let mut i: usize = 0;
    while i < end
        invariant
            fstart <= i <= end <= v@.len(),
            whole == v@.subrange(0, end as int),
            forall|t: int| fstart <= t < i ==> !is_sep(k, v@[t]),
            split_by(k, whole) == r.deep_view() + split_by(
                k,
                v@.subrange(fstart as int, end as int),
            ),
        decreases end - i,
    {
        if is_sep_exec(k, v[i]) {
            let fld = crate::paths::sub_vec(v, fstart, i);
            let ghost dv0 = r.deep_view();
            let ghost fldv = fld@;
            proof {
                let rest = v@.subrange(fstart as int, end as int);
                lemma_sep_from_is(k, rest, 0, i - fstart);
                assert(rest.subrange(0, i - fstart) =~= v@.subrange(fstart as int, i as int));
                assert(rest.subrange(i - fstart + 1, rest.len() as int) =~= v@.subrange(
                    i + 1,
                    end as int,
                ));
                assert(split_by(k, rest) == seq![v@.subrange(fstart as int, i as int)] + split_by(
                    k,
                    v@.subrange(i + 1, end as int),
                ));
            }
            r.push(fld);
            proof {
                assert(fldv.map_values(|c: char| c).len() == fldv.len());
                assert(r.deep_view() =~~= dv0.push(fldv));
                assert(dv0 + seq![fldv] =~= dv0.push(fldv));
            }
            fstart = i + 1;
        }
        i = i + 1;
    }
    let fld = crate::paths::sub_vec(v, fstart, end);
    let ghost dv0 = r.deep_view();
    let ghost fldv = fld@;
    proof {
        let rest = v@.subrange(fstart as int, end as int);
        lemma_sep_from_is(k, rest, 0, rest.len() as int);
        assert(split_by(k, rest) == seq![rest]);
    }
    r.push(fld);
    proof {
        assert(r.deep_view() =~~= dv0.push(fldv));
    }
    r
}

/// The string with leading ASCII whitespace removed.
pub open spec fn trim_start_ws(s: Seq<char>) -> Seq<char>
    decreases s.len(),
{
    if s.len() > 0 && is_space(s[0]) {
        trim_start_ws(s.drop_first())
    } else {
        s
    }
}

/// The string with trailing ASCII whitespace removed.
pub open spec fn trim_end_ws(s: Seq<char>) -> Seq<char>
    decreases s.len(),
{
    if s.len() > 0 && is_space(s[s.len() - 1]) {
        trim_end_ws(s.drop_last())
    } else {
        s
    }
}

/// The string with surrounding ASCII whitespace removed.
pub open spec fn trim_ws(s: Seq<char>) -> Seq<char> {
    trim_end_ws(trim_start_ws(s))
}

/// Whether every character is a decimal digit.
pub open spec fn all_digits(s: Seq<char>) -> bool {
    forall|j: int| 0 <= j < s.len() ==> is_digit(s[j])
}

/// The value of a digit string, most significant digit first.
pub open spec fn digits_val(s: Seq<char>) -> int
    decreases s.len(),
{
    if s.len() == 0 {
        0
    } else {
        digits_val(s.drop_last()) * 10 + digit_val(s[s.len() - 1])
    }
}

/// Ten to the `k`.
pub open spec fn pow10(k: nat) -> int
    decreases k,
{
    if k == 0 {
        1
    } else {
        10 * pow10((k - 1) as nat)
    }
}

/// A raw sample index rescaled by the conversion rate `n / o` with round
/// half up: the floor of `v * n / o + 1/2`.
pub open spec fn scaled_sample(v: int, n: int, o: int) -> int {
    (2 * v * n + o) / (2 * o)
}

/// The sample contribution of the fraction digits of a timestamp, at the
/// reference rate, rounded half up together with the whole value. Digits
/// beyond the tenth cannot move a sample boundary and are not read.
pub open spec fn frac_samples(fp: Seq<char>) -> int {
    let fe = if fp.len() > 10 {
        fp.subrange(0, 10)
    } else {
        fp
    };
    (2 * 48000 * digits_val(fe) + pow10(fe.len() as nat)) / (2 * pow10(fe.len() as nat))
}

/// The position of the first `.` in `s`, or the length of `s` if none.
pub open spec fn dot_from(s: Seq<char>, i: int) -> int
    decreases s.len() - i,
{
    if i < 0 || i >= s.len() {
        s.len() as int
    } else if s[i] == '.' {
        i
    } else {
        dot_from(s, i + 1)
    }
}

/// The value of an hours or minutes part: a trimmed nonempty digit string.
pub open spec fn int_part_val(p: Seq<char>) -> Option<int> {
    let t = trim_ws(p);
    if t.len() > 0 && all_digits(t) {
        Some(digits_val(t))
    } else {
        Option::<int>::None
    }
}

/// The value of a seconds part `seconds[.fraction]`: the whole seconds and
/// the fraction digits. At least one digit must be present.
pub open spec fn sec_part_val(p: Seq<char>) -> Option<(int, Seq<char>)> {
    let t = trim_ws(p);
    let d = dot_from(t, 0);
    if d >= t.len() {
        if t.len() > 0 && all_digits(t) {
            Some((digits_val(t), Seq::<char>::empty()))
        } else {
            Option::<(int, Seq<char>)>::None
        }
    } else {
        let ip = t.subrange(0, d);
        let fp = t.subrange(d + 1, t.len() as int);
        if all_digits(ip) && all_digits(fp) && ip.len() + fp.len() > 0 {
            Some((digits_val(ip), fp))
        } else {
            Option::<(int, Seq<char>)>::None
        }
    }
}

/// The sample index a timestamp field names: `[[hours:]minutes:]seconds`
/// with an optional fraction on the seconds, converted at the reference
/// rate.
pub open spec fn ts_field_samples(f: Seq<char>) -> Option<int> {
    let ps = split_by(SepKind::Colon, f);
    if 1 <= ps.len() <= 3 {
        let sec = sec_part_val(ps[ps.len() - 1]);
        let mv = if ps.len() >= 2 {
            int_part_val(ps[ps.len() - 2])
        } else {
            Some(0)
        };
        let hv = if ps.len() == 3 {
            int_part_val(ps[0])
        } else {
            Some(0)
        };
        match (sec, mv, hv) {
            (Some(sv), Some(m), Some(h)) => Some(
                (h * 3600 + m * 60 + sv.0) * 48000 + frac_samples(sv.1),
            ),
            _ => Option::<int>::None,
        }
    } else {
        Option::<int>::None
    }
}

/// The value of a raw-index field: a trimmed digit string that fits the
/// machine word, rescaled by the conversion rate.
pub open spec fn int_field_samples(f: Seq<char>, n: int, o: int) -> Option<int> {
    let t = trim_ws(f);
    if t.len() > 0 && all_digits(t) && digits_val(t) <= u64::MAX {
        Some(scaled_sample(digits_val(t), n, o))
    } else {
        Option::<int>::None
    }
}

/// The sample index a field names, in the detected form.
pub open spec fn spec_field_value(f: Seq<char>, timestamp: bool, n: int, o: int) -> Option<int> {
    if timestamp {
        ts_field_samples(f)
    } else {
        int_field_samples(f, n, o)
    }
}

/// The fields of an option string: split at `,` or `-` after trailing
/// separators are dropped.
pub open spec fn spec_fields(msg: Seq<char>) -> Seq<Seq<char>> {
    split_by(SepKind::Field, trim_trailing_seps(msg))
}

/// What a loop-range option string resolves to.
pub enum LoopDecision {
    /// The string does not match either accepted syntax.
    BadFormat,
    /// The fields parse, but the range breaks `start <= end <= total`.
    OutOfBounds,
    /// A well-formed range.
    Accepted { start: int, end: int },
}

/// The range check: the resolved end must not pass the actual sample count,
/// and the interval must be well ordered.
pub open spec fn spec_check(start: int, end: int, total: int) -> LoopDecision {
    if end > total {
        LoopDecision::OutOfBounds
    } else if start > end {
        LoopDecision::OutOfBounds
    } else {
        LoopDecision::Accepted { start, end }
    }
}

/// The decision for a whole option string: one field loops from its value
/// to the end of the audio, two fields give start and end, any other
/// field count or an unparsable field is a format error.
pub open spec fn spec_resolve(msg: Seq<char>, total: int, n: int, o: int) -> LoopDecision {
    let fs = spec_fields(msg);
    let ts = has_ts_marker(msg);
    if fs.len() == 1 {
        match spec_field_value(fs[0], ts, n, o) {
            Some(v) => spec_check(v, total, total),
            Option::None => LoopDecision::BadFormat,
        }
    } else if fs.len() == 2 {
        match (spec_field_value(fs[0], ts, n, o), spec_field_value(fs[1], ts, n, o)) {
            (Some(a), Some(b)) => spec_check(a, b, total),
            _ => LoopDecision::BadFormat,
        }
    } else {
        LoopDecision::BadFormat
    }
}

/// The diagnostic shown for an option string in neither accepted syntax.
pub open spec fn format_error_text() -> Seq<char> {
    "Bad message format. Use either 'start' or 'start-end' or 'start,end'\nUse either [[hh:]mm:]ss[.ss] for timestamps or an integer for samples."@
}

/// The format error named in the resolver's contract.
fn format_error() -> (e: ConvertError)
    ensures
        e.kind == ConvertErrorKind::MessageFormat,
        e.message@ == format_error_text(),
{
    ConvertError::message_format(
        "Bad message format. Use either 'start' or 'start-end' or 'start,end'\nUse either [[hh:]mm:]ss[.ss] for timestamps or an integer for samples.",
    )
}

/// The diagnostic for a range that breaks the bounds, naming the actual
/// sample count.
pub open spec fn bounds_error_text(total: int) -> Seq<char> {
    "Bad loop points. There are only "@ + dec_string(total) + " samples"@
}

/// The bounds error named in the resolver's contract.
fn bounds_error(total: u64) -> (e: ConvertError)
    ensures
        e.kind == ConvertErrorKind::Nus3audio,
        e.message@ == bounds_error_text(total as int),
{
    let digits = u64_to_dec(total);
    let msg = String::from_str("Bad loop points. There are only ").concat(digits.as_str()).concat(
        " samples",
    );
    ConvertError { message: msg, kind: ConvertErrorKind::Nus3audio }
}

/// One past the largest value a raw-index field may take.
const CAP64: u128 = 0x1_0000_0000_0000_0000;

/// The saturation point for timestamp parts: any part at least this large
/// already places the resolved sample far beyond every admissible total.
const CAP96: u128 = 0x1_0000_0000_0000_0000_0000_0000;

proof fn lemma_trim_start_is(s: Seq<char>, a: int)
    requires
        0 <= a <= s.len(),
        forall|j: int| 0 <= j < a ==> is_space(s[j]),
        a < s.len() ==> !is_space(s[a]),
    ensures
        trim_start_ws(s) == s.subrange(a, s.len() as int),
    decreases s.len(),
{
    if a > 0 {
        lemma_trim_start_is(s.drop_first(), a - 1);
        assert(s.drop_first() =~= s.subrange(1, s.len() as int));
        assert(s.drop_first().subrange(a - 1, s.drop_first().len() as int) =~= s.subrange(
            a,
            s.len() as int,
        ));
    } else {
        assert(s.subrange(0, s.len() as int) =~= s);
    }
}

proof fn lemma_trim_end_is(s: Seq<char>, b: int)
    requires
        0 <= b <= s.len(),
        forall|j: int| b <= j < s.len() ==> is_space(s[j]),
        b > 0 ==> !is_space(s[b - 1]),
    ensures
        trim_end_ws(s) == s.subrange(0, b),
    decreases s.len(),
{
    if b < s.len() {
        lemma_trim_end_is(s.drop_last(), b);
        assert(s.drop_last() =~= s.subrange(0, s.len() - 1));
        assert(s.drop_last().subrange(0, b) =~= s.subrange(0, b));
    } else {
        assert(s.subrange(0, b) =~= s);
    }
}

proof fn lemma_digits_val_nonneg(s: Seq<char>)
    requires
        all_digits(s),
    ensures
        digits_val(s) >= 0,
    decreases s.len(),
{
    if s.len() > 0 {
        assert(all_digits(s.drop_last())) by {
            assert(forall|j: int| 0 <= j < s.len() - 1 ==> s.drop_last()[j] == s[j]);
        }
        lemma_digits_val_nonneg(s.drop_last());
        assert(is_digit(s[s.len() - 1]));
    }
}

proof fn lemma_digits_val_bound(s: Seq<char>)
    requires
        all_digits(s),
    ensures
        0 <= digits_val(s) < pow10(s.len()),
    decreases s.len(),
{
    if s.len() == 0 {
        assert(pow10(0) == 1);
    } else {
        assert(all_digits(s.drop_last())) by {
            assert(forall|j: int| 0 <= j < s.len() - 1 ==> s.drop_last()[j] == s[j]);
        }
        lemma_digits_val_bound(s.drop_last());
        assert(is_digit(s[s.len() - 1]));
        assert(digit_val(s[s.len() - 1]) <= 9);
        assert(pow10(s.len()) == 10 * pow10((s.len() - 1) as nat));
    }
}

proof fn lemma_pow10_pos(k: nat)
    ensures
        pow10(k) >= 1,
    decreases k,
{
    if k > 0 {
        lemma_pow10_pos((k - 1) as nat);
    }
}

proof fn lemma_pow10_mono(j: nat, k: nat)
    requires
        j <= k,
    ensures
        pow10(j) <= pow10(k),
    decreases k,
{
    if j < k {
        lemma_pow10_mono(j, (k - 1) as nat);
        lemma_pow10_pos((k - 1) as nat);
    }
}

proof fn lemma_dot_from_is(s: Seq<char>, i: int, j: int)
    requires
        0 <= i <= j <= s.len(),
        forall|t: int| i <= t < j ==> s[t] != '.',
        j < s.len() ==> s[j] == '.',
    ensures
        dot_from(s, i) == j,
    decreases j - i,
{
    if i < j {
        lemma_dot_from_is(s, i + 1, j);
    }
}

/// Whether `c` is a decimal digit.
fn is_digit_exec(c: char) -> (b: bool)
    ensures
        b == is_digit(c),
{
    let u = c as u32;
    48 <= u && u <= 57
}

/// The bounds of the whitespace-trimmed middle of `f`.
fn trim_bounds(f: &Vec<char>) -> (r: (usize, usize))
    ensures
        r.0 <= r.1 <= f@.len(),
        trim_ws(f@) == f@.subrange(r.0 as int, r.1 as int),
{
    let n = f.len();
    let mut a: usize = 0;
    while a < n
        invariant
            a <= n,
            n == f@.len(),
            forall|j: int| 0 <= j < a ==> is_space(f@[j]),
        ensures
            a <= n,
            forall|j: int| 0 <= j < a ==> is_space(f@[j]),
            a < n ==> !is_space(f@[a as int]),
        decreases n - a,
    {
        let c = f[a];
        if !(c == ' ' || c == '\t' || c == '\n' || c == '\r') {
            break ;
        }
        a = a + 1;
    }
    let mut b: usize = n;
    while b > a
        invariant
            a <= b <= n,
            n == f@.len(),
            forall|j: int| b <= j < n ==> is_space(f@[j]),
        ensures
            a <= b <= n,
            forall|j: int| b <= j < n ==> is_space(f@[j]),
            b > a ==> !is_space(f@[b - 1]),
        decreases b,
    {
        let c = f[b - 1];
        if !(c == ' ' || c == '\t' || c == '\n' || c == '\r') {
            break ;
        }
        b = b - 1;
    }
    proof {
        lemma_trim_start_is(f@, a as int);
        let t = f@.subrange(a as int, n as int);
        assert(forall|j: int|
            b - a <= j < t.len() ==> is_space(#[trigger] t[j]) && t[j] == f@[a + j]);
        if b == a && a > 0 {
            // the whole tail is whitespace; the start scan stopped at a
            // non-space or at the end
            assert(a == n || !is_space(f@[a as int]));
            if a < n {
                assert(is_space(f@[a as int]));
                assert(false);
            }
        }
        lemma_trim_end_is(t, b - a);
        assert(t.subrange(0, b - a) =~= f@.subrange(a as int, b as int));
    }
    (a, b)
}

/// Reads the digits of `v` in `[from, to)` as a decimal value, saturating
/// at `cap`; fails on an empty range or a non-digit.
fn parse_digits_capped(v: &Vec<char>, from: usize, to: usize, cap: u128) -> (r: Option<u128>)
    requires
        from <= to <= v@.len(),
        1 <= cap <= CAP96,
    ensures
        ({
            let t = v@.subrange(from as int, to as int);
            &&& (r is Some <==> (to > from && all_digits(t)))
            &&& (r is Some ==> ((digits_val(t) < cap ==> r->0 == digits_val(t)) && (digits_val(t)
                >= cap ==> r->0 == cap)))
        }),
{
    if to == from {
        return Option::None;
    }
    let mut val: u128 = 0;
    let mut i = from;
    while i < to
        invariant
            from <= i <= to <= v@.len(),
            1 <= cap <= CAP96,
            all_digits(v@.subrange(from as int, i as int)),
            ({
                let p = v@.subrange(from as int, i as int);
                (digits_val(p) < cap && val == digits_val(p)) || (digits_val(p) >= cap && val
                    == cap)
            }),
        decreases to - i,
    {
        let c = v[i];
        if !is_digit_exec(c) {
            proof {
                let t = v@.subrange(from as int, to as int);
                assert(t[i - from] == c);
                assert(!all_digits(t));
            }
            return Option::None;
        }
        let d = (c as u32 - 48) as u128;
        proof {
            let p = v@.subrange(from as int, i as int);
            let p2 = v@.subrange(from as int, i + 1 as int);
            assert(p2.drop_last() =~= p);
            assert(p2[p2.len() - 1] == c);
            assert(digits_val(p2) == digits_val(p) * 10 + digit_val(c));
            assert(forall|j: int| 0 <= j < p2.len() ==> is_digit(p2[j]));
            lemma_digits_val_nonneg(p);
        }
        let nv = val * 10 + d;
        if nv >= cap {
            val = cap;
            proof {
                let p = v@.subrange(from as int, i as int);
                let p2 = v@.subrange(from as int, i + 1 as int);
                if digits_val(p) >= cap {
                    assert(digits_val(p) * 10 >= cap * 10);
                    assert(digits_val(p2) >= cap);
                }
            }
        } else {
            val = nv;
        }
        i = i + 1;
    }
    Some(val)
}

/// Ten to the `k`, for small exponents.
fn pow10_exec(k: usize) -> (p: u128)
    requires
        k <= 10,
    ensures
        p == pow10(k as nat),
        p >= 1,
{
    let mut p: u128 = 1;
    let mut j: usize = 0;
    while j < k
        invariant
            j <= k <= 10,
            p == pow10(j as nat),
            p <= 10_000_000_000,
        decreases k - j,
    {
        proof {
            lemma_pow10_mono((j + 1) as nat, 10);
            reveal_with_fuel(pow10, 11);
            assert(pow10(10) == 10_000_000_000);
        }
        p = p * 10;
        j = j + 1;
    }
    proof {
        lemma_pow10_pos(k as nat);
    }
    p
}

/// Whether every character of `v` in `[from, to)` is a decimal digit.
fn all_digits_range(v: &Vec<char>, from: usize, to: usize) -> (b: bool)
    requires
        from <= to <= v@.len(),
    ensures
        b == all_digits(v@.subrange(from as int, to as int)),
{
    let ghost t = v@.subrange(from as int, to as int);
    let mut i = from;
    while i < to
        invariant
            from <= i <= to <= v@.len(),
            t == v@.subrange(from as int, to as int),
            forall|j: int| 0 <= j < i - from ==> is_digit(t[j]),
        decreases to - i,
    {
        if !is_digit_exec(v[i]) {
            proof {
                assert(t[i - from] == v@[i as int]);
            }
            return false;
        }
        i = i + 1;
    }
    true
}

/// Whether the option string carries a timestamp marker.
fn has_marker(v: &Vec<char>) -> (b: bool)
    ensures
        b == has_ts_marker(v@),
{
    let n = v.len();
    let mut i: usize = 0;
    while i < n
        invariant
            i <= n,
            n == v@.len(),
            forall|j: int| 0 <= j < i ==> !(v@[j] == ':' || v@[j] == '.'),
        decreases n - i,
    {
        let c = v[i];
        if c == ':' || c == '.' {
            return true;
        }
        i = i + 1;
    }
    false
}

/// How an executable sample value may stand to the mathematical one: equal
/// whenever the mathematical value is addressable at all, and otherwise
/// itself beyond every admissible total.
pub open spec fn approx_sample(x: int, m: int) -> bool {
    &&& (m <= u64::MAX ==> x == m)
    &&& (m > u64::MAX ==> x > u64::MAX)
}

/// The value of an hours or minutes part, saturated.
fn part_value(p: &Vec<char>) -> (r: Option<u128>)
    ensures
        r is Some <==> int_part_val(p@) is Some,
        r is Some ==> ({
            let m = int_part_val(p@)->0;
            &&& (m < CAP96 ==> r->0 == m)
            &&& (m >= CAP96 ==> r->0 == CAP96)
        }),
{
    let (a, b) = trim_bounds(p);
    parse_digits_capped(p, a, b, CAP96)
}

/// The value of a seconds part: the whole seconds (saturated) and the exact
/// sample contribution of the fraction.
fn sec_value(p: &Vec<char>) -> (r: Option<(u128, u128)>)
    ensures
        r is Some <==> sec_part_val(p@) is Some,
        r is Some ==> ({
            let m = sec_part_val(p@)->0;
            let x = r->0;
            &&& (m.0 < CAP96 ==> x.0 == m.0)
            &&& (m.0 >= CAP96 ==> x.0 == CAP96)
            &&& x.1 == frac_samples(m.1)
            &&& x.1 <= 0x10_0000_0000_0000
        }),
{
    let (a, b) = trim_bounds(p);
    let ghost t = trim_ws(p@);
    // locate the first dot inside the trimmed part
    let mut d = a;
    while d < b
        invariant
            a <= d <= b <= p@.len(),
            t == p@.subrange(a as int, b as int),
            forall|j: int| a <= j < d ==> p@[j] != '.',
        ensures
            a <= d <= b,
            forall|j: int| a <= j < d ==> p@[j] != '.',
            d < b ==> p@[d as int] == '.',
        decreases b - d,
    {
        if p[d] == '.' {
            break ;
        }
        d = d + 1;
    }
    proof {
        assert(forall|j: int| 0 <= j < d - a ==> t[j] == p@[a + j] && t[j] != '.');
        if d < b {
            assert(t[d - a] == p@[d as int]);
        }
        lemma_dot_from_is(t, 0, d - a);
    }
    if d == b {
        // no fraction: plain seconds
        match parse_digits_capped(p, a, b, CAP96) {
            Option::None => Option::None,
            Some(v) => {
                proof {
                    assert(digits_val(Seq::<char>::empty()) == 0);
                    assert(pow10(0nat) == 1);
                    assert(frac_samples(Seq::<char>::empty()) == 1int / 2int);
                }
                Some((v, 0))
            },
        }
    } else {
        let ghost ip = t.subrange(0, d - a);
        let ghost fp = t.subrange(d - a + 1, t.len() as int);
        proof {
            assert(ip =~= p@.subrange(a as int, d as int));
            assert(fp =~= p@.subrange(d + 1 as int, b as int));
        }
        if !all_digits_range(p, a, d) || !all_digits_range(p, d + 1, b) {
            return Option::None;
        }
        if d == a && b == d + 1 {
            // a bare dot names no digits at all
            return Option::None;
        }
        let si: u128 = if d > a {
            match parse_digits_capped(p, a, d, CAP96) {
                Some(v) => v,
                Option::None => {
                    proof {
                        assert(false);
                    }
                    0
                },
            }
        } else {
            0
        };
        let flen = b - (d + 1);
        let fe_end = if flen > 10 {
            d + 1 + 10
        } else {
            b
        };
        let ghost fe = if fp.len() > 10 {
            fp.subrange(0, 10)
        } else {
            fp
        };
        proof {
            assert(fe =~= p@.subrange(d + 1 as int, fe_end as int));
        }
        let fv: u128 = if fe_end > d + 1 {
            match parse_digits_capped(p, d + 1, fe_end, CAP96) {
                Some(v) => v,
                Option::None => {
                    proof {
                        assert(false);
                    }
                    0
                },
            }
        } else {
            0
        };
        proof {
            assert(all_digits(fe)) by {
                assert(forall|j: int| 0 <= j < fe.len() ==> fe[j] == fp[j]);
            }
            lemma_digits_val_bound(fe);
            lemma_pow10_mono(fe.len() as nat, 10);
            reveal_with_fuel(pow10, 11);
            assert(pow10(10nat) == 10_000_000_000);
            assert(digits_val(fe) < 10_000_000_000);
            if fe_end == d + 1 {
                assert(fe =~= Seq::<char>::empty());
                assert(digits_val(fe) == 0);
            }
            assert(fv == digits_val(fe));
        }
        let p10 = pow10_exec(fe_end - (d + 1));
        proof {
            assert(fv < 10_000_000_000);
            assert(fe.len() == fe_end - (d + 1));
            assert(p10 == pow10(fe.len() as nat));
            assert(p10 <= 10_000_000_000);
            assert(1 <= p10);
            vstd::arithmetic::mul::lemma_mul_inequality(fv as int, 10_000_000_000, 96000);
            assert(2 * 48000 * fv == 96000 * (fv as int));
            assert(96000 * (fv as int) <= 960_000_000_000_000);
        }
        let fr = (2 * 48000 * fv + p10) / (2 * p10);
        proof {
            assert(2 * 48000 * fv + p10 <= 0x10_0000_0000_0000);
            vstd::arithmetic::div_mod::lemma_div_is_ordered(
                (2 * 48000 * fv + p10) as int,
                0x10_0000_0000_0000,
                (2 * p10) as int,
            );
            vstd::arithmetic::div_mod::lemma_div_is_ordered_by_denominator(
                0x10_0000_0000_0000,
                1,
                (2 * p10) as int,
            );
        }
        Some((si, fr))
    }
}

/// The sample index a timestamp field names, saturated consistently with
/// the mathematical value.
fn ts_field_value(f: &Vec<char>) -> (r: Option<u128>)
    ensures
        r is Some <==> ts_field_samples(f@) is Some,
        r is Some ==> approx_sample(r->0 as int, ts_field_samples(f@)->0),
{
    let parts = split_by_exec(SepKind::Colon, f, f.len());
    proof {
        assert(f@.subrange(0, f@.len() as int) =~= f@);
        assert(parts.deep_view().len() == parts@.len());
    }
    let np = parts.len();
    if np < 1 || np > 3 {
        return Option::None;
    }
    let ghost ps = split_by(SepKind::Colon, f@);
    proof {
        assert(parts.deep_view()[np - 1] =~= parts@[np - 1]@);
        assert(ps[np - 1] == parts.deep_view()[np - 1]);
    }
    let (si, fr) = match sec_value(&parts[np - 1]) {
        Some(x) => x,
        Option::None => {
            return Option::None;
        },
    };
    let ghost sec = sec_part_val(ps[np - 1])->0;
    let mv: u128 = if np >= 2 {
        proof {
            assert(parts.deep_view()[np - 2] =~= parts@[np - 2]@);
        }
        match part_value(&parts[np - 2]) {
            Some(v) => v,
            Option::None => {
                return Option::None;
            },
        }
    } else {
        0
    };
    let ghost mt: int = if np >= 2 {
        int_part_val(ps[np - 2])->0
    } else {
        0
    };
    let hv: u128 = if np == 3 {
        proof {
            assert(parts.deep_view()[0] =~= parts@[0]@);
        }
        match part_value(&parts[0]) {
            Some(v) => v,
            Option::None => {
                return Option::None;
            },
        }
    } else {
        0
    };
    let ghost ht: int = if np == 3 {
        int_part_val(ps[0])->0
    } else {
        0
    };
    proof {
        // each parsed part is a nonnegative digit value
        if np >= 2 {
            lemma_digits_val_nonneg(trim_ws(ps[np - 2]));
        }
        if np == 3 {
            lemma_digits_val_nonneg(trim_ws(ps[0]));
        }
        if ps[np - 1].len() >= 0 {
            let t = trim_ws(ps[np - 1]);
            let d = dot_from(t, 0);
            if d >= t.len() {
                lemma_digits_val_nonneg(t);
            } else {
                lemma_digits_val_nonneg(t.subrange(0, d));
            }
        }
    }
    let w = hv * 3600 + mv * 60 + si;
    proof {
        vstd::arithmetic::mul::lemma_mul_inequality(hv as int, CAP96 as int, 3600);
        vstd::arithmetic::mul::lemma_mul_inequality(mv as int, CAP96 as int, 60);
    }
    let x = w * 48000 + fr;
    proof {
        vstd::arithmetic::mul::lemma_mul_inequality(
            w as int,
            3661 * CAP96 as int,
            48000,
        );
        // relate the saturated sum to the mathematical one
        let sum_e = hv as int * 3600 + mv as int * 60 + si as int;
        let sum_t = ht * 3600 + mt * 60 + sec.0;
        let m = ts_field_samples(f@)->0;
        assert(m == sum_t * 48000 + frac_samples(sec.1));
        if hv as int == ht && mv as int == mt && si as int == sec.0 {
            assert(x as int == m);
        } else {
            assert(sum_e >= CAP96);
            vstd::arithmetic::mul::lemma_mul_inequality(CAP96 as int, sum_e, 48000);
            vstd::arithmetic::mul::lemma_mul_inequality(sum_e, sum_t, 48000);
            assert(x as int >= CAP96 as int * 48000);
            assert(m >= sum_e * 48000);
            assert(x > u64::MAX);
            assert(m > u64::MAX);
        }
    }
    Some(x)
}

/// The sample index a field names, in the detected form, saturated
/// consistently with the mathematical value.
fn field_value(f: &Vec<char>, timestamp: bool, rate: ConversionRate) -> (r: Option<u128>)
    requires
        rate.old_count > 0,
    ensures
        r is Some <==> spec_field_value(
            f@,
            timestamp,
            rate.new_count as int,
            rate.old_count as int,
        ) is Some,
        r is Some ==> approx_sample(
            r->0 as int,
            spec_field_value(f@, timestamp, rate.new_count as int, rate.old_count as int)->0,
        ),
{
    if timestamp {
        ts_field_value(f)
    } else {
        let (a, b) = trim_bounds(f);
        match parse_digits_capped(f, a, b, CAP64) {
            Option::None => Option::None,
            Some(v) => {
                if v >= CAP64 {
                    Option::None
                } else {
                    let n = rate.new_count as u128;
                    let o = rate.old_count as u128;
                    proof {
                        vstd::arithmetic::mul::lemma_mul_upper_bound(
                            2 * v as int,
                            2 * CAP64 as int,
                            n as int,
                            0x1_0000_0000,
                        );
                    }
                    let num = 2 * v * n + o;
                    let den = 2 * o;
                    Some(num / den)
                }
            },
        }
    }
}

/// Resolves a loop-range option string against the decoded sample count and
/// the conversion rate.
///
/// Fields are split at `,` or `-` with trailing separators ignored; a
/// string containing `:` or `.` is read as timestamps at the 48000 Hz
/// reference rate, any other as raw pre-resampling sample indices rescaled
/// by `rate` with round half up. One field loops from its value to the end
/// of the audio; two fields give start and end. The result is exactly what
/// [`spec_resolve`] decides: the format error for anything else, and the
/// out-of-bounds error, naming the actual count, for a range that breaks
/// `start <= end <= num_samples`.
pub fn message_to_range(message: &str, num_samples: u64, rate: ConversionRate) -> (r: Result<
    LoopRange,
    ConvertError,
>)
    requires
        rate.old_count > 0,
    ensures
        ({
            let d = spec_resolve(
                message@,
                num_samples as int,
                rate.new_count as int,
                rate.old_count as int,
            );
            &&& (d is BadFormat ==> r is Err && r->Err_0.kind == ConvertErrorKind::MessageFormat
                && r->Err_0.message@ == format_error_text())
            &&& (d is OutOfBounds ==> r is Err && r->Err_0.kind == ConvertErrorKind::Nus3audio
                && r->Err_0.message@ == bounds_error_text(num_samples as int))
            &&& (d is Accepted ==> r is Ok && r->Ok_0.start == d->Accepted_start
                && r->Ok_0.end == d->Accepted_end && r->Ok_0.is_valid(num_samples))
        }),
{
    let mv = chars_of(message);
    let ts = has_marker(&mv);
    let mut endpos = mv.len();
    while endpos > 0
        invariant
            endpos <= mv@.len(),
            forall|j: int| endpos <= j < mv@.len() ==> is_sep(SepKind::Field, mv@[j]),
        ensures
            endpos <= mv@.len(),
            forall|j: int| endpos <= j < mv@.len() ==> is_sep(SepKind::Field, mv@[j]),
            endpos > 0 ==> !is_sep(SepKind::Field, mv@[endpos - 1]),
        decreases endpos,
    {
        if is_sep_exec(SepKind::Field, mv[endpos - 1]) {
            endpos = endpos - 1;
        } else {
            break ;
        }
    }
    proof {
        lemma_trim_seps_is(mv@, endpos as int);
    }
    let fields = split_by_exec(SepKind::Field, &mv, endpos);
    let ghost fs = spec_fields(message@);
    proof {
        assert(fields.deep_view() == fs);
        assert(fields.deep_view().len() == fields@.len());
    }
    let nf = fields.len();
    if nf != 1 && nf != 2 {
        return Err(format_error());
    }
    proof {
        assert(fields.deep_view()[0] =~= fields@[0]@);
    }
    let ghost n = rate.new_count as int;
    let ghost o = rate.old_count as int;
    let v0 = match field_value(&fields[0], ts, rate) {
        Some(v) => v,
        Option::None => {
            return Err(format_error());
        },
    };
    let ghost m0 = spec_field_value(fs[0], ts, n, o)->0;
    let (sx, ex): (u128, u128) = if nf == 1 {
        (v0, num_samples as u128)
    } else {
        proof {
            assert(fields.deep_view()[1] =~= fields@[1]@);
        }
        let v1 = match field_value(&fields[1], ts, rate) {
            Some(v) => v,
            Option::None => {
                return Err(format_error());
            },
        };
        (v0, v1)
    };
    let ghost sm: int = m0;
    let ghost em: int = if nf == 1 {
        num_samples as int
    } else {
        spec_field_value(fs[1], ts, n, o)->0
    };
    if ex > num_samples as u128 {
        proof {
            if em <= u64::MAX {
                assert(ex == em);
            } else {
                assert(em > num_samples);
            }
        }
        return Err(bounds_error(num_samples));
    }
    // the end is addressable, so it is exact
    proof {
        assert(em <= num_samples);
        assert(ex == em);
    }
    if sx > ex {
        proof {
            if sm <= u64::MAX {
                assert(sx == sm);
            } else {
                assert(sm > u64::MAX >= em);
            }
        }
        return Err(bounds_error(num_samples));
    }
    proof {
        assert(sx == sm);
    }
    Ok(LoopRange { start: sx as u64, end: ex as u64 })
}

/// Resolves an optional loop-range option string: no option at all means
/// the identity range over the whole audio.
pub fn resolve(option: Option<&str>, num_samples: u64, rate: ConversionRate) -> (r: Result<
    LoopRange,
    ConvertError,
>)
    requires
        rate.old_count > 0,
    ensures
        option is None ==> r == Result::<LoopRange, ConvertError>::Ok(
            LoopRange { start: 0, end: num_samples },
        ),
        option is Some ==> ({
            let d = spec_resolve(
                option->0@,
                num_samples as int,
                rate.new_count as int,
                rate.old_count as int,
            );
            &&& (d is BadFormat ==> r is Err && r->Err_0.kind == ConvertErrorKind::MessageFormat
                && r->Err_0.message@ == format_error_text())
            &&& (d is OutOfBounds ==> r is Err && r->Err_0.kind == ConvertErrorKind::Nus3audio
                && r->Err_0.message@ == bounds_error_text(num_samples as int))
            &&& (d is Accepted ==> r is Ok && r->Ok_0.start == d->Accepted_start
                && r->Ok_0.end == d->Accepted_end && r->Ok_0.is_valid(num_samples))
        }),
{
    match option {
        Option::None => Ok(LoopRange { start: 0, end: num_samples }),
        Some(message) => message_to_range(message, num_samples, rate),
    }
}

} // verus!
