//! Archive repacking rules.
//!
//! An archive conversion resolves, once, a policy from the free-text option
//! string: the output extension, the byte order, and whether the container
//! is compression-wrapped. Recognition is substring-based and therefore
//! ambiguous by nature; a vocabulary entry counts only where it occurs
//! outside every occurrence of a longer entry, so that an option naming
//! `bactorpack` is not mistaken for its tail `pack`. Vocabulary matches take
//! precedence over the generic `uncompressed`/`compressed` keywords, and the
//! default is the generic compressed extension.

use vstd::prelude::*;
use vstd::string::StringExecFns;
use crate::text::{chars_of, contains_seq, contains_str, matches_at, occurs_at, u64_to_dec, dec_string};

verus! {

/// The byte order of an archive container.
#[derive(Debug, Clone, Copy, PartialEq, Eq, Structural)]
pub enum Endianness {
    Little,
    Big,
}

/// A resolved archive repacking policy; derived once per conversion and
/// never mutated after resolution.
pub struct ArchivePolicy {
    pub extension: String,
    pub byte_order: Endianness,
    pub compressed: bool,
}

/// The extensions that name a compression-wrapped archive.
pub open spec fn compressed_exts() -> Seq<Seq<char>> {
    seq![
        "sbactorpack"@,
        "sbmodelsh"@,
        "sbeventpack"@,
        "ssarc"@,
        "pack"@,
        "stera"@,
        "stats"@,
        "szs"@,
    ]
}

/// The extensions that name a plain archive.
pub open spec fn uncompressed_exts() -> Seq<Seq<char>> {
    seq![
        "bactorpack"@,
        "bmodelsh"@,
        "beventpack"@,
        "sarc"@,
        "arc"@,
        "bars"@,
        "blarc"@,
        "bgenv"@,
        "genvb"@,
    ]
}

/// Every archive extension, compressed and plain.
pub open spec fn all_exts() -> Seq<Seq<char>> {
    compressed_exts() + uncompressed_exts()
}

/// The compressed-archive extensions, as string slices.
fn compressed_ext_names() -> (r: Vec<&'static str>)
    ensures
        r@.len() == compressed_exts().len(),
        forall|k: int| 0 <= k < r@.len() ==> #[trigger] r@[k]@ == compressed_exts()[k],
{
    let mut r: Vec<&'static str> = Vec::new();
    r.push("sbactorpack");
    r.push("sbmodelsh");
    r.push("sbeventpack");
    r.push("ssarc");
    r.push("pack");
    r.push("stera");
    r.push("stats");
    r.push("szs");
    r
}

/// The plain-archive extensions, as string slices.
fn uncompressed_ext_names() -> (r: Vec<&'static str>)
    ensures
        r@.len() == uncompressed_exts().len(),
        forall|k: int| 0 <= k < r@.len() ==> #[trigger] r@[k]@ == uncompressed_exts()[k],
{
    let mut r: Vec<&'static str> = Vec::new();
    r.push("bactorpack");
    r.push("bmodelsh");
    r.push("beventpack");
    r.push("sarc");
    r.push("arc");
    r.push("bars");
    r.push("blarc");
    r.push("bgenv");
    r.push("genvb");
    r
}

/// Every archive extension, as string slices.
fn all_ext_names() -> (r: Vec<&'static str>)
    ensures
        r@.len() == all_exts().len(),
        forall|k: int| 0 <= k < r@.len() ==> #[trigger] r@[k]@ == all_exts()[k],
{
    let mut r = compressed_ext_names();
    let mut u = uncompressed_ext_names();
    r.append(&mut u);
    r
}

/// Whether the occurrence of an entry of length `l` at position `i` of `s`
/// lies inside an occurrence of the strictly longer vocabulary entry `y`.
pub open spec fn entry_covers(s: Seq<char>, i: int, l: int, y: Seq<char>) -> bool {
    y.len() > l && exists|j: int| occurs_at(s, y, j) && j <= i && i + l <= j + y.len()
}

/// Whether the occurrence at position `i`, of length `l`, is shadowed by an
/// occurrence of some longer vocabulary entry.
pub open spec fn shadowed(s: Seq<char>, i: int, l: int) -> bool {
    exists|k: int| 0 <= k < all_exts().len() && entry_covers(s, i, l, #[trigger] all_exts()[k])
}

/// Whether the vocabulary entry `e` counts as named by the option string
/// `s`: it occurs somewhere outside every longer entry's occurrence.
pub open spec fn vocab_occurs(s: Seq<char>, e: Seq<char>) -> bool {
    exists|i: int| occurs_at(s, e, i) && !shadowed(s, i, e.len() as int)
}

/// Whether an occurrence of the longer entry `y` shadows position `i` of
/// length `l`, by scanning every position of `s`.
fn entry_covers_exec(s: &Vec<char>, i: usize, l: usize, y: &str) -> (b: bool)
    ensures
        b == entry_covers(s@, i as int, l as int, y@),
{
    let yv = chars_of(y);
    let m = yv.len();
    if m <= l {
        return false;
    }
    let n = s.len();
    if m > n {
        proof {
            assert(forall|j: int| !occurs_at(s@, y@, j));
        }
        return false;
    }
    let mut j: usize = 0;
    while j <= n - m
        invariant
            l < m <= n,
            n == s@.len(),
            m == y@.len(),
            yv@ == y@,
            j <= n - m + 1,
            forall|t: int|
                0 <= t < j ==> !(occurs_at(s@, y@, t) && t <= i && i + l <= t + y@.len()),
        decreases n - j,
    {
        if matches_at(s, &yv, j) && j <= i && i - j <= m && l <= m - (i - j) {
            return true;
        }
        j = j + 1;
    }
    proof {
        assert(forall|t: int| occurs_at(s@, y@, t) ==> 0 <= t <= n - m);
    }
    false
}

/// Whether position `i` of length `l` is shadowed by any longer vocabulary
/// entry.
fn shadowed_exec(s: &Vec<char>, i: usize, l: usize) -> (b: bool)
    ensures
        b == shadowed(s@, i as int, l as int),
{
    let names = all_ext_names();
    let n = names.len();
    let mut k: usize = 0;
    while k < n
        invariant
            k <= n,
            n == all_exts().len(),
            names@.len() == n,
            forall|t: int| 0 <= t < n ==> #[trigger] names@[t]@ == all_exts()[t],
            forall|t: int| 0 <= t < k ==> !entry_covers(s@, i as int, l as int, all_exts()[t]),
        decreases n - k,
    {
        if entry_covers_exec(s, i, l, names[k]) {
            return true;
        }
        k = k + 1;
    }
    false
}

/// Every archive extension is a nonempty keyword.
proof fn lemma_exts_nonempty()
    ensures
        forall|k: int| 0 <= k < all_exts().len() ==> #[trigger] all_exts()[k].len() > 0,
{
    reveal_strlit("sbactorpack");
    reveal_strlit("sbmodelsh");
    reveal_strlit("sbeventpack");
    reveal_strlit("ssarc");
    reveal_strlit("pack");
    reveal_strlit("stera");
    reveal_strlit("stats");
    reveal_strlit("szs");
    reveal_strlit("bactorpack");
    reveal_strlit("bmodelsh");
    reveal_strlit("beventpack");
    reveal_strlit("sarc");
    reveal_strlit("arc");
    reveal_strlit("bars");
    reveal_strlit("blarc");
    reveal_strlit("bgenv");
    reveal_strlit("genvb");
}

/// Whether the vocabulary entry `e` counts as named by `s`.
fn vocab_occurs_exec(s: &Vec<char>, e: &str) -> (b: bool)
    requires
        e@.len() > 0,
    ensures
        b == vocab_occurs(s@, e@),
{
    let ev = chars_of(e);
    let m = ev.len();
    let n = s.len();
    if m > n {
        proof {
            assert(forall|i: int| !occurs_at(s@, e@, i));
        }
        return false;
    }
    let mut i: usize = 0;
    while i <= n - m
        invariant
            1 <= m <= n,
            n == s@.len(),
            m == e@.len(),
            ev@ == e@,
            i <= n - m + 1,
            forall|t: int|
                0 <= t < i ==> !(occurs_at(s@, e@, t) && !shadowed(s@, t, e@.len() as int)),
        decreases n - i,
    {
        if matches_at(s, &ev, i) {
            if !shadowed_exec(s, i, m) {
                return true;
            }
        }
        i = i + 1;
    }
    proof {
        assert(forall|t: int| occurs_at(s@, e@, t) ==> 0 <= t <= n - m);
    }
    false
}

/// The first entry of `list`, at or after position `i`, that the option
/// string names.
pub open spec fn spec_find_vocab(s: Seq<char>, list: Seq<Seq<char>>, i: int) -> Option<int>
    decreases list.len() - i,
{
    if i < 0 || i >= list.len() {
        Option::<int>::None
    } else if vocab_occurs(s, list[i]) {
        Some(i)
    } else {
        spec_find_vocab(s, list, i + 1)
    }
}

/// Finds the first compressed-vocabulary entry that `s` names.
fn find_compressed(s: &Vec<char>) -> (r: Option<&'static str>)
    ensures
        match r {
            Some(e) => exists|k: int|
                spec_find_vocab(s@, compressed_exts(), 0) == Some(k) && e@ == compressed_exts()[k],
            Option::None => spec_find_vocab(s@, compressed_exts(), 0) is None,
        },
{
    let names = compressed_ext_names();
    let n = names.len();
    let mut k: usize = 0;
    while k < n
        invariant
            k <= n,
            n == compressed_exts().len(),
            names@.len() == n,
            forall|t: int| 0 <= t < n ==> #[trigger] names@[t]@ == compressed_exts()[t],
            spec_find_vocab(s@, compressed_exts(), 0) == spec_find_vocab(
                s@,
                compressed_exts(),
                k as int,
            ),
        decreases n - k,
    {
        proof {
            lemma_exts_nonempty();
            assert(all_exts()[k as int] == compressed_exts()[k as int]);
        }
        if vocab_occurs_exec(s, names[k]) {
            return Some(names[k]);
        }
        k = k + 1;
    }
    Option::None
}

/// Finds the first plain-vocabulary entry that `s` names.
fn find_uncompressed(s: &Vec<char>) -> (r: Option<&'static str>)
    ensures
        match r {
            Some(e) => exists|k: int|
                spec_find_vocab(s@, uncompressed_exts(), 0) == Some(k) && e@
                    == uncompressed_exts()[k],
            Option::None => spec_find_vocab(s@, uncompressed_exts(), 0) is None,
        },
{
    let names = uncompressed_ext_names();
    let n = names.len();
    let mut k: usize = 0;
    while k < n
        invariant
            k <= n,
            n == uncompressed_exts().len(),
            names@.len() == n,
            forall|t: int| 0 <= t < n ==> #[trigger] names@[t]@ == uncompressed_exts()[t],
            spec_find_vocab(s@, uncompressed_exts(), 0) == spec_find_vocab(
                s@,
                uncompressed_exts(),
                k as int,
            ),
        decreases n - k,
    {
        proof {
            lemma_exts_nonempty();
            assert(all_exts()[compressed_exts().len() + k] == uncompressed_exts()[k as int]);
        }
        if vocab_occurs_exec(s, names[k]) {
            return Some(names[k]);
        }
        k = k + 1;
    }
    Option::None
}

/// The view of an optional option string.
pub open spec fn opt_view(o: Option<&str>) -> Option<Seq<char>> {
    match o {
        Some(s) => Some(s@),
        Option::None => Option::<Seq<char>>::None,
    }
}

/// The byte order an option string selects: a portable-platform keyword
/// picks little-endian, a big-endian-platform keyword picks big-endian, and
/// the default is little-endian.
pub open spec fn spec_byte_order(option: Option<Seq<char>>) -> Endianness {
    match option {
        Some(s) => if contains_seq(s, "3ds"@) || contains_seq(s, "switch"@) {
            Endianness::Little
        } else if contains_seq(s, "wiiu"@) || contains_seq(s, "wii u"@) || contains_seq(s, "big"@)
            || contains_seq(s, "Wii U"@) || contains_seq(s, "wii U"@) {
            Endianness::Big
        } else {
            Endianness::Little
        },
        Option::None => Endianness::Little,
    }
}

/// The output extension an option string selects, together with whether
/// that output is compression-wrapped: a compressed-vocabulary entry first,
/// else a plain-vocabulary entry, else the generic `uncompressed` keyword,
/// else the generic `yaz0`/`compressed` keywords, else the compressed
/// default.
pub open spec fn spec_extension_choice(option: Option<Seq<char>>) -> (Seq<char>, bool) {
    match option {
        Some(s) => {
            if spec_find_vocab(s, compressed_exts(), 0) is Some {
                (compressed_exts()[spec_find_vocab(s, compressed_exts(), 0)->0], true)
            } else if spec_find_vocab(s, uncompressed_exts(), 0) is Some {
                (uncompressed_exts()[spec_find_vocab(s, uncompressed_exts(), 0)->0], false)
            } else if contains_seq(s, "uncompressed"@) {
                ("sarc"@, false)
            } else if contains_seq(s, "yaz0"@) || contains_seq(s, "compressed"@) {
                ("szs"@, true)
            } else {
                ("szs"@, true)
            }
        },
        Option::None => ("szs"@, true),
    }
}

impl ArchivePolicy {
    /// Whether this policy is the one the option string resolves to.
    pub open spec fn resolves(self, option: Option<Seq<char>>) -> bool {
        &&& self.byte_order == spec_byte_order(option)
        &&& self.extension@ == spec_extension_choice(option).0
        &&& self.compressed == spec_extension_choice(option).1
    }
}

/// Resolves the archive repacking policy from the option string.
pub fn resolve_policy(option: Option<&str>) -> (p: ArchivePolicy)
    ensures
        p.resolves(opt_view(option)),
{
    match option {
        Option::None => ArchivePolicy {
            extension: String::from_str("szs"),
            byte_order: Endianness::Little,
            compressed: true,
        },
        Some(s) => {
            let sv = chars_of(s);
            let byte_order = if contains_str(&sv, "3ds") || contains_str(&sv, "switch") {
                Endianness::Little
            } else if contains_str(&sv, "wiiu") || contains_str(&sv, "wii u") || contains_str(
                &sv,
                "big",
            ) || contains_str(&sv, "Wii U") || contains_str(&sv, "wii U") {
                Endianness::Big
            } else {
                Endianness::Little
            };
            let (ext, compressed): (&'static str, bool) = match find_compressed(&sv) {
                Some(e) => (e, true),
                Option::None => match find_uncompressed(&sv) {
                    Some(e) => (e, false),
                    Option::None => {
                        if contains_str(&sv, "uncompressed") {
                            ("sarc", false)
                        } else if contains_str(&sv, "yaz0") || contains_str(&sv, "compressed") {
                            ("szs", true)
                        } else {
                            ("szs", true)
                        }
                    },
                },
            };
            ArchivePolicy { extension: String::from_str(ext), byte_order, compressed }
        },
    }
}

/// The extensions that name structured binary data, in plain form.
pub open spec fn byml_exts() -> Seq<Seq<char>> {
    seq![
        "baischedule"@,
        "baniminfo"@,
        "bgdata"@,
        "bgsvdata"@,
        "bquestpack"@,
        "bquestpack"@,
        "byml"@,
        "mubin"@,
    ]
}

/// The same extensions in compression-wrapped form: each with a leading `s`.
pub open spec fn byml_compressed_exts() -> Seq<Seq<char>> {
    seq![
        "sbaischedule"@,
        "sbaniminfo"@,
        "sbgdata"@,
        "sbgsvdata"@,
        "sbquestpack"@,
        "sbquestpack"@,
        "sbyml"@,
        "smubin"@,
    ]
}

/// The plain structured-binary-data extensions, as string slices.
fn byml_ext_names() -> (r: Vec<&'static str>)
    ensures
        r@.len() == byml_exts().len(),
        forall|k: int| 0 <= k < r@.len() ==> #[trigger] r@[k]@ == byml_exts()[k],
{
    let mut r: Vec<&'static str> = Vec::new();
    r.push("baischedule");
    r.push("baniminfo");
    r.push("bgdata");
    r.push("bgsvdata");
    r.push("bquestpack");
    r.push("bquestpack");
    r.push("byml");
    r.push("mubin");
    r
}

/// The wrapped structured-binary-data extensions, as string slices.
fn byml_compressed_ext_names() -> (r: Vec<&'static str>)
    ensures
        r@.len() == byml_compressed_exts().len(),
        forall|k: int| 0 <= k < r@.len() ==> #[trigger] r@[k]@ == byml_compressed_exts()[k],
{
    let mut r: Vec<&'static str> = Vec::new();
    r.push("sbaischedule");
    r.push("sbaniminfo");
    r.push("sbgdata");
    r.push("sbgsvdata");
    r.push("sbquestpack");
    r.push("sbquestpack");
    r.push("sbyml");
    r.push("smubin");
    r
}

/// The first entry of `list`, at or after position `i`, that occurs in the
/// option string as a plain substring.
pub open spec fn spec_find_contained(s: Seq<char>, list: Seq<Seq<char>>, i: int) -> Option<int>
    decreases list.len() - i,
{
    if i < 0 || i >= list.len() {
        Option::<int>::None
    } else if contains_seq(s, list[i]) {
        Some(i)
    } else {
        spec_find_contained(s, list, i + 1)
    }
}

/// Finds the first entry of a vocabulary table contained in `s`.
fn find_contained(s: &Vec<char>, names: &Vec<&'static str>, Ghost(list): Ghost<Seq<Seq<char>>>)
    -> (r: Option<&'static str>)
    requires
        names@.len() == list.len(),
        forall|k: int| 0 <= k < names@.len() ==> #[trigger] names@[k]@ == list[k],
    ensures
        match r {
            Some(e) => exists|k: int| spec_find_contained(s@, list, 0) == Some(k) && e@ == list[k],
            Option::None => spec_find_contained(s@, list, 0) is None,
        },
{
    let n = names.len();
    let mut k: usize = 0;
    while k < n
        invariant
            k <= n,
            n == list.len(),
            names@.len() == n,
            forall|t: int| 0 <= t < n ==> #[trigger] names@[t]@ == list[t],
            spec_find_contained(s@, list, 0) == spec_find_contained(s@, list, k as int),
        decreases n - k,
    {
        if contains_str(s, names[k]) {
            return Some(names[k]);
        }
        k = k + 1;
    }
    Option::None
}

/// The byte order a structured-binary-data option string selects: a
/// big-endian-platform keyword picks big-endian, and the default is
/// little-endian.
pub open spec fn spec_byml_byte_order(option: Option<Seq<char>>) -> Endianness {
    match option {
        Some(s) => if contains_seq(s, "wiiu"@) || contains_seq(s, "wii u"@) || contains_seq(
            s,
            "Wii U"@,
        ) || contains_seq(s, "wii U"@) || contains_seq(s, "big"@) {
            Endianness::Big
        } else {
            Endianness::Little
        },
        Option::None => Endianness::Little,
    }
}

/// The output extension a structured-binary-data option string selects, and
/// whether the output is compression-wrapped: a wrapped vocabulary entry
/// first, else a plain entry, else the plain default.
pub open spec fn spec_byml_extension_choice(option: Option<Seq<char>>) -> (Seq<char>, bool) {
    match option {
        Some(s) => {
            if spec_find_contained(s, byml_compressed_exts(), 0) is Some {
                (byml_compressed_exts()[spec_find_contained(s, byml_compressed_exts(), 0)->0], true)
            } else if spec_find_contained(s, byml_exts(), 0) is Some {
                (byml_exts()[spec_find_contained(s, byml_exts(), 0)->0], false)
            } else {
                ("byml"@, false)
            }
        },
        Option::None => ("byml"@, false),
    }
}

impl ArchivePolicy {
    /// Whether this policy is the one the option string resolves to for
    /// structured binary data.
    pub open spec fn resolves_byml(self, option: Option<Seq<char>>) -> bool {
        &&& self.byte_order == spec_byml_byte_order(option)
        &&& self.extension@ == spec_byml_extension_choice(option).0
        &&& self.compressed == spec_byml_extension_choice(option).1
    }
}

/// Resolves the repacking policy for structured binary data from the option
/// string. Recognition is by plain substring: the wrapped vocabulary is
/// checked first, so a wrapped name never reads as its own plain tail.
pub fn resolve_byml_policy(option: Option<&str>) -> (p: ArchivePolicy)
    ensures
        p.resolves_byml(opt_view(option)),
{
    match option {
        Option::None => ArchivePolicy {
            extension: String::from_str("byml"),
            byte_order: Endianness::Little,
            compressed: false,
        },
        Some(s) => {
            let sv = chars_of(s);
            let byte_order = if contains_str(&sv, "wiiu") || contains_str(&sv, "wii u")
                || contains_str(&sv, "Wii U") || contains_str(&sv, "wii U") || contains_str(
                &sv,
                "big",
            ) {
                Endianness::Big
            } else {
                Endianness::Little
            };
            let comp_names = byml_compressed_ext_names();
            let plain_names = byml_ext_names();
            let (ext, compressed): (&'static str, bool) = match find_contained(
                &sv,
                &comp_names,
                Ghost(byml_compressed_exts()),
            ) {
                Some(e) => (e, true),
                Option::None => match find_contained(&sv, &plain_names, Ghost(byml_exts())) {
                    Some(e) => (e, false),
                    Option::None => ("byml", false),
                },
            };
            ArchivePolicy { extension: String::from_str(ext), byte_order, compressed }
        },
    }
}

/// The name an archive entry keeps when repacked: its own, or a positional
/// fallback of the entry's index with a generic binary extension.
pub fn entry_name(name: Option<String>, index: u64) -> (r: String)
    ensures
        match name {
            Some(n) => r == n,
            Option::None => r@ == dec_string(index as int) + ".bin"@,
        },
{
    match name {
        Some(n) => n,
        Option::None => u64_to_dec(index).concat(".bin"),
    }
}

} // verus!
