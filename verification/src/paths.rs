//! Path-string manipulation.
//!
//! Paths are handled as plain strings: the part after the last `/` is the
//! file name, and the part of the file name after its last inner `.` is the
//! extension, the primary dispatch key. A path whose last component is empty
//! or a parent-directory marker names no file. Directory navigation segments
//! are not normalized.

use vstd::prelude::*;
use vstd::string::{StrSliceExecFns, StringExecFns};
use crate::loop_range::{SepKind, split_by, split_by_exec};
use crate::text::{chars_of, chars_to_string};

verus! {

/// The index of the last occurrence of `c` in `s`, or `-1` if `c` does not
/// occur.
pub open spec fn last_pos(s: Seq<char>, c: char) -> int
    decreases s.len(),
{
    if s.len() == 0 {
        -1
    } else if s[s.len() - 1] == c {
        s.len() - 1
    } else {
        last_pos(s.drop_last(), c)
    }
}

proof fn lemma_last_pos_none(s: Seq<char>, c: char)
    requires
        forall|j: int| 0 <= j < s.len() ==> s[j] != c,
    ensures
        last_pos(s, c) == -1,
    decreases s.len(),
{
    if s.len() > 0 {
        lemma_last_pos_none(s.drop_last(), c);
    }
}

proof fn lemma_last_pos_found(s: Seq<char>, c: char, k: int)
    requires
        0 <= k < s.len(),
        s[k] == c,
        forall|j: int| k < j < s.len() ==> s[j] != c,
    ensures
        last_pos(s, c) == k,
    decreases s.len(),
{
    if k < s.len() - 1 {
        lemma_last_pos_found(s.drop_last(), c, k);
    }
}

/// The index of the last occurrence of `c`, found by scanning backwards.
pub fn last_pos_vec(v: &Vec<char>, c: char) -> (r: Option<usize>)
    ensures
        r is Some ==> last_pos(v@, c) == r->Some_0 && r->Some_0 < v@.len(),
        r is None ==> last_pos(v@, c) == -1,
{
    let mut i = v.len();
    while i > 0
        invariant
            i <= v@.len(),
            forall|j: int| i <= j < v@.len() ==> v@[j] != c,
        decreases i,
    {
        i = i - 1;
        if v[i] == c {
            proof {
                lemma_last_pos_found(v@, c, i as int);
            }
            return Some(i);
        }
    }
    proof {
        lemma_last_pos_none(v@, c);
    }
    None
}

/// Where the file name of a path begins: right after the last `/`.
pub open spec fn base_start(s: Seq<char>) -> int {
    last_pos(s, '/') + 1
}

/// The file-name part of a path: everything after the last `/`.
pub open spec fn base_name(s: Seq<char>) -> Seq<char> {
    s.subrange(base_start(s), s.len() as int)
}

/// The extension of a path: the part of the file name after its last `.`,
/// provided that `.` is not the file name's first character. Empty when the
/// file name has no such `.`, and for a parent-directory marker.
pub open spec fn spec_extension(s: Seq<char>) -> Seq<char> {
    let b = base_name(s);
    if b == seq!['.', '.'] {
        Seq::<char>::empty()
    } else {
        let d = last_pos(b, '.');
        if d <= 0 {
            Seq::<char>::empty()
        } else {
            b.subrange(d + 1, b.len() as int)
        }
    }
}

/// The file name without its extension; absent when the path names no file.
pub open spec fn spec_file_stem(s: Seq<char>) -> Option<Seq<char>> {
    let b = base_name(s);
    if b.len() == 0 || b == seq!['.', '.'] {
        Option::<Seq<char>>::None
    } else {
        let d = last_pos(b, '.');
        if d <= 0 {
            Some(b)
        } else {
            Some(b.subrange(0, d))
        }
    }
}

/// The path with its extension replaced by `e` (or appended when the file
/// name has none). A path that names no file is returned unchanged, and an
/// empty `e` just removes the extension.
pub open spec fn spec_with_extension(s: Seq<char>, e: Seq<char>) -> Seq<char> {
    let b = base_name(s);
    if b.len() == 0 || b == seq!['.', '.'] {
        s
    } else {
        let d = last_pos(b, '.');
        let keep = if d <= 0 {
            s.len() as int
        } else {
            base_start(s) + d
        };
        if e.len() == 0 {
            s.subrange(0, keep)
        } else {
            s.subrange(0, keep) + seq!['.'] + e
        }
    }
}

/// Copies the characters of `v` from `from` (inclusive) to `to` (exclusive).
pub(crate) fn sub_vec(v: &Vec<char>, from: usize, to: usize) -> (r: Vec<char>)
    requires
        from <= to <= v@.len(),
    ensures
        r@ == v@.subrange(from as int, to as int),
{
    let mut r: Vec<char> = Vec::new();
    let mut i = from;
    while i < to
        invariant
            from <= i <= to <= v@.len(),
            r@ == v@.subrange(from as int, i as int),
        decreases to - i,
    {
        r.push(v[i]);
        proof {
            assert(r@ =~= v@.subrange(from as int, i + 1 as int));
        }
        i = i + 1;
    }
    r
}

/// The extension of a path, the primary dispatch key; empty when the path
/// has none.
pub fn extension<'a>(path: &'a str) -> (r: &'a str)
    ensures
        r@ == spec_extension(path@),
{
    let v = chars_of(path);
    let n = v.len();
    let bstart = match last_pos_vec(&v, '/') {
        Some(i) => i + 1,
        Option::None => 0,
    };
    let b = sub_vec(&v, bstart, n);
    if b.len() == 2 {
        if b[0] == '.' {
            if b[1] == '.' {
                proof {
                    assert(base_name(path@) =~= seq!['.', '.']);
                    reveal_strlit("");
                    assert(""@ =~= Seq::<char>::empty());
                }
                return "";
            }
        }
    }
    proof {
        assert(base_name(path@) != seq!['.', '.']);
    }
    match last_pos_vec(&b, '.') {
        Some(d) if d > 0 => {
            let r = path.substring_char(bstart + d + 1, n);
            proof {
                assert(r@ =~= b@.subrange(d + 1, b@.len() as int));
            }
            r
        },
        _ => {
            proof {
                reveal_strlit("");
                assert(""@ =~= Seq::<char>::empty());
            }
            ""
        },
    }
}

/// The file name without its extension; `None` when the path names no file.
pub fn file_stem<'a>(path: &'a str) -> (r: Option<&'a str>)
    ensures
        r is Some ==> spec_file_stem(path@) == Some(r->Some_0@),
        r is None ==> spec_file_stem(path@) is None,
{
    let v = chars_of(path);
    let n = v.len();
    let bstart = match last_pos_vec(&v, '/') {
        Some(i) => i + 1,
        Option::None => 0,
    };
    let b = sub_vec(&v, bstart, n);
    if b.len() == 0 {
        return Option::None;
    }
    if b.len() == 2 {
        if b[0] == '.' {
            if b[1] == '.' {
                proof {
                    assert(base_name(path@) =~= seq!['.', '.']);
                }
                return Option::None;
            }
        }
    }
    proof {
        assert(base_name(path@) != seq!['.', '.']);
    }
    match last_pos_vec(&b, '.') {
        Some(d) if d > 0 => {
            let r = path.substring_char(bstart, bstart + d);
            proof {
                assert(r@ =~= b@.subrange(0, d as int));
            }
            Some(r)
        },
        _ => {
            let r = path.substring_char(bstart, n);
            proof {
                assert(r@ =~= b@);
            }
            Some(r)
        },
    }
}

/// The path with its extension replaced by `e`. Outputs are written next to
/// their input: same directory, same stem, new extension.
pub fn with_extension(path: &str, e: &str) -> (r: String)
    ensures
        r@ == spec_with_extension(path@, e@),
{
    let v = chars_of(path);
    let n = v.len();
    let bstart = match last_pos_vec(&v, '/') {
        Some(i) => i + 1,
        Option::None => 0,
    };
    let b = sub_vec(&v, bstart, n);
    let unchanged = b.len() == 0 || (b.len() == 2 && b[0] == '.' && b[1] == '.');
    if unchanged {
        proof {
            if b@.len() == 2 && b@[0] == '.' && b@[1] == '.' {
                assert(base_name(path@) =~= seq!['.', '.']);
            }
        }
        return String::from_str(path);
    }
    proof {
        assert(base_name(path@) != seq!['.', '.']);
    }
    let keep: usize = match last_pos_vec(&b, '.') {
        Some(d) if d > 0 => bstart + d,
        _ => n,
    };
    let head = path.substring_char(0, keep);
    if e.is_empty() {
        let r = String::from_str(head);
        proof {
            assert(r@ =~= spec_with_extension(path@, e@));
        }
        r
    } else {
        let r = head.to_owned().concat(".").concat(e);
        proof {
            reveal_strlit(".");
            assert("."@ =~= seq!['.']);
            assert(r@ =~= spec_with_extension(path@, e@));
        }
        r
    }
}


/// The components of a requested path joined under the shared root, from
/// component `i` on; empty components vanish.
pub open spec fn arc_joined(parts: Seq<Seq<char>>, i: int) -> Seq<char>
    decreases parts.len() - i,
{
    if i < 0 || i >= parts.len() {
        Seq::<char>::empty()
    } else if parts[i].len() == 0 {
        arc_joined(parts, i + 1)
    } else {
        seq!['/'] + parts[i] + arc_joined(parts, i + 1)
    }
}

/// What a requested path resolves to under the shared root: absent when any
/// component walks upward, else the root with every nonempty component
/// appended. Navigation dots inside components are kept as written.
pub open spec fn spec_to_arc_path(s: Seq<char>) -> Option<Seq<char>> {
    let parts = split_by(SepKind::Slash, s);
    if exists|k: int| 0 <= k < parts.len() && parts[k] == seq!['.', '.'] {
        Option::<Seq<char>>::None
    } else {
        Some("/arc"@ + arc_joined(parts, 0))
    }
}

/// Resolves a requested path under the shared root, refusing any path with
/// a parent-directory component.
pub fn to_arc_path(s: &str) -> (r: Option<String>)
    ensures
        r is Some ==> spec_to_arc_path(s@) == Some(r->Some_0@),
        r is None ==> spec_to_arc_path(s@) is None,
{
    let v = chars_of(s);
    let parts = split_by_exec(SepKind::Slash, &v, v.len());
    proof {
        assert(v@.subrange(0, v@.len() as int) =~= v@);
        assert(parts.deep_view().len() == parts@.len());
    }
    let ghost ps = split_by(SepKind::Slash, s@);
    let n = parts.len();
    let mut out = String::from_str("/arc");
    let mut i: usize = 0;
    #[verifier::loop_isolation(false)]
    while i < n
        invariant
            i <= n,
            forall|t: int| 0 <= t < i ==> ps[t] != seq!['.', '.'],
            out@ + arc_joined(ps, i as int) == "/arc"@ + arc_joined(ps, 0),
        decreases n - i,
    {
        proof {
            assert(parts.deep_view()[i as int] =~= parts@[i as int]@);
        }
        let part = &parts[i];
        if part.len() == 2 {
            if part[0] == '.' {
                if part[1] == '.' {
                    proof {
                        assert(ps[i as int] =~= seq!['.', '.']);
                    }
                    return Option::<String>::None;
                }
            }
        }
        proof {
            assert(ps[i as int] != seq!['.', '.']);
        }
        if part.len() > 0 {
            out.append("/");
            let piece = chars_to_string(part);
            out.append(piece.as_str());
            proof {
                reveal_strlit("/");
                assert("/"@ =~= seq!['/']);
                assert(arc_joined(ps, i as int) == seq!['/'] + ps[i as int] + arc_joined(
                    ps,
                    i + 1,
                ));
                assert(out@ + arc_joined(ps, i + 1) =~= "/arc"@ + arc_joined(ps, 0));
            }
        } else {
            proof {
                assert(arc_joined(ps, i as int) == arc_joined(ps, i + 1));
            }
        }
        i = i + 1;
    }
    proof {
        assert(arc_joined(ps, n as int) =~= Seq::<char>::empty());
        assert(out@ + Seq::<char>::empty() =~= out@);
    }
    Some(out)
}

} // verus!
