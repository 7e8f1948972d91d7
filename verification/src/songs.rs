//! The song table.
//!
//! A tab-separated table maps each song name to the audio-container file
//! names that carry it. A row needs a name and at least one file stem;
//! shorter rows are dropped. Each stem is completed to a container file name
//! with a fixed prefix and extension.

use vstd::prelude::*;
use vstd::string::{StringExecFns, StrSliceExecFns};
use crate::loop_range::{SepKind, split_by, split_by_exec};
use crate::text::{chars_of, chars_to_string};

verus! {

/// A file stem completed to a container file name.
pub open spec fn song_file_name(stem: Seq<char>) -> Seq<char> {
    "bgm_"@ + stem + ".nus3audio"@
}

/// The file names of a row's stems, from column `j` on.
pub open spec fn song_files(cols: Seq<Seq<char>>, j: int) -> Seq<Seq<char>>
    decreases cols.len() - j,
{
    if j < 0 || j >= cols.len() {
        Seq::<Seq<char>>::empty()
    } else {
        seq![song_file_name(cols[j])] + song_files(cols, j + 1)
    }
}

/// The usable rows of the table, from line `i` on: each line with at least
/// two tab-separated columns becomes a name and its file names, in input
/// order.
pub open spec fn song_rows(lines: Seq<Seq<char>>, i: int) -> Seq<(Seq<char>, Seq<Seq<char>>)>
    decreases lines.len() - i,
{
    if i < 0 || i >= lines.len() {
        Seq::<(Seq<char>, Seq<Seq<char>>)>::empty()
    } else {
        let cols = split_by(SepKind::Tab, lines[i]);
        if cols.len() >= 2 {
            seq![(cols[0], song_files(cols, 1))] + song_rows(lines, i + 1)
        } else {
            song_rows(lines, i + 1)
        }
    }
}

/// The song table a tab-separated text describes.
pub open spec fn song_table(tsv: Seq<char>) -> Seq<(Seq<char>, Seq<Seq<char>>)> {
    song_rows(split_by(SepKind::Line, tsv), 0)
}

/// Builds the lookup table from song names to container file names out of
/// the tab-separated song list.
pub fn setup_songs(tsv: &str) -> (r: Vec<(String, Vec<String>)>)
    ensures
        r.deep_view() == song_table(tsv@),
{
    let tv = chars_of(tsv);
    let lines = split_by_exec(SepKind::Line, &tv, tv.len());
    proof {
        assert(tv@.subrange(0, tv@.len() as int) =~= tv@);
        assert(lines.deep_view().len() == lines@.len());
    }
    let ghost ldv = split_by(SepKind::Line, tsv@);
    let nl = lines.len();
    let mut r: Vec<(String, Vec<String>)> = Vec::new();
    let mut i: usize = 0;
    #[verifier::loop_isolation(false)]
    while i < nl
        invariant
            i <= nl,
            song_rows(ldv, 0) == r.deep_view() + song_rows(ldv, i as int),
        decreases nl - i,
    {
        proof {
            assert(lines.deep_view()[i as int] =~= lines@[i as int]@);
        }
        let line = &lines[i];
        let cols = split_by_exec(SepKind::Tab, line, line.len());
        proof {
            assert(line@.subrange(0, line@.len() as int) =~= line@);
            assert(cols.deep_view().len() == cols@.len());
        }
        let ghost cdv = split_by(SepKind::Tab, ldv[i as int]);
        let nc = cols.len();
        if nc >= 2 {
            proof {
                assert(cols.deep_view()[0] =~= cols@[0]@);
            }
            let key = chars_to_string(&cols[0]);
            let mut files: Vec<String> = Vec::new();
            let mut j: usize = 1;
            #[verifier::loop_isolation(false)]
            while j < nc
                invariant
                    1 <= j <= nc,
                    song_files(cdv, 1) == files.deep_view() + song_files(cdv, j as int),
                decreases nc - j,
            {
                proof {
                    assert(cols.deep_view()[j as int] =~= cols@[j as int]@);
                }
                let stem = chars_to_string(&cols[j]);
                let name = String::from_str("bgm_").concat(stem.as_str()).concat(".nus3audio");
                let ghost fdv = files.deep_view();
                files.push(name);
                proof {
                    assert(files.deep_view() =~~= fdv.push(song_file_name(cdv[j as int])));
                    assert(fdv + seq![song_file_name(cdv[j as int])] =~= fdv.push(
                        song_file_name(cdv[j as int]),
                    ));
                    assert(song_files(cdv, j as int) == seq![song_file_name(cdv[j as int])]
                        + song_files(cdv, j + 1));
                }
                j = j + 1;
            }
            proof {
                assert(song_files(cdv, nc as int) =~= Seq::<Seq<char>>::empty());
                assert(files.deep_view() + Seq::<Seq<char>>::empty() =~= files.deep_view());
                assert(files.deep_view() == song_files(cdv, 1));
            }
            let ghost rdv = r.deep_view();
            let ghost row = (cdv[0], song_files(cdv, 1));
            r.push((key, files));
            proof {
                assert(r.deep_view() =~~= rdv.push(row));
                assert(rdv + seq![row] =~= rdv.push(row));
                assert(song_rows(ldv, i as int) == seq![row] + song_rows(ldv, i + 1));
            }
        } else {
            proof {
                assert(song_rows(ldv, i as int) == song_rows(ldv, i + 1));
            }
        }
        i = i + 1;
    }
    proof {
        assert(song_rows(ldv, nl as int) =~= Seq::<(Seq<char>, Seq<Seq<char>>)>::empty());
        assert(r.deep_view() + Seq::<(Seq<char>, Seq<Seq<char>>)>::empty() =~= r.deep_view());
    }
    r
}

} // verus!
