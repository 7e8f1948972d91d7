//! Conversion dispatch engine and audio loop-point pipeline for game-asset
//! files.
//!
//! The crate decides, from a file's extension and leading bytes, which format
//! converter applies and in which direction, resolves loop ranges and archive
//! repacking policies from free-text option strings, and encodes or decodes
//! the single-entry binary audio container.

use vstd::prelude::*;

pub mod archive;
pub mod container;
pub mod dispatch;
pub mod error;
pub mod loop_range;
pub mod matcher;
pub mod paths;
pub mod songs;
pub mod text;

verus! {

/// Treats an empty option string as "no option given".
pub fn as_non_empty_string(string: &str) -> (r: Option<&str>)
    ensures
        string@.len() == 0 ==> r is None,
        string@.len() > 0 ==> r == Some(string),
{
    if string.is_empty() {
        None
    } else {
        Some(string)
    }
}

} // verus!
