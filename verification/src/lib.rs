//! Extraction of function definitions and import statements from the
//! line-based serialization of an interactive notebook.
//!
//! The pipeline locates code cells in the raw document text, decodes each
//! string-escaped source line to its literal form, and segments the decoded
//! lines of every cell into a deduplicated import set plus an ordered list
//! of named function records, which a host can then query.

use vstd::prelude::*;

pub mod decode;
pub mod index;
pub mod laws;
pub mod scan;
pub mod segment;
pub mod text;

pub use decode::clean_line_json;
pub use index::imports_as_lines;
pub use index::JupyterFunctions;
pub use segment::process_code;

verus! {

/// A character counts as blank for the purpose of locating the first
/// meaningful character of a raw line: a space or a tab.
pub open spec fn is_blank(c: char) -> bool {
    c == ' ' || c == '\t'
}

/// The character sequences of a sequence of strings.
pub open spec fn string_views(s: Seq<String>) -> Seq<Seq<char>> {
    s.map_values(|x: String| x@)
}

/// The character sequences of a sequence of character vectors.
pub open spec fn vec_views(s: Seq<Vec<char>>) -> Seq<Seq<char>> {
    s.map_values(|v: Vec<char>| v@)
}

/// The character sequences of a sequence of (name, body) string pairs.
pub open spec fn rec_views(s: Seq<(String, String)>) -> Seq<(Seq<char>, Seq<char>)> {
    s.map_values(|p: (String, String)| (p.0@, p.1@))
}

/// The literal content of every raw line of one cell, in order.
pub open spec fn decoded_views(raw: Seq<String>) -> Seq<Seq<char>> {
    raw.map_values(|s: String| decode::clean_line_spec(s@))
}

/// Whether the character sequences of `s` are pairwise distinct.
pub open spec fn distinct_seqs(s: Seq<Seq<char>>) -> bool {
    forall|i: int, j: int| 0 <= i < j < s.len() ==> s[i] != s[j]
}

} // verus!
