//! Cell scanner: walks the raw document lines and locates, for each code
//! cell, the contiguous line range that encodes the cell's source array.
//!
//! A code cell is recognized by a line containing the code-cell marker.
//! From there the scan looks for the first line containing the
//! source-array-opening marker, and from that line for the first line whose
//! first meaningful character is the array-closing bracket. The range
//! between the two marker lines, both included, is one cell; a cell whose
//! markers cannot both be found is skipped and the scan continues.

use vstd::prelude::*;
use crate::text::chars_to_string;
use crate::text::str_to_chars;
use crate::text::subvec;

verus! {

/// The least index `>= i` of a newline character of `s`, or `s.len()` if
/// there is none.
pub open spec fn newline_at(s: Seq<char>, i: int) -> int
    decreases s.len() - i,
{
    if i < 0 || i >= s.len() {
        s.len() as int
    } else if s[i] == '\n' {
        i
    } else {
        newline_at(s, i + 1)
    }
}

/// The bounds of `newline_at`: it never precedes `i` nor runs past the end.
pub proof fn lemma_newline_at_bounds(s: Seq<char>, i: int)
    requires
        0 <= i <= s.len(),
    ensures
        i <= newline_at(s, i) <= s.len(),
    decreases s.len() - i,
{
    if i < s.len() && s[i] != '\n' {
        lemma_newline_at_bounds(s, i + 1);
    }
}

/// `s` without its final character when that character is a carriage
/// return.
pub open spec fn strip_cr(s: Seq<char>) -> Seq<char> {
    if s.len() > 0 && s[s.len() - 1] == '\r' {
        s.take(s.len() - 1)
    } else {
        s
    }
}

/// The lines of the document text from position `pos` on: the text is cut
/// at every newline, each line loses one trailing carriage return if it has
/// one, and a final empty segment after a trailing newline is not a line.
pub open spec fn split_lines_at(s: Seq<char>, pos: int) -> Seq<Seq<char>>
    decreases s.len() - pos,
    when pos >= 0
    via split_lines_at_decreases
{
    if pos >= s.len() {
        Seq::empty()
    } else {
        let b = newline_at(s, pos);
        if b >= s.len() {
            seq![strip_cr(s.subrange(pos, s.len() as int))]
        } else {
            seq![strip_cr(s.subrange(pos, b))] + split_lines_at(s, b + 1)
        }
    }
}

#[via_fn]
proof fn split_lines_at_decreases(s: Seq<char>, pos: int) {
    if 0 <= pos < s.len() {
        lemma_newline_at_bounds(s, pos);
    }
}

/// The lines of the whole document text.
pub open spec fn split_lines(s: Seq<char>) -> Seq<Seq<char>> {
    split_lines_at(s, 0)
}

/// Whether `hay` holds `needle` as a contiguous run of characters.
pub open spec fn contains_seq(hay: Seq<char>, needle: Seq<char>) -> bool {
    exists|k: int|
        0 <= k && k + needle.len() <= hay.len() && #[trigger] hay.subrange(k, k + needle.len())
            == needle
}

/// The fixed marker that denotes a code cell.
pub open spec fn code_cell_marker() -> Seq<char> {
    "\"cell_type\": \"code\""@
}

/// The fixed marker that opens a cell's source array.
pub open spec fn source_open_marker() -> Seq<char> {
    "\"source\": ["@
}

/// Whether a raw line marks a code cell.
pub open spec fn has_code_marker(s: Seq<char>) -> bool {
    contains_seq(s, code_cell_marker())
}

/// Whether a raw line holds the marker that opens a source array.
pub open spec fn has_source_marker(s: Seq<char>) -> bool {
    contains_seq(s, source_open_marker())
}

/// Whether a raw line closes a source array: its first character that is
/// not a space or a tab is the closing bracket.
pub open spec fn closes_array(s: Seq<char>) -> bool {
    let i = crate::decode::first_non_blank_at(s, 0);
    i < s.len() && s[i] == ']'
}

/// The least index `>= i` of a raw line that opens a source array, or the
/// number of lines if there is none.
pub open spec fn find_source_open(lines: Seq<Seq<char>>, i: int) -> int
    decreases lines.len() - i,
{
    if i < 0 || i >= lines.len() {
        lines.len() as int
    } else if has_source_marker(lines[i]) {
        i
    } else {
        find_source_open(lines, i + 1)
    }
}

/// The least index `>= i` of a raw line that closes a source array, or the
/// number of lines if there is none.
pub open spec fn find_close(lines: Seq<Seq<char>>, i: int) -> int
    decreases lines.len() - i,
{
    if i < 0 || i >= lines.len() {
        lines.len() as int
    } else if closes_array(lines[i]) {
        i
    } else {
        find_close(lines, i + 1)
    }
}

/// The bounds of `find_source_open`.
pub proof fn lemma_find_source_open_bounds(lines: Seq<Seq<char>>, i: int)
    requires
        0 <= i <= lines.len(),
    ensures
        i <= find_source_open(lines, i) <= lines.len(),
    decreases lines.len() - i,
{
    if i < lines.len() && !has_source_marker(lines[i]) {
        lemma_find_source_open_bounds(lines, i + 1);
    }
}

/// The bounds of `find_close`.
pub proof fn lemma_find_close_bounds(lines: Seq<Seq<char>>, i: int)
    requires
        0 <= i <= lines.len(),
    ensures
        i <= find_close(lines, i) <= lines.len(),
    decreases lines.len() - i,
{
    if i < lines.len() && !closes_array(lines[i]) {
        lemma_find_close_bounds(lines, i + 1);
    }
}

/// The decoded lines of the cell spanning the raw lines `[ini, e]`, both
/// included.
pub open spec fn decoded_cell(lines: Seq<Seq<char>>, ini: int, e: int) -> Seq<Seq<char>> {
    lines.subrange(ini, e + 1).map_values(|s: Seq<char>| crate::decode::clean_line_spec(s))
}

/// Whether the characters of `line` from index `k` on start with `needle`.
fn matches_at(line: &Vec<char>, k: usize, needle: &Vec<char>) -> (r: bool)
    requires
        k + needle@.len() <= line@.len(),
    ensures
        r == (line@.subrange(k as int, k + needle@.len()) == needle@),
{
    let llen = line.len();
    let mut j: usize = 0;
    while j < needle.len()
        invariant
            j <= needle@.len(),
            k + needle@.len() <= line@.len(),
            llen == line@.len(),
            forall|m: int| 0 <= m < j ==> line@[k + m] == needle@[m],
        decreases needle@.len() - j,
    {
        if line[k + j] != needle[j] {
            assert(line@.subrange(k as int, k + needle@.len())[j as int] != needle@[j as int]);
            return false;
        }
        j = j + 1;
    }
    assert(line@.subrange(k as int, k + needle@.len()) =~= needle@);
    true
}

/// Whether `line` holds `needle` as a contiguous run of characters.
fn contains_chars(line: &Vec<char>, needle: &Vec<char>) -> (r: bool)
    ensures
        r == contains_seq(line@, needle@),
{
    if needle.len() == 0 {
        assert(contains_seq(line@, needle@)) by {
            assert(line@.subrange(0, 0 + needle@.len() as int) =~= needle@);
        }
        return true;
    }
    if needle.len() > line.len() {
        return false;
    }
    let last = line.len() - needle.len();
    let mut k: usize = 0;
    while k <= last
        invariant
            k <= last + 1,
            last == line@.len() - needle@.len(),
            needle@.len() >= 1,
            line@.len() <= usize::MAX,
            forall|m: int|
                0 <= m < k ==> #[trigger] line@.subrange(m, m + needle@.len()) != needle@,
        decreases last + 1 - k,
    {
        if matches_at(line, k, needle) {
            return true;
        }
        k = k + 1;
    }
    false
}

/// Whether a raw line holds the given marker text.
pub(crate) fn has_marker_exec(s: &String, needle: &Vec<char>) -> (r: bool)
    ensures
        r == contains_seq(s@, needle@),
{
    let chars = str_to_chars(s.as_str());
    contains_chars(&chars, needle)
}

/// Whether a raw line closes a source array.
pub(crate) fn closes_array_exec(s: &String) -> (r: bool)
    ensures
        r == closes_array(s@),
{
    let chars = str_to_chars(s.as_str());
    let n = chars.len();
    let mut ind: usize = 0;
    while ind < n && (chars[ind] == ' ' || chars[ind] == '\t')
        invariant
            ind <= n,
            n == chars@.len(),
            crate::decode::first_non_blank_at(chars@, 0) == crate::decode::first_non_blank_at(
                chars@,
                ind as int,
            ),
        decreases n - ind,
    {
        ind = ind + 1;
    }
    if ind >= n {
        false
    } else {
        chars[ind] == ']'
    }
}

/// The lines of a document text, each as a fresh string.
pub fn split_into_lines(text: &str) -> (r: Vec<String>)
    ensures
        crate::string_views(r@) == split_lines(text@),
{
    let chars = str_to_chars(text);
    let n = chars.len();
    let mut out: Vec<String> = Vec::new();
    let mut pos: usize = 0;
    while pos < n
        invariant
            pos <= n,
            n == chars@.len(),
            chars@ == text@,
            crate::string_views(out@) + split_lines_at(text@, pos as int) =~= split_lines(text@),
        decreases n - pos,
    {
        // Find the next newline.
        let mut b: usize = pos;
        while b < n && chars[b] != '\n'
            invariant
                pos <= b <= n,
                n == chars@.len(),
                newline_at(chars@, pos as int) == newline_at(chars@, b as int),
            decreases n - b,
        {
            b = b + 1;
        }
        assert(newline_at(text@, pos as int) == b as int);
        // Cut the segment, dropping one trailing carriage return.
        let end = if b > pos && chars[b - 1] == '\r' {
            b - 1
        } else {
            b
        };
        let seg = subvec(&chars, pos, end);
        proof {
            if b < n {
                assert(seg@ =~= strip_cr(text@.subrange(pos as int, b as int)));
            } else {
                assert(seg@ =~= strip_cr(text@.subrange(pos as int, text@.len() as int)));
            }
        }
        let seg_s = chars_to_string(&seg);
        let ghost prev = out@;
        out.push(seg_s);
        assert(crate::string_views(out@) =~= crate::string_views(prev).push(seg_s@));
        if b < n {
            pos = b + 1;
        } else {
            pos = n;
            assert(split_lines_at(text@, pos as int) =~= Seq::<Seq<char>>::empty());
        }
        assert(crate::string_views(out@) + split_lines_at(text@, pos as int) =~= split_lines(
            text@,
        ));
    }
    assert(split_lines_at(text@, pos as int) =~= Seq::<Seq<char>>::empty());
    assert(crate::string_views(out@) =~= split_lines(text@));
    out
}

} // verus!
