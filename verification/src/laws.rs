//! Laws of the extraction pipeline: properties that relate the scanner,
//! the segment extractor and the index queries, proved once and for all
//! inputs.

use vstd::prelude::*;
use crate::index::doc_records;
use crate::index::fn_names;
use crate::index::last_named_before;
use crate::scan::decoded_cell;
use crate::scan::find_close;
use crate::scan::find_source_open;
use crate::scan::has_code_marker;
use crate::scan::lemma_find_close_bounds;
use crate::scan::lemma_find_source_open_bounds;
use crate::segment::body_continues;
use crate::segment::body_end;
use crate::segment::body_text;
use crate::segment::cell_imports;
use crate::segment::def_name;
use crate::segment::extract_records;
use crate::segment::is_def_header;
use crate::segment::is_import_line;
use crate::segment::lemma_body_end_bounds;
use crate::segment::lemma_cell_imports_member;

verus! {

/// The def-header names among the decoded lines of one cell, from line `i`
/// on: the name of every line that is a function-definition header at
/// column zero.
pub open spec fn header_names_from(cl: Seq<Seq<char>>, i: int) -> Set<Seq<char>>
    decreases cl.len() - i,
{
    if i < 0 || i >= cl.len() {
        Set::empty()
    } else if is_def_header(cl[i]) {
        header_names_from(cl, i + 1).insert(def_name(cl[i]))
    } else {
        header_names_from(cl, i + 1)
    }
}

/// The def-header names across every code cell of the document, scanning
/// the raw lines from index `i`.
pub open spec fn doc_header_names(lines: Seq<Seq<char>>, i: int) -> Set<Seq<char>>
    decreases lines.len() - i,
    when i >= 0
    via doc_header_names_decreases
{
    if i >= lines.len() {
        Set::empty()
    } else if has_code_marker(lines[i]) {
        let ini = find_source_open(lines, i);
        if ini >= lines.len() {
            doc_header_names(lines, i + 1)
        } else {
            let e = find_close(lines, ini);
            if e >= lines.len() {
                doc_header_names(lines, i + 1)
            } else {
                header_names_from(decoded_cell(lines, ini, e), 0) + doc_header_names(lines, e + 1)
            }
        }
    } else {
        doc_header_names(lines, i + 1)
    }
}

#[via_fn]
proof fn doc_header_names_decreases(lines: Seq<Seq<char>>, i: int) {
    if 0 <= i < lines.len() && has_code_marker(lines[i]) {
        lemma_find_source_open_bounds(lines, i);
        let ini = find_source_open(lines, i);
        if ini < lines.len() {
            lemma_find_close_bounds(lines, ini);
        }
    }
}

/// The members of the concatenation of two text sequences are the members
/// of the one together with the members of the other.
proof fn lemma_concat_to_set(a: Seq<Seq<char>>, b: Seq<Seq<char>>)
    ensures
        (a + b).to_set() =~= a.to_set() + b.to_set(),
{
    assert forall|t: Seq<char>| (a + b).to_set().contains(t) implies (a.to_set()
        + b.to_set()).contains(t) by {
        let i = choose|i: int| 0 <= i < (a + b).len() && (a + b)[i] == t;
        if i < a.len() {
            assert(a[i] == t);
        } else {
            assert(b[i - a.len()] == t);
        }
    }
    assert forall|t: Seq<char>| (a.to_set() + b.to_set()).contains(t) implies (a
        + b).to_set().contains(t) by {
        if a.to_set().contains(t) {
            let i = choose|i: int| 0 <= i < a.len() && a[i] == t;
            assert((a + b)[i] == t);
        } else {
            let i = choose|i: int| 0 <= i < b.len() && b[i] == t;
            assert((a + b)[a.len() + i] == t);
        }
    }
}

/// Every line consumed into a body by `body_end` continues the body.
proof fn lemma_body_end_continues(cl: Seq<Seq<char>>, j: int)
    requires
        0 <= j,
    ensures
        forall|m: int| j <= m < body_end(cl, j) ==> body_continues(cl[m]),
    decreases cl.len() - j,
{
    if j < cl.len() && body_continues(cl[j]) {
        lemma_body_end_continues(cl, j + 1);
    }
}

/// A stretch of lines none of which is a header contributes no header
/// name.
proof fn lemma_header_names_skip(cl: Seq<Seq<char>>, a: int, b: int)
    requires
        0 <= a <= b <= cl.len(),
        forall|m: int| a <= m < b ==> !is_def_header(cl[m]),
    ensures
        header_names_from(cl, a) == header_names_from(cl, b),
    decreases b - a,
{
    if a < b {
        lemma_header_names_skip(cl, a + 1, b);
    }
}

/// A line that continues a body is never a header: it is empty or starts
/// with a space, a tab or a comment marker, while a header starts with the
/// letter `d`.
pub proof fn lemma_body_line_no_header(s: Seq<char>)
    ensures
        body_continues(s) ==> !is_def_header(s),
{
}

/// Law: the records extracted from one cell carry exactly the names of the
/// cell's def-header lines — every header yields a record, and every
/// record comes from a header.
pub proof fn lemma_cell_names_exact(cl: Seq<Seq<char>>, i: int)
    requires
        0 <= i,
    ensures
        fn_names(extract_records(cl, i)).to_set() =~= header_names_from(cl, i),
    decreases cl.len() - i,
{
    if i >= cl.len() {
        assert(fn_names(extract_records(cl, i)).to_set() =~= Set::<Seq<char>>::empty());
    } else if is_def_header(cl[i]) {
        let j = body_end(cl, i + 1);
        lemma_body_end_bounds(cl, i + 1);
        lemma_body_end_continues(cl, i + 1);
        assert(forall|m: int| i + 1 <= m < j ==> !is_def_header(cl[m])) by {
            assert forall|m: int| i + 1 <= m < j implies !is_def_header(cl[m]) by {
                lemma_body_line_no_header(cl[m]);
            }
        }
        lemma_header_names_skip(cl, i + 1, j);
        lemma_cell_names_exact(cl, j);
        let head = seq![(def_name(cl[i]), body_text(cl, i, j))];
        assert(fn_names(head + extract_records(cl, j)) =~= fn_names(head) + fn_names(
            extract_records(cl, j),
        ));
        lemma_concat_to_set(fn_names(head), fn_names(extract_records(cl, j)));
        assert(fn_names(head).to_set() =~= Set::<Seq<char>>::empty().insert(def_name(cl[i]))) by {
            assert(fn_names(head)[0] == def_name(cl[i]));
            assert forall|t: Seq<char>| fn_names(head).to_set().contains(t) implies t == def_name(
                cl[i],
            ) by {
                let m = choose|m: int| 0 <= m < fn_names(head).len() && fn_names(head)[m] == t;
            }
        }
        assert(fn_names(extract_records(cl, i)).to_set() =~= header_names_from(cl, i));
    } else {
        lemma_cell_names_exact(cl, i + 1);
    }
}

/// Law: the function names of the whole document are exactly the names of
/// the def-header lines found at column zero across all its code cells —
/// detection is sound and complete.
pub proof fn lemma_doc_names_exact(lines: Seq<Seq<char>>, i: int)
    requires
        0 <= i,
    ensures
        fn_names(doc_records(lines, i)).to_set() =~= doc_header_names(lines, i),
    decreases lines.len() - i,
{
    if i >= lines.len() {
        assert(fn_names(doc_records(lines, i)).to_set() =~= Set::<Seq<char>>::empty());
    } else if has_code_marker(lines[i]) {
        lemma_find_source_open_bounds(lines, i);
        let ini = find_source_open(lines, i);
        if ini >= lines.len() {
            lemma_doc_names_exact(lines, i + 1);
        } else {
            lemma_find_close_bounds(lines, ini);
            let e = find_close(lines, ini);
            if e >= lines.len() {
                lemma_doc_names_exact(lines, i + 1);
            } else {
                let cl = decoded_cell(lines, ini, e);
                lemma_cell_names_exact(cl, 0);
                lemma_doc_names_exact(lines, e + 1);
                assert(fn_names(extract_records(cl, 0) + doc_records(lines, e + 1)) =~= fn_names(
                    extract_records(cl, 0),
                ) + fn_names(doc_records(lines, e + 1)));
                lemma_concat_to_set(
                    fn_names(extract_records(cl, 0)),
                    fn_names(doc_records(lines, e + 1)),
                );
            }
        }
    } else {
        lemma_doc_names_exact(lines, i + 1);
    }
}

/// Whether a body text has the shape every record body must have: it
/// starts with the token `def` and ends with a newline.
pub open spec fn body_shape(b: Seq<char>) -> bool {
    b.len() >= 4 && b[0] == 'd' && b[1] == 'e' && b[2] == 'f' && b[b.len() - 1] == '\n'
}

/// A non-empty body text ends with a newline.
proof fn lemma_body_text_ends_newline(cl: Seq<Seq<char>>, i: int, j: int)
    requires
        0 <= i < j,
    ensures
        body_text(cl, i, j).len() > 0,
        body_text(cl, i, j)[body_text(cl, i, j).len() - 1] == '\n',
    decreases j - i,
{
    if i + 1 < j {
        lemma_body_text_ends_newline(cl, i + 1, j);
    } else {
        assert(body_text(cl, i + 1, j) =~= Seq::<char>::empty());
    }
}

/// Law: every record body extracted from a cell starts with `def` and ends
/// with a newline.
pub proof fn lemma_cell_bodies_shape(cl: Seq<Seq<char>>, i: int)
    requires
        0 <= i,
    ensures
        forall|k: int|
            0 <= k < extract_records(cl, i).len() ==> #[trigger] body_shape(
                extract_records(cl, i)[k].1,
            ),
    decreases cl.len() - i,
{
    if i >= cl.len() {
        assert(extract_records(cl, i).len() == 0);
    } else if is_def_header(cl[i]) {
        let j = body_end(cl, i + 1);
        lemma_body_end_bounds(cl, i + 1);
        lemma_cell_bodies_shape(cl, j);
        lemma_body_text_ends_newline(cl, i, j);
        let b = body_text(cl, i, j);
        assert(b[0] == cl[i][0] && b[1] == cl[i][1] && b[2] == cl[i][2]) by {
            assert(cl[i].push('\n')[0] == cl[i][0]);
            assert(cl[i].push('\n')[1] == cl[i][1]);
            assert(cl[i].push('\n')[2] == cl[i][2]);
        }
        assert(body_shape(b));
        assert forall|k: int| 0 <= k < extract_records(cl, i).len() implies #[trigger] body_shape(
            extract_records(cl, i)[k].1,
        ) by {
            if k == 0 {
                assert(extract_records(cl, i)[0].1 == b);
            } else {
                assert(extract_records(cl, i)[k] == extract_records(cl, j)[k - 1]);
                assert(body_shape(extract_records(cl, j)[k - 1].1));
            }
        }
    } else {
        lemma_cell_bodies_shape(cl, i + 1);
        assert(extract_records(cl, i) == extract_records(cl, i + 1));
        assert forall|k: int| 0 <= k < extract_records(cl, i).len() implies #[trigger] body_shape(
            extract_records(cl, i)[k].1,
        ) by {
            assert(body_shape(extract_records(cl, i + 1)[k].1));
        }
    }
}

/// Law: every record body of the whole document starts with `def` and ends
/// with a newline; in particular so does the body of the last record with
/// any listed name.
pub proof fn lemma_doc_bodies_shape(lines: Seq<Seq<char>>, i: int)
    requires
        0 <= i,
    ensures
        forall|k: int|
            0 <= k < doc_records(lines, i).len() ==> #[trigger] body_shape(
                doc_records(lines, i)[k].1,
            ),
    decreases lines.len() - i,
{
    if i >= lines.len() {
        assert(doc_records(lines, i).len() == 0);
    } else if has_code_marker(lines[i]) {
        lemma_find_source_open_bounds(lines, i);
        let ini = find_source_open(lines, i);
        if ini >= lines.len() {
            lemma_doc_bodies_shape(lines, i + 1);
            lemma_doc_bodies_step(lines, i);
        } else {
            lemma_find_close_bounds(lines, ini);
            let e = find_close(lines, ini);
            if e >= lines.len() {
                lemma_doc_bodies_shape(lines, i + 1);
                lemma_doc_bodies_step(lines, i);
            } else {
                let cl = decoded_cell(lines, ini, e);
                lemma_cell_bodies_shape(cl, 0);
                lemma_doc_bodies_shape(lines, e + 1);
                assert forall|k: int| 0 <= k < doc_records(lines, i).len() implies #[trigger] body_shape(
                    doc_records(lines, i)[k].1,
                ) by {
                    if k < extract_records(cl, 0).len() {
                        assert(doc_records(lines, i)[k] == extract_records(cl, 0)[k]);
                        assert(body_shape(extract_records(cl, 0)[k].1));
                    } else {
                        assert(doc_records(lines, i)[k] == doc_records(lines, e + 1)[k
                            - extract_records(cl, 0).len()]);
                        assert(body_shape(
                            doc_records(lines, e + 1)[k - extract_records(cl, 0).len()].1,
                        ));
                    }
                }
            }
        }
    } else {
        lemma_doc_bodies_shape(lines, i + 1);
        lemma_doc_bodies_step(lines, i);
    }
}

/// Helper step for `lemma_doc_bodies_shape`: when the scan skips the line
/// at `i`, the shape claim carries over from the rest of the document.
proof fn lemma_doc_bodies_step(lines: Seq<Seq<char>>, i: int)
    requires
        0 <= i < lines.len(),
        doc_records(lines, i) == doc_records(lines, i + 1),
        forall|k: int|
            0 <= k < doc_records(lines, i + 1).len() ==> #[trigger] body_shape(
                doc_records(lines, i + 1)[k].1,
            ),
    ensures
        forall|k: int|
            0 <= k < doc_records(lines, i).len() ==> #[trigger] body_shape(
                doc_records(lines, i)[k].1,
            ),
{
    assert forall|k: int| 0 <= k < doc_records(lines, i).len() implies #[trigger] body_shape(
        doc_records(lines, i)[k].1,
    ) by {
        assert(body_shape(doc_records(lines, i + 1)[k].1));
    }
}

/// When some record carries a name, the last record with that name is a
/// real index of the record sequence and carries the name.
pub proof fn lemma_last_named_range(recs: Seq<(Seq<char>, Seq<char>)>, k: int, name: Seq<char>)
    requires
        0 <= k <= recs.len(),
        exists|m: int| 0 <= m < k && recs[m].0 == name,
    ensures
        0 <= last_named_before(recs, k, name) < k,
        recs[last_named_before(recs, k, name)].0 == name,
    decreases k,
{
    if recs[k - 1].0 != name {
        let m = choose|m: int| 0 <= m < k && recs[m].0 == name;
        assert(0 <= m < k - 1);
        lemma_last_named_range(recs, k - 1, name);
    }
}

/// Law: a line with leading indentation is never an import statement, so
/// an indented import inside a function body never joins the import set.
pub proof fn lemma_indented_line_no_import(s: Seq<char>)
    ensures
        s.len() > 0 && (s[0] == ' ' || s[0] == '\t') ==> !is_import_line(s),
{
}

/// Law: a body spanning the lines `[i, j)` absorbs every line strictly
/// inside the span: the body text splits around any such line, which
/// stands in it newline-terminated and in place.
pub proof fn lemma_body_absorbs_line(cl: Seq<Seq<char>>, i: int, t: int, j: int)
    requires
        0 <= i <= t < j,
    ensures
        body_text(cl, i, j) =~= body_text(cl, i, t) + cl[t].push('\n') + body_text(cl, t + 1, j),
    decreases t - i,
{
    if i < t {
        lemma_body_absorbs_line(cl, i + 1, t, j);
        assert(body_text(cl, i, t) =~= cl[i].push('\n') + body_text(cl, i + 1, t));
    } else {
        assert(body_text(cl, i, i) =~= Seq::<char>::empty());
    }
}

/// Law: every member of a cell's import set is the newline-terminated text
/// of a decoded line that is an import statement at column zero.
pub proof fn lemma_import_set_members(cl: Seq<Seq<char>>, t: Seq<char>)
    requires
        cell_imports(cl).contains(t),
    ensures
        exists|i: int| 0 <= i < cl.len() && is_import_line(cl[i]) && t == cl[i].push('\n'),
{
    lemma_cell_imports_member(cl, cl.len() as int, t);
}

/// Whether a text has the shape every collected import statement must
/// have: it starts, at column zero, with the first letter of `import` or
/// `from`, and it ends with a newline.
pub open spec fn import_shape(t: Seq<char>) -> bool {
    t.len() > 1 && (t[0] == 'i' || t[0] == 'f') && t[t.len() - 1] == '\n'
}

/// Law: every member of the whole document's import set is a column-zero
/// import statement with one trailing newline — so no indented text, which
/// starts with a space or a tab, is ever present in it.
pub proof fn lemma_doc_imports_shape(lines: Seq<Seq<char>>, i: int, t: Seq<char>)
    requires
        0 <= i,
        crate::index::doc_imports(lines, i).contains(t),
    ensures
        import_shape(t),
    decreases lines.len() - i,
{
    if i >= lines.len() {
    } else if has_code_marker(lines[i]) {
        lemma_find_source_open_bounds(lines, i);
        let ini = find_source_open(lines, i);
        if ini >= lines.len() {
            lemma_doc_imports_shape(lines, i + 1, t);
        } else {
            lemma_find_close_bounds(lines, ini);
            let e = find_close(lines, ini);
            if e >= lines.len() {
                lemma_doc_imports_shape(lines, i + 1, t);
            } else {
                let cl = decoded_cell(lines, ini, e);
                if cell_imports(cl).contains(t) {
                    lemma_cell_imports_member(cl, cl.len() as int, t);
                    let j = choose|j: int|
                        0 <= j < cl.len() && is_import_line(cl[j]) && t == cl[j].push('\n');
                    assert(t[0] == cl[j][0]);
                    assert(t[t.len() - 1] == '\n');
                } else {
                    lemma_doc_imports_shape(lines, e + 1, t);
                }
            }
        }
    } else {
        lemma_doc_imports_shape(lines, i + 1, t);
    }
}

/// Law: a comment line is never a function-definition header, so a line
/// such as a markdown heading that starts with `#` never yields a record.
pub proof fn lemma_comment_line_no_header(s: Seq<char>)
    ensures
        s.len() > 0 && s[0] == '#' ==> !is_def_header(s),
{
}

/// Law: a document none of whose lines marks a code cell — one with no
/// code cells at all — yields no records and no imports, and its index is
/// still well formed.
pub proof fn lemma_no_code_cells(lines: Seq<Seq<char>>, i: int)
    requires
        0 <= i,
        forall|m: int| 0 <= m < lines.len() ==> !has_code_marker(lines[m]),
    ensures
        doc_records(lines, i) == Seq::<(Seq<char>, Seq<char>)>::empty(),
        crate::index::doc_imports(lines, i) == Set::<Seq<char>>::empty(),
    decreases lines.len() - i,
{
    if i < lines.len() {
        lemma_no_code_cells(lines, i + 1);
    }
}

} // verus!
