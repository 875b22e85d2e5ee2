//! Notebook index: aggregates the records and imports of every code cell of
//! one document into a queryable structure.
//!
//! The index owns the ordered sequence of all function records, duplicates
//! retained in document order, and the deduplicated set of import
//! statements. It is built once from the raw document text and never
//! mutated afterwards; the last record with a given name is the
//! authoritative one for single-record lookups.

use vstd::prelude::*;
use vstd::string::StringExecFns;
use crate::decoded_views;
use crate::distinct_seqs;
use crate::rec_views;
use crate::scan::closes_array;
use crate::scan::closes_array_exec;
use crate::scan::code_cell_marker;
use crate::scan::decoded_cell;
use crate::scan::find_close;
use crate::scan::find_source_open;
use crate::scan::has_code_marker;
use crate::scan::has_marker_exec;
use crate::scan::has_source_marker;
use crate::scan::lemma_find_close_bounds;
use crate::scan::lemma_find_source_open_bounds;
use crate::scan::source_open_marker;
use crate::scan::split_into_lines;
use crate::scan::split_lines;
use crate::segment::cell_imports;
use crate::segment::extract_records;
use crate::segment::process_code;
use crate::string_views;
use crate::text::str_to_chars;

verus! {

/// The function records of the whole document, scanning the raw lines from
/// index `i`: each code-cell marker opens a search for its source array,
/// whose decoded lines contribute their records in order; a cell without
/// both markers is skipped, and scanning resumes after each completed cell.
pub open spec fn doc_records(lines: Seq<Seq<char>>, i: int) -> Seq<(Seq<char>, Seq<char>)>
    decreases lines.len() - i,
    when i >= 0
    via doc_records_decreases
{
    if i >= lines.len() {
        Seq::empty()
    } else if has_code_marker(lines[i]) {
        let ini = find_source_open(lines, i);
        if ini >= lines.len() {
            doc_records(lines, i + 1)
        } else {
            let e = find_close(lines, ini);
            if e >= lines.len() {
                doc_records(lines, i + 1)
            } else {
                extract_records(decoded_cell(lines, ini, e), 0) + doc_records(lines, e + 1)
            }
        }
    } else {
        doc_records(lines, i + 1)
    }
}

#[via_fn]
proof fn doc_records_decreases(lines: Seq<Seq<char>>, i: int) {
    if 0 <= i < lines.len() && has_code_marker(lines[i]) {
        lemma_find_source_open_bounds(lines, i);
        let ini = find_source_open(lines, i);
        if ini < lines.len() {
            lemma_find_close_bounds(lines, ini);
        }
    }
}

/// The import statements of the whole document, scanning the raw lines
/// from index `i`: the union of the import sets of every code cell.
pub open spec fn doc_imports(lines: Seq<Seq<char>>, i: int) -> Set<Seq<char>>
    decreases lines.len() - i,
    when i >= 0
    via doc_imports_decreases
{
    if i >= lines.len() {
        Set::empty()
    } else if has_code_marker(lines[i]) {
        let ini = find_source_open(lines, i);
        if ini >= lines.len() {
            doc_imports(lines, i + 1)
        } else {
            let e = find_close(lines, ini);
            if e >= lines.len() {
                doc_imports(lines, i + 1)
            } else {
                cell_imports(decoded_cell(lines, ini, e)) + doc_imports(lines, e + 1)
            }
        }
    } else {
        doc_imports(lines, i + 1)
    }
}

#[via_fn]
proof fn doc_imports_decreases(lines: Seq<Seq<char>>, i: int) {
    if 0 <= i < lines.len() && has_code_marker(lines[i]) {
        lemma_find_source_open_bounds(lines, i);
        let ini = find_source_open(lines, i);
        if ini < lines.len() {
            lemma_find_close_bounds(lines, ini);
        }
    }
}

/// The names of a sequence of records, in order.
pub open spec fn fn_names(recs: Seq<(Seq<char>, Seq<char>)>) -> Seq<Seq<char>> {
    recs.map_values(|p: (Seq<char>, Seq<char>)| p.0)
}

/// The bodies of a sequence of records, in order.
pub open spec fn fn_bodies(recs: Seq<(Seq<char>, Seq<char>)>) -> Seq<Seq<char>> {
    recs.map_values(|p: (Seq<char>, Seq<char>)| p.1)
}

/// The concatenation of a sequence of texts, in order.
pub open spec fn concat_texts(s: Seq<Seq<char>>) -> Seq<char>
    decreases s.len(),
{
    if s.len() == 0 {
        Seq::empty()
    } else {
        concat_texts(s.drop_last()) + s.last()
    }
}

/// The greatest index `< k` of a record named `name`, or -1 if none of the
/// first `k` records has that name.
pub open spec fn last_named_before(
    recs: Seq<(Seq<char>, Seq<char>)>,
    k: int,
    name: Seq<char>,
) -> int
    decreases k,
{
    if k <= 0 || k > recs.len() {
        -1
    } else if recs[k - 1].0 == name {
        k - 1
    } else {
        last_named_before(recs, k - 1, name)
    }
}

/// If the record at `q < k` is named `name` and no later record before `k`
/// is, then `q` is the last record named `name` before `k`.
proof fn lemma_last_named_found(recs: Seq<(Seq<char>, Seq<char>)>, k: int, q: int, name: Seq<char>)
    requires
        0 <= q < k <= recs.len(),
        recs[q].0 == name,
        forall|m: int| q < m < k ==> recs[m].0 != name,
    ensures
        last_named_before(recs, k, name) == q,
    decreases k,
{
    if k - 1 > q {
        lemma_last_named_found(recs, k - 1, q, name);
    }
}

/// The index of one notebook document: every function record of its code
/// cells, in document order with duplicates retained, and the deduplicated
/// set of its import statements.
pub struct JupyterFunctions {
    /// The (name, body) function records, in document order.
    pub functions: Vec<(String, String)>,
    /// The import statements, pairwise distinct.
    pub imports: Vec<String>,
}

/// The index satisfies its internal invariant: no two stored import
/// statements have the same text.
pub open spec fn wf_index(nb: &JupyterFunctions) -> bool {
    distinct_seqs(string_views(nb.imports@))
}

impl JupyterFunctions {
    /// Builds the index of one document given as raw text: scans every code
    /// cell in order, decodes its source lines, and collects the function
    /// records and the import statements of all cells.
    pub fn new(notebook_text: String) -> (r: JupyterFunctions)
        ensures
            rec_views(r.functions@) == doc_records(split_lines(notebook_text@), 0),
            string_views(r.imports@).to_set() == doc_imports(split_lines(notebook_text@), 0),
            wf_index(&r),
    {
        let ghost lines = split_lines(notebook_text@);
        let archive: Vec<String> = split_into_lines(notebook_text.as_str());
        let code_needle = str_to_chars("\"cell_type\": \"code\"");
        assert(code_needle@ == code_cell_marker());
        let n = archive.len();
        let mut functions: Vec<(String, String)> = Vec::new();
        let mut imports: Vec<String> = Vec::new();
        let mut i: usize = 0;
        while i < n
            invariant
                i <= n,
                n == lines.len(),
                string_views(archive@) == lines,
                archive@.len() == n,
                code_needle@ == code_cell_marker(),
                distinct_seqs(string_views(imports@)),
                rec_views(functions@) + doc_records(lines, i as int) =~= doc_records(lines, 0),
                string_views(imports@).to_set() + doc_imports(lines, i as int) =~= doc_imports(
                    lines,
                    0,
                ),
            decreases n - i,
        {
            assert(archive@[i as int]@ == lines[i as int]);
            let mut advanced = false;
            if has_marker_exec(&archive[i], &code_needle) {
                let s = find_source_open_exec(&archive, i);
                if s < n {
                    let e = find_close_exec(&archive, s);
                    if e < n {
                        // One complete cell: hand its raw lines over.
                        let mut slice: Vec<String> = Vec::new();
                        let mut k = s;
                        while k < e + 1
                            invariant
                                s <= k <= e + 1,
                                e < n,
                                n == lines.len(),
                                string_views(archive@) == lines,
                                archive@.len() == n,
                                slice@.len() == k - s,
                                forall|m: int|
                                    0 <= m < k - s ==> slice@[m]@ == lines[s + m],
                            decreases e + 1 - k,
                        {
                            let line_copy = archive[k].clone();
                            slice.push(line_copy);
                            k = k + 1;
                        }
                        assert(string_views(slice@) =~= lines.subrange(s as int, e + 1 as int));
                        assert(decoded_views(slice@) =~= decoded_cell(lines, s as int, e as int));
                        let ghost funcs_prev = functions@;
                        let ghost imports_prev = imports@;
                        process_code(&mut functions, &mut imports, slice);
                        proof {
                            assert(doc_records(lines, i as int) == extract_records(
                                decoded_cell(lines, s as int, e as int),
                                0,
                            ) + doc_records(lines, e + 1 as int));
                            assert(rec_views(functions@) + doc_records(lines, e + 1 as int)
                                =~= rec_views(funcs_prev) + doc_records(lines, i as int));
                            assert(doc_imports(lines, i as int) =~= cell_imports(
                                decoded_cell(lines, s as int, e as int),
                            ) + doc_imports(lines, e + 1 as int));
                            assert(string_views(imports@).to_set() + doc_imports(
                                lines,
                                e + 1 as int,
                            ) =~= string_views(imports_prev).to_set() + doc_imports(
                                lines,
                                i as int,
                            ));
                        }
                        i = e + 1;
                        advanced = true;
                    }
                }
            }
            if !advanced {
                assert(doc_records(lines, i as int) == doc_records(lines, i + 1 as int));
                assert(doc_imports(lines, i as int) == doc_imports(lines, i + 1 as int));
                i = i + 1;
            }
        }
        assert(doc_records(lines, n as int) == Seq::<(Seq<char>, Seq<char>)>::empty());
        assert(doc_imports(lines, n as int) == Set::<Seq<char>>::empty());
        assert(rec_views(functions@) =~= doc_records(lines, 0));
        assert(string_views(imports@).to_set() =~= doc_imports(lines, 0));
        JupyterFunctions { functions, imports }
    }

    /// Whether any function record of the index has the given name.
    pub fn exists_function(&self, name_of_function: String) -> (r: bool)
        ensures
            r == fn_names(rec_views(self.functions@)).contains(name_of_function@),
    {
        let ghost recs = rec_views(self.functions@);
        let mut k: usize = 0;
        while k < self.functions.len()
            invariant
                k <= self.functions@.len(),
                recs == rec_views(self.functions@),
                forall|m: int| 0 <= m < k ==> recs[m].0 != name_of_function@,
            decreases self.functions@.len() - k,
        {
            if self.functions[k].0.eq(&name_of_function) {
                assert(fn_names(recs)[k as int] == name_of_function@);
                return true;
            }
            k = k + 1;
        }
        assert(forall|m: int| 0 <= m < fn_names(recs).len() ==> fn_names(recs)[m]
            != name_of_function@);
        false
    }

    /// The distinct names of the index's function records. Each name appears
    /// once, whatever the number of records that carry it; no particular
    /// order is promised.
    pub fn functions_names(&self) -> (r: Vec<String>)
        ensures
            distinct_seqs(string_views(r@)),
            string_views(r@).to_set() == fn_names(rec_views(self.functions@)).to_set(),
    {
        let ghost names = fn_names(rec_views(self.functions@));
        let mut r: Vec<String> = Vec::new();
        let mut k: usize = 0;
        while k < self.functions.len()
            invariant
                k <= self.functions@.len(),
                names == fn_names(rec_views(self.functions@)),
                distinct_seqs(string_views(r@)),
                string_views(r@).to_set() =~= names.take(k as int).to_set(),
            decreases self.functions@.len() - k,
        {
            let nm = self.functions[k].0.clone();
            assert(nm@ == names[k as int]);
            if !crate::segment::contains_string(&r, &nm) {
                let ghost prev = r@;
                r.push(nm);
                proof {
                    assert(string_views(r@) =~= string_views(prev).push(names[k as int]));
                    crate::segment::lemma_push_to_set(string_views(prev), names[k as int]);
                }
            }
            proof {
                assert(names.take(k as int).push(names[k as int]) =~= names.take(k + 1 as int));
                crate::segment::lemma_push_to_set(names.take(k as int), names[k as int]);
                assert(string_views(r@).to_set() =~= names.take(k + 1 as int).to_set());
            }
            k = k + 1;
        }
        assert(names.take(names.len() as int) =~= names);
        r
    }

    /// The import statements of the index, in their stored order. On a
    /// well-formed index no two returned statements have the same text,
    /// however many cells spelled the same import.
    pub fn necessary_imports(&self) -> (r: Vec<String>)
        ensures
            string_views(r@) == string_views(self.imports@),
            wf_index(self) ==> distinct_seqs(string_views(r@)),
    {
        let mut r: Vec<String> = Vec::new();
        let mut k: usize = 0;
        while k < self.imports.len()
            invariant
                k <= self.imports@.len(),
                r@.len() == k,
                forall|m: int| 0 <= m < k ==> r@[m]@ == self.imports@[m]@,
            decreases self.imports@.len() - k,
        {
            let im = self.imports[k].clone();
            r.push(im);
            k = k + 1;
        }
        assert(string_views(r@) =~= string_views(self.imports@));
        r
    }

    /// The body text of the last function record with the given name, or
    /// None when no record has it.
    pub fn get_function_code(&self, name: String) -> (r: Option<String>)
        ensures
            r is Some <==> fn_names(rec_views(self.functions@)).contains(name@),
            r is Some ==> r->0@ == rec_views(self.functions@)[last_named_before(
                rec_views(self.functions@),
                self.functions@.len() as int,
                name@,
            )].1,
    {
        let ghost recs = rec_views(self.functions@);
        let mut k: usize = self.functions.len();
        while k > 0
            invariant
                k <= self.functions@.len(),
                recs == rec_views(self.functions@),
                forall|m: int| k <= m < recs.len() ==> recs[m].0 != name@,
            decreases k,
        {
            if self.functions[k - 1].0.eq(&name) {
                proof {
                    lemma_last_named_found(recs, recs.len() as int, k - 1 as int, name@);
                    assert(fn_names(recs)[k - 1 as int] == name@);
                }
                return Some(self.functions[k - 1].1.clone());
            }
            k = k - 1;
        }
        assert(forall|m: int| 0 <= m < fn_names(recs).len() ==> fn_names(recs)[m] != name@);
        None
    }

    /// The full source text that brings the given name into effect: every
    /// import statement, followed by the body of every function record in
    /// document order, so that later records with the same name shadow
    /// earlier ones. None when no record has the name.
    pub fn get_full_code(&self, name: String) -> (r: Option<String>)
        ensures
            r is Some <==> fn_names(rec_views(self.functions@)).contains(name@),
            r is Some ==> r->0@ == concat_texts(string_views(self.imports@)) + concat_texts(
                fn_bodies(rec_views(self.functions@)),
            ),
    {
        if !self.exists_function(name) {
            return None;
        }
        let mut code = imports_as_lines(self);
        let ghost bodies = fn_bodies(rec_views(self.functions@));
        let ghost import_text = concat_texts(string_views(self.imports@));
        assert(bodies.take(0) =~= Seq::<Seq<char>>::empty());
        let mut k: usize = 0;
        while k < self.functions.len()
            invariant
                k <= self.functions@.len(),
                bodies == fn_bodies(rec_views(self.functions@)),
                code@ == import_text + concat_texts(bodies.take(k as int)),
            decreases self.functions@.len() - k,
        {
            code.append(self.functions[k].1.as_str());
            k = k + 1;
            proof {
                assert(bodies.take(k as int).drop_last() =~= bodies.take(k - 1 as int));
                assert(code@ =~= import_text + concat_texts(bodies.take(k as int)));
            }
        }
        assert(bodies.take(bodies.len() as int) =~= bodies);
        Some(code)
    }
}

/// The import statements of the index concatenated into one text, each in
/// its stored, newline-terminated form.
pub fn imports_as_lines(notebook: &JupyterFunctions) -> (r: String)
    ensures
        r@ == concat_texts(string_views(notebook.imports@)),
{
    let ghost views = string_views(notebook.imports@);
    let mut r = String::new();
    assert(views.take(0) =~= Seq::<Seq<char>>::empty());
    let mut k: usize = 0;
    while k < notebook.imports.len()
        invariant
            k <= notebook.imports@.len(),
            views == string_views(notebook.imports@),
            r@ == concat_texts(views.take(k as int)),
        decreases notebook.imports@.len() - k,
    {
        r.append(notebook.imports[k].as_str());
        k = k + 1;
        proof {
            assert(views.take(k as int).drop_last() =~= views.take(k - 1 as int));
            assert(r@ =~= concat_texts(views.take(k as int)));
        }
    }
    assert(views.take(views.len() as int) =~= views);
    r
}

/// The least index `>= i` of a raw line that opens a source array.
fn find_source_open_exec(archive: &Vec<String>, i: usize) -> (r: usize)
    requires
        i <= archive@.len(),
    ensures
        i <= r <= archive@.len(),
        r as int == find_source_open(string_views(archive@), i as int),
{
    let needle = str_to_chars("\"source\": [");
    assert(needle@ == source_open_marker());
    let ghost lines = string_views(archive@);
    let n = archive.len();
    let mut k = i;
    while k < n
        invariant
            i <= k <= n,
            n == lines.len(),
            lines == string_views(archive@),
            archive@.len() == n,
            needle@ == source_open_marker(),
            find_source_open(lines, i as int) == find_source_open(lines, k as int),
        decreases n - k,
    {
        assert(archive@[k as int]@ == lines[k as int]);
        if has_marker_exec(&archive[k], &needle) {
            assert(has_source_marker(lines[k as int]));
            return k;
        }
        k = k + 1;
    }
    k
}

/// The least index `>= i` of a raw line that closes a source array.
fn find_close_exec(archive: &Vec<String>, i: usize) -> (r: usize)
    requires
        i <= archive@.len(),
    ensures
        i <= r <= archive@.len(),
        r as int == find_close(string_views(archive@), i as int),
{
    let ghost lines = string_views(archive@);
    let n = archive.len();
    let mut k = i;
    while k < n
        invariant
            i <= k <= n,
            n == lines.len(),
            lines == string_views(archive@),
            archive@.len() == n,
            find_close(lines, i as int) == find_close(lines, k as int),
        decreases n - k,
    {
        assert(archive@[k as int]@ == lines[k as int]);
        if closes_array_exec(&archive[k]) {
            assert(closes_array(lines[k as int]));
            return k;
        }
        k = k + 1;
    }
    k
}

} // verus!
