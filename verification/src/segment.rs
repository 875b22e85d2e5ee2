//! Segment extractor: splits the decoded lines of one code cell into a
//! deduplicated set of import statements and an ordered list of named
//! function records.
//!
//! An import statement is a decoded line that begins at column zero with the
//! token `import` or `from` followed by whitespace. A function record opens
//! with a decoded line that begins at column zero with the token `def`,
//! whitespace, an identifier and an opening parenthesis; its body then
//! absorbs every following line that is blank or starts with indentation or
//! a comment marker, each line newline-terminated.

use vstd::prelude::*;

verus! {

/// Whether `c` is a whitespace character for the purpose of token
/// separation in decoded source lines.
pub open spec fn is_space_char(c: char) -> bool {
    c == ' ' || c == '\t' || c == '\n' || c == '\r' || c == '\u{000B}' || c == '\u{000C}'
}

/// Whether `c` may stand in an identifier: a letter, a digit or an
/// underscore.
pub open spec fn is_word_char(c: char) -> bool {
    ('a' as u32 <= c as u32 && c as u32 <= 'z' as u32) || ('A' as u32 <= c as u32 && c as u32
        <= 'Z' as u32) || ('0' as u32 <= c as u32 && c as u32 <= '9' as u32) || c == '_'
}

/// Whether a decoded line is an import statement: it begins, at column
/// zero, with `import` or `from` followed by whitespace.
pub open spec fn is_import_line(s: Seq<char>) -> bool {
    (s.len() > 6 && s[0] == 'i' && s[1] == 'm' && s[2] == 'p' && s[3] == 'o' && s[4] == 'r' && s[5]
        == 't' && is_space_char(s[6])) || (s.len() > 4 && s[0] == 'f' && s[1] == 'r' && s[2] == 'o'
        && s[3] == 'm' && is_space_char(s[4]))
}

/// The least index `>= i` of a character of `s` that is not whitespace, or
/// `s.len()` if every character from `i` on is whitespace.
pub open spec fn ws_end(s: Seq<char>, i: int) -> int
    decreases s.len() - i,
{
    if i < 0 || i >= s.len() {
        s.len() as int
    } else if is_space_char(s[i]) {
        ws_end(s, i + 1)
    } else {
        i
    }
}

/// The least index `>= i` of a character of `s` that is not an identifier
/// character, or `s.len()` if every character from `i` on is one.
pub open spec fn word_end(s: Seq<char>, i: int) -> int
    decreases s.len() - i,
{
    if i < 0 || i >= s.len() {
        s.len() as int
    } else if is_word_char(s[i]) {
        word_end(s, i + 1)
    } else {
        i
    }
}

/// Whether a decoded line is a function-definition header: it begins, at
/// column zero, with the token `def`, whitespace, an identifier of at least
/// one character, optional whitespace, then an opening parenthesis.
pub open spec fn is_def_header(s: Seq<char>) -> bool {
    s.len() > 3 && s[0] == 'd' && s[1] == 'e' && s[2] == 'f' && is_space_char(s[3]) && {
        let a = ws_end(s, 3);
        let ne = word_end(s, a);
        let b = ws_end(s, ne);
        ne > a && b < s.len() && s[b] == '('
    }
}

/// The identifier captured from a function-definition header.
pub open spec fn def_name(s: Seq<char>) -> Seq<char> {
    s.subrange(ws_end(s, 3), word_end(s, ws_end(s, 3)))
}

/// Whether a decoded line is absorbed into the body of an open function
/// record: it is empty, or starts with a space, a tab or a comment marker.
pub open spec fn body_continues(s: Seq<char>) -> bool {
    s.len() == 0 || s[0] == ' ' || s[0] == '\t' || s[0] == '#'
}

/// The least index `>= j` of a decoded line that does not continue a
/// function body, or the number of lines if every line from `j` on does.
pub open spec fn body_end(cl: Seq<Seq<char>>, j: int) -> int
    decreases cl.len() - j,
{
    if j < 0 || j >= cl.len() {
        cl.len() as int
    } else if body_continues(cl[j]) {
        body_end(cl, j + 1)
    } else {
        j
    }
}

/// The bounds of `body_end`: it never precedes `j` nor runs past the lines.
pub proof fn lemma_body_end_bounds(cl: Seq<Seq<char>>, j: int)
    requires
        0 <= j <= cl.len(),
    ensures
        j <= body_end(cl, j) <= cl.len(),
    decreases cl.len() - j,
{
    if j < cl.len() && body_continues(cl[j]) {
        lemma_body_end_bounds(cl, j + 1);
    }
}

/// The text of a function body spanning the decoded lines `[i, j)`: each
/// line followed by one newline, concatenated in order.
pub open spec fn body_text(cl: Seq<Seq<char>>, i: int, j: int) -> Seq<char>
    decreases j - i,
{
    if i < 0 || i >= j {
        Seq::empty()
    } else {
        cl[i].push('\n') + body_text(cl, i + 1, j)
    }
}

/// Extending a body by one more line appends that line, newline-terminated,
/// to its text.
pub proof fn lemma_body_text_snoc(cl: Seq<Seq<char>>, i: int, j: int)
    requires
        0 <= i <= j,
    ensures
        body_text(cl, i, j + 1) =~= body_text(cl, i, j) + cl[j].push('\n'),
    decreases j - i,
{
    if i < j {
        lemma_body_text_snoc(cl, i + 1, j);
        assert(body_text(cl, i, j + 1) =~= cl[i].push('\n') + body_text(cl, i + 1, j + 1));
    } else {
        assert(body_text(cl, i, j) =~= Seq::<char>::empty());
        assert(body_text(cl, i + 1, j + 1) =~= Seq::<char>::empty());
        assert(body_text(cl, i, j + 1) =~= cl[i].push('\n') + body_text(cl, i + 1, j + 1));
    }
}

/// The ordered function records of one cell's decoded lines, scanning from
/// line `i`: every header line at column zero opens a record whose body
/// runs until the first line that does not continue it; that line is then
/// examined as a possible new header.
pub open spec fn extract_records(cl: Seq<Seq<char>>, i: int) -> Seq<(Seq<char>, Seq<char>)>
    decreases cl.len() - i,
    when i >= 0
    via extract_records_decreases
{
    if i >= cl.len() {
        Seq::empty()
    } else if is_def_header(cl[i]) {
        let j = body_end(cl, i + 1);
        seq![(def_name(cl[i]), body_text(cl, i, j))] + extract_records(cl, j)
    } else {
        extract_records(cl, i + 1)
    }
}

#[via_fn]
proof fn extract_records_decreases(cl: Seq<Seq<char>>, i: int) {
    if 0 <= i < cl.len() && is_def_header(cl[i]) {
        lemma_body_end_bounds(cl, i + 1);
    }
}

/// The import statements found among the first `k` decoded lines of one
/// cell: each matching line with one trailing newline, as a set.
pub open spec fn cell_imports_upto(cl: Seq<Seq<char>>, k: int) -> Set<Seq<char>>
    decreases k,
{
    if k <= 0 || k > cl.len() {
        Set::empty()
    } else if is_import_line(cl[k - 1]) {
        cell_imports_upto(cl, k - 1).insert(cl[k - 1].push('\n'))
    } else {
        cell_imports_upto(cl, k - 1)
    }
}

/// The import statements found among the decoded lines of one cell.
pub open spec fn cell_imports(cl: Seq<Seq<char>>) -> Set<Seq<char>> {
    cell_imports_upto(cl, cl.len() as int)
}

/// A text belongs to the import set of a cell exactly when some decoded
/// line of the cell is an import statement and the text is that line with
/// one trailing newline.
pub proof fn lemma_cell_imports_member(cl: Seq<Seq<char>>, k: int, t: Seq<char>)
    requires
        k <= cl.len(),
    ensures
        cell_imports_upto(cl, k).contains(t) <==> exists|i: int|
            0 <= i < k && is_import_line(cl[i]) && t == cl[i].push('\n'),
    decreases k,
{
    if k > 0 {
        lemma_cell_imports_member(cl, k - 1, t);
        if exists|i: int| 0 <= i < k && is_import_line(cl[i]) && t == cl[i].push('\n') {
            let i = choose|i: int| 0 <= i < k && is_import_line(cl[i]) && t == cl[i].push('\n');
            if i < k - 1 {
                assert(cell_imports_upto(cl, k - 1).contains(t));
            }
        }
    }
}

/// Whether `c` is a whitespace character.
pub(crate) fn is_space_exec(c: char) -> (r: bool)
    ensures
        r == is_space_char(c),
{
    c == ' ' || c == '\t' || c == '\n' || c == '\r' || c == '\u{000B}' || c == '\u{000C}'
}

/// Whether `c` is a letter, a digit or an underscore.
pub(crate) fn is_word_exec(c: char) -> (r: bool)
    ensures
        r == is_word_char(c),
{
    let u = c as u32;
    ('a' as u32 <= u && u <= 'z' as u32) || ('A' as u32 <= u && u <= 'Z' as u32) || ('0' as u32 <= u
        && u <= '9' as u32) || c == '_'
}

/// Whether a decoded line is an import statement.
pub(crate) fn is_import_exec(line: &Vec<char>) -> (r: bool)
    ensures
        r == is_import_line(line@),
{
    if line.len() > 6 && line[0] == 'i' && line[1] == 'm' && line[2] == 'p' && line[3] == 'o'
        && line[4] == 'r' && line[5] == 't' && is_space_exec(line[6]) {
        true
    } else {
        line.len() > 4 && line[0] == 'f' && line[1] == 'r' && line[2] == 'o' && line[3] == 'm'
            && is_space_exec(line[4])
    }
}

/// The least index `>= i` of a character of `line` that is not whitespace.
fn ws_end_exec(line: &Vec<char>, i: usize) -> (r: usize)
    requires
        i <= line@.len(),
    ensures
        i <= r <= line@.len(),
        r == ws_end(line@, i as int),
{
    let mut j = i;
    while j < line.len() && is_space_exec(line[j])
        invariant
            i <= j <= line@.len(),
            ws_end(line@, i as int) == ws_end(line@, j as int),
        decreases line@.len() - j,
    {
        j = j + 1;
    }
    j
}

/// The least index `>= i` of a character of `line` that is not an
/// identifier character.
fn word_end_exec(line: &Vec<char>, i: usize) -> (r: usize)
    requires
        i <= line@.len(),
    ensures
        i <= r <= line@.len(),
        r == word_end(line@, i as int),
{
    let mut j = i;
    while j < line.len() && is_word_exec(line[j])
        invariant
            i <= j <= line@.len(),
            word_end(line@, i as int) == word_end(line@, j as int),
        decreases line@.len() - j,
    {
        j = j + 1;
    }
    j
}

/// Matches a decoded line against the function-header form and returns the
/// bounds of the captured identifier when it matches.
pub(crate) fn match_def_header(line: &Vec<char>) -> (r: Option<(usize, usize)>)
    ensures
        r is Some <==> is_def_header(line@),
        r is Some ==> (r->0).0 <= (r->0).1 <= line@.len(),
        r is Some ==> line@.subrange((r->0).0 as int, (r->0).1 as int) == def_name(line@),
{
    if line.len() > 3 && line[0] == 'd' && line[1] == 'e' && line[2] == 'f' && is_space_exec(
        line[3],
    ) {
        let a = ws_end_exec(line, 3);
        let ne = word_end_exec(line, a);
        let b = ws_end_exec(line, ne);
        if ne > a && b < line.len() && line[b] == '(' {
            Some((a, ne))
        } else {
            None
        }
    } else {
        None
    }
}

/// Whether a decoded line continues the body of an open function record.
pub(crate) fn body_continues_exec(line: &Vec<char>) -> (r: bool)
    ensures
        r == body_continues(line@),
{
    line.len() == 0 || line[0] == ' ' || line[0] == '\t' || line[0] == '#'
}

/// Appending one more text to a sequence of texts inserts it into the set
/// of the sequence's members.
pub(crate) proof fn lemma_push_to_set(s: Seq<Seq<char>>, x: Seq<char>)
    ensures
        s.push(x).to_set() =~= s.to_set().insert(x),
{
    assert forall|t: Seq<char>| s.push(x).to_set().contains(t) implies s.to_set().insert(
        x,
    ).contains(t) by {
        let i = choose|i: int| 0 <= i < s.push(x).len() && s.push(x)[i] == t;
        if i < s.len() {
            assert(s[i] == t);
        }
    }
    assert forall|t: Seq<char>| s.to_set().insert(x).contains(t) implies s.push(
        x,
    ).to_set().contains(t) by {
        if s.to_set().contains(t) {
            let i = choose|i: int| 0 <= i < s.len() && s[i] == t;
            assert(s.push(x)[i] == t);
        } else {
            assert(s.push(x)[s.len() as int] == t);
        }
    }
}

/// Whether some string of `v` has exactly the text of `s`.
pub(crate) fn contains_string(v: &Vec<String>, s: &String) -> (r: bool)
    ensures
        r == crate::string_views(v@).to_set().contains(s@),
{
    let mut k: usize = 0;
    while k < v.len()
        invariant
            k <= v@.len(),
            forall|m: int| 0 <= m < k ==> v@[m]@ != s@,
        decreases v@.len() - k,
    {
        if v[k].eq(s) {
            assert(crate::string_views(v@)[k as int] == s@);
            return true;
        }
        k = k + 1;
    }
    assert(forall|m: int| 0 <= m < crate::string_views(v@).len() ==> crate::string_views(v@)[m]
        != s@);
    false
}

/// Extracts the import statements and the function records of one code
/// cell. Every raw line is decoded; each decoded import line, newline-
/// terminated, joins the shared import set unless its exact text is already
/// there; each function record is appended to the shared ordered list.
pub fn process_code(
    functions: &mut Vec<(String, String)>,
    imports: &mut Vec<String>,
    raw_lines: Vec<String>,
)
    requires
        crate::distinct_seqs(crate::string_views(old(imports)@)),
    ensures
        crate::rec_views(final(functions)@) == crate::rec_views(old(functions)@) + extract_records(
            crate::decoded_views(raw_lines@),
            0,
        ),
        crate::distinct_seqs(crate::string_views(final(imports)@)),
        crate::string_views(final(imports)@).to_set() == crate::string_views(
            old(imports)@,
        ).to_set() + cell_imports(crate::decoded_views(raw_lines@)),
        old(imports)@.len() <= final(imports)@.len(),
        forall|k: int| 0 <= k < old(imports)@.len() ==> final(imports)@[k] == old(imports)@[k],
{
    let ghost cl = crate::decoded_views(raw_lines@);
    // Decode every raw line of the cell.
    let mut code_lines: Vec<Vec<char>> = Vec::new();
    let mut t: usize = 0;
    while t < raw_lines.len()
        invariant
            t <= raw_lines@.len(),
            cl == crate::decoded_views(raw_lines@),
            code_lines@.len() == t,
            forall|m: int| 0 <= m < t ==> code_lines@[m]@ == cl[m],
        decreases raw_lines@.len() - t,
    {
        let chars = crate::text::str_to_chars(raw_lines[t].as_str());
        let dec = crate::decode::clean_line_chars(&chars);
        code_lines.push(dec);
        t = t + 1;
    }
    assert(crate::vec_views(code_lines@) =~= cl);
    let m = code_lines.len();
    // Collect the import statements.
    let mut t: usize = 0;
    while t < m
        invariant
            t <= m,
            m == cl.len(),
            crate::vec_views(code_lines@) == cl,
            code_lines@.len() == m,
            crate::distinct_seqs(crate::string_views(imports@)),
            crate::string_views(imports@).to_set() =~= crate::string_views(
                old(imports)@,
            ).to_set() + cell_imports_upto(cl, t as int),
            old(imports)@.len() <= imports@.len(),
            forall|k: int| 0 <= k < old(imports)@.len() ==> imports@[k] == old(imports)@[k],
        decreases m - t,
    {
        assert(code_lines@[t as int]@ == cl[t as int]);
        if is_import_exec(&code_lines[t]) {
            let mut st = crate::text::chars_to_string(&code_lines[t]);
            st.append("\n");
            proof {
                reveal_strlit("\n");
                assert(st@ =~= cl[t as int].push('\n'));
            }
            if !contains_string(imports, &st) {
                let ghost prev = imports@;
                imports.push(st);
                proof {
                    assert(crate::string_views(imports@) =~= crate::string_views(prev).push(st@));
                    lemma_push_to_set(crate::string_views(prev), st@);
                    assert(crate::string_views(imports@).to_set() =~= crate::string_views(
                        prev,
                    ).to_set().insert(st@));
                }
            }
        }
        t = t + 1;
        assert(cell_imports_upto(cl, t as int) == if is_import_line(cl[t - 1]) {
            cell_imports_upto(cl, t - 1).insert(cl[t - 1].push('\n'))
        } else {
            cell_imports_upto(cl, t - 1)
        });
        assert(crate::string_views(imports@).to_set() =~= crate::string_views(
            old(imports)@,
        ).to_set() + cell_imports_upto(cl, t as int));
    }
    // Collect the function records.
    let ghost funcs0 = functions@;
    let mut i: usize = 0;
    while i < m
        invariant
            i <= m,
            m == cl.len(),
            crate::vec_views(code_lines@) == cl,
            code_lines@.len() == m,
            crate::rec_views(functions@) + extract_records(cl, i as int) =~= crate::rec_views(
                funcs0,
            ) + extract_records(cl, 0),
        decreases m - i,
    {
        assert(code_lines@[i as int]@ == cl[i as int]);
        match match_def_header(&code_lines[i]) {
            Some((a, ne)) => {
                let name_chars = crate::text::subvec(&code_lines[i], a, ne);
                let name = crate::text::chars_to_string(&name_chars);
                assert(name@ == def_name(cl[i as int]));
                let mut body: Vec<char> = Vec::new();
                crate::text::append_vec(&mut body, &code_lines[i]);
                body.push('\n');
                assert(body@ =~= body_text(cl, i as int, i + 1 as int)) by {
                    assert(body_text(cl, i + 1 as int, i + 1 as int) == Seq::<char>::empty());
                }
                let mut j = i + 1;
                while j < m && body_continues_exec(&code_lines[j])
                    invariant
                        i + 1 <= j <= m,
                        i < m,
                        m == cl.len(),
                        crate::vec_views(code_lines@) == cl,
                        code_lines@.len() == m,
                        body@ == body_text(cl, i as int, j as int),
                        body_end(cl, i + 1 as int) == body_end(cl, j as int),
                    decreases m - j,
                {
                    assert(code_lines@[j as int]@ == cl[j as int]);
                    crate::text::append_vec(&mut body, &code_lines[j]);
                    body.push('\n');
                    proof {
                        lemma_body_text_snoc(cl, i as int, j as int);
                        assert(body@ =~= body_text(cl, i as int, j + 1 as int));
                    }
                    j = j + 1;
                }
                assert(body_end(cl, i + 1 as int) == j as int);
                let body_s = crate::text::chars_to_string(&body);
                let ghost prev = functions@;
                functions.push((name, body_s));
                proof {
                    assert(crate::rec_views(functions@) =~= crate::rec_views(prev).push(
                        (def_name(cl[i as int]), body_text(cl, i as int, j as int)),
                    ));
                    assert(extract_records(cl, i as int) == seq![
                        (def_name(cl[i as int]), body_text(cl, i as int, j as int)),
                    ] + extract_records(cl, j as int));
                    assert(crate::rec_views(functions@) + extract_records(cl, j as int)
                        =~= crate::rec_views(prev) + extract_records(cl, i as int));
                }
                i = j;
            },
            None => {
                assert(extract_records(cl, i as int) == extract_records(cl, i + 1 as int));
                i = i + 1;
            },
        }
    }
    assert(extract_records(cl, m as int) == Seq::<(Seq<char>, Seq<char>)>::empty());
    assert(crate::rec_views(functions@) =~= crate::rec_views(funcs0) + extract_records(cl, 0));
}

} // verus!
