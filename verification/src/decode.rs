//! Line decoder: recovers the literal text of one string-escaped raw line.
//!
//! A raw line carries one source line of a code cell as a quoted, escaped
//! string. Decoding strips the surrounding quotes and resolves the escape
//! sequences; a line that does not carry a quoted string decodes to the
//! empty string.

use vstd::prelude::*;
use crate::text::char_from_u32;
use crate::text::chars_to_string;
use crate::text::str_to_chars;
use crate::is_blank;

verus! {

/// The character a recognized two-character escape `\c` decodes to, if any.
pub open spec fn simple_escape(c: char) -> Option<char> {
    if c == '"' {
        Some('"')
    } else if c == '\\' {
        Some('\\')
    } else if c == 'n' {
        Some('\n')
    } else if c == 't' {
        Some('\t')
    } else if c == 'r' {
        Some('\r')
    } else if c == 'b' {
        Some('\u{0008}')
    } else if c == 'f' {
        Some('\u{000C}')
    } else if c == '/' {
        Some('/')
    } else if c == '\'' {
        Some('\'')
    } else {
        None
    }
}

/// Whether `c` is a hexadecimal digit.
pub open spec fn is_hex_digit(c: char) -> bool {
    ('0' as u32 <= c as u32 && c as u32 <= '9' as u32) || ('a' as u32 <= c as u32 && c as u32
        <= 'f' as u32) || ('A' as u32 <= c as u32 && c as u32 <= 'F' as u32)
}

/// The value of one hexadecimal digit.
pub open spec fn hex_val(c: char) -> int {
    if '0' as u32 <= c as u32 && c as u32 <= '9' as u32 {
        c as u32 - '0' as u32
    } else if 'a' as u32 <= c as u32 && c as u32 <= 'f' as u32 {
        c as u32 - 'a' as u32 + 10
    } else if 'A' as u32 <= c as u32 && c as u32 <= 'F' as u32 {
        c as u32 - 'A' as u32 + 10
    } else {
        0
    }
}

/// Whether the four characters of `h` are all hexadecimal digits.
pub open spec fn is_hex4(h: Seq<char>) -> bool {
    h.len() == 4 && is_hex_digit(h[0]) && is_hex_digit(h[1]) && is_hex_digit(h[2]) && is_hex_digit(
        h[3],
    )
}

/// The value of four hexadecimal digits.
pub open spec fn hex4_val(h: Seq<char>) -> int {
    4096 * hex_val(h[0]) + 256 * hex_val(h[1]) + 16 * hex_val(h[2]) + hex_val(h[3])
}

/// Whether a value of at most 0xFFFF is a Unicode scalar value, that is,
/// not a surrogate.
pub open spec fn is_scalar16(v: int) -> bool {
    !(0xD800 <= v < 0xE000)
}

/// The decoding of the escaped content between the quotes of a raw line,
/// processed left to right:
/// - a recognized two-character escape becomes its character;
/// - `\uXXXX` with four hexadecimal digits becomes the scalar with that
///   value, unless the value is a surrogate or the digits are short or not
///   hexadecimal, in which case the literal `\u` is kept and scanning
///   resumes right after it;
/// - any other escaped character, and a trailing lone backslash, are kept
///   literally;
/// - every other character stands for itself.
pub open spec fn decode_escapes(s: Seq<char>) -> Seq<char>
    decreases s.len(),
{
    if s.len() == 0 {
        Seq::empty()
    } else if s[0] != '\\' {
        seq![s[0]] + decode_escapes(s.skip(1))
    } else if s.len() == 1 {
        seq!['\\']
    } else if simple_escape(s[1]) is Some {
        seq![simple_escape(s[1])->0] + decode_escapes(s.skip(2))
    } else if s[1] == 'u' {
        if s.len() >= 6 && is_hex4(s.subrange(2, 6)) && is_scalar16(hex4_val(s.subrange(2, 6))) {
            seq![hex4_val(s.subrange(2, 6)) as u32 as char] + decode_escapes(s.skip(6))
        } else {
            seq!['\\', 'u'] + decode_escapes(s.skip(2))
        }
    } else {
        seq!['\\', s[1]] + decode_escapes(s.skip(2))
    }
}

/// The least index `>= i` of a character of `s` that is not a space or a
/// tab, or `s.len()` if every character from `i` on is blank.
pub open spec fn first_non_blank_at(s: Seq<char>, i: int) -> int
    decreases s.len() - i,
{
    if i < 0 || i >= s.len() {
        s.len() as int
    } else if is_blank(s[i]) {
        first_non_blank_at(s, i + 1)
    } else {
        i
    }
}

/// The greatest index `< k` of a quote character of `s`, or -1 if there is
/// none.
pub open spec fn last_quote_before(s: Seq<char>, k: int) -> int
    decreases k,
{
    if k <= 0 || k > s.len() {
        -1
    } else if s[k - 1] == '"' {
        k - 1
    } else {
        last_quote_before(s, k - 1)
    }
}

/// `s` without its final character when that character is a newline.
pub open spec fn strip_trailing_newline(s: Seq<char>) -> Seq<char> {
    if s.len() > 0 && s[s.len() - 1] == '\n' {
        s.take(s.len() - 1)
    } else {
        s
    }
}

/// The literal content of one raw line: the decoded text between the first
/// meaningful quote and the last quote of the line, with one implicit
/// trailing newline dropped; the empty sequence when the line does not
/// begin (after blanks) with a quote or holds no content between quotes.
pub open spec fn clean_line_spec(line: Seq<char>) -> Seq<char> {
    let ind = first_non_blank_at(line, 0);
    if ind >= line.len() {
        Seq::empty()
    } else if line[ind] != '"' {
        Seq::empty()
    } else {
        let q = last_quote_before(line, line.len() as int);
        if ind + 1 >= q {
            Seq::empty()
        } else {
            strip_trailing_newline(decode_escapes(line.subrange(ind + 1, q)))
        }
    }
}

/// Whether `c` is a hexadecimal digit.
fn is_hex_digit_exec(c: char) -> (r: bool)
    ensures
        r == is_hex_digit(c),
{
    let u = c as u32;
    ('0' as u32 <= u && u <= '9' as u32) || ('a' as u32 <= u && u <= 'f' as u32) || ('A' as u32 <= u
        && u <= 'F' as u32)
}

/// The value of one hexadecimal digit.
fn hex_val_exec(c: char) -> (r: u32)
    requires
        is_hex_digit(c),
    ensures
        r == hex_val(c),
{
    let u = c as u32;
    if '0' as u32 <= u && u <= '9' as u32 {
        u - '0' as u32
    } else if 'a' as u32 <= u && u <= 'f' as u32 {
        u - 'a' as u32 + 10
    } else {
        u - 'A' as u32 + 10
    }
}

/// If some quote stands at index `q0 < k` and none at the indices between
/// `q0` and `k`, then `q0` is the last quote before `k`.
proof fn lemma_last_quote_found(s: Seq<char>, k: int, q0: int)
    requires
        0 <= q0 < k <= s.len(),
        s[q0] == '"',
        forall|m: int| q0 < m < k ==> s[m] != '"',
    ensures
        last_quote_before(s, k) == q0,
    decreases k,
{
    if k - 1 > q0 {
        lemma_last_quote_found(s, k - 1, q0);
    }
}

/// The index of the last quote character of `line`, which must hold one.
fn find_last_quote(line: &Vec<char>, ind: usize) -> (q: usize)
    requires
        ind < line@.len(),
        line@[ind as int] == '"',
    ensures
        ind <= q < line@.len(),
        line@[q as int] == '"',
        last_quote_before(line@, line@.len() as int) == q,
{
    let mut k: usize = line.len();
    while line[k - 1] != '"'
        invariant
            ind < k <= line@.len(),
            line@[ind as int] == '"',
            forall|m: int| k <= m < line@.len() ==> line@[m] != '"',
        decreases k,
    {
        k = k - 1;
    }
    proof {
        lemma_last_quote_found(line@, line@.len() as int, k - 1);
    }
    k - 1
}

/// Decodes the escaped characters of `line` between the indices `from`
/// (inclusive) and `to` (exclusive).
#[verifier::rlimit(50)]
fn decode_range(line: &Vec<char>, from: usize, to: usize) -> (out: Vec<char>)
    requires
        from <= to <= line@.len(),
    ensures
        out@ == decode_escapes(line@.subrange(from as int, to as int)),
{
    let ghost whole = line@.subrange(from as int, to as int);
    let mut out: Vec<char> = Vec::new();
    let mut p: usize = from;
    while p < to
        invariant
            from <= p <= to <= line@.len(),
            decode_escapes(whole) == out@ + decode_escapes(
                line@.subrange(p as int, to as int),
            ),
            whole == line@.subrange(from as int, to as int),
        decreases to - p,
    {
        let ghost rest = line@.subrange(p as int, to as int);
        let c = line[p];
        assert(rest[0] == c);
        if c != '\\' {
            out.push(c);
            p = p + 1;
            proof {
                assert(rest.skip(1) =~= line@.subrange(p as int, to as int));
                assert(out@ + decode_escapes(line@.subrange(p as int, to as int))
                    =~= (out@.drop_last() + decode_escapes(rest)));
            }
        } else if p + 1 >= to {
            out.push('\\');
            p = p + 1;
            proof {
                assert(rest.len() == 1);
                assert(out@ + decode_escapes(line@.subrange(p as int, to as int))
                    =~= (out@.drop_last() + decode_escapes(rest)));
            }
        } else {
            let e = line[p + 1];
            assert(rest[1] == e);
            let simple: Option<char> = match e {
                '"' => Some('"'),
                '\\' => Some('\\'),
                'n' => Some('\n'),
                't' => Some('\t'),
                'r' => Some('\r'),
                'b' => Some('\u{0008}'),
                'f' => Some('\u{000C}'),
                '/' => Some('/'),
                '\'' => Some('\''),
                _ => None,
            };
            assert(simple == simple_escape(e));
            match simple {
                Some(d) => {
                    out.push(d);
                    p = p + 2;
                    proof {
                        assert(rest.skip(2) =~= line@.subrange(p as int, to as int));
                        assert(out@ + decode_escapes(line@.subrange(p as int, to as int))
                            =~= (out@.drop_last() + decode_escapes(rest)));
                    }
                },
                None => {
                    if e == 'u' {
                        let mut unicode_done = false;
                        if to - p >= 6 {
                            let h0 = line[p + 2];
                            let h1 = line[p + 3];
                            let h2 = line[p + 4];
                            let h3 = line[p + 5];
                            proof {
                                assert(rest.subrange(2, 6) =~= line@.subrange(
                                    p + 2 as int,
                                    p + 6 as int,
                                ));
                                assert(rest.subrange(2, 6)[0] == h0);
                                assert(rest.subrange(2, 6)[1] == h1);
                                assert(rest.subrange(2, 6)[2] == h2);
                                assert(rest.subrange(2, 6)[3] == h3);
                            }
                            if is_hex_digit_exec(h0) && is_hex_digit_exec(h1) && is_hex_digit_exec(
                                h2,
                            ) && is_hex_digit_exec(h3) {
                                let v = 4096 * hex_val_exec(h0) + 256 * hex_val_exec(h1) + 16
                                    * hex_val_exec(h2) + hex_val_exec(h3);
                                assert(v == hex4_val(rest.subrange(2, 6)));
                                match char_from_u32(v) {
                                    Some(d) => {
                                        assert(is_scalar16(v as int));
                                        out.push(d);
                                        p = p + 6;
                                        proof {
                                            vstd::utf8::char_u32_cast(d, v);
                                            assert(rest.skip(6) =~= line@.subrange(
                                                p as int,
                                                to as int,
                                            ));
                                            assert(out@ + decode_escapes(
                                                line@.subrange(p as int, to as int),
                                            ) =~= (out@.drop_last() + decode_escapes(rest)));
                                        }
                                        unicode_done = true;
                                    },
                                    None => {
                                        assert(!is_scalar16(v as int));
                                    },
                                }
                            }
                        }
                        if !unicode_done {
                            out.push('\\');
                            out.push('u');
                            p = p + 2;
                            proof {
                                assert(rest.skip(2) =~= line@.subrange(p as int, to as int));
                                assert(out@ + decode_escapes(line@.subrange(p as int, to as int))
                                    =~= (out@.drop_last().drop_last() + decode_escapes(rest)));
                            }
                        }
                    } else {
                        out.push('\\');
                        out.push(e);
                        p = p + 2;
                        proof {
                            assert(rest.skip(2) =~= line@.subrange(p as int, to as int));
                            assert(out@ + decode_escapes(line@.subrange(p as int, to as int))
                                =~= (out@.drop_last().drop_last() + decode_escapes(rest)));
                        }
                    }
                },
            }
        }
    }
    proof {
        assert(line@.subrange(p as int, to as int) =~= Seq::<char>::empty());
        assert(out@ =~= decode_escapes(whole));
    }
    out
}

/// The literal content of one raw line, over a vector of characters.
pub fn clean_line_chars(line: &Vec<char>) -> (r: Vec<char>)
    ensures
        r@ == clean_line_spec(line@),
{
    let n = line.len();
    // Locate the first character that is not a space or a tab.
    let mut ind: usize = 0;
    while ind < n && (line[ind] == ' ' || line[ind] == '\t')
        invariant
            0 <= ind <= n,
            n == line@.len(),
            first_non_blank_at(line@, 0) == first_non_blank_at(line@, ind as int),
        decreases n - ind,
    {
        ind = ind + 1;
    }
    if ind >= n {
        assert(first_non_blank_at(line@, ind as int) == line@.len());
        return Vec::new();
    }
    assert(first_non_blank_at(line@, 0) == ind);
    if line[ind] != '"' {
        return Vec::new();
    }
    // Locate the last quote of the whole line.
    let q = find_last_quote(line, ind);
    if ind + 1 >= q {
        return Vec::new();
    }
    // Decode the content between the quotes.
    let mut out = decode_range(line, ind + 1, q);
    // One trailing newline per encoded line is implicit: drop it.
    if out.len() > 0 && out[out.len() - 1] == '\n' {
        out.pop();
        assert(out@ =~= strip_trailing_newline(decode_escapes(line@.subrange(
            ind + 1 as int,
            q as int,
        ))));
    }
    out
}

/// The literal content of one raw line of the document: the decoded text
/// between the first meaningful quote and the last quote of the line, the
/// empty string when the line carries no quoted content.
pub fn clean_line_json(line: String) -> (r: String)
    ensures
        r@ == clean_line_spec(line@),
{
    let chars = str_to_chars(line.as_str());
    let decoded = clean_line_chars(&chars);
    chars_to_string(&decoded)
}

} // verus!
