//! Executable scanning of the bytes of a dump: each function here computes one
//! of the positions or values that the grammar defines.

use vstd::prelude::*;
use vstd::string::*;
use vstd::utf8::*;
use crate::grammar::{
    after_rows, bare_end, block_end, closer, comment_at, find_byte, is_bare, is_blank, is_delimiter,
    is_end_mark, is_stdin, keyword, line_stop, lower, next_line, open_paren, skip, spells,
    statement_end, table_name_at, value_at, word_end, lemma_find_byte_bounds, BACKSLASH, COMMA,
    CR, DASH, DOT, DQUOTE, LBRACKET, LF, LPAREN, RBRACKET, RPAREN, SEMICOLON, SPACE, SQUOTE, TAB,
};
use crate::text::{lemma_boundary_after_ascii, lemma_boundary_at_ascii_or_end, slice_string};

verus! {

broadcast use {vstd::utf8::group_utf8_lib, vstd::seq::group_seq_axioms};

/// Blanks and comments are made of whole characters.
pub(crate) proof fn lemma_skip_boundary(s: Seq<u8>, i: int)
    requires
        valid_utf8(s),
        0 <= i <= s.len(),
        is_char_boundary(s, i),
    ensures
        is_char_boundary(s, skip(s, i)),
    decreases s.len() - i,
{
    if i < s.len() && is_blank(s[i]) {
        lemma_boundary_after_ascii(s, i);
        lemma_skip_boundary(s, i + 1);
    } else if comment_at(s, i) {
        lemma_find_byte_bounds(s, LF, i + 2);
        let e = find_byte(s, LF, i + 2);
        lemma_boundary_at_ascii_or_end(s, e);
        lemma_skip_boundary(s, e);
    }
}

/// Tells whether `b` is a blank.
pub(crate) fn blank(b: u8) -> (r: bool)
    ensures
        r == is_blank(b),
{
    b == SPACE || b == TAB || b == LF || b == CR
}

/// Tells whether `b` ends a word.
pub(crate) fn delimiter(b: u8) -> (r: bool)
    ensures
        r == is_delimiter(b),
{
    blank(b) || b == LPAREN || b == RPAREN || b == COMMA || b == SEMICOLON
}

/// Tells whether `b` can stand in an unquoted name.
pub(crate) fn bare(b: u8) -> (r: bool)
    ensures
        r == is_bare(b),
{
    !delimiter(b) && b != DQUOTE && b != SQUOTE && b != LBRACKET && b != RBRACKET && b != DOT
}

/// Folds an ASCII capital letter to its small letter.
pub(crate) fn to_lower(b: u8) -> (r: u8)
    ensures
        r == lower(b),
{
    if 0x41 <= b && b <= 0x5a {
        b + 0x20
    } else {
        b
    }
}

/// Gives the byte that closes a quoted value opened by `b`.
pub(crate) fn closing_byte(b: u8) -> (r: Option<u8>)
    ensures
        r == closer(b),
{
    if b == DQUOTE || b == SQUOTE {
        Some(b)
    } else if b == LBRACKET {
        Some(RBRACKET)
    } else {
        None
    }
}

/// Scans for the byte `b` from `from` on.
pub(crate) fn scan_to_byte(bytes: &[u8], b: u8, from: usize) -> (r: usize)
    requires
        from <= bytes@.len(),
    ensures
        r == find_byte(bytes@, b, from as int),
        from <= r <= bytes@.len(),
        r < bytes@.len() ==> bytes@[r as int] == b,
{
    let mut k = from;
    while k < bytes.len() && bytes[k] != b
        invariant
            from <= k <= bytes@.len(),
            find_byte(bytes@, b, from as int) == find_byte(bytes@, b, k as int),
        decreases bytes@.len() - k,
    {
        k += 1;
    }
    k
}

/// Scans to the end of the word that starts at `from`.
pub(crate) fn scan_word(bytes: &[u8], from: usize) -> (r: usize)
    requires
        from <= bytes@.len(),
    ensures
        r == word_end(bytes@, from as int),
        from <= r <= bytes@.len(),
        r < bytes@.len() ==> is_delimiter(bytes@[r as int]),
{
    let mut k = from;
    while k < bytes.len() && !delimiter(bytes[k])
        invariant
            from <= k <= bytes@.len(),
            word_end(bytes@, from as int) == word_end(bytes@, k as int),
        decreases bytes@.len() - k,
    {
        k += 1;
    }
    k
}

/// Scans to the end of the unquoted name that starts at `from`.
pub(crate) fn scan_bare(bytes: &[u8], from: usize) -> (r: usize)
    requires
        from <= bytes@.len(),
    ensures
        r == bare_end(bytes@, from as int),
        from <= r <= bytes@.len(),
        r < bytes@.len() ==> !is_bare(bytes@[r as int]),
{
    let mut k = from;
    while k < bytes.len() && bare(bytes[k])
        invariant
            from <= k <= bytes@.len(),
            bare_end(bytes@, from as int) == bare_end(bytes@, k as int),
        decreases bytes@.len() - k,
    {
        k += 1;
    }
    k
}

/// Passes the blanks and comments that start at `from`.
pub(crate) fn skip_blanks(bytes: &[u8], from: usize) -> (r: usize)
    requires
        from <= bytes@.len(),
    ensures
        r == skip(bytes@, from as int),
        from <= r <= bytes@.len(),
{
    let mut k = from;
    loop
        invariant
            from <= k <= bytes@.len(),
            skip(bytes@, from as int) == skip(bytes@, k as int),
        ensures
            from <= k <= bytes@.len(),
            skip(bytes@, from as int) == k,
        decreases bytes@.len() - k,
    {
        if k < bytes.len() && blank(bytes[k]) {
            k += 1;
        } else if bytes.len() - k >= 2 && bytes[k] == DASH && bytes[k + 1] == DASH {
            k = scan_to_byte(bytes, LF, k + 2);
        } else {
            break ;
        }
    }
    k
}

/// Tells whether the bytes from `from` up to `to` spell `word`, ignoring the
/// case of ASCII letters.
pub(crate) fn spells_word(bytes: &[u8], from: usize, to: usize, word: &str) -> (r: bool)
    requires
        from <= to <= bytes@.len(),
        is_ascii_chars(word@),
    ensures
        r == spells(bytes@.subrange(from as int, to as int), word@),
{
    let w = word.as_bytes();
    let ghost part = bytes@.subrange(from as int, to as int);
    proof {
        is_ascii_chars_encode_utf8(word@);
    }
    if to - from != w.len() {
        return false;
    }
    let mut k: usize = 0;
    while k < w.len()
        invariant
            from <= to <= bytes@.len(),
            to - from == w@.len(),
            w@.len() == word@.len(),
            part == bytes@.subrange(from as int, to as int),
            forall|j: int| 0 <= j < word@.len() ==> word@[j] as u8 == #[trigger] w@[j],
            0 <= k <= w@.len(),
            forall|j: int| 0 <= j < k ==> lower(#[trigger] part[j]) == word@[j] as u8,
        decreases w@.len() - k,
    {
        if to_lower(bytes[from + k]) != w[k] {
            assert(part[k as int] == bytes@[from + k]);
            return false;
        }
        assert(part[k as int] == bytes@[from + k]);
        k += 1;
    }
    true
}

/// A position that an executable function found is the one that the grammar
/// defines.
pub(crate) open spec fn same_position(found: Option<usize>, defined: Option<int>) -> bool {
    match found {
        Some(n) => defined == Some(n as int),
        None => defined is None,
    }
}

/// Matches the keyword `word` at `from` and passes what can follow it.
pub(crate) fn match_keyword(bytes: &[u8], from: usize, word: &str) -> (r: Option<usize>)
    requires
        from <= bytes@.len(),
        is_ascii_chars(word@),
    ensures
        same_position(r, keyword(bytes@, from as int, word@)),
        r is Some ==> from <= r.unwrap() <= bytes@.len(),
        r is Some && valid_utf8(bytes@) ==> is_char_boundary(bytes@, r.unwrap() as int),
{
    let e = scan_bare(bytes, from);
    if spells_word(bytes, from, e, word) {
        proof {
            if valid_utf8(bytes@) {
                lemma_boundary_at_ascii_or_end(bytes@, e as int);
                lemma_skip_boundary(bytes@, e as int);
            }
        }
        Some(skip_blanks(bytes, e))
    } else {
        None
    }
}

/// Matches an opening parenthesis after `from` and passes what can follow it.
pub(crate) fn match_open_paren(bytes: &[u8], from: usize) -> (r: Option<usize>)
    requires
        from <= bytes@.len(),
    ensures
        same_position(r, open_paren(bytes@, from as int)),
        r is Some ==> from < r.unwrap() <= bytes@.len(),
        r is Some && valid_utf8(bytes@) ==> is_char_boundary(bytes@, r.unwrap() as int),
{
    let j = skip_blanks(bytes, from);
    if j < bytes.len() && bytes[j] == LPAREN {
        proof {
            if valid_utf8(bytes@) {
                lemma_boundary_after_ascii(bytes@, j as int);
                lemma_skip_boundary(bytes@, j + 1);
            }
        }
        Some(skip_blanks(bytes, j + 1))
    } else {
        None
    }
}

/// Matches the end of a statement after `from`.
pub(crate) fn match_statement_end(bytes: &[u8], from: usize) -> (r: Option<usize>)
    requires
        from <= bytes@.len(),
    ensures
        same_position(r, statement_end(bytes@, from as int)),
        r is Some ==> from <= r.unwrap() <= bytes@.len(),
        r is Some && valid_utf8(bytes@) ==> is_char_boundary(bytes@, r.unwrap() as int),
{
    let j = skip_blanks(bytes, from);
    if j >= bytes.len() {
        proof {
            if valid_utf8(bytes@) {
                lemma_boundary_at_ascii_or_end(bytes@, bytes@.len() as int);
            }
        }
        Some(bytes.len())
    } else if bytes[j] == SEMICOLON {
        proof {
            if valid_utf8(bytes@) {
                lemma_boundary_after_ascii(bytes@, j as int);
            }
        }
        Some(j + 1)
    } else {
        None
    }
}

/// Tells whether the source of a bulk copy is `stdin`.
pub(crate) fn names_stdin(source: &str) -> (r: bool)
    ensures
        r == is_stdin(source@),
{
    let bytes = source.as_bytes();
    proof {
        reveal_strlit("stdin");
        assert(bytes@.subrange(0, bytes@.len() as int) =~= bytes@);
    }
    spells_word(bytes, 0, bytes.len(), "stdin")
}

/// Finds the start of the line after the one that holds `from`.
pub(crate) fn line_after(bytes: &[u8], from: usize) -> (r: usize)
    ensures
        r == next_line(bytes@, from as int),
        r <= bytes@.len(),
        from < bytes@.len() ==> from < r,
        valid_utf8(bytes@) ==> is_char_boundary(bytes@, r as int),
{
    proof {
        lemma_find_byte_bounds(bytes@, LF, from as int);
    }
    if from >= bytes.len() {
        proof {
            if valid_utf8(bytes@) {
                lemma_boundary_at_ascii_or_end(bytes@, bytes@.len() as int);
            }
        }
        return bytes.len();
    }
    let e = scan_to_byte(bytes, LF, from);
    if e < bytes.len() {
        proof {
            if valid_utf8(bytes@) {
                lemma_boundary_after_ascii(bytes@, e as int);
            }
        }
        e + 1
    } else {
        proof {
            if valid_utf8(bytes@) {
                lemma_boundary_at_ascii_or_end(bytes@, bytes@.len() as int);
            }
        }
        e
    }
}

/// Finds where the line that starts at `from` stops.
pub(crate) fn line_limit(bytes: &[u8], from: usize) -> (r: usize)
    requires
        from <= bytes@.len(),
    ensures
        r == line_stop(bytes@, from as int),
        from <= r <= bytes@.len(),
        r == bytes@.len() || bytes@[r as int] == LF || bytes@[r as int] == CR,
{
    let e = scan_to_byte(bytes, LF, from);
    if e < bytes.len() && from < e && bytes[e - 1] == CR {
        e - 1
    } else {
        e
    }
}

/// Tells whether the bytes from `from` up to `to` are the end mark of a block
/// of rows.
pub(crate) fn ends_block(bytes: &[u8], from: usize, to: usize) -> (r: bool)
    requires
        from <= to <= bytes@.len(),
    ensures
        r == is_end_mark(bytes@, from as int, to as int),
{
    to - from == 2 && bytes[from] == BACKSLASH && bytes[from + 1] == DOT
}

/// Finds the end of the block of rows whose first line starts at `from`.
pub(crate) fn find_block_end(bytes: &[u8], from: usize) -> (r: Option<usize>)
    requires
        from <= bytes@.len(),
    ensures
        same_position(r, block_end(bytes@, from as int)),
        r is Some ==> from < r.unwrap() <= bytes@.len(),
        r is Some && valid_utf8(bytes@) ==> is_char_boundary(bytes@, r.unwrap() as int),
{
    let mut k = from;
    while k < bytes.len()
        invariant
            from <= k <= bytes@.len(),
            block_end(bytes@, from as int) == block_end(bytes@, k as int),
        decreases bytes@.len() - k,
    {
        let stop = line_limit(bytes, k);
        let next = line_after(bytes, k);
        if ends_block(bytes, k, stop) {
            return Some(next);
        }
        k = next;
    }
    None
}

/// Finds where reading goes on after a bulk copy from `stdin` that ends at
/// `end`.
pub(crate) fn pass_rows(bytes: &[u8], end: usize) -> (r: usize)
    requires
        end <= bytes@.len(),
    ensures
        r == after_rows(bytes@, end as int),
        end <= r <= bytes@.len(),
        valid_utf8(bytes@) && is_char_boundary(bytes@, end as int) ==> is_char_boundary(
            bytes@,
            r as int,
        ),
{
    let start = line_after(bytes, end);
    match find_block_end(bytes, start) {
        Some(e) => e,
        None => end,
    }
}

/// Reads the value at `from`.
pub(crate) fn parse_value(input: &str, from: usize) -> (r: Option<(String, usize)>)
    requires
        from <= input.spec_bytes().len(),
        is_char_boundary(input.spec_bytes(), from as int),
    ensures
        match r {
            Some((v, n)) => value_at(input.spec_bytes(), from as int) == Some((v@, n as int))
                && from < n <= input.spec_bytes().len(),
            None => value_at(input.spec_bytes(), from as int) is None,
        },
{
    let bytes = input.as_bytes();
    let ghost s = input.spec_bytes();
    if from >= bytes.len() {
        return None;
    }
    match closing_byte(bytes[from]) {
        Some(c) => {
            let e = scan_to_byte(bytes, c, from + 1);
            if e < bytes.len() {
                proof {
                    lemma_boundary_after_ascii(s, from as int);
                    lemma_boundary_at_ascii_or_end(s, e as int);
                }
                let v = slice_string(input, from + 1, e);
                Some((v, e + 1))
            } else {
                None
            }
        },
        None => {
            let e = scan_bare(bytes, from);
            if e > from {
                proof {
                    lemma_boundary_at_ascii_or_end(s, e as int);
                }
                let v = slice_string(input, from, e);
                Some((v, e))
            } else {
                None
            }
        },
    }
}

/// Reads the table name at `from`.
pub(crate) fn parse_table_def(input: &str, from: usize) -> (r: Option<(String, usize)>)
    requires
        from <= input.spec_bytes().len(),
        is_char_boundary(input.spec_bytes(), from as int),
    ensures
        match r {
            Some((v, n)) => table_name_at(input.spec_bytes(), from as int) == Some(
                (v@, n as int),
            ) && from < n <= input.spec_bytes().len(),
            None => table_name_at(input.spec_bytes(), from as int) is None,
        },
{
    let bytes = input.as_bytes();
    let ghost s = input.spec_bytes();
    let mut at = from;
    loop
        invariant
            bytes@ == s,
            s == input.spec_bytes(),
            from <= at <= s.len(),
            is_char_boundary(s, at as int),
            table_name_at(s, from as int) == table_name_at(s, at as int),
        decreases s.len() - at,
    {
        match parse_value(input, at) {
            None => {
                return None;
            },
            Some((name, n)) => {
                if n < bytes.len() && bytes[n] == DOT {
                    proof {
                        lemma_boundary_after_ascii(s, n as int);
                    }
                    at = n + 1;
                } else {
                    return Some((name, n));
                }
            },
        }
    }
}

} // verus!
