//! The grammar of dumps, stated over the bytes of the text.
//!
//! ```text
//! dump        = { statement [ rows ] }
//! statement   = create-table | copy | other
//! create-table= "CREATE" "TABLE" table-name "(" column { "," column } ")" end
//! copy        = "COPY" table-name "(" value { "," value } ")" "FROM" value end
//! other       = any bytes up to the next ";"
//! end         = ";" | end of text
//! table-name  = value { "." value }            (the last value is the name)
//! column      = value word rest                (name, type, rest not kept)
//! value       = bare-name | '"' ... '"' | "'" ... "'" | "[" ... "]"
//! rows        = lines up to a line that holds only "\."
//! ```
//!
//! Blanks and comments (`--` to the end of the line) may stand between the
//! tokens of a statement and between statements. Keywords and type words are
//! matched without regard to case. The alternatives of `statement` are tried in
//! the order given, so every text up to a semicolon is a statement of some
//! kind. `rows` stands only behind a `copy` whose source is `stdin`.
//!
//! Every function here takes a position in the text and tells what stands
//! there and where it ends. The functions are specifications: the parser is
//! proved to compute them.

use vstd::prelude::*;
use vstd::utf8::*;
use crate::model::{ColumnType, ColumnView, CopyTableView, CreateTableView, StatementView};

verus! {

/// The bytes that the grammar names.
pub const TAB: u8 = 0x09;

pub const LF: u8 = 0x0a;

pub const CR: u8 = 0x0d;

pub const SPACE: u8 = 0x20;

pub const DQUOTE: u8 = 0x22;

pub const SQUOTE: u8 = 0x27;

pub const LPAREN: u8 = 0x28;

pub const RPAREN: u8 = 0x29;

pub const COMMA: u8 = 0x2c;

pub const DASH: u8 = 0x2d;

pub const DOT: u8 = 0x2e;

pub const SEMICOLON: u8 = 0x3b;

pub const LBRACKET: u8 = 0x5b;

pub const BACKSLASH: u8 = 0x5c;

pub const RBRACKET: u8 = 0x5d;

/// Space, tab, line feed and carriage return separate tokens.
pub open spec fn is_blank(b: u8) -> bool {
    b == SPACE || b == TAB || b == LF || b == CR
}

/// Bytes that end a word: blanks, parentheses, the comma and the semicolon.
pub open spec fn is_delimiter(b: u8) -> bool {
    is_blank(b) || b == LPAREN || b == RPAREN || b == COMMA || b == SEMICOLON
}

/// Bytes that an unquoted name is made of: all but delimiters, quotes, brackets
/// and the dot.
pub open spec fn is_bare(b: u8) -> bool {
    !is_delimiter(b) && b != DQUOTE && b != SQUOTE && b != LBRACKET && b != RBRACKET && b != DOT
}

/// The first position at or after `i` that holds the byte `b`, or the length of
/// `s` if there is none.
pub open spec fn find_byte(s: Seq<u8>, b: u8, i: int) -> int
    decreases s.len() - i,
{
    if !(0 <= i < s.len()) {
        s.len() as int
    } else if s[i] == b {
        i
    } else {
        find_byte(s, b, i + 1)
    }
}

/// The first position at or after `i` that holds a delimiter, or the length.
pub open spec fn word_end(s: Seq<u8>, i: int) -> int
    decreases s.len() - i,
{
    if !(0 <= i < s.len()) {
        s.len() as int
    } else if is_delimiter(s[i]) {
        i
    } else {
        word_end(s, i + 1)
    }
}

/// The first position at or after `i` that holds no byte of an unquoted name,
/// or the length.
pub open spec fn bare_end(s: Seq<u8>, i: int) -> int
    decreases s.len() - i,
{
    if !(0 <= i < s.len()) {
        s.len() as int
    } else if !is_bare(s[i]) {
        i
    } else {
        bare_end(s, i + 1)
    }
}

/// A comment starts at `i`: two dashes. It runs to the end of the line.
pub open spec fn comment_at(s: Seq<u8>, i: int) -> bool {
    0 <= i && i + 1 < s.len() && s[i] == DASH && s[i + 1] == DASH
}

/// The position after the blanks and comments that start at `i`.
pub open spec fn skip(s: Seq<u8>, i: int) -> int
    decreases s.len() - i,
{
    if 0 <= i < s.len() && is_blank(s[i]) {
        skip(s, i + 1)
    } else if comment_at(s, i) {
        proof {
            lemma_find_byte_bounds(s, LF, i + 2);
        }
        skip(s, find_byte(s, LF, i + 2))
    } else {
        i
    }
}

/// An ASCII capital letter as its small letter, every other byte as it is.
pub open spec fn lower(b: u8) -> u8 {
    if 0x41 <= b <= 0x5a {
        (b + 0x20) as u8
    } else {
        b
    }
}

/// `bytes` spell `word` when the case of ASCII letters is ignored. `word` is
/// meant to be in lower case.
pub open spec fn spells(bytes: Seq<u8>, word: Seq<char>) -> bool {
    &&& bytes.len() == word.len()
    &&& forall|k: int| 0 <= k < word.len() ==> lower(#[trigger] bytes[k]) == word[k] as u8
}

/// The text that the bytes from `from` up to `to` encode.
pub open spec fn text_of(s: Seq<u8>, from: int, to: int) -> Seq<char> {
    decode_utf8(s.subrange(from, to))
}

/// The unquoted name at `i` spells `word`; after it the blanks and comments are
/// passed, and the result is the position reached.
pub open spec fn keyword(s: Seq<u8>, i: int, word: Seq<char>) -> Option<int> {
    let e = bare_end(s, i);
    if 0 <= i <= e <= s.len() && spells(s.subrange(i, e), word) {
        Some(skip(s, e))
    } else {
        None
    }
}

/// The byte that closes a quoted value opened by `b`, if `b` opens one.
pub open spec fn closer(b: u8) -> Option<u8> {
    if b == DQUOTE || b == SQUOTE {
        Some(b)
    } else if b == LBRACKET {
        Some(RBRACKET)
    } else {
        None
    }
}

/// The value at `i`, with the position after it. A value is an unquoted name
/// (one byte at least), or any text between double quotes, single quotes or
/// square brackets, which are left out of the value.
pub open spec fn value_at(s: Seq<u8>, i: int) -> Option<(Seq<char>, int)> {
    if !(0 <= i < s.len()) {
        None
    } else if closer(s[i]) is Some {
        let e = find_byte(s, closer(s[i]).unwrap(), i + 1);
        if e < s.len() {
            Some((text_of(s, i + 1, e), e + 1))
        } else {
            None
        }
    } else {
        let e = bare_end(s, i);
        if e > i {
            Some((text_of(s, i, e), e))
        } else {
            None
        }
    }
}

/// The table name at `i`, with the position after it: values joined by dots,
/// of which the last one is the name.
pub open spec fn table_name_at(s: Seq<u8>, i: int) -> Option<(Seq<char>, int)>
    decreases s.len() - i,
{
    match value_at(s, i) {
        None => None,
        Some((name, n)) => {
            if 0 <= n < s.len() && s[n] == DOT {
                proof {
                    lemma_value_at_bounds(s, i);
                }
                table_name_at(s, n + 1)
            } else {
                Some((name, n))
            }
        },
    }
}

/// The storage class that a type word stands for. The word is matched without
/// regard to case; a word that is not in the table stands for `Unknown`.
pub open spec fn column_type_of(word: Seq<u8>) -> ColumnType {
    if spells(word, "integer"@) {
        ColumnType::Integer
    } else if spells(word, "boolean"@) {
        ColumnType::Boolean
    } else if spells(word, "double"@) {
        ColumnType::Real
    } else if spells(word, "text"@) {
        ColumnType::Text
    } else {
        ColumnType::Unknown
    }
}

/// Where the rest of a column definition ends, scanning from `i` with `depth`
/// parentheses open: at the comma or closing parenthesis that belongs to the
/// column list, or at a semicolon, or at the length of `s`. Quoted text and
/// comments are passed over as a whole.
pub open spec fn rest_end(s: Seq<u8>, i: int, depth: nat) -> int
    decreases s.len() - i,
{
    if !(0 <= i < s.len()) {
        s.len() as int
    } else if s[i] == SEMICOLON {
        i
    } else if depth == 0 && (s[i] == COMMA || s[i] == RPAREN) {
        i
    } else if s[i] == LPAREN {
        rest_end(s, i + 1, depth + 1)
    } else if s[i] == RPAREN {
        rest_end(s, i + 1, (depth - 1) as nat)
    } else if s[i] == SQUOTE || s[i] == DQUOTE {
        proof {
            lemma_find_byte_bounds(s, s[i], i + 1);
        }
        let e = find_byte(s, s[i], i + 1);
        if e < s.len() {
            rest_end(s, e + 1, depth)
        } else {
            s.len() as int
        }
    } else if comment_at(s, i) {
        proof {
            lemma_find_byte_bounds(s, LF, i + 2);
        }
        rest_end(s, find_byte(s, LF, i + 2), depth)
    } else {
        rest_end(s, i + 1, depth)
    }
}

/// The column definition at `i`, with the position where it ends: a value, the
/// column's name, then a word, its type; what follows the word is not kept.
pub open spec fn column_at(s: Seq<u8>, i: int) -> Option<(ColumnView, int)> {
    let name = value_at(s, i);
    let t = skip(s, name.unwrap().1);
    let e = word_end(s, t);
    if name is Some && t < e {
        Some(
            (
                ColumnView { name: name.unwrap().0, dtype: column_type_of(s.subrange(t, e)) },
                rest_end(s, e, 0),
            ),
        )
    } else {
        None
    }
}

/// The column definitions from `i` on, separated by commas and closed by a
/// parenthesis, with the position after that parenthesis.
pub open spec fn columns_at(s: Seq<u8>, i: int) -> Option<(Seq<ColumnView>, int)>
    decreases s.len() - i,
{
    match column_at(s, i) {
        None => None,
        Some((column, r)) => {
            if 0 <= r < s.len() && s[r] == RPAREN {
                Some((seq![column], r + 1))
            } else if 0 <= r < s.len() && s[r] == COMMA {
                proof {
                    lemma_column_at_bounds(s, i);
                    lemma_skip_bounds(s, r + 1);
                }
                match columns_at(s, skip(s, r + 1)) {
                    None => None,
                    Some((rest, n)) => Some((seq![column] + rest, n)),
                }
            } else {
                None
            }
        },
    }
}

/// The column names from `i` on: values separated by commas and closed by a
/// parenthesis, with the position after that parenthesis.
pub open spec fn names_at(s: Seq<u8>, i: int) -> Option<(Seq<Seq<char>>, int)>
    decreases s.len() - i,
{
    match value_at(s, i) {
        None => None,
        Some((name, n)) => {
            let j = skip(s, n);
            if 0 <= j < s.len() && s[j] == RPAREN {
                Some((seq![name], j + 1))
            } else if 0 <= j < s.len() && s[j] == COMMA {
                proof {
                    lemma_value_at_bounds(s, i);
                    lemma_skip_bounds(s, n);
                    lemma_skip_bounds(s, j + 1);
                }
                match names_at(s, skip(s, j + 1)) {
                    None => None,
                    Some((rest, m)) => Some((seq![name] + rest, m)),
                }
            } else {
                None
            }
        },
    }
}

/// After blanks and comments a parenthesis opens at `i`; the result is the
/// position of what stands in it.
pub open spec fn open_paren(s: Seq<u8>, i: int) -> Option<int> {
    let j = skip(s, i);
    if 0 <= j < s.len() && s[j] == LPAREN {
        Some(skip(s, j + 1))
    } else {
        None
    }
}

/// A statement ends at `i`: after blanks and comments comes a semicolon or
/// the end of the text. The result is the position after the statement.
pub open spec fn statement_end(s: Seq<u8>, i: int) -> Option<int> {
    let j = skip(s, i);
    if j >= s.len() {
        Some(s.len() as int)
    } else if 0 <= j && s[j] == SEMICOLON {
        Some(j + 1)
    } else {
        None
    }
}

/// The table definition that starts at `i`, with the position after it.
pub open spec fn create_table_at(s: Seq<u8>, i: int) -> Option<(CreateTableView, int)> {
    let create = keyword(s, i, "create"@);
    let table = keyword(s, create.unwrap(), "table"@);
    let name = table_name_at(s, table.unwrap());
    let open = open_paren(s, name.unwrap().1);
    let columns = columns_at(s, open.unwrap());
    let end = statement_end(s, columns.unwrap().1);
    if create is Some && table is Some && name is Some && open is Some && columns is Some
        && end is Some {
        Some(
            (
                CreateTableView { name: name.unwrap().0, columns: columns.unwrap().0 },
                end.unwrap(),
            ),
        )
    } else {
        None
    }
}

/// The bulk-copy declaration that starts at `i`, with the position after it,
/// which is also the offset that the declaration records.
pub open spec fn copy_at(s: Seq<u8>, i: int) -> Option<(CopyTableView, int)> {
    let copy = keyword(s, i, "copy"@);
    let name = table_name_at(s, copy.unwrap());
    let open = open_paren(s, name.unwrap().1);
    let columns = names_at(s, open.unwrap());
    let from = keyword(s, skip(s, columns.unwrap().1), "from"@);
    let source = value_at(s, from.unwrap());
    let end = statement_end(s, source.unwrap().1);
    if copy is Some && name is Some && open is Some && columns is Some && from is Some
        && source is Some && end is Some {
        Some(
            (
                CopyTableView {
                    name: name.unwrap().0,
                    columns: columns.unwrap().0,
                    from: source.unwrap().0,
                    end: end.unwrap(),
                },
                end.unwrap(),
            ),
        )
    } else {
        None
    }
}

/// The source of a bulk copy says that the rows follow the statement: it
/// spells `stdin`, in any case.
pub open spec fn is_stdin(source: Seq<char>) -> bool {
    spells(encode_utf8(source), "stdin"@)
}

/// The start of the line after the one that holds position `i`, or the length
/// of `s` if that line is the last.
pub open spec fn next_line(s: Seq<u8>, i: int) -> int {
    let e = find_byte(s, LF, i);
    if e < s.len() {
        e + 1
    } else {
        s.len() as int
    }
}

/// Where the line that starts at `i` stops: before its line feed, and before
/// a carriage return in front of that line feed.
pub open spec fn line_stop(s: Seq<u8>, i: int) -> int {
    let e = find_byte(s, LF, i);
    if e < s.len() && i < e && s[e - 1] == CR {
        e - 1
    } else {
        e
    }
}

/// The bytes from `from` up to `to` are the mark that ends a block of rows: a
/// backslash and a dot.
pub open spec fn is_end_mark(s: Seq<u8>, from: int, to: int) -> bool {
    to - from == 2 && s[from] == BACKSLASH && s[from + 1] == DOT
}

/// The position after the block of rows whose first line starts at `i`: after
/// the first line from there on that holds the end mark. Where no line holds
/// it, there is no block.
pub open spec fn block_end(s: Seq<u8>, i: int) -> Option<int>
    decreases s.len() - i,
{
    if !(0 <= i < s.len()) {
        None
    } else if is_end_mark(s, i, line_stop(s, i)) {
        Some(next_line(s, i))
    } else {
        proof {
            lemma_find_byte_bounds(s, LF, i);
        }
        block_end(s, next_line(s, i))
    }
}

/// Where reading goes on after a bulk copy from `stdin` that ends at `end`:
/// after the block of rows that starts on the next line, or right at `end`
/// where no block follows.
pub open spec fn after_rows(s: Seq<u8>, end: int) -> int {
    match block_end(s, next_line(s, end)) {
        Some(e) => e,
        None => end,
    }
}

/// The statement that starts at `i`, with the position after it. A table
/// definition or a bulk-copy declaration is handed out; any other text up to
/// the next semicolon is a statement too, but stands for nothing (`None`).
/// After a bulk copy from `stdin` the rest of its line and the block of rows
/// are passed, if a block follows. Text that is none of these is no statement.
pub open spec fn statement_at(s: Seq<u8>, i: int) -> Option<(Option<StatementView>, int)> {
    let create = create_table_at(s, i);
    let copy = copy_at(s, i);
    let semicolon = find_byte(s, SEMICOLON, i);
    if create is Some {
        Some((Some(StatementView::CreateTable(create.unwrap().0)), create.unwrap().1))
    } else if copy is Some {
        let c = copy.unwrap().0;
        if is_stdin(c.from) {
            Some((Some(StatementView::Copy(c)), after_rows(s, c.end)))
        } else {
            Some((Some(StatementView::Copy(c)), c.end))
        }
    } else if semicolon < s.len() {
        Some((None, semicolon + 1))
    } else {
        None
    }
}

/// The statements from `i` to the end of the text, in order; or, where some
/// text is no statement, the position at which that text starts.
pub open spec fn statements_from(s: Seq<u8>, i: int) -> Result<Seq<Option<StatementView>>, int>
    decreases s.len() - i,
{
    let j = skip(s, i);
    if !(0 <= j < s.len()) {
        Ok(Seq::empty())
    } else {
        match statement_at(s, j) {
            None => Err(j),
            Some((statement, n)) => {
                proof {
                    lemma_skip_bounds(s, i);
                    lemma_statement_at_bounds(s, j);
                }
                match statements_from(s, n) {
                    Err(e) => Err(e),
                    Ok(rest) => Ok(seq![statement] + rest),
                }
            },
        }
    }
}

/// The statements among `all` that stand for something, in order.
pub open spec fn supported(all: Seq<Option<StatementView>>) -> Seq<StatementView> {
    all.filter_map(|statement: Option<StatementView>| statement)
}

/// What reading the whole text `s` gives: the table definitions and bulk-copy
/// declarations in the order of the text, or the position of the text that is
/// no statement.
pub open spec fn dump_of(s: Seq<u8>) -> Result<Seq<StatementView>, int> {
    match statements_from(s, 0) {
        Ok(all) => Ok(supported(all)),
        Err(e) => Err(e),
    }
}

/// `find_byte` finds the first `b` at or after `i`.
pub proof fn lemma_find_byte_bounds(s: Seq<u8>, b: u8, i: int)
    requires
        0 <= i,
    ensures
        i <= s.len() ==> i <= find_byte(s, b, i) <= s.len(),
        i > s.len() ==> find_byte(s, b, i) == s.len(),
        find_byte(s, b, i) < s.len() ==> s[find_byte(s, b, i)] == b,
        forall|k: int| i <= k < find_byte(s, b, i) ==> s[k] != b,
    decreases s.len() - i,
{
    if i < s.len() && s[i] != b {
        lemma_find_byte_bounds(s, b, i + 1);
    }
}

/// `word_end` finds the first delimiter at or after `i`.
pub proof fn lemma_word_end_bounds(s: Seq<u8>, i: int)
    requires
        0 <= i <= s.len(),
    ensures
        i <= word_end(s, i) <= s.len(),
        word_end(s, i) < s.len() ==> is_delimiter(s[word_end(s, i)]),
        forall|k: int| i <= k < word_end(s, i) ==> !is_delimiter(s[k]),
    decreases s.len() - i,
{
    if i < s.len() && !is_delimiter(s[i]) {
        lemma_word_end_bounds(s, i + 1);
    }
}

/// `bare_end` finds the first byte at or after `i` that is no byte of an
/// unquoted name.
pub proof fn lemma_bare_end_bounds(s: Seq<u8>, i: int)
    requires
        0 <= i <= s.len(),
    ensures
        i <= bare_end(s, i) <= s.len(),
        bare_end(s, i) < s.len() ==> !is_bare(s[bare_end(s, i)]),
        forall|k: int| i <= k < bare_end(s, i) ==> is_bare(s[k]),
    decreases s.len() - i,
{
    if i < s.len() && is_bare(s[i]) {
        lemma_bare_end_bounds(s, i + 1);
    }
}

/// `skip` stops within the text, at a byte that is no blank and starts no
/// comment, and passing twice is passing once.
pub proof fn lemma_skip_bounds(s: Seq<u8>, i: int)
    requires
        0 <= i <= s.len(),
    ensures
        i <= skip(s, i) <= s.len(),
        skip(s, i) < s.len() ==> !is_blank(s[skip(s, i)]),
        !comment_at(s, skip(s, i)),
        skip(s, skip(s, i)) == skip(s, i),
    decreases s.len() - i,
{
    if i < s.len() && is_blank(s[i]) {
        lemma_skip_bounds(s, i + 1);
    } else if comment_at(s, i) {
        lemma_find_byte_bounds(s, LF, i + 2);
        lemma_skip_bounds(s, find_byte(s, LF, i + 2));
    }
}

/// A value takes up at least one byte of the text.
pub proof fn lemma_value_at_bounds(s: Seq<u8>, i: int)
    ensures
        value_at(s, i) is Some ==> 0 <= i < value_at(s, i).unwrap().1 <= s.len(),
{
    if 0 <= i < s.len() {
        if closer(s[i]) is Some {
            lemma_find_byte_bounds(s, closer(s[i]).unwrap(), i + 1);
        } else {
            lemma_bare_end_bounds(s, i);
        }
    }
}

/// A table name takes up at least one byte of the text.
pub proof fn lemma_table_name_at_bounds(s: Seq<u8>, i: int)
    ensures
        table_name_at(s, i) is Some ==> 0 <= i < table_name_at(s, i).unwrap().1 <= s.len(),
    decreases s.len() - i,
{
    lemma_value_at_bounds(s, i);
    if let Some((_, n)) = value_at(s, i) {
        if n < s.len() && s[n] == DOT {
            lemma_table_name_at_bounds(s, n + 1);
        }
    }
}

/// The rest of a column definition ends within the text.
pub proof fn lemma_rest_end_bounds(s: Seq<u8>, i: int, depth: nat)
    requires
        0 <= i <= s.len(),
    ensures
        i <= rest_end(s, i, depth) <= s.len(),
    decreases s.len() - i,
{
    if i < s.len() {
        if s[i] == SEMICOLON {
        } else if depth == 0 && (s[i] == COMMA || s[i] == RPAREN) {
        } else if s[i] == LPAREN {
            lemma_rest_end_bounds(s, i + 1, depth + 1);
        } else if s[i] == RPAREN {
            lemma_rest_end_bounds(s, i + 1, (depth - 1) as nat);
        } else if s[i] == SQUOTE || s[i] == DQUOTE {
            lemma_find_byte_bounds(s, s[i], i + 1);
            let e = find_byte(s, s[i], i + 1);
            if e < s.len() {
                lemma_rest_end_bounds(s, e + 1, depth);
            }
        } else if comment_at(s, i) {
            lemma_find_byte_bounds(s, LF, i + 2);
            lemma_rest_end_bounds(s, find_byte(s, LF, i + 2), depth);
        } else {
            lemma_rest_end_bounds(s, i + 1, depth);
        }
    }
}

/// A column definition takes up at least one byte of the text.
pub proof fn lemma_column_at_bounds(s: Seq<u8>, i: int)
    ensures
        column_at(s, i) is Some ==> 0 <= i < column_at(s, i).unwrap().1 <= s.len(),
{
    lemma_value_at_bounds(s, i);
    if let Some((_, n)) = value_at(s, i) {
        lemma_skip_bounds(s, n);
        let t = skip(s, n);
        lemma_word_end_bounds(s, t);
        lemma_rest_end_bounds(s, word_end(s, t), 0);
    }
}

/// A list of column definitions takes up at least one byte of the text and
/// holds at least one column.
pub proof fn lemma_columns_at_bounds(s: Seq<u8>, i: int)
    ensures
        columns_at(s, i) is Some ==> 0 <= i < columns_at(s, i).unwrap().1 <= s.len(),
        columns_at(s, i) is Some ==> columns_at(s, i).unwrap().0.len() >= 1,
    decreases s.len() - i,
{
    lemma_column_at_bounds(s, i);
    if let Some((_, r)) = column_at(s, i) {
        if r < s.len() && s[r] == COMMA {
            lemma_skip_bounds(s, r + 1);
            lemma_columns_at_bounds(s, skip(s, r + 1));
        }
    }
}

/// A list of column names takes up at least one byte of the text and holds
/// at least one name.
pub proof fn lemma_names_at_bounds(s: Seq<u8>, i: int)
    ensures
        names_at(s, i) is Some ==> 0 <= i < names_at(s, i).unwrap().1 <= s.len(),
        names_at(s, i) is Some ==> names_at(s, i).unwrap().0.len() >= 1,
    decreases s.len() - i,
{
    lemma_value_at_bounds(s, i);
    if let Some((_, n)) = value_at(s, i) {
        lemma_skip_bounds(s, n);
        let j = skip(s, n);
        if j < s.len() && s[j] == COMMA {
            lemma_skip_bounds(s, j + 1);
            lemma_names_at_bounds(s, skip(s, j + 1));
        }
    }
}

/// What follows a keyword starts within the text, behind the start of the
/// keyword.
pub proof fn lemma_keyword_bounds(s: Seq<u8>, i: int, word: Seq<char>)
    ensures
        keyword(s, i, word) is Some ==> 0 <= i <= keyword(s, i, word).unwrap() <= s.len(),
        keyword(s, i, word) is Some && word.len() > 0 ==> i < keyword(s, i, word).unwrap(),
{
    if keyword(s, i, word) is Some {
        lemma_bare_end_bounds(s, i);
        lemma_skip_bounds(s, bare_end(s, i));
    }
}

/// A statement ends within the text.
pub proof fn lemma_statement_end_bounds(s: Seq<u8>, i: int)
    requires
        0 <= i <= s.len(),
    ensures
        statement_end(s, i) is Some ==> i <= statement_end(s, i).unwrap() <= s.len(),
{
    lemma_skip_bounds(s, i);
}

/// A table definition takes up at least one byte of the text.
pub proof fn lemma_create_table_at_bounds(s: Seq<u8>, i: int)
    ensures
        create_table_at(s, i) is Some ==> 0 <= i < create_table_at(s, i).unwrap().1 <= s.len(),
{
    if create_table_at(s, i) is Some {
        let create = keyword(s, i, "create"@).unwrap();
        lemma_keyword_bounds(s, i, "create"@);
        let table = keyword(s, create, "table"@).unwrap();
        lemma_keyword_bounds(s, create, "table"@);
        lemma_table_name_at_bounds(s, table);
        let name = table_name_at(s, table).unwrap().1;
        lemma_skip_bounds(s, name);
        lemma_skip_bounds(s, skip(s, name) + 1);
        let open = open_paren(s, name).unwrap();
        lemma_columns_at_bounds(s, open);
        lemma_statement_end_bounds(s, columns_at(s, open).unwrap().1);
    }
}

/// A bulk-copy declaration takes up at least one byte of the text, and the
/// offset it records is the position after it.
pub proof fn lemma_copy_at_bounds(s: Seq<u8>, i: int)
    ensures
        copy_at(s, i) is Some ==> 0 <= i < copy_at(s, i).unwrap().1 <= s.len(),
        copy_at(s, i) is Some ==> copy_at(s, i).unwrap().0.end == copy_at(s, i).unwrap().1,
{
    if copy_at(s, i) is Some {
        let copy = keyword(s, i, "copy"@).unwrap();
        lemma_keyword_bounds(s, i, "copy"@);
        lemma_table_name_at_bounds(s, copy);
        let name = table_name_at(s, copy).unwrap().1;
        lemma_skip_bounds(s, name);
        lemma_skip_bounds(s, skip(s, name) + 1);
        let open = open_paren(s, name).unwrap();
        lemma_names_at_bounds(s, open);
        let columns = names_at(s, open).unwrap().1;
        lemma_skip_bounds(s, columns);
        lemma_keyword_bounds(s, skip(s, columns), "from"@);
        let from = keyword(s, skip(s, columns), "from"@).unwrap();
        lemma_value_at_bounds(s, from);
        lemma_statement_end_bounds(s, value_at(s, from).unwrap().1);
    }
}

/// The next line starts behind the position given, within the text; a line
/// stops between its start and its line feed.
pub proof fn lemma_next_line_bounds(s: Seq<u8>, i: int)
    requires
        0 <= i,
    ensures
        i < s.len() ==> i < next_line(s, i) <= s.len(),
        i >= s.len() ==> next_line(s, i) == s.len(),
        i <= s.len() ==> i <= line_stop(s, i) <= find_byte(s, LF, i) <= s.len(),
{
    lemma_find_byte_bounds(s, LF, i);
}

/// A block of rows ends behind its start, within the text.
pub proof fn lemma_block_end_bounds(s: Seq<u8>, i: int)
    requires
        0 <= i,
    ensures
        block_end(s, i) is Some ==> i < block_end(s, i).unwrap() <= s.len(),
    decreases s.len() - i,
{
    if i < s.len() {
        lemma_next_line_bounds(s, i);
        if !is_end_mark(s, i, line_stop(s, i)) {
            lemma_block_end_bounds(s, next_line(s, i));
        }
    }
}

/// Reading goes on at or behind the end of the bulk copy, within the text.
pub proof fn lemma_after_rows_bounds(s: Seq<u8>, end: int)
    requires
        0 <= end <= s.len(),
    ensures
        end <= after_rows(s, end) <= s.len(),
{
    lemma_next_line_bounds(s, end);
    lemma_block_end_bounds(s, next_line(s, end));
}

/// A statement takes up at least one byte of the text.
pub proof fn lemma_statement_at_bounds(s: Seq<u8>, i: int)
    requires
        0 <= i,
    ensures
        statement_at(s, i) is Some ==> i < statement_at(s, i).unwrap().1 <= s.len(),
{
    lemma_create_table_at_bounds(s, i);
    lemma_copy_at_bounds(s, i);
    lemma_find_byte_bounds(s, SEMICOLON, i);
    if create_table_at(s, i) is None && copy_at(s, i) is Some {
        let c = copy_at(s, i).unwrap().0;
        lemma_after_rows_bounds(s, c.end);
    }
}

/// A text of blanks and comments only is a dump without statements.
pub proof fn lemma_blank_text_is_empty_dump(s: Seq<u8>)
    requires
        skip(s, 0) == s.len(),
    ensures
        dump_of(s) == Ok::<Seq<StatementView>, int>(Seq::empty()),
{
}

/// The type of a column depends on its type word alone, and a word that is
/// none of the four known ones stands for `Unknown`.
pub proof fn lemma_unknown_type_words(word: Seq<u8>)
    requires
        !spells(word, "integer"@),
        !spells(word, "boolean"@),
        !spells(word, "double"@),
        !spells(word, "text"@),
    ensures
        column_type_of(word) == ColumnType::Unknown,
{
}

/// Blanks and comments in front of a statement change nothing: reading from
/// `i` gives what reading from behind them gives.
pub proof fn lemma_blanks_carry_no_content(s: Seq<u8>, i: int)
    requires
        0 <= i <= s.len(),
    ensures
        statements_from(s, i) == statements_from(s, skip(s, i)),
{
    lemma_skip_bounds(s, i);
}

/// The offset that a bulk copy records is a position of the text right after
/// the semicolon that ends the statement, or the end of the text where the
/// statement has no semicolon.
pub open spec fn ends_statement(s: Seq<u8>, end: int) -> bool {
    0 < end <= s.len() && (s[end - 1] == SEMICOLON || end == s.len())
}

/// A bulk copy that is read at `i` records the end of its own text.
pub proof fn lemma_copy_records_its_end(s: Seq<u8>, i: int)
    requires
        copy_at(s, i) is Some,
    ensures
        copy_at(s, i).unwrap().0.end == copy_at(s, i).unwrap().1,
        i < copy_at(s, i).unwrap().0.end,
        ends_statement(s, copy_at(s, i).unwrap().0.end),
{
    lemma_copy_at_bounds(s, i);
    let copy = keyword(s, i, "copy"@);
    let name = table_name_at(s, copy.unwrap());
    let open = open_paren(s, name.unwrap().1);
    let columns = names_at(s, open.unwrap());
    let from = keyword(s, skip(s, columns.unwrap().1), "from"@);
    let source = value_at(s, from.unwrap());
    lemma_value_at_bounds(s, from.unwrap());
    lemma_skip_bounds(s, source.unwrap().1);
}

/// Every bulk copy among the statements read from `i` on records the end of
/// its own text.
pub proof fn lemma_copies_record_their_ends(s: Seq<u8>, i: int)
    requires
        0 <= i <= s.len(),
        statements_from(s, i) is Ok,
    ensures
        forall|k: int|
            #![trigger statements_from(s, i)->Ok_0[k]]
            0 <= k < statements_from(s, i)->Ok_0.len() ==> match statements_from(s, i)->Ok_0[k] {
                Some(StatementView::Copy(c)) => i < c.end && ends_statement(s, c.end),
                _ => true,
            },
    decreases s.len() - i,
{
    lemma_skip_bounds(s, i);
    let j = skip(s, i);
    if j < s.len() {
        lemma_statement_at_bounds(s, j);
        let (statement, n) = statement_at(s, j).unwrap();
        lemma_copies_record_their_ends(s, n);
        let rest = statements_from(s, n)->Ok_0;
        let all = statements_from(s, i)->Ok_0;
        assert(all == seq![statement] + rest);
        if create_table_at(s, j) is None && copy_at(s, j) is Some {
            lemma_copy_records_its_end(s, j);
        }
        assert forall|k: int| 0 <= k < all.len() implies match #[trigger] all[k] {
            Some(StatementView::Copy(c)) => i < c.end && ends_statement(s, c.end),
            _ => true,
        } by {
            if k > 0 {
                assert(all[k] == rest[k - 1]);
            }
        }
    }
}

/// In a dump that was read, every bulk copy records the end of its own text:
/// the position after its semicolon, where its rows start on the next line.
pub proof fn lemma_dump_copies_record_their_ends(s: Seq<u8>)
    requires
        dump_of(s) is Ok,
    ensures
        forall|k: int|
            #![trigger dump_of(s)->Ok_0[k]]
            0 <= k < dump_of(s)->Ok_0.len() ==> match dump_of(s)->Ok_0[k] {
                StatementView::Copy(c) => ends_statement(s, c.end),
                StatementView::CreateTable(_) => true,
            },
{
    let all = statements_from(s, 0)->Ok_0;
    lemma_copies_record_their_ends(s, 0);
    assert forall|k: int| 0 <= k < dump_of(s)->Ok_0.len() implies match #[trigger] dump_of(
        s,
    )->Ok_0[k] {
        StatementView::Copy(c) => ends_statement(s, c.end),
        StatementView::CreateTable(_) => true,
    } by {
        let kept = supported(all)[k];
        assert(supported(all).contains(kept));
        all.lemma_filter_map_contains(|statement: Option<StatementView>| statement, kept);
        let st = Some(kept);
        assert(all.contains(st));
        let j = choose|j: int| 0 <= j < all.len() && all[j] == st;
        assert(all[j] == st);
    }
}

} // verus!
