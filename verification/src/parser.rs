//! The executable reader of dumps. Each function reads what the grammar's
//! function of the matching name defines, at a byte position of the text.

use vstd::prelude::*;
use vstd::string::*;
use vstd::utf8::*;
use crate::grammar::{
    column_at, column_type_of, columns_at, copy_at, create_table_at, dump_of, names_at,
    rest_end, skip, spells, statement_at, statements_from, supported, COMMA, DASH, DQUOTE, LF,
    LPAREN, RPAREN, SEMICOLON, SQUOTE,
};
use crate::lexer::{
    lemma_skip_boundary, match_keyword, match_open_paren, match_statement_end,
    names_stdin, parse_table_def, parse_value, scan_to_byte, scan_word, pass_rows, skip_blanks,
    spells_word,
};
use crate::model::{
    Column, ColumnType, CopyTable, CreateTable, ImportError, Statement, StatementView,
};
use crate::text::lemma_boundary_after_ascii;

verus! {

broadcast use {vstd::utf8::group_utf8_lib, vstd::seq::group_seq_axioms};

/// The storage class for the type word that the bytes from `from` up to `to`
/// hold.
pub(crate) fn map_type_word(bytes: &[u8], from: usize, to: usize) -> (r: ColumnType)
    requires
        from <= to <= bytes@.len(),
    ensures
        r == column_type_of(bytes@.subrange(from as int, to as int)),
{
    proof {
        reveal_strlit("integer");
        reveal_strlit("boolean");
        reveal_strlit("double");
        reveal_strlit("text");
    }
    if spells_word(bytes, from, to, "integer") {
        ColumnType::Integer
    } else if spells_word(bytes, from, to, "boolean") {
        ColumnType::Boolean
    } else if spells_word(bytes, from, to, "double") {
        ColumnType::Real
    } else if spells_word(bytes, from, to, "text") {
        ColumnType::Text
    } else {
        ColumnType::Unknown
    }
}

impl ColumnType {
    /// The storage class for a source type, given as a word. The match ignores
    /// case; a word that is not known gives `Unknown`.
    pub fn from_type_word(word: &str) -> (r: ColumnType)
        ensures
            r == column_type_of(word.spec_bytes()),
            !(spells(word.spec_bytes(), "integer"@) || spells(word.spec_bytes(), "boolean"@)
                || spells(word.spec_bytes(), "double"@) || spells(word.spec_bytes(), "text"@))
                ==> r == ColumnType::Unknown,
    {
        let bytes = word.as_bytes();
        assert(bytes@.subrange(0, bytes@.len() as int) =~= bytes@);
        map_type_word(bytes, 0, bytes.len())
    }
}

/// Scans over what follows the type of a column.
pub(crate) fn scan_rest(bytes: &[u8], from: usize) -> (r: usize)
    requires
        from <= bytes@.len(),
    ensures
        r == rest_end(bytes@, from as int, 0),
        from <= r <= bytes@.len(),
{
    let mut k = from;
    let mut depth: usize = 0;
    loop
        invariant
            from <= k <= bytes@.len(),
            depth <= k - from,
            rest_end(bytes@, from as int, 0) == rest_end(bytes@, k as int, depth as nat),
        ensures
            from <= k <= bytes@.len(),
            rest_end(bytes@, from as int, 0) == k,
        decreases bytes@.len() - k,
    {
        if k >= bytes.len() {
            break ;
        }
        let b = bytes[k];
        if b == SEMICOLON {
            break ;
        } else if depth == 0 && (b == COMMA || b == RPAREN) {
            break ;
        } else if b == LPAREN {
            depth += 1;
            k += 1;
        } else if b == RPAREN {
            depth -= 1;
            k += 1;
        } else if b == SQUOTE || b == DQUOTE {
            let e = scan_to_byte(bytes, b, k + 1);
            if e < bytes.len() {
                k = e + 1;
            } else {
                k = e;
                break ;
            }
        } else if bytes.len() - k >= 2 && b == DASH && bytes[k + 1] == DASH {
            k = scan_to_byte(bytes, LF, k + 2);
        } else {
            k += 1;
        }
    }
    k
}

/// Reads the column definition at `from`; the position handed out is where
/// the definition ends.
pub(crate) fn parse_column_def(input: &str, from: usize) -> (r: Option<(Column, usize)>)
    requires
        from <= input.spec_bytes().len(),
        is_char_boundary(input.spec_bytes(), from as int),
    ensures
        match r {
            Some((c, n)) => column_at(input.spec_bytes(), from as int) == Some((c@, n as int))
                && from < n <= input.spec_bytes().len(),
            None => column_at(input.spec_bytes(), from as int) is None,
        },
{
    let bytes = input.as_bytes();
    match parse_value(input, from) {
        None => None,
        Some((name, n)) => {
            let t = skip_blanks(bytes, n);
            let e = scan_word(bytes, t);
            if t < e {
                let dtype = map_type_word(bytes, t, e);
                let r = scan_rest(bytes, e);
                Some((Column { name, dtype }, r))
            } else {
                None
            }
        },
    }
}

/// `head` put in front of the sequence in `tail`.
spec fn prepend<T>(head: Seq<T>, tail: Option<(Seq<T>, int)>) -> Option<(Seq<T>, int)> {
    match tail {
        Some((rest, n)) => Some((head + rest, n)),
        None => None,
    }
}

/// Reads the column definitions from `from` to the parenthesis that closes
/// them.
pub(crate) fn parse_column_defs(input: &str, from: usize) -> (r: Option<(Vec<Column>, usize)>)
    requires
        from <= input.spec_bytes().len(),
        is_char_boundary(input.spec_bytes(), from as int),
    ensures
        match r {
            Some((v, n)) => columns_at(input.spec_bytes(), from as int) == Some(
                (v.deep_view(), n as int),
            ) && from < n <= input.spec_bytes().len(),
            None => columns_at(input.spec_bytes(), from as int) is None,
        },
{
    let bytes = input.as_bytes();
    let ghost s = input.spec_bytes();
    let mut columns: Vec<Column> = Vec::new();
    let mut at = from;
    loop
        invariant
            bytes@ == s,
            s == input.spec_bytes(),
            from <= at <= s.len(),
            is_char_boundary(s, at as int),
            columns_at(s, from as int) == prepend(columns.deep_view(), columns_at(s, at as int)),
        decreases s.len() - at,
    {
        match parse_column_def(input, at) {
            None => {
                return None;
            },
            Some((column, r)) => {
                let ghost done = columns.deep_view();
                let ghost c = column@;
                columns.push(column);
                assert(columns.deep_view() =~= done + seq![c]);
                if r < bytes.len() && bytes[r] == RPAREN {
                    return Some((columns, r + 1));
                } else if r < bytes.len() && bytes[r] == COMMA {
                    let next = skip_blanks(bytes, r + 1);
                    proof {
                        lemma_boundary_after_ascii(s, r as int);
                        lemma_skip_boundary(s, r + 1);
                        let tail = columns_at(s, next as int);
                        if let Some((rest, n)) = tail {
                            assert(done + (seq![c] + rest) =~= (done + seq![c]) + rest);
                        }
                    }
                    at = next;
                } else {
                    return None;
                }
            },
        }
    }
}

/// Reads the column names from `from` to the parenthesis that closes them.
pub(crate) fn parse_column_names(input: &str, from: usize) -> (r: Option<(Vec<String>, usize)>)
    requires
        from <= input.spec_bytes().len(),
        is_char_boundary(input.spec_bytes(), from as int),
    ensures
        match r {
            Some((v, n)) => names_at(input.spec_bytes(), from as int) == Some(
                (v.deep_view(), n as int),
            ) && from < n <= input.spec_bytes().len(),
            None => names_at(input.spec_bytes(), from as int) is None,
        },
{
    let bytes = input.as_bytes();
    let ghost s = input.spec_bytes();
    let mut names: Vec<String> = Vec::new();
    let mut at = from;
    loop
        invariant
            bytes@ == s,
            s == input.spec_bytes(),
            from <= at <= s.len(),
            is_char_boundary(s, at as int),
            names_at(s, from as int) == prepend(names.deep_view(), names_at(s, at as int)),
        decreases s.len() - at,
    {
        match parse_value(input, at) {
            None => {
                return None;
            },
            Some((name, n)) => {
                let ghost done = names.deep_view();
                let ghost c = name@;
                names.push(name);
                assert(names.deep_view() =~= done + seq![c]);
                let j = skip_blanks(bytes, n);
                if j < bytes.len() && bytes[j] == RPAREN {
                    return Some((names, j + 1));
                } else if j < bytes.len() && bytes[j] == COMMA {
                    let next = skip_blanks(bytes, j + 1);
                    proof {
                        lemma_boundary_after_ascii(s, j as int);
                        lemma_skip_boundary(s, j + 1);
                        let tail = names_at(s, next as int);
                        if let Some((rest, m)) = tail {
                            assert(done + (seq![c] + rest) =~= (done + seq![c]) + rest);
                        }
                    }
                    at = next;
                } else {
                    return None;
                }
            },
        }
    }
}

/// Reads the table definition that starts at `from`.
pub(crate) fn parse_create_table_stmt(input: &str, from: usize) -> (r: Option<(CreateTable, usize)>)
    requires
        from <= input.spec_bytes().len(),
    ensures
        match r {
            Some((t, n)) => create_table_at(input.spec_bytes(), from as int) == Some(
                (t@, n as int),
            ) && from < n <= input.spec_bytes().len() && is_char_boundary(
                input.spec_bytes(),
                n as int,
            ),
            None => create_table_at(input.spec_bytes(), from as int) is None,
        },
{
    let bytes = input.as_bytes();
    proof {
        reveal_strlit("create");
        reveal_strlit("table");
    }
    let create = match match_keyword(bytes, from, "create") {
        Some(n) => n,
        None => {
            return None;
        },
    };
    let table = match match_keyword(bytes, create, "table") {
        Some(n) => n,
        None => {
            return None;
        },
    };
    let (name, after_name) = match parse_table_def(input, table) {
        Some(found) => found,
        None => {
            return None;
        },
    };
    let open = match match_open_paren(bytes, after_name) {
        Some(n) => n,
        None => {
            return None;
        },
    };
    let (columns, after_columns) = match parse_column_defs(input, open) {
        Some(found) => found,
        None => {
            return None;
        },
    };
    let end = match match_statement_end(bytes, after_columns) {
        Some(n) => n,
        None => {
            return None;
        },
    };
    Some((CreateTable { name, columns }, end))
}

/// Reads the bulk-copy declaration that starts at `from`.
pub(crate) fn parse_copy_stmt(input: &str, from: usize) -> (r: Option<(CopyTable, usize)>)
    requires
        from <= input.spec_bytes().len(),
    ensures
        match r {
            Some((c, n)) => copy_at(input.spec_bytes(), from as int) == Some((c@, n as int))
                && from < n <= input.spec_bytes().len() && c.end == n && is_char_boundary(
                input.spec_bytes(),
                n as int,
            ),
            None => copy_at(input.spec_bytes(), from as int) is None,
        },
{
    let bytes = input.as_bytes();
    proof {
        reveal_strlit("copy");
        reveal_strlit("from");
    }
    let copy = match match_keyword(bytes, from, "copy") {
        Some(n) => n,
        None => {
            return None;
        },
    };
    let (name, after_name) = match parse_table_def(input, copy) {
        Some(found) => found,
        None => {
            return None;
        },
    };
    let open = match match_open_paren(bytes, after_name) {
        Some(n) => n,
        None => {
            return None;
        },
    };
    let (columns, after_columns) = match parse_column_names(input, open) {
        Some(found) => found,
        None => {
            return None;
        },
    };
    let from_word = skip_blanks(bytes, after_columns);
    let source_at = match match_keyword(bytes, from_word, "from") {
        Some(n) => n,
        None => {
            return None;
        },
    };
    let (source, after_source) = match parse_value(input, source_at) {
        Some(found) => found,
        None => {
            return None;
        },
    };
    let end = match match_statement_end(bytes, after_source) {
        Some(n) => n,
        None => {
            return None;
        },
    };
    Some((CopyTable { name, columns, from: source, end }, end))
}

/// Reads the statement that starts at `from`. `None` says that no statement
/// starts there; `Some` holds the statement, or `None` for one of no interest,
/// and the position after it.
pub fn parse_stmt_at(input: &str, from: usize) -> (r: Option<(Option<Statement>, usize)>)
    ensures
        match r {
            Some((st, n)) => statement_at(input.spec_bytes(), from as int) == Some(
                (st.deep_view(), n as int),
            ) && from < n <= input.spec_bytes().len() && is_char_boundary(
                input.spec_bytes(),
                n as int,
            ),
            None => statement_at(input.spec_bytes(), from as int) is None,
        },
{
    let bytes = input.as_bytes();
    let ghost s = input.spec_bytes();
    if from > bytes.len() {
        return None;
    }
    if let Some((table, n)) = parse_create_table_stmt(input, from) {
        return Some((Some(Statement::CreateTable(table)), n));
    }
    if let Some((copy, n)) = parse_copy_stmt(input, from) {
        let next = if names_stdin(copy.from.as_str()) {
            pass_rows(bytes, n)
        } else {
            n
        };
        return Some((Some(Statement::Copy(copy)), next));
    }
    let e = scan_to_byte(bytes, SEMICOLON, from);
    if e < bytes.len() {
        proof {
            lemma_boundary_after_ascii(s, e as int);
        }
        Some((None, e + 1))
    } else {
        None
    }
}

/// Reads the first statement of `input`: `Ok(Some(..))` for a table
/// definition or a bulk-copy declaration, `Ok(None)` for a statement of no
/// interest. `input` must start with a statement, after blanks and comments.
pub fn parse_stmt(input: &str) -> (r: Result<Option<Statement>, ImportError>)
    ensures
        match r {
            Ok(st) => {
                let found = statement_at(input.spec_bytes(), skip(input.spec_bytes(), 0));
                found is Some && found.unwrap().0 == st.deep_view()
            },
            Err(e) => e == (ImportError::Grammar {
                offset: skip(input.spec_bytes(), 0) as usize,
            }) && statement_at(input.spec_bytes(), skip(input.spec_bytes(), 0)) is None,
        },
{
    let bytes = input.as_bytes();
    let start = skip_blanks(bytes, 0);
    match parse_stmt_at(input, start) {
        Some((st, _)) => Ok(st),
        None => Err(ImportError::Grammar { offset: start }),
    }
}

/// `head` put in front of the statements in `tail`.
spec fn after<T>(head: Seq<T>, tail: Result<Seq<T>, int>) -> Result<Seq<T>, int> {
    match tail {
        Ok(rest) => Ok(head + rest),
        Err(e) => Err(e),
    }
}

/// Reads all statements of a dump, in the order of the text: each table
/// definition and bulk-copy declaration as it is, and `None` for each
/// statement of no interest. Comments and the rows that follow a bulk copy
/// from `stdin` are passed over. Text that is no statement makes the whole
/// reading fail, with the byte offset of that text.
pub fn parse_statements(input: &str) -> (r: Result<Vec<Option<Statement>>, ImportError>)
    ensures
        match r {
            Ok(v) => statements_from(input.spec_bytes(), 0) == Ok::<
                Seq<Option<StatementView>>,
                int,
            >(v.deep_view()),
            Err(e) => e matches ImportError::Grammar { offset } && statements_from(
                input.spec_bytes(),
                0,
            ) == Err::<Seq<Option<StatementView>>, int>(offset as int),
        },
{
    let bytes = input.as_bytes();
    let ghost s = input.spec_bytes();
    let mut all: Vec<Option<Statement>> = Vec::new();
    let mut at: usize = 0;
    loop
        invariant
            bytes@ == s,
            s == input.spec_bytes(),
            at <= s.len(),
            statements_from(s, 0) == after(all.deep_view(), statements_from(s, at as int)),
        decreases s.len() - at,
    {
        let start = skip_blanks(bytes, at);
        if start >= bytes.len() {
            assert(all.deep_view() + Seq::<Option<StatementView>>::empty() =~= all.deep_view());
            return Ok(all);
        }
        match parse_stmt_at(input, start) {
            None => {
                return Err(ImportError::Grammar { offset: start });
            },
            Some((st, n)) => {
                let ghost item = st.deep_view();
                let ghost before = all.deep_view();
                all.push(st);
                proof {
                    assert(all.deep_view() =~= before.push(item));
                    if let Ok(rest) = statements_from(s, n as int) {
                        assert(before + (seq![item] + rest) =~= before.push(item) + rest);
                    }
                }
                at = n;
            },
        }
    }
}

/// Drops the statements of no interest and keeps the others in their order.
pub fn keep_supported(all: Vec<Option<Statement>>) -> (r: Vec<Statement>)
    ensures
        r.deep_view() == supported(all.deep_view()),
{
    let ghost items = all.deep_view();
    let ghost given = all@;
    let mut kept: Vec<Statement> = Vec::new();
    for item in it: all.into_iter()
        invariant
            it.seq() == given,
            items.len() == given.len(),
            forall|k: int| 0 <= k < given.len() ==> items[k] == #[trigger] given[k].deep_view(),
            kept.deep_view() == supported(items.take(it.index())),
    {
        let ghost before = kept.deep_view();
        proof {
            items.lemma_filter_map_take_succ(
                |statement: Option<StatementView>| statement,
                it.index(),
            );
            assert(items[it.index()] == item.deep_view());
        }
        match item {
            Some(statement) => {
                kept.push(statement);
                assert(kept.deep_view() =~= before + seq![items[it.index()].unwrap()]);
            },
            None => {
                assert(before + Seq::<StatementView>::empty() =~= before);
            },
        }
    }
    assert(items.take(items.len() as int) =~= items);
    kept
}

/// Reads a whole dump: its table definitions and bulk-copy declarations, in
/// the order of the text. Statements of no interest, comments and the rows
/// that follow a bulk copy from `stdin` are passed over. Text that is no
/// statement makes the whole reading fail, with the byte offset of that text.
pub fn parse_dump(input: &str) -> (r: Result<Vec<Statement>, ImportError>)
    ensures
        match r {
            Ok(v) => dump_of(input.spec_bytes()) == Ok::<Seq<StatementView>, int>(v.deep_view()),
            Err(e) => e matches ImportError::Grammar { offset } && dump_of(input.spec_bytes())
                == Err::<Seq<StatementView>, int>(offset as int),
        },
{
    match parse_statements(input) {
        Ok(all) => Ok(keep_supported(all)),
        Err(e) => Err(e),
    }
}

} // verus!
