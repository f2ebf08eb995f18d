//! Rendering of statements as commands for the destination store.
//!
//! Every table and column name is put between square brackets, so that a name
//! that is a reserved word of the store does no harm.

use itertools::Itertools;
use vstd::prelude::*;
use vstd::string::*;
use crate::model::{
    ColumnType, ColumnView, CopyTable, CopyTableView, CreateTable, CreateTableView, ImportError,
    Statement, StatementView,
};

verus! {

broadcast use {vstd::seq::group_seq_axioms, vstd::string::group_string_axioms};

/// The store's name for a storage class. Booleans are kept as integers; a
/// column of unknown type is declared without a type, and so keeps text as it
/// is.
pub open spec fn sqlite_type(t: ColumnType) -> Seq<char> {
    match t {
        ColumnType::Integer => "integer"@,
        ColumnType::Text => "text"@,
        ColumnType::Boolean => "integer"@,
        ColumnType::Real => "real"@,
        ColumnType::Unknown => ""@,
    }
}

/// A name between square brackets.
pub open spec fn bracketed(name: Seq<char>) -> Seq<char> {
    "["@ + name + "]"@
}

/// `parts` one after the other, with `sep` between each two.
pub open spec fn joined(parts: Seq<Seq<char>>, sep: Seq<char>) -> Seq<char>
    decreases parts.len(),
{
    if parts.len() == 0 {
        Seq::empty()
    } else if parts.len() == 1 {
        parts[0]
    } else {
        joined(parts.drop_last(), sep) + sep + parts.last()
    }
}

/// A column as it stands in a create-table command: its bracketed name, a
/// space and its type.
pub open spec fn column_sql(c: ColumnView) -> Seq<char> {
    bracketed(c.name) + " "@ + sqlite_type(c.dtype)
}

/// The columns of a table definition, each as it stands in the command.
pub open spec fn column_sqls(columns: Seq<ColumnView>) -> Seq<Seq<char>> {
    Seq::new(columns.len(), |i: int| column_sql(columns[i]))
}

/// The names of a bulk copy, each between brackets.
pub open spec fn bracketed_names(names: Seq<Seq<char>>) -> Seq<Seq<char>> {
    Seq::new(names.len(), |i: int| bracketed(names[i]))
}

/// `n` question marks, separated by a comma and a space.
pub open spec fn placeholders(n: nat) -> Seq<char> {
    joined(Seq::new(n, |i: int| "?"@), ", "@)
}

/// The create-table command for a table definition.
pub open spec fn create_table_sql(t: CreateTableView) -> Seq<char> {
    "create table "@ + bracketed(t.name) + " ( "@ + joined(column_sqls(t.columns), ", "@) + " )"@
}

/// The insert command for a bulk copy: one placeholder for each column, in the
/// order of the columns.
pub open spec fn insert_sql(c: CopyTableView) -> Seq<char> {
    "insert into "@ + bracketed(c.name) + " ( "@ + joined(bracketed_names(c.columns), ", "@)
        + " ) values ( "@ + placeholders(c.columns.len()) + " )"@
}

/// The command for a statement.
pub open spec fn statement_sql(st: StatementView) -> Seq<char> {
    match st {
        StatementView::CreateTable(t) => create_table_sql(t),
        StatementView::Copy(c) => insert_sql(c),
    }
}

/// `itertools::Itertools::join` on the strings of `parts`: the strings in
/// order, with `sep` between each two, and the empty string for no strings.
/// This contract is taken on trust from the source of `join`. Before it
/// writes, `join` reserves the separator's length times the number of strings
/// that follow the first. A string takes three words, so a vector holds fewer
/// than `isize::MAX / 12` of them, and with a separator of at most 12 bytes
/// that product is a size that can be reserved.
#[verifier::external_body]
fn join_strings(parts: &Vec<String>, sep: &str) -> (r: String)
    requires
        sep.spec_bytes().len() <= 12,
    ensures
        r@ == joined(parts.deep_view(), sep@),
{
    parts.iter().join(sep)
}

impl ColumnType {
    /// The store's name for this storage class.
    pub fn to_sqlite_type(&self) -> (r: &'static str)
        ensures
            r@ == sqlite_type(*self),
    {
        match self {
            ColumnType::Integer => "integer",
            ColumnType::Text => "text",
            ColumnType::Boolean => "integer",
            ColumnType::Real => "real",
            ColumnType::Unknown => "",
        }
    }
}

/// Puts `name` between square brackets.
pub fn bracket(name: &str) -> (r: String)
    ensures
        r@ == bracketed(name@),
{
    let mut out = String::new();
    out.append("[");
    out.append(name);
    out.append("]");
    assert(out@ =~= bracketed(name@));
    out
}

/// Joins `parts` with a comma and a space.
fn comma_separated(parts: &Vec<String>) -> (r: String)
    ensures
        r@ == joined(parts.deep_view(), ", "@),
{
    proof {
        reveal_strlit(", ");
        assert(is_ascii(", "));
    }
    join_strings(parts, ", ")
}

/// Renders the create-table command for `table`.
pub fn create_table_to_sql(table: &CreateTable) -> (r: String)
    ensures
        r@ == create_table_sql(table@),
{
    let mut parts: Vec<String> = Vec::new();
    let mut i: usize = 0;
    while i < table.columns.len()
        invariant
            0 <= i <= table.columns@.len(),
            parts@.len() == i,
            forall|k: int|
                0 <= k < i ==> (#[trigger] parts@[k])@ == column_sql(table.columns@[k]@),
        decreases table.columns@.len() - i,
    {
        let column = &table.columns[i];
        let mut part = bracket(column.name.as_str());
        part.append(" ");
        part.append(column.dtype.to_sqlite_type());
        parts.push(part);
        i += 1;
    }
    assert(parts.deep_view() =~= column_sqls(table@.columns));
    let list = comma_separated(&parts);
    let mut out = String::new();
    out.append("create table ");
    out.append(bracket(table.name.as_str()).as_str());
    out.append(" ( ");
    out.append(list.as_str());
    out.append(" )");
    assert(out@ =~= create_table_sql(table@));
    out
}

/// Renders the insert command for `copy`.
pub fn copy_to_sql(copy: &CopyTable) -> (r: String)
    ensures
        r@ == insert_sql(copy@),
{
    let mut names: Vec<String> = Vec::new();
    let mut marks: Vec<String> = Vec::new();
    let mut i: usize = 0;
    while i < copy.columns.len()
        invariant
            0 <= i <= copy.columns@.len(),
            names@.len() == i,
            marks@.len() == i,
            forall|k: int| 0 <= k < i ==> (#[trigger] names@[k])@ == bracketed(copy.columns@[k]@),
            forall|k: int| 0 <= k < i ==> (#[trigger] marks@[k])@ == "?"@,
        decreases copy.columns@.len() - i,
    {
        names.push(bracket(copy.columns[i].as_str()));
        marks.push("?".to_owned());
        i += 1;
    }
    assert(names.deep_view() =~= bracketed_names(copy@.columns));
    assert(marks.deep_view() =~= Seq::new(copy@.columns.len(), |i: int| "?"@));
    let name_list = comma_separated(&names);
    let mark_list = comma_separated(&marks);
    let mut out = String::new();
    out.append("insert into ");
    out.append(bracket(copy.name.as_str()).as_str());
    out.append(" ( ");
    out.append(name_list.as_str());
    out.append(" ) values ( ");
    out.append(mark_list.as_str());
    out.append(" )");
    assert(out@ =~= insert_sql(copy@));
    out
}

/// Renders the command for a statement: the create-table command for a table
/// definition, the insert command for a bulk copy. It never fails.
pub fn stmt_to_sql(stmt: &Statement) -> (r: Result<String, ImportError>)
    ensures
        r is Ok,
        r.unwrap()@ == statement_sql(stmt@),
{
    match stmt {
        Statement::CreateTable(table) => Ok(create_table_to_sql(table)),
        Statement::Copy(copy) => Ok(copy_to_sql(copy)),
    }
}

/// How often the character `c` stands in `text`.
pub open spec fn occurrences(text: Seq<char>, c: char) -> nat
    decreases text.len(),
{
    if text.len() == 0 {
        0
    } else if text.last() == c {
        occurrences(text.drop_last(), c) + 1
    } else {
        occurrences(text.drop_last(), c)
    }
}

proof fn lemma_occurrences_add(a: Seq<char>, b: Seq<char>, c: char)
    ensures
        occurrences(a + b, c) == occurrences(a, c) + occurrences(b, c),
    decreases b.len(),
{
    if b.len() == 0 {
        assert(a + b =~= a);
    } else {
        assert((a + b).drop_last() =~= a + b.drop_last());
        lemma_occurrences_add(a, b.drop_last(), c);
    }
}

/// A name is always put between the two brackets, unchanged.
pub proof fn lemma_bracketed_wraps(name: Seq<char>)
    ensures
        bracketed(name).len() == name.len() + 2,
        bracketed(name).first() == '[',
        bracketed(name).last() == ']',
        bracketed(name).subrange(1, name.len() as int + 1) == name,
{
    reveal_strlit("[");
    reveal_strlit("]");
    assert(bracketed(name).subrange(1, name.len() as int + 1) =~= name);
}

/// The placeholders for `n` columns hold exactly `n` question marks.
pub proof fn lemma_placeholders_count(n: nat)
    ensures
        occurrences(placeholders(n), '?') == n,
    decreases n,
{
    reveal_strlit("?");
    reveal_strlit(", ");
    let marks = Seq::new(n, |i: int| "?"@);
    let none = Seq::<char>::empty();
    assert(occurrences(none, '?') == 0);
    assert(occurrences("?"@, '?') == 1) by {
        assert("?"@.last() == '?');
        assert("?"@.drop_last() =~= none);
    }
    assert(occurrences(", "@, '?') == 0) by {
        let space = ", "@.drop_last();
        assert(", "@.last() == ' ');
        assert(space.last() == ',');
        assert(space.drop_last() =~= none);
        assert(occurrences(space, '?') == 0);
    }
    if n == 0 {
    } else if n == 1 {
    } else {
        let fewer = Seq::new((n - 1) as nat, |i: int| "?"@);
        assert(marks.drop_last() =~= fewer);
        lemma_placeholders_count((n - 1) as nat);
        lemma_occurrences_add(placeholders((n - 1) as nat), ", "@, '?');
        lemma_occurrences_add(placeholders((n - 1) as nat) + ", "@, "?"@, '?');
    }
}

/// The insert command of a bulk copy names the table and every column
/// between brackets, in the order of the columns, and holds one placeholder
/// for each column.
pub proof fn lemma_insert_sql_shape(c: CopyTableView)
    ensures
        insert_sql(c) == "insert into "@ + ("["@ + c.name + "]"@) + " ( "@ + joined(
            bracketed_names(c.columns),
            ", "@,
        ) + " ) values ( "@ + placeholders(c.columns.len()) + " )"@,
        bracketed_names(c.columns).len() == c.columns.len(),
        forall|i: int|
            0 <= i < c.columns.len() ==> #[trigger] bracketed_names(c.columns)[i] == "["@
                + c.columns[i] + "]"@,
        occurrences(placeholders(c.columns.len()), '?') == c.columns.len(),
{
    lemma_placeholders_count(c.columns.len());
}

/// The create-table command of a table definition names the table and every
/// column between brackets, each column with its type, in the order of the
/// columns.
pub proof fn lemma_create_table_sql_shape(t: CreateTableView)
    ensures
        create_table_sql(t) == "create table "@ + ("["@ + t.name + "]"@) + " ( "@ + joined(
            column_sqls(t.columns),
            ", "@,
        ) + " )"@,
        column_sqls(t.columns).len() == t.columns.len(),
        forall|i: int|
            0 <= i < t.columns.len() ==> #[trigger] column_sqls(t.columns)[i] == ("["@
                + t.columns[i].name + "]"@) + " "@ + sqlite_type(t.columns[i].dtype),
{
}

} // verus!
