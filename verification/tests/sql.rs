use pgdump2sqlite::model::{Column, ColumnType, CopyTable, CreateTable, Statement};
use pgdump2sqlite::parser::parse_dump;
use pgdump2sqlite::sql::{bracket, copy_to_sql, create_table_to_sql, stmt_to_sql};

fn column(name: &str, dtype: ColumnType) -> Column {
    Column { name: name.to_string(), dtype }
}

fn copy(name: &str, columns: &[&str]) -> CopyTable {
    CopyTable {
        name: name.to_string(),
        columns: columns.iter().map(|c| c.to_string()).collect(),
        from: "stdin".to_string(),
        end: 0,
    }
}

#[test]
fn storage_types() {
    assert_eq!(ColumnType::Integer.to_sqlite_type(), "integer");
    assert_eq!(ColumnType::Text.to_sqlite_type(), "text");
    assert_eq!(ColumnType::Boolean.to_sqlite_type(), "integer");
    assert_eq!(ColumnType::Real.to_sqlite_type(), "real");
    assert_eq!(ColumnType::Unknown.to_sqlite_type(), "");
}

#[test]
fn names_get_brackets() {
    assert_eq!(bracket("order"), "[order]");
    assert_eq!(bracket(""), "[]");
    assert_eq!(bracket("my table"), "[my table]");
}

#[test]
fn create_table_command() {
    let table = CreateTable {
        name: "t".to_string(),
        columns: vec![
            column("a", ColumnType::Integer),
            column("b", ColumnType::Text),
            column("c", ColumnType::Boolean),
            column("d", ColumnType::Real),
        ],
    };
    assert_eq!(
        create_table_to_sql(&table),
        "create table [t] ( [a] integer, [b] text, [c] integer, [d] real )"
    );
    assert_eq!(
        stmt_to_sql(&Statement::CreateTable(table)),
        Ok("create table [t] ( [a] integer, [b] text, [c] integer, [d] real )".to_string())
    );
}

#[test]
fn create_table_command_with_unknown_type() {
    let table = CreateTable {
        name: "select".to_string(),
        columns: vec![column("from", ColumnType::Unknown)],
    };
    assert_eq!(create_table_to_sql(&table), "create table [select] ( [from]  )");
}

#[test]
fn insert_command_has_one_placeholder_per_column() {
    let three = copy("t", &["a", "b", "c"]);
    assert_eq!(
        copy_to_sql(&three),
        "insert into [t] ( [a], [b], [c] ) values ( ?, ?, ? )"
    );
    assert_eq!(
        stmt_to_sql(&Statement::Copy(three)),
        Ok("insert into [t] ( [a], [b], [c] ) values ( ?, ?, ? )".to_string())
    );
    let one = copy("t", &["a"]);
    assert_eq!(copy_to_sql(&one), "insert into [t] ( [a] ) values ( ? )");
    for n in 0..20 {
        let names: Vec<String> = (0..n).map(|i| format!("c{i}")).collect();
        let refs: Vec<&str> = names.iter().map(|s| s.as_str()).collect();
        let sql = copy_to_sql(&copy("t", &refs));
        assert_eq!(sql.matches('?').count(), n);
        assert_eq!(sql.matches('[').count(), n + 1);
        assert_eq!(sql.matches(']').count(), n + 1);
    }
}

#[test]
fn insert_command_without_columns() {
    assert_eq!(copy_to_sql(&copy("t", &[])), "insert into [t] (  ) values (  )");
}

#[test]
fn commands_for_a_parsed_dump() {
    let stmts = parse_dump(
        "CREATE TABLE public.\"user\" (id integer NOT NULL, \"group\" text);\nCOPY public.\"user\" (id, \"group\") FROM stdin;\n\\.\n",
    )
    .expect("parse failed");
    assert_eq!(
        stmt_to_sql(&stmts[0]),
        Ok("create table [user] ( [id] integer, [group] text )".to_string())
    );
    assert_eq!(
        stmt_to_sql(&stmts[1]),
        Ok("insert into [user] ( [id], [group] ) values ( ?, ? )".to_string())
    );
}

#[test]
fn type_words() {
    assert_eq!(ColumnType::from_type_word("integer"), ColumnType::Integer);
    assert_eq!(ColumnType::from_type_word("boolean"), ColumnType::Boolean);
    assert_eq!(ColumnType::from_type_word("double"), ColumnType::Real);
    assert_eq!(ColumnType::from_type_word("text"), ColumnType::Text);
    assert_eq!(ColumnType::from_type_word("INTEGER"), ColumnType::Integer);
    assert_eq!(ColumnType::from_type_word("Boolean"), ColumnType::Boolean);
    assert_eq!(ColumnType::from_type_word("dOuBlE"), ColumnType::Real);
    assert_eq!(ColumnType::from_type_word("TEXT"), ColumnType::Text);
}

#[test]
fn unknown_type_words() {
    for word in [
        "", "int", "integers", "integer ", " text", "bool", "timestamp", "real", "float",
        "varchar", "public.session_turn_enum", "text[]", "tëxt", "ınteger", "te\u{212a}t",
    ] {
        assert_eq!(ColumnType::from_type_word(word), ColumnType::Unknown, "{word:?}");
    }
}

#[test]
fn type_word_gives_the_same_type_each_time() {
    for word in ["integer", "Text", "money", ""] {
        assert_eq!(ColumnType::from_type_word(word), ColumnType::from_type_word(word));
    }
}
