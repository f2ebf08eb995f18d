use pgdump2sqlite::loader::{
    check_copy_batch, copy_script, schema_script, split_statements, StoreOp,
};
use pgdump2sqlite::model::{ImportError, Statement};
use pgdump2sqlite::parser::parse_dump;
use pgdump2sqlite::source::{get_rows_for_copy, DumpContext};

const DUMP: &str = "--\n-- PostgreSQL database dump\n--\n\nSET client_encoding = 'UTF8';\n\n\
CREATE TABLE public.empty_one (\n    id integer NOT NULL,\n    label text\n);\n\n\
ALTER TABLE public.empty_one OWNER TO postgres;\n\n\
CREATE TABLE public.full_one (\n    id integer NOT NULL,\n    \"isOn\" boolean,\n    note text\n);\n\n\
COPY public.empty_one (id, label) FROM stdin;\n\\.\n\n\
COPY public.full_one (id, \"isOn\", note) FROM stdin;\n1\tt\tfirst\n2\t\\N\t\\N\n\\.\n\n\
SELECT pg_catalog.setval('public.full_one_id_seq', 2, true);\n";

fn run(conn: &rusqlite::Connection, script: &[StoreOp]) -> rusqlite::Result<usize> {
    let mut affected = 0;
    let mut prepared = None;
    for op in script {
        match op {
            StoreOp::Begin => conn.execute_batch("BEGIN")?,
            StoreOp::Execute { sql } => {
                conn.execute(sql, ())?;
            }
            StoreOp::Prepare { sql } => prepared = Some(conn.prepare(sql)?),
            StoreOp::Insert { values } => {
                affected += prepared
                    .as_mut()
                    .expect("a prepared command")
                    .execute(rusqlite::params_from_iter(values.iter()))?;
            }
            StoreOp::Commit => {
                prepared = None;
                conn.execute_batch("COMMIT")?;
            }
        }
    }
    Ok(affected)
}

#[test]
fn statements_are_parted_by_kind() {
    let stmts = parse_dump(DUMP).expect("parse failed");
    assert_eq!(stmts.len(), 4);
    let (creates, copies) = split_statements(&stmts);
    assert_eq!(creates.len(), 2);
    assert_eq!(copies.len(), 2);
    assert_eq!(creates.len() + copies.len(), stmts.len());
    assert_eq!(creates[0], &stmts[0]);
    assert_eq!(creates[1], &stmts[1]);
    assert_eq!(copies[0], &stmts[2]);
    assert_eq!(copies[1], &stmts[3]);
    let nothing = vec![];
    let (no_creates, no_copies) = split_statements(&nothing);
    assert!(no_creates.is_empty() && no_copies.is_empty());
}

#[test]
fn schema_script_is_one_transaction() {
    let stmts = parse_dump(DUMP).expect("parse failed");
    let (creates, copies) = split_statements(&stmts);
    assert_eq!(
        schema_script(&creates),
        Ok(vec![
            StoreOp::Begin,
            StoreOp::Execute {
                sql: "create table [empty_one] ( [id] integer, [label] text )".to_string()
            },
            StoreOp::Execute {
                sql: "create table [full_one] ( [id] integer, [isOn] integer, [note] text )"
                    .to_string()
            },
            StoreOp::Commit,
        ])
    );
    assert_eq!(schema_script(&vec![]), Ok(vec![StoreOp::Begin, StoreOp::Commit]));
    assert_eq!(schema_script(&copies), Err(ImportError::InvariantViolation));
    let mixed: Vec<&Statement> = vec![&stmts[0], &stmts[2]];
    assert_eq!(schema_script(&mixed), Err(ImportError::InvariantViolation));
}

#[test]
fn copy_batch_holds_copies_only() {
    let stmts = parse_dump(DUMP).expect("parse failed");
    let (creates, copies) = split_statements(&stmts);
    assert_eq!(check_copy_batch(&copies), Ok(()));
    assert_eq!(check_copy_batch(&vec![]), Ok(()));
    assert_eq!(check_copy_batch(&creates), Err(ImportError::InvariantViolation));
    let mixed: Vec<&Statement> = vec![&stmts[3], &stmts[1]];
    assert_eq!(check_copy_batch(&mixed), Err(ImportError::InvariantViolation));
}

#[test]
fn copy_script_is_one_transaction() {
    let stmts = parse_dump(DUMP).expect("parse failed");
    let rows = vec![
        vec![Some("1".to_string()), Some("t".to_string()), Some("first".to_string())],
        vec![Some("2".to_string()), None, None],
    ];
    assert_eq!(
        copy_script(&stmts[3], &rows),
        Ok(vec![
            StoreOp::Begin,
            StoreOp::Prepare {
                sql: "insert into [full_one] ( [id], [isOn], [note] ) values ( ?, ?, ? )"
                    .to_string()
            },
            StoreOp::Insert { values: &rows[0] },
            StoreOp::Insert { values: &rows[1] },
            StoreOp::Commit,
        ])
    );
    let none = vec![];
    assert_eq!(
        copy_script(&stmts[2], &none),
        Ok(vec![
            StoreOp::Begin,
            StoreOp::Prepare {
                sql: "insert into [empty_one] ( [id], [label] ) values ( ?, ? )".to_string()
            },
            StoreOp::Commit,
        ])
    );
    assert_eq!(copy_script(&stmts[0], &rows), Err(ImportError::InvariantViolation));
    assert_eq!(copy_script(&stmts[2], &rows), Err(ImportError::CorruptRow { row: 0 }));
    let short = vec![rows[0].clone(), vec![None, None]];
    assert_eq!(copy_script(&stmts[3], &short), Err(ImportError::CorruptRow { row: 1 }));
}

#[test]
fn kinds_of_dump_by_extension() {
    assert_eq!(
        DumpContext::for_extension("sql", "a.sql".to_string()),
        Some(DumpContext::Plain { sql_filepath: "a.sql".to_string() })
    );
    assert_eq!(
        DumpContext::for_extension("tar", "a.tar".to_string()),
        Some(DumpContext::Tar { tar_filepath: "a.tar".to_string() })
    );
    for other in ["", "SQL", "Tar", "gz", "sql ", "tar.gz", "sq", "sqll"] {
        assert_eq!(DumpContext::for_extension(other, "a".to_string()), None, "{other:?}");
    }
    assert_eq!(DumpContext::statements_entry(), "restore.sql");
}

#[test]
fn two_tables_are_loaded_into_an_empty_store() {
    let context = DumpContext::Plain { sql_filepath: "dump.sql".to_string() };
    let conn = rusqlite::Connection::open_in_memory().expect("an empty store");

    let stmts = parse_dump(DUMP).expect("parse failed");
    let (creates, copies) = split_statements(&stmts);

    let schema = schema_script(&creates).expect("a batch of table definitions");
    assert_eq!(run(&conn, &schema), Ok(0));

    check_copy_batch(&copies).expect("a batch of bulk copies");
    let mut counters = vec![];
    for stmt in copies {
        let rows = get_rows_for_copy(stmt, &context, DUMP).expect("rows");
        let script = copy_script(stmt, &rows).expect("a bulk copy");
        counters.push(run(&conn, &script).expect("inserted rows"));
    }
    assert_eq!(counters, [0, 2]);

    let tables: Vec<String> = conn
        .prepare("select name from sqlite_master where type = 'table' order by name")
        .expect("a query")
        .query_map((), |row| row.get(0))
        .expect("names")
        .map(|name| name.expect("a name"))
        .collect();
    assert_eq!(tables, ["empty_one", "full_one"]);

    let count = |table: &str| -> i64 {
        conn.query_row(&format!("select count(*) from [{table}]"), (), |row| row.get(0))
            .expect("a count")
    };
    assert_eq!(count("empty_one"), 0);
    assert_eq!(count("full_one"), 2);

    let second: (i64, Option<i64>, Option<String>) = conn
        .query_row("select id, isOn, note from full_one where id = 2", (), |row| {
            Ok((row.get(0)?, row.get(1)?, row.get(2)?))
        })
        .expect("the second row");
    assert_eq!(second, (2, None, None));
    let first: (i64, String, String) = conn
        .query_row("select id, isOn, note from full_one where id = 1", (), |row| {
            Ok((row.get(0)?, row.get(1)?, row.get(2)?))
        })
        .expect("the first row");
    assert_eq!(first, (1, "t".to_string(), "first".to_string()));
}

#[test]
fn a_failing_table_definition_leaves_no_table() {
    let conn = rusqlite::Connection::open_in_memory().expect("an empty store");
    let stmts =
        parse_dump("CREATE TABLE a (x integer);\nCREATE TABLE a (y text);\n").expect("parse failed");
    let (creates, _) = split_statements(&stmts);
    let schema = schema_script(&creates).expect("a batch of table definitions");
    assert!(run(&conn, &schema).is_err());
    conn.execute_batch("ROLLBACK").expect("the transaction is rolled back");
    let tables: i64 = conn
        .query_row("select count(*) from sqlite_master", (), |row| row.get(0))
        .expect("a count");
    assert_eq!(tables, 0);
}
