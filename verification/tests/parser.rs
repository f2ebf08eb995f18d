use pgdump2sqlite::model::{ColumnType, ImportError, Statement};
use pgdump2sqlite::parser::{keep_supported, parse_dump, parse_statements, parse_stmt, parse_stmt_at};

#[test]
fn test_parse_create_table() {
    let stmt_in = r#"CREATE TABLE public.session (
id integer NOT NULL,
date timestamp without time zone DEFAULT now() NOT NULL,
turn public.session_turn_enum NOT NULL,
role public.user_role_enum DEFAULT 'other'::public.user_role_enum NOT NULL,
active boolean NOT NULL,
number double,
some_text text,
"userId" integer
);
"#;
    let stmt = parse_stmt(stmt_in).expect("parse failed").expect("statement");

    assert!(matches!(stmt, Statement::CreateTable(_)));

    let create_table = match stmt {
        Statement::CreateTable(ct) => ct,
        Statement::Copy(_) => unreachable!(),
    };

    assert_eq!(create_table.name, "session");

    assert_eq!(
        create_table.columns.iter().map(|x| &x.name).collect::<Vec<_>>(),
        [
            "id",
            "date",
            "turn",
            "role",
            "active",
            "number",
            "some_text",
            "userId"
        ]
    );

    assert_eq!(
        create_table.columns.iter().map(|x| &x.dtype).collect::<Vec<_>>(),
        [
            &ColumnType::Integer,
            &ColumnType::Unknown,
            &ColumnType::Unknown,
            &ColumnType::Unknown,
            &ColumnType::Boolean,
            &ColumnType::Real,
            &ColumnType::Text,
            &ColumnType::Integer
        ]
    );
}

#[test]
fn test_parse_copy() {
    let stmt_in = r#"COPY public.attendance (
    id,
    "checkIn",
    "checkOut",
    active,
    "entryInventoryId",
    "exitInventoryId",
    "userId",
    "cashMachineId",
    "fundsTransferedId"
) FROM '$$PATH$$/3399.dat';
"#;
    let stmt = parse_stmt(stmt_in).expect("parse failed").expect("statement");

    assert!(matches!(stmt, Statement::Copy(_)));

    let copy_table = match stmt {
        Statement::Copy(ct) => ct,
        Statement::CreateTable(_) => unreachable!(),
    };

    assert_eq!(copy_table.name, "attendance");

    assert_eq!(
        copy_table.columns,
        [
            "id",
            "checkIn",
            "checkOut",
            "active",
            "entryInventoryId",
            "exitInventoryId",
            "userId",
            "cashMachineId",
            "fundsTransferedId"
        ]
    );

    assert_eq!(copy_table.from, "$$PATH$$/3399.dat");

    assert!(copy_table.end != 0);
    assert_eq!(copy_table.end, stmt_in.len() - 1);
}

#[test]
fn test_parse_stmt_with_comment() {
    let stmt_in = r#"--
-- NOTE:
--
-- File paths need to be edited. Search for $$PATH$$ and
-- replace it with the path to the directory containing
-- the extracted data files.
--
--
-- PostgreSQL database dump
--

-- Dumped from database version 13.4 (Debian 13.4-1.pgdg100+1)
-- Dumped by pg_dump version 13.4 (Debian 13.4-1.pgdg100+1)


COPY public.attendance (id, "checkIn", "checkOut", active, "entryInventoryId", "exitInventoryId", "userId", "cashMachineId", "fundsTransferedId") FROM stdin;
"#;
    let stmt = parse_dump(stmt_in)
        .expect("parse failed")
        .into_iter()
        .next()
        .expect("statement");

    assert!(matches!(stmt, Statement::Copy(_)));
}

#[test]
fn create_table_without_semicolon() {
    let stmts = parse_dump("CREATE TABLE t (a integer, b text)").expect("parse failed");
    assert_eq!(stmts.len(), 1);
    match &stmts[0] {
        Statement::CreateTable(t) => {
            assert_eq!(t.name, "t");
            assert_eq!(t.columns.len(), 2);
            assert_eq!(t.columns[0].name, "a");
            assert_eq!(t.columns[0].dtype, ColumnType::Integer);
            assert_eq!(t.columns[1].name, "b");
            assert_eq!(t.columns[1].dtype, ColumnType::Text);
        }
        Statement::Copy(_) => panic!("a table definition was expected"),
    }
}

#[test]
fn comments_and_blanks_give_no_statements() {
    assert_eq!(parse_dump("").expect("parse failed"), vec![]);
    assert_eq!(parse_dump(" \n\t\r\n").expect("parse failed"), vec![]);
    assert_eq!(parse_dump("-- only a comment").expect("parse failed"), vec![]);
    assert_eq!(
        parse_dump("--\n-- Name: t; Type: TABLE; Owner: -\n--\n\n").expect("parse failed"),
        vec![]
    );
}

#[test]
fn other_statements_are_dropped() {
    let dump = "SET statement_timeout = 0;\n\
                SELECT pg_catalog.set_config('search_path', '', false);\n\
                CREATE TABLE a (x integer);\n\
                ALTER TABLE public.a OWNER TO postgres;\n\
                COPY a (x) FROM '$$PATH$$/1.dat';\n\
                CREATE SEQUENCE s START WITH 1;\n\
                ;\n";
    let stmts = parse_dump(dump).expect("parse failed");
    assert_eq!(stmts.len(), 2);
    assert!(matches!(stmts[0], Statement::CreateTable(_)));
    assert!(matches!(stmts[1], Statement::Copy(_)));
}

#[test]
fn text_without_end_is_no_dump() {
    assert_eq!(
        parse_dump("-- head\nSET x = 1;\n  ALTER TABLE t"),
        Err(ImportError::Grammar { offset: 21 })
    );
    assert_eq!(parse_stmt("  nothing here"), Err(ImportError::Grammar { offset: 2 }));
    assert_eq!(parse_stmt(""), Err(ImportError::Grammar { offset: 0 }));
}

#[test]
fn parse_stmt_tells_dropped_statements() {
    assert_eq!(parse_stmt("SET x = 1;"), Ok(None));
    assert_eq!(parse_stmt("CREATE TABLE t ();"), Ok(None));
    assert_eq!(parse_stmt("COPY t () FROM stdin;"), Ok(None));
    assert_eq!(parse_stmt("COPY t (a, b);"), Ok(None));
    assert_eq!(parse_stmt("CREATE TABLE t (a);"), Ok(None));
    assert_eq!(parse_stmt("CREATETABLE t (a integer);"), Ok(None));
}

#[test]
fn keywords_and_types_ignore_case() {
    let stmts = parse_dump("create Table T (A INTEGER, b Boolean, c DOUBLE precision, d TeXt, e Numeric(5,2))")
        .expect("parse failed");
    match &stmts[0] {
        Statement::CreateTable(t) => {
            assert_eq!(t.name, "T");
            let types: Vec<ColumnType> = t.columns.iter().map(|c| c.dtype).collect();
            assert_eq!(
                types,
                [
                    ColumnType::Integer,
                    ColumnType::Boolean,
                    ColumnType::Real,
                    ColumnType::Text,
                    ColumnType::Unknown
                ]
            );
            assert_eq!(t.columns[4].name, "e");
        }
        Statement::Copy(_) => panic!("a table definition was expected"),
    }
}

#[test]
fn values_lose_quotes_and_schema() {
    let stmts = parse_dump(
        "CREATE TABLE \"my schema\".\"my table\" ([first col] text, 'second' text, über text);",
    )
    .expect("parse failed");
    match &stmts[0] {
        Statement::CreateTable(t) => {
            assert_eq!(t.name, "my table");
            assert_eq!(t.columns[0].name, "first col");
            assert_eq!(t.columns[1].name, "second");
            assert_eq!(t.columns[2].name, "über");
        }
        Statement::Copy(_) => panic!("a table definition was expected"),
    }
}

#[test]
fn column_rest_keeps_parentheses_and_quotes_together() {
    let stmts = parse_dump(
        "CREATE TABLE t (\n  a numeric(10,2) DEFAULT 0 NOT NULL, -- the amount, in full\n  b text DEFAULT 'x, y)' CHECK ((b <> ''))\n);",
    )
    .expect("parse failed");
    match &stmts[0] {
        Statement::CreateTable(t) => {
            assert_eq!(t.columns.len(), 2);
            assert_eq!(t.columns[0].name, "a");
            assert_eq!(t.columns[0].dtype, ColumnType::Unknown);
            assert_eq!(t.columns[1].name, "b");
            assert_eq!(t.columns[1].dtype, ColumnType::Text);
        }
        Statement::Copy(_) => panic!("a table definition was expected"),
    }
}

#[test]
fn copy_records_offset_after_semicolon() {
    let dump = "COPY t (a, b) FROM stdin;\n1\tfoo\n2\t\\N\n\\.\n\nCREATE TABLE u (x text);\n";
    let stmts = parse_dump(dump).expect("parse failed");
    assert_eq!(stmts.len(), 2);
    match &stmts[0] {
        Statement::Copy(c) => {
            assert_eq!(c.name, "t");
            assert_eq!(c.columns, ["a", "b"]);
            assert_eq!(c.from, "stdin");
            assert_eq!(c.end, 25);
        }
        Statement::CreateTable(_) => panic!("a bulk copy was expected"),
    }
    assert!(matches!(stmts[1], Statement::CreateTable(_)));
}

#[test]
fn rows_are_not_read_as_statements() {
    let dump = "COPY t (a) FROM STDIN;\nCREATE TABLE fake (x integer);\nit's; odd\n\\.\nCREATE TABLE real_one (x integer);\n";
    let stmts = parse_dump(dump).expect("parse failed");
    assert_eq!(stmts.len(), 2);
    match &stmts[1] {
        Statement::CreateTable(t) => assert_eq!(t.name, "real_one"),
        Statement::Copy(_) => panic!("a table definition was expected"),
    }
}

#[test]
fn no_statement_is_lost() {
    let dump = "SET a = 1;\n-- a comment; with a semicolon\nCREATE TABLE t (x integer);\n;\n\
                COPY t (x) FROM stdin;\n1\n\\.\nALTER TABLE t OWNER TO me;\nCOPY u (y) FROM 'f';";
    let all = parse_statements(dump).expect("parse failed");
    assert_eq!(all.len(), 6);
    let dropped = all.iter().filter(|st| st.is_none()).count();
    let creates = all.iter().filter(|st| matches!(st, Some(Statement::CreateTable(_)))).count();
    let copies = all.iter().filter(|st| matches!(st, Some(Statement::Copy(_)))).count();
    assert_eq!((creates, copies, dropped), (1, 2, 3));
    assert_eq!(creates + copies + dropped, all.len());
    let kept = keep_supported(all);
    assert_eq!(kept.len(), creates + copies);
    assert_eq!(Ok(kept), parse_dump(dump));
}

#[test]
fn statements_are_read_one_by_one() {
    let dump = "  SET a = 1; CREATE TABLE t (x integer) ; junk";
    assert_eq!(parse_stmt_at(dump, 2), Some((None, 12)));
    assert!(matches!(
        parse_stmt_at(dump, 13),
        Some((Some(Statement::CreateTable(_)), 41))
    ));
    assert_eq!(parse_stmt_at(dump, 42), None);
    assert_eq!(parse_stmt_at(dump, dump.len()), None);
    assert_eq!(parse_stmt_at(dump, dump.len() + 1), None);
    assert_eq!(parse_stmt_at("a;é;", 1), Some((None, 2)));
    assert_eq!(parse_stmt_at("a;é;", 3), Some((None, 5)));
}

#[test]
fn copy_offset_is_behind_the_semicolon() {
    for dump in [
        "COPY t (a) FROM stdin;",
        "COPY t (a) FROM stdin ;\n1\n\\.\n",
        "-- é\nCOPY \"é\" (\"ü\") FROM 'x' -- why not\n;\n",
    ] {
        let stmts = parse_dump(dump).expect("parse failed");
        match &stmts[0] {
            Statement::Copy(c) => {
                assert_eq!(dump.as_bytes()[c.end - 1], b';', "{dump:?}");
                assert_eq!(dump.find(';'), Some(c.end - 1), "{dump:?}");
            }
            Statement::CreateTable(_) => panic!("a bulk copy was expected"),
        }
    }
    let stmts = parse_dump("COPY t (a) FROM stdin  ").expect("parse failed");
    match &stmts[0] {
        Statement::Copy(c) => assert_eq!(c.end, 23),
        Statement::CreateTable(_) => panic!("a bulk copy was expected"),
    }
}

#[test]
fn copy_from_stdin_without_a_block_passes_nothing() {
    let dump = "COPY a (x) FROM stdin;\nCREATE TABLE b (y text);\nCOPY b (y) FROM '$$PATH$$/1.dat';\n";
    let stmts = parse_dump(dump).expect("parse failed");
    assert_eq!(stmts.len(), 3);
    assert!(matches!(stmts[0], Statement::Copy(_)));
    assert!(matches!(stmts[1], Statement::CreateTable(_)));
    assert!(matches!(stmts[2], Statement::Copy(_)));
}

#[test]
fn rows_without_end_mark_are_no_block() {
    assert_eq!(
        parse_dump("COPY a (x) FROM stdin;\n1\n2\n"),
        Err(ImportError::Grammar { offset: 23 })
    );
    assert_eq!(
        parse_dump("COPY a (x) FROM stdin;\n1\n2\n\\.x\n \\.\n"),
        Err(ImportError::Grammar { offset: 23 })
    );
    assert_eq!(
        parse_statements("COPY a (x) FROM stdin;\n1;\n2;\n").map(|all| all.len()),
        Ok(3)
    );
}

#[test]
fn block_ends_at_the_first_end_mark() {
    let dump = "COPY a (x) FROM stdin;\n1\n\\.\r\nSET x = 1;\nCOPY b (y) FROM stdin;\n2\n\\.\n3\n\\.";
    let all = parse_statements(dump);
    assert_eq!(all, Err(ImportError::Grammar { offset: 68 }));
    let all = parse_statements(&dump[..68]).expect("parse failed");
    assert_eq!(all.len(), 3);
    assert!(matches!(all[0], Some(Statement::Copy(_))));
    assert_eq!(all[1], None);
    assert!(matches!(all[2], Some(Statement::Copy(_))));
}

#[test]
fn a_dump_as_pg_dump_writes_it() {
    let dump = r#"--
-- PostgreSQL database dump
--

-- Dumped from database version 13.4 (Debian 13.4-1.pgdg100+1)

SET statement_timeout = 0;
SET client_encoding = 'UTF8';
SELECT pg_catalog.set_config('search_path', '', false);

--
-- Name: mpaa_rating; Type: TYPE; Schema: public; Owner: postgres
--

CREATE TYPE public.mpaa_rating AS ENUM (
    'G',
    'PG'
);

--
-- Name: last_updated(); Type: FUNCTION; Schema: public; Owner: postgres
--

CREATE FUNCTION public.last_updated() RETURNS trigger
    LANGUAGE plpgsql
    AS $$
BEGIN
    NEW.last_update = CURRENT_TIMESTAMP;
    RETURN NEW;
END $$;

SET default_tablespace = '';

--
-- Name: film; Type: TABLE; Schema: public; Owner: postgres
--

CREATE TABLE public.film (
    film_id integer DEFAULT nextval('public.film_film_id_seq'::regclass) NOT NULL,
    title character varying(255) NOT NULL,
    description text,
    rental_rate numeric(4,2) DEFAULT 4.99 NOT NULL,
    length double precision,
    rating public.mpaa_rating DEFAULT 'G'::public.mpaa_rating,
    "isNew" boolean DEFAULT true NOT NULL,
    last_update timestamp without time zone DEFAULT now() NOT NULL,
    special_features text[],
    CONSTRAINT film_length_check CHECK (((length > (0)::double precision) AND (title <> ''::text)))
);


ALTER TABLE public.film OWNER TO postgres;

--
-- Data for Name: film; Type: TABLE DATA; Schema: public; Owner: postgres
--

COPY public.film (film_id, title, description, rental_rate, length, rating, "isNew", last_update, special_features) FROM stdin;
1	Academy; Dinosaur	A -- "quoted" (story	0.99	86	PG	t	2013-05-26 14:50:58.951	{Trailers}
2	CREATE TABLE x (a integer);	\N	4.99	\N	G	f	2013-05-26 14:50:58.951	\N
\.


--
-- Name: film_film_id_seq; Type: SEQUENCE SET; Schema: public; Owner: postgres
--

SELECT pg_catalog.setval('public.film_film_id_seq', 2, true);

ALTER TABLE ONLY public.film
    ADD CONSTRAINT film_pkey PRIMARY KEY (film_id);

--
-- PostgreSQL database dump complete
--

"#;
    let all = parse_statements(dump).expect("parse failed");
    let stmts = parse_dump(dump).expect("parse failed");
    assert_eq!(stmts.len(), 2);
    assert_eq!(all.len(), 13);
    match &stmts[0] {
        Statement::CreateTable(t) => {
            assert_eq!(t.name, "film");
            let columns: Vec<(&str, ColumnType)> =
                t.columns.iter().map(|c| (c.name.as_str(), c.dtype)).collect();
            assert_eq!(
                columns,
                [
                    ("film_id", ColumnType::Integer),
                    ("title", ColumnType::Unknown),
                    ("description", ColumnType::Text),
                    ("rental_rate", ColumnType::Unknown),
                    ("length", ColumnType::Real),
                    ("rating", ColumnType::Unknown),
                    ("isNew", ColumnType::Boolean),
                    ("last_update", ColumnType::Unknown),
                    ("special_features", ColumnType::Unknown),
                    ("CONSTRAINT", ColumnType::Unknown),
                ]
            );
        }
        Statement::Copy(_) => panic!("a table definition was expected"),
    }
    match &stmts[1] {
        Statement::Copy(c) => {
            assert_eq!(c.name, "film");
            assert_eq!(c.columns.len(), 9);
            assert_eq!(c.columns[6], "isNew");
            assert_eq!(c.from, "stdin");
            assert_eq!(&dump[c.end - 11..c.end], "FROM stdin;");
        }
        Statement::CreateTable(_) => panic!("a bulk copy was expected"),
    }
}
