//! The order of work when a dump is loaded: what is sent to the destination
//! store, in which order and in which transactions.
//!
//! Loading has two phases. First all table definitions are run in one
//! transaction. Then, for each bulk copy in the order of the dump, its rows
//! are inserted in a transaction of their own. The functions here work out
//! the operations; running them against a store is left to the caller, who
//! stops at the first operation that fails and rolls the open transaction
//! back.

use vstd::prelude::*;
use crate::grammar::{dump_of, statements_from, supported};
use crate::model::{CopyTableView, ImportError, Statement, StatementView};
use crate::rows::{check_rows, fitting, rows_fit};
use crate::sql::{
    copy_to_sql, create_table_sql, create_table_to_sql, insert_sql, lemma_placeholders_count,
    occurrences, placeholders,
};

verus! {

broadcast use vstd::seq::group_seq_axioms;

/// One operation on the destination store.
#[derive(Debug, PartialEq, Eq)]
pub enum StoreOp<'a> {
    /// Open a transaction.
    Begin,
    /// Run a command that takes no values.
    Execute { sql: String },
    /// Prepare a command; the `Insert` operations that follow are runs of it.
    Prepare { sql: String },
    /// Run the prepared command with these values, bound in order: a row as it
    /// was read, with one value for each placeholder of the command.
    Insert { values: &'a Vec<Option<String>> },
    /// Commit the open transaction.
    Commit,
}

/// View of a [`StoreOp`].
pub enum StoreOpView {
    Begin,
    Execute { sql: Seq<char> },
    Prepare { sql: Seq<char> },
    Insert { values: Seq<Option<Seq<char>>> },
    Commit,
}

impl<'a> DeepView for StoreOp<'a> {
    type V = StoreOpView;

    open spec fn deep_view(&self) -> StoreOpView {
        match self {
            StoreOp::Begin => StoreOpView::Begin,
            StoreOp::Execute { sql } => StoreOpView::Execute { sql: sql@ },
            StoreOp::Prepare { sql } => StoreOpView::Prepare { sql: sql@ },
            StoreOp::Insert { values } => StoreOpView::Insert { values: values.deep_view() },
            StoreOp::Commit => StoreOpView::Commit,
        }
    }
}

impl<'a> View for StoreOp<'a> {
    type V = StoreOpView;

    open spec fn view(&self) -> StoreOpView {
        self.deep_view()
    }
}

/// The table definitions among `all`, in order.
pub open spec fn creates_of(all: Seq<StatementView>) -> Seq<StatementView> {
    all.filter(|statement: StatementView| statement is CreateTable)
}

/// The bulk copies among `all`, in order.
pub open spec fn copies_of(all: Seq<StatementView>) -> Seq<StatementView> {
    all.filter(|statement: StatementView| statement is Copy)
}

/// How many of the statements of a dump stand for nothing and are dropped.
pub open spec fn dropped(all: Seq<Option<StatementView>>) -> nat {
    all.filter(|statement: Option<StatementView>| statement is None).len()
}

/// Every statement of `batch` is a table definition.
pub open spec fn all_create(batch: Seq<StatementView>) -> bool {
    forall|i: int| 0 <= i < batch.len() ==> #[trigger] batch[i] is CreateTable
}

/// Every statement of `batch` is a bulk copy.
pub open spec fn all_copy(batch: Seq<StatementView>) -> bool {
    forall|i: int| 0 <= i < batch.len() ==> #[trigger] batch[i] is Copy
}

/// The operations of the first phase: one transaction in which the
/// create-table command of each definition is run, in order.
pub open spec fn schema_ops(batch: Seq<StatementView>) -> Seq<StoreOpView> {
    seq![StoreOpView::Begin] + Seq::new(
        batch.len(),
        |i: int| StoreOpView::Execute { sql: create_table_sql(batch[i]->CreateTable_0) },
    ) + seq![StoreOpView::Commit]
}

/// The operations for one bulk copy: one transaction in which the insert
/// command is prepared once and then run for each row, in order.
pub open spec fn copy_ops(c: CopyTableView, rows: Seq<Seq<Option<Seq<char>>>>) -> Seq<
    StoreOpView,
> {
    seq![StoreOpView::Begin, StoreOpView::Prepare { sql: insert_sql(c) }] + Seq::new(
        rows.len(),
        |i: int| StoreOpView::Insert { values: rows[i] },
    ) + seq![StoreOpView::Commit]
}

/// The table definitions, the bulk copies and the dropped statements among
/// `all` are together as many as `all`.
pub proof fn lemma_kinds_add_up(all: Seq<Option<StatementView>>)
    ensures
        creates_of(supported(all)).len() + copies_of(supported(all)).len() + dropped(all)
            == all.len(),
        creates_of(supported(all)).len() + copies_of(supported(all)).len() == supported(
            all,
        ).len(),
    decreases all.len(),
{
    reveal(Seq::filter);
    if all.len() > 0 {
        let init = all.drop_last();
        lemma_kinds_add_up(init);
        if let Some(statement) = all.last() {
            assert(supported(all) =~= supported(init).push(statement));
            supported(init).lemma_filter_push(
                statement,
                |statement: StatementView| statement is CreateTable,
            );
            supported(init).lemma_filter_push(
                statement,
                |statement: StatementView| statement is Copy,
            );
        }
    }
}

/// No statement is lost when a dump is read and its statements are parted by
/// kind: the table definitions, the bulk copies and the statements that were
/// dropped are together as many as the statements of the dump.
pub proof fn lemma_partition_is_lossless(s: Seq<u8>)
    requires
        statements_from(s, 0) is Ok,
    ensures
        dump_of(s) is Ok,
        creates_of(dump_of(s)->Ok_0).len() + copies_of(dump_of(s)->Ok_0).len() + dropped(
            statements_from(s, 0)->Ok_0,
        ) == statements_from(s, 0)->Ok_0.len(),
{
    lemma_kinds_add_up(statements_from(s, 0)->Ok_0);
}

/// Parts the statements of a dump by kind, keeping the order within each
/// kind: first the table definitions, second the bulk copies.
pub fn split_statements<'a>(stmts: &'a Vec<Statement>) -> (r: (
    Vec<&'a Statement>,
    Vec<&'a Statement>,
))
    ensures
        r.0.deep_view() == creates_of(stmts.deep_view()),
        r.1.deep_view() == copies_of(stmts.deep_view()),
        r.0@.len() + r.1@.len() == stmts@.len(),
{
    let mut creates: Vec<&'a Statement> = Vec::new();
    let mut copies: Vec<&'a Statement> = Vec::new();
    let mut i: usize = 0;
    while i < stmts.len()
        invariant
            i <= stmts@.len(),
            creates.deep_view() == creates_of(stmts.deep_view().take(i as int)),
            copies.deep_view() == copies_of(stmts.deep_view().take(i as int)),
            creates@.len() + copies@.len() == i,
        decreases stmts@.len() - i,
    {
        let ghost seen = stmts.deep_view().take(i as int);
        let ghost next = stmts.deep_view().take(i + 1);
        let ghost before_creates = creates.deep_view();
        let ghost before_copies = copies.deep_view();
        proof {
            let statement = stmts[i as int].deep_view();
            assert(next =~= seen.push(statement));
            seen.lemma_filter_push(statement, |statement: StatementView| statement is CreateTable);
            seen.lemma_filter_push(statement, |statement: StatementView| statement is Copy);
        }
        match &stmts[i] {
            Statement::CreateTable(_) => {
                creates.push(&stmts[i]);
                assert(creates.deep_view() =~= before_creates.push(stmts[i as int].deep_view()));
            },
            Statement::Copy(_) => {
                copies.push(&stmts[i]);
                assert(copies.deep_view() =~= before_copies.push(stmts[i as int].deep_view()));
            },
        }
        i += 1;
    }
    assert(stmts.deep_view().take(stmts@.len() as int) =~= stmts.deep_view());
    (creates, copies)
}

/// Works out the first phase for a batch of table definitions. A batch that
/// holds anything else is refused with `InvariantViolation`.
pub fn schema_script<'a>(batch: &Vec<&Statement>) -> (r: Result<Vec<StoreOp<'a>>, ImportError>)
    ensures
        match r {
            Ok(script) => all_create(batch.deep_view()) && script.deep_view() == schema_ops(
                batch.deep_view(),
            ),
            Err(e) => !all_create(batch.deep_view()) && e == ImportError::InvariantViolation,
        },
{
    let mut script: Vec<StoreOp<'a>> = Vec::new();
    script.push(StoreOp::Begin);
    let mut i: usize = 0;
    while i < batch.len()
        invariant
            i <= batch@.len(),
            script@.len() == i + 1,
            script@[0] == StoreOp::<'a>::Begin,
            forall|k: int| 0 <= k < i ==> #[trigger] batch.deep_view()[k] is CreateTable,
            forall|k: int|
                1 <= k <= i ==> (#[trigger] script@[k]).deep_view() == (StoreOpView::Execute {
                    sql: create_table_sql(batch.deep_view()[k - 1]->CreateTable_0),
                }),
        decreases batch@.len() - i,
    {
        match batch[i] {
            Statement::CreateTable(table) => {
                script.push(StoreOp::Execute { sql: create_table_to_sql(table) });
            },
            Statement::Copy(_) => {
                assert(!(batch.deep_view()[i as int] is CreateTable));
                return Err(ImportError::InvariantViolation);
            },
        }
        i += 1;
    }
    script.push(StoreOp::Commit);
    proof {
        let ops = script.deep_view();
        let middle = Seq::new(
            batch.deep_view().len(),
            |i: int|
                StoreOpView::Execute {
                    sql: create_table_sql(batch.deep_view()[i]->CreateTable_0),
                },
        );
        let expected = seq![StoreOpView::Begin] + middle + seq![StoreOpView::Commit];
        assert(ops.len() == expected.len());
        assert forall|k: int| 0 <= k < ops.len() implies ops[k] == expected[k] by {
            if 1 <= k <= i {
                assert(ops[k] == script@[k].deep_view());
                assert(expected[k] == middle[k - 1]);
            }
        }
        assert(ops =~= expected);
    }
    Ok(script)
}

/// Checks a batch for the second phase: it may hold bulk copies only, and is
/// refused with `InvariantViolation` if it holds anything else.
pub fn check_copy_batch(batch: &Vec<&Statement>) -> (r: Result<(), ImportError>)
    ensures
        match r {
            Ok(_) => all_copy(batch.deep_view()),
            Err(e) => !all_copy(batch.deep_view()) && e == ImportError::InvariantViolation,
        },
{
    let mut i: usize = 0;
    while i < batch.len()
        invariant
            i <= batch@.len(),
            forall|k: int| 0 <= k < i ==> #[trigger] batch.deep_view()[k] is Copy,
        decreases batch@.len() - i,
    {
        match batch[i] {
            Statement::Copy(_) => {},
            Statement::CreateTable(_) => {
                assert(!(batch.deep_view()[i as int] is Copy));
                return Err(ImportError::InvariantViolation);
            },
        }
        i += 1;
    }
    Ok(())
}

/// Works out the operations that load the rows of one bulk copy. A statement
/// that is no bulk copy is refused with `InvariantViolation`, a row that has
/// more or fewer values than the statement has columns with `CorruptRow`.
pub fn copy_script<'a>(stmt: &Statement, rows: &'a Vec<Vec<Option<String>>>) -> (r: Result<
    Vec<StoreOp<'a>>,
    ImportError,
>)
    ensures
        match r {
            Ok(script) => stmt@ is Copy && rows_fit(
                stmt@->Copy_0.columns.len(),
                rows.deep_view(),
            ) && script.deep_view() == copy_ops(stmt@->Copy_0, rows.deep_view()),
            Err(e) => if stmt@ is Copy {
                fitting(stmt@->Copy_0.columns.len(), rows.deep_view()) == Err::<
                    Seq<Seq<Option<Seq<char>>>>,
                    ImportError,
                >(e)
            } else {
                e == ImportError::InvariantViolation
            },
        },
{
    let copy = match stmt {
        Statement::Copy(copy) => copy,
        Statement::CreateTable(_) => {
            return Err(ImportError::InvariantViolation);
        },
    };
    match check_rows(copy.columns.len(), rows) {
        Ok(_) => {},
        Err(e) => {
            return Err(e);
        },
    }
    let mut script: Vec<StoreOp<'a>> = Vec::new();
    script.push(StoreOp::Begin);
    script.push(StoreOp::Prepare { sql: copy_to_sql(copy) });
    let mut i: usize = 0;
    while i < rows.len()
        invariant
            i <= rows@.len(),
            script@.len() == i + 2,
            script@[0] == StoreOp::<'a>::Begin,
            script@[1].deep_view() == (StoreOpView::Prepare { sql: insert_sql(copy@) }),
            forall|k: int|
                2 <= k < i + 2 ==> (#[trigger] script@[k]).deep_view() == (StoreOpView::Insert {
                    values: rows.deep_view()[k - 2],
                }),
        decreases rows@.len() - i,
    {
        script.push(StoreOp::Insert { values: &rows[i] });
        i += 1;
    }
    script.push(StoreOp::Commit);
    proof {
        let ops = script.deep_view();
        let middle = Seq::new(
            rows.deep_view().len(),
            |i: int| StoreOpView::Insert { values: rows.deep_view()[i] },
        );
        let expected = seq![StoreOpView::Begin, StoreOpView::Prepare { sql: insert_sql(copy@) }]
            + middle + seq![StoreOpView::Commit];
        assert(ops.len() == expected.len());
        assert forall|k: int| 0 <= k < ops.len() implies ops[k] == expected[k] by {
            if 2 <= k < i + 2 {
                assert(ops[k] == script@[k].deep_view());
                assert(expected[k] == middle[k - 2]);
            }
        }
        assert(ops =~= expected);
    }
    Ok(script)
}

/// In the operations for a bulk copy whose rows fit, every insert binds as
/// many values as the prepared command has placeholders: one for each column.
pub proof fn lemma_inserts_match_placeholders(c: CopyTableView, rows: Seq<Seq<Option<Seq<char>>>>)
    requires
        rows_fit(c.columns.len(), rows),
    ensures
        copy_ops(c, rows).len() == rows.len() + 3,
        copy_ops(c, rows)[0] == StoreOpView::Begin,
        copy_ops(c, rows)[1] == (StoreOpView::Prepare { sql: insert_sql(c) }),
        copy_ops(c, rows).last() == StoreOpView::Commit,
        forall|k: int|
            2 <= k < rows.len() + 2 ==> (#[trigger] copy_ops(c, rows)[k]) == (StoreOpView::Insert {
                values: rows[k - 2],
            }) && rows[k - 2].len() == occurrences(placeholders(c.columns.len()), '?'),
{
    lemma_placeholders_count(c.columns.len());
    let middle = Seq::new(rows.len(), |i: int| StoreOpView::Insert { values: rows[i] });
    assert forall|k: int| 2 <= k < rows.len() + 2 implies (#[trigger] copy_ops(c, rows)[k]) == (
    StoreOpView::Insert { values: rows[k - 2] }) by {
        assert(copy_ops(c, rows)[k] == middle[k - 2]);
    }
}

/// The operations of the first phase are one transaction that holds one
/// command for each table definition, in the order of the batch.
pub proof fn lemma_schema_is_one_transaction(batch: Seq<StatementView>)
    ensures
        schema_ops(batch).len() == batch.len() + 2,
        schema_ops(batch)[0] == StoreOpView::Begin,
        schema_ops(batch).last() == StoreOpView::Commit,
        forall|k: int|
            1 <= k <= batch.len() ==> (#[trigger] schema_ops(batch)[k]) == (StoreOpView::Execute {
                sql: create_table_sql(batch[k - 1]->CreateTable_0),
            }),
{
    let middle = Seq::new(
        batch.len(),
        |i: int| StoreOpView::Execute { sql: create_table_sql(batch[i]->CreateTable_0) },
    );
    assert forall|k: int| 1 <= k <= batch.len() implies (#[trigger] schema_ops(batch)[k]) == (
    StoreOpView::Execute { sql: create_table_sql(batch[k - 1]->CreateTable_0) }) by {
        assert(schema_ops(batch)[k] == middle[k - 1]);
    }
}

} // verus!
