//! The statements that a dump is read into, and their mathematical views.

use vstd::prelude::*;

verus! {

/// Storage class of a column, as far as the importer tells them apart.
/// `Unknown` stands for every source type that is not recognised.
#[derive(Debug, Clone, Copy, PartialEq, Eq, Structural)]
pub enum ColumnType {
    Integer,
    Text,
    Boolean,
    Real,
    Unknown,
}

/// One column of a table definition.
#[derive(Debug, PartialEq, Eq)]
pub struct Column {
    pub name: String,
    pub dtype: ColumnType,
}

/// A table definition: the table's name and its columns in declared order.
#[derive(Debug, PartialEq, Eq)]
pub struct CreateTable {
    pub name: String,
    pub columns: Vec<Column>,
}

/// A bulk-copy declaration. `from` names where the rows are; `end` is the byte
/// offset, in the text the statement was read from, right after the statement.
#[derive(Debug, PartialEq, Eq)]
pub struct CopyTable {
    pub name: String,
    pub columns: Vec<String>,
    pub from: String,
    pub end: usize,
}

/// A statement of a dump that the importer acts on.
#[derive(Debug, PartialEq, Eq)]
pub enum Statement {
    CreateTable(CreateTable),
    Copy(CopyTable),
}

/// View of a [`Column`].
pub struct ColumnView {
    pub name: Seq<char>,
    pub dtype: ColumnType,
}

/// View of a [`CreateTable`].
pub struct CreateTableView {
    pub name: Seq<char>,
    pub columns: Seq<ColumnView>,
}

/// View of a [`CopyTable`].
pub struct CopyTableView {
    pub name: Seq<char>,
    pub columns: Seq<Seq<char>>,
    pub from: Seq<char>,
    pub end: int,
}

/// View of a [`Statement`].
pub enum StatementView {
    CreateTable(CreateTableView),
    Copy(CopyTableView),
}

impl DeepView for ColumnType {
    type V = ColumnType;

    open spec fn deep_view(&self) -> ColumnType {
        *self
    }
}

impl DeepView for Column {
    type V = ColumnView;

    open spec fn deep_view(&self) -> ColumnView {
        ColumnView { name: self.name@, dtype: self.dtype }
    }
}

impl View for Column {
    type V = ColumnView;

    open spec fn view(&self) -> ColumnView {
        self.deep_view()
    }
}

impl DeepView for CreateTable {
    type V = CreateTableView;

    open spec fn deep_view(&self) -> CreateTableView {
        CreateTableView { name: self.name@, columns: self.columns.deep_view() }
    }
}

impl View for CreateTable {
    type V = CreateTableView;

    open spec fn view(&self) -> CreateTableView {
        self.deep_view()
    }
}

impl DeepView for CopyTable {
    type V = CopyTableView;

    open spec fn deep_view(&self) -> CopyTableView {
        CopyTableView {
            name: self.name@,
            columns: self.columns.deep_view(),
            from: self.from@,
            end: self.end as int,
        }
    }
}

impl View for CopyTable {
    type V = CopyTableView;

    open spec fn view(&self) -> CopyTableView {
        self.deep_view()
    }
}

impl DeepView for Statement {
    type V = StatementView;

    open spec fn deep_view(&self) -> StatementView {
        match self {
            Statement::CreateTable(t) => StatementView::CreateTable(t.deep_view()),
            Statement::Copy(c) => StatementView::Copy(c.deep_view()),
        }
    }
}

impl View for Statement {
    type V = StatementView;

    open spec fn view(&self) -> StatementView {
        self.deep_view()
    }
}

/// What went wrong in reading or loading a dump.
#[derive(Debug, Clone, Copy, PartialEq, Eq, Structural)]
pub enum ImportError {
    /// The text is no dump: at byte `offset` starts something that is no statement.
    Grammar { offset: usize },
    /// A statement lacks a part that the step at hand needs.
    MalformedStatement,
    /// A plain dump names a file as the source of a table's rows.
    UnsupportedCopySource,
    /// A batch holds a statement of the wrong kind.
    InvariantViolation,
    /// The row with index `row` of a block has more or fewer fields than its
    /// table has columns: the data is corrupt.
    CorruptRow { row: usize },
}

} // verus!
