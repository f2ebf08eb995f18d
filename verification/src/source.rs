//! Where the rows of a bulk copy are: in the text of a plain dump, behind
//! the statement, or in an entry of an archive.

use vstd::prelude::*;
use vstd::string::*;
use crate::grammar::is_stdin;
use crate::lexer::names_stdin;
use crate::model::{CopyTableView, ImportError, Statement, StatementView};
use crate::rows::{
    check_rows, fitting, lemma_first_misfit, rows_after, rows_fit, rows_from,
    rows_of_inline_block, rows_of_text,
};
use crate::text::same_text;

verus! {

broadcast use vstd::seq::group_seq_axioms;

/// The kind of dump that is being loaded, with the path of its file.
#[derive(Debug, PartialEq, Eq)]
pub enum DumpContext {
    /// One text file; the rows of a table follow its bulk-copy declaration.
    Plain { sql_filepath: String },
    /// An archive; the rows of each table are in an entry of their own.
    Tar { tar_filepath: String },
}

impl DumpContext {
    /// The dump is one plain text file.
    pub open spec fn is_plain(&self) -> bool {
        self is Plain
    }

    /// The name of the archive entry that holds the statements of an archive.
    pub fn statements_entry() -> (r: &'static str)
        ensures
            r@ == "restore.sql"@,
    {
        "restore.sql"
    }

    /// The kind of dump that a file is, by the extension of its name: `sql`
    /// for a plain dump, `tar` for an archive. No other extension is known.
    pub fn for_extension(extension: &str, path: String) -> (r: Option<DumpContext>)
        ensures
            extension@ == "tar"@ ==> r == Some(DumpContext::Tar { tar_filepath: path }),
            extension@ == "sql"@ ==> r == Some(DumpContext::Plain { sql_filepath: path }),
            extension@ != "tar"@ && extension@ != "sql"@ ==> r is None,
    {
        proof {
            reveal_strlit("tar");
            reveal_strlit("sql");
            assert("tar"@[0] != "sql"@[0]);
        }
        if same_text(extension, "tar") {
            Some(DumpContext::Tar { tar_filepath: path })
        } else if same_text(extension, "sql") {
            Some(DumpContext::Plain { sql_filepath: path })
        } else {
            None
        }
    }
}

/// Where the rows of a bulk copy are to be read.
#[derive(Debug, PartialEq, Eq)]
pub enum RowSource {
    /// In the text of the dump, after byte `offset`.
    Inline { offset: usize },
    /// In the entry `name` of the archive.
    Entry { name: String },
    /// Nowhere: the statement is passed over with a warning, it has no rows.
    Skipped,
}

/// View of a [`RowSource`].
pub enum RowSourceView {
    Inline { offset: int },
    Entry { name: Seq<char> },
    Skipped,
}

impl DeepView for RowSource {
    type V = RowSourceView;

    open spec fn deep_view(&self) -> RowSourceView {
        match self {
            RowSource::Inline { offset } => RowSourceView::Inline { offset: *offset as int },
            RowSource::Entry { name } => RowSourceView::Entry { name: name@ },
            RowSource::Skipped => RowSourceView::Skipped,
        }
    }
}

impl View for RowSource {
    type V = RowSourceView;

    open spec fn view(&self) -> RowSourceView {
        self.deep_view()
    }
}

/// The name of the archive entry that a source path stands for: the path
/// without the placeholder `$$PATH$$/` in front of it. A path that does not
/// start with the placeholder names no entry.
pub open spec fn entry_name(path: Seq<char>) -> Option<Seq<char>> {
    let prefix = "$$PATH$$/"@;
    if prefix.len() <= path.len() && path.subrange(0, prefix.len() as int) == prefix {
        Some(path.subrange(prefix.len() as int, path.len() as int))
    } else {
        None
    }
}

/// Where the rows of the statement `st` are, in a plain dump or in an archive.
/// Only a bulk copy has rows. In a plain dump they follow the statement, which
/// must then name `stdin`; in an archive they are in an entry, and a statement
/// that names `stdin` is passed over.
pub open spec fn row_source_of(st: StatementView, plain: bool) -> Result<
    RowSourceView,
    ImportError,
> {
    match st {
        StatementView::CreateTable(_) => Err(ImportError::InvariantViolation),
        StatementView::Copy(c) => {
            if plain {
                if is_stdin(c.from) {
                    Ok(RowSourceView::Inline { offset: c.end })
                } else {
                    Err(ImportError::UnsupportedCopySource)
                }
            } else if is_stdin(c.from) {
                Ok(RowSourceView::Skipped)
            } else {
                match entry_name(c.from) {
                    Some(name) => Ok(RowSourceView::Entry { name }),
                    None => Err(ImportError::MalformedStatement),
                }
            }
        },
    }
}

/// The rows that the text `s` holds for a bulk copy whose rows are at
/// `source`. For `Inline`, `s` is the text of the dump; for `Entry`, the text
/// of that entry.
pub open spec fn rows_in(source: RowSourceView, s: Seq<u8>) -> Seq<Seq<Option<Seq<char>>>> {
    match source {
        RowSourceView::Inline { offset } => rows_after(s, offset),
        RowSourceView::Entry { name } => rows_from(s, 0),
        RowSourceView::Skipped => Seq::empty(),
    }
}

/// The rows of the statement `st`, read from the text `s` that
/// [`row_source_of`] points to. Each row has one field for each column of the
/// statement; a block with a row that has not is corrupt.
pub open spec fn rows_for_copy(st: StatementView, plain: bool, s: Seq<u8>) -> Result<
    Seq<Seq<Option<Seq<char>>>>,
    ImportError,
> {
    match row_source_of(st, plain) {
        Ok(source) => fitting(st->Copy_0.columns.len(), rows_in(source, s)),
        Err(e) => Err(e),
    }
}

/// Takes the placeholder off a source path.
fn strip_path_prefix(path: &str) -> (r: Option<String>)
    ensures
        r.deep_view() == entry_name(path@),
{
    let prefix = "$$PATH$$/";
    let n = path.unicode_len();
    let m = prefix.unicode_len();
    if n < m {
        return None;
    }
    let mut k: usize = 0;
    while k < m
        invariant
            prefix@ == "$$PATH$$/"@,
            m == prefix@.len(),
            n == path@.len(),
            k <= m <= n,
            forall|j: int| 0 <= j < k ==> path@[j] == prefix@[j],
        decreases m - k,
    {
        if path.get_char(k) != prefix.get_char(k) {
            assert(path@.subrange(0, m as int)[k as int] == path@[k as int]);
            return None;
        }
        k += 1;
    }
    assert(path@.subrange(0, m as int) =~= prefix@);
    Some(path.substring_char(m, n).to_owned())
}

/// Decides where the rows of `stmt` are to be read.
pub fn locate_rows(stmt: &Statement, context: &DumpContext) -> (r: Result<RowSource, ImportError>)
    ensures
        match r {
            Ok(source) => row_source_of(stmt@, context.is_plain()) == Ok::<
                RowSourceView,
                ImportError,
            >(source@),
            Err(e) => row_source_of(stmt@, context.is_plain()) == Err::<
                RowSourceView,
                ImportError,
            >(e),
        },
{
    let copy = match stmt {
        Statement::Copy(copy) => copy,
        Statement::CreateTable(_) => {
            return Err(ImportError::InvariantViolation);
        },
    };
    let stdin = names_stdin(copy.from.as_str());
    match context {
        DumpContext::Plain { .. } => {
            if stdin {
                Ok(RowSource::Inline { offset: copy.end })
            } else {
                Err(ImportError::UnsupportedCopySource)
            }
        },
        DumpContext::Tar { .. } => {
            if stdin {
                Ok(RowSource::Skipped)
            } else {
                match strip_path_prefix(copy.from.as_str()) {
                    Some(name) => Ok(RowSource::Entry { name }),
                    None => Err(ImportError::MalformedStatement),
                }
            }
        },
    }
}

/// Reads from `text` the rows of a bulk copy whose rows are at `source`.
pub fn rows_at(source: &RowSource, text: &str) -> (r: Vec<Vec<Option<String>>>)
    ensures
        r.deep_view() == rows_in(source@, text.spec_bytes()),
{
    match source {
        RowSource::Inline { offset } => rows_of_inline_block(text, *offset),
        RowSource::Entry { .. } => rows_of_text(text),
        RowSource::Skipped => {
            let rows: Vec<Vec<Option<String>>> = Vec::new();
            assert(rows.deep_view() =~= Seq::<Seq<Option<Seq<char>>>>::empty());
            rows
        },
    }
}

/// Produces the rows of the bulk copy `stmt`, in order. `text` is the text
/// that holds them: the dump itself where they follow the statement, the
/// archive entry that [`locate_rows`] names where they are in an archive.
///
/// A plain dump whose statement names a file fails with
/// `UnsupportedCopySource`; an archive whose statement names `stdin` gives no
/// rows; a statement that is no bulk copy fails with `InvariantViolation`; a
/// row that has more or fewer fields than the statement has columns fails
/// with `CorruptRow`.
pub fn get_rows_for_copy(stmt: &Statement, context: &DumpContext, text: &str) -> (r: Result<
    Vec<Vec<Option<String>>>,
    ImportError,
>)
    ensures
        match r {
            Ok(rows) => rows_for_copy(stmt@, context.is_plain(), text.spec_bytes()) == Ok::<
                Seq<Seq<Option<Seq<char>>>>,
                ImportError,
            >(rows.deep_view()),
            Err(e) => rows_for_copy(stmt@, context.is_plain(), text.spec_bytes()) == Err::<
                Seq<Seq<Option<Seq<char>>>>,
                ImportError,
            >(e),
        },
{
    let copy = match stmt {
        Statement::Copy(copy) => copy,
        Statement::CreateTable(_) => {
            return Err(ImportError::InvariantViolation);
        },
    };
    let source = match locate_rows(stmt, context) {
        Ok(source) => source,
        Err(e) => {
            return Err(e);
        },
    };
    let rows = rows_at(&source, text);
    match check_rows(copy.columns.len(), &rows) {
        Ok(_) => Ok(rows),
        Err(e) => Err(e),
    }
}

/// In an archive a bulk copy that names `stdin` has no rows and is no error,
/// whatever text is at hand; in a plain dump a bulk copy that names anything
/// else is refused, and one that names `stdin` has the rows that follow it.
pub proof fn lemma_sources_by_kind_of_dump(c: CopyTableView, s: Seq<u8>)
    ensures
        is_stdin(c.from) ==> rows_for_copy(StatementView::Copy(c), false, s) == Ok::<
            Seq<Seq<Option<Seq<char>>>>,
            ImportError,
        >(Seq::empty()),
        !is_stdin(c.from) ==> rows_for_copy(StatementView::Copy(c), true, s) == Err::<
            Seq<Seq<Option<Seq<char>>>>,
            ImportError,
        >(ImportError::UnsupportedCopySource),
        is_stdin(c.from) ==> rows_for_copy(StatementView::Copy(c), true, s) == fitting(
            c.columns.len(),
            rows_after(s, c.end),
        ),
{
}

/// The rows that are produced for a bulk copy have one field for each of its
/// columns.
pub proof fn lemma_rows_have_one_field_per_column(st: StatementView, plain: bool, s: Seq<u8>)
    requires
        rows_for_copy(st, plain, s) is Ok,
    ensures
        st is Copy,
        rows_fit(st->Copy_0.columns.len(), rows_for_copy(st, plain, s)->Ok_0),
{
    let source = row_source_of(st, plain)->Ok_0;
    lemma_first_misfit(st->Copy_0.columns.len(), rows_in(source, s), 0);
}

} // verus!
