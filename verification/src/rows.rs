//! Blocks of rows: how a block of text is cut into rows and fields.
//!
//! A block holds one row on each line, the fields separated by tabs. A line
//! that holds only `\.` ends the block; a field that holds only `\N` is a null.
//! Nothing else in a field is decoded.

use vstd::prelude::*;
use vstd::string::*;
use vstd::utf8::*;
use crate::grammar::{
    after_rows, block_end, find_byte, is_end_mark, line_stop, next_line, text_of,
    lemma_block_end_bounds, lemma_find_byte_bounds, BACKSLASH, LF, TAB,
};
use crate::lexer::{ends_block, line_after, line_limit};
use crate::model::ImportError;
use crate::text::{lemma_boundary_after_ascii, lemma_boundary_at_ascii_or_end, slice_string};

verus! {

broadcast use {vstd::utf8::group_utf8_lib, vstd::seq::group_seq_axioms};

pub const UPPER_N: u8 = 0x4e;

/// The field that the bytes from `from` up to `to` hold: a null for `\N`, else
/// the text as it stands.
pub open spec fn field_of(s: Seq<u8>, from: int, to: int) -> Option<Seq<char>> {
    if to - from == 2 && s[from] == BACKSLASH && s[from + 1] == UPPER_N {
        None
    } else {
        Some(text_of(s, from, to))
    }
}

/// The fields of the line that the bytes from `from` up to `to` hold: the line
/// is cut at every tab, so a line without a tab is one field.
pub open spec fn fields_of(s: Seq<u8>, from: int, to: int) -> Seq<Option<Seq<char>>>
    decreases to - from,
{
    let tab = find_byte(s, TAB, from);
    if 0 <= from <= tab < to {
        seq![field_of(s, from, tab)] + fields_of(s, tab + 1, to)
    } else {
        seq![field_of(s, from, to)]
    }
}

/// The rows of the block whose first line starts at `i`: one for each line up
/// to the line that holds the end mark, or up to the end of the text.
pub open spec fn rows_from(s: Seq<u8>, i: int) -> Seq<Seq<Option<Seq<char>>>>
    decreases s.len() - i,
{
    if !(0 <= i < s.len()) {
        Seq::empty()
    } else if is_end_mark(s, i, line_stop(s, i)) {
        Seq::empty()
    } else {
        proof {
            lemma_find_byte_bounds(s, LF, i);
        }
        seq![fields_of(s, i, line_stop(s, i))] + rows_from(s, next_line(s, i))
    }
}

/// The rows that follow a statement which ends at byte `offset` of `s`: the
/// rest of the statement's line is left out, the block starts on the next
/// line.
pub open spec fn rows_after(s: Seq<u8>, offset: int) -> Seq<Seq<Option<Seq<char>>>> {
    rows_from(s, next_line(s, offset))
}

/// Scans for a tab from `from` on, but not beyond `to`.
fn scan_to_tab(bytes: &[u8], from: usize, to: usize) -> (r: usize)
    requires
        from <= to <= bytes@.len(),
    ensures
        from <= r <= to,
        r < to ==> r == find_byte(bytes@, TAB, from as int) && bytes@[r as int] == TAB,
        r == to ==> find_byte(bytes@, TAB, from as int) >= to,
{
    let mut k = from;
    while k < to && bytes[k] != TAB
        invariant
            from <= k <= to <= bytes@.len(),
            find_byte(bytes@, TAB, from as int) == find_byte(bytes@, TAB, k as int),
        decreases to - k,
    {
        k += 1;
    }
    proof {
        lemma_find_byte_bounds(bytes@, TAB, k as int);
    }
    k
}

/// Reads the field that the bytes from `from` up to `to` hold.
fn read_field(input: &str, from: usize, to: usize) -> (r: Option<String>)
    requires
        from <= to <= input.spec_bytes().len(),
        is_char_boundary(input.spec_bytes(), from as int),
        is_char_boundary(input.spec_bytes(), to as int),
    ensures
        r.deep_view() == field_of(input.spec_bytes(), from as int, to as int),
{
    let bytes = input.as_bytes();
    if to - from == 2 && bytes[from] == BACKSLASH && bytes[from + 1] == UPPER_N {
        None
    } else {
        Some(slice_string(input, from, to))
    }
}

/// Reads the fields of the line that the bytes from `from` up to `to` hold.
fn read_fields(input: &str, from: usize, to: usize) -> (r: Vec<Option<String>>)
    requires
        from <= to <= input.spec_bytes().len(),
        is_char_boundary(input.spec_bytes(), from as int),
        is_char_boundary(input.spec_bytes(), to as int),
    ensures
        r.deep_view() == fields_of(input.spec_bytes(), from as int, to as int),
{
    let bytes = input.as_bytes();
    let ghost s = input.spec_bytes();
    let mut fields: Vec<Option<String>> = Vec::new();
    let mut at = from;
    loop
        invariant
            bytes@ == s,
            s == input.spec_bytes(),
            from <= at <= to <= s.len(),
            is_char_boundary(s, at as int),
            is_char_boundary(s, to as int),
            fields_of(s, from as int, to as int) == fields.deep_view() + fields_of(
                s,
                at as int,
                to as int,
            ),
        decreases to - at,
    {
        let tab = scan_to_tab(bytes, at, to);
        let ghost done = fields.deep_view();
        if tab < to {
            proof {
                lemma_boundary_after_ascii(s, tab as int);
            }
            let field = read_field(input, at, tab);
            let ghost f = field.deep_view();
            fields.push(field);
            proof {
                assert(fields.deep_view() =~= done + seq![f]);
                assert(done + (seq![f] + fields_of(s, tab + 1, to as int)) =~= (done + seq![f])
                    + fields_of(s, tab + 1, to as int));
            }
            at = tab + 1;
        } else {
            let field = read_field(input, at, to);
            let ghost f = field.deep_view();
            fields.push(field);
            assert(fields.deep_view() =~= done + seq![f]);
            return fields;
        }
    }
}

/// Reads the rows of the block whose first line starts at `from`.
fn read_rows(input: &str, from: usize) -> (r: Vec<Vec<Option<String>>>)
    requires
        from <= input.spec_bytes().len(),
        is_char_boundary(input.spec_bytes(), from as int),
    ensures
        r.deep_view() == rows_from(input.spec_bytes(), from as int),
{
    let bytes = input.as_bytes();
    let ghost s = input.spec_bytes();
    let mut rows: Vec<Vec<Option<String>>> = Vec::new();
    let mut at = from;
    while at < bytes.len()
        invariant
            bytes@ == s,
            s == input.spec_bytes(),
            from <= at <= s.len(),
            is_char_boundary(s, at as int),
            rows_from(s, from as int) == rows.deep_view() + rows_from(s, at as int),
        decreases s.len() - at,
    {
        let stop = line_limit(bytes, at);
        let next = line_after(bytes, at);
        let ghost done = rows.deep_view();
        if ends_block(bytes, at, stop) {
            assert(done + Seq::<Seq<Option<Seq<char>>>>::empty() =~= done);
            return rows;
        }
        proof {
            lemma_boundary_at_ascii_or_end(s, stop as int);
        }
        let row = read_fields(input, at, stop);
        let ghost f = row.deep_view();
        rows.push(row);
        proof {
            assert(rows.deep_view() =~= done + seq![f]);
            assert(done + (seq![f] + rows_from(s, next as int)) =~= (done + seq![f]) + rows_from(
                s,
                next as int,
            ));
        }
        at = next;
    }
    assert(rows.deep_view() + Seq::<Seq<Option<Seq<char>>>>::empty() =~= rows.deep_view());
    rows
}

/// Cuts a block of text into rows: one for each line up to the line that
/// holds `\.`, or up to the end of the text.
pub fn rows_of_text(data: &str) -> (r: Vec<Vec<Option<String>>>)
    ensures
        r.deep_view() == rows_from(data.spec_bytes(), 0),
{
    read_rows(data, 0)
}

/// Reads the rows that follow, in the text of a dump, a statement that ends at
/// byte `offset`. The block starts on the line after the one that holds
/// `offset`; an offset beyond the text gives no rows.
pub fn rows_of_inline_block(dump: &str, offset: usize) -> (r: Vec<Vec<Option<String>>>)
    ensures
        r.deep_view() == rows_after(dump.spec_bytes(), offset as int),
{
    let start = line_after(dump.as_bytes(), offset);
    read_rows(dump, start)
}

/// The index of the first row from `from` on that does not have `columns`
/// fields, or the number of rows if all of them have.
pub open spec fn first_misfit(columns: nat, rows: Seq<Seq<Option<Seq<char>>>>, from: int) -> int
    decreases rows.len() - from,
{
    if !(0 <= from < rows.len()) {
        rows.len() as int
    } else if rows[from].len() != columns {
        from
    } else {
        first_misfit(columns, rows, from + 1)
    }
}

/// Every row has `columns` fields.
pub open spec fn rows_fit(columns: nat, rows: Seq<Seq<Option<Seq<char>>>>) -> bool {
    forall|i: int| 0 <= i < rows.len() ==> (#[trigger] rows[i]).len() == columns
}

/// `rows` as the rows of a table with `columns` columns: the rows as they
/// are where each has one field for each column, else the error that names
/// the first row that has not.
pub open spec fn fitting(columns: nat, rows: Seq<Seq<Option<Seq<char>>>>) -> Result<
    Seq<Seq<Option<Seq<char>>>>,
    ImportError,
> {
    if first_misfit(columns, rows, 0) >= rows.len() {
        Ok(rows)
    } else {
        Err(ImportError::CorruptRow { row: first_misfit(columns, rows, 0) as usize })
    }
}

/// The first row that does not fit is a row that does not fit, and the rows
/// before it do; there is none exactly if all rows fit.
pub proof fn lemma_first_misfit(columns: nat, rows: Seq<Seq<Option<Seq<char>>>>, from: int)
    requires
        0 <= from <= rows.len(),
    ensures
        from <= first_misfit(columns, rows, from) <= rows.len(),
        forall|i: int|
            from <= i < first_misfit(columns, rows, from) ==> (#[trigger] rows[i]).len()
                == columns,
        first_misfit(columns, rows, from) < rows.len() ==> rows[first_misfit(
            columns,
            rows,
            from,
        )].len() != columns,
        from == 0 ==> (rows_fit(columns, rows) <==> first_misfit(columns, rows, 0) == rows.len()),
    decreases rows.len() - from,
{
    if from < rows.len() && rows[from].len() == columns {
        lemma_first_misfit(columns, rows, from + 1);
    }
}

/// Checks that each of `rows` has `columns` fields.
pub fn check_rows(columns: usize, rows: &Vec<Vec<Option<String>>>) -> (r: Result<(), ImportError>)
    ensures
        match r {
            Ok(_) => rows_fit(columns as nat, rows.deep_view()) && fitting(
                columns as nat,
                rows.deep_view(),
            ) == Ok::<Seq<Seq<Option<Seq<char>>>>, ImportError>(rows.deep_view()),
            Err(e) => !rows_fit(columns as nat, rows.deep_view()) && fitting(
                columns as nat,
                rows.deep_view(),
            ) == Err::<Seq<Seq<Option<Seq<char>>>>, ImportError>(e),
        },
{
    let ghost all = rows.deep_view();
    let mut i: usize = 0;
    while i < rows.len()
        invariant
            all == rows.deep_view(),
            i <= rows@.len(),
            first_misfit(columns as nat, all, 0) == first_misfit(columns as nat, all, i as int),
        decreases rows@.len() - i,
    {
        assert(all[i as int].len() == rows@[i as int]@.len());
        if rows[i].len() != columns {
            proof {
                lemma_first_misfit(columns as nat, all, 0);
            }
            return Err(ImportError::CorruptRow { row: i });
        }
        i += 1;
    }
    proof {
        lemma_first_misfit(columns as nat, all, 0);
    }
    Ok(())
}

/// How many tabs the bytes from `from` up to `to` hold.
pub open spec fn tabs_in(s: Seq<u8>, from: int, to: int) -> nat
    decreases to - from,
{
    if from >= to {
        0
    } else if s[from] == TAB {
        tabs_in(s, from + 1, to) + 1
    } else {
        tabs_in(s, from + 1, to)
    }
}

/// A line gives one field more than it has tabs: no field is dropped and
/// none is made up, however many columns the table has.
pub proof fn lemma_fields_count(s: Seq<u8>, from: int, to: int)
    requires
        0 <= from <= to <= s.len(),
    ensures
        fields_of(s, from, to).len() == tabs_in(s, from, to) + 1,
    decreases to - from,
{
    lemma_find_byte_bounds(s, TAB, from);
    let tab = find_byte(s, TAB, from);
    lemma_no_tab_before(s, from, to);
    if tab < to {
        lemma_fields_count(s, tab + 1, to);
    }
}

proof fn lemma_no_tab_before(s: Seq<u8>, from: int, to: int)
    requires
        0 <= from <= to <= s.len(),
    ensures
        find_byte(s, TAB, from) >= to ==> tabs_in(s, from, to) == 0,
        find_byte(s, TAB, from) < to ==> tabs_in(s, from, to) == tabs_in(
            s,
            find_byte(s, TAB, from) + 1,
            to,
        ) + 1,
    decreases to - from,
{
    lemma_find_byte_bounds(s, TAB, from);
    if from < to && s[from] != TAB {
        lemma_no_tab_before(s, from + 1, to);
    }
}

/// A block whose first line is the end mark has no rows.
pub proof fn lemma_empty_block(s: Seq<u8>, i: int)
    requires
        0 <= i < s.len(),
        is_end_mark(s, i, line_stop(s, i)),
    ensures
        rows_from(s, i) == Seq::<Seq<Option<Seq<char>>>>::empty(),
{
}

proof fn lemma_find_byte_in_prefix(s: Seq<u8>, b: u8, i: int, e: int)
    requires
        0 <= i <= e <= s.len(),
    ensures
        find_byte(s, b, i) < e ==> find_byte(s.subrange(0, e), b, i) == find_byte(s, b, i),
        find_byte(s, b, i) >= e ==> find_byte(s.subrange(0, e), b, i) == e,
    decreases e - i,
{
    lemma_find_byte_bounds(s, b, i);
    if i < e {
        assert(s.subrange(0, e)[i] == s[i]);
        if s[i] != b {
            lemma_find_byte_in_prefix(s, b, i + 1, e);
        }
    }
}

proof fn lemma_fields_in_prefix(s: Seq<u8>, from: int, to: int, e: int)
    requires
        0 <= from <= to <= e <= s.len(),
    ensures
        fields_of(s.subrange(0, e), from, to) == fields_of(s, from, to),
    decreases to - from,
{
    let p = s.subrange(0, e);
    let tab = find_byte(s, TAB, from);
    lemma_find_byte_in_prefix(s, TAB, from, e);
    lemma_find_byte_bounds(s, TAB, from);
    if from <= tab < to {
        assert(p.subrange(from, tab) =~= s.subrange(from, tab));
        if tab - from == 2 {
            assert(p[from] == s[from] && p[from + 1] == s[from + 1]);
        }
        lemma_fields_in_prefix(s, tab + 1, to, e);
    } else {
        assert(p.subrange(from, to) =~= s.subrange(from, to));
        if to - from == 2 {
            assert(p[from] == s[from] && p[from + 1] == s[from + 1]);
        }
    }
}

proof fn lemma_rows_in_prefix(s: Seq<u8>, i: int, e: int)
    requires
        0 <= i,
        block_end(s, i) == Some(e),
    ensures
        rows_from(s.subrange(0, e), i) == rows_from(s, i),
    decreases s.len() - i,
{
    let p = s.subrange(0, e);
    lemma_block_end_bounds(s, i);
    lemma_find_byte_bounds(s, LF, i);
    lemma_find_byte_in_prefix(s, LF, i, e);
    let f = find_byte(s, LF, i);
    let stop = line_stop(s, i);
    if f == s.len() {
        // the block ends with the text
        assert(block_end(s, s.len() as int) is None);
        assert(is_end_mark(s, i, stop));
        assert(p =~= s);
    } else {
        if !is_end_mark(s, i, stop) {
            lemma_block_end_bounds(s, f + 1);
        }
        assert(f < e);
        assert(p[f] == s[f]);
        if i < f {
            assert(p[f - 1] == s[f - 1]);
        }
        assert(line_stop(p, i) == stop);
        assert(next_line(p, i) == f + 1);
        if stop - i == 2 {
            assert(p[i] == s[i] && p[i + 1] == s[i + 1]);
        }
        assert(is_end_mark(p, i, stop) == is_end_mark(s, i, stop));
        if !is_end_mark(s, i, stop) {
            lemma_fields_in_prefix(s, i, stop, e);
            lemma_rows_in_prefix(s, f + 1, e);
        }
    }
}

/// The reader of rows and the reader of statements agree on where a block
/// of rows ends. Where a block follows a bulk copy that ends at `end`, its
/// rows are read from the text up to the position where the reading of
/// statements goes on, and from nothing behind it.
pub proof fn lemma_rows_end_where_statements_go_on(s: Seq<u8>, end: int)
    requires
        0 <= end <= s.len(),
        block_end(s, next_line(s, end)) is Some,
    ensures
        end < after_rows(s, end) <= s.len(),
        rows_after(s.subrange(0, after_rows(s, end)), end) == rows_after(s, end),
{
    let start = next_line(s, end);
    let e = after_rows(s, end);
    lemma_find_byte_bounds(s, LF, end);
    lemma_block_end_bounds(s, start);
    lemma_find_byte_in_prefix(s, LF, end, e);
    assert(next_line(s.subrange(0, e), end) == start);
    lemma_rows_in_prefix(s, start, e);
}

} // verus!
