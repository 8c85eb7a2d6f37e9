//! The table that a conversion writes: a header row, then one row for each
//! line that the decoding tool printed, in the order of arrival.
//!
//! A line is cut at every semicolon and its pieces become the cells of a
//! row. Rows are encoded by the `csv` crate, with the semicolon as the
//! delimiter. Nothing asks that a row has as many cells as the header.

use crate::catalog::FieldView;
use crate::invocation::header_cells;
use vstd::pervasive::unreached;
use vstd::prelude::*;
use vstd::slice::{slice_subrange, slice_to_vec};
use vstd::string::*;
use vstd::utf8::encode_utf8;

verus! {

/// The byte that separates the cells of a line: `;`.
pub const SEPARATOR: u8 = 59;

/// The length of the part of `line` before its first separator; the length
/// of `line` where it has none.
pub open spec fn first_cell_len(line: Seq<u8>) -> int
    decreases line.len(),
{
    if line.len() == 0 || line[0] == SEPARATOR {
        0
    } else {
        1 + first_cell_len(line.drop_first())
    }
}

/// The cells of a line: the pieces between its separators, empty pieces
/// included. A line without a separator is one cell, even when it is empty.
pub open spec fn split_fields(line: Seq<u8>) -> Seq<Seq<u8>>
    decreases line.len(),
{
    let cut = first_cell_len(line);
    if 0 <= cut < line.len() {
        seq![line.take(cut)] + split_fields(line.skip(cut + 1))
    } else {
        seq![line]
    }
}

/// `first_cell_len` stops at the first separator and nowhere before it.
pub proof fn lemma_first_cell_len(line: Seq<u8>)
    ensures
        0 <= first_cell_len(line) <= line.len(),
        forall|i: int| 0 <= i < first_cell_len(line) ==> line[i] != SEPARATOR,
        first_cell_len(line) < line.len() ==> line[first_cell_len(line)] == SEPARATOR,
    decreases line.len(),
{
    if !(line.len() == 0 || line[0] == SEPARATOR) {
        let rest = line.drop_first();
        lemma_first_cell_len(rest);
        assert forall|i: int| 0 <= i < first_cell_len(line) implies line[i] != SEPARATOR by {
            if i > 0 {
                assert(rest[i - 1] == line[i]);
            }
        }
        if first_cell_len(line) < line.len() {
            assert(rest[first_cell_len(rest)] == line[first_cell_len(line)]);
        }
    }
}

/// A position with no separator before it, and with a separator or the end
/// of the line at it, is where the first cell ends.
pub proof fn lemma_first_cell_ends_at(line: Seq<u8>, end: int)
    requires
        0 <= end <= line.len(),
        forall|i: int| 0 <= i < end ==> line[i] != SEPARATOR,
        end < line.len() ==> line[end] == SEPARATOR,
    ensures
        first_cell_len(line) == end,
{
    lemma_first_cell_len(line);
    let found = first_cell_len(line);
    if found < end {
        assert(line[found] == SEPARATOR);
    } else if end < found {
        assert(line[end] == SEPARATOR);
    }
}

/// How many separators a line holds.
pub open spec fn count_separators(line: Seq<u8>) -> nat
    decreases line.len(),
{
    if line.len() == 0 {
        0
    } else if line[0] == SEPARATOR {
        1 + count_separators(line.drop_first())
    } else {
        count_separators(line.drop_first())
    }
}

/// The line that is cut into the given cells: the cells in order, with one
/// separator between neighbours.
pub open spec fn join_fields(cells: Seq<Seq<u8>>) -> Seq<u8>
    decreases cells.len(),
{
    if cells.len() == 0 {
        Seq::empty()
    } else if cells.len() == 1 {
        cells[0]
    } else {
        cells[0] + seq![SEPARATOR] + join_fields(cells.drop_first())
    }
}

/// The part of a line before its first separator holds no separator, and
/// what follows that separator holds one separator less than the line.
proof fn lemma_count_after_first_cell(line: Seq<u8>)
    ensures
        first_cell_len(line) >= line.len() ==> count_separators(line) == 0,
        first_cell_len(line) < line.len() ==> count_separators(line) == 1 + count_separators(
            line.skip(first_cell_len(line) + 1),
        ),
    decreases line.len(),
{
    lemma_first_cell_len(line);
    if line.len() > 0 {
        let rest = line.drop_first();
        if line[0] == SEPARATOR {
            assert(line.skip(1) =~= rest);
        } else {
            lemma_count_after_first_cell(rest);
            lemma_first_cell_len(rest);
            if first_cell_len(line) < line.len() {
                assert(line.skip(first_cell_len(line) + 1) =~= rest.skip(first_cell_len(rest) + 1));
            }
        }
    }
}

/// A line with n separators is cut into exactly n + 1 cells.
pub proof fn lemma_split_count(line: Seq<u8>)
    ensures
        split_fields(line).len() == count_separators(line) + 1,
    decreases line.len(),
{
    lemma_first_cell_len(line);
    lemma_count_after_first_cell(line);
    let cut = first_cell_len(line);
    if cut < line.len() {
        lemma_split_count(line.skip(cut + 1));
    }
}

/// No cell of a line holds a separator.
pub proof fn lemma_split_cells_hold_no_separator(line: Seq<u8>, k: int, i: int)
    requires
        0 <= k < split_fields(line).len(),
        0 <= i < split_fields(line)[k].len(),
    ensures
        split_fields(line)[k][i] != SEPARATOR,
    decreases line.len(),
{
    lemma_first_cell_len(line);
    let cut = first_cell_len(line);
    if cut < line.len() {
        if k > 0 {
            lemma_split_cells_hold_no_separator(line.skip(cut + 1), k - 1, i);
        }
    }
}

/// Cutting loses nothing and keeps the order: the cells of a line, joined
/// by separators, are the line.
pub proof fn lemma_split_join(line: Seq<u8>)
    ensures
        join_fields(split_fields(line)) == line,
    decreases line.len(),
{
    lemma_first_cell_len(line);
    let cut = first_cell_len(line);
    if cut < line.len() {
        let rest = line.skip(cut + 1);
        lemma_split_join(rest);
        lemma_split_count(rest);
        let cells = split_fields(line);
        assert(cells.drop_first() =~= split_fields(rest));
        assert(line =~= line.take(cut) + seq![SEPARATOR] + rest);
    }
}

/// The cells of a row as byte strings.
pub open spec fn cells_view(cells: Seq<Vec<u8>>) -> Seq<Seq<u8>> {
    Seq::new(cells.len(), |i: int| cells[i]@)
}

/// Cuts a line into its cells.
pub fn split_line(line: &[u8]) -> (cells: Vec<Vec<u8>>)
    ensures
        cells_view(cells@) == split_fields(line@),
{
    let mut cells: Vec<Vec<u8>> = Vec::new();
    let mut start: usize = 0;
    let mut i: usize = 0;
    assert(cells_view(cells@) =~= Seq::<Seq<u8>>::empty());
    assert(line@.skip(0) =~= line@);
    while i < line.len()
        invariant
            start <= i <= line.len(),
            forall|k: int| start <= k < i ==> line@[k] != SEPARATOR,
            split_fields(line@) == cells_view(cells@) + split_fields(line@.skip(start as int)),
        decreases line.len() - i,
    {
        if line[i] == SEPARATOR {
            let cell = slice_to_vec(slice_subrange(line, start, i));
            proof {
                let rest = line@.skip(start as int);
                assert forall|k: int| 0 <= k < i - start implies rest[k] != SEPARATOR by {
                    assert(rest[k] == line@[start + k]);
                }
                lemma_first_cell_ends_at(rest, i - start);
                assert(rest.take(i - start) =~= line@.subrange(start as int, i as int));
                assert(rest.skip(i - start + 1) =~= line@.skip(i + 1));
            }
            let ghost before = cells_view(cells@);
            cells.push(cell);
            assert(cells_view(cells@) =~= before.push(cell@));
            start = i + 1;
        }
        i = i + 1;
    }
    let cell = slice_to_vec(slice_subrange(line, start, i));
    proof {
        let rest = line@.skip(start as int);
        assert forall|k: int| 0 <= k < rest.len() implies rest[k] != SEPARATOR by {
            assert(rest[k] == line@[start + k]);
        }
        lemma_first_cell_ends_at(rest, rest.len() as int);
        assert(rest =~= line@.subrange(start as int, i as int));
    }
    let ghost before = cells_view(cells@);
    cells.push(cell);
    assert(cells_view(cells@) =~= before.push(cell@));
    cells
}

/// The error type of the `csv` crate.
#[verifier::external_type_specification]
#[verifier::external_body]
pub struct ExCsvError(csv::Error);

/// The bytes that the `csv` crate writes for one record with the given
/// cells when `delimiter` separates the cells and every other setting is
/// at its default: the cells, quoted where they need it, with a delimiter
/// between neighbours, and the record terminator.
pub uninterp spec fn csv_record(cells: Seq<Seq<u8>>, delimiter: u8) -> Seq<u8>;

/// Encodes one record with `csv::Writer::write_record`, on a writer of its
/// own that `csv::WriterBuilder` made with the given delimiter and every
/// other setting at its default, and that writes into a vector.
///
/// Trusted: the call succeeds, and what comes back is what the crate writes
/// for these cells, which depends on the cells and the delimiter alone. It
/// succeeds because the crate reports two kinds of error here and neither
/// can arise: a record of another length than the first one, but this
/// record is the writer's first; and a failed write, but a vector takes
/// every write.
#[verifier::external_body]
fn write_record(cells: &Vec<Vec<u8>>, delimiter: u8) -> (encoded: Result<Vec<u8>, csv::Error>)
    ensures
        encoded is Ok,
        encoded matches Ok(bytes) ==> bytes@ == csv_record(cells_view(cells@), delimiter),
{
    let mut writer = csv::WriterBuilder::new().delimiter(delimiter).from_writer(Vec::new());
    match writer.write_record(cells) {
        Ok(()) => {},
        Err(e) => return Err(e),
    }
    match writer.into_inner() {
        Ok(bytes) => Ok(bytes),
        Err(e) => Err(csv::Error::from(e.into_error())),
    }
}

/// The bytes of a row with the given cells: the record that the `csv`
/// crate writes for them with the semicolon as the delimiter.
pub open spec fn encoded_row(cells: Seq<Seq<u8>>) -> Seq<u8> {
    csv_record(cells, SEPARATOR)
}

/// Encodes the cells of one row.
pub fn encode_row(cells: &Vec<Vec<u8>>) -> (row: Vec<u8>)
    ensures
        row@ == encoded_row(cells_view(cells@)),
{
    match write_record(cells, SEPARATOR) {
        Ok(bytes) => bytes,
        Err(_) => unreached(),
    }
}

/// The cells of a header as byte strings: each cell in UTF-8.
pub open spec fn utf8_cells(cells: Seq<Seq<char>>) -> Seq<Seq<u8>> {
    Seq::new(cells.len(), |i: int| encode_utf8(cells[i]))
}

/// The header row of a table.
pub open spec fn header_bytes(headers: Seq<Seq<char>>) -> Seq<u8> {
    encoded_row(utf8_cells(headers))
}

/// The row that a line of the decoding tool's output becomes.
pub open spec fn row_bytes(line: Seq<u8>) -> Seq<u8> {
    encoded_row(split_fields(line))
}

/// The rows of the given lines, in the order of the lines.
pub open spec fn rows_bytes(lines: Seq<Seq<u8>>) -> Seq<u8>
    decreases lines.len(),
{
    if lines.len() == 0 {
        Seq::empty()
    } else {
        rows_bytes(lines.drop_last()) + row_bytes(lines.last())
    }
}

/// The whole table: the header row, then the rows of the lines.
pub open spec fn table_bytes(headers: Seq<Seq<char>>, lines: Seq<Seq<u8>>) -> Seq<u8> {
    header_bytes(headers) + rows_bytes(lines)
}

/// Encodes the header row. It is written even where it has no cell.
pub fn header_row(headers: &Vec<String>) -> (row: Vec<u8>)
    ensures
        row@ == header_bytes(headers.deep_view()),
{
    let mut cells: Vec<Vec<u8>> = Vec::new();
    let mut i: usize = 0;
    while i < headers.len()
        invariant
            i <= headers.len(),
            cells_view(cells@) == utf8_cells(headers.deep_view()).take(i as int),
        decreases headers.len() - i,
    {
        let cell = headers[i].as_str().as_bytes_vec();
        let ghost before = cells_view(cells@);
        cells.push(cell);
        assert(cells_view(cells@) =~= before.push(cell@));
        i = i + 1;
        assert(cells_view(cells@) =~= utf8_cells(headers.deep_view()).take(i as int));
    }
    assert(utf8_cells(headers.deep_view()).take(i as int) =~= utf8_cells(headers.deep_view()));
    encode_row(&cells)
}

/// Turns one line of the decoding tool's output into a row: the line is cut
/// at its semicolons and the pieces are written as one record, in order.
pub fn data_row(line: &[u8]) -> (row: Vec<u8>)
    ensures
        row@ == row_bytes(line@),
{
    let cells = split_line(line);
    encode_row(&cells)
}

/// Renders a whole table in memory: the header row first, then one row for
/// each line, in the order of the lines.
pub fn render_table(headers: &Vec<String>, lines: &Vec<Vec<u8>>) -> (table: Vec<u8>)
    ensures
        table@ == table_bytes(headers.deep_view(), cells_view(lines@)),
{
    let mut table = header_row(headers);
    let ghost all = cells_view(lines@);
    let mut i: usize = 0;
    while i < lines.len()
        invariant
            i <= lines.len(),
            all == cells_view(lines@),
            table@ == header_bytes(headers.deep_view()) + rows_bytes(all.take(i as int)),
        decreases lines.len() - i,
    {
        let mut row = data_row(lines[i].as_slice());
        proof {
            assert(all.take(i + 1).drop_last() =~= all.take(i as int));
            assert(all.take(i + 1).last() == lines@[i as int]@);
        }
        table.append(&mut row);
        i = i + 1;
    }
    assert(all.take(i as int) =~= all);
    table
}

/// A table without data rows is its header row alone.
pub proof fn lemma_header_only(headers: Seq<Seq<char>>)
    ensures
        table_bytes(headers, Seq::empty()) == header_bytes(headers),
{
    assert(table_bytes(headers, Seq::empty()) =~= header_bytes(headers));
}

/// A category without columns, converted without a timestamp column, has a
/// header without cells. Where the decoding tool prints nothing for it, the
/// table is that one row.
pub proof fn lemma_table_of_empty_category(fields: Seq<FieldView>, lines: Seq<Seq<u8>>)
    requires
        fields.len() == 0,
        lines.len() == 0,
    ensures
        header_cells(fields, false).len() == 0,
        table_bytes(header_cells(fields, false), lines) == encoded_row(Seq::empty()),
{
    assert(utf8_cells(header_cells(fields, false)) =~= Seq::<Seq<u8>>::empty());
    assert(table_bytes(header_cells(fields, false), lines) =~= header_bytes(
        header_cells(fields, false),
    ));
}

/// A line lines up with the header where it holds one separator less than
/// the header has cells: it is then cut into exactly as many cells.
pub proof fn lemma_row_lines_up_with_header(
    fields: Seq<FieldView>,
    timestamp: bool,
    line: Seq<u8>,
)
    requires
        count_separators(line) + 1 == header_cells(fields, timestamp).len(),
    ensures
        split_fields(line).len() == header_cells(fields, timestamp).len(),
        timestamp ==> split_fields(line).len() == fields.len() + 1,
        !timestamp ==> split_fields(line).len() == fields.len(),
{
    lemma_split_count(line);
}

/// A table grows at its end: the table of the lines read so far, followed
/// by the row of the next line, is the table of all of them. Writing the
/// header and then each row as its line arrives therefore yields the table.
pub proof fn lemma_table_grows(headers: Seq<Seq<char>>, lines: Seq<Seq<u8>>, line: Seq<u8>)
    ensures
        table_bytes(headers, lines.push(line)) == table_bytes(headers, lines) + row_bytes(line),
{
    assert(lines.push(line).drop_last() =~= lines);
    assert(table_bytes(headers, lines.push(line)) =~= table_bytes(headers, lines) + row_bytes(
        line,
    ));
}

/// Rendering is repeatable: two tables rendered from the same header and
/// the same lines are the same bytes.
pub proof fn lemma_table_repeats(
    headers: Seq<Seq<char>>,
    lines: Seq<Seq<u8>>,
    first: Vec<u8>,
    second: Vec<u8>,
)
    requires
        first@ == table_bytes(headers, lines),
        second@ == table_bytes(headers, lines),
    ensures
        first@ == second@,
{
}

} // verus!
