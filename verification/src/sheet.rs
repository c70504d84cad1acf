//! The table as comma-separated text.
//!
//! The records are written by the `csv` crate. Its writer puts a field in
//! quotes where the field holds a comma, a quote or a line break; no cell of a
//! pace table does, so every record of the table is its cells with commas
//! between them and a line feed at the end.

use crate::conversion::{
    distance_estimate_text, estimate_seconds, kph_thousandths, mile_pace_seconds, mph_thousandths,
};
use crate::race::catalog;
use crate::table::{header_cells, lemma_widths, row_cells, table, table_cells, Domain, COLUMNS};
use crate::text::{clock_text, decimal_text, fixed3_text, lemma_decimal_text_len, padded_text};
use vstd::prelude::*;

verus! {

/// The error of the `csv` crate.
#[verifier::external_type_specification]
#[verifier::external_body]
pub struct ExCsvError(csv::Error);

/// Why a table could not be written.
#[derive(Debug, Clone, Copy, PartialEq, Eq, Structural)]
pub enum SheetError {
    /// The record writer reported a failure.
    Writer,
}

impl SheetError {
    /// A sentence for the person who asked for the table.
    pub fn message(&self) -> (text: &'static str)
        ensures
            text@ == "the record writer failed"@,
    {
        "the record writer failed"
    }
}

/// The byte between two fields of a record: a comma.
pub const COMMA: u8 = 44;

/// The byte at the end of a record: a line feed.
pub const LINE_FEED: u8 = 10;

/// A character that a record holds as one byte and without quotes: ASCII,
/// and none of comma, double quote, carriage return, line feed.
pub open spec fn is_plain_char(c: char) -> bool {
    0 <= (c as int) && (c as int) < 128 && c != ',' && c != '"' && c != '\r' && c != '\n'
}

/// A text of plain characters.
pub open spec fn is_plain_text(text: Seq<char>) -> bool {
    forall|i: int| 0 <= i < text.len() ==> is_plain_char(#[trigger] text[i])
}

/// A record that is written without quotes: it has a cell, its cells are
/// plain, and it is not a single empty cell.
pub open spec fn is_plain_record(cells: Seq<Seq<char>>) -> bool {
    &&& cells.len() >= 1
    &&& cells.len() >= 2 || cells[0].len() > 0
    &&& forall|i: int| 0 <= i < cells.len() ==> is_plain_text(#[trigger] cells[i])
}

/// The bytes of an ASCII text.
pub open spec fn ascii_bytes(text: Seq<char>) -> Seq<u8> {
    Seq::new(text.len(), |i: int| text[i] as u8)
}

/// The cells with a comma between each two.
pub open spec fn separated(cells: Seq<Seq<char>>) -> Seq<u8>
    decreases cells.len(),
{
    if cells.len() == 0 {
        Seq::empty()
    } else if cells.len() == 1 {
        ascii_bytes(cells[0])
    } else {
        separated(cells.drop_last()) + seq![COMMA] + ascii_bytes(cells.last())
    }
}

/// A plain record as a line: the cells with commas between them, then a line feed.
pub open spec fn line_bytes(cells: Seq<Seq<char>>) -> Seq<u8> {
    separated(cells) + seq![LINE_FEED]
}

/// The lines of the records, one after the other.
pub open spec fn sheet_bytes(rows: Seq<Seq<Seq<char>>>) -> Seq<u8>
    decreases rows.len(),
{
    if rows.len() == 0 {
        Seq::empty()
    } else {
        sheet_bytes(rows.drop_last()) + line_bytes(rows.last())
    }
}

/// Every record is plain.
pub open spec fn all_plain(rows: Seq<Seq<Seq<char>>>) -> bool {
    forall|k: int| 0 <= k < rows.len() ==> is_plain_record(#[trigger] rows[k])
}

/// What the record writer gives for one record, written alone: its line, or
/// nothing where the writer refuses the record. The writer works on the
/// record's fields and on nothing else, so the same cells always give the same.
pub uninterp spec fn csv_line(cells: Seq<Seq<char>>) -> Option<Seq<u8>>;

/// The record writer takes every record.
pub open spec fn all_written(rows: Seq<Seq<Seq<char>>>) -> bool {
    forall|k: int| 0 <= k < rows.len() ==> csv_line(#[trigger] rows[k]) is Some
}

/// Writes one record with a fresh `csv::Writer` over an empty byte vector:
/// `Writer::from_writer`, then `write_record`, then `into_inner`. What comes
/// back is `csv_line` of the cells. With its default settings the writer
/// copies a field that holds no comma, quote or line break as it is, puts
/// commas between the fields and ends the record with a line feed; only a
/// record that is one empty field is written as two quotes. So much is claimed
/// of a plain record, and of any other only that its line is `csv_line`. That
/// the writer succeeds is not claimed.
#[verifier::external_body]
fn write_line(cells: &Vec<String>) -> (r: Result<Vec<u8>, csv::Error>)
    ensures
        match r {
            Ok(bytes) => csv_line(cells.deep_view()) == Some(bytes@),
            Err(_) => csv_line(cells.deep_view()) is None,
        },
        r is Ok && is_plain_record(cells.deep_view()) ==> r->Ok_0@ == line_bytes(
            cells.deep_view(),
        ),
{
    let mut writer = csv::Writer::from_writer(Vec::new());
    writer.write_record(cells)?;
    match writer.into_inner() {
        Ok(bytes) => Ok(bytes),
        Err(failure) => Err(csv::Error::from(failure.into_error())),
    }
}

/// Takes what the record writer gave for one record: a line is put at the
/// end of the sheet; a failure leaves the sheet as it was and is reported.
pub fn append_line(sheet: &mut Vec<u8>, written: Result<Vec<u8>, csv::Error>) -> (r: Result<
    (),
    SheetError,
>)
    ensures
        written is Ok ==> r is Ok && final(sheet)@ == old(sheet)@ + written->Ok_0@,
        written is Err ==> r == Err::<(), SheetError>(SheetError::Writer) && final(sheet)@ == old(
            sheet,
        )@,
{
    match written {
        Ok(mut line) => {
            sheet.append(&mut line);
            Ok(())
        },
        Err(_) => Err(SheetError::Writer),
    }
}

/// The lines of plain records, one after the other. There is a text exactly
/// where the record writer takes every record; it stops at the first that it
/// refuses.
fn encode(rows: &Vec<Vec<String>>) -> (r: Result<Vec<u8>, SheetError>)
    requires
        all_plain(rows.deep_view()),
    ensures
        r is Ok <==> all_written(rows.deep_view()),
        r is Ok ==> r->Ok_0@ == sheet_bytes(rows.deep_view()),
        r is Err ==> r->Err_0 == SheetError::Writer,
{
    let mut sheet: Vec<u8> = Vec::new();
    let mut i: usize = 0;
    while i < rows.len()
        invariant
            0 <= i <= rows.len(),
            all_plain(rows.deep_view()),
            all_written(rows.deep_view().take(i as int)),
            sheet@ == sheet_bytes(rows.deep_view().take(i as int)),
        decreases rows.len() - i,
    {
        let written = write_line(&rows[i]);
        proof {
            let all = rows.deep_view();
            assert(all[i as int] == rows[i as int].deep_view());
            assert(all.take(i + 1).drop_last() =~= all.take(i as int));
            assert(all.take(i + 1).last() == all[i as int]);
            if written is Ok {
                assert forall|k: int| 0 <= k < i + 1 implies csv_line(
                    #[trigger] all.take(i + 1)[k],
                ) is Some by {
                    if k < i {
                        assert(all.take(i + 1)[k] == all.take(i as int)[k]);
                    }
                }
            } else {
                assert(csv_line(all[i as int]) is None);
            }
        }
        match append_line(&mut sheet, written) {
            Ok(()) => {},
            Err(failure) => {
                return Err(failure);
            },
        }
        i = i + 1;
    }
    assert(rows.deep_view().take(i as int) =~= rows.deep_view());
    Ok(sheet)
}

/// The table of `domain` as comma-separated text: the header line, then the
/// line of each pace in the order of the walk. There is a text exactly where
/// the record writer takes the header and every row.
pub fn render(domain: &Domain) -> (r: Result<Vec<u8>, SheetError>)
    ensures
        r is Ok <==> all_written(table_cells(*domain)),
        r is Ok ==> r->Ok_0@ == sheet_bytes(table_cells(*domain)),
        r is Err ==> r->Err_0 == SheetError::Writer,
{
    let rows = table(domain);
    proof {
        use_type_invariant(domain);
        lemma_table_is_plain(*domain);
    }
    encode(&rows)
}

/// How often `mark` occurs in `bytes`.
pub open spec fn count_of(bytes: Seq<u8>, mark: u8) -> nat
    decreases bytes.len(),
{
    if bytes.len() == 0 {
        0
    } else {
        count_of(bytes.drop_last(), mark) + if bytes.last() == mark {
            1nat
        } else {
            0nat
        }
    }
}

/// What occurs in two texts put together occurs in one of them.
proof fn lemma_count_of_sum(a: Seq<u8>, b: Seq<u8>, mark: u8)
    ensures
        count_of(a + b, mark) == count_of(a, mark) + count_of(b, mark),
    decreases b.len(),
{
    if b.len() == 0 {
        assert(a + b =~= a);
    } else {
        lemma_count_of_sum(a, b.drop_last(), mark);
        assert((a + b).drop_last() =~= a + b.drop_last());
    }
}

/// A plain text holds neither a comma nor a line feed.
proof fn lemma_plain_text_has_no_marks(text: Seq<char>)
    requires
        is_plain_text(text),
    ensures
        count_of(ascii_bytes(text), COMMA) == 0,
        count_of(ascii_bytes(text), LINE_FEED) == 0,
    decreases text.len(),
{
    if text.len() > 0 {
        let front = text.drop_last();
        assert(is_plain_char(text[text.len() - 1]));
        assert forall|i: int| 0 <= i < front.len() implies is_plain_char(#[trigger] front[i]) by {
            assert(front[i] == text[i]);
        }
        lemma_plain_text_has_no_marks(front);
        assert(ascii_bytes(text).drop_last() =~= ascii_bytes(front));
    }
}

/// The cells of a plain record, commas between them, hold a comma fewer
/// than there are cells and no line feed.
proof fn lemma_separated_marks(cells: Seq<Seq<char>>)
    requires
        cells.len() >= 1,
        forall|i: int| 0 <= i < cells.len() ==> is_plain_text(#[trigger] cells[i]),
    ensures
        count_of(separated(cells), COMMA) == cells.len() - 1,
        count_of(separated(cells), LINE_FEED) == 0,
    decreases cells.len(),
{
    assert(is_plain_text(cells[cells.len() - 1]));
    lemma_plain_text_has_no_marks(cells.last());
    if cells.len() >= 2 {
        let front = cells.drop_last();
        assert forall|i: int| 0 <= i < front.len() implies is_plain_text(#[trigger] front[i]) by {
            assert(front[i] == cells[i]);
        }
        lemma_separated_marks(front);
        let comma = seq![COMMA];
        assert(count_of(comma, COMMA) == 1 && count_of(comma, LINE_FEED) == 0) by {
            assert(comma.drop_last() =~= Seq::<u8>::empty());
            reveal_with_fuel(count_of, 2);
        }
        let last = ascii_bytes(cells.last());
        lemma_count_of_sum(separated(front), comma, COMMA);
        lemma_count_of_sum(separated(front) + comma, last, COMMA);
        lemma_count_of_sum(separated(front), comma, LINE_FEED);
        lemma_count_of_sum(separated(front) + comma, last, LINE_FEED);
    }
}

/// The line of a plain record has a comma between each two cells and no
/// other, and one line feed, at its end: split at the commas it falls into as
/// many fields as the record has cells.
pub proof fn lemma_line_marks(cells: Seq<Seq<char>>)
    requires
        is_plain_record(cells),
    ensures
        count_of(line_bytes(cells), COMMA) == cells.len() - 1,
        count_of(line_bytes(cells), LINE_FEED) == 1,
        line_bytes(cells).last() == LINE_FEED,
{
    lemma_separated_marks(cells);
    let end = seq![LINE_FEED];
    assert(count_of(end, COMMA) == 0 && count_of(end, LINE_FEED) == 1) by {
        assert(end.drop_last() =~= Seq::<u8>::empty());
        reveal_with_fuel(count_of, 2);
    }
    lemma_count_of_sum(separated(cells), end, COMMA);
    lemma_count_of_sum(separated(cells), end, LINE_FEED);
}

/// A decimal is plain.
proof fn lemma_decimal_is_plain(n: nat)
    ensures
        is_plain_text(decimal_text(n)),
    decreases n,
{
    if n >= 10 {
        lemma_decimal_is_plain(n / 10);
    }
}

/// A padded decimal is plain and not empty.
proof fn lemma_padded_is_plain(n: nat, width: nat)
    ensures
        is_plain_text(padded_text(n, width)),
        padded_text(n, width).len() >= 1,
{
    lemma_decimal_is_plain(n);
    lemma_decimal_text_len(n);
}

/// A clock text is plain and not empty.
proof fn lemma_clock_is_plain(hours: nat, minutes: nat, seconds: nat)
    ensures
        is_plain_text(clock_text(hours, minutes, seconds)),
        clock_text(hours, minutes, seconds).len() >= 1,
{
    lemma_decimal_is_plain(hours);
    lemma_padded_is_plain(minutes, 2);
    lemma_padded_is_plain(seconds, 2);
}

/// A fixed-point text is plain and not empty.
proof fn lemma_fixed3_is_plain(thousandths: nat)
    ensures
        is_plain_text(fixed3_text(thousandths)),
        fixed3_text(thousandths).len() >= 1,
{
    lemma_decimal_is_plain(thousandths / 1000);
    lemma_padded_is_plain(thousandths % 1000, 3);
}

/// The header is a plain record.
pub proof fn lemma_header_is_plain()
    ensures
        is_plain_record(header_cells()),
{
    reveal_strlit("KM Pace");
    reveal_strlit("KPH");
    reveal_strlit("Mile Pace");
    reveal_strlit("MPH");
    reveal_strlit("5k");
    reveal_strlit("5m");
    reveal_strlit("10k");
    reveal_strlit("15k");
    reveal_strlit("10m");
    reveal_strlit("20k");
    reveal_strlit("Half");
    reveal_strlit("15m");
    reveal_strlit("25k");
    reveal_strlit("20m");
    reveal_strlit("Marathon");
    reveal_strlit("50k");
    reveal_strlit("100k");
    reveal_strlit("100m");
}

/// The row of any pace is a plain record with no empty cell.
pub proof fn lemma_row_is_plain(pace: int)
    requires
        pace >= 1,
    ensures
        is_plain_record(row_cells(pace)),
        forall|i: int|
            0 <= i < row_cells(pace).len() ==> (#[trigger] row_cells(pace)[i]).len() >= 1,
{
    let cells = row_cells(pace);
    lemma_clock_is_plain(0, (pace / 60) as nat, (pace % 60) as nat);
    lemma_fixed3_is_plain(kph_thousandths(pace) as nat);
    let mile = mile_pace_seconds(pace);
    lemma_clock_is_plain(0, (mile / 60) as nat, (mile % 60) as nat);
    lemma_fixed3_is_plain(mph_thousandths(pace) as nat);
    assert forall|i: int| 0 <= i < cells.len() implies is_plain_text(#[trigger] cells[i])
        && cells[i].len() >= 1 by {
        if i >= 4 {
            let cm = catalog()[i - 4].centimetres() as int;
            let t = estimate_seconds(pace, cm);
            assert(cells[i] == distance_estimate_text(pace, cm));
            lemma_clock_is_plain((t / 3600) as nat, ((t / 60) % 60) as nat, (t % 60) as nat);
        }
    }
}

/// Every record of a table is plain.
pub proof fn lemma_table_is_plain(domain: Domain)
    requires
        domain.lowest() >= 1,
    ensures
        all_plain(table_cells(domain)),
{
    let rows = table_cells(domain);
    assert forall|k: int| 0 <= k < rows.len() implies is_plain_record(#[trigger] rows[k]) by {
        if k == 0 {
            lemma_header_is_plain();
        } else {
            lemma_row_is_plain(domain.paces()[k - 1]);
        }
    }
}

/// A table has a line for its header and one for each pace, and every line
/// has a field for each column: a comma fewer than columns, and a line feed
/// at its end.
pub proof fn lemma_table_lines(domain: Domain, k: int)
    requires
        domain.lowest() >= 1,
        0 <= k < table_cells(domain).len(),
    ensures
        table_cells(domain).len() == domain.paces().len() + 1,
        table_cells(domain)[k].len() == COLUMNS,
        count_of(line_bytes(table_cells(domain)[k]), COMMA) == COLUMNS - 1,
        count_of(line_bytes(table_cells(domain)[k]), LINE_FEED) == 1,
        line_bytes(table_cells(domain)[k]).last() == LINE_FEED,
{
    lemma_table_is_plain(domain);
    lemma_line_marks(table_cells(domain)[k]);
    if k == 0 {
        lemma_widths(1);
    } else {
        lemma_widths(domain.paces()[k - 1]);
    }
}

} // verus!
