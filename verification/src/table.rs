//! Tables: reading CSV text into a header and rows.
//!
//! The CSV reader itself is not verified. What it yields for a text is named
//! here, record by record, and the contract of `parse` says what the table
//! is in terms of those records.
//!
//! Two checks are this module's own, because the reader does not make them
//! or need not be relied on for them. A text that ends inside a quoted field
//! is refused as a whole: the reader would take the rest of the text for
//! the field. And a record that has not as many fields as the header gives
//! no row.

use vstd::prelude::*;
use vstd::string::StringSliceAdditionalSpecFns;
use vstd::utf8::{encode_scalar, encode_utf8};
use crate::row::{Field, FieldView, Fields, Row};
use crate::scan::{all_high, is_ascii_mark, lemma_encode_scalar_marks, lemma_encode_utf8_push};

verus! {

/// `csv::Reader`, which reads records from a source of bytes.
#[verifier::external_type_specification]
#[verifier::external_body]
#[verifier::reject_recursive_types(R)]
pub struct ExCsvReader<R>(csv::Reader<R>);

/// The fields of one record, in the order of the text.
pub type Record = Seq<Seq<char>>;

/// What the reader yields in the place of one record: its fields, or the
/// diagnostic of a record that it found malformed.
pub type RecordOutcome = Result<Record, Seq<char>>;

/// What the reader yields as the header of `text`: the fields of its first
/// record (none, where the text holds no record).
pub uninterp spec fn csv_header(text: Seq<char>) -> RecordOutcome;

/// What the reader yields for the records of `text` after the first, in the
/// order of the text.
pub uninterp spec fn csv_records(text: Seq<char>) -> Seq<RecordOutcome>;

/// The header of the text that a reader was opened on.
pub uninterp spec fn reader_header(reader: csv::Reader<&[u8]>) -> RecordOutcome;

/// What a reader has yet to yield: the records that it has not handed out.
pub uninterp spec fn reader_pending(reader: csv::Reader<&[u8]>) -> Seq<RecordOutcome>;

/// Calls `csv::Reader::from_reader` on the bytes of `text`. The reader has
/// the default settings: comma-delimited, the first record is the header,
/// every record must have as many fields as the first. Nothing is read yet.
#[verifier::external_body]
fn open_reader<'a>(text: &'a str) -> (reader: csv::Reader<&'a [u8]>)
    ensures
        reader_header(reader) == csv_header(text@),
        reader_pending(reader) == csv_records(text@),
{
    csv::Reader::from_reader(text.as_bytes())
}

/// Calls `csv::Reader::headers` and copies the fields out, or the text of
/// the error. The records that the reader has yet to yield stay as they
/// were.
#[verifier::external_body]
fn read_header(reader: &mut csv::Reader<&[u8]>) -> (header: Result<Vec<String>, String>)
    ensures
        record_outcome(header) == reader_header(*old(reader)),
        reader_pending(*final(reader)) == reader_pending(*old(reader)),
{
    match reader.headers() {
        Ok(fields) => Ok(fields.iter().map(String::from).collect()),
        Err(error) => Err(error.to_string()),
    }
}

/// Calls `next` on `csv::Reader::records` and copies the fields out, or the
/// text of the error. The reader hands out the first of the records that it
/// had yet to yield, and `None` where there was none. After a malformed
/// record it goes on with the next.
#[verifier::external_body]
fn next_record(reader: &mut csv::Reader<&[u8]>) -> (next: Option<Result<Vec<String>, String>>)
    ensures
        match next {
            Some(outcome) => {
                &&& reader_pending(*old(reader)).len() > 0
                &&& record_outcome(outcome) == reader_pending(*old(reader)).first()
                &&& reader_pending(*final(reader)) == reader_pending(*old(reader)).drop_first()
            },
            None => {
                &&& reader_pending(*old(reader)).len() == 0
                &&& reader_pending(*final(reader)).len() == 0
            },
        },
{
    match reader.records().next() {
        Some(Ok(record)) => Some(Ok(record.iter().map(String::from).collect())),
        Some(Err(error)) => Some(Err(error.to_string())),
        None => None,
    }
}

/// What came back from the reader, as the contracts see it.
pub open spec fn record_outcome(outcome: Result<Vec<String>, String>) -> RecordOutcome {
    match outcome {
        Ok(fields) => Ok(fields.deep_view()),
        Err(diagnostic) => Err(diagnostic@),
    }
}

/// The fields that the first `count` columns give: each column's name with
/// the record's cell in that column. Where a name stands over several
/// columns, the last of them gives the field.
pub open spec fn zip_prefix(header: Record, record: Record, count: nat) -> Fields
    decreases count,
{
    if count == 0 {
        Fields::empty()
    } else {
        zip_prefix(header, record, (count - 1) as nat).insert(
            header[count - 1],
            FieldView::Text(record[count - 1]),
        )
    }
}

/// The row that `record` gives under a header of as many columns.
pub open spec fn zip_fields(header: Record, record: Record) -> Fields {
    zip_prefix(header, record, header.len())
}

/// The names of a row are the names of the columns that gave it.
pub proof fn lemma_zip_names(header: Record, record: Record, count: nat)
    requires
        count <= header.len(),
    ensures
        zip_prefix(header, record, count).dom() == header.take(count as int).to_set(),
    decreases count,
{
    if count == 0 {
        assert(header.take(0).to_set() =~= Set::<Seq<char>>::empty());
    } else {
        let before = (count - 1) as nat;
        lemma_zip_names(header, record, before);
        let shorter = header.take(before as int);
        let longer = header.take(count as int);
        let last = header[count - 1];
        assert(longer.to_set() =~= shorter.to_set().insert(last)) by {
            assert forall|name: Seq<char>| longer.to_set().contains(name) implies shorter.to_set()
                .insert(last).contains(name) by {
                let at = choose|at: int| 0 <= at < count && longer[at] == name;
                if at < before {
                    assert(shorter[at] == name);
                }
            }
            assert forall|name: Seq<char>| shorter.to_set().insert(last).contains(
                name,
            ) implies longer.to_set().contains(name) by {
                if name == last {
                    assert(longer[count - 1] == name);
                } else {
                    let at = choose|at: int| 0 <= at < before && shorter[at] == name;
                    assert(longer[at] == name);
                }
            }
        }
    }
}

/// A row holds, under a column's name, the record's cell in the last column
/// of that name.
pub proof fn lemma_zip_lookup(header: Record, record: Record, count: nat, column: int)
    requires
        0 <= column < count,
        forall|later: int| column < later < count ==> header[later] != header[column],
    ensures
        zip_prefix(header, record, count).contains_key(header[column]),
        zip_prefix(header, record, count)[header[column]] == FieldView::Text(record[column]),
    decreases count,
{
    if column < count - 1 {
        lemma_zip_lookup(header, record, (count - 1) as nat, column);
    }
}

/// Builds the row that `record` gives under `header`: each column's name
/// with the record's cell in that column. A record that has not as many
/// fields as the header gives no row.
pub fn row_from_record(header: &Vec<String>, record: &Vec<String>) -> (built: Option<Row>)
    ensures
        built is Some <==> record.len() == header.len(),
        built matches Some(row) ==> row@ == zip_fields(header.deep_view(), record.deep_view()),
{
    if record.len() != header.len() {
        return None;
    }
    let mut row = Row::new();
    let mut column: usize = 0;
    while column < header.len()
        invariant
            column <= header.len(),
            record.len() == header.len(),
            row@ == zip_prefix(header.deep_view(), record.deep_view(), column as nat),
        decreases header.len() - column,
    {
        let cell = record[column].clone();
        row.insert(header[column].as_str(), Field::Text(cell));
        column += 1;
    }
    Some(row)
}

/// A table read from CSV text.
#[derive(Debug, PartialEq)]
pub struct CsvTable {
    /// The names of the columns, as the first record of the text gives them.
    pub header: Vec<String>,
    /// The records after the first, each mapped onto the header.
    pub rows: Vec<Row>,
}

/// A table as the contracts see it.
pub struct TableView {
    pub header: Record,
    pub rows: Seq<Fields>,
}

impl View for CsvTable {
    type V = TableView;

    open spec fn view(&self) -> TableView {
        TableView {
            header: self.header.deep_view(),
            rows: Seq::new(self.rows@.len(), |at: int| self.rows@[at]@),
        }
    }
}

/// Why a text is not a table.
#[derive(Debug, PartialEq, Eq)]
pub enum ParseError {
    /// A quoted field is opened, and the text ends before it is closed.
    /// `line` is the line on which the field opens, from 1.
    OpenQuote { line: usize },
    /// The reader could not give the header; `message` is its diagnostic.
    Header { message: String },
    /// The reader found a record malformed. `record` is the number of the
    /// record among those after the header, from 1; `message` is the
    /// reader's diagnostic, which describes the offending line.
    Record { record: usize, message: String },
    /// A record has not as many fields as the header. `record` is its
    /// number among those after the header, from 1.
    FieldCount { record: usize, expected: usize, found: usize },
}

/// A parse failure as the contracts see it.
pub enum Failure {
    OpenQuote { line: nat },
    Header { message: Seq<char> },
    Record { record: nat, message: Seq<char> },
    FieldCount { record: nat, expected: nat, found: nat },
}

impl View for ParseError {
    type V = Failure;

    open spec fn view(&self) -> Failure {
        match self {
            ParseError::OpenQuote { line } => Failure::OpenQuote { line: *line as nat },
            ParseError::Header { message } => Failure::Header { message: message@ },
            ParseError::Record { record, message } => Failure::Record {
                record: *record as nat,
                message: message@,
            },
            ParseError::FieldCount { record, expected, found } => Failure::FieldCount {
                record: *record as nat,
                expected: *expected as nat,
                found: *found as nat,
            },
        }
    }
}

/// Where a scan of CSV text stands with respect to quoting.
#[derive(Clone, Copy, Debug)]
pub enum QuoteState {
    /// At the start of a field.
    Start,
    /// In a field that did not begin with a quote: a quote in it is a
    /// character like any other.
    Unquoted,
    /// In a field that began with a quote, which is not closed yet.
    Quoted,
    /// After a quote in a quoted field: it closes the field, unless another
    /// quote follows, which makes the two a quote character of the field.
    Closing,
}

/// Whether a character ends a field: the comma, and the two line ends.
pub open spec fn ends_field(mark: char) -> bool {
    mark == ',' || mark == '\n' || mark == '\r'
}

/// The state after `mark` is read in `state`.
pub open spec fn quote_step(state: QuoteState, mark: char) -> QuoteState {
    match state {
        QuoteState::Quoted => if mark == '"' {
            QuoteState::Closing
        } else {
            QuoteState::Quoted
        },
        QuoteState::Unquoted => if ends_field(mark) {
            QuoteState::Start
        } else {
            QuoteState::Unquoted
        },
        QuoteState::Start | QuoteState::Closing => if mark == '"' {
            QuoteState::Quoted
        } else if ends_field(mark) {
            QuoteState::Start
        } else {
            QuoteState::Unquoted
        },
    }
}

/// What a scan of CSV text knows after some of the text.
pub struct QuoteScan {
    /// Where the scan stands with respect to quoting.
    pub state: QuoteState,
    /// The number of line feeds read.
    pub breaks: nat,
    /// The number of line feeds read before the quote that opened the last
    /// quoted field.
    pub opened: nat,
}

/// The scan before anything is read.
pub open spec fn scan_start() -> QuoteScan {
    QuoteScan { state: QuoteState::Start, breaks: 0, opened: 0 }
}

/// The scan after `mark` is read.
pub open spec fn scan_step(scan: QuoteScan, mark: char) -> QuoteScan {
    QuoteScan {
        state: quote_step(scan.state, mark),
        breaks: if mark == '\n' {
            scan.breaks + 1
        } else {
            scan.breaks
        },
        opened: if scan.state is Start && mark == '"' {
            scan.breaks
        } else {
            scan.opened
        },
    }
}

/// The scan after all of `text` is read.
pub open spec fn quote_scan(text: Seq<char>) -> QuoteScan
    decreases text.len(),
{
    if text.len() == 0 {
        scan_start()
    } else {
        scan_step(quote_scan(text.drop_last()), text.last())
    }
}

/// The byte-order mark, which the reader passes over at the start of a
/// text.
pub const BYTE_ORDER_MARK: char = '\u{feff}';

/// A text without the byte-order mark that it may begin with.
pub open spec fn without_mark(text: Seq<char>) -> Seq<char> {
    if text.len() > 0 && text[0] == BYTE_ORDER_MARK {
        text.drop_first()
    } else {
        text
    }
}

/// Whether a text ends inside a quoted field: a quote opened a field and no
/// quote closed it.
pub open spec fn quote_left_open(text: Seq<char>) -> bool {
    quote_scan(without_mark(text)).state is Quoted
}

/// The line on which the last quoted field of a text opens, counted from 1
/// by the line feeds before it.
pub open spec fn open_quote_line(text: Seq<char>) -> nat {
    quote_scan(without_mark(text)).opened + 1
}

/// `scan_step` on the bytes of a text. A byte of 0x80 or above is part of
/// a character that is no mark.
spec fn scan_byte_step(scan: QuoteScan, byte: u8) -> QuoteScan {
    if byte == 0x22 {
        scan_step(scan, '"')
    } else if byte == 0x0a {
        scan_step(scan, '\n')
    } else if byte == 0x2c || byte == 0x0d {
        scan_step(scan, ',')
    } else {
        scan_step(scan, 'x')
    }
}

/// `quote_scan` on the bytes of a text.
spec fn quote_byte_scan(bytes: Seq<u8>) -> QuoteScan
    decreases bytes.len(),
{
    if bytes.len() == 0 {
        scan_start()
    } else {
        scan_byte_step(quote_byte_scan(bytes.drop_last()), bytes.last())
    }
}

/// The bytes of a character that is no ASCII character move the scan as
/// one character that is no mark.
proof fn lemma_scan_high_bytes(bytes: Seq<u8>, high: Seq<u8>)
    requires
        high.len() >= 1,
        all_high(high),
    ensures
        quote_byte_scan(bytes + high) == scan_step(quote_byte_scan(bytes), 'x'),
    decreases high.len(),
{
    let whole = bytes + high;
    assert(whole.last() == high.last());
    if high.len() == 1 {
        assert(whole.drop_last() =~= bytes);
    } else {
        assert(whole.drop_last() =~= bytes + high.drop_last());
        assert(all_high(high.drop_last())) by {
            assert forall|at: int| 0 <= at < high.drop_last().len() implies #[trigger] high
                .drop_last()[at] >= 0x80 by {
                assert(high[at] >= 0x80);
            }
        }
        lemma_scan_high_bytes(bytes, high.drop_last());
    }
}

/// The byte of an ASCII character moves the scan as the character does.
proof fn lemma_scan_ascii_step(scan: QuoteScan, mark: char)
    requires
        is_ascii_mark(mark),
    ensures
        scan_byte_step(scan, mark as u8) == scan_step(scan, mark),
{
    assert(mark == '"' <==> (mark as u8) == 0x22u8);
    assert(mark == ',' <==> (mark as u8) == 0x2cu8);
    assert(mark == '\n' <==> (mark as u8) == 0x0au8);
    assert(mark == '\r' <==> (mark as u8) == 0x0du8);
}

/// The scan of the bytes of a text ends as the scan of the text.
proof fn lemma_scan_bytes(text: Seq<char>)
    ensures
        quote_byte_scan(encode_utf8(text)) == quote_scan(text),
    decreases text.len(),
{
    if text.len() == 0 {
        assert(encode_utf8(text) =~= Seq::<u8>::empty());
    } else {
        let front = text.drop_last();
        let last = text.last();
        assert(text =~= front.push(last));
        lemma_encode_utf8_push(front, last);
        lemma_encode_scalar_marks(last);
        lemma_scan_bytes(front);
        let bytes = encode_utf8(front);
        let tail = encode_scalar(last as u32);
        if is_ascii_mark(last) {
            assert((bytes + tail).drop_last() =~= bytes);
            assert((bytes + tail).last() == last as u8);
            lemma_scan_ascii_step(quote_scan(front), last);
        } else {
            lemma_scan_high_bytes(bytes, tail);
        }
    }
}

/// A scan has read no more line feeds than characters, and a quoted field
/// opens after the line feeds in front of it.
proof fn lemma_scan_bounds(bytes: Seq<u8>)
    ensures
        quote_byte_scan(bytes).breaks <= bytes.len(),
        quote_byte_scan(bytes).opened <= quote_byte_scan(bytes).breaks,
        quote_byte_scan(bytes).state is Quoted ==> quote_byte_scan(bytes).opened < bytes.len(),
        quote_byte_scan(bytes).state is Closing ==> quote_byte_scan(bytes).opened < bytes.len(),
    decreases bytes.len(),
{
    if bytes.len() > 0 {
        lemma_scan_bounds(bytes.drop_last());
    }
}

/// What the scan of a text's bytes keeps while it runs.
struct ByteScan {
    state: QuoteState,
    breaks: usize,
    opened: usize,
}

impl View for ByteScan {
    type V = QuoteScan;

    closed spec fn view(&self) -> QuoteScan {
        QuoteScan { state: self.state, breaks: self.breaks as nat, opened: self.opened as nat }
    }
}

/// The scan after `byte` is read.
fn step_scan(scan: ByteScan, byte: u8) -> (next: ByteScan)
    requires
        scan.breaks < usize::MAX,
    ensures
        next@ == scan_byte_step(scan@, byte),
{
    let ends = byte == 0x2c || byte == 0x0a || byte == 0x0d;
    let state = match scan.state {
        QuoteState::Quoted => if byte == 0x22 {
            QuoteState::Closing
        } else {
            QuoteState::Quoted
        },
        QuoteState::Unquoted => if ends {
            QuoteState::Start
        } else {
            QuoteState::Unquoted
        },
        QuoteState::Start | QuoteState::Closing => if byte == 0x22 {
            QuoteState::Quoted
        } else if ends {
            QuoteState::Start
        } else {
            QuoteState::Unquoted
        },
    };
    let opens = match scan.state {
        QuoteState::Start => byte == 0x22,
        _ => false,
    };
    ByteScan {
        state,
        breaks: if byte == 0x0a {
            scan.breaks + 1
        } else {
            scan.breaks
        },
        opened: if opens {
            scan.breaks
        } else {
            scan.opened
        },
    }
}

/// The byte-order mark is three bytes in UTF-8.
proof fn lemma_mark_bytes(text: Seq<char>)
    requires
        text.len() > 0,
        text[0] == BYTE_ORDER_MARK,
    ensures
        encode_utf8(text) == seq![0xefu8, 0xbbu8, 0xbfu8] + encode_utf8(text.drop_first()),
        encode_utf8(text).skip(3) == encode_utf8(text.drop_first()),
{
    let scalar = 0xfeffu32;
    assert(text[0] as u32 == scalar);
    assert(0xE0u8 | ((scalar >> 12) & 0x0F) as u8 == 0xefu8) by (bit_vector)
        requires
            scalar == 0xfeffu32,
    ;
    assert(0x80u8 | ((scalar >> 6) & 0x3F) as u8 == 0xbbu8) by (bit_vector)
        requires
            scalar == 0xfeffu32,
    ;
    assert(0x80u8 | (scalar & 0x3F) as u8 == 0xbfu8) by (bit_vector)
        requires
            scalar == 0xfeffu32,
    ;
    assert(encode_scalar(scalar) =~= seq![0xefu8, 0xbbu8, 0xbfu8]);
    assert(encode_utf8(text) =~= encode_scalar(scalar) + encode_utf8(text.drop_first()));
    assert((seq![0xefu8, 0xbbu8, 0xbfu8] + encode_utf8(text.drop_first())).skip(3)
        =~= encode_utf8(text.drop_first()));
}

/// Looks for a quoted field that the text ends in. Where there is one, the
/// line on which it opens comes back.
pub fn find_open_quote(text: &str) -> (line: Option<usize>)
    ensures
        line is Some <==> quote_left_open(text@),
        line matches Some(number) ==> number == open_quote_line(text@),
{
    let bytes = text.as_bytes();
    let marked = !text.is_empty() && text.get_char(0) == BYTE_ORDER_MARK;
    let first: usize = if marked {
        proof {
            lemma_mark_bytes(text@);
        }
        3
    } else {
        0
    };
    let ghost rest = bytes@.skip(first as int);
    proof {
        if !marked {
            assert(rest =~= bytes@);
        }
        assert(rest == encode_utf8(without_mark(text@)));
    }
    let mut scan = ByteScan { state: QuoteState::Start, breaks: 0, opened: 0 };
    let mut at: usize = first;
    while at < bytes.len()
        invariant
            first <= at <= bytes.len(),
            rest == bytes@.skip(first as int),
            scan@ == quote_byte_scan(rest.take(at - first)),
        decreases bytes.len() - at,
    {
        proof {
            assert(rest.take(at - first + 1).drop_last() =~= rest.take(at - first));
            assert(rest.take(at - first + 1).last() == bytes@[at as int]);
            lemma_scan_bounds(rest.take(at - first));
        }
        scan = step_scan(scan, bytes[at]);
        at += 1;
    }
    proof {
        assert(rest.take(at - first) =~= rest);
        lemma_scan_bytes(without_mark(text@));
        lemma_scan_bounds(rest);
    }
    match scan.state {
        QuoteState::Quoted => Some(scan.opened + 1),
        _ => None,
    }
}

/// Whether `text` ends inside a quoted field.
pub fn has_open_quote(text: &str) -> (open: bool)
    ensures
        open == quote_left_open(text@),
{
    find_open_quote(text).is_some()
}

/// The most rows that a parse under `limit` reads.
pub open spec fn row_cap(limit: Option<usize>) -> nat {
    match limit {
        Some(count) => count as nat,
        None => usize::MAX as nat,
    }
}

/// The records of `text` that a parse under `limit` looks at.
pub open spec fn scanned(text: Seq<char>, limit: Option<usize>) -> Seq<RecordOutcome> {
    let records = csv_records(text);
    if row_cap(limit) < records.len() {
        records.take(row_cap(limit) as int)
    } else {
        records
    }
}

/// Whether the reader gave a record, and the record has `width` fields.
pub open spec fn fits(width: nat, outcome: RecordOutcome) -> bool {
    outcome matches Ok(record) && record.len() == width
}

/// The number of records of `width` fields that `outcomes` begins with.
pub open spec fn leading_good(width: nat, outcomes: Seq<RecordOutcome>) -> nat
    decreases outcomes.len(),
{
    if outcomes.len() == 0 || !fits(width, outcomes.first()) {
        0
    } else {
        1 + leading_good(width, outcomes.drop_first())
    }
}

/// Why the record with the number `record` gives no row.
pub open spec fn record_failure(width: nat, record: nat, outcome: RecordOutcome) -> Failure {
    match outcome {
        Err(message) => Failure::Record { record, message },
        Ok(fields) => Failure::FieldCount { record, expected: width, found: fields.len() },
    }
}

/// The table that `header` and `outcomes` give: one row for each record, in
/// order. The first record that the reader found malformed, or that has not
/// as many fields as the header, fails the whole table.
pub open spec fn assembled(header: Record, outcomes: Seq<RecordOutcome>) -> Result<
    TableView,
    Failure,
> {
    let good = leading_good(header.len(), outcomes);
    if good < outcomes.len() {
        Err(record_failure(header.len(), good + 1, outcomes[good as int]))
    } else {
        Ok(
            TableView {
                header,
                rows: Seq::new(outcomes.len(), |at: int| zip_fields(header, outcomes[at]->Ok_0)),
            },
        )
    }
}

/// What parsing `text` under `limit` gives. A text that ends inside a quoted
/// field fails, whatever the limit: the whole text is looked at for this.
/// So does a header that the reader cannot give, and the first malformed
/// record among those that the parse reads. A record beyond the limit is
/// not read, so a fault of its own does not fail a parse under the limit.
pub open spec fn parsed(text: Seq<char>, limit: Option<usize>) -> Result<TableView, Failure> {
    if quote_left_open(text) {
        Err(Failure::OpenQuote { line: open_quote_line(text) })
    } else {
        match csv_header(text) {
            Err(message) => Err(Failure::Header { message }),
            Ok(header) => assembled(header, scanned(text, limit)),
        }
    }
}

/// What the reader handed out, as the contracts see it.
pub open spec fn outcomes_view(outcomes: Seq<Result<Vec<String>, String>>) -> Seq<RecordOutcome> {
    Seq::new(outcomes.len(), |at: int| record_outcome(outcomes[at]))
}

/// What `assemble` or `parse` gave back, as the contracts see it.
pub open spec fn parse_view(result: Result<CsvTable, ParseError>) -> Result<TableView, Failure> {
    match result {
        Ok(table) => Ok(table@),
        Err(error) => Err(error@),
    }
}

/// Every row has the names of the header, and no other.
pub open spec fn rows_cover_header(table: TableView) -> bool {
    forall|at: int|
        0 <= at < table.rows.len() ==> (#[trigger] table.rows[at]).dom() == table.header.to_set()
}

/// Where the first `good` of `outcomes` are records of `width` fields and
/// the next, if there is one, is not, `outcomes` begins with exactly `good`
/// such records.
pub proof fn lemma_leading_good(width: nat, outcomes: Seq<RecordOutcome>, good: nat)
    requires
        good <= outcomes.len(),
        forall|at: int| 0 <= at < good ==> fits(width, #[trigger] outcomes[at]),
        good < outcomes.len() ==> !fits(width, outcomes[good as int]),
    ensures
        leading_good(width, outcomes) == good,
    decreases good,
{
    if good > 0 {
        assert(fits(width, outcomes[0]));
        let rest = outcomes.drop_first();
        assert forall|at: int| 0 <= at < good - 1 implies fits(width, #[trigger] rest[at]) by {
            assert(rest[at] == outcomes[at + 1]);
        }
        lemma_leading_good(width, rest, (good - 1) as nat);
    }
}

/// The records that `outcomes` begins with have `width` fields, and what
/// follows them, if anything does, is no such record.
pub proof fn lemma_leading_good_ends(width: nat, outcomes: Seq<RecordOutcome>)
    ensures
        leading_good(width, outcomes) <= outcomes.len(),
        forall|at: int|
            0 <= at < leading_good(width, outcomes) ==> fits(width, #[trigger] outcomes[at]),
        leading_good(width, outcomes) < outcomes.len() ==> !fits(
            width,
            outcomes[leading_good(width, outcomes) as int],
        ),
    decreases outcomes.len(),
{
    if outcomes.len() > 0 && fits(width, outcomes.first()) {
        let rest = outcomes.drop_first();
        lemma_leading_good_ends(width, rest);
        assert forall|at: int| 0 <= at < leading_good(width, outcomes) implies fits(
            width,
            #[trigger] outcomes[at],
        ) by {
            if at > 0 {
                assert(rest[at - 1] == outcomes[at]);
            }
        }
        if leading_good(width, outcomes) < outcomes.len() {
            assert(rest[leading_good(width, rest) as int] == outcomes[leading_good(
                width,
                outcomes,
            ) as int]);
        }
    }
}

/// Every table that a parse gives has, in each row, the names of the header
/// and no other.
pub proof fn lemma_parsed_rows_cover_header(text: Seq<char>, limit: Option<usize>)
    requires
        parsed(text, limit) is Ok,
    ensures
        rows_cover_header(parsed(text, limit)->Ok_0),
{
    let header = csv_header(text)->Ok_0;
    let outcomes = scanned(text, limit);
    lemma_leading_good_ends(header.len(), outcomes);
    let table = parsed(text, limit)->Ok_0;
    assert forall|at: int| 0 <= at < table.rows.len() implies (#[trigger] table.rows[at]).dom()
        == table.header.to_set() by {
        assert(fits(header.len(), outcomes[at]));
        lemma_zip_names(header, outcomes[at]->Ok_0, header.len());
        assert(header.take(header.len() as int) =~= header);
    }
}

/// A well-formed text parses, without a limit, into one row for each record
/// after the header. Well-formed is a text that closes its quotes, and for
/// which the reader gives a header and then only records of as many fields
/// as the header. (A `Vec` holds at most `usize::MAX` rows, so the text must
/// have no more records.)
pub proof fn lemma_valid_text_parses(text: Seq<char>)
    requires
        !quote_left_open(text),
        csv_header(text) is Ok,
        forall|at: int|
            0 <= at < csv_records(text).len() ==> fits(
                csv_header(text)->Ok_0.len(),
                #[trigger] csv_records(text)[at],
            ),
        csv_records(text).len() <= usize::MAX,
    ensures
        parsed(text, None) is Ok,
        parsed(text, None)->Ok_0.header == csv_header(text)->Ok_0,
        parsed(text, None)->Ok_0.rows.len() == csv_records(text).len(),
        rows_cover_header(parsed(text, None)->Ok_0),
{
    let outcomes = scanned(text, None);
    assert(outcomes =~= csv_records(text));
    lemma_leading_good(csv_header(text)->Ok_0.len(), outcomes, outcomes.len());
    lemma_parsed_rows_cover_header(text, None);
}

/// Where a text parses without a limit, it parses under every limit, and
/// the rows are then the first rows of the whole table: as many as the
/// limit allows, each as the whole table has it.
pub proof fn lemma_limited_parse_is_prefix(text: Seq<char>, limit: usize)
    requires
        parsed(text, None) is Ok,
    ensures
        parsed(text, Some(limit)) is Ok,
        parsed(text, Some(limit))->Ok_0.header == parsed(text, None)->Ok_0.header,
        limit <= parsed(text, None)->Ok_0.rows.len() ==> parsed(text, Some(limit))->Ok_0.rows
            == parsed(text, None)->Ok_0.rows.take(limit as int),
        limit > parsed(text, None)->Ok_0.rows.len() ==> parsed(text, Some(limit))->Ok_0.rows
            == parsed(text, None)->Ok_0.rows,
{
    let width = csv_header(text)->Ok_0.len();
    let whole = scanned(text, None);
    let part = scanned(text, Some(limit));
    lemma_leading_good_ends(width, whole);
    assert(part.len() <= whole.len());
    assert forall|at: int| 0 <= at < part.len() implies fits(width, #[trigger] part[at]) by {
        assert(part[at] == whole[at]);
    }
    lemma_leading_good(width, part, part.len());
    let all_rows = parsed(text, None)->Ok_0.rows;
    let some_rows = parsed(text, Some(limit))->Ok_0.rows;
    assert forall|at: int| 0 <= at < some_rows.len() implies some_rows[at] == all_rows[at] by {
        assert(part[at] == whole[at]);
    }
    if limit <= all_rows.len() {
        assert(some_rows =~= all_rows.take(limit as int));
    } else {
        assert(some_rows =~= all_rows);
    }
}

/// A text that fails under a limit fails without one: a preview never shows
/// rows of a text that cannot be exported.
pub proof fn lemma_failure_under_limit_fails_whole(text: Seq<char>, limit: usize)
    requires
        parsed(text, Some(limit)) is Err,
    ensures
        parsed(text, None) is Err,
{
    if parsed(text, None) is Ok {
        lemma_limited_parse_is_prefix(text, limit);
    }
}

/// Builds the table from the header and from what the reader handed out for
/// the records: a row for each record, in order, or the failure of the
/// first record that is malformed or has not as many fields as the header.
pub fn assemble(
    header: Vec<String>,
    outcomes: Vec<Result<Vec<String>, String>>,
) -> (result: Result<CsvTable, ParseError>)
    ensures
        parse_view(result) == assembled(header.deep_view(), outcomes_view(outcomes@)),
        result matches Ok(table) ==> rows_cover_header(table@),
{
    let ghost names = header.deep_view();
    let ghost records = outcomes_view(outcomes@);
    let mut rows: Vec<Row> = Vec::new();
    let mut at: usize = 0;
    while at < outcomes.len()
        invariant
            at <= outcomes.len(),
            rows.len() == at,
            names == header.deep_view(),
            records == outcomes_view(outcomes@),
            forall|before: int|
                0 <= before < at ==> {
                    &&& fits(names.len(), #[trigger] records[before])
                    &&& rows@[before]@ == zip_fields(names, records[before]->Ok_0)
                },
        decreases outcomes.len() - at,
    {
        match &outcomes[at] {
            Ok(record) => {
                match row_from_record(&header, record) {
                    Some(row) => {
                        rows.push(row);
                    },
                    None => {
                        proof {
                            lemma_leading_good(names.len(), records, at as nat);
                        }
                        return Err(
                            ParseError::FieldCount {
                                record: at + 1,
                                expected: header.len(),
                                found: record.len(),
                            },
                        );
                    },
                }
            },
            Err(message) => {
                proof {
                    lemma_leading_good(names.len(), records, at as nat);
                }
                return Err(ParseError::Record { record: at + 1, message: message.clone() });
            },
        }
        at += 1;
    }
    let table = CsvTable { header, rows };
    proof {
        lemma_leading_good(names.len(), records, at as nat);
        let expected = assembled(names, records)->Ok_0;
        assert(table@.rows =~= expected.rows);
        assert forall|row: int| 0 <= row < at implies (#[trigger] table@.rows[row]).dom()
            == names.to_set() by {
            lemma_zip_names(names, records[row]->Ok_0, names.len());
            assert(names.take(names.len() as int) =~= names);
        }
    }
    Ok(table)
}

/// Reads records until `cap` of them are read, the text ends, or the reader
/// finds a record malformed. What comes back is what the reader had yet to
/// yield, up to that point.
fn read_records(reader: &mut csv::Reader<&[u8]>, cap: usize) -> (outcomes: Vec<
    Result<Vec<String>, String>,
>)
    ensures
        outcomes.len() <= cap,
        outcomes.len() <= reader_pending(*old(reader)).len(),
        outcomes_view(outcomes@) == reader_pending(*old(reader)).take(outcomes.len() as int),
        forall|at: int| 0 <= at < outcomes.len() - 1 ==> (#[trigger] outcomes[at]) is Ok,
        outcomes.len() == cap || outcomes.len() == reader_pending(*old(reader)).len()
            || (outcomes.len() > 0 && outcomes[outcomes.len() - 1] is Err),
{
    let ghost pending = reader_pending(*reader);
    let mut outcomes: Vec<Result<Vec<String>, String>> = Vec::new();
    let mut failed = false;
    while outcomes.len() < cap && !failed
        invariant_except_break
            reader_pending(*reader) == pending.skip(outcomes.len() as int),
        invariant
            outcomes.len() <= cap,
            outcomes.len() <= pending.len(),
            outcomes_view(outcomes@) == pending.take(outcomes.len() as int),
            forall|at: int| 0 <= at < outcomes.len() - 1 ==> (#[trigger] outcomes[at]) is Ok,
            failed <==> outcomes.len() > 0 && outcomes[outcomes.len() - 1] is Err,
        ensures
            outcomes.len() == cap || outcomes.len() == pending.len() || failed,
        decreases cap - outcomes.len(),
    {
        let ghost read = outcomes.len() as int;
        let ghost before = outcomes@;
        match next_record(reader) {
            None => {
                break ;
            },
            Some(outcome) => {
                failed = outcome.is_err();
                outcomes.push(outcome);
                proof {
                    assert(pending.skip(read).first() == pending[read]);
                    assert(pending.skip(read).drop_first() =~= pending.skip(read + 1));
                    assert(outcomes_view(outcomes@) =~= pending.take(read + 1)) by {
                        assert forall|at: int| 0 <= at < read + 1 implies outcomes_view(
                            outcomes@,
                        )[at] == pending.take(read + 1)[at] by {
                            if at < read {
                                assert(outcomes@[at] == before[at]);
                                assert(outcomes_view(before)[at] == pending.take(read)[at]);
                            }
                        }
                    }
                }
            },
        }
    }
    outcomes
}

/// Reads `text` as comma-separated values, the first record being the
/// header. With a limit, at most that many rows are read; without one,
/// every row is read (as many as a `Vec` can hold).
///
/// A text that ends inside a quoted field fails as a whole, under every
/// limit: an open quote takes in all that follows it, so no part of such a
/// text can be relied on. Otherwise a malformed record fails the parse: the
/// header, if the reader cannot give it, else the first among the records
/// read that the reader finds malformed or that has not as many fields as
/// the header. A record beyond the limit is not read, and a fault in it
/// shows only in a parse that reaches it.
pub fn parse(text: &str, limit: Option<usize>) -> (result: Result<CsvTable, ParseError>)
    ensures
        parse_view(result) == parsed(text@, limit),
        result matches Ok(table) ==> rows_cover_header(table@),
{
    match find_open_quote(text) {
        Some(line) => {
            return Err(ParseError::OpenQuote { line });
        },
        None => {},
    }
    let mut reader = open_reader(text);
    let header = match read_header(&mut reader) {
        Ok(header) => header,
        Err(message) => {
            return Err(ParseError::Header { message });
        },
    };
    let cap = match limit {
        Some(count) => count,
        None => usize::MAX,
    };
    let outcomes = read_records(&mut reader, cap);
    proof {
        let width = header.deep_view().len();
        let read = outcomes_view(outcomes@);
        let all = scanned(text@, limit);
        let good = leading_good(width, read);
        lemma_leading_good_ends(width, read);
        assert forall|at: int| 0 <= at < read.len() implies read[at] == all[at] by {
            assert(read[at] == csv_records(text@).take(read.len() as int)[at]);
        }
        assert(leading_good(width, all) == good) by {
            assert forall|at: int| 0 <= at < good implies fits(width, #[trigger] all[at]) by {
                assert(fits(width, read[at]));
            }
            if good < all.len() {
                if good < read.len() {
                    assert(all[good as int] == read[good as int]);
                } else {
                    assert(read.len() > 0 && read[read.len() - 1] is Err);
                    assert(fits(width, read[read.len() - 1]));
                }
            }
            lemma_leading_good(width, all, good);
        }
        if good == all.len() {
            assert(read =~= all);
        }
    }
    assemble(header, outcomes)
}

} // verus!
