//! The billing export: cleaning its bytes and mapping its records.
//!
//! The export is tab separated and strewn with NUL bytes. It is read once as
//! delimited records, every field is cleaned and put on a line of its own,
//! doubled line breaks are collapsed, and the cleaned text is read again as
//! delimited records, which are bound to billing rows by column.

use crate::calendar::{billing_instant, billing_instant_outcome, Timestamp};
use crate::text::{push_char, text_is, text_of, texts};
use vstd::prelude::*;

verus! {

/// One activity of the billing system.
#[derive(Debug)]
pub struct InvoicingRow {
    pub teacher_name: String,
    pub eligible: bool,
    pub activity_start: Timestamp,
    pub activity_end: Timestamp,
    pub shift: String,
}

/// What an [`InvoicingRow`] holds.
pub struct BillingRow {
    pub teacher_name: Seq<char>,
    pub eligible: bool,
    pub activity_start: Timestamp,
    pub activity_end: Timestamp,
    pub shift: Seq<char>,
}

impl View for InvoicingRow {
    type V = BillingRow;

    open spec fn view(&self) -> BillingRow {
        BillingRow {
            teacher_name: self.teacher_name@,
            eligible: self.eligible,
            activity_start: self.activity_start,
            activity_end: self.activity_end,
            shift: self.shift@,
        }
    }
}

impl Clone for InvoicingRow {
    fn clone(&self) -> (r: Self)
        ensures
            r@ == self@,
    {
        InvoicingRow {
            teacher_name: self.teacher_name.clone(),
            eligible: self.eligible,
            activity_start: self.activity_start,
            activity_end: self.activity_end,
            shift: self.shift.clone(),
        }
    }
}

/// The billing rows of a vector.
pub open spec fn billing(rows: Seq<InvoicingRow>) -> Seq<BillingRow> {
    rows.map_values(|r: InvoicingRow| r@)
}

/// Why a record of the billing export gave no row.
#[derive(Clone, Copy, Debug, PartialEq, Eq, Structural)]
pub enum RowFault {
    /// The record has fewer fields than the column binding reaches.
    MissingColumn,
    /// The start or the end of the activity cannot be read.
    MalformedDate,
}

/// Column of the teacher's name.
pub const BILLING_TEACHER_COLUMN: usize = 4;

/// Column of the eligibility status.
pub const BILLING_STATUS_COLUMN: usize = 5;

/// Column of the start of the activity.
pub const BILLING_START_COLUMN: usize = 7;

/// Column of the end of the activity.
pub const BILLING_END_COLUMN: usize = 8;

/// Column of the shift's label.
pub const BILLING_SHIFT_COLUMN: usize = 9;

/// Number of fields a record needs for every bound column to exist.
pub const BILLING_WIDTH: usize = 10;

/// The status text of an activity that is payable.
pub open spec fn eligible_text() -> Seq<char> {
    "Eligible"@
}

/// The export's text with its noise removed: NUL bytes dropped, tabs turned
/// into commas, every other byte taken as the character of that code.
pub open spec fn invoicing_text(bytes: Seq<u8>) -> Seq<char>
    decreases bytes.len(),
{
    if bytes.len() == 0 {
        Seq::empty()
    } else if bytes.last() == 0 {
        invoicing_text(bytes.drop_last())
    } else if bytes.last() == 9 {
        invoicing_text(bytes.drop_last()).push(',')
    } else {
        invoicing_text(bytes.drop_last()).push(bytes.last() as char)
    }
}

/// Cleaning of the raw billing export.
pub struct InvoicingParser {}

impl InvoicingParser {
    /// Cleans the bytes of a billing export: NUL bytes are dropped, tabs
    /// become commas, and every other byte becomes the character of its code.
    pub fn parse_invoicing_file(bytes: &[u8]) -> (lines: String)
        ensures
            lines@ == invoicing_text(bytes@),
    {
        let mut lines = String::new();
        let mut i: usize = 0;
        assert(bytes@.take(0) =~= Seq::<u8>::empty());
        while i < bytes.len()
            invariant
                i <= bytes.len(),
                lines@ == invoicing_text(bytes@.take(i as int)),
            decreases bytes.len() - i,
        {
            let byte = bytes[i];
            assert(bytes@.take(i as int + 1).drop_last() =~= bytes@.take(i as int));
            assert(bytes@.take(i as int + 1).last() == byte);
            if byte == 0 {
            } else if byte == 9 {
                push_char(&mut lines, ',');
            } else {
                push_char(&mut lines, byte as char);
            }
            i = i + 1;
        }
        assert(bytes@.take(bytes.len() as int) =~= bytes@);
        lines
    }
}

/// A field of the export cleaned for the second reading: NUL bytes and line
/// feeds dropped, tabs turned into commas, every other byte taken as the
/// character of that code.
pub open spec fn clean_field(bytes: Seq<u8>) -> Seq<char>
    decreases bytes.len(),
{
    if bytes.len() == 0 {
        Seq::empty()
    } else if bytes.last() == 0 || bytes.last() == 10 {
        clean_field(bytes.drop_last())
    } else if bytes.last() == 9 {
        clean_field(bytes.drop_last()).push(',')
    } else {
        clean_field(bytes.drop_last()).push(bytes.last() as char)
    }
}

/// The cleaned fields of a record, each followed by a line feed.
pub open spec fn clean_record(fields: Seq<Seq<u8>>) -> Seq<char>
    decreases fields.len(),
{
    if fields.len() == 0 {
        Seq::empty()
    } else {
        clean_record(fields.drop_last()) + clean_field(fields.last()).push('\n')
    }
}

/// The cleaned records of an export, one after the other.
pub open spec fn clean_records(records: Seq<Seq<Seq<u8>>>) -> Seq<char>
    decreases records.len(),
{
    if records.len() == 0 {
        Seq::empty()
    } else {
        clean_records(records.drop_last()) + clean_record(records.last())
    }
}

/// `s` with every pair of line feeds replaced by one, pairs being taken from
/// the left and not overlapping.
pub open spec fn collapsed(s: Seq<char>) -> Seq<char>
    decreases s.len(),
{
    if s.len() < 2 {
        s
    } else if s[0] == '\n' && s[1] == '\n' {
        seq!['\n'] + collapsed(s.skip(2))
    } else {
        seq![s[0]] + collapsed(s.skip(1))
    }
}

/// The fields of a record, as byte sequences.
pub open spec fn byte_fields(record: Seq<Vec<u8>>) -> Seq<Seq<u8>> {
    record.map_values(|f: Vec<u8>| f@)
}

/// The records of an export, as byte sequences.
pub open spec fn byte_records(records: Seq<Vec<Vec<u8>>>) -> Seq<Seq<Seq<u8>>> {
    records.map_values(|r: Vec<Vec<u8>>| byte_fields(r@))
}

fn append_clean_field(out: &mut Vec<char>, field: &Vec<u8>)
    ensures
        final(out)@ == old(out)@ + clean_field(field@),
{
    let mut i: usize = 0;
    assert(field@.take(0) =~= Seq::<u8>::empty());
    assert(out@ =~= old(out)@ + clean_field(field@.take(0)));
    while i < field.len()
        invariant
            i <= field.len(),
            out@ == old(out)@ + clean_field(field@.take(i as int)),
        decreases field.len() - i,
    {
        let byte = field[i];
        assert(field@.take(i as int + 1).drop_last() =~= field@.take(i as int));
        assert(field@.take(i as int + 1).last() == byte);
        if byte == 0 || byte == 10 {
        } else if byte == 9 {
            out.push(',');
        } else {
            out.push(byte as char);
        }
        assert(out@ =~= old(out)@ + clean_field(field@.take(i as int + 1)));
        i = i + 1;
    }
    assert(field@.take(field.len() as int) =~= field@);
}

fn append_clean_record(out: &mut Vec<char>, record: &Vec<Vec<u8>>)
    ensures
        final(out)@ == old(out)@ + clean_record(byte_fields(record@)),
{
    let ghost fields = byte_fields(record@);
    let mut i: usize = 0;
    assert(fields.take(0) =~= Seq::<Seq<u8>>::empty());
    assert(out@ =~= old(out)@ + clean_record(fields.take(0)));
    while i < record.len()
        invariant
            i <= record.len(),
            fields == byte_fields(record@),
            out@ == old(out)@ + clean_record(fields.take(i as int)),
        decreases record.len() - i,
    {
        assert(fields.take(i as int + 1).drop_last() =~= fields.take(i as int));
        assert(fields.take(i as int + 1).last() == record@[i as int]@);
        append_clean_field(out, &record[i]);
        out.push('\n');
        assert(out@ =~= old(out)@ + clean_record(fields.take(i as int + 1)));
        i = i + 1;
    }
    assert(fields.take(record.len() as int) =~= fields);
}

/// Cleans the records of the first reading into one text: every field
/// without its NUL bytes and line feeds, with commas for tabs, on a line of
/// its own.
pub fn clean_export(records: &Vec<Vec<Vec<u8>>>) -> (out: Vec<char>)
    ensures
        out@ == clean_records(byte_records(records@)),
{
    let mut out: Vec<char> = Vec::new();
    let ghost all = byte_records(records@);
    let mut i: usize = 0;
    assert(all.take(0) =~= Seq::<Seq<Seq<u8>>>::empty());
    while i < records.len()
        invariant
            i <= records.len(),
            all == byte_records(records@),
            out@ == clean_records(all.take(i as int)),
        decreases records.len() - i,
    {
        assert(all.take(i as int + 1).drop_last() =~= all.take(i as int));
        assert(all.take(i as int + 1).last() == byte_fields(records@[i as int]@));
        append_clean_record(&mut out, &records[i]);
        i = i + 1;
    }
    assert(all.take(records.len() as int) =~= all);
    out
}

/// Replaces every pair of line feeds by one line feed, taking pairs from the
/// left.
pub fn collapse_line_breaks(s: &Vec<char>) -> (out: Vec<char>)
    ensures
        out@ == collapsed(s@),
{
    let mut out: Vec<char> = Vec::new();
    let mut i: usize = 0;
    assert(s@.skip(0) =~= s@);
    assert(out@ + collapsed(s@.skip(0)) =~= collapsed(s@));
    while i < s.len()
        invariant
            i <= s.len(),
            out@ + collapsed(s@.skip(i as int)) == collapsed(s@),
        decreases s.len() - i,
    {
        let ghost tail = s@.skip(i as int);
        let ghost previous = out@;
        assert(tail[0] == s@[i as int]);
        if i + 1 < s.len() && s[i] == '\n' && s[i + 1] == '\n' {
            assert(tail[1] == s@[i as int + 1]);
            assert(tail.skip(2) =~= s@.skip(i as int + 2));
            out.push('\n');
            assert(out@ + collapsed(s@.skip(i as int + 2)) =~= previous + collapsed(tail));
            i = i + 2;
        } else {
            proof {
                if tail.len() >= 2 {
                    assert(tail[1] == s@[i as int + 1]);
                    assert(tail.skip(1) =~= s@.skip(i as int + 1));
                } else {
                    assert(s@.skip(i as int + 1) =~= Seq::<char>::empty());
                    assert(collapsed(tail) =~= seq![tail[0]] + collapsed(s@.skip(i as int + 1)));
                }
            }
            out.push(s[i]);
            assert(out@ + collapsed(s@.skip(i as int + 1)) =~= previous + collapsed(tail));
            i = i + 1;
        }
    }
    assert(s@.skip(s.len() as int) =~= Seq::<char>::empty());
    assert(out@ + Seq::<char>::empty() =~= out@);
    out
}

/// What the `csv` reader, as `ReaderBuilder::new()` configures it, makes of
/// `raw` read as byte records: the fields of every record after the header
/// line, or nothing where it reports an error.
pub uninterp spec fn csv_byte_records(raw: Seq<u8>) -> Option<Seq<Seq<Seq<u8>>>>;

/// What the `csv` reader, as `ReaderBuilder::new()` configures it, makes of
/// `text` read as string records: for every record after the header line its
/// fields, or nothing where it reports an error for that record.
pub uninterp spec fn csv_text_records(text: Seq<char>) -> Seq<Option<Seq<Seq<char>>>>;

/// The view of the first reading.
pub open spec fn optional_byte_records(r: Option<Vec<Vec<Vec<u8>>>>) -> Option<
    Seq<Seq<Seq<u8>>>,
> {
    match r {
        Some(v) => Some(byte_records(v@)),
        None => None,
    }
}

/// The fields of a record of the second reading.
pub open spec fn optional_texts(record: Option<Vec<String>>) -> Option<Seq<Seq<char>>> {
    match record {
        Some(fields) => Some(texts(fields@)),
        None => None,
    }
}

/// The view of the second reading.
pub open spec fn text_records(records: Seq<Option<Vec<String>>>) -> Seq<Option<Seq<Seq<char>>>> {
    records.map_values(|r: Option<Vec<String>>| optional_texts(r))
}

/// Reads `raw` as delimited byte records.
///
/// Assumed of `csv::Reader::byte_records`, on a reader that
/// `csv::ReaderBuilder::new().from_reader` made: what it yields depends on
/// the bytes alone. The result is `None` as soon as it yields an error.
#[verifier::external_body]
fn read_byte_records(raw: &[u8]) -> (r: Option<Vec<Vec<Vec<u8>>>>)
    ensures
        optional_byte_records(r) == csv_byte_records(raw@),
{
    let mut reader = csv::ReaderBuilder::new().from_reader(raw);
    let mut out: Vec<Vec<Vec<u8>>> = Vec::new();
    for record in reader.byte_records() {
        match record {
            Ok(fields) => {
                let mut copied: Vec<Vec<u8>> = Vec::new();
                for field in fields.iter() {
                    copied.push(field.to_vec());
                }
                out.push(copied);
            },
            Err(_) => return None,
        }
    }
    Some(out)
}

/// Reads `text` as delimited string records.
///
/// Assumed of `csv::Reader::into_records`, on a reader that
/// `csv::ReaderBuilder::new().from_reader` made: what it yields depends on
/// the text alone. A record that it reports as an error is `None`.
#[verifier::external_body]
fn read_text_records(text: &str) -> (r: Vec<Option<Vec<String>>>)
    ensures
        text_records(r@) == csv_text_records(text@),
{
    let reader = csv::ReaderBuilder::new().from_reader(text.as_bytes());
    let mut out: Vec<Option<Vec<String>>> = Vec::new();
    for record in reader.into_records() {
        match record {
            Ok(fields) => {
                let mut copied: Vec<String> = Vec::new();
                for field in fields.iter() {
                    copied.push(field.to_string());
                }
                out.push(Some(copied));
            },
            Err(_) => out.push(None),
        }
    }
    out
}

/// The row that the fields of a record stand for.
pub open spec fn billing_row(fields: Seq<Seq<char>>) -> Result<BillingRow, RowFault> {
    if fields.len() < BILLING_WIDTH {
        Err(RowFault::MissingColumn)
    } else {
        match (
            billing_instant_outcome(fields[BILLING_START_COLUMN as int]),
            billing_instant_outcome(fields[BILLING_END_COLUMN as int]),
        ) {
            (Ok(start), Ok(end)) => Ok(
                BillingRow {
                    teacher_name: fields[BILLING_TEACHER_COLUMN as int],
                    eligible: fields[BILLING_STATUS_COLUMN as int] == eligible_text(),
                    activity_start: start,
                    activity_end: end,
                    shift: fields[BILLING_SHIFT_COLUMN as int],
                },
            ),
            _ => Err(RowFault::MalformedDate),
        }
    }
}

/// The record takes part in the mapping: the reader gave it without error,
/// and it has a field.
pub open spec fn usable(record: Option<Seq<Seq<char>>>) -> bool {
    record matches Some(fields) && fields.len() > 0
}

/// The rows of the records that start on `day`, in order.
pub open spec fn billing_rows(records: Seq<Option<Seq<Seq<char>>>>, day: Timestamp) -> Seq<
    BillingRow,
>
    decreases records.len(),
{
    if records.len() == 0 {
        Seq::empty()
    } else {
        let head = billing_rows(records.drop_last(), day);
        if usable(records.last()) {
            match billing_row(records.last()->0) {
                Ok(row) => if row.activity_start.same_day(&day) {
                    head.push(row)
                } else {
                    head
                },
                Err(_) => head,
            }
        } else {
            head
        }
    }
}

/// The number of usable records that gave no row because of `fault`.
pub open spec fn faulty_records(records: Seq<Option<Seq<Seq<char>>>>, fault: RowFault) -> nat
    decreases records.len(),
{
    if records.len() == 0 {
        0
    } else {
        let head = faulty_records(records.drop_last(), fault);
        if usable(records.last()) && billing_row(records.last()->0) == Err::<BillingRow, RowFault>(
            fault,
        ) {
            head + 1
        } else {
            head
        }
    }
}

/// The billing rows of one export for one day, and the numbers of records
/// left out for a missing column and for a date that cannot be read.
pub struct BillingSheet {
    pub rows: Vec<InvoicingRow>,
    pub missing_column: usize,
    pub malformed_date: usize,
}

/// Binds the fields of a record to a billing row.
///
/// A record with fewer than ten fields gives `MissingColumn`; one whose
/// start or end cannot be read gives `MalformedDate`. The activity is
/// eligible exactly when its status is the text `Eligible`.
pub fn map_billing_row(fields: &Vec<String>) -> (r: Result<InvoicingRow, RowFault>)
    ensures
        match r {
            Ok(row) => billing_row(texts(fields@)) == Ok::<BillingRow, RowFault>(row@),
            Err(fault) => billing_row(texts(fields@)) == Err::<BillingRow, RowFault>(fault),
        },
        r is Ok ==> r->Ok_0.activity_start.well_formed() && r->Ok_0.activity_end.well_formed(),
{
    if fields.len() < BILLING_WIDTH {
        return Err(RowFault::MissingColumn);
    }
    let start = billing_instant(fields[BILLING_START_COLUMN].as_str());
    let end = billing_instant(fields[BILLING_END_COLUMN].as_str());
    match (start, end) {
        (Ok(activity_start), Ok(activity_end)) => Ok(
            InvoicingRow {
                teacher_name: fields[BILLING_TEACHER_COLUMN].clone(),
                eligible: text_is(&fields[BILLING_STATUS_COLUMN], "Eligible"),
                activity_start,
                activity_end,
                shift: fields[BILLING_SHIFT_COLUMN].clone(),
            },
        ),
        _ => Err(RowFault::MalformedDate),
    }
}

/// Maps the records of the second reading onto the billing rows of `day`.
///
/// Records that the reader reported as errors, and records without a field,
/// are passed over. Of the others, each gives a row or is counted under its
/// fault; of the rows, those whose activity starts on `day` are kept, in
/// order.
pub fn map_billing_records(records: &Vec<Option<Vec<String>>>, day: &Timestamp) -> (sheet:
    BillingSheet)
    ensures
        billing(sheet.rows@) == billing_rows(text_records(records@), *day),
        sheet.missing_column == faulty_records(text_records(records@), RowFault::MissingColumn),
        sheet.malformed_date == faulty_records(text_records(records@), RowFault::MalformedDate),
{
    let mut rows: Vec<InvoicingRow> = Vec::new();
    let mut missing_column: usize = 0;
    let mut malformed_date: usize = 0;
    let ghost all = text_records(records@);
    let mut i: usize = 0;
    assert(all.take(0) =~= Seq::<Option<Seq<Seq<char>>>>::empty());
    assert(billing(rows@) =~= Seq::<BillingRow>::empty());
    while i < records.len()
        invariant
            i <= records.len(),
            all == text_records(records@),
            billing(rows@) == billing_rows(all.take(i as int), *day),
            missing_column == faulty_records(all.take(i as int), RowFault::MissingColumn),
            malformed_date == faulty_records(all.take(i as int), RowFault::MalformedDate),
            missing_column <= i,
            malformed_date <= i,
        decreases records.len() - i,
    {
        assert(all.take(i as int + 1).drop_last() =~= all.take(i as int));
        assert(all.take(i as int + 1).last() == optional_texts(records@[i as int]));
        match &records[i] {
            Some(fields) => {
                if fields.len() > 0 {
                    match map_billing_row(fields) {
                        Ok(row) => {
                            if row.activity_start.same_calendar_day(day) {
                                let ghost previous = billing(rows@);
                                let ghost added = row@;
                                rows.push(row);
                                assert(billing(rows@) =~= previous.push(added));
                            }
                        },
                        Err(RowFault::MissingColumn) => {
                            missing_column = missing_column + 1;
                        },
                        Err(RowFault::MalformedDate) => {
                            malformed_date = malformed_date + 1;
                        },
                    }
                }
            },
            None => {},
        }
        i = i + 1;
    }
    assert(all.take(records.len() as int) =~= all);
    BillingSheet { rows, missing_column, malformed_date }
}

/// The records of the second reading of an export, or nothing where the
/// first reading fails.
pub open spec fn export_records(raw: Seq<u8>) -> Option<Seq<Option<Seq<Seq<char>>>>> {
    match csv_byte_records(raw) {
        Some(records) => Some(csv_text_records(collapsed(clean_records(records)))),
        None => None,
    }
}

/// Reads a billing export and maps it onto the billing rows of `day`.
///
/// The bytes are read as delimited records, cleaned, collapsed and read
/// again; the result is `None` exactly when the first reading reports an
/// error. Each reading takes its first record for a header, so the first two
/// lines of an export give no row.
pub fn read_billing_export(raw: &[u8], day: &Timestamp) -> (r: Option<BillingSheet>)
    ensures
        match (r, export_records(raw@)) {
            (Some(sheet), Some(records)) => {
                &&& billing(sheet.rows@) == billing_rows(records, *day)
                &&& sheet.missing_column == faulty_records(records, RowFault::MissingColumn)
                &&& sheet.malformed_date == faulty_records(records, RowFault::MalformedDate)
            },
            (None, None) => true,
            _ => false,
        },
{
    match read_byte_records(raw) {
        Some(first) => {
            let cleaned = clean_export(&first);
            let text = text_of(&collapse_line_breaks(&cleaned));
            let second = read_text_records(text.as_str());
            Some(map_billing_records(&second, day))
        },
        None => None,
    }
}

} // verus!
