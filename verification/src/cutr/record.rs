//! Delimited records: reading them from bytes and writing them back, both
//! left to the `csv` crate, whose quoting rules the engine takes as given.

use csv::StringRecord;
use vstd::prelude::*;

verus! {

/// `csv::StringRecord`, one record as the reader yields it. Nothing of its
/// inside is known but through the functions below.
#[verifier::external_type_specification]
#[verifier::external_body]
pub struct ExStringRecord(csv::StringRecord);

/// `csv::Error`, carried from the reader or the writer to the text that
/// describes it.
#[verifier::external_type_specification]
#[verifier::external_body]
pub struct ExCsvError(csv::Error);

/// The fields of a record, in order, quoting already resolved.
pub uninterp spec fn record_fields(record: StringRecord) -> Seq<Seq<char>>;

/// The records that a reader without a header row finds in `data` under the
/// given delimiter, in order; `None` stands for a record that the reader
/// reports as an error.
pub uninterp spec fn csv_records(data: Seq<u8>, delimiter: u8) -> Seq<Option<Seq<Seq<char>>>>;

/// The line that a writer makes of one record under the given delimiter,
/// terminator included; `None` where the writer reports an error.
pub uninterp spec fn csv_line(fields: Seq<Seq<char>>, delimiter: u8) -> Option<Seq<u8>>;

/// The texts of a sequence of string slices.
pub open spec fn texts(fields: Seq<&str>) -> Seq<Seq<char>> {
    Seq::new(fields.len(), |i: int| fields[i]@)
}

/// `StringRecord::len`: the number of fields of the record.
#[verifier::external_body]
pub(crate) fn field_count(record: &StringRecord) -> (n: usize)
    ensures
        n == record_fields(*record).len(),
{
    record.len()
}

/// `StringRecord::get`: the field at position `i`, or nothing where the
/// record has no such position.
#[verifier::external_body]
pub(crate) fn field_at<'a>(record: &'a StringRecord, i: usize) -> (field: Option<&'a str>)
    ensures
        match field {
            Some(f) => i < record_fields(*record).len() && f@ == record_fields(*record)[i as int],
            None => i >= record_fields(*record).len(),
        },
{
    record.get(i)
}

/// `ReaderBuilder::from_reader` and `Reader::into_records`, on bytes in
/// memory, with the given delimiter and no header row: every record that the
/// reader yields, in order, the failed ones as errors.
#[verifier::external_body]
pub(crate) fn read_records(data: &[u8], delimiter: u8) -> (records: Vec<
    Result<StringRecord, csv::Error>,
>)
    ensures
        records@.len() == csv_records(data@, delimiter).len(),
        forall|i: int|
            0 <= i < records@.len() ==> match #[trigger] records@[i] {
                Ok(r) => csv_records(data@, delimiter)[i] == Some(record_fields(r)),
                Err(_) => csv_records(data@, delimiter)[i] is None,
            },
{
    csv::ReaderBuilder::new().delimiter(delimiter).has_headers(false).from_reader(
        data,
    ).into_records().collect()
}

/// `WriterBuilder::from_writer` and `Writer::write_record`, into memory, with
/// the given delimiter: the bytes that the writer makes of the one record.
#[verifier::external_body]
pub(crate) fn write_record(fields: &Vec<&str>, delimiter: u8) -> (line: Result<
    Vec<u8>,
    csv::Error,
>)
    ensures
        match line {
            Ok(bytes) => csv_line(texts(fields@), delimiter) == Some(bytes@),
            Err(_) => csv_line(texts(fields@), delimiter) is None,
        },
{
    let mut writer = csv::WriterBuilder::new().delimiter(delimiter).from_writer(Vec::new());
    writer.write_record(fields)?;
    writer.into_inner().map_err(|e| csv::Error::from(e.into_error()))
}

/// The `Display` text of a `csv::Error`.
#[verifier::external_body]
pub(crate) fn error_text(error: &csv::Error) -> (text: String) {
    error.to_string()
}

} // verus!
