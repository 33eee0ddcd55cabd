//! Selection of bytes, characters or delimited fields from lines of text.
//!
//! A run is configured by a list of selectors and a mode; it goes through
//! its inputs in order and writes, for each line or record, what the
//! selectors pick.

pub mod extract;
pub mod record;
pub mod selector;

use crate::cutr::extract::{extract_bytes, extract_chars, extract_fields, select};
use crate::cutr::record::{csv_line, csv_records, error_text, read_records, record_fields, write_record};
use crate::cutr::selector::{parse_index, parse_selector, ParseError};
use crate::lines::{line_end, lines_of, strip_eol, stripped_len, LF};
use crate::report::{run_each, run_result, Failure, FileTarget, Outcome, PerFile};
use crate::text::{append, decode, utf8_lossy};
use std::ops::Range;
use vstd::prelude::*;
use vstd::string::StringExecFns;
use vstd::utf8::{decode_utf8, encode_utf8, valid_utf8};

verus! {

/// The selectors of a run, in the order in which the user gave them.
pub type PositionList = Vec<Range<usize>>;

/// What a run selects: fields of delimited records, bytes of lines, or
/// characters of lines.
#[derive(Debug)]
pub enum Extract {
    Fields(PositionList),
    Bytes(PositionList),
    Chars(PositionList),
}

/// A validated configuration: the inputs, the field delimiter, and the mode
/// with its selectors.
#[derive(Debug)]
pub struct Config {
    pub files: Vec<String>,
    pub delimiter: u8,
    pub extract: Extract,
}

/// Why a configuration was refused.
#[derive(Debug)]
pub enum ConfigError {
    /// A selector token is not well-formed; the token is kept.
    InvalidRange(String),
    /// The delimiter is not a single byte; the delimiter is kept.
    InvalidDelimiter(String),
    /// None of the three modes was chosen.
    MissingMode,
    /// More than one of the three modes was chosen.
    ConflictingModes,
}

/// Every token is a well-formed selector, and `list` holds their ranges.
pub open spec fn parsed_as(tokens: Seq<String>, list: Seq<Range<usize>>) -> bool {
    &&& list.len() == tokens.len()
    &&& forall|i: int| 0 <= i < tokens.len() ==> parse_selector(#[trigger] tokens[i]@) == Some(list[i])
}

/// `token` is the first of the tokens that is not a well-formed selector.
pub open spec fn first_invalid(tokens: Seq<String>, token: Seq<char>) -> bool {
    exists|i: int|
        {
            &&& 0 <= i < tokens.len()
            &&& parse_selector(#[trigger] tokens[i]@) is None
            &&& token == tokens[i]@
            &&& forall|j: int| 0 <= j < i ==> parse_selector(#[trigger] tokens[j]@) is Some
        }
}

/// How many of the three options are present.
pub open spec fn modes_given(
    fields: Option<Vec<String>>,
    bytes: Option<Vec<String>>,
    chars: Option<Vec<String>>,
) -> int {
    (if fields is Some { 1int } else { 0 }) + (if bytes is Some { 1int } else { 0 }) + (if chars is Some { 1int } else { 0 })
}

/// The tokens of the option that is present, fields before characters before
/// bytes.
pub open spec fn mode_tokens(
    fields: Option<Vec<String>>,
    bytes: Option<Vec<String>>,
    chars: Option<Vec<String>>,
) -> Seq<String> {
    if fields is Some {
        fields->0@
    } else if chars is Some {
        chars->0@
    } else if bytes is Some {
        bytes->0@
    } else {
        Seq::empty()
    }
}

/// Reads a list of selector tokens, each on its own. The first token that is
/// not well-formed fails the whole list.
pub fn parse_positions(tokens: &Vec<String>) -> (r: Result<PositionList, ParseError>)
    ensures
        match r {
            Ok(list) => parsed_as(tokens@, list@),
            Err(e) => first_invalid(tokens@, e.token@),
        },
{
    let mut list: PositionList = Vec::new();
    let mut i: usize = 0;
    while i < tokens.len()
        invariant
            i <= tokens@.len(),
            list@.len() == i,
            forall|j: int| 0 <= j < i ==> parse_selector(#[trigger] tokens@[j]@) == Some(list@[j]),
        decreases tokens@.len() - i,
    {
        match parse_index(&tokens[i]) {
            Ok(sel) => {
                list.push(sel);
            },
            Err(e) => {
                return Err(e);
            },
        }
        i += 1;
    }
    Ok(list)
}

impl ConfigError {
    /// The text that describes the error.
    pub fn message(&self) -> (text: String)
        ensures
            self matches ConfigError::InvalidRange(t) ==> text@ == "Invalid range \""@ + t@
                + "\""@,
            self matches ConfigError::InvalidDelimiter(d) ==> text@ == "--delim \""@ + d@
                + "\" must be a single byte"@,
            self is MissingMode ==> text@ == "one of --fields, --bytes or --chars is required"@,
            self is ConflictingModes ==> text@
                == "only one of --fields, --bytes or --chars may be given"@,
    {
        match self {
            ConfigError::InvalidRange(t) => {
                let mut text = String::from_str("Invalid range \"");
                text.append(t.as_str());
                text.append("\"");
                text
            },
            ConfigError::InvalidDelimiter(d) => {
                let mut text = String::from_str("--delim \"");
                text.append(d.as_str());
                text.append("\" must be a single byte");
                text
            },
            ConfigError::MissingMode => String::from_str(
                "one of --fields, --bytes or --chars is required",
            ),
            ConfigError::ConflictingModes => String::from_str(
                "only one of --fields, --bytes or --chars may be given",
            ),
        }
    }
}

impl ParseError {
    /// The text that describes the error.
    pub fn message(&self) -> (text: String)
        ensures
            text@ == "Invalid range \""@ + self.token@ + "\""@,
    {
        let mut text = String::from_str("Invalid range \"");
        text.append(self.token.as_str());
        text.append("\"");
        text
    }
}

impl Config {
    /// Validates what the user asked for.
    ///
    /// Exactly one of `fields`, `bytes` and `chars` must be present; its
    /// tokens must all be well-formed selectors; and the delimiter must be a
    /// single byte. The checks are made in this order, and the first that
    /// fails is reported.
    pub fn new(
        files: Vec<String>,
        delimiter: &str,
        fields: Option<Vec<String>>,
        bytes: Option<Vec<String>>,
        chars: Option<Vec<String>>,
    ) -> (r: Result<Config, ConfigError>)
        ensures
            match r {
                Ok(c) => {
                    &&& modes_given(fields, bytes, chars) == 1
                    &&& c.files == files
                    &&& encode_utf8(delimiter@) == seq![c.delimiter]
                    &&& parsed_as(mode_tokens(fields, bytes, chars), c.extract.positions())
                    &&& c.extract is Fields <==> fields is Some
                    &&& c.extract is Bytes <==> bytes is Some
                    &&& c.extract is Chars <==> chars is Some
                },
                Err(ConfigError::ConflictingModes) => modes_given(fields, bytes, chars) > 1,
                Err(ConfigError::MissingMode) => modes_given(fields, bytes, chars) == 0,
                Err(ConfigError::InvalidRange(t)) => {
                    &&& modes_given(fields, bytes, chars) == 1
                    &&& first_invalid(mode_tokens(fields, bytes, chars), t@)
                },
                Err(ConfigError::InvalidDelimiter(d)) => {
                    &&& modes_given(fields, bytes, chars) == 1
                    &&& exists|list: Seq<Range<usize>>|
                        parsed_as(mode_tokens(fields, bytes, chars), list)
                    &&& encode_utf8(delimiter@).len() != 1
                    &&& d@ == delimiter@
                },
            },
    {
        let given: u8 = (if fields.is_some() {
            1u8
        } else {
            0u8
        }) + (if bytes.is_some() {
            1u8
        } else {
            0u8
        }) + (if chars.is_some() {
            1u8
        } else {
            0u8
        });
        if given > 1 {
            return Err(ConfigError::ConflictingModes);
        }
        if given == 0 {
            return Err(ConfigError::MissingMode);
        }
        let parsed = match &fields {
            Some(tokens) => parse_positions(tokens),
            None => match &chars {
                Some(tokens) => parse_positions(tokens),
                None => match &bytes {
                    Some(tokens) => parse_positions(tokens),
                    None => Ok(Vec::new()),
                },
            },
        };
        let list = match parsed {
            Ok(list) => list,
            Err(e) => {
                return Err(ConfigError::InvalidRange(e.token));
            },
        };
        assert(parsed_as(mode_tokens(fields, bytes, chars), list@));
        let delimiter_bytes = delimiter.as_bytes();
        if delimiter_bytes.len() != 1 {
            return Err(ConfigError::InvalidDelimiter(String::from_str(delimiter)));
        }
        let extract = if fields.is_some() {
            Extract::Fields(list)
        } else if chars.is_some() {
            Extract::Chars(list)
        } else {
            Extract::Bytes(list)
        };
        proof {
            assert(encode_utf8(delimiter@) == seq![delimiter_bytes@[0]]);
        }
        Ok(Config { files, delimiter: delimiter_bytes[0], extract })
    }
}

impl Extract {
    /// The selectors of the mode.
    pub open spec fn positions(self) -> Seq<Range<usize>> {
        match self {
            Extract::Fields(p) => p@,
            Extract::Bytes(p) => p@,
            Extract::Chars(p) => p@,
        }
    }
}

/// What the selectors pick out of one line of text: bytes, decoded
/// leniently, or characters.
pub open spec fn cut_text(line: Seq<char>, by_bytes: bool, positions: Seq<Range<usize>>) -> Seq<
    char,
> {
    if by_bytes {
        utf8_lossy(select(encode_utf8(line), positions))
    } else {
        select(line, positions)
    }
}

/// What a run writes for the lines of one input, and whether it failed.
///
/// Each line yields one line of output: what the selectors pick out of it,
/// and a line feed. A line that is not well-formed UTF-8 fails the run;
/// what was written for the lines before it stands.
pub open spec fn text_result(lines: Seq<Seq<u8>>, by_bytes: bool, positions: Seq<Range<usize>>) -> (
    Seq<u8>,
    bool,
)
    decreases lines.len(),
{
    if lines.len() == 0 {
        (Seq::empty(), false)
    } else if !valid_utf8(strip_eol(lines[0])) {
        (Seq::empty(), true)
    } else {
        let rest = text_result(lines.drop_first(), by_bytes, positions);
        (
            encode_utf8(cut_text(decode_utf8(strip_eol(lines[0])), by_bytes, positions)) + seq![LF]
                + rest.0,
            rest.1,
        )
    }
}

/// What a run writes for the records of one input, and whether it failed.
///
/// Each record yields one written record: the fields that the selectors
/// pick. A record that cannot be decoded or written fails the run; what was
/// written for the records before it stands.
pub open spec fn record_result(
    records: Seq<Option<Seq<Seq<char>>>>,
    positions: Seq<Range<usize>>,
    delimiter: u8,
) -> (Seq<u8>, bool)
    decreases records.len(),
{
    if records.len() == 0 {
        (Seq::empty(), false)
    } else {
        match records[0] {
            None => (Seq::empty(), true),
            Some(fields) => match csv_line(select(fields, positions), delimiter) {
                None => (Seq::empty(), true),
                Some(line) => {
                    let rest = record_result(records.drop_first(), positions, delimiter);
                    (line + rest.0, rest.1)
                },
            },
        }
    }
}

/// What a run writes for one input, and whether it failed.
pub open spec fn file_result(data: Seq<u8>, config: Config) -> (Seq<u8>, bool) {
    match config.extract {
        Extract::Fields(p) => record_result(csv_records(data, config.delimiter), p@, config.delimiter),
        Extract::Bytes(p) => text_result(lines_of(data), true, p@),
        Extract::Chars(p) => text_result(lines_of(data), false, p@),
    }
}

/// Writes to `out` what the selectors pick out of each line of `data`.
/// Returns whether a line that is not well-formed UTF-8 ended the work.
pub fn cut_lines(data: &[u8], by_bytes: bool, positions: &[Range<usize>], out: &mut Vec<u8>) -> (failed:
    bool)
    ensures
        final(out)@ == old(out)@ + text_result(lines_of(data@), by_bytes, positions@).0,
        failed == text_result(lines_of(data@), by_bytes, positions@).1,
{
    let mut pos: usize = 0;
    proof {
        assert(data@.skip(0) == data@);
    }
    while pos < data.len()
        invariant
            pos <= data@.len(),
            text_result(lines_of(data@), by_bytes, positions@).0 == out@.skip(old(out)@.len() as int)
                + text_result(lines_of(data@.skip(pos as int)), by_bytes, positions@).0,
            text_result(lines_of(data@), by_bytes, positions@).1 == text_result(
                lines_of(data@.skip(pos as int)),
                by_bytes,
                positions@,
            ).1,
            out@.len() >= old(out)@.len(),
            out@.take(old(out)@.len() as int) == old(out)@,
        decreases data@.len() - pos,
    {
        let end = line_end(data, pos);
        let line = vstd::slice::slice_subrange(data, pos, end);
        let n = stripped_len(line);
        let ghost lines = lines_of(data@.skip(pos as int));
        proof {
            assert(lines.drop_first() == lines_of(data@.skip(end as int)));
            assert(lines[0] == line@);
        }
        match decode(vstd::slice::slice_subrange(line, 0, n)) {
            None => {
                return true;
            },
            Some(text) => {
                let cut = if by_bytes {
                    extract_bytes(text, positions)
                } else {
                    extract_chars(text, positions)
                };
                append(out, cut.as_str().as_bytes());
                out.push(LF);
            },
        }
        pos = end;
    }
    false
}

/// Writes to `out` the fields that the selectors pick out of each record.
/// Returns the failure that ended the work, if a record could not be decoded
/// or written.
pub fn cut_records(
    records: &Vec<Result<csv::StringRecord, csv::Error>>,
    positions: &[Range<usize>],
    delimiter: u8,
    out: &mut Vec<u8>,
) -> (failure: Option<Failure>)
    ensures
        final(out)@ == old(out)@ + record_result(record_views(records@), positions@, delimiter).0,
        failure is Some == record_result(record_views(records@), positions@, delimiter).1,
        failure is Some ==> failure->0 is Record,
{
    let ghost all = record_views(records@);
    let mut i: usize = 0;
    proof {
        assert(all.skip(0) == all);
    }
    while i < records.len()
        invariant
            i <= records@.len(),
            all == record_views(records@),
            record_result(all, positions@, delimiter).0 == out@.skip(old(out)@.len() as int)
                + record_result(all.skip(i as int), positions@, delimiter).0,
            record_result(all, positions@, delimiter).1 == record_result(
                all.skip(i as int),
                positions@,
                delimiter,
            ).1,
            out@.len() >= old(out)@.len(),
            out@.take(old(out)@.len() as int) == old(out)@,
        decreases records@.len() - i,
    {
        proof {
            assert(all.skip(i as int).drop_first() == all.skip(i + 1));
            assert(all.skip(i as int)[0] == all[i as int]);
        }
        match &records[i] {
            Err(e) => {
                return Some(Failure::Record(error_text(e)));
            },
            Ok(record) => {
                let fields = extract_fields(record, positions);
                match write_record(&fields, delimiter) {
                    Err(e) => {
                        return Some(Failure::Record(error_text(&e)));
                    },
                    Ok(line) => {
                        append(out, line.as_slice());
                    },
                }
            },
        }
        i += 1;
    }
    None
}

/// What a sequence of read records holds: the fields of each record that
/// was read, and `None` for each that was not.
pub open spec fn record_views(records: Seq<Result<csv::StringRecord, csv::Error>>) -> Seq<
    Option<Seq<Seq<char>>>,
> {
    Seq::new(
        records.len(),
        |i: int|
            match records[i] {
                Ok(r) => Some(record_fields(r)),
                Err(_) => None,
            },
    )
}

/// Writes to `out` what a run makes of one input.
pub fn cut_file(data: &[u8], config: &Config, out: &mut Vec<u8>) -> (failure: Option<Failure>)
    ensures
        final(out)@ == old(out)@ + file_result(data@, *config).0,
        failure is Some == file_result(data@, *config).1,
        failure matches Some(f) ==> if config.extract is Fields {
            f is Record
        } else {
            f is InvalidText
        },
{
    match &config.extract {
        Extract::Fields(p) => {
            let records = read_records(data, config.delimiter);
            proof {
                assert(record_views(records@) == csv_records(data@, config.delimiter));
            }
            cut_records(&records, p.as_slice(), config.delimiter, out)
        },
        Extract::Bytes(p) => {
            if cut_lines(data, true, p.as_slice(), out) {
                Some(Failure::InvalidText)
            } else {
                None
            }
        },
        Extract::Chars(p) => {
            if cut_lines(data, false, p.as_slice(), out) {
                Some(Failure::InvalidText)
            } else {
                None
            }
        },
    }
}

impl PerFile for Config {
    open spec fn intro(&self) -> Seq<char> {
        ""@
    }

    open spec fn file_result(&self, name: Seq<char>, many: bool, data: Seq<u8>) -> (Seq<u8>, bool) {
        file_result(data, *self)
    }

    open spec fn ends_with(&self, failure: Failure) -> bool {
        if self.extract is Fields {
            failure is Record
        } else {
            failure is InvalidText
        }
    }

    fn diagnostic_intro(&self) -> &'static str {
        ""
    }

    fn process(&self, name: &String, many: bool, data: &[u8], out: &mut Vec<u8>) -> (failure:
        Option<Failure>) {
        cut_file(data, self, out)
    }
}

/// Runs the engine over the inputs, in order.
///
/// An input that could not be opened is reported on the diagnostic stream,
/// by its name and the cause, and passed over; the inputs after it are still
/// processed. A failure within an input ends the run.
pub fn run(config: &Config, targets: &Vec<FileTarget>) -> (outcome: Outcome)
    ensures
        outcome@ == run_result(*config, targets@, targets@.len() > 1),
        outcome.failure matches Some(f) ==> config.ends_with(f),
{
    run_each(config, targets)
}

} // verus!
