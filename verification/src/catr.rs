//! Copying lines to the output, with or without line numbers.

use crate::decimal::{aligned_number, digits_of, right_aligned};
use crate::lines::{line_end, lines_of, strip_eol, stripped_len, LF};
use crate::report::{run_each, run_result, Failure, FileTarget, Outcome, PerFile};
use crate::text::{append, decode, push_char};
use vstd::prelude::*;
use vstd::utf8::{encode_utf8, valid_utf8};

verus! {

/// The inputs of a run, and how their lines are numbered: all of them, the
/// ones that are not empty, or none. Numbering all lines takes precedence.
#[derive(Debug)]
pub struct Config {
    pub files: Vec<String>,
    pub number_lines: bool,
    pub number_nonblank_lines: bool,
}

/// A numbered line: the number flush right in six places, a tab, the line
/// and a line feed.
pub open spec fn numbered(number: nat, line: Seq<u8>) -> Seq<u8> {
    encode_utf8(right_aligned(digits_of(number), 6) + seq!['\t']) + line + seq![LF]
}

/// What is written for one line, the `seen`-th of its input counting from
/// zero, of which `blank` earlier ones were empty and left unnumbered.
pub open spec fn line_text(line: Seq<u8>, config: Config, seen: nat, blank: nat) -> Seq<u8> {
    if config.number_lines {
        numbered(seen + 1, line)
    } else if config.number_nonblank_lines {
        if line.len() == 0 {
            seq![LF]
        } else {
            numbered((seen + 1 - blank) as nat, line)
        }
    } else {
        line + seq![LF]
    }
}

/// Whether the line is left without a number because it is empty.
pub open spec fn skipped(line: Seq<u8>, config: Config) -> bool {
    !config.number_lines && config.number_nonblank_lines && line.len() == 0
}

/// What a run writes for the lines of one input, and whether it failed.
///
/// Lines are numbered from one within each input. A line that is not
/// well-formed UTF-8 fails the run; what was written before it stands.
pub open spec fn lines_result(lines: Seq<Seq<u8>>, config: Config, seen: nat, blank: nat) -> (
    Seq<u8>,
    bool,
)
    decreases lines.len(),
{
    if lines.len() == 0 {
        (Seq::empty(), false)
    } else if !valid_utf8(strip_eol(lines[0])) {
        (Seq::empty(), true)
    } else {
        let line = strip_eol(lines[0]);
        let rest = lines_result(
            lines.drop_first(),
            config,
            seen + 1,
            if skipped(line, config) {
                blank + 1
            } else {
                blank
            },
        );
        (line_text(line, config, seen, blank) + rest.0, rest.1)
    }
}

/// Writes to `out` a numbered line.
fn write_numbered(out: &mut Vec<u8>, number: usize, line: &[u8])
    ensures
        final(out)@ == old(out)@ + numbered(number as nat, line@),
{
    let mut label = aligned_number(number, 6);
    push_char(&mut label, '\t');
    append(out, label.as_str().as_bytes());
    append(out, line);
    out.push(LF);
    proof {
        let text = right_aligned(digits_of(number as nat), 6);
        assert(text.push('\t') == text + seq!['\t']);
        let head = encode_utf8(text + seq!['\t']);
        assert(out@ == (old(out)@ + head + line@).push(LF));
        assert((old(out)@ + head + line@).push(LF) == old(out)@ + (head + line@ + seq![LF]));
    }
}

impl PerFile for Config {
    open spec fn intro(&self) -> Seq<char> {
        "Failed to open "@
    }

    open spec fn file_result(&self, name: Seq<char>, many: bool, data: Seq<u8>) -> (Seq<u8>, bool) {
        lines_result(lines_of(data), *self, 0, 0)
    }

    open spec fn ends_with(&self, failure: Failure) -> bool {
        failure is InvalidText
    }

    fn diagnostic_intro(&self) -> &'static str {
        "Failed to open "
    }

    fn process(&self, name: &String, many: bool, data: &[u8], out: &mut Vec<u8>) -> (failure:
        Option<Failure>) {
        let mut pos: usize = 0;
        let mut seen: usize = 0;
        let mut blank: usize = 0;
        proof {
            assert(data@.skip(0) == data@);
        }
        while pos < data.len()
            invariant
                pos <= data@.len(),
                blank <= seen <= pos,
                lines_result(lines_of(data@), *self, 0, 0).0 == out@.skip(old(out)@.len() as int)
                    + lines_result(
                    lines_of(data@.skip(pos as int)),
                    *self,
                    seen as nat,
                    blank as nat,
                ).0,
                lines_result(lines_of(data@), *self, 0, 0).1 == lines_result(
                    lines_of(data@.skip(pos as int)),
                    *self,
                    seen as nat,
                    blank as nat,
                ).1,
                out@.len() >= old(out)@.len(),
                out@.take(old(out)@.len() as int) == old(out)@,
            decreases data@.len() - pos,
        {
            let end = line_end(data, pos);
            let whole = vstd::slice::slice_subrange(data, pos, end);
            let line = vstd::slice::slice_subrange(whole, 0, stripped_len(whole));
            proof {
                let lines = lines_of(data@.skip(pos as int));
                assert(lines.drop_first() == lines_of(data@.skip(end as int)));
                assert(lines[0] == whole@);
            }
            if decode(line).is_none() {
                return Some(Failure::InvalidText);
            }
            if self.number_lines {
                write_numbered(out, seen + 1, line);
            } else if self.number_nonblank_lines {
                if line.len() == 0 {
                    out.push(LF);
                    blank += 1;
                } else {
                    write_numbered(out, seen + 1 - blank, line);
                }
            } else {
                append(out, line);
                out.push(LF);
            }
            seen += 1;
            pos = end;
        }
        None
    }
}

/// Copies the lines of each input to the output, numbered as the
/// configuration asks.
pub fn run(config: &Config, targets: &Vec<FileTarget>) -> (outcome: Outcome)
    ensures
        outcome@ == run_result(*config, targets@, targets@.len() > 1),
        outcome.failure matches Some(f) ==> config.ends_with(f),
{
    run_each(config, targets)
}

} // verus!
