//! Runs of equal adjacent lines, written once each, with or without the
//! length of the run.

use crate::decimal::{aligned_number, digits_of, right_aligned};
use crate::lines::{line_end, lines_of};
use crate::report::{diagnostic, diagnostic_line, Failure, FileTarget, Outcome, Report};
use crate::text::{append, chars_of, decode, push_char, strings};
use crate::wcr::{is_whitespace, whitespace};
use vstd::prelude::*;
use vstd::utf8::{decode_utf8, encode_utf8, valid_utf8};

verus! {

/// The input of a run, where its output goes (standard output if nowhere
/// else), and whether each line is written with the length of its run.
#[derive(Debug)]
pub struct Config {
    pub in_file: String,
    pub out_file: Option<String>,
    pub count: bool,
}

/// The text without the white space at its end.
pub open spec fn trim_end(text: Seq<char>) -> Seq<char>
    decreases text.len(),
{
    if text.len() > 0 && is_whitespace(text.last()) {
        trim_end(text.drop_last())
    } else {
        text
    }
}

/// Two lines count as equal where they differ in nothing but the white
/// space at their ends.
pub open spec fn same_line(a: Seq<u8>, b: Seq<u8>) -> bool {
    trim_end(decode_utf8(a)) == trim_end(decode_utf8(b))
}

/// What is written for a run of `count` lines whose first is `line`: nothing
/// for no line; else the line as it was read, after the count flush right in
/// four places and a space where counts are shown.
pub open spec fn run_text(count: nat, line: Seq<u8>, show_count: bool) -> Seq<u8> {
    if count == 0 {
        Seq::empty()
    } else if show_count {
        encode_utf8(right_aligned(digits_of(count), 4) + seq![' ']) + line
    } else {
        line
    }
}

/// What is written for the lines that are left, given the run in progress:
/// its first line and its length so far. Whether a line that is not
/// well-formed UTF-8 ended the work: the run in progress is then not
/// written.
pub open spec fn uniq_result(
    lines: Seq<Seq<u8>>,
    show_count: bool,
    previous: Seq<u8>,
    count: nat,
) -> (Seq<u8>, bool)
    decreases lines.len(),
{
    if lines.len() == 0 {
        (run_text(count, previous, show_count), false)
    } else if !valid_utf8(lines[0]) {
        (Seq::empty(), true)
    } else if same_line(lines[0], previous) {
        uniq_result(lines.drop_first(), show_count, previous, count + 1)
    } else {
        let rest = uniq_result(lines.drop_first(), show_count, lines[0], 1);
        (run_text(count, previous, show_count) + rest.0, rest.1)
    }
}

/// What a run on the given input produces. An input that could not be
/// opened fails the run before anything is written.
pub open spec fn run_result(target: FileTarget, config: Config) -> Report {
    match target.content {
        Err(_) => Report { output: Seq::empty(), diagnostics: Seq::empty(), failed: true },
        Ok(data) => {
            let (output, failed) = uniq_result(lines_of(data@), config.count, Seq::empty(), 0);
            Report { output, diagnostics: Seq::empty(), failed }
        },
    }
}

/// The length of the text once the white space at its end is taken away.
pub fn trimmed_len(text: &Vec<char>) -> (n: usize)
    ensures
        n <= text@.len(),
        text@.take(n as int) == trim_end(text@),
{
    let mut n: usize = text.len();
    proof {
        assert(text@.take(n as int) == text@);
    }
    while n > 0 && whitespace(text[n - 1])
        invariant
            n <= text@.len(),
            trim_end(text@.take(n as int)) == trim_end(text@),
        decreases n,
    {
        proof {
            assert(text@.take(n as int).drop_last() == text@.take(n - 1));
        }
        n -= 1;
    }
    n
}

/// The characters of `line` without the white space at its end.
fn trimmed(line: &str) -> (out: Vec<char>)
    ensures
        out@ == trim_end(line@),
{
    let mut chars = chars_of(line);
    let n = trimmed_len(&chars);
    chars.truncate(n);
    chars
}

/// Tells whether two sequences of characters are the same.
fn same_chars(a: &Vec<char>, b: &Vec<char>) -> (r: bool)
    ensures
        r == (a@ == b@),
{
    if a.len() != b.len() {
        return false;
    }
    let mut i: usize = 0;
    while i < a.len()
        invariant
            i <= a@.len(),
            a@.len() == b@.len(),
            a@.take(i as int) == b@.take(i as int),
        decreases a@.len() - i,
    {
        if a[i] != b[i] {
            return false;
        }
        proof {
            assert(a@.take(i + 1) == a@.take(i as int).push(a@[i as int]));
            assert(b@.take(i + 1) == b@.take(i as int).push(b@[i as int]));
        }
        i += 1;
    }
    proof {
        assert(a@.take(i as int) == a@);
        assert(b@.take(i as int) == b@);
    }
    true
}

/// Writes to `out` what stands for a run of `count` lines whose first is
/// `line`.
fn write_run(out: &mut Vec<u8>, count: usize, line: &[u8], show_count: bool)
    ensures
        final(out)@ == old(out)@ + run_text(count as nat, line@, show_count),
{
    if count > 0 {
        if show_count {
            let mut label = aligned_number(count, 4);
            push_char(&mut label, ' ');
            append(out, label.as_str().as_bytes());
            proof {
                let text = right_aligned(digits_of(count as nat), 4);
                assert(text.push(' ') == text + seq![' ']);
            }
        }
        append(out, line);
        proof {
            let head = encode_utf8(right_aligned(digits_of(count as nat), 4) + seq![' ']);
            assert(old(out)@ + head + line@ == old(out)@ + (head + line@));
        }
    } else {
        proof {
            assert(old(out)@ + Seq::<u8>::empty() == old(out)@);
        }
    }
}

/// Writes to `out` one line for each run of equal adjacent lines of `data`.
/// Returns whether a line that is not well-formed UTF-8 ended the work.
pub fn uniq_lines(data: &[u8], show_count: bool, out: &mut Vec<u8>) -> (failed: bool)
    ensures
        final(out)@ == old(out)@ + uniq_result(lines_of(data@), show_count, Seq::empty(), 0).0,
        failed == uniq_result(lines_of(data@), show_count, Seq::empty(), 0).1,
{
    let ghost whole = uniq_result(lines_of(data@), show_count, Seq::empty(), 0);
    let mut pos: usize = 0;
    let mut start: usize = 0;
    let mut stop: usize = 0;
    let mut count: usize = 0;
    let mut key: Vec<char> = Vec::new();
    proof {
        assert(data@.skip(0) == data@);
        assert(data@.subrange(0, 0) == Seq::<u8>::empty());
        assert(decode_utf8(Seq::<u8>::empty()) == Seq::<char>::empty());
    }
    while pos < data.len()
        invariant
            pos <= data@.len(),
            start <= stop <= pos,
            count <= pos,
            whole == uniq_result(lines_of(data@), show_count, Seq::empty(), 0),
            key@ == trim_end(decode_utf8(data@.subrange(start as int, stop as int))),
            whole.0 == out@.skip(old(out)@.len() as int) + uniq_result(
                lines_of(data@.skip(pos as int)),
                show_count,
                data@.subrange(start as int, stop as int),
                count as nat,
            ).0,
            whole.1 == uniq_result(
                lines_of(data@.skip(pos as int)),
                show_count,
                data@.subrange(start as int, stop as int),
                count as nat,
            ).1,
            out@.len() >= old(out)@.len(),
            out@.take(old(out)@.len() as int) == old(out)@,
        decreases data@.len() - pos,
    {
        let end = line_end(data, pos);
        let line = vstd::slice::slice_subrange(data, pos, end);
        proof {
            let lines = lines_of(data@.skip(pos as int));
            assert(lines.drop_first() == lines_of(data@.skip(end as int)));
            assert(lines[0] == line@);
        }
        let text = match decode(line) {
            Some(text) => text,
            None => {
                return true;
            },
        };
        let line_key = trimmed(text);
        if !same_chars(&line_key, &key) {
            write_run(out, count, vstd::slice::slice_subrange(data, start, stop), show_count);
            start = pos;
            stop = end;
            count = 0;
            key = line_key;
        }
        count += 1;
        pos = end;
    }
    write_run(out, count, vstd::slice::slice_subrange(data, start, stop), show_count);
    false
}

/// Runs over the one input. Where the input could not be opened, the run
/// fails with the input's name and the cause, and writes nothing.
pub fn run(config: &Config, target: &FileTarget) -> (outcome: Outcome)
    ensures
        outcome@ == run_result(*target, *config),
        target.content matches Err(cause) ==> outcome.failure matches Some(Failure::Unreadable(text))
            && text@ == diagnostic(""@, target.name@, cause@),
        target.content is Ok && outcome.failure is Some ==> outcome.failure->0 is InvalidText,
{
    let mut output: Vec<u8> = Vec::new();
    let failure = match &target.content {
        Err(cause) => Some(Failure::Unreadable(diagnostic_line("", &target.name, cause))),
        Ok(data) => {
            if uniq_lines(data.as_slice(), config.count, &mut output) {
                Some(Failure::InvalidText)
            } else {
                None
            }
        },
    };
    let diagnostics: Vec<String> = Vec::new();
    proof {
        assert(strings(diagnostics@) == Seq::<Seq<char>>::empty());
        if target.content is Ok {
            let data = target.content->Ok_0;
            let written = uniq_result(lines_of(data@), config.count, Seq::empty(), 0).0;
            assert(Seq::<u8>::empty() + written == written);
        }
    }
    Outcome { output, diagnostics, failure }
}

} // verus!
