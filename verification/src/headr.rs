//! The first lines, or the first bytes, of each input.

use crate::lines::{line_end, lines_of, strip_eol, stripped_len, LF};
use crate::report::{run_each, run_result, Failure, FileTarget, Outcome, PerFile};
use crate::text::{append, decode, decode_lossy, utf8_lossy};
use vstd::prelude::*;
use vstd::string::StringExecFns;
use vstd::utf8::{encode_utf8, valid_utf8};

verus! {

/// The inputs of a run and how much of each is shown: a number of bytes
/// where one is given, else a number of lines. `quite` leaves out the
/// headers that otherwise go before each of several inputs.
#[derive(Debug)]
pub struct Config {
    pub files: Vec<String>,
    pub lines: usize,
    pub bytes: Option<usize>,
    pub quite: bool,
}

/// The header that goes before an input.
pub open spec fn header(name: Seq<char>) -> Seq<char> {
    "\n==> "@ + name + " <==\n"@
}

/// The first `limit` lines, each followed by a line feed, and whether a line
/// among them is not well-formed UTF-8: the run fails there, and what was
/// written before that line stands.
pub open spec fn first_lines(lines: Seq<Seq<u8>>, limit: nat) -> (Seq<u8>, bool)
    decreases lines.len(),
{
    if lines.len() == 0 || limit == 0 {
        (Seq::empty(), false)
    } else if !valid_utf8(strip_eol(lines[0])) {
        (Seq::empty(), true)
    } else {
        let rest = first_lines(lines.drop_first(), (limit - 1) as nat);
        (strip_eol(lines[0]) + seq![LF] + rest.0, rest.1)
    }
}

/// The first `limit` bytes of `data`, or all of it where it is shorter.
pub open spec fn first_bytes(data: Seq<u8>, limit: nat) -> Seq<u8> {
    if limit < data.len() {
        data.take(limit as int)
    } else {
        data
    }
}

/// What is shown of one input, without its header.
pub open spec fn body_result(data: Seq<u8>, config: Config) -> (Seq<u8>, bool) {
    match config.bytes {
        Some(limit) => (encode_utf8(utf8_lossy(first_bytes(data, limit as nat))), false),
        None => first_lines(lines_of(data), config.lines as nat),
    }
}

/// Writes to `out` the first `limit` lines of `data`. Returns whether a line
/// that is not well-formed UTF-8 ended the work.
pub fn head_lines(data: &[u8], limit: usize, out: &mut Vec<u8>) -> (failed: bool)
    ensures
        final(out)@ == old(out)@ + first_lines(lines_of(data@), limit as nat).0,
        failed == first_lines(lines_of(data@), limit as nat).1,
{
    let mut pos: usize = 0;
    let mut left: usize = limit;
    proof {
        assert(data@.skip(0) == data@);
    }
    while pos < data.len() && left > 0
        invariant
            pos <= data@.len(),
            first_lines(lines_of(data@), limit as nat).0 == out@.skip(old(out)@.len() as int)
                + first_lines(lines_of(data@.skip(pos as int)), left as nat).0,
            first_lines(lines_of(data@), limit as nat).1 == first_lines(
                lines_of(data@.skip(pos as int)),
                left as nat,
            ).1,
            out@.len() >= old(out)@.len(),
            out@.take(old(out)@.len() as int) == old(out)@,
        decreases data@.len() - pos,
    {
        let end = line_end(data, pos);
        let whole = vstd::slice::slice_subrange(data, pos, end);
        let line = vstd::slice::slice_subrange(whole, 0, stripped_len(whole));
        proof {
            let lines = lines_of(data@.skip(pos as int));
            assert(lines.drop_first() == lines_of(data@.skip(end as int)));
            assert(lines[0] == whole@);
        }
        if decode(line).is_none() {
            return true;
        }
        append(out, line);
        out.push(LF);
        left -= 1;
        pos = end;
    }
    false
}

impl PerFile for Config {
    open spec fn intro(&self) -> Seq<char> {
        "Failed to open file "@
    }

    open spec fn file_result(&self, name: Seq<char>, many: bool, data: Seq<u8>) -> (Seq<u8>, bool) {
        let body = body_result(data, *self);
        if !self.quite && many {
            (encode_utf8(header(name)) + body.0, body.1)
        } else {
            body
        }
    }

    open spec fn ends_with(&self, failure: Failure) -> bool {
        failure is InvalidText
    }

    fn diagnostic_intro(&self) -> &'static str {
        "Failed to open file "
    }

    fn process(&self, name: &String, many: bool, data: &[u8], out: &mut Vec<u8>) -> (failure:
        Option<Failure>) {
        if !self.quite && many {
            let mut title = String::from_str("\n==> ");
            title.append(name.as_str());
            title.append(" <==\n");
            append(out, title.as_str().as_bytes());
        }
        match self.bytes {
            Some(limit) => {
                let shown = if limit < data.len() {
                    vstd::slice::slice_subrange(data, 0, limit)
                } else {
                    data
                };
                let text = decode_lossy(shown);
                append(out, text.as_str().as_bytes());
                proof {
                    let body = body_result(data@, *self).0;
                    assert(old(out)@ + (encode_utf8(header(name@)) + body) == (old(out)@
                        + encode_utf8(header(name@))) + body);
                }
                None
            },
            None => {
                let failed = head_lines(data, self.lines, out);
                proof {
                    let body = body_result(data@, *self).0;
                    assert(old(out)@ + (encode_utf8(header(name@)) + body) == (old(out)@
                        + encode_utf8(header(name@))) + body);
                }
                if failed {
                    Some(Failure::InvalidText)
                } else {
                    None
                }
            },
        }
    }
}

/// Shows the start of each input.
pub fn run(config: &Config, targets: &Vec<FileTarget>) -> (outcome: Outcome)
    ensures
        outcome@ == run_result(*config, targets@, targets@.len() > 1),
        outcome.failure matches Some(f) ==> config.ends_with(f),
{
    run_each(config, targets)
}

} // verus!
