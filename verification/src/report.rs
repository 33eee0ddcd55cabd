//! What a utility is given and what it hands back: named inputs whose bytes
//! were read beforehand, and the bytes and messages to deliver afterwards.

use crate::text::{chars_of, strings};
use vstd::prelude::*;
use vstd::string::StringExecFns;

verus! {

/// One input of a run: its name, and either its bytes or the reason why it
/// could not be opened.
#[derive(Debug)]
pub struct FileTarget {
    pub name: String,
    pub content: Result<Vec<u8>, String>,
}

/// Why a run stopped before its inputs were used up.
#[derive(Debug)]
pub enum Failure {
    /// A line of an input is not well-formed UTF-8.
    InvalidText,
    /// A delimited record could not be decoded or written; the text is the
    /// record library's description of the error.
    Record(String),
    /// A count does not fit the machine's word.
    Overflow,
    /// The one input of the run could not be opened; the text names the
    /// input and the cause.
    Unreadable(String),
}

/// What a run produced: the bytes for standard output, the lines for the
/// diagnostic stream, and the failure that ended the run, if one did.
#[derive(Debug)]
pub struct Outcome {
    pub output: Vec<u8>,
    pub diagnostics: Vec<String>,
    pub failure: Option<Failure>,
}

/// The mathematical content of an [`Outcome`].
pub struct Report {
    pub output: Seq<u8>,
    pub diagnostics: Seq<Seq<char>>,
    pub failed: bool,
}

impl View for Outcome {
    type V = Report;

    open spec fn view(&self) -> Report {
        Report {
            output: self.output@,
            diagnostics: strings(self.diagnostics@),
            failed: self.failure is Some,
        }
    }
}

/// The diagnostic line for an input that could not be opened: the words
/// that introduce it, the input's name, a colon and a space, and the cause.
pub open spec fn diagnostic(intro: Seq<char>, name: Seq<char>, cause: Seq<char>) -> Seq<char> {
    intro + name + seq![':', ' '] + cause
}

/// A utility that treats each input on its own.
pub trait PerFile {
    /// The words that introduce the diagnostic line for an input that could
    /// not be opened.
    spec fn intro(&self) -> Seq<char>;

    /// What the utility writes for one input, and whether it failed there.
    /// `many` tells whether the run has more than one input.
    spec fn file_result(&self, name: Seq<char>, many: bool, data: Seq<u8>) -> (Seq<u8>, bool);

    /// The failures with which the utility may end a run.
    spec fn ends_with(&self, failure: Failure) -> bool;

    /// The words that introduce a diagnostic line.
    fn diagnostic_intro(&self) -> (intro: &'static str)
        ensures
            intro@ == self.intro(),
    ;

    /// Writes to `out` what the utility makes of one input, and returns the
    /// failure that ended the work, if one did.
    fn process(&self, name: &String, many: bool, data: &[u8], out: &mut Vec<u8>) -> (failure:
        Option<Failure>)
        ensures
            final(out)@ == old(out)@ + self.file_result(name@, many, data@).0,
            failure is Some == self.file_result(name@, many, data@).1,
            failure matches Some(f) ==> self.ends_with(f),
    ;
}

/// What a run of the utility over the given inputs produces.
///
/// The inputs are taken in order. One that could not be opened adds a
/// diagnostic line and nothing else; one that was read adds its output. A
/// failure within an input ends the run after what that input had written.
pub open spec fn run_result<T: PerFile>(tool: T, targets: Seq<FileTarget>, many: bool) -> Report
    decreases targets.len(),
{
    if targets.len() == 0 {
        Report { output: Seq::empty(), diagnostics: Seq::empty(), failed: false }
    } else {
        let rest = run_result(tool, targets.drop_first(), many);
        match targets[0].content {
            Err(cause) => Report {
                output: rest.output,
                diagnostics: seq![diagnostic(tool.intro(), targets[0].name@, cause@)]
                    + rest.diagnostics,
                failed: rest.failed,
            },
            Ok(data) => {
                let (output, failed) = tool.file_result(targets[0].name@, many, data@);
                if failed {
                    Report { output, diagnostics: Seq::empty(), failed: true }
                } else {
                    Report {
                        output: output + rest.output,
                        diagnostics: rest.diagnostics,
                        failed: rest.failed,
                    }
                }
            },
        }
    }
}

/// The inputs are independent of each other: a run over two lists of inputs,
/// one after the other, produces what the run over the first produces and,
/// unless that one failed, what the run over the second produces after it.
pub proof fn lemma_run_in_parts<T: PerFile>(
    tool: T,
    first: Seq<FileTarget>,
    second: Seq<FileTarget>,
    many: bool,
)
    ensures
        run_result(tool, first + second, many) == if run_result(tool, first, many).failed {
            run_result(tool, first, many)
        } else {
            Report {
                output: run_result(tool, first, many).output + run_result(
                    tool,
                    second,
                    many,
                ).output,
                diagnostics: run_result(tool, first, many).diagnostics + run_result(
                    tool,
                    second,
                    many,
                ).diagnostics,
                failed: run_result(tool, second, many).failed,
            }
        },
    decreases first.len(),
{
    let whole = run_result(tool, first + second, many);
    let head = run_result(tool, first, many);
    let tail = run_result(tool, second, many);
    if first.len() == 0 {
        assert(first + second == second);
        assert(head.output + tail.output == tail.output);
        assert(head.diagnostics + tail.diagnostics == tail.diagnostics);
    } else {
        let rest = first.drop_first();
        lemma_run_in_parts(tool, rest, second, many);
        assert((first + second).drop_first() == rest + second);
        assert((first + second)[0] == first[0]);
        let inner = run_result(tool, rest, many);
        match first[0].content {
            Err(cause) => {
                let line = seq![diagnostic(tool.intro(), first[0].name@, cause@)];
                if !inner.failed {
                    assert(line + (inner.diagnostics + tail.diagnostics) == (line
                        + inner.diagnostics) + tail.diagnostics);
                }
            },
            Ok(data) => {
                let (output, failed) = tool.file_result(first[0].name@, many, data@);
                if !failed && !inner.failed {
                    assert(output + (inner.output + tail.output) == (output + inner.output)
                        + tail.output);
                }
            },
        }
    }
}

/// An input that could not be opened is set apart from the others: where
/// the run reaches it, it adds one diagnostic line, and with or without it
/// the run writes the same output and fails or not alike.
pub proof fn lemma_unopened_input_isolated<T: PerFile>(
    tool: T,
    before: Seq<FileTarget>,
    unopened: FileTarget,
    after: Seq<FileTarget>,
    many: bool,
)
    requires
        unopened.content is Err,
    ensures
        run_result(tool, before + seq![unopened] + after, many).output == run_result(
            tool,
            before + after,
            many,
        ).output,
        run_result(tool, before + seq![unopened] + after, many).failed == run_result(
            tool,
            before + after,
            many,
        ).failed,
        run_result(tool, before, many).failed ==> run_result(
            tool,
            before + seq![unopened] + after,
            many,
        ).diagnostics == run_result(tool, before + after, many).diagnostics,
        !run_result(tool, before, many).failed ==> run_result(
            tool,
            before + seq![unopened] + after,
            many,
        ).diagnostics == run_result(tool, before, many).diagnostics + seq![
            diagnostic(tool.intro(), unopened.name@, unopened.content->Err_0@),
        ] + run_result(tool, after, many).diagnostics,
{
    let one = seq![unopened];
    lemma_run_in_parts(tool, before, one + after, many);
    lemma_run_in_parts(tool, one, after, many);
    lemma_run_in_parts(tool, before, after, many);
    assert(before + one + after == before + (one + after));
    assert(one.drop_first() == Seq::<FileTarget>::empty());
    assert(one[0] == unopened);
    let alone = run_result(tool, one, many);
    let nothing = run_result(tool, one.drop_first(), many);
    let line = diagnostic(tool.intro(), unopened.name@, unopened.content->Err_0@);
    assert(nothing.diagnostics == Seq::<Seq<char>>::empty());
    assert(seq![line] + nothing.diagnostics == seq![line]);
    assert(alone.output == Seq::<u8>::empty());
    assert(alone.diagnostics == seq![line]);
    assert(!alone.failed);
    let tail = run_result(tool, after, many);
    let head = run_result(tool, before, many);
    assert(alone.output + tail.output == tail.output);
    if !head.failed {
        assert(head.diagnostics + (seq![line] + tail.diagnostics) == head.diagnostics + seq![line]
            + tail.diagnostics);
    }
}

/// Runs the utility over the inputs, in order.
///
/// An input that could not be opened is reported on the diagnostic stream
/// and passed over; the inputs after it are still processed. A failure
/// within an input ends the run, and is the failure of the outcome.
pub fn run_each<T: PerFile>(tool: &T, targets: &Vec<FileTarget>) -> (outcome: Outcome)
    ensures
        outcome@ == run_result(*tool, targets@, targets@.len() > 1),
        outcome.failure matches Some(f) ==> tool.ends_with(f),
{
    let many: bool = targets.len() > 1;
    let mut output: Vec<u8> = Vec::new();
    let mut diagnostics: Vec<String> = Vec::new();
    let mut i: usize = 0;
    proof {
        assert(targets@.skip(0) == targets@);
    }
    while i < targets.len()
        invariant
            i <= targets@.len(),
            many == (targets@.len() > 1),
            run_result(*tool, targets@, many).output == output@ + run_result(
                *tool,
                targets@.skip(i as int),
                many,
            ).output,
            run_result(*tool, targets@, many).diagnostics == strings(diagnostics@) + run_result(
                *tool,
                targets@.skip(i as int),
                many,
            ).diagnostics,
            run_result(*tool, targets@, many).failed == run_result(
                *tool,
                targets@.skip(i as int),
                many,
            ).failed,
        decreases targets@.len() - i,
    {
        let ghost before = strings(diagnostics@);
        let ghost written = output@;
        let ghost rest = run_result(*tool, targets@.skip(i + 1), many);
        proof {
            assert(targets@.skip(i as int).drop_first() == targets@.skip(i + 1));
            assert(targets@.skip(i as int)[0] == targets@[i as int]);
        }
        let target = &targets[i];
        match &target.content {
            Err(cause) => {
                diagnostics.push(diagnostic_line(tool.diagnostic_intro(), &target.name, cause));
                proof {
                    let line = diagnostic(tool.intro(), target.name@, cause@);
                    assert(strings(diagnostics@) == before + seq![line]);
                    assert(before + (seq![line] + rest.diagnostics) == (before + seq![line])
                        + rest.diagnostics);
                }
            },
            Ok(data) => {
                let failure = tool.process(&target.name, many, data.as_slice(), &mut output);
                if failure.is_some() {
                    proof {
                        assert(before + Seq::<Seq<char>>::empty() == before);
                    }
                    return Outcome { output, diagnostics, failure };
                }
                proof {
                    let part = tool.file_result(target.name@, many, data@).0;
                    assert(written + (part + rest.output) == (written + part) + rest.output);
                }
            },
        }
        i += 1;
    }
    proof {
        assert(output@ + Seq::<u8>::empty() == output@);
        assert(strings(diagnostics@) + Seq::<Seq<char>>::empty() == strings(diagnostics@));
    }
    Outcome { output, diagnostics, failure: None }
}

impl Failure {
    /// The text that describes the failure.
    pub fn message(&self) -> (text: String)
        ensures
            self is InvalidText ==> text@ == "stream did not contain valid UTF-8"@,
            self matches Failure::Record(t) ==> text@ == t@,
            self is Overflow ==> text@ == "attempt to add with overflow"@,
            self matches Failure::Unreadable(t) ==> text@ == t@,
    {
        match self {
            Failure::InvalidText => String::from_str("stream did not contain valid UTF-8"),
            Failure::Record(t) => t.clone(),
            Failure::Overflow => String::from_str("attempt to add with overflow"),
            Failure::Unreadable(t) => t.clone(),
        }
    }
}

/// The name that stands for standard input.
pub open spec fn names_stdin(name: Seq<char>) -> bool {
    name == seq!['-']
}

/// Tells whether `name` stands for standard input rather than for a file.
pub fn is_stdin(name: &str) -> (r: bool)
    ensures
        r == names_stdin(name@),
{
    let chars = chars_of(name);
    let r = chars.len() == 1 && chars[0] == '-';
    proof {
        if r {
            assert(name@ == seq!['-']);
        }
    }
    r
}

/// Builds the diagnostic line for an input that could not be opened.
pub fn diagnostic_line(intro: &str, name: &String, cause: &String) -> (line: String)
    ensures
        line@ == diagnostic(intro@, name@, cause@),
{
    let mut line = String::from_str(intro);
    line.append(name.as_str());
    proof {
        reveal_strlit(": ");
    }
    line.append(": ");
    line.append(cause.as_str());
    proof {
        assert(": "@ == seq![':', ' ']);
    }
    line
}

} // verus!
