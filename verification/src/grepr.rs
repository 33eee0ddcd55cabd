//! The lines of each input that match, or do not match, a regular
//! expression.

use crate::decimal::{digits_of, number};
use crate::lines::{line_end, lines_of, strip_eol, stripped_len};
use crate::pattern::{compile, is_match, regex_match};
use crate::report::{diagnostic, diagnostic_line, is_stdin, names_stdin, Failure, FileTarget, Outcome, PerFile, Report};
use crate::text::{append, decode, push_char, strings};
use regex::Regex;
use vstd::prelude::*;
use vstd::string::StringExecFns;
use vstd::utf8::{decode_utf8, encode_utf8, valid_utf8};

verus! {

/// The expression to look for, the inputs that were found (or the message
/// for each that was not), and what is shown of them.
#[derive(Debug)]
pub struct Config {
    pub pattern: Regex,
    pub files: Vec<Result<String, String>>,
    pub count: bool,
    pub recursive: bool,
    pub invert_match: bool,
}

/// A pattern that does not compile; the pattern is kept.
#[derive(Debug)]
pub struct PatternError {
    pub pattern: String,
}

/// What was found out about a path that the user named.
#[derive(Debug)]
pub enum Probe {
    /// The path could not be examined; the text is the cause.
    Unreadable(String),
    /// The path is a directory; the entries are the paths beneath it that
    /// are not directories, in the order of the walk.
    Directory(Vec<String>),
    /// The path is a regular file.
    File,
    /// The path is neither a directory nor a regular file.
    Other,
}

/// A path that the user named, and what was found out about it.
#[derive(Debug)]
pub struct Candidate {
    pub path: String,
    pub probe: Probe,
}

/// The message for a directory that is named without asking for recursion.
pub open spec fn is_a_directory(path: Seq<char>) -> Seq<char> {
    path + ": Is a directory"@
}

/// The first `count` of the given paths, each as an input that was found.
pub open spec fn found_inputs(paths: Seq<String>, count: nat) -> Seq<Result<Seq<char>, Seq<char>>> {
    Seq::new(count, |i: int| Ok(paths[i]@))
}

/// The inputs that one candidate stands for.
///
/// A dash stands for standard input, whatever was found out about it. A
/// regular file stands for itself. A directory stands for the files beneath
/// it where recursion is asked for, and for an error message where it is
/// not. A path that could not be examined stands for the message that names
/// it and the cause. Anything else stands for nothing.
pub open spec fn inputs_of(candidate: Candidate, recursive: bool) -> Seq<Result<Seq<char>, Seq<char>>> {
    if names_stdin(candidate.path@) {
        seq![Ok(candidate.path@)]
    } else {
        match candidate.probe {
            Probe::Unreadable(cause) => seq![Err(diagnostic(""@, candidate.path@, cause@))],
            Probe::Directory(entries) => if recursive {
                found_inputs(entries@, entries@.len())
            } else {
                seq![Err(is_a_directory(candidate.path@))]
            },
            Probe::File => seq![Ok(candidate.path@)],
            Probe::Other => Seq::empty(),
        }
    }
}

/// The inputs that the candidates stand for, in order.
pub open spec fn all_inputs(candidates: Seq<Candidate>, recursive: bool) -> Seq<
    Result<Seq<char>, Seq<char>>,
>
    decreases candidates.len(),
{
    if candidates.len() == 0 {
        Seq::empty()
    } else {
        all_inputs(candidates.drop_last(), recursive) + inputs_of(candidates.last(), recursive)
    }
}

/// The texts of a list of inputs.
pub open spec fn input_texts(files: Seq<Result<String, String>>) -> Seq<
    Result<Seq<char>, Seq<char>>,
> {
    Seq::new(
        files.len(),
        |i: int|
            match files[i] {
                Ok(name) => Ok(name@),
                Err(message) => Err(message@),
            },
    )
}

/// Turns the paths that the user named into the list of inputs to search.
pub fn find_files(paths: &Vec<Candidate>, recursive: bool) -> (files: Vec<Result<String, String>>)
    ensures
        input_texts(files@) == all_inputs(paths@, recursive),
{
    let mut files: Vec<Result<String, String>> = Vec::new();
    let mut i: usize = 0;
    proof {
        assert(input_texts(files@) == all_inputs(paths@.take(0), recursive));
    }
    while i < paths.len()
        invariant
            i <= paths@.len(),
            input_texts(files@) == all_inputs(paths@.take(i as int), recursive),
        decreases paths@.len() - i,
    {
        let candidate = &paths[i];
        let ghost before = input_texts(files@);
        proof {
            assert(paths@.take(i + 1).drop_last() == paths@.take(i as int));
            assert(paths@.take(i + 1).last() == paths@[i as int]);
        }
        if is_stdin(candidate.path.as_str()) {
            files.push(Ok(candidate.path.clone()));
            proof {
                assert(input_texts(files@) == before + seq![
                    Ok::<Seq<char>, Seq<char>>(candidate.path@),
                ]);
            }
        } else {
            match &candidate.probe {
                Probe::Unreadable(cause) => {
                    files.push(Err(diagnostic_line("", &candidate.path, cause)));
                    proof {
                        assert(input_texts(files@) == before + seq![
                            Err::<Seq<char>, Seq<char>>(diagnostic(""@, candidate.path@, cause@)),
                        ]);
                    }
                },
                Probe::Directory(entries) => {
                    if recursive {
                        let mut k: usize = 0;
                        while k < entries.len()
                            invariant
                                k <= entries@.len(),
                                input_texts(files@) == before + found_inputs(entries@, k as nat),
                            decreases entries@.len() - k,
                        {
                            let ghost listed = input_texts(files@);
                            files.push(Ok(entries[k].clone()));
                            proof {
                                let next = Ok::<Seq<char>, Seq<char>>(entries@[k as int]@);
                                assert(input_texts(files@) == listed.push(next));
                                assert(found_inputs(entries@, (k + 1) as nat) == found_inputs(
                                    entries@,
                                    k as nat,
                                ).push(next));
                                assert(listed.push(next) == before + found_inputs(
                                    entries@,
                                    (k + 1) as nat,
                                ));
                            }
                            k += 1;
                        }
                    } else {
                        let mut message = candidate.path.clone();
                        message.append(": Is a directory");
                        files.push(Err(message));
                        proof {
                            assert(input_texts(files@) == before + seq![
                                Err::<Seq<char>, Seq<char>>(is_a_directory(candidate.path@)),
                            ]);
                        }
                    }
                },
                Probe::File => {
                    files.push(Ok(candidate.path.clone()));
                    proof {
                        assert(input_texts(files@) == before + seq![
                            Ok::<Seq<char>, Seq<char>>(candidate.path@),
                        ]);
                    }
                },
                Probe::Other => {
                    proof {
                        assert(before + Seq::<Result<Seq<char>, Seq<char>>>::empty() == before);
                    }
                },
            }
        }
        i += 1;
    }
    proof {
        assert(paths@.take(i as int) == paths@);
    }
    files
}

/// Whether a line is kept: it matches, or the match is inverted and it does
/// not.
pub open spec fn keeps(pattern: Regex, invert_match: bool, line: Seq<char>) -> bool {
    regex_match(pattern, line) != invert_match
}

/// The lines that are kept, in order, each without its line ending; or
/// nothing where a line is not well-formed UTF-8.
pub open spec fn kept_lines(lines: Seq<Seq<u8>>, pattern: Regex, invert_match: bool) -> Option<
    Seq<Seq<char>>,
>
    decreases lines.len(),
{
    if lines.len() == 0 {
        Some(Seq::empty())
    } else if !valid_utf8(strip_eol(lines[0])) {
        None
    } else {
        let line = decode_utf8(strip_eol(lines[0]));
        match kept_lines(lines.drop_first(), pattern, invert_match) {
            None => None,
            Some(rest) => Some(
                if keeps(pattern, invert_match, line) {
                    seq![line] + rest
                } else {
                    rest
                },
            ),
        }
    }
}

/// The lines of `data` that match the expression, or, where the match is
/// inverted, those that do not. Fails where a line is not well-formed UTF-8.
pub fn find_lines(data: &[u8], pattern: &Regex, invert_match: bool) -> (r: Result<
    Vec<String>,
    Failure,
>)
    ensures
        match r {
            Ok(found) => kept_lines(lines_of(data@), *pattern, invert_match) == Some(
                strings(found@),
            ),
            Err(f) => kept_lines(lines_of(data@), *pattern, invert_match) is None && f
                is InvalidText,
        },
{
    let ghost whole = kept_lines(lines_of(data@), *pattern, invert_match);
    let mut found: Vec<String> = Vec::new();
    let mut pos: usize = 0;
    proof {
        assert(data@.skip(0) == data@);
        assert(Seq::<Seq<char>>::empty() + kept_lines(
            lines_of(data@),
            *pattern,
            invert_match,
        ).unwrap_or(Seq::empty()) == kept_lines(lines_of(data@), *pattern, invert_match).unwrap_or(
            Seq::empty(),
        ));
    }
    while pos < data.len()
        invariant
            pos <= data@.len(),
            whole == kept_lines(lines_of(data@), *pattern, invert_match),
            whole == match kept_lines(lines_of(data@.skip(pos as int)), *pattern, invert_match) {
                None => None,
                Some(rest) => Some(strings(found@) + rest),
            },
        decreases data@.len() - pos,
    {
        let end = line_end(data, pos);
        let full = vstd::slice::slice_subrange(data, pos, end);
        let line = vstd::slice::slice_subrange(full, 0, stripped_len(full));
        let ghost so_far = strings(found@);
        proof {
            let lines = lines_of(data@.skip(pos as int));
            assert(lines.drop_first() == lines_of(data@.skip(end as int)));
            assert(lines[0] == full@);
        }
        let text = match decode(line) {
            Some(text) => text,
            None => {
                return Err(Failure::InvalidText);
            },
        };
        if is_match(pattern, text) != invert_match {
            found.push(String::from_str(text));
            proof {
                assert(strings(found@) == so_far + seq![text@]);
                let rest = kept_lines(lines_of(data@.skip(end as int)), *pattern, invert_match);
                if rest is Some {
                    assert(so_far + (seq![text@] + rest->0) == (so_far + seq![text@]) + rest->0);
                }
            }
        }
        pos = end;
    }
    proof {
        assert(strings(found@) + Seq::<Seq<char>>::empty() == strings(found@));
    }
    Ok(found)
}

impl PatternError {
    /// The text that describes the error.
    pub fn message(&self) -> (text: String)
        ensures
            text@ == "Invalid pattern \""@ + self.pattern@ + "\""@,
    {
        let mut text = String::from_str("Invalid pattern \"");
        text.append(self.pattern.as_str());
        text.append("\"");
        text
    }
}

impl Config {
    /// The configuration for the given pattern, inputs and flags. Fails
    /// where the pattern does not compile, and keeps the pattern then.
    pub fn new(
        pattern: &str,
        insensitive: bool,
        files: Vec<Result<String, String>>,
        recursive: bool,
        count: bool,
        invert_match: bool,
    ) -> (r: Result<Config, PatternError>)
        ensures
            match r {
                Ok(c) => c.files == files && c.recursive == recursive && c.count == count
                    && c.invert_match == invert_match,
                Err(e) => e.pattern@ == pattern@,
            },
    {
        match compile(pattern, insensitive) {
            Ok(pattern) => Ok(Config { pattern, files, count, recursive, invert_match }),
            Err(_) => Err(PatternError { pattern: String::from_str(pattern) }),
        }
    }
}

/// What goes before each line that is shown of an input: its name and a
/// colon where inputs are told apart, else nothing.
pub open spec fn label(name: Seq<char>, labelled: bool) -> Seq<char> {
    if labelled {
        name + seq![':']
    } else {
        Seq::empty()
    }
}

/// The lines as they are shown: each after the label and before a line
/// feed.
pub open spec fn shown(lines: Seq<Seq<char>>, label: Seq<char>) -> Seq<u8>
    decreases lines.len(),
{
    if lines.len() == 0 {
        Seq::empty()
    } else {
        encode_utf8(label + lines[0] + seq!['\n']) + shown(lines.drop_first(), label)
    }
}

/// What is shown for the lines that were kept of one input: the lines, or
/// their number where the count is asked for.
pub open spec fn found_text(lines: Seq<Seq<char>>, label: Seq<char>, count: bool) -> Seq<u8> {
    if count {
        encode_utf8(label + digits_of(lines.len()) + seq!['\n'])
    } else {
        shown(lines, label)
    }
}

/// Writes to `out` what is shown for the lines that were kept of one input.
pub fn show_found(lines: &Vec<String>, label: &String, count: bool, out: &mut Vec<u8>)
    ensures
        final(out)@ == old(out)@ + found_text(strings(lines@), label@, count),
{
    if count {
        let mut text = label.clone();
        text.append(number(lines.len()).as_str());
        push_char(&mut text, '\n');
        proof {
            let body = label@ + digits_of(lines@.len());
            assert(body.push('\n') == body + seq!['\n']);
        }
        append(out, text.as_str().as_bytes());
    } else {
        let ghost all = strings(lines@);
        let mut i: usize = 0;
        proof {
            assert(all.skip(0) == all);
        }
        while i < lines.len()
            invariant
                i <= lines@.len(),
                all == strings(lines@),
                shown(all, label@) == out@.skip(old(out)@.len() as int) + shown(
                    all.skip(i as int),
                    label@,
                ),
                out@.len() >= old(out)@.len(),
                out@.take(old(out)@.len() as int) == old(out)@,
            decreases lines@.len() - i,
        {
            let mut text = label.clone();
            text.append(lines[i].as_str());
            push_char(&mut text, '\n');
            proof {
                let body = label@ + lines@[i as int]@;
                assert(body.push('\n') == body + seq!['\n']);
                assert(all.skip(i as int).drop_first() == all.skip(i + 1));
                assert(all.skip(i as int)[0] == lines@[i as int]@);
            }
            append(out, text.as_str().as_bytes());
            i += 1;
        }
    }
}

impl PerFile for Config {
    open spec fn intro(&self) -> Seq<char> {
        "Failed to open "@
    }

    open spec fn file_result(&self, name: Seq<char>, many: bool, data: Seq<u8>) -> (Seq<u8>, bool) {
        match kept_lines(lines_of(data), self.pattern, self.invert_match) {
            None => (Seq::empty(), true),
            Some(lines) => (
                found_text(lines, label(name, self.recursive || many), self.count),
                false,
            ),
        }
    }

    open spec fn ends_with(&self, failure: Failure) -> bool {
        failure is InvalidText
    }

    fn diagnostic_intro(&self) -> &'static str {
        "Failed to open "
    }

    fn process(&self, name: &String, many: bool, data: &[u8], out: &mut Vec<u8>) -> (failure:
        Option<Failure>) {
        match find_lines(data, &self.pattern, self.invert_match) {
            Err(failure) => {
                proof {
                    assert(old(out)@ + Seq::<u8>::empty() == old(out)@);
                }
                Some(failure)
            },
            Ok(lines) => {
                let mut label = String::new();
                if self.recursive || many {
                    label.append(name.as_str());
                    push_char(&mut label, ':');
                    proof {
                        assert(Seq::<char>::empty() + name@ == name@);
                        assert(name@.push(':') == name@ + seq![':']);
                    }
                }
                show_found(&lines, &label, self.count, out);
                None
            },
        }
    }
}

/// What a run over the given inputs produces.
///
/// The inputs are taken in order. One that was not found adds its message
/// to the diagnostics; one that could not be opened adds a diagnostic line;
/// one that was read adds what is shown of it. A line that is not
/// well-formed UTF-8 ends the run.
pub open spec fn run_result(
    config: Config,
    targets: Seq<Result<FileTarget, String>>,
    many: bool,
) -> Report
    decreases targets.len(),
{
    if targets.len() == 0 {
        Report { output: Seq::empty(), diagnostics: Seq::empty(), failed: false }
    } else {
        let rest = run_result(config, targets.drop_first(), many);
        match targets[0] {
            Err(message) => Report {
                output: rest.output,
                diagnostics: seq![message@] + rest.diagnostics,
                failed: rest.failed,
            },
            Ok(target) => match target.content {
                Err(cause) => Report {
                    output: rest.output,
                    diagnostics: seq![diagnostic(config.intro(), target.name@, cause@)]
                        + rest.diagnostics,
                    failed: rest.failed,
                },
                Ok(data) => {
                    let (output, failed) = config.file_result(target.name@, many, data@);
                    if failed {
                        Report { output, diagnostics: Seq::empty(), failed: true }
                    } else {
                        Report {
                            output: output + rest.output,
                            diagnostics: rest.diagnostics,
                            failed: rest.failed,
                        }
                    }
                },
            },
        }
    }
}

/// Searches each input and shows what was found.
pub fn run(config: &Config, targets: &Vec<Result<FileTarget, String>>) -> (outcome: Outcome)
    ensures
        outcome@ == run_result(*config, targets@, targets@.len() > 1),
        outcome.failure matches Some(f) ==> config.ends_with(f),
{
    let many: bool = targets.len() > 1;
    let mut output: Vec<u8> = Vec::new();
    let mut diagnostics: Vec<String> = Vec::new();
    let mut i: usize = 0;
    proof {
        assert(targets@.skip(0) == targets@);
    }
    while i < targets.len()
        invariant
            i <= targets@.len(),
            many == (targets@.len() > 1),
            run_result(*config, targets@, many).output == output@ + run_result(
                *config,
                targets@.skip(i as int),
                many,
            ).output,
            run_result(*config, targets@, many).diagnostics == strings(diagnostics@) + run_result(
                *config,
                targets@.skip(i as int),
                many,
            ).diagnostics,
            run_result(*config, targets@, many).failed == run_result(
                *config,
                targets@.skip(i as int),
                many,
            ).failed,
        decreases targets@.len() - i,
    {
        let ghost before = strings(diagnostics@);
        let ghost written = output@;
        let ghost rest = run_result(*config, targets@.skip(i + 1), many);
        proof {
            assert(targets@.skip(i as int).drop_first() == targets@.skip(i + 1));
            assert(targets@.skip(i as int)[0] == targets@[i as int]);
        }
        match &targets[i] {
            Err(message) => {
                diagnostics.push(message.clone());
                proof {
                    assert(strings(diagnostics@) == before + seq![message@]);
                    assert(before + (seq![message@] + rest.diagnostics) == (before + seq![
                        message@,
                    ]) + rest.diagnostics);
                }
            },
            Ok(target) => match &target.content {
                Err(cause) => {
                    diagnostics.push(diagnostic_line("Failed to open ", &target.name, cause));
                    proof {
                        let line = diagnostic(config.intro(), target.name@, cause@);
                        assert(strings(diagnostics@) == before + seq![line]);
                        assert(before + (seq![line] + rest.diagnostics) == (before + seq![line])
                            + rest.diagnostics);
                    }
                },
                Ok(data) => {
                    let failure = config.process(&target.name, many, data.as_slice(), &mut output);
                    if failure.is_some() {
                        proof {
                            assert(before + Seq::<Seq<char>>::empty() == before);
                        }
                        return Outcome { output, diagnostics, failure };
                    }
                    proof {
                        let part = config.file_result(target.name@, many, data@).0;
                        assert(written + (part + rest.output) == (written + part) + rest.output);
                    }
                },
            },
        }
        i += 1;
    }
    proof {
        assert(output@ + Seq::<u8>::empty() == output@);
        assert(strings(diagnostics@) + Seq::<Seq<char>>::empty() == strings(diagnostics@));
    }
    Outcome { output, diagnostics, failure: None }
}

} // verus!
